//! Declarative project command packs: checking a pack, the templates it
//! offers, its digest, and whether the exact contents were approved.
use vstd::prelude::*;
use crate::form::{fault_message, form_fields, token_placeholder, FormError, FormFault, TemplateForm};
use crate::forms::{
    copy_params, copy_strings, join, join_strings, param_views, CommandTemplate, ParamView, TemplateParameter,
    TemplateView,
};
use crate::text::{
    chars_of, is_blank, is_blank_str, is_control, is_whitespace, push_char, push_str, spec_is_control, spec_is_whitespace, str_eq, string_views,
};

verus! {

/// The largest pack file that is read.
pub const MAX_PACK_BYTES: u64 = 1048576;

/// A pack's identity.
#[derive(Debug)]
pub struct PackMeta {
    pub id: String,
    pub name: String,
    pub version: String,
}

/// The value of a pack's identity.
pub struct MetaView {
    pub id: Seq<char>,
    pub name: Seq<char>,
    pub version: Seq<char>,
}

impl View for PackMeta {
    type V = MetaView;

    open spec fn view(&self) -> MetaView {
        MetaView { id: self.id@, name: self.name@, version: self.version@ }
    }
}

/// One operation of a pack: a command line of fixed tokens and whole-token
/// `{name}` parameters.
#[derive(Debug)]
pub struct PackOperation {
    pub id: String,
    pub name: String,
    pub description: String,
    pub tags: Vec<String>,
    pub tokens: Vec<String>,
    pub parameters: Vec<TemplateParameter>,
}

/// The value of an operation.
pub struct OperationView {
    pub id: Seq<char>,
    pub name: Seq<char>,
    pub description: Seq<char>,
    pub tags: Seq<Seq<char>>,
    pub tokens: Seq<Seq<char>>,
    pub parameters: Seq<ParamView>,
}

impl View for PackOperation {
    type V = OperationView;

    open spec fn view(&self) -> OperationView {
        OperationView {
            id: self.id@,
            name: self.name@,
            description: self.description@,
            tags: string_views(self.tags@),
            tokens: string_views(self.tokens@),
            parameters: param_views(self.parameters@),
        }
    }
}

/// A pack file.
#[derive(Debug)]
pub struct PackFile {
    pub schema_version: u32,
    pub pack: PackMeta,
    pub operations: Vec<PackOperation>,
}

/// The value of a pack file.
pub struct PackView {
    pub schema_version: u32,
    pub pack: MetaView,
    pub operations: Seq<OperationView>,
}

/// Values of a list of operations.
pub open spec fn operation_views(v: Seq<PackOperation>) -> Seq<OperationView> {
    v.map_values(|o: PackOperation| o@)
}

impl View for PackFile {
    type V = PackView;

    open spec fn view(&self) -> PackView {
        PackView { schema_version: self.schema_version, pack: self.pack@, operations: operation_views(self.operations@) }
    }
}

/// The template of an operation: its id qualified by the pack's id.
pub open spec fn operation_template(op: OperationView, pack: MetaView) -> TemplateView {
    TemplateView {
        id: pack.id + seq![':'] + op.id,
        name: op.name,
        command: Seq::empty(),
        tokens: op.tokens,
        description: op.description,
        tags: op.tags,
        parameters: op.parameters,
    }
}

impl PackOperation {
    /// The template this operation offers.
    pub fn template(&self, pack: &PackMeta) -> (r: CommandTemplate)
        ensures
            r@ == operation_template(self@, pack@),
    {
        let mut id = pack.id.clone();
        push_char(&mut id, ':');
        push_str(&mut id, self.id.as_str());
        assert(id@ =~= pack.id@ + seq![':'] + self.id@);
        CommandTemplate {
            id,
            name: self.name.clone(),
            command: String::new(),
            tokens: copy_strings(&self.tokens),
            description: self.description.clone(),
            tags: copy_strings(&self.tags),
            parameters: copy_params(&self.parameters),
        }
    }
}

/// Why a pack is refused, by value.
pub enum PackFault {
    Schema,
    Meta,
    Operation,
    DuplicateParameter(Seq<char>),
    UndefinedField(Seq<char>, Seq<char>),
    Token(Seq<char>),
    Form(FormFault),
    Source(Seq<char>, Seq<char>),
    EnumDefault(Seq<char>, Seq<char>),
}

/// Why a pack is refused.
#[derive(Debug)]
pub enum PackError {
    /// The schema version is not 1.
    Schema,
    /// The pack's id, name or version is blank.
    Meta,
    /// An operation's id, name or tokens are missing, or its id repeats.
    Operation,
    /// Two parameters of the operation (id) share a name.
    DuplicateParameter(String),
    /// A token of the operation (id) names a field (name) that no parameter defines.
    UndefinedField(String, String),
    /// A token of the operation (id) is empty or holds a character that is not allowed.
    Token(String),
    /// The operation's template cannot make a form.
    Form(FormError),
    /// A parameter (operation id, parameter name) names an unsupported data source.
    Source(String, String),
    /// An enum parameter's (operation id, parameter name) default is not one of its values.
    EnumDefault(String, String),
}

impl View for PackError {
    type V = PackFault;

    open spec fn view(&self) -> PackFault {
        match self {
            PackError::Schema => PackFault::Schema,
            PackError::Meta => PackFault::Meta,
            PackError::Operation => PackFault::Operation,
            PackError::DuplicateParameter(o) => PackFault::DuplicateParameter(o@),
            PackError::UndefinedField(o, n) => PackFault::UndefinedField(o@, n@),
            PackError::Token(o) => PackFault::Token(o@),
            PackError::Form(e) => PackFault::Form(e@),
            PackError::Source(o, p) => PackFault::Source(o@, p@),
            PackError::EnumDefault(o, p) => PackFault::EnumDefault(o@, p@),
        }
    }
}

/// The message shown for a refused pack.
pub open spec fn pack_fault_message(f: PackFault) -> Seq<char> {
    match f {
        PackFault::Schema => "项目命令包 schema_version 必须为 1"@,
        PackFault::Meta => "项目命令包必须提供 id、name 和 version"@,
        PackFault::Operation => "项目操作需要非空且唯一的 id、name 和 tokens"@,
        PackFault::DuplicateParameter(o) => "操作 "@ + o + " 的参数名称重复"@,
        PackFault::UndefinedField(o, n) => "操作 "@ + o + " 的字段 "@ + n + " 未定义"@,
        PackFault::Token(o) => "操作 "@ + o + " 含有不允许的命令 token"@,
        PackFault::Form(e) => fault_message(e),
        PackFault::Source(o, p) => "操作 "@ + o + " 的参数 "@ + p + " 使用了不支持的数据源"@,
        PackFault::EnumDefault(o, p) => "操作 "@ + o + " 的参数 "@ + p + " 默认值不在枚举值中"@,
    }
}

impl PackError {
    /// The message shown to the user.
    pub fn message(&self) -> (r: String)
        ensures
            r@ == pack_fault_message(self@),
    {
        match self {
            PackError::Schema => "项目命令包 schema_version 必须为 1".to_owned(),
            PackError::Meta => "项目命令包必须提供 id、name 和 version".to_owned(),
            PackError::Operation => "项目操作需要非空且唯一的 id、name 和 tokens".to_owned(),
            PackError::DuplicateParameter(o) => {
                let mut r = "操作 ".to_owned();
                push_str(&mut r, o.as_str());
                push_str(&mut r, " 的参数名称重复");
                r
            },
            PackError::UndefinedField(o, n) => {
                let mut r = "操作 ".to_owned();
                push_str(&mut r, o.as_str());
                push_str(&mut r, " 的字段 ");
                push_str(&mut r, n.as_str());
                push_str(&mut r, " 未定义");
                r
            },
            PackError::Token(o) => {
                let mut r = "操作 ".to_owned();
                push_str(&mut r, o.as_str());
                push_str(&mut r, " 含有不允许的命令 token");
                r
            },
            PackError::Form(e) => e.message(),
            PackError::Source(o, p) => {
                let mut r = "操作 ".to_owned();
                push_str(&mut r, o.as_str());
                push_str(&mut r, " 的参数 ");
                push_str(&mut r, p.as_str());
                push_str(&mut r, " 使用了不支持的数据源");
                r
            },
            PackError::EnumDefault(o, p) => {
                let mut r = "操作 ".to_owned();
                push_str(&mut r, o.as_str());
                push_str(&mut r, " 的参数 ");
                push_str(&mut r, p.as_str());
                push_str(&mut r, " 默认值不在枚举值中");
                r
            },
        }
    }
}

/// A character no fixed token may hold: control characters, white space
/// and the shell's operator and quoting characters.
pub open spec fn forbidden_token_char(c: char) -> bool {
    spec_is_control(c) || spec_is_whitespace(c) || c == ';' || c == '|' || c == '&' || c == '<' || c == '>'
        || c == '`' || c == '$' || c == '"' || c == '\'' || c == '{' || c == '}'
}

/// What is wrong with one token of an operation, if anything: a
/// placeholder must name a parameter; a fixed token must be non-empty and
/// hold no forbidden character.
pub open spec fn token_fault(op_id: Seq<char>, names: Seq<Seq<char>>, t: Seq<char>) -> Option<PackFault> {
    match token_placeholder(t) {
        Some(n) => if names.contains(n) { None } else { Some(PackFault::UndefinedField(op_id, n)) },
        None => if t.len() == 0 || exists|i: int| 0 <= i < t.len() && forbidden_token_char(#[trigger] t[i]) {
            Some(PackFault::Token(op_id))
        } else {
            None
        },
    }
}

/// The first fault among the tokens, in order.
pub open spec fn tokens_fault(op_id: Seq<char>, names: Seq<Seq<char>>, tokens: Seq<Seq<char>>) -> Option<PackFault>
    decreases tokens.len(),
{
    if tokens.len() == 0 {
        None
    } else {
        match tokens_fault(op_id, names, tokens.drop_last()) {
            Some(f) => Some(f),
            None => token_fault(op_id, names, tokens.last()),
        }
    }
}

/// The data sources a parameter may draw its values from.
pub open spec fn allowed_source(s: Seq<char>) -> bool {
    s == "cargo.packages"@ || s == "cargo.features"@ || s == "cargo.tests"@ || s == "docker.compose.service"@
}

/// What is wrong with one parameter, if anything.
pub open spec fn parameter_fault(op_id: Seq<char>, p: ParamView) -> Option<PackFault> {
    if p.source.len() > 0 && !allowed_source(p.source) {
        Some(PackFault::Source(op_id, p.name))
    } else if p.kind == "enum"@ && p.default.len() > 0 && !p.values.contains(p.default) {
        Some(PackFault::EnumDefault(op_id, p.name))
    } else {
        None
    }
}

/// The first fault among the parameters, in order.
pub open spec fn parameters_fault(op_id: Seq<char>, ps: Seq<ParamView>) -> Option<PackFault>
    decreases ps.len(),
{
    if ps.len() == 0 {
        None
    } else {
        match parameters_fault(op_id, ps.drop_last()) {
            Some(f) => Some(f),
            None => parameter_fault(op_id, ps.last()),
        }
    }
}

/// No two parameters share a name.
pub open spec fn names_distinct(ps: Seq<ParamView>) -> bool {
    forall|i: int, j: int| 0 <= i < j < ps.len() ==> (#[trigger] ps[i]).name != (#[trigger] ps[j]).name
}

/// The names of parameters.
pub open spec fn parameter_names(ps: Seq<ParamView>) -> Seq<Seq<char>> {
    ps.map_values(|p: ParamView| p.name)
}

/// What is wrong with an operation, given the ids of the operations before it.
pub open spec fn operation_fault(op: OperationView, pack: MetaView, earlier_ids: Seq<Seq<char>>) -> Option<PackFault> {
    if is_blank(op.id) || is_blank(op.name) || op.tokens.len() == 0 || earlier_ids.contains(op.id) {
        Some(PackFault::Operation)
    } else if !names_distinct(op.parameters) {
        Some(PackFault::DuplicateParameter(op.id))
    } else {
        match tokens_fault(op.id, parameter_names(op.parameters), op.tokens) {
            Some(f) => Some(f),
            None => match form_fields(operation_template(op, pack)) {
                Err(e) => Some(PackFault::Form(e)),
                Ok(_) => parameters_fault(op.id, op.parameters),
            },
        }
    }
}

/// The ids of operations.
pub open spec fn operation_ids(ops: Seq<OperationView>) -> Seq<Seq<char>> {
    ops.map_values(|o: OperationView| o.id)
}

/// The first fault among the operations, in order.
pub open spec fn operations_fault(ops: Seq<OperationView>, pack: MetaView) -> Option<PackFault>
    decreases ops.len(),
{
    if ops.len() == 0 {
        None
    } else {
        match operations_fault(ops.drop_last(), pack) {
            Some(f) => Some(f),
            None => operation_fault(ops.last(), pack, operation_ids(ops.drop_last())),
        }
    }
}

/// What is wrong with a pack file, if anything.
pub open spec fn pack_fault(f: PackView) -> Option<PackFault> {
    if f.schema_version != 1 {
        Some(PackFault::Schema)
    } else if is_blank(f.pack.id) || is_blank(f.pack.name) || is_blank(f.pack.version) {
        Some(PackFault::Meta)
    } else {
        operations_fault(f.operations, f.pack)
    }
}

proof fn lemma_tokens_fault_prefix(op_id: Seq<char>, names: Seq<Seq<char>>, tokens: Seq<Seq<char>>, n: int)
    requires
        0 <= n <= tokens.len(),
        tokens_fault(op_id, names, tokens.take(n)) is Some,
    ensures
        tokens_fault(op_id, names, tokens) == tokens_fault(op_id, names, tokens.take(n)),
    decreases tokens.len() - n,
{
    if n < tokens.len() {
        assert(tokens.take(n + 1).drop_last() =~= tokens.take(n));
        lemma_tokens_fault_prefix(op_id, names, tokens, n + 1);
    } else {
        assert(tokens.take(n) =~= tokens);
    }
}

proof fn lemma_parameters_fault_prefix(op_id: Seq<char>, ps: Seq<ParamView>, n: int)
    requires
        0 <= n <= ps.len(),
        parameters_fault(op_id, ps.take(n)) is Some,
    ensures
        parameters_fault(op_id, ps) == parameters_fault(op_id, ps.take(n)),
    decreases ps.len() - n,
{
    if n < ps.len() {
        assert(ps.take(n + 1).drop_last() =~= ps.take(n));
        lemma_parameters_fault_prefix(op_id, ps, n + 1);
    } else {
        assert(ps.take(n) =~= ps);
    }
}

proof fn lemma_operations_fault_prefix(ops: Seq<OperationView>, pack: MetaView, n: int)
    requires
        0 <= n <= ops.len(),
        operations_fault(ops.take(n), pack) is Some,
    ensures
        operations_fault(ops, pack) == operations_fault(ops.take(n), pack),
    decreases ops.len() - n,
{
    if n < ops.len() {
        assert(ops.take(n + 1).drop_last() =~= ops.take(n));
        lemma_operations_fault_prefix(ops, pack, n + 1);
    } else {
        assert(ops.take(n) =~= ops);
    }
}

fn contains_str(v: &Vec<String>, s: &str) -> (r: bool)
    ensures
        r == string_views(v@).contains(s@),
{
    let mut k: usize = 0;
    while k < v.len()
        invariant
            k <= v@.len(),
            forall|j: int| 0 <= j < k ==> v@[j]@ != s@,
        decreases v@.len() - k,
    {
        if str_eq(v[k].as_str(), s) {
            assert(string_views(v@)[k as int] == s@);
            return true;
        }
        k = k + 1;
    }
    assert forall|j: int| 0 <= j < string_views(v@).len() implies string_views(v@)[j] != s@ by {
        assert(string_views(v@)[j] == v@[j]@);
    }
    false
}

fn forbidden_char(c: char) -> (r: bool)
    ensures
        r == forbidden_token_char(c),
{
    is_control(c) || is_whitespace(c) || c == ';' || c == '|' || c == '&' || c == '<' || c == '>' || c == '`'
        || c == '$' || c == '"' || c == '\'' || c == '{' || c == '}'
}

fn check_token(op_id: &String, parameters: &Vec<TemplateParameter>, token: &str) -> (r: Result<(), PackError>)
    ensures
        match token_fault(op_id@, parameter_names(param_views(parameters@)), token@) {
            Some(f) => r matches Err(e) && e@ == f,
            None => r is Ok,
        },
{
    let ghost names = parameter_names(param_views(parameters@));
    match crate::form::placeholder_of(token) {
        Some(n) => {
            let mut k: usize = 0;
            while k < parameters.len()
                invariant
                    names == parameter_names(param_views(parameters@)),
                    token_placeholder(token@) == Some(n@),
                    k <= parameters@.len(),
                    forall|j: int| 0 <= j < k ==> names[j] != n@,
                decreases parameters@.len() - k,
            {
                if str_eq(parameters[k].name.as_str(), n.as_str()) {
                    assert(names[k as int] == n@);
                    assert(names.contains(n@));
                        return Ok(());
                }
                k = k + 1;
            }
            Err(PackError::UndefinedField(op_id.clone(), n))
        },
        None => {
            let c = chars_of(token);
            if c.len() == 0 {
                assert(token@.len() == 0);
                return Err(PackError::Token(op_id.clone()));
            }
            let mut i: usize = 0;
            while i < c.len()
                invariant
                    c@ == token@,
                    token_placeholder(token@) is None,
                    i <= c@.len(),
                    forall|j: int| 0 <= j < i ==> !forbidden_token_char(#[trigger] c@[j]),
                decreases c@.len() - i,
            {
                if forbidden_char(c[i]) {
                    assert(forbidden_token_char(token@[i as int]));
                    return Err(PackError::Token(op_id.clone()));
                }
                i = i + 1;
            }
            Ok(())
        },
    }
}

fn check_parameter(op_id: &String, p: &TemplateParameter) -> (r: Result<(), PackError>)
    ensures
        match parameter_fault(op_id@, p@) {
            Some(f) => r matches Err(e) && e@ == f,
            None => r is Ok,
        },
{
    let s = p.source.as_str();
    let allowed = str_eq(s, "cargo.packages") || str_eq(s, "cargo.features") || str_eq(s, "cargo.tests")
        || str_eq(s, "docker.compose.service");
    if !s.is_empty() && !allowed {
        return Err(PackError::Source(op_id.clone(), p.name.clone()));
    }
    if str_eq(p.kind.as_str(), "enum") && !p.default.as_str().is_empty() && !contains_str(&p.values, p.default.as_str()) {
        return Err(PackError::EnumDefault(op_id.clone(), p.name.clone()));
    }
    Ok(())
}

#[verifier::loop_isolation(false)]
fn check_operation(op: &PackOperation, pack: &PackMeta, earlier: &Vec<PackOperation>, count: usize) -> (r: Result<(), PackError>)
    requires
        count <= earlier@.len(),
    ensures
        match operation_fault(op@, pack@, operation_ids(operation_views(earlier@.take(count as int)))) {
            Some(f) => r matches Err(e) && e@ == f,
            None => r is Ok,
        },
{
    let ghost ids = operation_ids(operation_views(earlier@.take(count as int)));
    let mut seen = false;
    let mut k: usize = 0;
    while k < count
        invariant
            count <= earlier@.len(),
            ids == operation_ids(operation_views(earlier@.take(count as int))),
            k <= count,
            seen == exists|j: int| 0 <= j < k && ids[j] == op.id@,
        decreases count - k,
    {
        assert(ids[k as int] == earlier@[k as int].id@);
        if str_eq(earlier[k].id.as_str(), op.id.as_str()) {
            seen = true;
        }
        k = k + 1;
    }
    assert(seen == ids.contains(op.id@));
    if is_blank_str(op.id.as_str()) || is_blank_str(op.name.as_str()) || op.tokens.len() == 0 || seen {
        return Err(PackError::Operation);
    }
    let ghost ps = param_views(op.parameters@);
    let mut a: usize = 0;
    while a < op.parameters.len()
        invariant
            ps == param_views(op.parameters@),
            a <= ps.len(),
            forall|i: int, j: int| 0 <= i < j < ps.len() && i < a ==> (#[trigger] ps[i]).name != (#[trigger] ps[j]).name,
        decreases ps.len() - a,
    {
        let mut b: usize = a + 1;
        while b < op.parameters.len()
            invariant
                ps == param_views(op.parameters@),
                a < ps.len(),
                a < b <= ps.len(),
                forall|i: int, j: int| 0 <= i < j < ps.len() && i < a ==> (#[trigger] ps[i]).name != (#[trigger] ps[j]).name,
                forall|j: int| a < j < b ==> ps[a as int].name != (#[trigger] ps[j]).name,
            decreases ps.len() - b,
        {
            if str_eq(op.parameters[a].name.as_str(), op.parameters[b].name.as_str()) {
                assert(ps[a as int].name == ps[b as int].name);
                assert(!names_distinct(ps));
                return Err(PackError::DuplicateParameter(op.id.clone()));
            }
            b = b + 1;
        }
        a = a + 1;
    }
    assert(names_distinct(ps));
    let ghost tv = string_views(op.tokens@);
    let ghost names = parameter_names(ps);
    let mut t: usize = 0;
    while t < op.tokens.len()
        invariant
            tv == string_views(op.tokens@),
            ps == param_views(op.parameters@),
            names == parameter_names(ps),
            t <= tv.len(),
            tokens_fault(op.id@, names, tv.take(t as int)) is None,
        decreases tv.len() - t,
    {
        assert(tv.take(t as int + 1).drop_last() =~= tv.take(t as int));
        assert(tv.take(t as int + 1).last() == op.tokens@[t as int]@);
        match check_token(&op.id, &op.parameters, op.tokens[t].as_str()) {
            Err(e) => {
                proof {
                    lemma_tokens_fault_prefix(op.id@, names, tv, t as int + 1);
                }
                return Err(e);
            },
            Ok(()) => {},
        }
        t = t + 1;
    }
    assert(tv.take(t as int) =~= tv);
    let template = op.template(pack);
    match TemplateForm::new(template) {
        Err(e) => return Err(PackError::Form(e)),
        Ok(_) => {},
    }
    let mut p: usize = 0;
    while p < op.parameters.len()
        invariant
            ps == param_views(op.parameters@),
            p <= ps.len(),
            parameters_fault(op.id@, ps.take(p as int)) is None,
        decreases ps.len() - p,
    {
        assert(ps.take(p as int + 1).drop_last() =~= ps.take(p as int));
        assert(ps.take(p as int + 1).last() == op.parameters@[p as int]@);
        match check_parameter(&op.id, &op.parameters[p]) {
            Err(e) => {
                proof {
                    lemma_parameters_fault_prefix(op.id@, ps, p as int + 1);
                }
                return Err(e);
            },
            Ok(()) => {},
        }
        p = p + 1;
    }
    assert(ps.take(p as int) =~= ps);
    Ok(())
}

impl PackFile {
    /// Check a pack: schema version 1, an identity, and operations with
    /// unique ids, distinct parameter names, defined fields, safe tokens,
    /// a valid form, supported data sources and enum defaults among their
    /// values. The first fault found is returned.
    #[verifier::loop_isolation(false)]
    pub fn validate(&self) -> (r: Result<(), PackError>)
        ensures
            match pack_fault(self@) {
                Some(f) => r matches Err(e) && e@ == f,
                None => r is Ok,
            },
    {
        if self.schema_version != 1 {
            return Err(PackError::Schema);
        }
        if is_blank_str(self.pack.id.as_str()) || is_blank_str(self.pack.name.as_str())
            || is_blank_str(self.pack.version.as_str()) {
            return Err(PackError::Meta);
        }
        let ghost ov = operation_views(self.operations@);
        let mut i: usize = 0;
        while i < self.operations.len()
            invariant
                ov == operation_views(self.operations@),
                i <= ov.len(),
                operations_fault(ov.take(i as int), self.pack@) is None,
            decreases ov.len() - i,
        {
            assert(ov.take(i as int + 1).drop_last() =~= ov.take(i as int));
            assert(ov.take(i as int + 1).last() == self.operations@[i as int]@);
            assert(operation_views(self.operations@.take(i as int)) =~= ov.take(i as int));
            match check_operation(&self.operations[i], &self.pack, &self.operations, i) {
                Err(e) => {
                    proof {
                        lemma_operations_fault_prefix(ov, self.pack@, i as int + 1);
                    }
                    return Err(e);
                },
                Ok(()) => {},
            }
            i = i + 1;
        }
        assert(ov.take(i as int) =~= ov);
        Ok(())
    }

    /// The templates of the pack's operations, in order.
    pub fn templates(&self) -> (r: Vec<CommandTemplate>)
        ensures
            r@.len() == self.operations@.len(),
            forall|i: int| 0 <= i < r@.len() ==> (#[trigger] r@[i])@ == operation_template(self.operations@[i]@, self.pack@),
    {
        let mut r: Vec<CommandTemplate> = Vec::new();
        let mut i: usize = 0;
        while i < self.operations.len()
            invariant
                i <= self.operations@.len(),
                r@.len() == i,
                forall|k: int| 0 <= k < i ==> (#[trigger] r@[k])@ == operation_template(self.operations@[k]@, self.pack@),
            decreases self.operations@.len() - i,
        {
            r.push(self.operations[i].template(&self.pack));
            i = i + 1;
        }
        r
    }
}


/// The SHA-256 digest of a byte string.
pub uninterp spec fn sha256(data: Seq<u8>) -> Seq<u8>;

/// `sha2::Sha256::digest`. The digest is named, not stated; the crate
/// fixes its size at 32 bytes.
#[verifier::external_body]
fn sha256_digest(data: &[u8]) -> (r: Vec<u8>)
    ensures
        r@ == sha256(data@),
        r@.len() == 32,
{
    <sha2::Sha256 as sha2::Digest>::digest(data).to_vec()
}

/// The lower-case hexadecimal digit of `d < 16`.
pub open spec fn hex_digit(d: int) -> char {
    if d < 10 { ((d + 48) as u32) as char } else { ((d + 87) as u32) as char }
}

/// Bytes in lower-case hexadecimal, two digits each.
pub open spec fn hex_lower(b: Seq<u8>) -> Seq<char>
    decreases b.len(),
{
    if b.len() == 0 {
        Seq::empty()
    } else {
        hex_lower(b.drop_last()) + seq![hex_digit((b.last() / 16) as int), hex_digit((b.last() % 16) as int)]
    }
}

fn hex_char(d: u8) -> (r: char)
    requires
        d < 16,
    ensures
        r == hex_digit(d as int),
{
    if d < 10 {
        crate::text::char_from_ascii(d as u32 + 48)
    } else {
        crate::text::char_from_ascii(d as u32 + 87)
    }
}

/// Bytes in lower-case hexadecimal.
pub fn to_hex(bytes: &[u8]) -> (r: String)
    ensures
        r@ == hex_lower(bytes@),
{
    let mut r = String::new();
    let mut i: usize = 0;
    while i < bytes.len()
        invariant
            i <= bytes@.len(),
            r@ == hex_lower(bytes@.take(i as int)),
        decreases bytes@.len() - i,
    {
        let b = bytes[i];
        push_char(&mut r, hex_char(b / 16));
        push_char(&mut r, hex_char(b % 16));
        assert(bytes@.take(i as int + 1).drop_last() =~= bytes@.take(i as int));
        assert(r@ =~= hex_lower(bytes@.take(i as int + 1)));
        i = i + 1;
    }
    assert(bytes@.take(i as int) =~= bytes@);
    r
}

/// The digest that names a pack's exact contents: SHA-256 in lower-case
/// hexadecimal.
pub fn pack_digest(bytes: &[u8]) -> (r: String)
    ensures
        r@ == hex_lower(sha256(bytes@)),
{
    let d = sha256_digest(bytes);
    to_hex(d.as_slice())
}

/// A pack read from a repository: its root, the digest of its bytes, and
/// its checked contents.
#[derive(Debug)]
pub struct LoadedPack {
    pub root: String,
    pub digest: String,
    pub file: PackFile,
}

/// Accept a parsed pack: check it, and name its bytes by their digest.
pub fn load_checked(root: String, bytes: &[u8], file: PackFile) -> (r: Result<LoadedPack, PackError>)
    ensures
        match pack_fault(file@) {
            Some(f) => r matches Err(e) && e@ == f,
            None => r matches Ok(p) && p.root@ == root@ && p.digest@ == hex_lower(sha256(bytes@)) && p.file@ == file@,
        },
{
    match file.validate() {
        Err(e) => Err(e),
        Ok(()) => Ok(LoadedPack { root, digest: pack_digest(bytes), file }),
    }
}

/// An approval: the digest of the approved contents and those contents.
#[derive(Debug)]
pub struct ApprovedPack {
    pub digest: String,
    pub file: PackFile,
}

/// The notice shown while a pack waits for approval.
pub open spec fn pending_notice(pack: MetaView) -> Seq<char> {
    "发现项目命令包 "@ + pack.name + " v"@ + pack.version + "；运行 blueberry packs review 审查"@
}

/// Whether an approval covers exactly the loaded contents.
pub open spec fn approves(approved: Option<Seq<char>>, digest: Seq<char>) -> bool {
    approved == Some(digest)
}

/// The templates a pack offers and the notice shown: its templates when
/// the approval's digest is the pack's, else none and a notice to review
/// it. `approved_digest` is the digest approved for the pack's root.
pub fn pack_status(pack: &LoadedPack, approved_digest: Option<&str>) -> (r: (Vec<CommandTemplate>, Option<String>))
    ensures
        approves(match approved_digest { Some(d) => Some(d@), None => None }, pack.digest@) ==> {
            &&& r.1 is None
            &&& r.0@.len() == pack.file.operations@.len()
            &&& forall|i: int| 0 <= i < r.0@.len()
                ==> (#[trigger] r.0@[i])@ == operation_template(pack.file.operations@[i]@, pack.file.pack@)
        },
        !approves(match approved_digest { Some(d) => Some(d@), None => None }, pack.digest@) ==> {
            &&& r.0@.len() == 0
            &&& r.1 matches Some(m) && m@ == pending_notice(pack.file.pack@)
        },
{
    let approved = match approved_digest {
        Some(d) => str_eq(d, pack.digest.as_str()),
        None => false,
    };
    if approved {
        (pack.file.templates(), None)
    } else {
        let mut m = "发现项目命令包 ".to_owned();
        push_str(&mut m, pack.file.pack.name.as_str());
        push_str(&mut m, " v");
        push_str(&mut m, pack.file.pack.version.as_str());
        push_str(&mut m, "；运行 blueberry packs review 审查");
        (Vec::new(), Some(m))
    }
}

/// Whether approved operations can be used: not while a notice is shown,
/// and not when there are none.
pub fn check_approval(templates: &Vec<CommandTemplate>, status: &Option<String>) -> (r: Result<(), String>)
    ensures
        match status {
            Some(s) => r matches Err(m) && m@ == s@,
            None => if templates@.len() == 0 {
                r matches Err(m) && m@ == "当前仓库没有已批准的项目操作"@
            } else {
                r is Ok
            },
        },
{
    match status {
        Some(s) => Err(s.clone()),
        None => if templates.len() == 0 {
            Err("当前仓库没有已批准的项目操作".to_owned())
        } else {
            Ok(())
        },
    }
}

/// Whether a digest confirmed by the user names the loaded contents;
/// the error says the file changed since it was reviewed.
pub fn confirm_digest(confirmed: &str, pack: &LoadedPack) -> (r: Result<(), String>)
    ensures
        confirmed@ == pack.digest@ ==> r is Ok,
        confirmed@ != pack.digest@ ==> (r matches Err(m) && m@ == "文件内容与审查时的 SHA-256 不一致；请重新运行 packs review"@),
{
    if str_eq(confirmed, pack.digest.as_str()) {
        Ok(())
    } else {
        Err("文件内容与审查时的 SHA-256 不一致；请重新运行 packs review".to_owned())
    }
}


fn same_strings(a: &Vec<String>, b: &Vec<String>) -> (r: bool)
    ensures
        r == (string_views(a@) == string_views(b@)),
{
    if a.len() != b.len() {
        assert(string_views(a@).len() != string_views(b@).len());
        return false;
    }
    let mut i: usize = 0;
    while i < a.len()
        invariant
            a@.len() == b@.len(),
            i <= a@.len(),
            forall|k: int| 0 <= k < i ==> a@[k]@ == b@[k]@,
        decreases a@.len() - i,
    {
        if !str_eq(a[i].as_str(), b[i].as_str()) {
            assert(string_views(a@)[i as int] != string_views(b@)[i as int]);
            return false;
        }
        i = i + 1;
    }
    assert(string_views(a@) =~= string_views(b@));
    true
}

fn same_parameter(a: &TemplateParameter, b: &TemplateParameter) -> (r: bool)
    ensures
        r == (a@ == b@),
{
    str_eq(a.name.as_str(), b.name.as_str()) && str_eq(a.label.as_str(), b.label.as_str())
        && str_eq(a.kind.as_str(), b.kind.as_str()) && a.required == b.required
        && str_eq(a.default.as_str(), b.default.as_str()) && same_strings(&a.values, &b.values)
        && str_eq(a.source.as_str(), b.source.as_str())
}

fn same_parameters(a: &Vec<TemplateParameter>, b: &Vec<TemplateParameter>) -> (r: bool)
    ensures
        r == (param_views(a@) == param_views(b@)),
{
    if a.len() != b.len() {
        assert(param_views(a@).len() != param_views(b@).len());
        return false;
    }
    let mut i: usize = 0;
    while i < a.len()
        invariant
            a@.len() == b@.len(),
            i <= a@.len(),
            forall|k: int| 0 <= k < i ==> a@[k]@ == b@[k]@,
        decreases a@.len() - i,
    {
        if !same_parameter(&a[i], &b[i]) {
            assert(param_views(a@)[i as int] != param_views(b@)[i as int]);
            return false;
        }
        i = i + 1;
    }
    assert(param_views(a@) =~= param_views(b@));
    true
}

fn same_operation(a: &PackOperation, b: &PackOperation) -> (r: bool)
    ensures
        r == (a@ == b@),
{
    str_eq(a.id.as_str(), b.id.as_str()) && str_eq(a.name.as_str(), b.name.as_str())
        && str_eq(a.description.as_str(), b.description.as_str()) && same_strings(&a.tags, &b.tags)
        && same_strings(&a.tokens, &b.tokens) && same_parameters(&a.parameters, &b.parameters)
}

/// The last operation with an id.
pub open spec fn last_with_id(ops: Seq<OperationView>, id: Seq<char>) -> Option<OperationView>
    decreases ops.len(),
{
    if ops.len() == 0 {
        None
    } else if ops.last().id == id {
        Some(ops.last())
    } else {
        last_with_id(ops.drop_last(), id)
    }
}

/// How an operation changed since the approved contents: `+` new, `~`
/// changed, a space when unchanged.
pub open spec fn change_mark(op: OperationView, previous: Option<Seq<OperationView>>) -> char {
    match previous {
        None => '+',
        Some(old) => match last_with_id(old, op.id) {
            None => '+',
            Some(o) => if o == op { ' ' } else { '~' },
        },
    }
}

/// One line of the review: a mark, the operation's name and its command.
pub open spec fn operation_line(mark: char, op: OperationView) -> Seq<char> {
    seq![mark, ' '] + op.name + seq!['：'] + join(op.tokens, ' ') + seq!['\n']
}

/// The review lines of the current operations, in order.
pub open spec fn current_lines(ops: Seq<OperationView>, previous: Option<Seq<OperationView>>) -> Seq<char>
    decreases ops.len(),
{
    if ops.len() == 0 {
        Seq::empty()
    } else {
        current_lines(ops.drop_last(), previous) + operation_line(change_mark(ops.last(), previous), ops.last())
    }
}

/// The ids approved before that the current contents no longer have.
pub open spec fn removed_id(old: Seq<OperationView>, current: Seq<OperationView>, id: Seq<char>) -> bool {
    operation_ids(old).contains(id) && !operation_ids(current).contains(id)
}

/// Strictly ascending in character-code order.
pub open spec fn ascending(ids: Seq<Seq<char>>) -> bool {
    forall|i: int, j: int| 0 <= i < j < ids.len() ==> crate::path_cache::chars_less(#[trigger] ids[i], #[trigger] ids[j])
}

/// The review lines of removed operations: for each id, its last
/// operation, marked `-`.
pub open spec fn removed_lines(ids: Seq<Seq<char>>, old: Seq<OperationView>) -> Seq<char>
    decreases ids.len(),
{
    if ids.len() == 0 {
        Seq::empty()
    } else {
        removed_lines(ids.drop_last(), old) + match last_with_id(old, ids.last()) {
            Some(o) => operation_line('-', o),
            None => Seq::empty(),
        }
    }
}

/// The head of the review: source, identity, digest and approval state.
pub open spec fn review_head(source: Seq<char>, pack: MetaView, digest: Seq<char>, approved: bool) -> Seq<char> {
    "来源："@ + source + seq!['\n'] + "项目命令包："@ + pack.name + " ("@ + pack.id + ") v"@ + pack.version + seq!['\n']
        + "SHA-256："@ + digest + seq!['\n'] + "状态："@ + (if approved { "已批准"@ } else { "待批准"@ }) + seq!['\n']
}

fn push_operation_line(out: &mut String, mark: char, op: &PackOperation)
    ensures
        final(out)@ == old(out)@ + operation_line(mark, op@),
{
    push_char(out, mark);
    push_char(out, ' ');
    push_str(out, op.name.as_str());
    push_char(out, '：');
    let tokens = join_strings(&op.tokens, ' ');
    push_str(out, tokens.as_str());
    push_char(out, '\n');
    assert(out@ =~= old(out)@ + operation_line(mark, op@));
}

fn find_last_with_id(ops: &Vec<PackOperation>, id: &str) -> (r: Option<usize>)
    ensures
        match last_with_id(operation_views(ops@), id@) {
            Some(o) => r matches Some(k) && k < ops@.len() && ops@[k as int]@ == o,
            None => r is None,
        },
{
    let ghost ov = operation_views(ops@);
    let mut k: usize = ops.len();
    assert(ov.take(k as int) =~= ov);
    while k > 0
        invariant
            ov == operation_views(ops@),
            k <= ops@.len(),
            last_with_id(ov, id@) == last_with_id(ov.take(k as int), id@),
        decreases k,
    {
        assert(ov.take(k as int).last() == ops@[k as int - 1]@);
        assert(ov.take(k as int).drop_last() =~= ov.take(k as int - 1));
        if str_eq(ops[k - 1].id.as_str(), id) {
            return Some(k - 1);
        }
        k = k - 1;
    }
    None
}

fn has_id(ops: &Vec<PackOperation>, id: &str) -> (r: bool)
    ensures
        r == operation_ids(operation_views(ops@)).contains(id@),
{
    let ghost ids = operation_ids(operation_views(ops@));
    let mut k: usize = 0;
    while k < ops.len()
        invariant
            ids == operation_ids(operation_views(ops@)),
            k <= ops@.len(),
            forall|j: int| 0 <= j < k ==> ids[j] != id@,
        decreases ops@.len() - k,
    {
        assert(ids[k as int] == ops@[k as int].id@);
        if str_eq(ops[k].id.as_str(), id) {
            return true;
        }
        k = k + 1;
    }
    false
}

/// The ids of removed operations, each once, in ascending order.
fn removed_ids(old: &Vec<PackOperation>, current: &Vec<PackOperation>) -> (r: Vec<String>)
    ensures
        ascending(string_views(r@)),
        forall|id: Seq<char>| string_views(r@).contains(id)
            <==> removed_id(operation_views(old@), operation_views(current@), id),
{
    let ghost ov = operation_views(old@);
    let ghost cv = operation_views(current@);
    let mut list: Vec<String> = Vec::new();
    let mut i: usize = 0;
    while i < old.len()
        invariant
            ov == operation_views(old@),
            cv == operation_views(current@),
            i <= old@.len(),
            ascending(string_views(list@)),
            forall|id: Seq<char>| #[trigger] string_views(list@).contains(id)
                <==> (operation_ids(ov.take(i as int)).contains(id) && !operation_ids(cv).contains(id)),
        decreases old@.len() - i,
    {
        let ghost lv = string_views(list@);
        let id = old[i].id.as_str();
        let ghost before_ids = operation_ids(ov.take(i as int));
        assert(operation_ids(ov.take(i as int + 1)) =~= before_ids.push(id@));
        proof {
            lemma_push_contains(before_ids, id@);
            assert forall|x: Seq<char>| #[trigger] lv.contains(x) <==> (before_ids.contains(x) && !operation_ids(cv).contains(x)) by {
                assert(string_views(list@).contains(x) == lv.contains(x));
            }
        }
        let in_current = has_id(current, id);
        let in_list = contains_str(&list, id);
        if !in_current && !in_list {
            let key = chars_of(id);
            let mut j: usize = 0;
            while j < list.len() && !chars_less_str(id, list[j].as_str())
                invariant
                    lv == string_views(list@),
                    key@ == id@,
                    j <= lv.len(),
                    forall|k: int| 0 <= k < j ==> !crate::path_cache::chars_less(id@, #[trigger] lv[k]),
                decreases lv.len() - j,
            {
                j = j + 1;
            }
            proof {
                assert forall|k: int| 0 <= k < j implies crate::path_cache::chars_less(#[trigger] lv[k], id@) by {
                    crate::path_cache::lemma_chars_less_total(lv[k], id@);
                    assert(lv[k] != id@);
                }
                assert forall|k: int| j <= k < lv.len() implies crate::path_cache::chars_less(id@, #[trigger] lv[k]) by {
                    if k > j {
                        crate::path_cache::lemma_chars_less_trans(id@, lv[j as int], lv[k]);
                    }
                }
            }
            list.insert(j, id.to_owned());
            proof {
                let nv = string_views(list@);
                assert(nv =~= lv.insert(j as int, id@));
                assert forall|a: int, b: int| 0 <= a < b < nv.len() implies crate::path_cache::chars_less(#[trigger] nv[a], #[trigger] nv[b]) by {
                    if b < j {
                        assert(nv[a] == lv[a] && nv[b] == lv[b]);
                    } else if b == j {
                        assert(nv[a] == lv[a]);
                    } else if a == j {
                        assert(nv[b] == lv[b - 1]);
                    } else if a < j {
                        assert(nv[a] == lv[a] && nv[b] == lv[b - 1]);
                        crate::path_cache::lemma_chars_less_trans(lv[a], id@, lv[b - 1]);
                    } else {
                        assert(nv[a] == lv[a - 1] && nv[b] == lv[b - 1]);
                    }
                }
                assert forall|x: Seq<char>| nv.contains(x) <==> (lv.contains(x) || x == id@) by {
                    if nv.contains(x) {
                        let k = choose|k: int| 0 <= k < nv.len() && nv[k] == x;
                        if k < j {
                            assert(lv[k] == x);
                        } else if k > j {
                            assert(lv[k - 1] == x);
                        }
                    }
                    if lv.contains(x) {
                        let k = choose|k: int| 0 <= k < lv.len() && lv[k] == x;
                        if k < j {
                            assert(nv[k] == x);
                        } else {
                            assert(nv[k + 1] == x);
                        }
                    }
                    if x == id@ {
                        assert(nv[j as int] == x);
                    }
                }
            }
        }
        proof {
            let cur_ids = operation_ids(cv);
            assert forall|x: Seq<char>| string_views(list@).contains(x)
                <==> (before_ids.push(id@).contains(x) && !cur_ids.contains(x)) by {
                assert(lv.contains(x) <==> (before_ids.contains(x) && !cur_ids.contains(x)));
                if in_current || in_list {
                    assert(string_views(list@) == lv);
                    if x == id@ {
                        assert(in_list == lv.contains(id@));
                        assert(in_current == cur_ids.contains(id@));
                    }
                } else {
                    assert(string_views(list@).contains(x) <==> (lv.contains(x) || x == id@));
                }
            }
        }
        i = i + 1;
    }
    assert(ov.take(i as int) =~= ov);
    list
}

proof fn lemma_push_contains(s: Seq<Seq<char>>, a: Seq<char>)
    ensures
        forall|x: Seq<char>| #[trigger] s.push(a).contains(x) <==> (s.contains(x) || x == a),
{
    assert forall|x: Seq<char>| #[trigger] s.push(a).contains(x) <==> (s.contains(x) || x == a) by {
        if s.push(a).contains(x) {
            let k = choose|k: int| 0 <= k < s.push(a).len() && s.push(a)[k] == x;
            if k < s.len() {
                assert(s[k] == x);
            }
        }
        if s.contains(x) {
            let k = choose|k: int| 0 <= k < s.len() && s[k] == x;
            assert(s.push(a)[k] == x);
        }
        if x == a {
            assert(s.push(a)[s.len() as int] == x);
        }
    }
}

fn chars_less_str(a: &str, b: &str) -> (r: bool)
    ensures
        r == crate::path_cache::chars_less(a@, b@),
{
    let x = chars_of(a);
    let y = chars_of(b);
    crate::path_cache::chars_less_exec(x.as_slice(), y.as_slice())
}


/// The approved operations, when there is an approval.
pub open spec fn approved_operations(previous: Option<PackView>) -> Option<Seq<OperationView>> {
    match previous {
        Some(p) => Some(p.operations),
        None => None,
    }
}

/// The text of a review: the head, each current operation marked by how
/// it changed since the approved contents, then the operations the
/// approval had that are gone, in ascending id order. `source` names the
/// pack file; `previous` is the approval for the pack's root.
pub fn review_text(source: &str, pack: &LoadedPack, previous: Option<&ApprovedPack>) -> (r: String)
    ensures
        ({
            let prev = match previous {
                Some(a) => Some(a.file@),
                None => None,
            };
            let approved = match previous {
                Some(a) => a.digest@ == pack.digest@,
                None => false,
            };
            let current = pack.file@.operations;
            exists|ids: Seq<Seq<char>>| {
                &&& ascending(ids)
                &&& forall|id: Seq<char>| ids.contains(id) <==> (prev is Some && removed_id(prev->0.operations, current, id))
                &&& r@ == review_head(source@, pack.file.pack@, pack.digest@, approved)
                    + current_lines(current, approved_operations(prev)) + removed_lines(ids, match prev {
                        Some(p) => p.operations,
                        None => Seq::empty(),
                    })
            }
        }),
{
    let ghost prev = match previous { Some(a) => Some(a.file@), None => None };
    let ghost current = pack.file@.operations;
    let approved = match previous {
        Some(a) => str_eq(a.digest.as_str(), pack.digest.as_str()),
        None => false,
    };
    let mut out = "来源：".to_owned();
    push_str(&mut out, source);
    push_char(&mut out, '\n');
    push_str(&mut out, "项目命令包：");
    push_str(&mut out, pack.file.pack.name.as_str());
    push_str(&mut out, " (");
    push_str(&mut out, pack.file.pack.id.as_str());
    push_str(&mut out, ") v");
    push_str(&mut out, pack.file.pack.version.as_str());
    push_char(&mut out, '\n');
    push_str(&mut out, "SHA-256：");
    push_str(&mut out, pack.digest.as_str());
    push_char(&mut out, '\n');
    push_str(&mut out, "状态：");
    if approved {
        push_str(&mut out, "已批准");
    } else {
        push_str(&mut out, "待批准");
    }
    push_char(&mut out, '\n');
    let ghost head = review_head(source@, pack.file.pack@, pack.digest@, approved);
    assert(out@ =~= head);
    let ops = &pack.file.operations;
    let mut i: usize = 0;
    while i < ops.len()
        invariant
            ops == &pack.file.operations,
            current == operation_views(ops@),
            prev == match previous { Some(a) => Some(a.file@), None => None },
            i <= ops@.len(),
            out@ == head + current_lines(current.take(i as int), approved_operations(prev)),
        decreases ops@.len() - i,
    {
        let op = &ops[i];
        let mark = match previous {
            None => '+',
            Some(a) => match find_last_with_id(&a.file.operations, op.id.as_str()) {
                None => '+',
                Some(k) => if same_operation(&a.file.operations[k], op) { ' ' } else { '~' },
            },
        };
        assert(mark == change_mark(op@, approved_operations(prev)));
        push_operation_line(&mut out, mark, op);
        assert(current.take(i as int + 1).drop_last() =~= current.take(i as int));
        assert(current.take(i as int + 1).last() == op@);
        i = i + 1;
    }
    assert(current.take(i as int) =~= current);
    let ghost mid = out@;
    match previous {
        None => {
            let ghost ids: Seq<Seq<char>> = Seq::empty();
            assert(removed_lines(ids, Seq::empty()) =~= Seq::<char>::empty());
            assert(out@ =~= mid + removed_lines(ids, Seq::empty()));
            assert(ascending(ids));
            assert(forall|id: Seq<char>| ids.contains(id) <==> (prev is Some && removed_id(prev->0.operations, current, id)));
        },
        Some(a) => {
            let old_ops = &a.file.operations;
            let ids = removed_ids(old_ops, ops);
            let ghost iv = string_views(ids@);
            let ghost ov = operation_views(old_ops@);
            let mut k: usize = 0;
            while k < ids.len()
                invariant
                    iv == string_views(ids@),
                    ov == operation_views(old_ops@),
                    k <= iv.len(),
                    out@ == mid + removed_lines(iv.take(k as int), ov),
                decreases iv.len() - k,
            {
                assert(iv.take(k as int + 1).drop_last() =~= iv.take(k as int));
                assert(iv.take(k as int + 1).last() == ids@[k as int]@);
                match find_last_with_id(old_ops, ids[k].as_str()) {
                    Some(j) => push_operation_line(&mut out, '-', &old_ops[j]),
                    None => {},
                }
                assert(out@ =~= mid + removed_lines(iv.take(k as int + 1), ov));
                k = k + 1;
            }
            assert(iv.take(k as int) =~= iv);
            assert(ascending(iv));
        },
    }
    out
}


proof fn lemma_valid_ids_unique(ops: Seq<OperationView>, pack: MetaView)
    requires
        operations_fault(ops, pack) is None,
    ensures
        forall|i: int, j: int| 0 <= i < j < ops.len() ==> (#[trigger] ops[i]).id != (#[trigger] ops[j]).id,
    decreases ops.len(),
{
    if ops.len() > 0 {
        let d = ops.drop_last();
        lemma_valid_ids_unique(d, pack);
        assert(!operation_ids(d).contains(ops.last().id));
        assert forall|i: int, j: int| 0 <= i < j < ops.len() implies (#[trigger] ops[i]).id != (#[trigger] ops[j]).id by {
            if j < ops.len() - 1 {
                assert(ops[i] == d[i] && ops[j] == d[j]);
            } else {
                assert(operation_ids(d)[i] == ops[i].id);
            }
        }
    }
}

proof fn lemma_last_with_unique_id(ops: Seq<OperationView>, k: int)
    requires
        0 <= k < ops.len(),
        forall|i: int, j: int| 0 <= i < j < ops.len() ==> (#[trigger] ops[i]).id != (#[trigger] ops[j]).id,
    ensures
        last_with_id(ops, ops[k].id) == Some(ops[k]),
    decreases ops.len(),
{
    if k < ops.len() - 1 {
        let d = ops.drop_last();
        assert(ops[k].id != ops[ops.len() - 1].id);
        assert(d[k] == ops[k]);
        assert forall|i: int, j: int| 0 <= i < j < d.len() implies (#[trigger] d[i]).id != (#[trigger] d[j]).id by {
            assert(d[i] == ops[i] && d[j] == ops[j]);
        }
        lemma_last_with_unique_id(d, k);
    }
}

/// Reviewing a valid pack against an approval of the same contents marks
/// every operation unchanged and reports none removed.
pub proof fn law_approved_contents_review_unchanged(file: PackView)
    requires
        pack_fault(file) is None,
    ensures
        forall|k: int| 0 <= k < file.operations.len()
            ==> change_mark(#[trigger] file.operations[k], Some(file.operations)) == ' ',
        forall|id: Seq<char>| !removed_id(file.operations, file.operations, id),
{
    lemma_valid_ids_unique(file.operations, file.pack);
    assert forall|k: int| 0 <= k < file.operations.len()
        implies change_mark(#[trigger] file.operations[k], Some(file.operations)) == ' ' by {
        lemma_last_with_unique_id(file.operations, k);
    }
}

} // verus!
