//! The parameter form that walks a user through a command template.
use vstd::prelude::*;
use crate::forms::{
    fill_from, fill_placeholders, get_value, insert_value, lookup_value, param_views,
    sorted_keys, spec_label_or_name, spec_preview, spec_quote_token, string_views, join,
    join_strings, contains_string, quote_powershell_token, placeholder_names,
    spec_placeholder_names, CommandTemplate, ParamView, TemplateParameter, TemplateView,
};
use crate::text::{
    chars_contain, chars_of, decimal, has_char, is_control, is_whitespace, push_decimal, spec_is_control, spec_is_whitespace, split_words, split_ws, str_eq, string_of_range,
};
use crate::lexer::{boundary, boundary_index, is_boundary, lemma_boundary_unique};
use crate::model::{Candidate, CandidateKind, Completion};

verus! {

/// Why a template cannot be filled in or rendered.
#[derive(Debug)]
pub enum FormError {
    /// A placeholder names a parameter that the template does not define.
    Undefined(String),
    /// A parameter (name, kind) has a kind other than the known ones.
    UnknownKind(String, String),
    /// A required parameter (label or name) was left empty.
    Empty(String),
    /// While rendering, a value of an enum parameter (name) is not one of its values.
    NotInEnum(String),
    /// While filling in, a value of an enum parameter (label or name) is not one of its values.
    NotAnOption(String),
    /// A structured token holds a brace without being a whole placeholder.
    SplitPlaceholder,
    /// Every field has been filled in already.
    Ended,
    /// Some fields are still to be filled in.
    Unfinished,
}

/// The value of a [`FormError`].
pub enum FormFault {
    Undefined(Seq<char>),
    UnknownKind(Seq<char>, Seq<char>),
    Empty(Seq<char>),
    NotInEnum(Seq<char>),
    NotAnOption(Seq<char>),
    SplitPlaceholder,
    Ended,
    Unfinished,
}

impl View for FormError {
    type V = FormFault;

    open spec fn view(&self) -> FormFault {
        match self {
            FormError::Undefined(n) => FormFault::Undefined(n@),
            FormError::UnknownKind(n, k) => FormFault::UnknownKind(n@, k@),
            FormError::Empty(n) => FormFault::Empty(n@),
            FormError::NotInEnum(n) => FormFault::NotInEnum(n@),
            FormError::NotAnOption(n) => FormFault::NotAnOption(n@),
            FormError::SplitPlaceholder => FormFault::SplitPlaceholder,
            FormError::Ended => FormFault::Ended,
            FormError::Unfinished => FormFault::Unfinished,
        }
    }
}

/// The message shown for a form error.
pub open spec fn fault_message(f: FormFault) -> Seq<char> {
    match f {
        FormFault::Undefined(n) => "模板字段 "@ + n + " 没有参数定义"@,
        FormFault::UnknownKind(n, k) => "参数 "@ + n + " 使用未知类型 "@ + k,
        FormFault::Empty(n) => "参数 "@ + n + " 不能为空"@,
        FormFault::NotInEnum(n) => "参数 "@ + n + " 不在枚举值中"@,
        FormFault::NotAnOption(n) => "参数 "@ + n + " 不在可选值中"@,
        FormFault::SplitPlaceholder => "模板占位符必须占据完整 token"@,
        FormFault::Ended => "参数表单已经结束"@,
        FormFault::Unfinished => "参数尚未填写完毕"@,
    }
}

impl FormError {
    /// The message shown to the user.
    pub fn message(&self) -> (r: String)
        ensures
            r@ == fault_message(self@),
    {
        let mut r = String::new();
        match self {
            FormError::Undefined(n) => {
                crate::text::push_str(&mut r, "模板字段 ");
                crate::text::push_str(&mut r, n.as_str());
                crate::text::push_str(&mut r, " 没有参数定义");
            },
            FormError::UnknownKind(n, k) => {
                crate::text::push_str(&mut r, "参数 ");
                crate::text::push_str(&mut r, n.as_str());
                crate::text::push_str(&mut r, " 使用未知类型 ");
                crate::text::push_str(&mut r, k.as_str());
            },
            FormError::Empty(n) => {
                crate::text::push_str(&mut r, "参数 ");
                crate::text::push_str(&mut r, n.as_str());
                crate::text::push_str(&mut r, " 不能为空");
            },
            FormError::NotInEnum(n) => {
                crate::text::push_str(&mut r, "参数 ");
                crate::text::push_str(&mut r, n.as_str());
                crate::text::push_str(&mut r, " 不在枚举值中");
            },
            FormError::NotAnOption(n) => {
                crate::text::push_str(&mut r, "参数 ");
                crate::text::push_str(&mut r, n.as_str());
                crate::text::push_str(&mut r, " 不在可选值中");
            },
            FormError::SplitPlaceholder => {
                crate::text::push_str(&mut r, "模板占位符必须占据完整 token");
            },
            FormError::Ended => {
                crate::text::push_str(&mut r, "参数表单已经结束");
            },
            FormError::Unfinished => {
                crate::text::push_str(&mut r, "参数尚未填写完毕");
            },
        }
        r
    }
}

/// The parameter name of a whole-token placeholder `{name}`.
pub open spec fn token_placeholder(t: Seq<char>) -> Option<Seq<char>> {
    if t.len() >= 2 && t[0] == '{' && t[t.len() - 1] == '}' {
        Some(t.subrange(1, t.len() - 1))
    } else {
        None
    }
}

/// Names of the whole-token placeholders, in token order.
pub open spec fn token_names(tokens: Seq<Seq<char>>) -> Seq<Seq<char>>
    decreases tokens.len(),
{
    if tokens.len() == 0 {
        Seq::empty()
    } else {
        let prev = token_names(tokens.drop_last());
        match token_placeholder(tokens.last()) {
            Some(n) => prev.push(n),
            None => prev,
        }
    }
}

/// The field names a template asks for, in order, possibly repeated.
pub open spec fn form_names(t: TemplateView) -> Seq<Seq<char>> {
    if t.tokens.len() == 0 {
        spec_placeholder_names(t.command)
    } else {
        token_names(t.tokens)
    }
}

/// Index of the first parameter called `name`.
pub open spec fn find_param(ps: Seq<ParamView>, name: Seq<char>) -> Option<int>
    decreases ps.len(),
{
    if ps.len() == 0 {
        None
    } else {
        match find_param(ps.drop_last(), name) {
            Some(i) => Some(i),
            None => if ps.last().name == name { Some(ps.len() - 1) } else { None },
        }
    }
}

pub proof fn lemma_find_param(ps: Seq<ParamView>, name: Seq<char>)
    ensures
        find_param(ps, name) matches Some(i) ==> 0 <= i < ps.len() && ps[i].name == name
            && forall|j: int| 0 <= j < i ==> (#[trigger] ps[j]).name != name,
        find_param(ps, name) is None ==> forall|j: int| 0 <= j < ps.len() ==> (#[trigger] ps[j]).name != name,
    decreases ps.len(),
{
    if ps.len() > 0 {
        lemma_find_param(ps.drop_last(), name);
        assert forall|j: int| 0 <= j < ps.len() - 1 implies ps.drop_last()[j] == #[trigger] ps[j] by {}
    }
}

/// The parameter that a legacy placeholder with no definition stands for:
/// a required text field.
pub open spec fn legacy_param(name: Seq<char>) -> ParamView {
    ParamView {
        name,
        label: Seq::empty(),
        kind: Seq::empty(),
        required: true,
        default: Seq::empty(),
        values: Seq::empty(),
        source: Seq::empty(),
    }
}

/// A parameter with an empty kind counts as a text parameter.
pub open spec fn with_text_kind(p: ParamView) -> ParamView {
    if p.kind.len() == 0 {
        ParamView { kind: "text"@, ..p }
    } else {
        p
    }
}

/// The kinds of parameter a form knows how to fill in.
pub open spec fn known_kind(k: Seq<char>) -> bool {
    k == "text"@ || k == "file"@ || k == "directory"@ || k == "enum"@ || k == "dynamic"@
}

/// The definition that a field name takes in a template.
pub open spec fn field_for(t: TemplateView, name: Seq<char>) -> Option<ParamView> {
    match find_param(t.parameters, name) {
        Some(i) => Some(t.parameters[i]),
        None => if t.tokens.len() == 0 { Some(legacy_param(name)) } else { None },
    }
}

/// Whether a field of that name is present.
pub open spec fn has_field(fields: Seq<ParamView>, name: Seq<char>) -> bool {
    exists|j: int| 0 <= j < fields.len() && (#[trigger] fields[j]).name == name
}

/// The fields of a form for the given names, each name once, or the first
/// error met.
pub open spec fn build_fields(t: TemplateView, names: Seq<Seq<char>>) -> Result<Seq<ParamView>, FormFault>
    decreases names.len(),
{
    if names.len() == 0 {
        Ok(Seq::empty())
    } else {
        match build_fields(t, names.drop_last()) {
            Err(e) => Err(e),
            Ok(fields) => {
                let name = names.last();
                if has_field(fields, name) {
                    Ok(fields)
                } else {
                    match field_for(t, name) {
                        None => Err(FormFault::Undefined(name)),
                        Some(p) => {
                            let f = with_text_kind(p);
                            if known_kind(f.kind) {
                                Ok(fields.push(f))
                            } else {
                                Err(FormFault::UnknownKind(name, f.kind))
                            }
                        },
                    }
                }
            },
        }
    }
}

/// The fields of a form for a template.
pub open spec fn form_fields(t: TemplateView) -> Result<Seq<ParamView>, FormFault> {
    build_fields(t, form_names(t))
}

/// The parameter name of a whole-token placeholder `{name}`.
pub fn placeholder_of(token: &str) -> (r: Option<String>)
    ensures
        match token_placeholder(token@) {
            Some(n) => r matches Some(s) && s@ == n,
            None => r is None,
        },
{
    let c = chars_of(token);
    let n = c.len();
    if n >= 2 && c[0] == '{' && c[n - 1] == '}' {
        Some(string_of_range(c.as_slice(), 1, n - 1))
    } else {
        None
    }
}

fn names_of(template: &CommandTemplate) -> (r: Vec<String>)
    ensures
        string_views(r@) == form_names(template@),
{
    if template.tokens.len() == 0 {
        placeholder_names(template.command.as_str())
    } else {
        let ghost tv = string_views(template.tokens@);
        let mut names: Vec<String> = Vec::new();
        let mut i: usize = 0;
        assert(string_views(names@) =~= Seq::<Seq<char>>::empty());
        while i < template.tokens.len()
            invariant
                tv == string_views(template.tokens@),
                i <= tv.len(),
                string_views(names@) == token_names(tv.take(i as int)),
            decreases tv.len() - i,
        {
            assert(tv.take(i as int + 1).drop_last() =~= tv.take(i as int));
            assert(tv.take(i as int + 1).last() == template.tokens@[i as int]@);
            match placeholder_of(template.tokens[i].as_str()) {
                Some(name) => {
                    let ghost before = string_views(names@);
                    names.push(name);
                    assert(string_views(names@) =~= before.push(names@.last()@));
                },
                None => {},
            }
            i = i + 1;
        }
        assert(tv.take(i as int) =~= tv);
        names
    }
}

fn find_param_exec(ps: &Vec<TemplateParameter>, name: &str) -> (r: Option<usize>)
    ensures
        match find_param(param_views(ps@), name@) {
            Some(i) => r is Some && r->Some_0 == i,
            None => r is None,
        },
{
    let ghost pv = param_views(ps@);
    proof {
        lemma_find_param(pv, name@);
    }
    let mut i: usize = 0;
    while i < ps.len()
        invariant
            pv == param_views(ps@),
            i <= ps@.len(),
            forall|j: int| 0 <= j < i ==> (#[trigger] pv[j]).name != name@,
        decreases ps@.len() - i,
    {
        if str_eq(ps[i].name.as_str(), name) {
            assert(pv[i as int].name == name@);
            proof {
                lemma_find_param(pv, name@);
                if let Some(k) = find_param(pv, name@) {
                    if k < i {
                        assert(pv[k].name != name@);
                    } else if k > i {
                        assert(pv[i as int].name != name@);
                    }
                }
            }
            return Some(i);
        }
        i = i + 1;
    }
    None
}

fn has_field_exec(fields: &Vec<TemplateParameter>, name: &str) -> (r: bool)
    ensures
        r == has_field(param_views(fields@), name@),
{
    let ghost fv = param_views(fields@);
    let mut i: usize = 0;
    while i < fields.len()
        invariant
            fv == param_views(fields@),
            i <= fields@.len(),
            forall|j: int| 0 <= j < i ==> (#[trigger] fv[j]).name != name@,
        decreases fields@.len() - i,
    {
        if str_eq(fields[i].name.as_str(), name) {
            assert(fv[i as int].name == name@);
            return true;
        }
        i = i + 1;
    }
    false
}

/// Whether a kind is one that a form knows how to fill in.
pub fn is_known_kind(kind: &str) -> (r: bool)
    ensures
        r == known_kind(kind@),
{
    str_eq(kind, "text") || str_eq(kind, "file") || str_eq(kind, "directory") || str_eq(kind, "enum")
        || str_eq(kind, "dynamic")
}

/// `r` is the form made for `template`: one field per distinct
/// placeholder, in order, none filled in yet; or why there is none.
pub open spec fn created(template: TemplateView, r: Result<TemplateForm, FormError>) -> bool {
    match form_fields(template) {
        Ok(fields) => r matches Ok(form) && form.wf() && form.spec_template() == template
            && form.spec_fields() == fields && form.spec_index() == 0
            && form.spec_values().len() == 0,
        Err(e) => r matches Err(err) && err@ == e,
    }
}

/// Submitting `entered` changed the form `before` into `after` and
/// answered `r`: the current field takes the value (or its default) unless
/// it is refused, and `r` tells whether it was the last field.
pub open spec fn submitted(before: TemplateForm, after: TemplateForm, entered: Seq<char>, r: Result<bool, FormError>) -> bool {
    &&& after.spec_template() == before.spec_template()
    &&& after.spec_fields() == before.spec_fields()
    &&& before.spec_index() >= before.spec_fields().len() ==> (r matches Err(e) && e@ == FormFault::Ended)
        && after.spec_index() == before.spec_index()
        && after.spec_values() == before.spec_values()
    &&& before.spec_index() < before.spec_fields().len() ==> {
        let f = before.spec_fields()[before.spec_index() as int];
        match entry_fault(f, entered) {
            Some(fault) => (r matches Err(e) && e@ == fault)
                && after.spec_index() == before.spec_index()
                && after.spec_values() == before.spec_values(),
            None => r == Ok::<bool, FormError>(before.spec_index() + 1 == before.spec_fields().len())
                && after.spec_index() == before.spec_index() + 1
                && get_value(after.spec_values(), f.name) == Some(entered_value(f, entered))
                && forall|k: Seq<char>| k != f.name ==> #[trigger] get_value(after.spec_values(), k) == get_value(before.spec_values(), k),
        }
    }
}

/// `r` is the command line of a form: the template rendered with the
/// entered values once every field is filled in.
pub open spec fn finished(form: TemplateForm, r: Result<String, FormError>) -> bool {
    &&& form.spec_index() != form.spec_fields().len() ==> (r matches Err(e) && e@ == FormFault::Unfinished)
    &&& form.spec_index() == form.spec_fields().len() ==> match spec_render(form.spec_template(), form.spec_values()) {
        Ok(s) => r matches Ok(x) && x@ == s,
        Err(e) => r matches Err(err) && err@ == e,
    }
}

/// A form over a command template: the fields it asks for, how many have
/// been filled in, and the values entered so far.
#[derive(Debug)]
pub struct TemplateForm {
    template: CommandTemplate,
    fields: Vec<TemplateParameter>,
    index: usize,
    values: Vec<(String, String)>,
}

impl TemplateForm {
    /// The template the form fills in.
    pub closed spec fn spec_template(&self) -> TemplateView {
        self.template@
    }

    /// The fields, in the order they are asked for.
    pub closed spec fn spec_fields(&self) -> Seq<ParamView> {
        param_views(self.fields@)
    }

    /// How many fields have been filled in.
    pub closed spec fn spec_index(&self) -> nat {
        self.index as nat
    }

    /// The values entered so far, keyed by parameter name in key order.
    pub closed spec fn spec_values(&self) -> Seq<(String, String)> {
        self.values@
    }

    /// The entered values are kept in key order and no more fields have
    /// been filled in than there are.
    pub open spec fn wf(&self) -> bool {
        &&& sorted_keys(self.spec_values())
        &&& self.spec_index() <= self.spec_fields().len()
    }

    /// A form for `template`: one field per distinct placeholder, in order.
    pub fn new(template: CommandTemplate) -> (r: Result<TemplateForm, FormError>)
        ensures
            created(template@, r),
    {
        let names = names_of(&template);
        let ghost tv = template@;
        let ghost nv = string_views(names@);
        let mut fields: Vec<TemplateParameter> = Vec::new();
        let mut i: usize = 0;
        assert(param_views(fields@) =~= Seq::<ParamView>::empty());
        while i < names.len()
            invariant
                tv == template@,
                nv == string_views(names@),
                nv == form_names(tv),
                i <= nv.len(),
                build_fields(tv, nv.take(i as int)) == Ok::<Seq<ParamView>, FormFault>(param_views(fields@)),
            decreases nv.len() - i,
        {
            assert(nv.take(i as int + 1).drop_last() =~= nv.take(i as int));
            assert(nv.take(i as int + 1).last() == names@[i as int]@);
            let name = names[i].as_str();
            if !has_field_exec(&fields, name) {
                let found = find_param_exec(&template.parameters, name);
                proof {
                    lemma_find_param(tv.parameters, name@);
                }
                let mut field = match found {
                    Some(k) => {
                        assert(tv.parameters[k as int] == template.parameters@[k as int]@);
                        template.parameters[k].copy()
                    },
                    None => {
                        if template.tokens.len() == 0 {
                            TemplateParameter::named(names[i].clone(), true)
                        } else {
                            proof {
                                assert(build_fields(tv, nv.take(i as int + 1)) == Err::<Seq<ParamView>, FormFault>(FormFault::Undefined(name@)));
                                lemma_build_fields_err(tv, nv, i as int + 1);
                                assert(nv.take(nv.len() as int) =~= nv);
                            }
                            return Err(FormError::Undefined(names[i].clone()));
                        }
                    },
                };
                proof {
                    assert(field_for(tv, name@) == Some(field@));
                }
                if field.kind.as_str().is_empty() {
                    field.kind = "text".to_owned();
                }
                assert(field@ == with_text_kind(field_for(tv, name@)->Some_0));
                assert(!has_field(param_views(fields@), name@));
                if !is_known_kind(field.kind.as_str()) {
                    proof {
                        lemma_build_fields_err(tv, nv, i as int + 1);
                        assert(nv.take(nv.len() as int) =~= nv);
                    }
                    return Err(FormError::UnknownKind(names[i].clone(), field.kind.clone()));
                }
                let ghost before = param_views(fields@);
                fields.push(field);
                assert(param_views(fields@) =~= before.push(fields@.last()@));
            }
            i = i + 1;
        }
        assert(nv.take(i as int) =~= nv);
        let values: Vec<(String, String)> = Vec::new();
        Ok(TemplateForm { template, fields, index: 0, values })
    }

    /// Whether the template asks for no field at all.
    pub fn is_empty(&self) -> (r: bool)
        ensures
            r == (self.spec_fields().len() == 0),
    {
        self.fields.len() == 0
    }

    /// The one-based number of the current field and the number of fields.
    pub fn position(&self) -> (r: (usize, usize))
        ensures
            r.0 == if self.spec_index() < usize::MAX { self.spec_index() + 1 } else { self.spec_index() },
            r.1 == self.spec_fields().len(),
    {
        (self.index.saturating_add(1), self.fields.len())
    }

    /// The field to be filled in next, if any is left.
    pub fn current(&self) -> (r: Option<&TemplateParameter>)
        ensures
            self.spec_index() < self.spec_fields().len() ==> (r matches Some(f) && f@ == self.spec_fields()[self.spec_index() as int]),
            self.spec_index() >= self.spec_fields().len() ==> r is None,
    {
        if self.index < self.fields.len() {
            Some(&self.fields[self.index])
        } else {
            None
        }
    }
}

/// The value a placeholder takes while rendering: the entered value when
/// it is non-empty, else the parameter's default.
pub open spec fn render_value(p: ParamView, values: Seq<(String, String)>, name: Seq<char>) -> Seq<char> {
    match get_value(values, name) {
        Some(v) => if v.len() > 0 { v } else { p.default },
        None => p.default,
    }
}

/// One structured token rendered: left out (`None`), written, or refused.
pub open spec fn render_token(t: TemplateView, values: Seq<(String, String)>, tok: Seq<char>) -> Result<Option<Seq<char>>, FormFault> {
    match token_placeholder(tok) {
        Some(name) => match find_param(t.parameters, name) {
            None => Err(FormFault::Undefined(name)),
            Some(i) => {
                let p = t.parameters[i];
                let v = render_value(p, values, name);
                if p.required && v.len() == 0 {
                    Err(FormFault::Empty(spec_label_or_name(p)))
                } else if p.kind == "enum"@ && v.len() > 0 && !p.values.contains(v) {
                    Err(FormFault::NotInEnum(name))
                } else if v.len() == 0 {
                    Ok(None)
                } else {
                    Ok(Some(spec_quote_token(v)))
                }
            },
        },
        None => if has_char(tok, '{') || has_char(tok, '}') {
            Err(FormFault::SplitPlaceholder)
        } else {
            Ok(Some(tok))
        },
    }
}

/// The structured tokens rendered left to right, or the first refusal.
pub open spec fn render_tokens(t: TemplateView, values: Seq<(String, String)>, toks: Seq<Seq<char>>) -> Result<Seq<Seq<char>>, FormFault>
    decreases toks.len(),
{
    if toks.len() == 0 {
        Ok(Seq::empty())
    } else {
        match render_tokens(t, values, toks.drop_last()) {
            Err(e) => Err(e),
            Ok(out) => match render_token(t, values, toks.last()) {
                Err(e) => Err(e),
                Ok(None) => Ok(out),
                Ok(Some(x)) => Ok(out.push(x)),
            },
        }
    }
}

/// The command line a template renders to with the given values.
pub open spec fn spec_render(t: TemplateView, values: Seq<(String, String)>) -> Result<Seq<char>, FormFault> {
    if t.tokens.len() == 0 {
        Ok(fill_from(t.command, values))
    } else {
        match render_tokens(t, values, t.tokens) {
            Ok(out) => Ok(join(out, ' ')),
            Err(e) => Err(e),
        }
    }
}

proof fn lemma_render_tokens_err(t: TemplateView, values: Seq<(String, String)>, toks: Seq<Seq<char>>, n: int)
    requires
        0 <= n <= toks.len(),
        render_tokens(t, values, toks.take(n)) is Err,
    ensures
        render_tokens(t, values, toks.take(toks.len() as int)) == render_tokens(t, values, toks.take(n)),
    decreases toks.len() - n,
{
    if n < toks.len() {
        assert(toks.take(n + 1).drop_last() =~= toks.take(n));
        lemma_render_tokens_err(t, values, toks, n + 1);
    }
}

impl CommandTemplate {
    /// The command line for the given values: structured tokens with each
    /// whole-token placeholder replaced by its quoted value (empty optional
    /// values left out), or the legacy command with its placeholders filled.
    pub fn render(&self, values: &Vec<(String, String)>) -> (r: Result<String, FormError>)
        ensures
            match spec_render(self@, values@) {
                Ok(s) => r matches Ok(x) && x@ == s,
                Err(e) => r matches Err(err) && err@ == e,
            },
    {
        if self.tokens.len() == 0 {
            return Ok(fill_placeholders(self.command.as_str(), values));
        }
        let ghost tv = self@;
        let ghost toks = tv.tokens;
        let mut output: Vec<String> = Vec::new();
        let mut i: usize = 0;
        assert(string_views(output@) =~= Seq::<Seq<char>>::empty());
        while i < self.tokens.len()
            invariant
                tv == self@,
                toks == tv.tokens,
                i <= toks.len(),
                render_tokens(tv, values@, toks.take(i as int)) == Ok::<Seq<Seq<char>>, FormFault>(string_views(output@)),
            decreases toks.len() - i,
        {
            assert(toks.take(i as int + 1).drop_last() =~= toks.take(i as int));
            assert(toks.take(i as int + 1).last() == self.tokens@[i as int]@);
            let token = self.tokens[i].as_str();
            match placeholder_of(token) {
                Some(name) => {
                    proof {
                        lemma_find_param(tv.parameters, name@);
                    }
                    match find_param_exec(&self.parameters, name.as_str()) {
                        None => {
                            proof {
                                lemma_render_tokens_err(tv, values@, toks, i as int + 1);
                                assert(toks.take(toks.len() as int) =~= toks);
                            }
                            return Err(FormError::Undefined(name));
                        },
                        Some(k) => {
                            let p = &self.parameters[k];
                            assert(tv.parameters[k as int] == p@);
                            assert(find_param(tv.parameters, name@) == Some(k as int));
                            assert(token_placeholder(toks[i as int]) == Some(name@));
                            let nc = chars_of(name.as_str());
                            let value: &str = match lookup_value(values, nc.as_slice()) {
                                Some(v) => if v.as_str().is_empty() { p.default.as_str() } else { v.as_str() },
                                None => p.default.as_str(),
                            };
                            assert(value@ == render_value(p@, values@, name@));
                            if p.required && value.is_empty() {
                                proof {
                                    assert(render_token(tv, values@, toks[i as int]) is Err);
                                    lemma_render_tokens_err(tv, values@, toks, i as int + 1);
                                    assert(toks.take(toks.len() as int) =~= toks);
                                }
                                return Err(FormError::Empty(p.label_or_name().to_owned()));
                            }
                            if str_eq(p.kind.as_str(), "enum") && !value.is_empty() {
                                let vc = chars_of(value);
                                if !contains_string(&p.values, &vc) {
                                    proof {
                                        assert(render_token(tv, values@, toks[i as int]) is Err);
                                        lemma_render_tokens_err(tv, values@, toks, i as int + 1);
                                        assert(toks.take(toks.len() as int) =~= toks);
                                    }
                                    return Err(FormError::NotInEnum(name));
                                }
                            }
                            if !value.is_empty() {
                                let ghost before = string_views(output@);
                                output.push(quote_powershell_token(value));
                                assert(string_views(output@) =~= before.push(output@.last()@));
                            }
                        },
                    }
                },
                None => {
                    let tc = chars_of(token);
                    if chars_contain(tc.as_slice(), '{') || chars_contain(tc.as_slice(), '}') {
                        proof {
                            lemma_render_tokens_err(tv, values@, toks, i as int + 1);
                            assert(toks.take(toks.len() as int) =~= toks);
                        }
                        return Err(FormError::SplitPlaceholder);
                    }
                    let ghost before = string_views(output@);
                    output.push(self.tokens[i].clone());
                    assert(string_views(output@) =~= before.push(output@.last()@));
                },
            }
            i = i + 1;
        }
        assert(toks.take(i as int) =~= toks);
        Ok(join_strings(&output, ' '))
    }
}

/// The value a field takes from what was entered: the entry, or the
/// field's default when nothing was entered.
pub open spec fn entered_value(f: ParamView, entered: Seq<char>) -> Seq<char> {
    if entered.len() == 0 { f.default } else { entered }
}

/// Why an entry for a field is refused, if it is.
pub open spec fn entry_fault(f: ParamView, entered: Seq<char>) -> Option<FormFault> {
    let v = entered_value(f, entered);
    if f.required && v.len() == 0 {
        Some(FormFault::Empty(spec_label_or_name(f)))
    } else if f.kind == "enum"@ && v.len() > 0 && !f.values.contains(v) {
        Some(FormFault::NotAnOption(spec_label_or_name(f)))
    } else {
        None
    }
}

/// A parameter with its offered values replaced.
pub open spec fn with_values(p: ParamView, values: Seq<Seq<char>>) -> ParamView {
    ParamView { values, ..p }
}

impl TemplateForm {
    /// Offer `values` for the first field called `name`.
    pub fn set_values(&mut self, name: &str, values: Vec<String>)
        requires
            old(self).wf(),
        ensures
            final(self).wf(),
            final(self).spec_template() == old(self).spec_template(),
            final(self).spec_index() == old(self).spec_index(),
            final(self).spec_values() == old(self).spec_values(),
            match find_param(old(self).spec_fields(), name@) {
                Some(i) => final(self).spec_fields() == old(self).spec_fields().update(i, with_values(old(self).spec_fields()[i], string_views(values@))),
                None => final(self).spec_fields() == old(self).spec_fields(),
            },
    {
        proof {
            lemma_find_param(param_views(self.fields@), name@);
        }
        match find_param_exec(&self.fields, name) {
            Some(k) => {
                let ghost before = param_views(self.fields@);
                let mut field = self.fields[k].copy();
                field.values = values;
                let ghost fv = field@;
                self.fields.set(k, field);
                assert(param_views(self.fields@) =~= before.update(k as int, fv));
            },
            None => {},
        }
    }

    /// The template's command line with the values entered so far filled in.
    pub fn preview(&self) -> (r: String)
        ensures
            r@ == fill_from(spec_preview(self.spec_template()), self.spec_values()),
    {
        let p = self.template.preview();
        fill_placeholders(p.as_str(), &self.values)
    }

    /// Fill in the current field with `entered`, or its default when
    /// nothing was entered; tells whether that was the last field.
    pub fn submit(&mut self, entered: &str) -> (r: Result<bool, FormError>)
        requires
            old(self).wf(),
        ensures
            final(self).wf(),
            submitted(*old(self), *final(self), entered@, r),
    {
        if self.index >= self.fields.len() {
            return Err(FormError::Ended);
        }
        let ghost f = param_views(self.fields@)[self.index as int];
        let field = &self.fields[self.index];
        let value: &str = if entered.is_empty() { field.default.as_str() } else { entered };
        if field.required && value.is_empty() {
            return Err(FormError::Empty(field.label_or_name().to_owned()));
        }
        if str_eq(field.kind.as_str(), "enum") && !value.is_empty() {
            let vc = chars_of(value);
            if !contains_string(&field.values, &vc) {
                return Err(FormError::NotAnOption(field.label_or_name().to_owned()));
            }
        }
        let key = field.name.clone();
        let v = value.to_owned();
        insert_value(&mut self.values, key, v);
        self.index = self.index + 1;
        Ok(self.index == self.fields.len())
    }

    /// The finished command line, once every field has been filled in.
    pub fn finish(&self) -> (r: Result<String, FormError>)
        ensures
            finished(*self, r),
    {
        if self.index != self.fields.len() {
            return Err(FormError::Unfinished);
        }
        self.template.render(&self.values)
    }
}

/// What the form frame says under the current field.
pub open spec fn field_hint(f: ParamView, entered: Seq<char>) -> Seq<char> {
    if f.values.len() > 0 {
        "↑↓ 选值："@ + join(f.values.take(if f.values.len() < 5 { f.values.len() as int } else { 5 }), '、')
    } else if entered.len() == 0 {
        if f.default.len() == 0 {
            if f.required { "输入参数值后按 Enter"@ } else { "可跳过；按 Enter 继续"@ }
        } else {
            "默认值："@ + f.default + " · Enter 使用默认值"@
        }
    } else {
        "当前值："@ + entered
    }
}

/// The progress line of the form frame.
pub open spec fn form_hint(position: nat, count: nat, name: Seq<char>) -> Seq<char> {
    "参数 "@ + decimal(position) + "/"@ + decimal(count) + " · "@ + name + " · Enter 下一项 · Esc 取消"@
}

fn field_hint_exec(f: &TemplateParameter, entered: &str) -> (r: String)
    ensures
        r@ == field_hint(f@, entered@),
{
    let mut r = String::new();
    if f.values.len() > 0 {
        let n: usize = if f.values.len() < 5 { f.values.len() } else { 5 };
        let mut first: Vec<String> = Vec::new();
        let ghost fv = string_views(f.values@);
        let mut i: usize = 0;
        while i < n
            invariant
                fv == string_views(f.values@),
                n <= fv.len(),
                i <= n,
                string_views(first@) == fv.take(i as int),
            decreases n - i,
        {
            let ghost before = string_views(first@);
            first.push(f.values[i].clone());
            assert(string_views(first@) =~= before.push(first@.last()@));
            assert(fv.take(i as int + 1) =~= fv.take(i as int).push(fv[i as int]));
            i = i + 1;
        }
        crate::text::push_str(&mut r, "↑↓ 选值：");
        let j = join_strings(&first, '、');
        crate::text::push_str(&mut r, j.as_str());
    } else if entered.is_empty() {
        if f.default.as_str().is_empty() {
            if f.required {
                crate::text::push_str(&mut r, "输入参数值后按 Enter");
            } else {
                crate::text::push_str(&mut r, "可跳过；按 Enter 继续");
            }
        } else {
            crate::text::push_str(&mut r, "默认值：");
            crate::text::push_str(&mut r, f.default.as_str());
            crate::text::push_str(&mut r, " · Enter 使用默认值");
        }
    } else {
        crate::text::push_str(&mut r, "当前值：");
        crate::text::push_str(&mut r, entered);
    }
    r
}

/// The completion frame shown while a form is being filled in: one
/// candidate that previews the command line with the values so far and
/// replaces the user's whole buffer (`original_len` bytes), and a progress
/// hint. A finished form shows an empty frame.
pub fn form_completion(form: &TemplateForm, entered: &str, original_len: usize) -> (r: Completion)
    ensures
        form.spec_index() >= form.spec_fields().len() ==> r.replace_start == 0 && r.replace_end == 0
            && r.candidates@.len() == 0 && !r.incomplete && r.argument_hint@.len() == 0,
        form.spec_index() < form.spec_fields().len() ==> {
            let f = form.spec_fields()[form.spec_index() as int];
            let name = spec_label_or_name(f);
            &&& r.replace_start == 0
            &&& r.replace_end == original_len
            &&& !r.incomplete
            &&& r.argument_hint@ == form_hint(form.spec_index() + 1, form.spec_fields().len(), name)
            &&& r.candidates@.len() == 1
            &&& r.candidates@[0].label@ == "填写参数："@ + name
            &&& r.candidates@[0].insert_text@ == fill_from(spec_preview(form.spec_template()), form.spec_values())
            &&& r.candidates@[0].description@ == field_hint(f, entered@)
            &&& r.candidates@[0].kind == CandidateKind::Value
            &&& r.candidates@[0].id@ == "hub-form:"@ + name
            &&& r.candidates@[0].source@ == "Blueberry 工作台/参数表单"@
            &&& !r.candidates@[0].append_space
            &&& r.candidates@[0].description_source@.len() == 0
            &&& r.candidates@[0].language@.len() == 0
            &&& r.candidates@[0].match_reason@.len() == 0
            &&& r.candidates@[0].detail@.len() == 0
        },
{
    let field = match form.current() {
        Some(f) => f,
        None => return Completion::default(),
    };
    let name = field.label_or_name();
    let (position, count) = form.position();
    let mut label = String::new();
    crate::text::push_str(&mut label, "填写参数：");
    crate::text::push_str(&mut label, name);
    let mut id = String::new();
    crate::text::push_str(&mut id, "hub-form:");
    crate::text::push_str(&mut id, name);
    let mut candidate = Candidate::new(label, form.preview(), field_hint_exec(field, entered), CandidateKind::Value);
    candidate.id = id;
    candidate.source = "Blueberry 工作台/参数表单".to_owned();
    let mut hint = String::new();
    crate::text::push_str(&mut hint, "参数 ");
    push_decimal(&mut hint, position);
    crate::text::push_str(&mut hint, "/");
    push_decimal(&mut hint, count);
    crate::text::push_str(&mut hint, " · ");
    crate::text::push_str(&mut hint, name);
    crate::text::push_str(&mut hint, " · Enter 下一项 · Esc 取消");
    let mut candidates: Vec<Candidate> = Vec::new();
    candidates.push(candidate);
    Completion { replace_start: 0, replace_end: original_len, candidates, incomplete: false, argument_hint: hint }
}

/// Characters that keep a command line from being continued in a form:
/// control characters, quotes, separators, redirections and braces.
pub open spec fn guard_char(c: char) -> bool {
    spec_is_control(c) || c == '\'' || c == '"' || c == ';' || c == '|' || c == '&' || c == '`'
        || c == '{' || c == '}' || c == '<' || c == '>'
}

/// For the words typed before the cursor, the guided form that continues
/// them: (id, name, parameter, label, kind, source).
pub open spec fn guided_fields(w: Seq<Seq<char>>) -> Option<(Seq<char>, Seq<char>, Seq<char>, Seq<char>, Seq<char>, Seq<char>)> {
    if w == seq!["git"@, "switch"@, "-c"@] {
        Some(("git-branch"@, "继续填写 Git 分支"@, "BRANCH"@, "新分支名称"@, "text"@, Seq::empty()))
    } else if w == seq!["cargo"@, "test"@, "-p"@] {
        Some(("cargo-package"@, "继续填写 Cargo 包"@, "PACKAGE"@, "工作区包"@, "dynamic"@, "cargo.packages"@))
    } else if w == seq!["cargo"@, "test"@, "--features"@] {
        Some(("cargo-features"@, "继续填写 Cargo features"@, "FEATURES"@, "Feature"@, "dynamic"@, "cargo.features"@))
    } else if w == seq!["cargo"@, "test"@, "--test"@] {
        Some(("cargo-test"@, "继续填写 Cargo 测试目标"@, "TARGET"@, "测试目标"@, "dynamic"@, "cargo.tests"@))
    } else if w == seq!["docker"@, "compose"@, "up"@] || w == seq!["docker"@, "compose"@, "up"@, "-d"@] {
        Some(("compose-up"@, "继续填写 Compose 服务"@, "SERVICE"@, "服务"@, "dynamic"@, "docker.compose.service"@))
    } else if w == seq!["docker"@, "compose"@, "logs"@] || w == seq!["docker"@, "compose"@, "logs"@, "-f"@] {
        Some(("compose-logs"@, "继续填写 Compose 日志服务"@, "SERVICE"@, "服务"@, "dynamic"@, "docker.compose.service"@))
    } else {
        None
    }
}

/// The guided template for a line split at character index `i`.
pub open spec fn guided_at(line: Seq<char>, i: int) -> Option<TemplateView> {
    let before = line.take(i);
    let after = line.skip(i);
    if (after.len() > 0 && !spec_is_whitespace(after[0])) || exists|k: int| 0 <= k < line.len() && guard_char(#[trigger] line[k]) {
        None
    } else {
        match guided_fields(split_ws(before)) {
            None => None,
            Some((id, name, parameter, label, kind, source)) => {
                let sep: Seq<char> = if before.len() > 0 && spec_is_whitespace(before.last()) { Seq::empty() } else { seq![' '] };
                Some(TemplateView {
                    id: "guided:"@ + id,
                    name,
                    command: before + sep + seq!['{'] + parameter + seq!['}'] + after,
                    tokens: Seq::empty(),
                    description: "从当前命令继续；确认只填回，不执行"@,
                    tags: Seq::empty(),
                    parameters: seq![ParamView {
                        name: parameter,
                        label,
                        kind,
                        required: true,
                        default: Seq::empty(),
                        values: Seq::empty(),
                        source,
                    }],
                })
            },
        }
    }
}

/// The guided form that continues a partly typed command at byte offset
/// `cursor`, when the words before the cursor are a known command that
/// still lacks its value: the template inserts one placeholder at the
/// cursor and keeps the text after it.
pub open spec fn spec_guided(line: Seq<char>, cursor: int) -> Option<TemplateView> {
    if is_boundary(line, cursor) {
        guided_at(line, choose|i: int| boundary(line, i, cursor))
    } else {
        None
    }
}

fn words_are3(w: &Vec<String>, a: &str, b: &str, c: &str) -> (r: bool)
    ensures
        r == (string_views(w@) == seq![a@, b@, c@]),
{
    let r = w.len() == 3 && str_eq(w[0].as_str(), a) && str_eq(w[1].as_str(), b) && str_eq(w[2].as_str(), c);
    proof {
        if r {
            assert(string_views(w@) =~= seq![a@, b@, c@]);
        } else if string_views(w@) == seq![a@, b@, c@] {
            assert(string_views(w@).len() == w@.len());
            assert(string_views(w@)[0] == w@[0]@);
            assert(string_views(w@)[1] == w@[1]@);
            assert(string_views(w@)[2] == w@[2]@);
        }
    }
    r
}

fn words_are4(w: &Vec<String>, a: &str, b: &str, c: &str, d: &str) -> (r: bool)
    ensures
        r == (string_views(w@) == seq![a@, b@, c@, d@]),
{
    let r = w.len() == 4 && str_eq(w[0].as_str(), a) && str_eq(w[1].as_str(), b) && str_eq(w[2].as_str(), c)
        && str_eq(w[3].as_str(), d);
    proof {
        if r {
            assert(string_views(w@) =~= seq![a@, b@, c@, d@]);
        } else if string_views(w@) == seq![a@, b@, c@, d@] {
            assert(string_views(w@).len() == w@.len());
            assert(string_views(w@)[0] == w@[0]@);
            assert(string_views(w@)[1] == w@[1]@);
            assert(string_views(w@)[2] == w@[2]@);
            assert(string_views(w@)[3] == w@[3]@);
        }
    }
    r
}

fn guided_fields_exec(w: &Vec<String>) -> (r: Option<(&'static str, &'static str, &'static str, &'static str, &'static str, &'static str)>)
    ensures
        match guided_fields(string_views(w@)) {
            Some(t) => r matches Some(x) && x.0@ == t.0 && x.1@ == t.1 && x.2@ == t.2 && x.3@ == t.3
                && x.4@ == t.4 && x.5@ == t.5,
            None => r is None,
        },
{
    if words_are3(w, "git", "switch", "-c") {
        proof { reveal_strlit(""); }
        Some(("git-branch", "继续填写 Git 分支", "BRANCH", "新分支名称", "text", ""))
    } else if words_are3(w, "cargo", "test", "-p") {
        Some(("cargo-package", "继续填写 Cargo 包", "PACKAGE", "工作区包", "dynamic", "cargo.packages"))
    } else if words_are3(w, "cargo", "test", "--features") {
        Some(("cargo-features", "继续填写 Cargo features", "FEATURES", "Feature", "dynamic", "cargo.features"))
    } else if words_are3(w, "cargo", "test", "--test") {
        Some(("cargo-test", "继续填写 Cargo 测试目标", "TARGET", "测试目标", "dynamic", "cargo.tests"))
    } else if words_are3(w, "docker", "compose", "up") || words_are4(w, "docker", "compose", "up", "-d") {
        Some(("compose-up", "继续填写 Compose 服务", "SERVICE", "服务", "dynamic", "docker.compose.service"))
    } else if words_are3(w, "docker", "compose", "logs") || words_are4(w, "docker", "compose", "logs", "-f") {
        Some(("compose-logs", "继续填写 Compose 日志服务", "SERVICE", "服务", "dynamic", "docker.compose.service"))
    } else {
        None
    }
}

/// The guided form that continues `line` at the byte offset `cursor`, if
/// the words before the cursor are one of the known commands that still
/// lack their value.
pub fn guided_template(line: &str, cursor: usize) -> (r: Option<CommandTemplate>)
    ensures
        match spec_guided(line@, cursor as int) {
            Some(t) => r matches Some(x) && x@ == t,
            None => r is None,
        },
{
    let i = match boundary_index(line, cursor) {
        Some(i) => i,
        None => return None,
    };
    let ghost s = line@;
    proof {
        let j = choose|j: int| boundary(s, j, cursor as int);
        lemma_boundary_unique(s, i as int, j, cursor as int);
    }
    let chars = chars_of(line);
    if i < chars.len() && !is_whitespace(chars[i]) {
        assert(s.skip(i as int)[0] == s[i as int]);
        return None;
    }
    let mut k: usize = 0;
    while k < chars.len()
        invariant
            s == chars@,
            s == line@,
            k <= s.len(),
            forall|j: int| 0 <= j < k ==> !guard_char(#[trigger] s[j]),
        decreases s.len() - k,
    {
        let c = chars[k];
        if is_control(c) || c == '\'' || c == '"' || c == ';' || c == '|' || c == '&' || c == '`' || c == '{'
            || c == '}' || c == '<' || c == '>' {
            assert(guard_char(s[k as int]));
            return None;
        }
        k = k + 1;
    }
    let before = crate::paths::copy_range(&chars, 0, i);
    assert(before@ =~= s.take(i as int));
    let words = split_words(before.as_slice());
    let fields = match guided_fields_exec(&words) {
        Some(f) => f,
        None => return None,
    };
    let (id, name, parameter, label, kind, source) = fields;
    let mut command = String::new();
    crate::text::push_chars(&mut command, before.as_slice());
    if !(i > 0 && is_whitespace(chars[i - 1])) {
        crate::text::push_char(&mut command, ' ');
    }
    crate::text::push_char(&mut command, '{');
    crate::text::push_str(&mut command, parameter);
    crate::text::push_char(&mut command, '}');
    let after = crate::paths::copy_range(&chars, i, chars.len());
    crate::text::push_chars(&mut command, after.as_slice());
    let mut full_id = String::new();
    crate::text::push_str(&mut full_id, "guided:");
    crate::text::push_str(&mut full_id, id);
    let mut param = TemplateParameter::named(parameter.to_owned(), true);
    param.label = label.to_owned();
    param.kind = kind.to_owned();
    param.source = source.to_owned();
    let ghost pv = param@;
    let mut parameters: Vec<TemplateParameter> = Vec::new();
    parameters.push(param);
    let t = CommandTemplate {
        id: full_id,
        name: name.to_owned(),
        command,
        tokens: Vec::new(),
        description: "从当前命令继续；确认只填回，不执行".to_owned(),
        tags: Vec::new(),
        parameters,
    };
    proof {
        assert(after@ =~= s.skip(i as int));
        if i > 0 {
            assert(s.take(i as int).last() == s[i as int - 1]);
        }
        assert(string_views(t.tokens@) =~= Seq::<Seq<char>>::empty());
        assert(string_views(t.tags@) =~= Seq::<Seq<char>>::empty());
        assert(param_views(t.parameters@) =~= seq![pv]);
        let w = string_views(words@);
        let g = guided_fields(w)->Some_0;
        assert(guided_fields(w) is Some);
        assert(!(exists|k: int| 0 <= k < s.len() && guard_char(#[trigger] s[k])));
        assert(t@.id == "guided:"@ + g.0);
        assert(t@.name == g.1);
        assert(pv.name == g.2);
        assert(pv == (ParamView { name: g.2, label: g.3, kind: g.4, required: true, default: Seq::empty(), values: Seq::empty(), source: g.5 }));
        let sep: Seq<char> = if before@.len() > 0 && spec_is_whitespace(before@.last()) { Seq::empty() } else { seq![' '] };
        assert(t@.command =~= before@ + sep + seq!['{'] + g.2 + seq!['}'] + after@);
        assert(spec_guided(s, cursor as int) == guided_at(s, i as int));
    }
    Some(t)
}

proof fn lemma_build_fields_err(t: TemplateView, names: Seq<Seq<char>>, n: int)
    requires
        0 <= n <= names.len(),
        build_fields(t, names.take(n)) is Err,
    ensures
        build_fields(t, names.take(names.len() as int)) == build_fields(t, names.take(n)),
    decreases names.len() - n,
{
    if n < names.len() {
        assert(names.take(n + 1).drop_last() =~= names.take(n));
        lemma_build_fields_err(t, names, n + 1);
    }
}

} // verus!
