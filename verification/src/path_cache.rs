//! Path completion: what a path token asks for, the candidates a
//! directory listing gives for it, and the cache of directory listings.
//!
//! Listing a directory is left to the caller; everything that decides
//! which directory, which entries and what text they insert is here.
use vstd::prelude::*;
use crate::lexer::{boundary, boundary_index, is_boundary, lemma_boundary_unique};
use crate::model::{Candidate, CandidateKind, InputContext};
use crate::paths::{
    env_view, environment_name, environment_name_fragment, expand, find_from, format_environment_name, format_path_value, preserves_tilde, quote_state, raw_value_part, simple_environment_name, spec_environment_name, spec_environment_name_fragment, spec_expand, spec_format_environment_name, spec_format_path_value, spec_preserves_tilde, spec_quote_state, spec_raw_value_part, spec_simple_environment_name, spec_split_parent, spec_starts_with_tilde, split_parent, starts_with_ascii_case, starts_with_ci, starts_with_tilde,
};
use crate::text::{
    to_lowercase, unicode_lower, chars_contain, chars_of, has_char, push_char, push_str, starts_with, str_eq,
};

verus! {

/// What completing a path produced: candidates, whether the listing was
/// cut short, and a message when nothing could be listed.
#[derive(Debug)]
pub struct PathResult {
    pub candidates: Vec<Candidate>,
    pub incomplete: bool,
    pub diagnostic: Option<String>,
}

impl Default for PathResult {
    fn default() -> (r: Self)
        ensures
            r.candidates@.len() == 0,
            !r.incomplete,
            r.diagnostic is None,
    {
        PathResult { candidates: Vec::new(), incomplete: false, diagnostic: None }
    }
}

/// A directory to list for a path token: the `-option=` part before the
/// value, the raw value typed, the parent to list (as expanded) and the
/// name typed so far, and the parent and value as they are written back.
#[derive(Debug)]
pub struct PathScan {
    pub head: String,
    pub raw_value: String,
    pub scan_parent: String,
    pub scan_needle: String,
    pub display_parent: String,
    pub display_value: String,
    pub prefix: String,
}

/// The value of a [`PathScan`].
pub struct ScanView {
    pub head: Seq<char>,
    pub raw_value: Seq<char>,
    pub scan_parent: Seq<char>,
    pub scan_needle: Seq<char>,
    pub display_parent: Seq<char>,
    pub display_value: Seq<char>,
    pub prefix: Seq<char>,
}

impl View for PathScan {
    type V = ScanView;

    open spec fn view(&self) -> ScanView {
        ScanView {
            head: self.head@,
            raw_value: self.raw_value@,
            scan_parent: self.scan_parent@,
            scan_needle: self.scan_needle@,
            display_parent: self.display_parent@,
            display_value: self.display_value@,
            prefix: self.prefix@,
        }
    }
}

/// What a path token needs: an answer already (nothing, or environment
/// variable names), or a directory listing.
#[derive(Debug)]
pub enum PathPlan {
    Done(PathResult),
    Scan(PathScan),
}

/// An option value `-name=value` is split after its `=`.
pub open spec fn split_head(prefix: Seq<char>) -> (Seq<char>, Seq<char>) {
    if prefix.len() > 0 && prefix[0] == '-' {
        match find_from(prefix, 0, prefix.len() as int, '=') {
            Some(i) => (prefix.subrange(0, i + 1), prefix.subrange(i + 1, prefix.len() as int)),
            None => (Seq::empty(), prefix),
        }
    } else {
        (Seq::empty(), prefix)
    }
}

/// `line[start..end]` for byte offsets on character boundaries, else empty.
pub open spec fn raw_slice(line: Seq<char>, start: int, end: int) -> Seq<char> {
    if start <= end && is_boundary(line, start) && is_boundary(line, end) {
        line.subrange(choose|i: int| boundary(line, i, start), choose|j: int| boundary(line, j, end))
    } else {
        Seq::empty()
    }
}

/// The candidate for an environment variable named while typing
/// `$env:` or `${env:`.
pub open spec fn env_candidate_ok(c: Candidate, name: Seq<char>, braced: bool, raw_value: Seq<char>) -> bool {
    let value = spec_environment_name(name, braced);
    &&& c.label@ == if !braced && !spec_simple_environment_name(name) { "$env:"@ + name } else { value }
    &&& c.insert_text@ == spec_format_environment_name(value, raw_value)
    &&& c.description@ == "环境变量名称"@
    &&& c.kind == CandidateKind::Value
    &&& c.id@ == "environment:"@ + name
    &&& c.source@ == "当前 PowerShell 环境"@
    &&& c.description_source@.len() == 0 && c.language@.len() == 0 && c.match_reason@.len() == 0
    &&& c.detail@.len() == 0 && !c.append_space
}

/// The environment variable names that start with the fragment, ignoring
/// ASCII case, in the environment's order.
pub open spec fn env_matches(env: Seq<(Seq<char>, Seq<char>)>, fragment: Seq<char>) -> Seq<Seq<char>>
    decreases env.len(),
{
    if env.len() == 0 {
        Seq::empty()
    } else {
        let prev = env_matches(env.drop_last(), fragment);
        if starts_with_ci(env.last().0, fragment) { prev.push(env.last().0) } else { prev }
    }
}

/// The plan for a path token, stated: `None` for no candidates,
/// `Some(Ok(names))` for environment variable names, `Some(Err(scan))` for
/// a directory listing.
pub open spec fn spec_plan(line: Seq<char>, context: InputContext, env: Seq<(Seq<char>, Seq<char>)>, directories_only: bool, native: char) -> Option<Result<(bool, Seq<Seq<char>>, Seq<char>), ScanView>> {
    if context.suppressed {
        None
    } else {
        let (head, prefix) = split_head(context.prefix@);
        let raw = raw_slice(line, context.replace_start as int, context.replace_end as int);
        let raw_value = if head.len() == 0 { raw } else { spec_raw_value_part(raw) };
        let quote = spec_quote_state(raw_value).0;
        match spec_environment_name_fragment(prefix) {
            Some((braced, fragment)) => if quote == Some('\'') {
                None
            } else {
                Some(Ok((braced, env_matches(env, fragment), raw_value)))
            },
            None => {
                let single_quoted = quote == Some('\'');
                let expanded = if !single_quoted { spec_expand(prefix, env, native) } else { None };
                let scan_value = match expanded {
                    Some(v) => v,
                    None => prefix,
                };
                let display_value = if !single_quoted && expanded is Some && spec_starts_with_tilde(prefix)
                    && !spec_preserves_tilde(context.command@, directories_only) {
                    scan_value
                } else {
                    prefix
                };
                let (scan_parent, scan_needle) = spec_split_parent(scan_value);
                let display_parent = if display_value == seq!['~'] {
                    seq!['~', native]
                } else {
                    spec_split_parent(display_value).0
                };
                Some(Err(ScanView { head, raw_value, scan_parent, scan_needle, display_parent, display_value, prefix }))
            },
        }
    }
}

fn split_head_exec(prefix: &str) -> (r: (String, String))
    ensures
        (r.0@, r.1@) == split_head(prefix@),
{
    let p = chars_of(prefix);
    if p.len() > 0 && p[0] == '-' {
        let mut k: usize = 0;
        while k < p.len() && p[k] != '='
            invariant
                k <= p@.len(),
                find_from(p@, 0, p@.len() as int, '=') == find_from(p@, k as int, p@.len() as int, '='),
            decreases p@.len() - k,
        {
            k = k + 1;
        }
        if k < p.len() {
            return (crate::text::string_of_range(p.as_slice(), 0, k + 1), crate::text::string_of_range(p.as_slice(), k + 1, p.len()));
        }
    }
    (String::new(), prefix.to_owned())
}

fn raw_slice_exec(line: &str, start: usize, end: usize) -> (r: String)
    ensures
        r@ == raw_slice(line@, start as int, end as int),
{
    if start > end {
        return String::new();
    }
    let a = match boundary_index(line, start) {
        Some(a) => a,
        None => return String::new(),
    };
    let b = match boundary_index(line, end) {
        Some(b) => b,
        None => return String::new(),
    };
    proof {
        let s = line@;
        lemma_boundary_unique(s, a as int, choose|i: int| boundary(s, i, start as int), start as int);
        lemma_boundary_unique(s, b as int, choose|j: int| boundary(s, j, end as int), end as int);
        if b < a {
            crate::text::lemma_prefix_lengths_monotone(s, b as int, a as int);
        }
    }
    let chars = chars_of(line);
    crate::text::string_of_range(chars.as_slice(), a, b)
}

fn env_candidates(env: &Vec<(String, String)>, fragment: &str, braced: bool, raw_value: &str) -> (r: Vec<Candidate>)
    ensures
        r@.len() == env_matches(env_view(env@), fragment@).len(),
        forall|i: int| 0 <= i < r@.len() ==> env_candidate_ok(#[trigger] r@[i], env_matches(env_view(env@), fragment@)[i], braced, raw_value@),
{
    let ghost ev = env_view(env@);
    let f = chars_of(fragment);
    let mut r: Vec<Candidate> = Vec::new();
    let mut i: usize = 0;
    while i < env.len()
        invariant
            ev == env_view(env@),
            f@ == fragment@,
            i <= ev.len(),
            r@.len() == env_matches(ev.take(i as int), fragment@).len(),
            forall|k: int| 0 <= k < r@.len() ==> env_candidate_ok(#[trigger] r@[k], env_matches(ev.take(i as int), fragment@)[k], braced, raw_value@),
        decreases ev.len() - i,
    {
        assert(ev.take(i as int + 1).drop_last() =~= ev.take(i as int));
        assert(ev.take(i as int + 1).last() == (env@[i as int].0@, env@[i as int].1@));
        let name = env[i].0.as_str();
        let nc = chars_of(name);
        if starts_with_ascii_case(nc.as_slice(), f.as_slice()) {
            let value = environment_name(name, braced);
            let label = if !braced && !simple_environment_name(name) {
                let mut l = String::new();
                push_str(&mut l, "$env:");
                push_str(&mut l, name);
                l
            } else {
                value.clone()
            };
            let insert = format_environment_name(value.as_str(), raw_value);
            let mut id = String::new();
            push_str(&mut id, "environment:");
            push_str(&mut id, name);
            let mut c = Candidate::new(label, insert, "环境变量名称".to_owned(), CandidateKind::Value);
            c.id = id;
            c.source = "当前 PowerShell 环境".to_owned();
            let ghost before = r@;
            r.push(c);
            assert forall|k: int| 0 <= k < r@.len() implies env_candidate_ok(#[trigger] r@[k], env_matches(ev.take(i as int + 1), fragment@)[k], braced, raw_value@) by {
                if k < before.len() {
                    assert(r@[k] == before[k]);
                }
            }
        }
        i = i + 1;
    }
    assert(ev.take(i as int) =~= ev);
    r
}

/// Decide what a path token needs. `environment` is in key order and
/// `native` is the platform's path separator.
pub fn plan_path_completion(line: &str, context: &InputContext, environment: &Vec<(String, String)>, directories_only: bool, native: char) -> (r: PathPlan)
    ensures
        match spec_plan(line@, *context, env_view(environment@), directories_only, native) {
            None => r matches PathPlan::Done(res) && res.candidates@.len() == 0 && !res.incomplete && res.diagnostic is None,
            Some(Ok((braced, names, raw_value))) => r matches PathPlan::Done(res) && !res.incomplete && res.diagnostic is None
                && res.candidates@.len() == names.len()
                && forall|i: int| 0 <= i < names.len() ==> env_candidate_ok(#[trigger] res.candidates@[i], names[i], braced, raw_value),
            Some(Err(scan)) => r matches PathPlan::Scan(s) && s@ == scan,
        },
{
    if context.suppressed {
        return PathPlan::Done(PathResult::default());
    }
    let (head, prefix) = split_head_exec(context.prefix.as_str());
    let raw = raw_slice_exec(line, context.replace_start, context.replace_end);
    let raw_value = if head.as_str().is_empty() { raw } else { raw_value_part(raw.as_str()) };
    let (quote, _) = quote_state(raw_value.as_str());
    match environment_name_fragment(prefix.as_str()) {
        Some((braced, fragment)) => {
            if quote == Some('\'') {
                return PathPlan::Done(PathResult::default());
            }
            let candidates = env_candidates(environment, fragment.as_str(), braced, raw_value.as_str());
            return PathPlan::Done(PathResult { candidates, incomplete: false, diagnostic: None });
        },
        None => {},
    }
    let single_quoted = quote == Some('\'');
    let expanded = if !single_quoted { expand(prefix.as_str(), environment.as_slice(), native) } else { None };
    let is_expanded = expanded.is_some();
    let scan_value = match expanded {
        Some(v) => v,
        None => prefix.clone(),
    };
    let display_value = if !single_quoted && is_expanded && starts_with_tilde(prefix.as_str())
        && !preserves_tilde(context, directories_only) {
        scan_value.clone()
    } else {
        prefix.clone()
    };
    let (scan_parent, scan_needle) = split_parent(scan_value.as_str());
    let display_parent = if str_eq(display_value.as_str(), "~") {
        let mut d = String::new();
        push_char(&mut d, '~');
        push_char(&mut d, native);
        proof {
            reveal_strlit("~");
        }
        assert(d@ =~= seq!['~', native]);
        d
    } else {
        proof {
            reveal_strlit("~");
            assert("~"@ =~= seq!['~']);
        }
        split_parent(display_value.as_str()).0
    };
    proof {
        reveal_strlit("~");
        assert("~"@ =~= seq!['~']);
    }
    PathPlan::Scan(PathScan { head, raw_value, scan_parent, scan_needle, display_parent, display_value, prefix })
}


/// The separator a completed directory gets: the one the typed value
/// already uses, else the platform's.
pub open spec fn path_separator(display_value: Seq<char>, native: char) -> char {
    if has_char(display_value, '/') && !has_char(display_value, '\\') {
        '/'
    } else if has_char(display_value, '\\') {
        '\\'
    } else {
        native
    }
}

/// An entry is offered when its kind fits and its name, in Unicode lower
/// case, starts with the typed name in Unicode lower case.
pub open spec fn entry_offered(name: Seq<char>, is_dir: bool, needle: Seq<char>, directories_only: bool) -> bool {
    (!directories_only || is_dir) && starts_with(unicode_lower(name), unicode_lower(needle))
}

/// The entries offered for a typed name, in listing order.
pub open spec fn offered_entries(entries: Seq<(Seq<char>, bool)>, needle: Seq<char>, directories_only: bool) -> Seq<(Seq<char>, bool)>
    decreases entries.len(),
{
    if entries.len() == 0 {
        Seq::empty()
    } else {
        let prev = offered_entries(entries.drop_last(), needle, directories_only);
        let e = entries.last();
        if entry_offered(e.0, e.1, needle, directories_only) { prev.push(e) } else { prev }
    }
}

/// The value of a directory listing: names with whether each is a directory.
pub open spec fn entry_views(v: Seq<(String, bool)>) -> Seq<(Seq<char>, bool)> {
    v.map_values(|e: (String, bool)| (e.0@, e.1))
}

/// A plain name joined below a directory, with a separator unless the
/// directory is empty or already ends in one.
pub open spec fn join_name(directory: Seq<char>, name: Seq<char>, native: char) -> Seq<char> {
    if directory.len() == 0 || directory.last() == '/' || directory.last() == native {
        directory + name
    } else {
        directory + seq![native] + name
    }
}

/// The text a listed entry inserts, before quoting: the parent as typed,
/// the name, and a separator after a directory.
pub open spec fn entry_insert(scan: ScanView, name: Seq<char>, is_dir: bool, native: char) -> Seq<char> {
    scan.display_parent + name + if is_dir { seq![path_separator(scan.display_value, native)] } else { Seq::empty() }
}

/// The candidate for a listed entry.
pub open spec fn path_candidate_ok(c: Candidate, scan: ScanView, directory: Seq<char>, name: Seq<char>, is_dir: bool, native: char) -> bool {
    let preserve = if scan.display_value == scan.prefix { scan.display_value.len() as int } else { 0 };
    &&& c.label@ == name
    &&& c.insert_text@ == spec_format_path_value(scan.head, entry_insert(scan, name, is_dir, native), preserve, scan.raw_value, is_dir)
    &&& c.description@ == (if is_dir { "目录"@ } else { "文件"@ })
    &&& c.kind == (if is_dir { CandidateKind::Directory } else { CandidateKind::File })
    &&& c.id@ == "path:"@ + join_name(directory, name, native)
    &&& c.source@ == "本地路径"@
    &&& c.description_source@.len() == 0 && c.language@.len() == 0 && c.match_reason@.len() == 0
    &&& c.detail@.len() == 0 && !c.append_space
}

fn separator_for(display_value: &str, native: char) -> (r: char)
    ensures
        r == path_separator(display_value@, native),
{
    let d = chars_of(display_value);
    let slash = chars_contain(d.as_slice(), '/');
    let back = chars_contain(d.as_slice(), '\\');
    if slash && !back {
        '/'
    } else if back {
        '\\'
    } else {
        native
    }
}

fn join_name_exec(directory: &str, name: &str, native: char) -> (r: String)
    ensures
        r@ == join_name(directory@, name@, native),
{
    let d = chars_of(directory);
    let mut r = directory.to_owned();
    if d.len() > 0 && d[d.len() - 1] != '/' && d[d.len() - 1] != native {
        push_char(&mut r, native);
    }
    push_str(&mut r, name);
    r
}

/// The candidates a directory listing gives for a path token: the entries
/// offered for the typed name, in listing order. `directory` names the
/// listed directory as candidate ids spell it.
pub fn path_candidates(scan: &PathScan, directory: &str, entries: &Vec<(String, bool)>, directories_only: bool, native: char) -> (r: Vec<Candidate>)
    ensures
        r@.len() == offered_entries(entry_views(entries@), scan.scan_needle@, directories_only).len(),
        forall|i: int| 0 <= i < r@.len() ==> path_candidate_ok(#[trigger] r@[i], scan@, directory@,
            offered_entries(entry_views(entries@), scan.scan_needle@, directories_only)[i].0,
            offered_entries(entry_views(entries@), scan.scan_needle@, directories_only)[i].1, native),
{
    let ghost ev = entry_views(entries@);
    let ghost needle = scan.scan_needle@;
    let lowered_needle = to_lowercase(scan.scan_needle.as_str());
    let ln = chars_of(lowered_needle.as_str());
    let separator = separator_for(scan.display_value.as_str(), native);
    let preserve: usize = if str_eq(scan.display_value.as_str(), scan.prefix.as_str()) {
        chars_of(scan.display_value.as_str()).len()
    } else {
        0
    };
    let mut r: Vec<Candidate> = Vec::new();
    let mut i: usize = 0;
    while i < entries.len()
        invariant
            ev == entry_views(entries@),
            needle == scan.scan_needle@,
            ln@ == unicode_lower(needle),
            separator == path_separator(scan.display_value@, native),
            preserve == (if scan.display_value@ == scan.prefix@ { scan.display_value@.len() as int } else { 0 }),
            i <= ev.len(),
            r@.len() == offered_entries(ev.take(i as int), needle, directories_only).len(),
            forall|k: int| 0 <= k < r@.len() ==> path_candidate_ok(#[trigger] r@[k], scan@, directory@,
                offered_entries(ev.take(i as int), needle, directories_only)[k].0,
                offered_entries(ev.take(i as int), needle, directories_only)[k].1, native),
        decreases ev.len() - i,
    {
        assert(ev.take(i as int + 1).drop_last() =~= ev.take(i as int));
        assert(ev.take(i as int + 1).last() == (entries@[i as int].0@, entries@[i as int].1));
        let name = entries[i].0.as_str();
        let is_dir = entries[i].1;
        let lowered = to_lowercase(name);
        let lc = chars_of(lowered.as_str());
        if (!directories_only || is_dir) && crate::text::chars_start_with(lc.as_slice(), ln.as_slice()) {
            let mut insert = scan.display_parent.clone();
            push_str(&mut insert, name);
            if is_dir {
                push_char(&mut insert, separator);
            }
            proof {
                if is_dir {
                    assert(insert@ =~= entry_insert(scan@, name@, is_dir, native));
                } else {
                    assert(insert@ =~= entry_insert(scan@, name@, is_dir, native));
                }
            }
            let formatted = format_path_value(scan.head.as_str(), insert.as_str(), preserve, scan.raw_value.as_str(), is_dir);
            let description = if is_dir { "目录".to_owned() } else { "文件".to_owned() };
            let kind = if is_dir { CandidateKind::Directory } else { CandidateKind::File };
            let mut c = Candidate::new(name.to_owned(), formatted, description, kind);
            let joined = join_name_exec(directory, name, native);
            let mut id = "path:".to_owned();
            push_str(&mut id, joined.as_str());
            c.id = id;
            c.source = "本地路径".to_owned();
            let ghost before = r@;
            r.push(c);
            assert forall|k: int| 0 <= k < r@.len() implies path_candidate_ok(#[trigger] r@[k], scan@, directory@,
                offered_entries(ev.take(i as int + 1), needle, directories_only)[k].0,
                offered_entries(ev.take(i as int + 1), needle, directories_only)[k].1, native) by {
                if k < before.len() {
                    assert(r@[k] == before[k]);
                }
            }
        }
        i = i + 1;
    }
    assert(ev.take(i as int) =~= ev);
    r
}


/// `a` comes before `b` in the order of their character codes.
pub open spec fn chars_less(a: Seq<char>, b: Seq<char>) -> bool
    decreases a.len(),
{
    if a.len() == 0 {
        b.len() > 0
    } else if b.len() == 0 {
        false
    } else if a[0] != b[0] {
        (a[0] as int) < (b[0] as int)
    } else {
        chars_less(a.drop_first(), b.drop_first())
    }
}

/// Listing order: directories first, then by name in Unicode lower case.
pub open spec fn listed_before(a: (Seq<char>, bool), b: (Seq<char>, bool)) -> bool {
    (a.1 && !b.1) || (a.1 == b.1 && chars_less(unicode_lower(a.0), unicode_lower(b.0)))
}

/// `e` put into a listing after every entry that it does not come before.
pub open spec fn insert_listed(s: Seq<(Seq<char>, bool)>, e: (Seq<char>, bool)) -> Seq<(Seq<char>, bool)>
    decreases s.len(),
{
    if s.len() == 0 {
        seq![e]
    } else if listed_before(e, s.last()) {
        insert_listed(s.drop_last(), e).push(s.last())
    } else {
        s.push(e)
    }
}

/// A listing in listing order; entries that tie keep their order.
pub open spec fn listing_order(s: Seq<(Seq<char>, bool)>) -> Seq<(Seq<char>, bool)>
    decreases s.len(),
{
    if s.len() == 0 {
        Seq::empty()
    } else {
        insert_listed(listing_order(s.drop_last()), s.last())
    }
}

proof fn lemma_insert_listed_at(s: Seq<(Seq<char>, bool)>, e: (Seq<char>, bool), j: int)
    requires
        0 <= j <= s.len(),
        forall|m: int| j <= m < s.len() ==> listed_before(e, #[trigger] s[m]),
        j == 0 || !listed_before(e, s[j - 1]),
    ensures
        insert_listed(s, e) == s.insert(j, e),
    decreases s.len(),
{
    if s.len() == 0 {
        assert(s.insert(j, e) =~= seq![e]);
    } else if j == s.len() {
        assert(s.insert(j, e) =~= s.push(e));
    } else {
        assert(listed_before(e, s[s.len() - 1]));
        lemma_insert_listed_at(s.drop_last(), e, j);
        assert(s.drop_last().insert(j, e).push(s.last()) =~= s.insert(j, e));
    }
}

pub fn chars_less_exec(a: &[char], b: &[char]) -> (r: bool)
    ensures
        r == chars_less(a@, b@),
{
    let mut i: usize = 0;
    assert(a@.skip(0) =~= a@);
    assert(b@.skip(0) =~= b@);
    while i < a.len() && i < b.len()
        invariant
            i <= a@.len(),
            i <= b@.len(),
            chars_less(a@, b@) == chars_less(a@.skip(i as int), b@.skip(i as int)),
        decreases a@.len() - i,
    {
        if a[i] != b[i] {
            return a[i] < b[i];
        }
        assert(a@.skip(i as int).drop_first() =~= a@.skip(i as int + 1));
        assert(b@.skip(i as int).drop_first() =~= b@.skip(i as int + 1));
        i = i + 1;
    }
    i == a.len() && i < b.len()
}

fn listed_before_exec(a_dir: bool, a_key: &Vec<char>, b_dir: bool, b_key: &Vec<char>) -> (r: bool)
    ensures
        r == ((a_dir && !b_dir) || (a_dir == b_dir && chars_less(a_key@, b_key@))),
{
    (a_dir && !b_dir) || (a_dir == b_dir && chars_less_exec(a_key.as_slice(), b_key.as_slice()))
}

/// A directory listing put in listing order: directories first, then by
/// name in Unicode lower case, ties in their listed order.
pub fn sort_listing(entries: &Vec<(String, bool)>) -> (r: Vec<(String, bool)>)
    ensures
        entry_views(r@) == listing_order(entry_views(entries@)),
{
    let ghost ev = entry_views(entries@);
    let mut out: Vec<(String, bool)> = Vec::new();
    let mut keys: Vec<Vec<char>> = Vec::new();
    let mut i: usize = 0;
    while i < entries.len()
        invariant
            ev == entry_views(entries@),
            i <= ev.len(),
            keys@.len() == out@.len(),
            forall|k: int| 0 <= k < keys@.len() ==> (#[trigger] keys@[k])@ == unicode_lower(out@[k].0@),
            entry_views(out@) == listing_order(ev.take(i as int)),
        decreases ev.len() - i,
    {
        let name = entries[i].0.clone();
        let is_dir = entries[i].1;
        let lowered = to_lowercase(name.as_str());
        let key = chars_of(lowered.as_str());
        let ghost e = (name@, is_dir);
        let ghost ov = entry_views(out@);
        let mut j: usize = out.len();
        while j > 0 && listed_before_exec(is_dir, &key, out[j - 1].1, &keys[j - 1])
            invariant
                j <= out@.len(),
                ov == entry_views(out@),
                keys@.len() == out@.len(),
                forall|k: int| 0 <= k < keys@.len() ==> (#[trigger] keys@[k])@ == unicode_lower(out@[k].0@),
                key@ == unicode_lower(name@),
                e == (name@, is_dir),
                forall|m: int| j <= m < ov.len() ==> listed_before(e, #[trigger] ov[m]),
            decreases j,
        {
            assert(ov[j as int - 1] == (out@[j as int - 1].0@, out@[j as int - 1].1));
            j = j - 1;
        }
        proof {
            if j > 0 {
                assert(ov[j as int - 1] == (out@[j as int - 1].0@, out@[j as int - 1].1));
            }
            lemma_insert_listed_at(ov, e, j as int);
            assert(ev.take(i as int + 1).drop_last() =~= ev.take(i as int));
            assert(ev.take(i as int + 1).last() == e);
        }
        let ghost old_keys = keys@;
        let ghost old_out = out@;
        out.insert(j, (name, is_dir));
        keys.insert(j, key);
        proof {
            assert(entry_views(out@) =~= ov.insert(j as int, e));
            assert forall|k: int| 0 <= k < keys@.len() implies (#[trigger] keys@[k])@ == unicode_lower(out@[k].0@) by {
                if k < j {
                    assert(keys@[k] == old_keys[k]);
                    assert(out@[k] == old_out[k]);
                } else if k > j {
                    assert(keys@[k] == old_keys[k - 1]);
                    assert(out@[k] == old_out[k - 1]);
                }
            }
        }
        i = i + 1;
    }
    assert(ev.take(i as int) =~= ev);
    out
}


/// How many directory listings the cache keeps.
pub const CACHED_DIRECTORIES: usize = 64;

/// The value of a cached directory listing.
pub struct DirectoryView {
    pub path: Seq<char>,
    pub modified: Option<(u64, u32)>,
    pub entries: Seq<(Seq<char>, bool)>,
    pub used: u64,
}

/// A directory listing kept with the modification time it was read at
/// (seconds and nanoseconds) and the clock tick it was last used at.
#[derive(Debug)]
pub struct CachedDirectory {
    pub path: String,
    pub modified: Option<(u64, u32)>,
    pub entries: Vec<(String, bool)>,
    pub used: u64,
}

impl View for CachedDirectory {
    type V = DirectoryView;

    open spec fn view(&self) -> DirectoryView {
        DirectoryView { path: self.path@, modified: self.modified, entries: entry_views(self.entries@), used: self.used }
    }
}

/// The value of a [`PathCache`].
pub struct PathCacheView {
    pub directories: Seq<DirectoryView>,
    pub clock: u64,
}

/// Directory listings kept between completions, evicting the least
/// recently used one when full.
#[derive(Debug)]
pub struct PathCache {
    directories: Vec<CachedDirectory>,
    clock: u64,
}

/// The values of cached listings.
pub open spec fn directory_views(v: Seq<CachedDirectory>) -> Seq<DirectoryView> {
    v.map_values(|d: CachedDirectory| d@)
}

impl View for PathCache {
    type V = PathCacheView;

    closed spec fn view(&self) -> PathCacheView {
        PathCacheView { directories: directory_views(self.directories@), clock: self.clock }
    }
}

/// Where a directory's listing is cached, if it is.
pub open spec fn find_directory(dirs: Seq<DirectoryView>, path: Seq<char>) -> Option<int>
    decreases dirs.len(),
{
    if dirs.len() == 0 {
        None
    } else if dirs.last().path == path {
        Some(dirs.len() - 1)
    } else {
        find_directory(dirs.drop_last(), path)
    }
}

pub proof fn lemma_find_directory(dirs: Seq<DirectoryView>, path: Seq<char>)
    ensures
        match find_directory(dirs, path) {
            Some(i) => 0 <= i < dirs.len() && dirs[i].path == path,
            None => forall|i: int| 0 <= i < dirs.len() ==> (#[trigger] dirs[i]).path != path,
        },
    decreases dirs.len(),
{
    if dirs.len() > 0 && dirs.last().path != path {
        lemma_find_directory(dirs.drop_last(), path);
        assert forall|i: int| 0 <= i < dirs.len() - 1 implies (#[trigger] dirs[i]) == dirs.drop_last()[i] by {}
    }
}

/// The cache keeps at most [`CACHED_DIRECTORIES`] listings, one per directory.
pub open spec fn cache_wf(dirs: Seq<DirectoryView>) -> bool {
    &&& dirs.len() <= CACHED_DIRECTORIES
    &&& forall|i: int, j: int| 0 <= i < j < dirs.len() ==> (#[trigger] dirs[i]).path != (#[trigger] dirs[j]).path
}

/// The clock after one more completion; it wraps around.
pub open spec fn next_tick(clock: u64) -> u64 {
    if clock == u64::MAX { 0 } else { (clock + 1) as u64 }
}

/// `after` is `before` with the listing `d` stored: it replaces the
/// directory's earlier listing, or is added, after the least recently
/// used listing is dropped when the cache is full.
pub open spec fn stored(before: Seq<DirectoryView>, after: Seq<DirectoryView>, d: DirectoryView) -> bool {
    match find_directory(before, d.path) {
        Some(i) => after == before.update(i, d),
        None => if before.len() >= CACHED_DIRECTORIES {
            exists|k: int| 0 <= k < before.len()
                && (forall|j: int| 0 <= j < before.len() ==> before[k].used <= (#[trigger] before[j]).used)
                && after == before.remove(k).push(d)
        } else {
            after == before.push(d)
        },
    }
}

/// `r` holds the candidates that `entries` give, in order.
pub open spec fn candidates_from(r: Seq<Candidate>, scan: ScanView, directory: Seq<char>, entries: Seq<(Seq<char>, bool)>, directories_only: bool, native: char) -> bool {
    let offered = offered_entries(entries, scan.scan_needle, directories_only);
    &&& r.len() == offered.len()
    &&& forall|i: int| 0 <= i < r.len() ==> path_candidate_ok(#[trigger] r[i], scan, directory, offered[i].0, offered[i].1, native)
}

/// What listing a directory gave.
#[derive(Debug)]
pub enum Listing {
    /// The directory was not read again: its cached listing is current.
    Cached,
    /// Reading the directory failed; the text names the kind of error.
    Unreadable(String),
    /// The listing was cancelled before it ended.
    Cancelled,
    /// The entries read (name, is a directory), and whether some entry
    /// could not be read.
    Read(Vec<(String, bool)>, bool),
}

fn copy_entries(v: &Vec<(String, bool)>) -> (r: Vec<(String, bool)>)
    ensures
        entry_views(r@) == entry_views(v@),
{
    let mut r: Vec<(String, bool)> = Vec::new();
    let mut i: usize = 0;
    while i < v.len()
        invariant
            i <= v@.len(),
            entry_views(r@) == entry_views(v@).take(i as int),
        decreases v@.len() - i,
    {
        let ghost before = r@;
        let name = v[i].0.clone();
        r.push((name, v[i].1));
        assert(entry_views(r@) =~= entry_views(before).push((v@[i as int].0@, v@[i as int].1)));
        assert(entry_views(v@).take(i as int + 1) =~= entry_views(v@).take(i as int).push((v@[i as int].0@, v@[i as int].1)));
        i = i + 1;
    }
    assert(entry_views(v@).take(i as int) =~= entry_views(v@));
    r
}

impl Default for PathCache {
    fn default() -> (r: Self)
        ensures
            r.wf(),
            r@.directories.len() == 0,
            r@.clock == 0,
    {
        PathCache::new()
    }
}

impl PathCache {
    /// The cache's invariant.
    pub open spec fn wf(&self) -> bool {
        cache_wf(self@.directories)
    }

    /// An empty cache.
    pub fn new() -> (r: Self)
        ensures
            r.wf(),
            r@.directories.len() == 0,
            r@.clock == 0,
    {
        let r = PathCache { directories: Vec::new(), clock: 0 };
        assert(r@.directories =~= Seq::<DirectoryView>::empty());
        r
    }

    /// Forget every listing.
    pub fn invalidate(&mut self)
        ensures
            final(self).wf(),
            final(self)@.directories.len() == 0,
            final(self)@.clock == old(self)@.clock,
    {
        self.directories = Vec::new();
        assert(self@.directories =~= Seq::<DirectoryView>::empty());
    }

    fn find(&self, directory: &str) -> (r: Option<usize>)
        ensures
            match r {
                Some(k) => find_directory(self@.directories, directory@) == Some(k as int),
                None => find_directory(self@.directories, directory@) is None,
            },
    {
        let ghost dirs = self@.directories;
        let mut k: usize = self.directories.len();
        assert(dirs.take(k as int) =~= dirs);
        while k > 0
            invariant
                k <= self.directories@.len(),
                dirs == directory_views(self.directories@),
                find_directory(dirs, directory@) == find_directory(dirs.take(k as int), directory@),
            decreases k,
        {
            let ghost t = dirs.take(k as int);
            assert(t.last() == self.directories@[k as int - 1]@);
            assert(t.drop_last() =~= dirs.take(k as int - 1));
            if str_eq(self.directories[k - 1].path.as_str(), directory) {
                return Some(k - 1);
            }
            k = k - 1;
        }
        None
    }

    /// Start a completion: advance the clock and tell whether the
    /// directory must be read, because it is not cached or was modified
    /// since (`stamp` is its modification time now).
    pub fn begin(&mut self, directory: &str, stamp: Option<(u64, u32)>) -> (needs_scan: bool)
        ensures
            final(self)@.directories == old(self)@.directories,
            final(self)@.clock == next_tick(old(self)@.clock),
            needs_scan == match find_directory(old(self)@.directories, directory@) {
                None => true,
                Some(i) => old(self)@.directories[i].modified != stamp,
            },
    {
        self.clock = self.clock.wrapping_add(1);
        proof {
            lemma_find_directory(self@.directories, directory@);
        }
        match self.find(directory) {
            None => {
                assert(find_directory(old(self)@.directories, directory@) is None);
                true
            },
            Some(i) => {
                assert(self@.directories[i as int] == self.directories@[i as int]@);
                let same = match (self.directories[i].modified, stamp) {
                    (None, None) => true,
                    (Some(a), Some(b)) => a.0 == b.0 && a.1 == b.1,
                    _ => false,
                };
                assert(same == (self.directories@[i as int].modified == stamp));
                assert(self@.directories == old(self)@.directories);
                assert(find_directory(old(self)@.directories, directory@) == Some(i as int));
                !same
            },
        }
    }

    /// Keep a complete listing of a directory, read at `stamp`, as used now.
    pub fn store(&mut self, directory: String, stamp: Option<(u64, u32)>, entries: Vec<(String, bool)>)
        requires
            old(self).wf(),
        ensures
            final(self).wf(),
            final(self)@.clock == old(self)@.clock,
            stored(old(self)@.directories, final(self)@.directories,
                DirectoryView { path: directory@, modified: stamp, entries: entry_views(entries@), used: old(self)@.clock }),
    {
        let ghost before = self@.directories;
        let ghost d = DirectoryView { path: directory@, modified: stamp, entries: entry_views(entries@), used: self.clock };
        proof {
            lemma_find_directory(before, directory@);
        }
        let found = self.find(directory.as_str());
        let entry = CachedDirectory { path: directory, modified: stamp, entries, used: self.clock };
        assert(entry@ == d);
        match found {
            Some(i) => {
                self.directories.remove(i);
                self.directories.insert(i, entry);
                assert(self@.directories =~= before.update(i as int, d));
                assert forall|a: int, b: int| 0 <= a < b < self@.directories.len()
                    implies (#[trigger] self@.directories[a]).path != (#[trigger] self@.directories[b]).path by {
                    assert(before[a].path != before[b].path);
                }
            },
            None => {
                if self.directories.len() >= CACHED_DIRECTORIES {
                    let mut k: usize = 0;
                    let mut j: usize = 1;
                    while j < self.directories.len()
                        invariant
                            before == directory_views(self.directories@),
                            before.len() >= CACHED_DIRECTORIES,
                            k < j <= before.len(),
                            forall|m: int| 0 <= m < j ==> before[k as int].used <= (#[trigger] before[m]).used,
                        decreases before.len() - j,
                    {
                        if self.directories[j].used < self.directories[k].used {
                            k = j;
                        }
                        j = j + 1;
                    }
                    self.directories.remove(k);
                    self.directories.push(entry);
                    assert(self@.directories =~= before.remove(k as int).push(d));
                    assert forall|a: int, b: int| 0 <= a < b < self@.directories.len()
                        implies (#[trigger] self@.directories[a]).path != (#[trigger] self@.directories[b]).path by {
                        let ia = if a < k { a } else { a + 1 };
                        if b < self@.directories.len() - 1 {
                            let ib = if b < k { b } else { b + 1 };
                            assert(self@.directories[a] == before[ia]);
                            assert(self@.directories[b] == before[ib]);
                            assert(before[ia].path != before[ib].path);
                        } else {
                            assert(self@.directories[a] == before[ia]);
                            assert(before[ia].path != directory@);
                        }
                    }
                } else {
                    self.directories.push(entry);
                    assert(self@.directories =~= before.push(d));
                    assert forall|a: int, b: int| 0 <= a < b < self@.directories.len()
                        implies (#[trigger] self@.directories[a]).path != (#[trigger] self@.directories[b]).path by {
                        if b < before.len() {
                            assert(before[a].path != before[b].path);
                        } else {
                            assert(self@.directories[a] == before[a]);
                        }
                    }
                }
            },
        }
    }

    /// The cached listing of a directory, marked as used now.
    pub fn snapshot(&mut self, directory: &str) -> (r: Option<Vec<(String, bool)>>)
        requires
            old(self).wf(),
        ensures
            final(self).wf(),
            final(self)@.clock == old(self)@.clock,
            match find_directory(old(self)@.directories, directory@) {
                None => r is None && final(self)@.directories == old(self)@.directories,
                Some(i) => {
                    &&& r matches Some(v) && entry_views(v@) == old(self)@.directories[i].entries
                    &&& final(self)@.directories == old(self)@.directories.update(i,
                        DirectoryView { used: old(self)@.clock, ..old(self)@.directories[i] })
                },
            },
    {
        let ghost before = self@.directories;
        proof {
            lemma_find_directory(before, directory@);
        }
        match self.find(directory) {
            None => None,
            Some(i) => {
                let mut d = self.directories.remove(i);
                d.used = self.clock;
                let copy = copy_entries(&d.entries);
                self.directories.insert(i, d);
                assert(self@.directories =~= before.update(i as int, DirectoryView { used: self.clock, ..before[i as int] }));
                assert forall|a: int, b: int| 0 <= a < b < self@.directories.len()
                    implies (#[trigger] self@.directories[a]).path != (#[trigger] self@.directories[b]).path by {
                    assert(before[a].path != before[b].path);
                }
                Some(copy)
            },
        }
    }

    /// Finish a path completion once the directory `directory` was listed
    /// (or found current in the cache, after [`PathCache::begin`]): keep a
    /// complete listing, and give the candidates the listing offers.
    pub fn complete_listing(&mut self, scan: &PathScan, directory: &str, stamp: Option<(u64, u32)>, listing: Listing,
        directories_only: bool, native: char) -> (r: PathResult)
        requires
            old(self).wf(),
        ensures
            final(self).wf(),
            final(self)@.clock == old(self)@.clock,
            match listing {
                Listing::Unreadable(kind) => {
                    &&& final(self)@ == old(self)@
                    &&& r.candidates@.len() == 0
                    &&& !r.incomplete
                    &&& r.diagnostic matches Some(m) && m@ == "无法读取目录："@ + kind@
                },
                Listing::Cancelled => final(self)@ == old(self)@ && r.candidates@.len() == 0 && r.incomplete
                    && r.diagnostic is None,
                Listing::Read(entries, partial) => {
                    let sorted = listing_order(entry_views(entries@));
                    &&& r.diagnostic is None
                    &&& r.incomplete == partial
                    &&& candidates_from(r.candidates@, scan@, directory@, sorted, directories_only, native)
                    &&& partial ==> final(self)@ == old(self)@
                    &&& !partial ==> stored(old(self)@.directories, final(self)@.directories,
                        DirectoryView { path: directory@, modified: stamp, entries: sorted, used: old(self)@.clock })
                },
                Listing::Cached => match find_directory(old(self)@.directories, directory@) {
                    None => final(self)@ == old(self)@ && r.candidates@.len() == 0 && !r.incomplete && r.diagnostic is None,
                    Some(i) => !r.incomplete && r.diagnostic is None
                        && candidates_from(r.candidates@, scan@, directory@, old(self)@.directories[i].entries, directories_only, native)
                        && final(self)@.directories == old(self)@.directories.update(i,
                            DirectoryView { used: old(self)@.clock, ..old(self)@.directories[i] }),
                },
            },
    {
        match listing {
            Listing::Unreadable(kind) => {
                let mut m = "无法读取目录：".to_owned();
                push_str(&mut m, kind.as_str());
                PathResult { candidates: Vec::new(), incomplete: false, diagnostic: Some(m) }
            },
            Listing::Cancelled => PathResult { candidates: Vec::new(), incomplete: true, diagnostic: None },
            Listing::Read(entries, partial) => {
                let sorted = sort_listing(&entries);
                let candidates = path_candidates(scan, directory, &sorted, directories_only, native);
                if !partial {
                    self.store(directory.to_owned(), stamp, sorted);
                }
                PathResult { candidates, incomplete: partial, diagnostic: None }
            },
            Listing::Cached => {
                match self.snapshot(directory) {
                    None => PathResult::default(),
                    Some(entries) => {
                        let candidates = path_candidates(scan, directory, &entries, directories_only, native);
                        PathResult { candidates, incomplete: false, diagnostic: None }
                    },
                }
            },
        }
    }
}


pub proof fn lemma_chars_less_asym(a: Seq<char>, b: Seq<char>)
    ensures
        !(chars_less(a, b) && chars_less(b, a)),
    decreases a.len(),
{
    if a.len() > 0 && b.len() > 0 && a[0] == b[0] {
        lemma_chars_less_asym(a.drop_first(), b.drop_first());
    }
}

pub proof fn lemma_chars_less_total(a: Seq<char>, b: Seq<char>)
    ensures
        a == b || chars_less(a, b) || chars_less(b, a),
    decreases a.len(),
{
    if a.len() > 0 && b.len() > 0 {
        if a[0] == b[0] {
            lemma_chars_less_total(a.drop_first(), b.drop_first());
            if a.drop_first() == b.drop_first() {
                assert(a.drop_first().len() == b.drop_first().len());
                assert forall|i: int| 0 <= i < a.len() implies a[i] == b[i] by {
                    if i > 0 {
                        assert(a[i] == a.drop_first()[i - 1]);
                        assert(b[i] == b.drop_first()[i - 1]);
                    }
                }
                assert(a =~= b);
            }
        } else {
            assert((a[0] as int) != (b[0] as int));
        }
    } else if a.len() == 0 && b.len() == 0 {
        assert(a =~= b);
    }
}

pub proof fn lemma_chars_less_trans(a: Seq<char>, b: Seq<char>, c: Seq<char>)
    requires
        chars_less(a, b),
        chars_less(b, c),
    ensures
        chars_less(a, c),
    decreases a.len(),
{
    if a.len() > 0 && a[0] == b[0] && b[0] == c[0] {
        lemma_chars_less_trans(a.drop_first(), b.drop_first(), c.drop_first());
    }
}

proof fn lemma_listed_before_order(x: (Seq<char>, bool), y: (Seq<char>, bool), z: (Seq<char>, bool))
    ensures
        !(listed_before(x, y) && listed_before(y, x)),
        !listed_before(x, y) && !listed_before(y, z) ==> !listed_before(x, z),
{
    let (lx, ly, lz) = (unicode_lower(x.0), unicode_lower(y.0), unicode_lower(z.0));
    lemma_chars_less_asym(lx, ly);
    lemma_chars_less_asym(lx, lz);
    lemma_chars_less_total(lx, ly);
    lemma_chars_less_total(ly, lz);
    if chars_less(lz, ly) && chars_less(ly, lx) {
        lemma_chars_less_trans(lz, ly, lx);
    }
}

/// Where [`insert_listed`] puts its entry.
pub open spec fn insert_pos(s: Seq<(Seq<char>, bool)>, e: (Seq<char>, bool)) -> int
    decreases s.len(),
{
    if s.len() == 0 {
        0
    } else if listed_before(e, s.last()) {
        insert_pos(s.drop_last(), e)
    } else {
        s.len() as int
    }
}

proof fn lemma_insert_pos(s: Seq<(Seq<char>, bool)>, e: (Seq<char>, bool))
    ensures
        0 <= insert_pos(s, e) <= s.len(),
        insert_listed(s, e) == s.insert(insert_pos(s, e), e),
        forall|m: int| insert_pos(s, e) <= m < s.len() ==> listed_before(e, #[trigger] s[m]),
        insert_pos(s, e) == 0 || !listed_before(e, s[insert_pos(s, e) - 1]),
    decreases s.len(),
{
    if s.len() == 0 {
        assert(s.insert(0, e) =~= seq![e]);
    } else if listed_before(e, s.last()) {
        lemma_insert_pos(s.drop_last(), e);
        let p = insert_pos(s, e);
        assert(s.drop_last().insert(p, e).push(s.last()) =~= s.insert(p, e));
        assert forall|m: int| p <= m < s.len() implies listed_before(e, #[trigger] s[m]) by {
            if m < s.len() - 1 {
                assert(s[m] == s.drop_last()[m]);
            }
        }
        if p > 0 {
            assert(s[p - 1] == s.drop_last()[p - 1]);
        }
    } else {
        assert(s.insert(s.len() as int, e) =~= s.push(e));
    }
}

/// No entry of `s` comes before an entry ahead of it.
pub open spec fn in_listing_order(s: Seq<(Seq<char>, bool)>) -> bool {
    forall|i: int, j: int| 0 <= i < j < s.len() ==> !listed_before(#[trigger] s[j], #[trigger] s[i])
}

proof fn lemma_insert_keeps_order(s: Seq<(Seq<char>, bool)>, e: (Seq<char>, bool))
    requires
        in_listing_order(s),
    ensures
        in_listing_order(insert_listed(s, e)),
{
    lemma_insert_pos(s, e);
    let p = insert_pos(s, e);
    let r = s.insert(p, e);
    assert forall|i: int, j: int| 0 <= i < j < r.len() implies !listed_before(#[trigger] r[j], #[trigger] r[i]) by {
        if j < p {
            assert(r[i] == s[i] && r[j] == s[j]);
        } else if j == p {
            assert(r[i] == s[i]);
            assert(!listed_before(e, s[p - 1]));
            if i < p - 1 {
                assert(!listed_before(s[p - 1], s[i]));
            }
            lemma_listed_before_order(e, s[p - 1], s[i]);
        } else if i == p {
            assert(r[j] == s[j - 1]);
            assert(listed_before(e, s[j - 1]));
            lemma_listed_before_order(e, s[j - 1], e);
        } else if i < p {
            assert(r[i] == s[i] && r[j] == s[j - 1]);
        } else {
            assert(r[i] == s[i - 1] && r[j] == s[j - 1]);
        }
    }
}

/// Putting a listing in listing order keeps its entries, puts every
/// directory before every file, and leaves no entry before one that it
/// comes after.
pub proof fn law_listing_order_sorts(s: Seq<(Seq<char>, bool)>)
    ensures
        listing_order(s).to_multiset() == s.to_multiset(),
        in_listing_order(listing_order(s)),
        forall|i: int, j: int| 0 <= i < j < listing_order(s).len() && (#[trigger] listing_order(s)[j]).1
            ==> (#[trigger] listing_order(s)[i]).1,
    decreases s.len(),
{
    broadcast use vstd::seq_lib::group_to_multiset_ensures;
    if s.len() == 0 {
        assert(listing_order(s) =~= s);
    } else {
        law_listing_order_sorts(s.drop_last());
        let inner = listing_order(s.drop_last());
        lemma_insert_pos(inner, s.last());
        lemma_insert_keeps_order(inner, s.last());
        vstd::seq_lib::to_multiset_insert(inner, insert_pos(inner, s.last()), s.last());
        assert(s.drop_last().push(s.last()) =~= s);
    }
    let r = listing_order(s);
    assert forall|i: int, j: int| 0 <= i < j < r.len() && (#[trigger] r[j]).1 implies (#[trigger] r[i]).1 by {
        assert(!listed_before(r[j], r[i]));
    }
}

proof fn lemma_find_last_match(dirs: Seq<DirectoryView>, path: Seq<char>, k: int)
    requires
        0 <= k < dirs.len(),
        dirs[k].path == path,
        forall|m: int| k < m < dirs.len() ==> (#[trigger] dirs[m]).path != path,
    ensures
        find_directory(dirs, path) == Some(k),
    decreases dirs.len(),
{
    if k < dirs.len() - 1 {
        assert forall|m: int| k < m < dirs.len() - 1 implies (#[trigger] dirs.drop_last()[m]).path != path by {
            assert(dirs.drop_last()[m] == dirs[m]);
        }
        lemma_find_last_match(dirs.drop_last(), path, k);
    }
}

/// After a listing is stored, the cache finds exactly that listing for
/// its directory.
pub proof fn law_stored_listing_is_found(before: Seq<DirectoryView>, after: Seq<DirectoryView>, d: DirectoryView)
    requires
        cache_wf(before),
        stored(before, after, d),
    ensures
        find_directory(after, d.path) matches Some(i) && after[i] == d,
{
    lemma_find_directory(before, d.path);
    match find_directory(before, d.path) {
        Some(i) => {
            assert forall|m: int| i < m < after.len() implies (#[trigger] after[m]).path != d.path by {
                assert(after[m] == before[m]);
                assert(before[i].path != before[m].path);
            }
            lemma_find_last_match(after, d.path, i);
        },
        None => {
            assert(after.last() == d);
        },
    }
}

} // verus!
