//! Replacement text of completions.
use vstd::prelude::*;
use crate::lexer::{boundary, boundary_index, is_boundary, lemma_boundary_unique};
use crate::model::{candidate_views, spec_identity, Candidate, CandidateKind, CandidateView, Completion, CompletionView, InputContext};
use crate::text::{
    chars_end_with, chars_of, ends_with, has_char, lower, lower_chars, starts_with, str_eq, string_of, to_lowercase, unicode_lower,
};
use crate::path_cache::{chars_less_exec, listed_before};
use crate::forms::{get_value, lookup_value};

verus! {

/// The largest `j <= k` such that `text` ends with the first `j`
/// characters of `suffix`.
pub open spec fn best_overlap(text: Seq<char>, suffix: Seq<char>, k: int) -> int
    decreases k,
{
    if k <= 0 {
        0
    } else if ends_with(text, suffix.take(k)) {
        k
    } else {
        best_overlap(text, suffix, k - 1)
    }
}

/// `text` followed by what `suffix` adds beyond its longest prefix that
/// `text` already ends with.
pub open spec fn spliced(text: Seq<char>, suffix: Seq<char>) -> Seq<char> {
    text + suffix.skip(best_overlap(text, suffix, suffix.len() as int))
}

/// The character index of a byte offset on a character boundary.
pub open spec fn char_index(line: Seq<char>, byte: int) -> int {
    choose|i: int| boundary(line, i, byte)
}

/// The quote that opens the replaced text `line[start..end]` and closes
/// both the text right of the cursor and the candidate, if there is one.
pub open spec fn closing_quote(insert: Seq<char>, line: Seq<char>, start: int, end: int, suffix: Seq<char>) -> Option<char> {
    if is_boundary(line, start) {
        let raw = line.subrange(char_index(line, start), char_index(line, end));
        if raw.len() > 0 && (raw[0] == '\'' || raw[0] == '"') && suffix.last() == raw[0] && insert.len() > 0
            && insert.last() == raw[0] {
            Some(raw[0])
        } else {
            None
        }
    } else {
        None
    }
}

/// The replacement text after keeping the text right of the cursor, up to
/// `end`, that the candidate does not already end with; `None` when the
/// replacement is left as it is (the cursor is not inside the replaced
/// range, or an offset is not a character boundary).
pub open spec fn spec_preserve_suffix(insert: Seq<char>, line: Seq<char>, cursor: int, start: int, end: int) -> Option<Seq<char>> {
    if start > cursor || cursor >= end || !is_boundary(line, cursor) || !is_boundary(line, end) {
        None
    } else {
        let suffix = line.subrange(char_index(line, cursor), char_index(line, end));
        match closing_quote(insert, line, start, end, suffix) {
            Some(q) => Some(spliced(insert.drop_last(), suffix.drop_last()).push(q)),
            None => Some(spliced(insert, suffix)),
        }
    }
}

fn splice(text: &mut Vec<char>, suffix: &Vec<char>)
    ensures
        final(text)@ == spliced(old(text)@, suffix@),
{
    let mut overlap: usize = 0;
    let mut k: usize = 0;
    while k < suffix.len()
        invariant
            k <= suffix@.len(),
            text@ == old(text)@,
            overlap == best_overlap(text@, suffix@, k as int),
            overlap <= k,
        decreases suffix@.len() - k,
    {
        k = k + 1;
        let head = crate::paths::copy_range(suffix, 0, k);
        assert(head@ =~= suffix@.take(k as int));
        if chars_end_with(text.as_slice(), head.as_slice()) {
            overlap = k;
        }
    }
    let mut i = overlap;
    let ghost before = text@;
    while i < suffix.len()
        invariant
            overlap <= i <= suffix@.len(),
            text@ == before + suffix@.subrange(overlap as int, i as int),
        decreases suffix@.len() - i,
    {
        text.push(suffix[i]);
        assert(suffix@.subrange(overlap as int, i as int + 1) =~= suffix@.subrange(overlap as int, i as int).push(suffix@[i as int]));
        i = i + 1;
    }
    assert(suffix@.subrange(overlap as int, i as int) =~= suffix@.skip(overlap as int));
}

/// Keep the text between the cursor and the end of the replaced range
/// that the candidate does not already end with, so that completing in
/// the middle of a word never discards what stands right of the cursor. A
/// quote that closes both is kept once, at the end. Offsets are UTF-8
/// byte offsets into `line`.
pub fn preserve_suffix(candidate: &mut Candidate, line: &str, cursor: usize, start: usize, end: usize)
    ensures
        match spec_preserve_suffix(old(candidate).insert_text@, line@, cursor as int, start as int, end as int) {
            Some(t) => final(candidate).insert_text@ == t && !final(candidate).append_space,
            None => final(candidate).insert_text == old(candidate).insert_text
                && final(candidate).append_space == old(candidate).append_space,
        },
        final(candidate).label == old(candidate).label,
        final(candidate).description == old(candidate).description,
        final(candidate).kind == old(candidate).kind,
        final(candidate).description_source == old(candidate).description_source,
        final(candidate).language == old(candidate).language,
        final(candidate).match_reason == old(candidate).match_reason,
        final(candidate).id == old(candidate).id,
        final(candidate).source == old(candidate).source,
        final(candidate).detail == old(candidate).detail,
{
    if start > cursor || cursor >= end {
        return;
    }
    let ic = match boundary_index(line, cursor) {
        Some(i) => i,
        None => return,
    };
    let ie = match boundary_index(line, end) {
        Some(i) => i,
        None => return,
    };
    let ghost s = line@;
    proof {
        lemma_boundary_unique(s, ic as int, char_index(s, cursor as int), cursor as int);
        lemma_boundary_unique(s, ie as int, char_index(s, end as int), end as int);
        if ie <= ic {
            crate::text::lemma_prefix_lengths_monotone(s, ie as int, ic as int);
        }
    }
    let chars = chars_of(line);
    let mut suffix = crate::paths::copy_range(&chars, ic, ie);
    let mut text = chars_of(candidate.insert_text.as_str());
    let ghost insert = text@;
    let quote: Option<char> = match boundary_index(line, start) {
        Some(is) => {
            proof {
                lemma_boundary_unique(s, is as int, char_index(s, start as int), start as int);
                if is > ie {
                    crate::text::lemma_prefix_lengths_monotone(s, ie as int, is as int);
                }
            }
            if is < ie && (chars[is] == '\'' || chars[is] == '"') && suffix[suffix.len() - 1] == chars[is]
                && text.len() > 0 && text[text.len() - 1] == chars[is] {
                Some(chars[is])
            } else {
                None
            }
        },
        None => None,
    };
    assert(quote == closing_quote(insert, s, start as int, end as int, suffix@));
    match quote {
        Some(q) => {
            suffix.pop();
            text.pop();
            assert(suffix@ =~= s.subrange(ic as int, ie as int).drop_last());
            splice(&mut text, &suffix);
            text.push(q);
        },
        None => {
            splice(&mut text, &suffix);
        },
    }
    candidate.insert_text = string_of(text.as_slice());
    candidate.append_space = false;
}


proof fn lemma_best_overlap(text: Seq<char>, suffix: Seq<char>, k: int)
    requires
        0 <= k <= suffix.len(),
    ensures
        0 <= best_overlap(text, suffix, k) <= k,
        ends_with(text, suffix.take(best_overlap(text, suffix, k))),
    decreases k,
{
    if k <= 0 {
        assert(suffix.take(0) =~= Seq::<char>::empty());
        assert(text.skip(text.len() as int) =~= Seq::<char>::empty());
    } else if !ends_with(text, suffix.take(k)) {
        lemma_best_overlap(text, suffix, k - 1);
    }
}

/// Splicing keeps the whole suffix at the end.
pub proof fn lemma_spliced_ends_with(text: Seq<char>, suffix: Seq<char>)
    ensures
        ends_with(spliced(text, suffix), suffix),
{
    lemma_best_overlap(text, suffix, suffix.len() as int);
    let k = best_overlap(text, suffix, suffix.len() as int);
    let r = spliced(text, suffix);
    assert(r.skip(r.len() - suffix.len()) =~= text.skip(text.len() - k) + suffix.skip(k));
    assert(text.skip(text.len() - k) == suffix.take(k));
    assert(suffix.take(k) + suffix.skip(k) =~= suffix);
}

/// Completing in the middle of a word never discards the text right of
/// the cursor: whenever the replacement is adjusted, it ends with the
/// text between the cursor and the end of the replaced range.
pub proof fn law_text_right_of_cursor_is_kept(insert: Seq<char>, line: Seq<char>, cursor: int, start: int, end: int)
    requires
        spec_preserve_suffix(insert, line, cursor, start, end) is Some,
    ensures
        ends_with(
            spec_preserve_suffix(insert, line, cursor, start, end)->Some_0,
            line.subrange(char_index(line, cursor), char_index(line, end)),
        ),
{
    let ic = char_index(line, cursor);
    let ie = char_index(line, end);
    let suffix = line.subrange(ic, ie);
    assert(boundary(line, ic, cursor));
    assert(boundary(line, ie, end));
    if ie <= ic {
        crate::text::lemma_prefix_lengths_monotone(line, ie, ic);
    }
    assert(suffix.len() > 0);
    match closing_quote(insert, line, start, end, suffix) {
        Some(q) => {
            let t = suffix.drop_last();
            lemma_spliced_ends_with(insert.drop_last(), t);
            let r = spliced(insert.drop_last(), t);
            assert(r.push(q).skip(r.push(q).len() - suffix.len()) =~= r.skip(r.len() - t.len()).push(q));
            assert(t.push(q) =~= suffix);
        },
        None => {
            lemma_spliced_ends_with(insert, suffix);
        },
    }
}


/// What the command spec of the line says about the current argument:
/// the project data provider it names, whether it takes path values,
/// whether options have ended, and whether it takes directories only.
#[derive(Debug)]
pub struct SpecFacts {
    pub provider: Option<String>,
    pub path_values: bool,
    pub options_ended: bool,
    pub directories_only: bool,
}

/// The background sources a completion asks for: local paths (of
/// directories only, or of all entries) and project data from a provider.
#[derive(Debug)]
pub struct SourcePlan {
    pub paths: bool,
    pub directories_only: bool,
    pub project: bool,
    pub provider: Option<String>,
}

/// The spec allows paths: there is none, or it takes path values, or
/// options have ended.
pub open spec fn spec_allows_paths(spec: Option<SpecFacts>) -> bool {
    match spec {
        None => true,
        Some(s) => s.path_values || s.options_ended,
    }
}

/// Commands that change the current directory.
pub open spec fn directory_command(command: Seq<char>) -> bool {
    let c = lower(command);
    c == "cd"@ || c == "set-location"@ || c == "push-location"@ || c == "pushd"@ || c == "chdir"@ || c == "sl"@
}

/// Whether the token asks for local paths: not when completion is
/// suppressed; for an environment expression, an explicit path the spec
/// allows, or an argument the spec allows paths for (always after a
/// redirection); an option only when the spec takes path values.
pub open spec fn spec_wants_paths(context: InputContext, spec: Option<SpecFacts>) -> bool {
    let prefix = context.prefix@;
    let folded = lower(prefix);
    let expression = starts_with(folded, "$env:"@) || starts_with(folded, "${env:"@);
    let explicit_path = (has_char(prefix, '/') || has_char(prefix, '\\') || starts_with(prefix, "~"@))
        && (context.command_position || spec_allows_paths(spec));
    &&& !context.suppressed
    &&& (expression || explicit_path || (!context.command_position
        && (context.command@ == "__shell_redirection"@ || spec_allows_paths(spec))))
    &&& (!starts_with(prefix, "-"@) || (spec matches Some(s) && s.path_values))
}

/// Which background sources a token asks for. `spec` is what the command
/// spec says of the token (none in command position); `dynamic` allows
/// project data.
pub fn plan_sources(context: &InputContext, spec: Option<&SpecFacts>, dynamic: bool) -> (r: SourcePlan)
    ensures
        r.paths == spec_wants_paths(*context, match spec { Some(s) => Some(*s), None => None }),
        r.directories_only == ((spec matches Some(s) && s.directories_only) || directory_command(context.command@)),
        match spec {
            Some(s) => match s.provider {
                Some(p) => r.provider matches Some(q) && q@ == p@,
                None => r.provider is None,
            },
            None => r.provider is None,
        },
        r.project == (dynamic && !context.suppressed && !context.command_position
            && (spec matches Some(s) && s.provider matches Some(p) && !starts_with(p@, "powershell."@))),
{
    let ghost sv = match spec { Some(s) => Some(*s), None => None };
    let prefix = chars_of(context.prefix.as_str());
    let folded = lower_chars(prefix.as_slice());
    let env = chars_of("$env:");
    let braced = chars_of("${env:");
    let expression = crate::text::chars_start_with(folded.as_slice(), env.as_slice())
        || crate::text::chars_start_with(folded.as_slice(), braced.as_slice());
    let allows = match spec {
        None => true,
        Some(s) => s.path_values || s.options_ended,
    };
    let tilde = chars_of("~");
    let explicit_path = (crate::text::chars_contain(prefix.as_slice(), '/') || crate::text::chars_contain(prefix.as_slice(), '\\')
        || crate::text::chars_start_with(prefix.as_slice(), tilde.as_slice()))
        && (context.command_position || allows);
    let dash = chars_of("-");
    let option = crate::text::chars_start_with(prefix.as_slice(), dash.as_slice());
    let option_paths = match spec {
        Some(s) => s.path_values,
        None => false,
    };
    let paths = !context.suppressed
        && (expression || explicit_path || (!context.command_position
            && (str_eq(context.command.as_str(), "__shell_redirection") || allows)))
        && (!option || option_paths);
    let command = chars_of(context.command.as_str());
    let lc = lower_chars(command.as_slice());
    let lowered = string_of(lc.as_slice());
    let l = lowered.as_str();
    let changes_directory = str_eq(l, "cd") || str_eq(l, "set-location") || str_eq(l, "push-location")
        || str_eq(l, "pushd") || str_eq(l, "chdir") || str_eq(l, "sl");
    let directories_only = match spec {
        Some(s) => s.directories_only,
        None => false,
    } || changes_directory;
    let provider = match spec {
        Some(s) => match &s.provider {
            Some(p) => Some(p.clone()),
            None => None,
        },
        None => None,
    };
    let project = dynamic && !context.suppressed && !context.command_position && match &provider {
        Some(p) => {
            let pc = chars_of(p.as_str());
            let ps = chars_of("powershell.");
            !crate::text::chars_start_with(pc.as_slice(), ps.as_slice())
        },
        None => false,
    };
    SourcePlan { paths, directories_only, project, provider }
}


/// What the background sources are asked: the revision and line the
/// completion belongs to, the token's context, the working directory and
/// environment, whether matching is fuzzy, and which sources to consult.
#[derive(Debug)]
pub struct SourceRequest {
    pub revision: u64,
    pub line: String,
    pub cursor: usize,
    pub context: InputContext,
    pub cwd: String,
    pub environment: Vec<(String, String)>,
    pub paths: bool,
    pub directories_only: bool,
    pub project: bool,
    pub provider: Option<String>,
    pub fuzzy: bool,
}

/// The request for the background sources of a completion of `line` at
/// `cursor` under `revision`: the context the shell sent, or else the one
/// derived from the line (`derived`); `spec` is what the command spec says
/// of that context's token. The request carries revision, line, cursor,
/// context, directory, environment and the fuzzy flag unchanged, and asks
/// for the sources [`plan_sources`] picks.
pub fn plan_request(
    revision: u64,
    line: String,
    cursor: usize,
    cwd: String,
    context: Option<InputContext>,
    derived: InputContext,
    environment: Vec<(String, String)>,
    fuzzy: bool,
    dynamic: bool,
    spec: Option<&SpecFacts>,
) -> (r: SourceRequest)
    ensures
        r.revision == revision,
        r.line == line,
        r.cursor == cursor,
        r.cwd == cwd,
        r.environment == environment,
        r.fuzzy == fuzzy,
        r.context == match context { Some(x) => x, None => derived },
        r.paths == spec_wants_paths(r.context, match spec { Some(s) => Some(*s), None => None }),
        r.directories_only == ((spec matches Some(s) && s.directories_only) || directory_command(r.context.command@)),
        match spec {
            Some(s) => match s.provider {
                Some(p) => r.provider matches Some(q) && q@ == p@,
                None => r.provider is None,
            },
            None => r.provider is None,
        },
        r.project == (dynamic && !r.context.suppressed && !r.context.command_position
            && (spec matches Some(s) && s.provider matches Some(p) && !starts_with(p@, "powershell."@))),
{
    let context = match context {
        Some(x) => x,
        None => derived,
    };
    let plan = plan_sources(&context, spec, dynamic);
    SourceRequest {
        revision,
        line,
        cursor,
        context,
        cwd,
        environment,
        paths: plan.paths,
        directories_only: plan.directories_only,
        project: plan.project,
        provider: plan.provider,
        fuzzy,
    }
}

/// A candidate for a file or a directory.
pub open spec fn is_path_kind(k: CandidateKind) -> bool {
    k == CandidateKind::File || k == CandidateKind::Directory
}

/// The candidates of path kinds, in order.
pub open spec fn path_candidates_of(s: Seq<CandidateView>) -> Seq<CandidateView>
    decreases s.len(),
{
    if s.len() == 0 {
        Seq::empty()
    } else if is_path_kind(s.last().kind) {
        path_candidates_of(s.drop_last()).push(s.last())
    } else {
        path_candidates_of(s.drop_last())
    }
}

/// The candidates of other kinds, in order.
pub open spec fn other_candidates_of(s: Seq<CandidateView>) -> Seq<CandidateView>
    decreases s.len(),
{
    if s.len() == 0 {
        Seq::empty()
    } else if is_path_kind(s.last().kind) {
        other_candidates_of(s.drop_last())
    } else {
        other_candidates_of(s.drop_last()).push(s.last())
    }
}

/// A source's answer, by value.
pub open spec fn part_view(part: Option<(Vec<Candidate>, bool)>) -> Option<(Seq<CandidateView>, bool)> {
    match part {
        Some((c, i)) => Some((candidate_views(c@), i)),
        None => None,
    }
}

/// A completion with every source's candidates added; a source that has
/// not answered leaves the completion incomplete when it was asked for.
pub open spec fn combined(base: CompletionView, project: Option<(Seq<CandidateView>, bool)>, paths: Option<(Seq<CandidateView>, bool)>, plan_project: bool, plan_paths: bool) -> CompletionView {
    let candidates = base.candidates + match project { Some((c, _)) => c, None => Seq::empty() }
        + match paths { Some((c, _)) => c, None => Seq::empty() };
    let incomplete = base.incomplete || match project { Some((_, i)) => i, None => plan_project }
        || match paths { Some((_, i)) => i, None => plan_paths };
    CompletionView { candidates, incomplete, ..base }
}

fn append_candidates(dst: &mut Vec<Candidate>, src: Vec<Candidate>)
    ensures
        candidate_views(final(dst)@) == candidate_views(old(dst)@) + candidate_views(src@),
{
    let mut i: usize = 0;
    let ghost start = candidate_views(dst@);
    while i < src.len()
        invariant
            i <= src@.len(),
            candidate_views(dst@) == start + candidate_views(src@).take(i as int),
        decreases src@.len() - i,
    {
        let ghost before = candidate_views(dst@);
        dst.push(src[i].copy());
        assert(candidate_views(dst@) =~= before.push(src@[i as int]@));
        assert(candidate_views(src@).take(i as int + 1) =~= candidate_views(src@).take(i as int).push(src@[i as int]@));
        i = i + 1;
    }
    assert(candidate_views(src@).take(i as int) =~= candidate_views(src@));
}

/// Add the answers of the project and path sources to a completion, and
/// set the path candidates apart to be ordered on their own: the
/// completion keeps the other candidates, in order.
pub fn merge_sources(base: Completion, project: Option<(Vec<Candidate>, bool)>, paths: Option<(Vec<Candidate>, bool)>, plan: &SourcePlan) -> (r: (Completion, Vec<Candidate>))
    ensures
        ({
            let all = combined(base@, part_view(project), part_view(paths), plan.project, plan.paths);
            &&& r.0@ == CompletionView { candidates: other_candidates_of(all.candidates), ..all }
            &&& candidate_views(r.1@) == path_candidates_of(all.candidates)
        }),
{
    let ghost all = combined(base@, part_view(project), part_view(paths), plan.project, plan.paths);
    let mut base = base;
    let mut list = Vec::new();
    std::mem::swap(&mut list, &mut base.candidates);
    let project_incomplete = match project {
        Some((c, i)) => {
            append_candidates(&mut list, c);
            i
        },
        None => plan.project,
    };
    let paths_incomplete = match paths {
        Some((c, i)) => {
            append_candidates(&mut list, c);
            i
        },
        None => plan.paths,
    };
    base.incomplete = base.incomplete || project_incomplete || paths_incomplete;
    assert(candidate_views(list@) =~= all.candidates);
    let ghost lv = candidate_views(list@);
    let mut others: Vec<Candidate> = Vec::new();
    let mut found: Vec<Candidate> = Vec::new();
    let mut i: usize = 0;
    assert(candidate_views(others@) =~= other_candidates_of(lv.take(0)));
    assert(candidate_views(found@) =~= path_candidates_of(lv.take(0)));
    while i < list.len()
        invariant
            lv == candidate_views(list@),
            i <= lv.len(),
            candidate_views(others@) == other_candidates_of(lv.take(i as int)),
            candidate_views(found@) == path_candidates_of(lv.take(i as int)),
        decreases lv.len() - i,
    {
        assert(lv.take(i as int + 1).drop_last() =~= lv.take(i as int));
        assert(lv.take(i as int + 1).last() == list@[i as int]@);
        let c = list[i].copy();
        let is_path = match c.kind {
            CandidateKind::File => true,
            CandidateKind::Directory => true,
            _ => false,
        };
        if is_path {
            let ghost before = candidate_views(found@);
            found.push(c);
            assert(candidate_views(found@) =~= before.push(lv[i as int]));
        } else {
            let ghost before = candidate_views(others@);
            others.push(c);
            assert(candidate_views(others@) =~= before.push(lv[i as int]));
        }
        i = i + 1;
    }
    assert(lv.take(i as int) =~= lv);
    base.candidates = others;
    (base, found)
}


/// Order of path candidates: directories first, then by label in
/// Unicode lower case.
pub open spec fn path_before(a: CandidateView, b: CandidateView) -> bool {
    listed_before((a.label, a.kind == CandidateKind::Directory), (b.label, b.kind == CandidateKind::Directory))
}

/// `e` put after every path candidate it does not come before.
pub open spec fn insert_path(s: Seq<CandidateView>, e: CandidateView) -> Seq<CandidateView>
    decreases s.len(),
{
    if s.len() == 0 {
        seq![e]
    } else if path_before(e, s.last()) {
        insert_path(s.drop_last(), e).push(s.last())
    } else {
        s.push(e)
    }
}

/// Path candidates in path order; ties keep their order.
pub open spec fn path_order(s: Seq<CandidateView>) -> Seq<CandidateView>
    decreases s.len(),
{
    if s.len() == 0 { Seq::empty() } else { insert_path(path_order(s.drop_last()), s.last()) }
}

proof fn lemma_insert_path_at(s: Seq<CandidateView>, e: CandidateView, j: int)
    requires
        0 <= j <= s.len(),
        forall|m: int| j <= m < s.len() ==> path_before(e, #[trigger] s[m]),
        j == 0 || !path_before(e, s[j - 1]),
    ensures
        insert_path(s, e) == s.insert(j, e),
    decreases s.len(),
{
    if s.len() == 0 {
        assert(s.insert(j, e) =~= seq![e]);
    } else if j == s.len() {
        assert(s.insert(j, e) =~= s.push(e));
    } else {
        assert(path_before(e, s[s.len() - 1]));
        lemma_insert_path_at(s.drop_last(), e, j);
        assert(s.drop_last().insert(j, e).push(s.last()) =~= s.insert(j, e));
    }
}

fn path_key(c: &Candidate) -> (r: (Vec<char>, bool))
    ensures
        r.0@ == unicode_lower(c.label@),
        r.1 == (c.kind == CandidateKind::Directory),
{
    let lowered = to_lowercase(c.label.as_str());
    let is_dir = match c.kind {
        CandidateKind::Directory => true,
        _ => false,
    };
    (chars_of(lowered.as_str()), is_dir)
}

/// Path candidates put in path order (see [`path_before`]).
pub fn sort_paths(paths: Vec<Candidate>) -> (r: Vec<Candidate>)
    ensures
        candidate_views(r@) == path_order(candidate_views(paths@)),
{
    let ghost pv = candidate_views(paths@);
    let mut out: Vec<Candidate> = Vec::new();
    let mut keys: Vec<(Vec<char>, bool)> = Vec::new();
    let mut i: usize = 0;
    assert(candidate_views(out@) =~= path_order(pv.take(0)));
    while i < paths.len()
        invariant
            pv == candidate_views(paths@),
            i <= pv.len(),
            keys@.len() == out@.len(),
            forall|k: int| 0 <= k < keys@.len() ==> (#[trigger] keys@[k]).0@ == unicode_lower(out@[k].label@)
                && keys@[k].1 == (out@[k].kind == CandidateKind::Directory),
            candidate_views(out@) == path_order(pv.take(i as int)),
        decreases pv.len() - i,
    {
        let c = paths[i].copy();
        let key = path_key(&c);
        let ghost e = c@;
        let ghost ov = candidate_views(out@);
        let mut j: usize = out.len();
        while j > 0 && ((key.1 && !keys[j - 1].1) || (key.1 == keys[j - 1].1 && chars_less_exec(key.0.as_slice(), keys[j - 1].0.as_slice())))
            invariant
                j <= out@.len(),
                ov == candidate_views(out@),
                keys@.len() == out@.len(),
                forall|k: int| 0 <= k < keys@.len() ==> (#[trigger] keys@[k]).0@ == unicode_lower(out@[k].label@)
                    && keys@[k].1 == (out@[k].kind == CandidateKind::Directory),
                key.0@ == unicode_lower(c.label@),
                key.1 == (c.kind == CandidateKind::Directory),
                e == c@,
                forall|m: int| j <= m < ov.len() ==> path_before(e, #[trigger] ov[m]),
            decreases j,
        {
            assert(ov[j as int - 1] == out@[j as int - 1]@);
            j = j - 1;
        }
        proof {
            if j > 0 {
                assert(ov[j as int - 1] == out@[j as int - 1]@);
            }
            lemma_insert_path_at(ov, e, j as int);
            assert(pv.take(i as int + 1).drop_last() =~= pv.take(i as int));
            assert(pv.take(i as int + 1).last() == e);
        }
        let ghost old_keys = keys@;
        let ghost old_out = out@;
        out.insert(j, c);
        keys.insert(j, key);
        proof {
            assert(candidate_views(out@) =~= ov.insert(j as int, e));
            assert forall|k: int| 0 <= k < keys@.len() implies (#[trigger] keys@[k]).0@ == unicode_lower(out@[k].label@)
                && keys@[k].1 == (out@[k].kind == CandidateKind::Directory) by {
                if k < j {
                    assert(keys@[k] == old_keys[k] && out@[k] == old_out[k]);
                } else if k > j {
                    assert(keys@[k] == old_keys[k - 1] && out@[k] == old_out[k - 1]);
                }
            }
        }
        i = i + 1;
    }
    assert(pv.take(i as int) =~= pv);
    out
}

/// What makes two merged candidates the same: the text they insert and their kind.
pub open spec fn same_merge_key(a: CandidateView, b: CandidateView) -> bool {
    a.insert_text == b.insert_text && a.kind == b.kind
}

/// The candidates without any that repeats an earlier one's text and kind.
pub open spec fn dedup(s: Seq<CandidateView>) -> Seq<CandidateView>
    decreases s.len(),
{
    if s.len() == 0 {
        Seq::empty()
    } else if forall|j: int| 0 <= j < s.len() - 1 ==> !same_merge_key(#[trigger] s[j], s.last()) {
        dedup(s.drop_last()).push(s.last())
    } else {
        dedup(s.drop_last())
    }
}

/// A candidate with its description replaced by a configured one for its
/// identity, if there is one.
pub open spec fn described(c: CandidateView, descriptions: Seq<(String, String)>) -> CandidateView {
    match get_value(descriptions, spec_identity(c)) {
        Some(d) => CandidateView { description: d, ..c },
        None => c,
    }
}

/// A candidate with the text right of the cursor kept (see [`spec_preserve_suffix`]).
pub open spec fn suffix_kept(c: CandidateView, line: Seq<char>, cursor: int, start: int, end: int) -> CandidateView {
    match spec_preserve_suffix(c.insert_text, line, cursor, start, end) {
        Some(t) => CandidateView { insert_text: t, append_space: false, ..c },
        None => c,
    }
}

/// The candidates a merge shows, in order: the ranked candidates, then
/// the path candidates in path order, without repeats, at most `limit`,
/// each described and keeping the text right of the cursor.
pub open spec fn merged(ranked: CompletionView, paths: Seq<CandidateView>, line: Seq<char>, cursor: int, descriptions: Seq<(String, String)>, limit: nat) -> Seq<CandidateView> {
    crate::hub::first_n(dedup(ranked.candidates + path_order(paths)), limit).map_values(|c: CandidateView|
        suffix_kept(described(c, descriptions), line, cursor, ranked.replace_start as int, ranked.replace_end as int))
}

/// Some candidate of `s` has the text and kind of `c`.
pub open spec fn key_among(s: Seq<CandidateView>, c: CandidateView) -> bool {
    exists|j: int| 0 <= j < s.len() && same_merge_key(#[trigger] s[j], c)
}

proof fn lemma_key_among_push(s: Seq<CandidateView>, x: CandidateView)
    ensures
        forall|c: CandidateView| #[trigger] key_among(s.push(x), c) <==> (key_among(s, c) || same_merge_key(x, c)),
{
    assert forall|c: CandidateView| #[trigger] key_among(s.push(x), c) <==> (key_among(s, c) || same_merge_key(x, c)) by {
        if key_among(s.push(x), c) {
            let j = choose|j: int| 0 <= j < s.push(x).len() && same_merge_key(#[trigger] s.push(x)[j], c);
            if j < s.len() {
                assert(s[j] == s.push(x)[j]);
            }
        }
        if key_among(s, c) {
            let j = choose|j: int| 0 <= j < s.len() && same_merge_key(#[trigger] s[j], c);
            assert(s.push(x)[j] == s[j]);
        }
        if same_merge_key(x, c) {
            assert(s.push(x)[s.len() as int] == x);
        }
    }
}

fn same_key_exec(a: &Candidate, b: &Candidate) -> (r: bool)
    ensures
        r == same_merge_key(a@, b@),
{
    let same_kind = match (a.kind, b.kind) {
        (CandidateKind::Command, CandidateKind::Command) => true,
        (CandidateKind::Alias, CandidateKind::Alias) => true,
        (CandidateKind::Function, CandidateKind::Function) => true,
        (CandidateKind::Cmdlet, CandidateKind::Cmdlet) => true,
        (CandidateKind::Subcommand, CandidateKind::Subcommand) => true,
        (CandidateKind::Option, CandidateKind::Option) => true,
        (CandidateKind::File, CandidateKind::File) => true,
        (CandidateKind::Directory, CandidateKind::Directory) => true,
        (CandidateKind::Value, CandidateKind::Value) => true,
        _ => false,
    };
    same_kind && str_eq(a.insert_text.as_str(), b.insert_text.as_str())
}

/// Finish a merge: append the path candidates in path order to the ranked
/// candidates, drop repeats, keep at most `limit`, apply the configured
/// descriptions (by identity, from a key-ordered list) and keep the text
/// right of the cursor.
pub fn finish_merge(ranked: Completion, paths: Vec<Candidate>, line: &str, cursor: usize, descriptions: &Vec<(String, String)>, limit: usize) -> (r: Completion)
    ensures
        r@ == (CompletionView {
            candidates: merged(ranked@, candidate_views(paths@), line@, cursor as int, descriptions@, limit as nat),
            ..ranked@
        }),
{
    let ghost rv = ranked@;
    let mut ranked = ranked;
    let mut all = Vec::new();
    std::mem::swap(&mut all, &mut ranked.candidates);
    let sorted = sort_paths(paths);
    append_candidates(&mut all, sorted);
    let ghost av = candidate_views(all@);
    assert(av =~= rv.candidates + path_order(candidate_views(paths@)));
    let mut kept: Vec<Candidate> = Vec::new();
    let mut i: usize = 0;
    assert(candidate_views(kept@) =~= dedup(av.take(0)));
    proof {
        assert forall|c: CandidateView| #[trigger] key_among(av.take(0), c) <==> key_among(candidate_views(kept@), c) by {
            assert(av.take(0).len() == 0);
        }
    }
    while i < all.len()
        invariant
            av == candidate_views(all@),
            i <= av.len(),
            candidate_views(kept@) == dedup(av.take(i as int)),
            forall|c: CandidateView| #[trigger] key_among(av.take(i as int), c) <==> key_among(candidate_views(kept@), c),
        decreases av.len() - i,
    {
        let ghost t = av.take(i as int + 1);
        let ghost kv = candidate_views(kept@);
        assert(t.drop_last() =~= av.take(i as int));
        assert(t.last() == av[i as int]);
        let mut seen = false;
        let mut k: usize = 0;
        while k < kept.len()
            invariant
                kv == candidate_views(kept@),
                i < all@.len(),
                k <= kept@.len(),
                seen == exists|m: int| 0 <= m < k && #[trigger] same_merge_key(kv[m], all@[i as int]@),
            decreases kept@.len() - k,
        {
            assert(kv[k as int] == kept@[k as int]@);
            if same_key_exec(&kept[k], &all[i]) {
                seen = true;
            }
            k = k + 1;
        }
        proof {
            let c = av[i as int];
            assert(all@[i as int]@ == c);
            assert(seen == key_among(kv, c));
            assert(key_among(av.take(i as int), c) == key_among(kv, c));
            assert((forall|j: int| 0 <= j < t.len() - 1 ==> !same_merge_key(#[trigger] t[j], t.last())) == !key_among(av.take(i as int), c)) by {
                if key_among(av.take(i as int), c) {
                    let j = choose|j: int| 0 <= j < av.take(i as int).len() && same_merge_key(#[trigger] av.take(i as int)[j], c);
                    assert(t[j] == av.take(i as int)[j]);
                } else {
                    assert forall|j: int| 0 <= j < t.len() - 1 implies !same_merge_key(#[trigger] t[j], t.last()) by {
                        assert(t[j] == av.take(i as int)[j]);
                    }
                }
            }
            lemma_key_among_push(av.take(i as int), c);
            assert(t =~= av.take(i as int).push(c));
        }
        if !seen {
            let ghost before = candidate_views(kept@);
            kept.push(all[i].copy());
            assert(candidate_views(kept@) =~= before.push(av[i as int]));
            proof {
                lemma_key_among_push(before, av[i as int]);
            }
        } else {
            proof {
                assert forall|c: CandidateView| #[trigger] key_among(t, c) <==> key_among(kv, c) by {
                    if same_merge_key(av[i as int], c) {
                        let m = choose|m: int| 0 <= m < kv.len() && #[trigger] same_merge_key(kv[m], av[i as int]);
                        assert(same_merge_key(kv[m], c));
                    }
                }
            }
        }
        i = i + 1;
    }
    assert(av.take(i as int) =~= av);
    let ghost dv = candidate_views(kept@);
    let n = if limit < kept.len() { limit } else { kept.len() };
    let mut out: Vec<Candidate> = Vec::new();
    let mut k: usize = 0;
    while k < n
        invariant
            dv == candidate_views(kept@),
            n <= kept@.len(),
            n == (if (limit as nat) < dv.len() { limit as int } else { dv.len() as int }),
            k <= n,
            candidate_views(out@) == dv.take(k as int).map_values(|c: CandidateView|
                suffix_kept(described(c, descriptions@), line@, cursor as int, rv.replace_start as int, rv.replace_end as int)),
            rv.replace_start == ranked.replace_start,
            rv.replace_end == ranked.replace_end,
        decreases n - k,
    {
        let mut c = kept[k].copy();
        let ghost c0 = c@;
        let identity = chars_of(c.identity());
        match lookup_value(descriptions, identity.as_slice()) {
            Some(d) => {
                c.description = d.clone();
            },
            None => {},
        }
        assert(c@ == described(c0, descriptions@));
        preserve_suffix(&mut c, line, cursor, ranked.replace_start, ranked.replace_end);
        assert(c@ == suffix_kept(described(c0, descriptions@), line@, cursor as int, rv.replace_start as int, rv.replace_end as int));
        let ghost before = candidate_views(out@);
        out.push(c);
        assert(candidate_views(out@) =~= before.push(c@));
        assert(dv.take(k as int + 1) =~= dv.take(k as int).push(dv[k as int]));
        assert(candidate_views(out@) =~= dv.take(k as int + 1).map_values(|c: CandidateView|
            suffix_kept(described(c, descriptions@), line@, cursor as int, rv.replace_start as int, rv.replace_end as int)));
        k = k + 1;
    }
    assert(dv.take(n as int) =~= crate::hub::first_n(dv, limit as nat));
    ranked.candidates = out;
    ranked
}


proof fn lemma_dedup_from(s: Seq<CandidateView>)
    ensures
        forall|k: int| 0 <= k < dedup(s).len() ==> exists|j: int| 0 <= j < s.len() && #[trigger] dedup(s)[k] == s[j],
    decreases s.len(),
{
    if s.len() > 0 {
        let d = s.drop_last();
        lemma_dedup_from(d);
        assert forall|k: int| 0 <= k < dedup(s).len() implies exists|j: int| 0 <= j < s.len() && #[trigger] dedup(s)[k] == s[j] by {
            if k < dedup(d).len() {
                let j = choose|j: int| 0 <= j < d.len() && #[trigger] dedup(d)[k] == d[j];
                assert(dedup(s)[k] == dedup(d)[k]);
                assert(s[j] == d[j]);
            } else {
                assert(dedup(s)[k] == s[s.len() - 1]);
            }
        }
    }
}

/// Merging keeps one candidate for each text and kind: no two of the
/// kept candidates insert the same text as the same kind.
pub proof fn law_merge_keeps_one_of_each(s: Seq<CandidateView>)
    ensures
        forall|a: int, b: int| 0 <= a < b < dedup(s).len() ==> !same_merge_key(#[trigger] dedup(s)[a], #[trigger] dedup(s)[b]),
    decreases s.len(),
{
    if s.len() > 0 {
        let d = s.drop_last();
        law_merge_keeps_one_of_each(d);
        lemma_dedup_from(d);
        assert forall|a: int, b: int| 0 <= a < b < dedup(s).len() implies !same_merge_key(#[trigger] dedup(s)[a], #[trigger] dedup(s)[b]) by {
            if b < dedup(d).len() {
                assert(dedup(s)[a] == dedup(d)[a] && dedup(s)[b] == dedup(d)[b]);
            } else {
                assert(dedup(s)[a] == dedup(d)[a]);
                let j = choose|j: int| 0 <= j < d.len() && #[trigger] dedup(d)[a] == d[j];
                assert(d[j] == s[j]);
                assert(dedup(s)[b] == s.last());
            }
        }
    }
}

} // verus!
