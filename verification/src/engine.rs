//! The command-line completion engine: what a line and cursor ask for, and
//! the candidates that the command index, the command specs' answer and a
//! directory listing give for it.
//!
//! Reading directories and asking the command specs are left to the caller;
//! this module decides which candidates are offered, in which order, and
//! what text each inserts.
use vstd::prelude::*;
use crate::commands::{
    command_key, find_key, find_key_exec, key_of, lemma_find_key, merge_all, spec_command_key, views, CommandIndex, CommandView,
    IndexedCommand,
};
use crate::model::ShellCommand;
use crate::discovery::{command_lookup_key, spec_command_lookup_key};
use crate::forms::{get_value, lookup_value};
use crate::lexer::{
    boundary, clamp_cursor, current_token, decode_power_shell, first_definition_token, first_word_at, is_boundary,
    spec_first_definition_token, lemma_boundary_unique,
    lemma_first_word_at, lex_line, preceding_arguments, segment_start, segment_words, spec_analyze_quotes, spec_decode,
    spec_format_insert, spec_segment_start, format_insert, token_is, tokens_are, Token, TokenContext,
};
use crate::model::{Candidate, CandidateKind, CandidateView, Completion};
use crate::order::{lemma_insert_by_at, sort_by, strict_weak, sorted_by, lemma_sort_by_sorts};
use crate::path_cache::{chars_less, chars_less_exec, lemma_chars_less_asym, lemma_chars_less_total, lemma_chars_less_trans};
use crate::text::{
    byte_len, chars_eq, chars_of, chars_start_with, lower, lower_chars, push_char, push_str, starts_with, string_of,
    string_of_range, trim, trim_chars, utf8_len,
};

verus! {

/// The most candidates one completion returns.
pub const MAX_RESULTS: usize = 1000;

/// A candidate with the given label, replacement, description and kind and
/// every other field empty.
pub open spec fn plain_candidate(label: Seq<char>, insert_text: Seq<char>, description: Seq<char>, kind: CandidateKind) -> CandidateView {
    CandidateView {
        label,
        insert_text,
        description,
        kind,
        description_source: Seq::empty(),
        language: Seq::empty(),
        match_reason: Seq::empty(),
        id: Seq::empty(),
        source: Seq::empty(),
        detail: Seq::empty(),
        append_space: false,
    }
}

proof fn lemma_plain(c: &Candidate)
    requires
        c.description_source@.len() == 0,
        c.language@.len() == 0,
        c.match_reason@.len() == 0,
        c.id@.len() == 0,
        c.source@.len() == 0,
        c.detail@.len() == 0,
        !c.append_space,
    ensures
        c@ == plain_candidate(c.label@, c.insert_text@, c.description@, c.kind),
{
    assert(c.description_source@ =~= Seq::empty());
    assert(c.language@ =~= Seq::empty());
    assert(c.match_reason@ =~= Seq::empty());
    assert(c.id@ =~= Seq::empty());
    assert(c.source@ =~= Seq::empty());
    assert(c.detail@ =~= Seq::empty());
}

/// `/` and `\` both separate path components.
pub open spec fn is_path_separator(c: char) -> bool {
    c == '/' || c == '\\'
}

/// Index of the last path separator of `s`.
pub open spec fn last_separator(s: Seq<char>) -> Option<int>
    decreases s.len(),
{
    if s.len() == 0 {
        None
    } else if is_path_separator(s.last()) {
        Some(s.len() - 1)
    } else {
        last_separator(s.drop_last())
    }
}

/// The directory part of a typed path, up to and with its last separator.
pub open spec fn directory_text(value: Seq<char>) -> Seq<char> {
    match last_separator(value) {
        Some(i) => value.take(i + 1),
        None => Seq::empty(),
    }
}

/// The name typed after the last separator.
pub open spec fn name_prefix(value: Seq<char>) -> Seq<char> {
    match last_separator(value) {
        Some(i) => value.skip(i + 1),
        None => value,
    }
}

/// The separator a completed directory gets: the last one typed, else the
/// platform's.
pub open spec fn typed_separator(value: Seq<char>, native: char) -> char {
    match last_separator(value) {
        Some(i) => value[i],
        None => native,
    }
}

/// An entry matches when its name starts with the typed name, ignoring
/// ASCII case.
pub open spec fn file_matches(e: (Seq<char>, bool), prefix: Seq<char>) -> bool {
    starts_with(lower(e.0), lower(prefix))
}

/// The entries of a listing that match the typed name, in listing order.
pub open spec fn matching_files(entries: Seq<(Seq<char>, bool)>, prefix: Seq<char>) -> Seq<(Seq<char>, bool)>
    decreases entries.len(),
{
    if entries.len() == 0 {
        Seq::empty()
    } else {
        let prev = matching_files(entries.drop_last(), prefix);
        if file_matches(entries.last(), prefix) { prev.push(entries.last()) } else { prev }
    }
}

/// Entries are ordered by name in ASCII lower case, then by name.
pub open spec fn file_before(a: (Seq<char>, bool), b: (Seq<char>, bool)) -> bool {
    chars_less(lower(a.0), lower(b.0)) || (lower(a.0) == lower(b.0) && chars_less(a.0, b.0))
}

/// [`file_before`] as a relation.
pub open spec fn file_order() -> spec_fn((Seq<char>, bool), (Seq<char>, bool)) -> bool {
    |a: (Seq<char>, bool), b: (Seq<char>, bool)| file_before(a, b)
}

/// The entries offered for a typed path, in the order they are shown.
pub open spec fn offered_files(value: Seq<char>, entries: Seq<(Seq<char>, bool)>) -> Seq<(Seq<char>, bool)> {
    sort_by(matching_files(entries, name_prefix(value)), file_order())
}

/// The value of a directory listing: names with whether each is a directory.
pub open spec fn listing_views(v: Seq<(String, bool)>) -> Seq<(Seq<char>, bool)> {
    v.map_values(|e: (String, bool)| (e.0@, e.1))
}

/// The candidate of a listed entry: the directory part as typed, the name,
/// and a separator after a directory, quoted as the token needs.
pub open spec fn file_candidate(value: Seq<char>, context: TokenContext, e: (Seq<char>, bool), native: char) -> CandidateView {
    let insert = directory_text(value) + e.0 + if e.1 { seq![typed_separator(value, native)] } else { Seq::empty() };
    plain_candidate(
        e.0,
        spec_format_insert(insert, context, true),
        if e.1 { "Directory"@ } else { "File"@ },
        if e.1 { CandidateKind::Directory } else { CandidateKind::File },
    )
}

/// `r` are the candidates of the first `limit` offered entries.
pub open spec fn files_listed(r: Seq<Candidate>, value: Seq<char>, context: TokenContext, limit: int,
    entries: Seq<(Seq<char>, bool)>, native: char) -> bool
{
    let offered = offered_files(value, entries);
    &&& r.len() == if limit < offered.len() { limit } else { offered.len() as int }
    &&& forall|i: int| 0 <= i < r.len() ==> (#[trigger] r[i])@ == file_candidate(value, context, offered[i], native)
}

fn last_separator_exec(v: &Vec<char>) -> (r: Option<usize>)
    ensures
        match last_separator(v@) {
            Some(i) => r matches Some(k) && k == i,
            None => r is None,
        },
{
    let mut n: usize = v.len();
    assert(v@.take(n as int) =~= v@);
    while n > 0
        invariant
            n <= v@.len(),
            last_separator(v@) == last_separator(v@.take(n as int)),
        decreases n,
    {
        assert(v@.take(n as int).drop_last() =~= v@.take(n as int - 1));
        assert(v@.take(n as int).last() == v@[n as int - 1]);
        if v[n - 1] == '/' || v[n - 1] == '\\' {
            return Some(n - 1);
        }
        n = n - 1;
    }
    proof {
        assert(v@.take(0) =~= Seq::<char>::empty());
    }
    None
}

proof fn lemma_last_separator_bound(s: Seq<char>)
    ensures
        last_separator(s) matches Some(i) ==> 0 <= i < s.len() && is_path_separator(s[i]),
    decreases s.len(),
{
    if s.len() > 0 && !is_path_separator(s.last()) {
        lemma_last_separator_bound(s.drop_last());
        if let Some(i) = last_separator(s.drop_last()) {
            assert(s.drop_last()[i] == s[i]);
        }
    }
}

proof fn lemma_file_order()
    ensures
        strict_weak(file_order()),
{
    let f = file_order();
    assert forall|x: (Seq<char>, bool), y: (Seq<char>, bool)| #[trigger] f(x, y) implies !f(y, x) by {
        lemma_chars_less_asym(lower(x.0), lower(y.0));
        lemma_chars_less_asym(x.0, y.0);
    }
    assert forall|x: (Seq<char>, bool), y: (Seq<char>, bool), z: (Seq<char>, bool)|
        #![trigger f(x, y), f(y, z)] !f(x, y) && !f(y, z) implies !f(x, z) by {
        let (lx, ly, lz) = (lower(x.0), lower(y.0), lower(z.0));
        lemma_chars_less_total(lx, ly);
        lemma_chars_less_total(ly, lz);
        lemma_chars_less_total(x.0, y.0);
        lemma_chars_less_total(y.0, z.0);
        lemma_chars_less_asym(lx, lz);
        lemma_chars_less_asym(x.0, z.0);
        if chars_less(lz, ly) && chars_less(ly, lx) {
            lemma_chars_less_trans(lz, ly, lx);
        }
        if chars_less(z.0, y.0) && chars_less(y.0, x.0) {
            lemma_chars_less_trans(z.0, y.0, x.0);
        }
    }
}

fn file_before_exec(a_key: &Vec<char>, a_name: &Vec<char>, b_key: &Vec<char>, b_name: &Vec<char>) -> (r: bool)
    ensures
        r == (chars_less(a_key@, b_key@) || (a_key@ == b_key@ && chars_less(a_name@, b_name@))),
{
    chars_less_exec(a_key.as_slice(), b_key.as_slice())
        || (chars_eq(a_key.as_slice(), b_key.as_slice()) && chars_less_exec(a_name.as_slice(), b_name.as_slice()))
}

/// The entries of a listing that match `prefix`, ordered by [`file_before`].
fn sorted_matches(entries: &Vec<(String, bool)>, prefix: &Vec<char>) -> (r: Vec<(String, bool)>)
    ensures
        listing_views(r@) == sort_by(matching_files(listing_views(entries@), prefix@), file_order()),
{
    let ghost ev = listing_views(entries@);
    let lowered_prefix = lower_chars(prefix.as_slice());
    let mut out: Vec<(String, bool)> = Vec::new();
    let mut keys: Vec<Vec<char>> = Vec::new();
    let mut names: Vec<Vec<char>> = Vec::new();
    let mut i: usize = 0;
    assert(listing_views(out@) =~= Seq::<(Seq<char>, bool)>::empty());
    while i < entries.len()
        invariant
            ev == listing_views(entries@),
            lowered_prefix@ == lower(prefix@),
            i <= ev.len(),
            keys@.len() == out@.len(),
            names@.len() == out@.len(),
            forall|k: int| 0 <= k < keys@.len() ==> (#[trigger] keys@[k])@ == lower(out@[k].0@),
            forall|k: int| 0 <= k < names@.len() ==> (#[trigger] names@[k])@ == out@[k].0@,
            listing_views(out@) == sort_by(matching_files(ev.take(i as int), prefix@), file_order()),
        decreases ev.len() - i,
    {
        let ghost e = (entries@[i as int].0@, entries@[i as int].1);
        proof {
            assert(ev.take(i as int + 1).drop_last() =~= ev.take(i as int));
            assert(ev.take(i as int + 1).last() == e);
        }
        let name_chars = chars_of(entries[i].0.as_str());
        let key = lower_chars(name_chars.as_slice());
        if chars_start_with(key.as_slice(), lowered_prefix.as_slice()) {
            let ghost ov = listing_views(out@);
            let mut j: usize = out.len();
            while j > 0 && file_before_exec(&key, &name_chars, &keys[j - 1], &names[j - 1])
                invariant
                    j <= out@.len(),
                    ov == listing_views(out@),
                    keys@.len() == out@.len(),
                    names@.len() == out@.len(),
                    forall|k: int| 0 <= k < keys@.len() ==> (#[trigger] keys@[k])@ == lower(out@[k].0@),
                    forall|k: int| 0 <= k < names@.len() ==> (#[trigger] names@[k])@ == out@[k].0@,
                    key@ == lower(e.0),
                    name_chars@ == e.0,
                    forall|m: int| j <= m < ov.len() ==> (file_order())(e, #[trigger] ov[m]),
                decreases j,
            {
                assert(ov[j as int - 1] == (out@[j as int - 1].0@, out@[j as int - 1].1));
                j = j - 1;
            }
            proof {
                if j > 0 {
                    assert(ov[j as int - 1] == (out@[j as int - 1].0@, out@[j as int - 1].1));
                }
                lemma_insert_by_at(ov, e, file_order(), j as int);
                let m = matching_files(ev.take(i as int), prefix@);
                assert(matching_files(ev.take(i as int + 1), prefix@) == m.push(e));
                assert(m.push(e).drop_last() =~= m);
            }
            let ghost old_keys = keys@;
            let ghost old_names = names@;
            let ghost old_out = out@;
            out.insert(j, (entries[i].0.clone(), entries[i].1));
            keys.insert(j, key);
            names.insert(j, name_chars);
            proof {
                assert(listing_views(out@) =~= ov.insert(j as int, e));
                assert forall|k: int| 0 <= k < keys@.len() implies (#[trigger] keys@[k])@ == lower(out@[k].0@) by {
                    if k < j {
                        assert(keys@[k] == old_keys[k] && out@[k] == old_out[k]);
                    } else if k > j {
                        assert(keys@[k] == old_keys[k - 1] && out@[k] == old_out[k - 1]);
                    }
                }
                assert forall|k: int| 0 <= k < names@.len() implies (#[trigger] names@[k])@ == out@[k].0@ by {
                    if k < j {
                        assert(names@[k] == old_names[k] && out@[k] == old_out[k]);
                    } else if k > j {
                        assert(names@[k] == old_names[k - 1] && out@[k] == old_out[k - 1]);
                    }
                }
            }
        } else {
            assert(matching_files(ev.take(i as int + 1), prefix@) == matching_files(ev.take(i as int), prefix@));
        }
        i = i + 1;
    }
    assert(ev.take(i as int) =~= ev);
    out
}

/// The candidates a directory listing gives for a typed path `value`: the
/// entries whose names start with the name typed after the last separator
/// (ignoring ASCII case), ordered by name, at most `limit` of them. The
/// listing is that of the directory part of `value`, as the caller read it.
pub fn filesystem_candidates(value: &str, context: &TokenContext, limit: usize, entries: &Vec<(String, bool)>,
    native: char) -> (r: Vec<Candidate>)
    ensures
        files_listed(r@, value@, *context, limit as int, listing_views(entries@), native),
{
    let v = chars_of(value);
    let split = last_separator_exec(&v);
    proof {
        lemma_last_separator_bound(v@);
        assert(split matches Some(i) ==> i < v@.len());
    }
    let mut directory = String::new();
    let mut prefix = v.clone();
    let mut separator = native;
    if let Some(k) = split {
        assert(k < v@.len());
        directory = string_of_range(v.as_slice(), 0, k + 1);
        prefix = chars_of(string_of_range(v.as_slice(), k + 1, v.len()).as_str());
        separator = v[k];
    }
    proof {
        match split {
            Some(i) => {
                assert(directory@ =~= directory_text(value@));
                assert(prefix@ =~= name_prefix(value@));
            },
            None => {
                assert(directory@ =~= directory_text(value@));
            },
        }
    }
    let sorted = sorted_matches(entries, &prefix);
    let ghost offered = offered_files(value@, listing_views(entries@));
    assert(listing_views(sorted@) == offered);
    let mut r: Vec<Candidate> = Vec::new();
    let mut i: usize = 0;
    while i < sorted.len() && i < limit
        invariant
            offered == listing_views(sorted@),
            directory@ == directory_text(value@),
            separator == typed_separator(value@, native),
            i <= sorted@.len(),
            i <= limit,
            r@.len() == i,
            forall|k: int| 0 <= k < i ==> (#[trigger] r@[k])@ == file_candidate(value@, *context, offered[k], native),
        decreases sorted@.len() - i,
    {
        let name = &sorted[i].0;
        let is_dir = sorted[i].1;
        let mut insert = directory.clone();
        push_str(&mut insert, name.as_str());
        if is_dir {
            push_char(&mut insert, separator);
        }
        let ghost e = offered[i as int];
        assert(e == (name@, is_dir));
        assert(insert@ =~= directory_text(value@) + e.0 + if e.1 { seq![typed_separator(value@, native)] } else { Seq::empty() });
        let formatted = format_insert(insert.as_str(), context, true);
        assert(formatted@ == spec_format_insert(insert@, *context, true));
        let description = if is_dir { "Directory".to_owned() } else { "File".to_owned() };
        let kind = if is_dir { CandidateKind::Directory } else { CandidateKind::File };
        let c = Candidate::new(name.clone(), formatted, description, kind);
        proof {
            reveal_strlit("Directory");
            reveal_strlit("File");
        }
        proof {
            lemma_plain(&c);
        }
        r.push(c);
        assert(r@[i as int]@ == file_candidate(value@, *context, offered[i as int], native));
        i = i + 1;
    }
    r
}

/// The description of a command that no catalog describes: only facts
/// about it, never a guess.
pub open spec fn spec_fallback_description(c: CommandView) -> Seq<char> {
    match c.kind {
        CandidateKind::Command => match c.executable_path {
            Some(p) => "Executable: "@ + p,
            None => "Command"@,
        },
        CandidateKind::Alias => "Alias"@,
        CandidateKind::Function => "Function"@,
        CandidateKind::Cmdlet => "Cmdlet"@,
        _ => "Command"@,
    }
}

/// Factual description of a command: where it runs from, or its kind.
pub fn fallback_description(command: &IndexedCommand) -> (r: String)
    ensures
        r@ == spec_fallback_description(command@),
{
    match command.kind {
        CandidateKind::Command => match &command.executable_path {
            Some(p) => {
                let mut r = "Executable: ".to_owned();
                push_str(&mut r, p.as_str());
                r
            },
            None => "Command".to_owned(),
        },
        CandidateKind::Alias => "Alias".to_owned(),
        CandidateKind::Function => "Function".to_owned(),
        CandidateKind::Cmdlet => "Cmdlet".to_owned(),
        _ => "Command".to_owned(),
    }
}

/// The description shown for a command: the one the catalog holds under its
/// command key, else the factual one.
pub open spec fn command_description(c: CommandView, catalog: Seq<(String, String)>) -> Seq<char> {
    match get_value(catalog, key_of(c)) {
        Some(d) => d,
        None => spec_fallback_description(c),
    }
}

/// A command is offered when its name starts with the typed prefix,
/// ignoring ASCII case.
pub open spec fn command_matches(c: CommandView, prefix: Seq<char>) -> bool {
    starts_with(lower(c.name), lower(prefix))
}

/// The matching commands in index order, the first of each command key.
pub open spec fn matching_commands(entries: Seq<CommandView>, prefix: Seq<char>) -> Seq<CommandView>
    decreases entries.len(),
{
    if entries.len() == 0 {
        Seq::empty()
    } else {
        let prev = matching_commands(entries.drop_last(), prefix);
        let c = entries.last();
        if command_matches(c, prefix) && find_key(prev, key_of(c)) is None { prev.push(c) } else { prev }
    }
}

/// Shorter names first (in UTF-8 bytes), then by name in ASCII lower case,
/// so that an exact short command precedes its longer relatives.
pub open spec fn name_before(a: CommandView, b: CommandView) -> bool {
    utf8_len(a.name) < utf8_len(b.name) || (utf8_len(a.name) == utf8_len(b.name) && chars_less(lower(a.name), lower(b.name)))
}

/// [`name_before`] as a relation.
pub open spec fn name_order() -> spec_fn(CommandView, CommandView) -> bool {
    |a: CommandView, b: CommandView| name_before(a, b)
}

/// The commands offered for a typed prefix, in the order they are shown.
pub open spec fn offered_commands(entries: Seq<CommandView>, prefix: Seq<char>) -> Seq<CommandView> {
    sort_by(matching_commands(entries, prefix), name_order())
}

/// The candidate of a command.
pub open spec fn command_candidate(c: CommandView, context: TokenContext, catalog: Seq<(String, String)>) -> CandidateView {
    plain_candidate(c.name, spec_format_insert(c.name, context, false), command_description(c, catalog), c.kind)
}

/// `r` are the candidates of the first `limit` offered commands.
pub open spec fn commands_listed(r: Seq<Candidate>, entries: Seq<CommandView>, prefix: Seq<char>, context: TokenContext,
    limit: int, catalog: Seq<(String, String)>) -> bool
{
    let offered = offered_commands(entries, prefix);
    &&& r.len() == if limit < offered.len() { limit } else { offered.len() as int }
    &&& forall|i: int| 0 <= i < r.len() ==> (#[trigger] r[i])@ == command_candidate(offered[i], context, catalog)
}

proof fn lemma_name_order()
    ensures
        strict_weak(name_order()),
{
    let f = name_order();
    assert forall|x: CommandView, y: CommandView| #[trigger] f(x, y) implies !f(y, x) by {
        lemma_chars_less_asym(lower(x.name), lower(y.name));
    }
    assert forall|x: CommandView, y: CommandView, z: CommandView|
        #![trigger f(x, y), f(y, z)] !f(x, y) && !f(y, z) implies !f(x, z) by {
        let (lx, ly, lz) = (lower(x.name), lower(y.name), lower(z.name));
        lemma_chars_less_total(lx, ly);
        lemma_chars_less_total(ly, lz);
        lemma_chars_less_asym(lx, lz);
        if chars_less(lz, ly) && chars_less(ly, lx) {
            lemma_chars_less_trans(lz, ly, lx);
        }
    }
}

fn name_before_exec(a_len: usize, a_key: &Vec<char>, b_len: usize, b_key: &Vec<char>) -> (r: bool)
    ensures
        r == (a_len < b_len || (a_len == b_len && chars_less(a_key@, b_key@))),
{
    a_len < b_len || (a_len == b_len && chars_less_exec(a_key.as_slice(), b_key.as_slice()))
}

fn describe(command: &IndexedCommand, catalog: &Vec<(String, String)>) -> (r: String)
    ensures
        r@ == command_description(command@, catalog@),
{
    let key = command_key(command.name.as_str());
    let kc = chars_of(key.as_str());
    match lookup_value(catalog, kc.as_slice()) {
        Some(d) => d.clone(),
        None => fallback_description(command),
    }
}

/// The matching commands ordered by [`name_before`].
fn sorted_commands(entries: &Vec<IndexedCommand>, prefix: &str) -> (r: Vec<IndexedCommand>)
    ensures
        views(r@) == offered_commands(views(entries@), prefix@),
{
    let ghost ev = views(entries@);
    let lowered_prefix = lower_chars(chars_of(prefix).as_slice());
    let mut listed: Vec<IndexedCommand> = Vec::new();
    let mut out: Vec<IndexedCommand> = Vec::new();
    let mut lens: Vec<usize> = Vec::new();
    let mut keys: Vec<Vec<char>> = Vec::new();
    let mut i: usize = 0;
    assert(views(out@) =~= Seq::<CommandView>::empty());
    assert(views(listed@) =~= Seq::<CommandView>::empty());
    while i < entries.len()
        invariant
            ev == views(entries@),
            lowered_prefix@ == lower(prefix@),
            i <= ev.len(),
            views(listed@) == matching_commands(ev.take(i as int), prefix@),
            keys@.len() == out@.len(),
            lens@.len() == out@.len(),
            forall|k: int| 0 <= k < keys@.len() ==> (#[trigger] keys@[k])@ == lower(out@[k].name@),
            forall|k: int| 0 <= k < lens@.len() ==> #[trigger] lens@[k] == utf8_len(out@[k].name@),
            views(out@) == sort_by(matching_commands(ev.take(i as int), prefix@), name_order()),
        decreases ev.len() - i,
    {
        let ghost c = entries@[i as int]@;
        proof {
            assert(ev.take(i as int + 1).drop_last() =~= ev.take(i as int));
            assert(ev.take(i as int + 1).last() == c);
        }
        let name_chars = chars_of(entries[i].name.as_str());
        let key = lower_chars(name_chars.as_slice());
        let ck = command_key(entries[i].name.as_str());
        let found = find_key_exec(&listed, ck.as_str());
        if chars_start_with(key.as_slice(), lowered_prefix.as_slice()) && found.is_none() {
            let len = byte_len(entries[i].name.as_str());
            let ghost ov = views(out@);
            let mut j: usize = out.len();
            while j > 0 && name_before_exec(len, &key, lens[j - 1], &keys[j - 1])
                invariant
                    j <= out@.len(),
                    ov == views(out@),
                    keys@.len() == out@.len(),
                    lens@.len() == out@.len(),
                    forall|k: int| 0 <= k < keys@.len() ==> (#[trigger] keys@[k])@ == lower(out@[k].name@),
                    forall|k: int| 0 <= k < lens@.len() ==> #[trigger] lens@[k] == utf8_len(out@[k].name@),
                    key@ == lower(c.name),
                    len == utf8_len(c.name),
                    forall|m: int| j <= m < ov.len() ==> (name_order())(c, #[trigger] ov[m]),
                decreases j,
            {
                assert(ov[j as int - 1] == out@[j as int - 1]@);
                j = j - 1;
            }
            proof {
                if j > 0 {
                    assert(ov[j as int - 1] == out@[j as int - 1]@);
                }
                lemma_insert_by_at(ov, c, name_order(), j as int);
                let m = matching_commands(ev.take(i as int), prefix@);
                assert(matching_commands(ev.take(i as int + 1), prefix@) == m.push(c));
                assert(m.push(c).drop_last() =~= m);
            }
            let ghost old_keys = keys@;
            let ghost old_lens = lens@;
            let ghost old_out = out@;
            let ghost old_listed = views(listed@);
            out.insert(j, entries[i].copy());
            keys.insert(j, key);
            lens.insert(j, len);
            listed.push(entries[i].copy());
            proof {
                assert(views(listed@) =~= old_listed.push(c));
                assert(views(out@) =~= ov.insert(j as int, c));
                assert forall|k: int| 0 <= k < keys@.len() implies (#[trigger] keys@[k])@ == lower(out@[k].name@) by {
                    if k < j {
                        assert(keys@[k] == old_keys[k] && out@[k] == old_out[k]);
                    } else if k > j {
                        assert(keys@[k] == old_keys[k - 1] && out@[k] == old_out[k - 1]);
                    }
                }
                assert forall|k: int| 0 <= k < lens@.len() implies #[trigger] lens@[k] == utf8_len(out@[k].name@) by {
                    if k < j {
                        assert(lens@[k] == old_lens[k] && out@[k] == old_out[k]);
                    } else if k > j {
                        assert(lens@[k] == old_lens[k - 1] && out@[k] == old_out[k - 1]);
                    }
                }
            }
        } else {
            assert(matching_commands(ev.take(i as int + 1), prefix@) == matching_commands(ev.take(i as int), prefix@));
        }
        i = i + 1;
    }
    assert(ev.take(i as int) =~= ev);
    out
}

/// The candidates of the commands whose names start with `prefix` (ignoring
/// ASCII case), the first command of each key, shortest names first, at
/// most `limit` of them. `catalog` holds the descriptions known for command
/// keys; other commands are described by [`fallback_description`].
pub fn command_candidates(entries: &Vec<IndexedCommand>, prefix: &str, context: &TokenContext, limit: usize,
    catalog: &Vec<(String, String)>) -> (r: Vec<Candidate>)
    ensures
        commands_listed(r@, views(entries@), prefix@, *context, limit as int, catalog@),
{
    let sorted = sorted_commands(entries, prefix);
    let ghost offered = offered_commands(views(entries@), prefix@);
    let mut r: Vec<Candidate> = Vec::new();
    let mut i: usize = 0;
    while i < sorted.len() && i < limit
        invariant
            offered == views(sorted@),
            i <= sorted@.len(),
            i <= limit,
            r@.len() == i,
            forall|k: int| 0 <= k < i ==> (#[trigger] r@[k])@ == command_candidate(offered[k], *context, catalog@),
        decreases sorted@.len() - i,
    {
        let command = &sorted[i];
        assert(offered[i as int] == command@);
        let formatted = format_insert(command.name.as_str(), context, false);
        let description = describe(command, catalog);
        let c = Candidate::new(command.name.clone(), formatted, description, command.kind);
        proof {
            lemma_plain(&c);
        }
        r.push(c);
        assert(r@[i as int]@ == command_candidate(offered[i as int], *context, catalog@));
        i = i + 1;
    }
    r
}

/// One candidate the command specs offer for an argument: its name, the
/// key its description is found under, its description and kind.
#[derive(Debug)]
pub struct SpecCandidate {
    pub name: String,
    pub key: String,
    pub description: String,
    pub kind: CandidateKind,
}

/// What the command specs answer for a command and its arguments: the
/// candidates, and whether the argument takes a path or options have ended.
#[derive(Debug)]
pub struct SpecAnswer {
    pub candidates: Vec<SpecCandidate>,
    pub path_values: bool,
    pub options_ended: bool,
}

/// Some candidate of `s` has description key `key`.
pub open spec fn key_among(s: Seq<SpecCandidate>, key: Seq<char>) -> bool {
    exists|i: int| 0 <= i < s.len() && (#[trigger] s[i]).key@ == key
}

/// The spec candidates whose names start with the typed prefix (ignoring
/// ASCII case), the first of each key, in the specs' order. Keys keep their
/// case: `-C` and `-c` are different options.
pub open spec fn matching_answers(candidates: Seq<SpecCandidate>, prefix: Seq<char>) -> Seq<SpecCandidate>
    decreases candidates.len(),
{
    if candidates.len() == 0 {
        Seq::empty()
    } else {
        let prev = matching_answers(candidates.drop_last(), prefix);
        let c = candidates.last();
        if starts_with(lower(c.name@), lower(prefix)) && !key_among(prev, c.key@) { prev.push(c) } else { prev }
    }
}

/// The candidate of a spec candidate: its description is overridden by the
/// one configured under its key, if any.
pub open spec fn answer_candidate(c: SpecCandidate, context: TokenContext, overrides: Seq<(String, String)>) -> CandidateView {
    plain_candidate(
        c.name@,
        spec_format_insert(c.name@, context, false),
        match get_value(overrides, c.key@) {
            Some(d) => d,
            None => c.description@,
        },
        c.kind,
    )
}

/// `r` are the candidates of the first `limit` matching spec candidates.
pub open spec fn answers_listed(r: Seq<Candidate>, candidates: Seq<SpecCandidate>, prefix: Seq<char>,
    context: TokenContext, limit: int, overrides: Seq<(String, String)>) -> bool
{
    let m = matching_answers(candidates, prefix);
    &&& r.len() == if limit < m.len() { limit } else { m.len() as int }
    &&& forall|i: int| 0 <= i < r.len() ==> (#[trigger] r[i])@ == answer_candidate(m[i], context, overrides)
}

fn contains_chars(v: &Vec<Vec<char>>, k: &Vec<char>) -> (r: bool)
    ensures
        r == exists|i: int| 0 <= i < v@.len() && (#[trigger] v@[i])@ == k@,
{
    let mut i: usize = 0;
    while i < v.len()
        invariant
            i <= v@.len(),
            forall|j: int| 0 <= j < i ==> (#[trigger] v@[j])@ != k@,
        decreases v@.len() - i,
    {
        if chars_eq(v[i].as_slice(), k.as_slice()) {
            return true;
        }
        i = i + 1;
    }
    false
}

/// The candidates the command specs' answer gives for the typed prefix, at
/// most `limit` of them, with descriptions overridden by `overrides` (by
/// spec key).
pub fn answer_candidates(candidates: &Vec<SpecCandidate>, prefix: &str, context: &TokenContext, limit: usize,
    overrides: &Vec<(String, String)>) -> (r: Vec<Candidate>)
    ensures
        answers_listed(r@, candidates@, prefix@, *context, limit as int, overrides@),
{
    let ghost all = candidates@;
    let lowered_prefix = lower_chars(chars_of(prefix).as_slice());
    let mut seen: Vec<Vec<char>> = Vec::new();
    let ghost mut m: Seq<SpecCandidate> = Seq::empty();
    let mut r: Vec<Candidate> = Vec::new();
    let mut i: usize = 0;
    while i < candidates.len() && r.len() < limit
        invariant
            all == candidates@,
            lowered_prefix@ == lower(prefix@),
            i <= all.len(),
            m == matching_answers(all.take(i as int), prefix@),
            seen@.len() == m.len(),
            forall|k: int| 0 <= k < seen@.len() ==> (#[trigger] seen@[k])@ == m[k].key@,
            r@.len() == m.len(),
            r@.len() <= limit,
            forall|k: int| 0 <= k < r@.len() ==> (#[trigger] r@[k])@ == answer_candidate(m[k], *context, overrides@),
        decreases all.len() - i,
    {
        let c = &candidates[i];
        proof {
            assert(all.take(i as int + 1).drop_last() =~= all.take(i as int));
            assert(all.take(i as int + 1).last() == *c);
        }
        let key = chars_of(c.key.as_str());
        let name = lower_chars(chars_of(c.name.as_str()).as_slice());
        let listed = contains_chars(&seen, &key);
        proof {
            if listed {
                let k = choose|k: int| 0 <= k < seen@.len() && (#[trigger] seen@[k])@ == key@;
                assert(m[k].key@ == c.key@);
                assert(key_among(m, c.key@));
            } else {
                assert forall|k: int| 0 <= k < m.len() implies (#[trigger] m[k]).key@ != c.key@ by {
                    assert(seen@[k]@ == m[k].key@);
                }
            }
        }
        if chars_start_with(name.as_slice(), lowered_prefix.as_slice()) && !listed {
            let description = match lookup_value(overrides, key.as_slice()) {
                Some(d) => d.clone(),
                None => c.description.clone(),
            };
            let formatted = format_insert(c.name.as_str(), context, false);
            let candidate = Candidate::new(c.name.clone(), formatted, description, c.kind);
            proof {
                lemma_plain(&candidate);
            }
            let ghost before = r@;
            r.push(candidate);
            seen.push(key);
            proof {
                m = m.push(*c);
                assert forall|k: int| 0 <= k < r@.len() implies (#[trigger] r@[k])@ == answer_candidate(m[k], *context, overrides@) by {
                    if k < before.len() {
                        assert(r@[k] == before[k]);
                    }
                }
            }
        }
        i = i + 1;
    }
    proof {
        if r@.len() < limit {
            assert(all.take(i as int) =~= all);
        } else {
            lemma_matching_answers_grow(all, prefix@, i as int);
        }
    }
    r
}

proof fn lemma_matching_answers_grow(all: Seq<SpecCandidate>, prefix: Seq<char>, i: int)
    requires
        0 <= i <= all.len(),
    ensures
        matching_answers(all, prefix).len() >= matching_answers(all.take(i), prefix).len(),
        forall|k: int| 0 <= k < matching_answers(all.take(i), prefix).len()
            ==> #[trigger] matching_answers(all, prefix)[k] == matching_answers(all.take(i), prefix)[k],
    decreases all.len() - i,
{
    if i < all.len() {
        lemma_matching_answers_grow(all, prefix, i + 1);
        assert(all.take(i + 1).drop_last() =~= all.take(i));
    } else {
        assert(all.take(i) =~= all);
    }
}

/// What a line and cursor ask the engine for: the byte range of the token
/// being completed, its quoting and its text before the cursor, whether it
/// stands in command position, and otherwise the command of its segment and
/// the decoded arguments before it.
#[derive(Debug)]
pub struct CompletionRequest {
    pub replace_start: usize,
    pub replace_end: usize,
    pub context: TokenContext,
    pub command_position: bool,
    pub command: String,
    pub arguments: Vec<String>,
}

/// `c` is `cursor` clamped to the line and moved back to a character boundary.
pub open spec fn clamped(s: Seq<char>, cursor: int, c: int) -> bool {
    &&& is_boundary(s, c)
    &&& c <= cursor
    &&& forall|i: int| 0 <= i <= s.len() && utf8_len(#[trigger] s.take(i)) <= cursor ==> utf8_len(s.take(i)) <= c
}

/// The clamped cursor (there is exactly one, see [`lemma_clamp_of`]).
pub open spec fn clamp_of(s: Seq<char>, cursor: int) -> int {
    choose|c: int| clamped(s, cursor, c)
}

/// The character index of a character boundary (there is at most one).
pub open spec fn char_at(s: Seq<char>, b: int) -> int {
    choose|i: int| boundary(s, i, b)
}

/// Index of the first word token that starts within `segment..=current`:
/// the command of the segment.
pub open spec fn command_token(tokens: Seq<Token>, segment: int, current: int) -> Option<int>
    decreases tokens.len(),
{
    if tokens.len() == 0 {
        None
    } else {
        match command_token(tokens.drop_last(), segment, current) {
            Some(k) => Some(k),
            None => {
                let t = tokens.last();
                if !t.separator && t.start >= segment && t.start <= current { Some(tokens.len() - 1) } else { None }
            },
        }
    }
}

/// The token completed at the clamped cursor `c`: its start, end and text.
pub open spec fn current_of(tokens: Seq<Token>, c: int) -> (int, int, Seq<char>) {
    match first_word_at(tokens, c) {
        Some(k) => (tokens[k].start as int, tokens[k].end as int, tokens[k].raw@),
        None => (c, c, Seq::empty()),
    }
}

/// `q` is the request of line `s`, lexed into `tokens`, at clamped cursor `c`.
pub open spec fn request_from(q: CompletionRequest, s: Seq<char>, tokens: Seq<Token>, c: int) -> bool {
    let cur = current_of(tokens, c);
    let segment = spec_segment_start(tokens, cur.0);
    let words = segment_words(tokens, segment, cur.0);
    &&& q.replace_start == cur.0
    &&& q.replace_end == cur.1
    &&& q.context.value_before@ == spec_decode(s.subrange(char_at(s, cur.0), char_at(s, c)))
    &&& q.context.quote_char == spec_analyze_quotes(cur.2).0
    &&& q.context.closed == spec_analyze_quotes(cur.2).1
    &&& q.context.quoted == (cur.2.len() > 0 && (cur.2[0] == '\'' || cur.2[0] == '"'))
    &&& match command_token(tokens, segment, cur.0) {
        Some(k) => q.command_position == (tokens[k].start == cur.0) && q.command@ == spec_decode(tokens[k].raw@),
        None => q.command_position && q.command@.len() == 0,
    }
    &&& q.arguments@.map_values(|x: String| x@) == if words.len() == 0 { words } else { words.drop_first() }
}

/// `q` is the request that line `s` makes at byte offset `cursor`.
pub open spec fn request_of(q: CompletionRequest, s: Seq<char>, cursor: int) -> bool {
    exists|tokens: Seq<Token>| tokens_are(tokens, s) && #[trigger] request_from(q, s, tokens, clamp_of(s, cursor))
}

/// The clamped cursor is unique.
pub proof fn lemma_clamp_of(s: Seq<char>, cursor: int, c: int)
    requires
        clamped(s, cursor, c),
    ensures
        clamp_of(s, cursor) == c,
{
    let d = clamp_of(s, cursor);
    assert(clamped(s, cursor, d));
    let i = choose|i: int| boundary(s, i, c);
    let j = choose|j: int| boundary(s, j, d);
    assert(utf8_len(s.take(i)) <= d);
    assert(utf8_len(s.take(j)) <= c);
}

proof fn lemma_char_at(s: Seq<char>, i: int, b: int)
    requires
        boundary(s, i, b),
    ensures
        char_at(s, b) == i,
{
    lemma_boundary_unique(s, i, char_at(s, b), b);
}

proof fn lemma_command_token(tokens: Seq<Token>, segment: int, current: int)
    ensures
        command_token(tokens, segment, current) matches Some(k) ==> 0 <= k < tokens.len(),
    decreases tokens.len(),
{
    if tokens.len() > 0 {
        lemma_command_token(tokens.drop_last(), segment, current);
    }
}

fn find_command_token(tokens: &Vec<Token>, segment: usize, current: usize) -> (r: Option<usize>)
    ensures
        match command_token(tokens@, segment as int, current as int) {
            Some(k) => r matches Some(j) && j == k,
            None => r is None,
        },
{
    let mut i: usize = 0;
    while i < tokens.len()
        invariant
            i <= tokens@.len(),
            command_token(tokens@.take(i as int), segment as int, current as int) is None,
        decreases tokens@.len() - i,
    {
        assert(tokens@.take(i as int + 1).drop_last() =~= tokens@.take(i as int));
        let t = &tokens[i];
        if !t.separator && t.start >= segment && t.start <= current {
            proof {
                lemma_command_token_prefix(tokens@, i as int + 1, segment as int, current as int);
            }
            return Some(i);
        }
        i = i + 1;
    }
    assert(tokens@.take(i as int) =~= tokens@);
    None
}

proof fn lemma_command_token_prefix(tokens: Seq<Token>, n: int, segment: int, current: int)
    requires
        0 <= n <= tokens.len(),
        command_token(tokens.take(n), segment, current) is Some,
    ensures
        command_token(tokens, segment, current) == command_token(tokens.take(n), segment, current),
    decreases tokens.len() - n,
{
    if n < tokens.len() {
        assert(tokens.take(n + 1).drop_last() =~= tokens.take(n));
        lemma_command_token_prefix(tokens, n + 1, segment, current);
    } else {
        assert(tokens.take(n) =~= tokens);
    }
}

/// What `line` asks for with the cursor at byte offset `cursor` (clamped to
/// the line and moved back to a character boundary).
pub fn completion_request(line: &str, cursor: usize) -> (q: CompletionRequest)
    ensures
        request_of(q, line@, cursor as int),
{
    let ghost s = line@;
    let c = clamp_cursor(line, cursor);
    let tokens = lex_line(line);
    let current = current_token(&tokens, c);
    proof {
        lemma_clamp_of(s, cursor as int, c as int);
        lemma_first_word_at(tokens@, c as int);
        match first_word_at(tokens@, c as int) {
            Some(k) => {
                let span = crate::lexer::lex(s)[k];
                assert(token_is(tokens@[k], s, span));
                assert(boundary(s, span.0, current.start as int));
                assert(boundary(s, span.1, current.end as int));
            },
            None => {},
        }
    }
    let context = TokenContext::from(line, &current, c);
    proof {
        let (i, j, k) = choose|i: int, j: int, k: int|
            boundary(s, i, current.start as int) && boundary(s, j, current.end as int)
                && boundary(s, k, c as int)
                && context.value_before@ == spec_decode(s.subrange(i, k))
                && context.quote_char == spec_analyze_quotes(current.raw@).0
                && context.closed == spec_analyze_quotes(current.raw@).1
                && context.quoted == (current.raw@.len() > 0 && (current.raw@[0] == '\''
                || current.raw@[0] == '"'));
        lemma_char_at(s, i, current.start as int);
        lemma_char_at(s, k, c as int);
    }
    let segment = segment_start(&tokens, current.start);
    let cmd = find_command_token(&tokens, segment, current.start);
    proof {
        lemma_command_token(tokens@, segment as int, current.start as int);
    }
    let mut command_position = true;
    let mut command = String::new();
    if let Some(k) = cmd {
        command_position = tokens[k].start == current.start;
        command = decode_power_shell(tokens[k].raw.as_str());
    }
    let arguments = preceding_arguments(&tokens, segment, current.start);
    let q = CompletionRequest {
        replace_start: current.start,
        replace_end: current.end,
        context,
        command_position,
        command,
        arguments,
    };
    assert(request_from(q, s, tokens@, clamp_of(s, cursor as int)));
    q
}

/// Whether an argument is completed from the directory listing: the specs
/// offered nothing for it, it is not an option, and either no spec knows the
/// command or the spec takes a path there.
pub open spec fn wants_files(prefix: Seq<char>, answer: Option<&SpecAnswer>) -> bool {
    &&& !(prefix.len() > 0 && prefix[0] == '-')
    &&& match answer {
        Some(a) => matching_answers(a.candidates@, prefix).len() == 0 && (a.path_values || a.options_ended),
        None => true,
    }
}

/// `r` is the completion of request `q` by an index with the given
/// commands: commands in command position, else what the specs' answer
/// offers, else the directory listing, at most `limit` (and at most
/// [`MAX_RESULTS`]) candidates, over the token's whole byte range.
pub open spec fn completion_is(r: Completion, entries: Seq<CommandView>, complete: bool, q: CompletionRequest, limit: int,
    overrides: Seq<(String, String)>, catalog: Seq<(String, String)>, answer: Option<&SpecAnswer>,
    listing: Seq<(Seq<char>, bool)>, native: char) -> bool
{
    let limit = if limit < MAX_RESULTS { limit } else { MAX_RESULTS as int };
    let prefix = q.context.value_before@;
    &&& r.replace_start == q.replace_start
    &&& r.replace_end == q.replace_end
    &&& r.incomplete == !complete
    &&& r.argument_hint@.len() == 0
    &&& if limit == 0 {
        r.candidates@.len() == 0
    } else if q.command_position {
        commands_listed(r.candidates@, entries, prefix, q.context, limit, catalog)
    } else if wants_files(prefix, answer) {
        files_listed(r.candidates@, prefix, q.context, limit, listing, native)
    } else {
        match answer {
            Some(a) => answers_listed(r.candidates@, a.candidates@, prefix, q.context, limit, overrides),
            None => r.candidates@.len() == 0,
        }
    }
}

/// The completion of a request already made.
pub fn complete_request(index: &CommandIndex, q: &CompletionRequest, limit: usize, overrides: &Vec<(String, String)>,
    catalog: &Vec<(String, String)>, answer: Option<&SpecAnswer>, listing: &Vec<(String, bool)>, native: char)
    -> (r: Completion)
    ensures
        completion_is(r, index.spec_entries(), index.spec_complete(), *q, limit as int, overrides@, catalog@, answer,
            listing_views(listing@), native),
{
    let limit = if limit < MAX_RESULTS { limit } else { MAX_RESULTS };
    let mut r = Completion {
        replace_start: q.replace_start,
        replace_end: q.replace_end,
        candidates: Vec::new(),
        incomplete: !index.is_complete(),
        argument_hint: String::new(),
    };
    if limit == 0 {
        return r;
    }
    let prefix = q.context.value_before.as_str();
    if q.command_position {
        r.candidates = command_candidates(index.entries(), prefix, &q.context, limit, catalog);
        return r;
    }
    let offered = match answer {
        Some(a) => answer_candidates(&a.candidates, prefix, &q.context, limit, overrides),
        None => Vec::new(),
    };
    let p = chars_of(prefix);
    let option = p.len() > 0 && p[0] == '-';
    let files = offered.len() == 0 && !option && match answer {
        Some(a) => a.path_values || a.options_ended,
        None => true,
    };
    proof {
        if let Some(a) = answer {
            assert(matching_answers(a.candidates@, prefix@).len() == 0 <==> offered@.len() == 0);
        }
    }
    if files {
        r.candidates = filesystem_candidates(prefix, &q.context, limit, listing, native);
    } else {
        r.candidates = offered;
    }
    r
}

impl CommandIndex {
    /// Complete `line` at the UTF-8 byte offset `cursor`, with descriptions
    /// overridden by `overrides` (by spec key). The replacement range always
    /// spans the whole current token, its part after the cursor included.
    ///
    /// The command specs' `answer` for the request's command and arguments,
    /// the `listing` of the directory part of the typed value, and the
    /// command descriptions of `catalog` (by command key) are read by the
    /// caller; `native` is the platform's path separator.
    pub fn complete_with_descriptions(&self, line: &str, cursor: usize, limit: usize, overrides: &Vec<(String, String)>,
        catalog: &Vec<(String, String)>, answer: Option<&SpecAnswer>, listing: &Vec<(String, bool)>, native: char)
        -> (r: Completion)
        ensures
            exists|q: CompletionRequest| #[trigger] request_of(q, line@, cursor as int)
                && completion_is(r, self.spec_entries(), self.spec_complete(), q, limit as int, overrides@, catalog@,
                    answer, listing_views(listing@), native),
    {
        let q = completion_request(line, cursor);
        let r = complete_request(self, &q, limit, overrides, catalog, answer, listing, native);
        assert(request_of(q, line@, cursor as int));
        r
    }

    /// Complete `line` at the UTF-8 byte offset `cursor` with the specs'
    /// own descriptions.
    pub fn complete(&self, line: &str, cursor: usize, limit: usize, catalog: &Vec<(String, String)>,
        answer: Option<&SpecAnswer>, listing: &Vec<(String, bool)>, native: char) -> (r: Completion)
        ensures
            exists|q: CompletionRequest| #[trigger] request_of(q, line@, cursor as int)
                && completion_is(r, self.spec_entries(), self.spec_complete(), q, limit as int, Seq::empty(), catalog@,
                    answer, listing_views(listing@), native),
    {
        let overrides: Vec<(String, String)> = Vec::new();
        assert(overrides@ =~= Seq::<(String, String)>::empty());
        self.complete_with_descriptions(line, cursor, limit, &overrides, catalog, answer, listing, native)
    }
}

/// The directory part of a typed path value, whose listing the caller reads.
pub fn typed_directory(value: &str) -> (r: String)
    ensures
        r@ == directory_text(value@),
{
    let v = chars_of(value);
    match last_separator_exec(&v) {
        Some(k) => {
            proof {
                lemma_last_separator_bound(v@);
            }
            string_of_range(v.as_slice(), 0, k + 1)
        },
        None => String::new(),
    }
}

/// Where the directory part of a typed path points: the working directory,
/// a path text (absolute, or relative to the working directory), or a path
/// below the home directory (with the text to use when there is no home).
#[derive(Debug)]
pub enum DirectoryPath {
    Current,
    Text(String),
    Home { suffix: String, text: String },
}

/// `s` without its trailing path separators.
pub open spec fn trim_end_separators(s: Seq<char>) -> Seq<char>
    decreases s.len(),
{
    if s.len() > 0 && is_path_separator(s.last()) { trim_end_separators(s.drop_last()) } else { s }
}

/// `s` without its leading path separators.
pub open spec fn trim_start_separators(s: Seq<char>) -> Seq<char>
    decreases s.len(),
{
    if s.len() > 0 && is_path_separator(s[0]) { trim_start_separators(s.drop_first()) } else { s }
}

/// The path text of a directory part: trailing separators removed, but a
/// bare root keeps one and a drive (`C:`) keeps its own, so that `C:\`
/// stays the drive's root rather than the drive's working directory.
pub open spec fn directory_path_text(d: Seq<char>, native: char) -> Seq<char> {
    let t = trim_end_separators(d);
    let trailing = d.len() > 0 && is_path_separator(d.last());
    if t.len() == 0 {
        seq![if trailing { d.last() } else { native }]
    } else if t.len() == 2 && t[1] == ':' && (t[0] as u32) < 0x80 && trailing {
        t.push(d.last())
    } else {
        t
    }
}

/// Where a directory part points (see [`DirectoryPath`]); `~` alone or
/// followed by a separator is below the home directory.
pub open spec fn spec_directory_path(d: Seq<char>, native: char) -> DirectoryPathView {
    let t = directory_path_text(d, native);
    if d.len() == 0 {
        DirectoryPathView::Current
    } else if t == seq!['~'] || (t.len() >= 2 && t[0] == '~' && is_path_separator(t[1])) {
        DirectoryPathView::Home { suffix: trim_start_separators(t.drop_first()), text: t }
    } else {
        DirectoryPathView::Text(t)
    }
}

/// The value of a [`DirectoryPath`].
pub enum DirectoryPathView {
    Current,
    Text(Seq<char>),
    Home { suffix: Seq<char>, text: Seq<char> },
}

impl View for DirectoryPath {
    type V = DirectoryPathView;

    open spec fn view(&self) -> DirectoryPathView {
        match self {
            DirectoryPath::Current => DirectoryPathView::Current,
            DirectoryPath::Text(t) => DirectoryPathView::Text(t@),
            DirectoryPath::Home { suffix, text } => DirectoryPathView::Home { suffix: suffix@, text: text@ },
        }
    }
}

/// Where the directory part `directory` of a typed path points; `native`
/// is the platform's separator.
pub fn directory_path(directory: &str, native: char) -> (r: DirectoryPath)
    ensures
        r@ == spec_directory_path(directory@, native),
{
    let d = chars_of(directory);
    if d.len() == 0 {
        return DirectoryPath::Current;
    }
    let mut n: usize = d.len();
    assert(d@.take(n as int) =~= d@);
    while n > 0 && (d[n - 1] == '/' || d[n - 1] == '\\')
        invariant
            n <= d@.len(),
            trim_end_separators(d@) == trim_end_separators(d@.take(n as int)),
        decreases n,
    {
        assert(d@.take(n as int).drop_last() =~= d@.take(n as int - 1));
        n = n - 1;
    }
    let last = d[d.len() - 1];
    let trailing = last == '/' || last == '\\';
    let mut t: Vec<char> = Vec::new();
    let mut i: usize = 0;
    while i < n
        invariant
            i <= n <= d@.len(),
            t@ == d@.take(i as int),
        decreases n - i,
    {
        t.push(d[i]);
        assert(d@.take(i as int + 1) =~= d@.take(i as int).push(d@[i as int]));
        i = i + 1;
    }
    assert(trim_end_separators(d@) == t@);
    if t.len() == 0 {
        t.push(if trailing { last } else { native });
    } else if t.len() == 2 && t[1] == ':' && (t[0] as u32) < 0x80 && trailing {
        t.push(last);
    }
    assert(t@ == directory_path_text(d@, native));
    let text = string_of(t.as_slice());
    let home = (t.len() == 1 && t[0] == '~') || (t.len() >= 2 && t[0] == '~' && (t[1] == '/' || t[1] == '\\'));
    if home {
        assert(t.len() == 1 ==> t@ =~= seq!['~']);
        let mut k: usize = 1;
        assert(trim_start_separators(t@.drop_first()) == trim_start_separators(t@.skip(1)));
        while k < t.len() && (t[k] == '/' || t[k] == '\\')
            invariant
                1 <= k <= t@.len(),
                trim_start_separators(t@.drop_first()) == trim_start_separators(t@.skip(k as int)),
            decreases t@.len() - k,
        {
            assert(t@.skip(k as int).drop_first() =~= t@.skip(k as int + 1));
            k = k + 1;
        }
        let suffix = string_of_range(t.as_slice(), k, t.len());
        assert(suffix@ =~= t@.skip(k as int));
        DirectoryPath::Home { suffix, text }
    } else {
        proof {
            if t@ == seq!['~'] {
                assert(t@.len() == 1 && t@[0] == '~');
            }
        }
        DirectoryPath::Text(text)
    }
}

/// The commands offered for a prefix are exactly the matching commands
/// (the first of each key), and none is shown after a command that it
/// comes before: shorter names first, then by name ignoring ASCII case.
pub proof fn law_offered_commands_are_ordered(entries: Seq<CommandView>, prefix: Seq<char>)
    ensures
        offered_commands(entries, prefix).to_multiset() == matching_commands(entries, prefix).to_multiset(),
        sorted_by(offered_commands(entries, prefix), name_order()),
        forall|i: int, j: int| 0 <= i < j < offered_commands(entries, prefix).len()
            ==> utf8_len((#[trigger] offered_commands(entries, prefix)[i]).name)
                <= utf8_len((#[trigger] offered_commands(entries, prefix)[j]).name),
{
    lemma_name_order();
    lemma_sort_by_sorts(matching_commands(entries, prefix), name_order());
    let o = offered_commands(entries, prefix);
    assert forall|i: int, j: int| 0 <= i < j < o.len() implies utf8_len((#[trigger] o[i]).name) <= utf8_len((#[trigger] o[j]).name) by {
        assert(!(name_order())(o[j], o[i]));
    }
}

/// The entries offered for a typed path are exactly the matching entries,
/// ordered by name ignoring ASCII case (then by name).
pub proof fn law_offered_files_are_ordered(value: Seq<char>, entries: Seq<(Seq<char>, bool)>)
    ensures
        offered_files(value, entries).to_multiset() == matching_files(entries, name_prefix(value)).to_multiset(),
        sorted_by(offered_files(value, entries), file_order()),
{
    lemma_file_order();
    lemma_sort_by_sorts(matching_files(entries, name_prefix(value)), file_order());
}

/// The replacement range of a request holds the cursor and is either the
/// whole word token under it, the part after the cursor included, or empty
/// at the cursor.
pub proof fn law_replacement_spans_the_token(q: CompletionRequest, s: Seq<char>, tokens: Seq<Token>, c: int)
    requires
        tokens_are(tokens, s),
        request_from(q, s, tokens, c),
    ensures
        q.replace_start <= c <= q.replace_end,
        (q.replace_start == c && q.replace_end == c) || exists|k: int| 0 <= k < tokens.len()
            && !(#[trigger] tokens[k]).separator && tokens[k].start == q.replace_start && tokens[k].end == q.replace_end,
{
    lemma_first_word_at(tokens, c);
}

/// How many aliases are followed at most.
pub const MAX_ALIAS_DEPTH: usize = 8;

/// The name `current` stands for after following at most `fuel` aliases of
/// `entries`, each to the first word of its definition, stopping at an empty
/// or already visited command key.
pub open spec fn alias_target(entries: Seq<CommandView>, current: Seq<char>, visited: Seq<Seq<char>>, fuel: nat) -> Seq<char>
    decreases fuel,
{
    if fuel == 0 {
        current
    } else {
        let key = spec_command_key(current);
        if key.len() == 0 || visited.contains(key) {
            current
        } else {
            match find_key(entries, spec_command_lookup_key(key)) {
                Some(i) => if entries[i].kind == CandidateKind::Alias {
                    match spec_first_definition_token(entries[i].definition) {
                        Some(t) => alias_target(entries, t, visited.push(key), (fuel - 1) as nat),
                        None => current,
                    }
                } else {
                    current
                },
                None => current,
            }
        }
    }
}

impl CommandIndex {
    /// The command that `command` (as typed, decoded and trimmed) stands
    /// for once session aliases are followed; an alias may shadow a known
    /// external command. Naming the canonical command of the result is left
    /// to the command specs.
    pub fn resolve_alias(&self, command: &str) -> (r: String)
        ensures
            r@ == alias_target(self.spec_entries(), trim(spec_decode(command@)), Seq::empty(), MAX_ALIAS_DEPTH as nat),
    {
        let entries = self.entries();
        let ghost ev = self.spec_entries();
        let decoded = decode_power_shell(command);
        let dc = chars_of(decoded.as_str());
        let mut current = string_of(trim_chars(dc.as_slice()).as_slice());
        let mut visited: Vec<Vec<char>> = Vec::new();
        let ghost mut vis: Seq<Seq<char>> = Seq::empty();
        let mut fuel: usize = MAX_ALIAS_DEPTH;
        let ghost goal = alias_target(ev, current@, vis, fuel as nat);
        while fuel > 0
            invariant
                ev == views(entries@),
                ev == self.spec_entries(),
                goal == alias_target(ev, trim(spec_decode(command@)), Seq::empty(), MAX_ALIAS_DEPTH as nat),
                goal == alias_target(ev, current@, vis, fuel as nat),
                visited@.len() == vis.len(),
                forall|i: int| 0 <= i < vis.len() ==> (#[trigger] visited@[i])@ == vis[i],
            decreases fuel,
        {
            let key = command_key(current.as_str());
            let kc = chars_of(key.as_str());
            let seen = contains_chars(&visited, &kc);
            proof {
                if seen {
                    let i = choose|i: int| 0 <= i < visited@.len() && (#[trigger] visited@[i])@ == kc@;
                    assert(vis[i] == key@);
                    assert(vis.contains(key@));
                } else {
                    assert forall|i: int| 0 <= i < vis.len() implies vis[i] != key@ by {
                        assert(visited@[i]@ == vis[i]);
                    }
                }
            }
            if kc.len() == 0 || seen {
                return current;
            }
            let lookup = command_lookup_key(key.as_str());
            let found = find_key_exec(entries, lookup.as_str());
            proof {
                lemma_find_key(ev, lookup@);
            }
            match found {
                Some(i) => {
                    if !matches!(entries[i].kind, CandidateKind::Alias) {
                        return current;
                    }
                    match first_definition_token(entries[i].definition.as_str()) {
                        Some(t) => {
                            current = t;
                        },
                        None => {
                            return current;
                        },
                    }
                },
                None => {
                    return current;
                },
            }
            visited.push(kc);
            proof {
                vis = vis.push(key@);
            }
            fuel = fuel - 1;
        }
        current
    }
}


/// Two token lists that agree on every token's span, kind and text.
pub open spec fn tokens_agree(a: Seq<Token>, b: Seq<Token>) -> bool {
    &&& a.len() == b.len()
    &&& forall|k: int| 0 <= k < a.len() ==> {
        &&& (#[trigger] a[k]).start == b[k].start
        &&& a[k].end == b[k].end
        &&& a[k].separator == b[k].separator
        &&& a[k].raw@ == b[k].raw@
    }
}

proof fn lemma_tokens_agree(a: Seq<Token>, b: Seq<Token>, s: Seq<char>)
    requires
        tokens_are(a, s),
        tokens_are(b, s),
    ensures
        tokens_agree(a, b),
{
    assert forall|k: int| 0 <= k < a.len() implies {
        &&& (#[trigger] a[k]).start == b[k].start
        &&& a[k].end == b[k].end
        &&& a[k].separator == b[k].separator
        &&& a[k].raw@ == b[k].raw@
    } by {
        assert(token_is(a[k], s, crate::lexer::lex(s)[k]));
        assert(token_is(b[k], s, crate::lexer::lex(s)[k]));
    }
}

proof fn lemma_agree_drop_last(a: Seq<Token>, b: Seq<Token>)
    requires
        tokens_agree(a, b),
        a.len() > 0,
    ensures
        tokens_agree(a.drop_last(), b.drop_last()),
        a.last().start == b.last().start,
        a.last().end == b.last().end,
        a.last().separator == b.last().separator,
{
    assert(a[a.len() - 1] == a.last());
    assert forall|k: int| 0 <= k < a.drop_last().len() implies {
        &&& (#[trigger] a.drop_last()[k]).start == b.drop_last()[k].start
        &&& a.drop_last()[k].end == b.drop_last()[k].end
        &&& a.drop_last()[k].separator == b.drop_last()[k].separator
        &&& a.drop_last()[k].raw@ == b.drop_last()[k].raw@
    } by {
        assert(a.drop_last()[k] == a[k]);
        assert(b.drop_last()[k] == b[k]);
    }
}

proof fn lemma_agree_scans(a: Seq<Token>, b: Seq<Token>, c: int, segment: int, current: int)
    requires
        tokens_agree(a, b),
    ensures
        first_word_at(a, c) == first_word_at(b, c),
        spec_segment_start(a, current) == spec_segment_start(b, current),
        command_token(a, segment, current) == command_token(b, segment, current),
    decreases a.len(),
{
    if a.len() > 0 {
        lemma_agree_drop_last(a, b);
        lemma_agree_scans(a.drop_last(), b.drop_last(), c, segment, current);
    }
}

/// The parts of a request the completion reads are fixed by the line and
/// cursor.
proof fn lemma_request_agree(q1: CompletionRequest, q2: CompletionRequest, s: Seq<char>, cursor: int)
    requires
        request_of(q1, s, cursor),
        request_of(q2, s, cursor),
    ensures
        q1.replace_start == q2.replace_start,
        q1.replace_end == q2.replace_end,
        q1.context.value_before@ == q2.context.value_before@,
        q1.context.quote_char == q2.context.quote_char,
        q1.context.closed == q2.context.closed,
        q1.context.quoted == q2.context.quoted,
        q1.command_position == q2.command_position,
{
    let c = clamp_of(s, cursor);
    let t1 = choose|tokens: Seq<Token>| tokens_are(tokens, s) && #[trigger] request_from(q1, s, tokens, c);
    let t2 = choose|tokens: Seq<Token>| tokens_are(tokens, s) && #[trigger] request_from(q2, s, tokens, c);
    lemma_tokens_agree(t1, t2, s);
    lemma_agree_scans(t1, t2, c, 0, 0);
    let cur = current_of(t1, c);
    match first_word_at(t1, c) {
        Some(k) => {
            lemma_first_word_at(t1, c);
            assert(t1[k].start == t2[k].start);
        },
        None => {},
    }
    assert(current_of(t2, c) == cur);
    lemma_agree_scans(t1, t2, c, 0, cur.0);
    let segment = spec_segment_start(t1, cur.0);
    lemma_agree_scans(t1, t2, c, segment, cur.0);
    match command_token(t1, segment, cur.0) {
        Some(k) => {
            lemma_command_token_bound(t1, segment, cur.0);
            assert(t1[k].start == t2[k].start);
        },
        None => {},
    }
}

proof fn lemma_command_token_bound(tokens: Seq<Token>, segment: int, current: int)
    ensures
        command_token(tokens, segment, current) matches Some(k) ==> 0 <= k < tokens.len(),
    decreases tokens.len(),
{
    if tokens.len() > 0 {
        lemma_command_token_bound(tokens.drop_last(), segment, current);
    }
}

/// `r` completes `line` at `cursor`: for the request the line makes, it
/// is the completion described by [`completion_is`].
pub open spec fn completes(r: Completion, entries: Seq<CommandView>, complete: bool, line: Seq<char>, cursor: int,
    limit: int, overrides: Seq<(String, String)>, catalog: Seq<(String, String)>, answer: Option<&SpecAnswer>,
    listing: Seq<(Seq<char>, bool)>, native: char) -> bool
{
    exists|q: CompletionRequest| #[trigger] request_of(q, line, cursor)
        && completion_is(r, entries, complete, q, limit, overrides, catalog, answer, listing, native)
}

/// A completion is one result: two completions of the same line and
/// cursor over the same commands, overrides, catalog, answer and listing
/// have the same value.
pub proof fn law_completion_is_determined(r1: Completion, r2: Completion, entries: Seq<CommandView>, complete: bool,
    line: Seq<char>, cursor: int, limit: int, overrides: Seq<(String, String)>, catalog: Seq<(String, String)>,
    answer: Option<&SpecAnswer>, listing: Seq<(Seq<char>, bool)>, native: char)
    requires
        completes(r1, entries, complete, line, cursor, limit, overrides, catalog, answer, listing, native),
        completes(r2, entries, complete, line, cursor, limit, overrides, catalog, answer, listing, native),
    ensures
        r1@ == r2@,
{
    let q1 = choose|q: CompletionRequest| #[trigger] request_of(q, line, cursor)
        && completion_is(r1, entries, complete, q, limit, overrides, catalog, answer, listing, native);
    let q2 = choose|q: CompletionRequest| #[trigger] request_of(q, line, cursor)
        && completion_is(r2, entries, complete, q, limit, overrides, catalog, answer, listing, native);
    lemma_request_agree(q1, q2, line, cursor);
    let a = r1.candidates@;
    let b = r2.candidates@;
    assert(a.len() == b.len());
    assert forall|i: int| 0 <= i < a.len() implies a[i]@ == b[i]@ by {
        assert(a[i]@ == a[i]@);
        assert(b[i]@ == b[i]@);
    }
    assert(crate::model::candidate_views(a) =~= crate::model::candidate_views(b));
    assert(r1.argument_hint@ =~= r2.argument_hint@);
}

/// Completion without description overrides is completion with an empty
/// list of them: [`CommandIndex::complete`] and
/// [`CommandIndex::complete_with_descriptions`] with no overrides give the
/// same value.
pub proof fn law_plain_completion_is_described_without_overrides(r1: Completion, r2: Completion,
    entries: Seq<CommandView>, complete: bool, line: Seq<char>, cursor: int, limit: int, overrides: Seq<(String, String)>,
    catalog: Seq<(String, String)>, answer: Option<&SpecAnswer>, listing: Seq<(Seq<char>, bool)>, native: char)
    requires
        overrides.len() == 0,
        completes(r1, entries, complete, line, cursor, limit, Seq::empty(), catalog, answer, listing, native),
        completes(r2, entries, complete, line, cursor, limit, overrides, catalog, answer, listing, native),
    ensures
        r1@ == r2@,
{
    assert(overrides =~= Seq::<(String, String)>::empty());
    law_completion_is_determined(r1, r2, entries, complete, line, cursor, limit, overrides, catalog, answer, listing, native);
}

/// Replacing the shell's commands depends on nothing but the new list: two
/// indexes over the same PATH commands and completeness, whatever session
/// commands each had, hold the same commands after both are given the same
/// list, and complete every line alike. With no session commands the index
/// is the PATH commands again, every shadowed PATH command restored.
pub proof fn law_replaced_commands_agree(x: CommandIndex, y: CommandIndex, commands: Seq<ShellCommand>)
    requires
        x.wf(),
        y.wf(),
        x.spec_base() == y.spec_base(),
        x.spec_complete() == y.spec_complete(),
        x.spec_session() == merge_all(Seq::empty(), commands),
        y.spec_session() == merge_all(Seq::empty(), commands),
    ensures
        x.spec_entries() == y.spec_entries(),
        x.spec_entries().len() == y.spec_entries().len(),
        commands.len() == 0 ==> x.spec_entries() == x.spec_base(),
        forall|r1: Completion, r2: Completion, line: Seq<char>, cursor: int, limit: int, overrides: Seq<(String, String)>,
            catalog: Seq<(String, String)>, answer: Option<&SpecAnswer>, listing: Seq<(Seq<char>, bool)>, native: char|
            #![trigger completes(r1, x.spec_entries(), x.spec_complete(), line, cursor, limit, overrides, catalog, answer, listing, native),
                completes(r2, y.spec_entries(), y.spec_complete(), line, cursor, limit, overrides, catalog, answer, listing, native)]
            completes(r1, x.spec_entries(), x.spec_complete(), line, cursor, limit, overrides, catalog, answer, listing, native)
            && completes(r2, y.spec_entries(), y.spec_complete(), line, cursor, limit, overrides, catalog, answer, listing, native)
            ==> r1@ == r2@,
{
    assert forall|r1: Completion, r2: Completion, line: Seq<char>, cursor: int, limit: int, overrides: Seq<(String, String)>,
        catalog: Seq<(String, String)>, answer: Option<&SpecAnswer>, listing: Seq<(Seq<char>, bool)>, native: char|
        completes(r1, x.spec_entries(), x.spec_complete(), line, cursor, limit, overrides, catalog, answer, listing, native)
        && completes(r2, y.spec_entries(), y.spec_complete(), line, cursor, limit, overrides, catalog, answer, listing, native)
        implies r1@ == r2@ by {
        law_completion_is_determined(r1, r2, x.spec_entries(), x.spec_complete(), line, cursor, limit, overrides, catalog,
            answer, listing, native);
    }
}


/// After the options of a command have ended (or where its spec takes path
/// values), a token that is no option and that no spec candidate matches
/// is completed from the directory listing: the completion lists the
/// matching entries, as many as the limit allows.
pub proof fn law_ended_options_offer_files(r: Completion, entries: Seq<CommandView>, complete: bool, q: CompletionRequest,
    limit: int, overrides: Seq<(String, String)>, catalog: Seq<(String, String)>, a: &SpecAnswer,
    listing: Seq<(Seq<char>, bool)>, native: char)
    requires
        completion_is(r, entries, complete, q, limit, overrides, catalog, Some(a), listing, native),
        limit > 0,
        !q.command_position,
        !(q.context.value_before@.len() > 0 && q.context.value_before@[0] == '-'),
        matching_answers(a.candidates@, q.context.value_before@).len() == 0,
        a.path_values || a.options_ended,
    ensures
        ({
            let lim = if limit < MAX_RESULTS { limit } else { MAX_RESULTS as int };
            let offered = offered_files(q.context.value_before@, listing);
            &&& r.candidates@.len() == if lim < offered.len() { lim } else { offered.len() as int }
            &&& forall|i: int| 0 <= i < r.candidates@.len() ==>
                (#[trigger] r.candidates@[i])@ == file_candidate(q.context.value_before@, q.context, offered[i], native)
        }),
{
}

} // verus!
