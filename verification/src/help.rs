//! The documented options and subcommands of a command's help page.
//!
//! Only the option and command sections are read; prose is never taken
//! for executable input. Headings and markers are compared
//! ASCII-case-insensitively.
use vstd::prelude::*;
use crate::forms::{get_value, insert_value, lemma_key_index, sorted_keys};
use crate::knowledge::{clean, spec_clean};
use crate::knowledge::{index_of, index_of_exec, lemma_index_of};
use crate::paths::copy_range;
use crate::text::{
    chars_of, ends_with, is_whitespace, lower, lower_chars, push_char, push_str, spec_is_whitespace, split_on, split_words, split_ws, starts_with, string_of, string_of_range, string_views, trim, trim_chars, utf8_len,
};

verus! {

/// One documented option of a help page.
#[derive(Debug)]
pub struct HelpOption {
    pub names: Vec<String>,
    pub description: String,
    pub detail: String,
    pub value_name: String,
    pub values: Vec<String>,
    pub repeatable: bool,
}

/// The value of a [`HelpOption`].
pub struct OptionView {
    pub names: Seq<Seq<char>>,
    pub description: Seq<char>,
    pub detail: Seq<char>,
    pub value_name: Seq<char>,
    pub values: Seq<Seq<char>>,
    pub repeatable: bool,
}

impl View for HelpOption {
    type V = OptionView;

    open spec fn view(&self) -> OptionView {
        OptionView {
            names: string_views(self.names@),
            description: self.description@,
            detail: self.detail@,
            value_name: self.value_name@,
            values: string_views(self.values@),
            repeatable: self.repeatable,
        }
    }
}

/// Values of a list of options.
pub open spec fn option_views(v: Seq<HelpOption>) -> Seq<OptionView> {
    v.map_values(|o: HelpOption| o@)
}

/// The entries of a key-ordered list as a map.
pub open spec fn as_map(v: Seq<(String, String)>) -> Map<Seq<char>, Seq<char>> {
    Map::new(|k: Seq<char>| get_value(v, k) is Some, |k: Seq<char>| get_value(v, k)->Some_0)
}

/// What a help page documents, and how far it can be trusted: a section
/// is complete only when it was found, is not empty and held nothing
/// that could not be read.
#[derive(Debug)]
pub struct HelpPage {
    pub description: String,
    pub options: Vec<HelpOption>,
    /// Subcommands and their descriptions, in key order.
    pub commands: Vec<(String, String)>,
    /// Aliases and the subcommands they stand for, in key order.
    pub command_aliases: Vec<(String, String)>,
    pub options_complete: bool,
    pub commands_complete: bool,
    pub truncated: bool,
    pub adapter: String,
    pub complete: bool,
}

/// The value of a [`HelpPage`].
pub struct PageView {
    pub description: Seq<char>,
    pub options: Seq<OptionView>,
    pub commands: Map<Seq<char>, Seq<char>>,
    pub command_aliases: Map<Seq<char>, Seq<char>>,
    pub options_complete: bool,
    pub commands_complete: bool,
    pub truncated: bool,
    pub adapter: Seq<char>,
    pub complete: bool,
}

impl View for HelpPage {
    type V = PageView;

    open spec fn view(&self) -> PageView {
        PageView {
            description: self.description@,
            options: option_views(self.options@),
            commands: as_map(self.commands@),
            command_aliases: as_map(self.command_aliases@),
            options_complete: self.options_complete,
            commands_complete: self.commands_complete,
            truncated: self.truncated,
            adapter: self.adapter@,
            complete: self.complete,
        }
    }
}

impl HelpPage {
    /// Both maps are kept in key order.
    pub open spec fn wf(&self) -> bool {
        sorted_keys(self.commands@) && sorted_keys(self.command_aliases@)
    }

    /// The description of a subcommand.
    pub fn command(&self, name: &str) -> (r: Option<&String>)
        ensures
            match get_value(self.commands@, name@) {
                Some(d) => r matches Some(x) && x@ == d,
                None => r is None,
            },
    {
        let c = chars_of(name);
        crate::forms::lookup_value(&self.commands, c.as_slice())
    }
}

/// Inserting into a key-ordered list inserts into its map.
pub proof fn lemma_as_map_insert(old: Seq<(String, String)>, new: Seq<(String, String)>, k: Seq<char>, v: Seq<char>)
    requires
        get_value(new, k) == Some(v),
        forall|x: Seq<char>| x != k ==> #[trigger] get_value(new, x) == get_value(old, x),
    ensures
        as_map(new) == as_map(old).insert(k, v),
{
    assert(as_map(new) =~= as_map(old).insert(k, v));
}


/// Index of the first two consecutive spaces (where a description column
/// starts), or the length.
pub open spec fn column_gap(s: Seq<char>) -> int
    decreases s.len(),
{
    if s.len() < 2 {
        s.len() as int
    } else {
        let g = column_gap(s.drop_last());
        if g < s.len() - 2 {
            g
        } else if s[s.len() - 2] == ' ' && s.last() == ' ' {
            s.len() - 2
        } else {
            s.len() as int
        }
    }
}

pub proof fn lemma_column_gap(s: Seq<char>)
    ensures
        0 <= column_gap(s) <= s.len(),
        column_gap(s) < s.len() ==> column_gap(s) + 1 < s.len() && s[column_gap(s)] == ' ' && s[column_gap(s) + 1] == ' ',
        forall|j: int| 0 <= j < column_gap(s) && j + 1 < s.len() ==> !(s[j] == ' ' && #[trigger] s[j + 1] == ' '),
    decreases s.len(),
{
    if s.len() >= 2 {
        lemma_column_gap(s.drop_last());
        assert forall|j: int| 0 <= j < s.len() - 1 implies s.drop_last()[j] == s[j] by {}
    }
}

fn column_gap_exec(s: &Vec<char>) -> (r: usize)
    ensures
        r == column_gap(s@),
{
    proof {
        lemma_column_gap(s@);
    }
    let n = s.len();
    let mut i: usize = 0;
    while i < n && i + 1 < n
        invariant
            n == s@.len(),
            i <= n,
            forall|j: int| 0 <= j < i && j + 1 < n ==> !(s@[j] == ' ' && #[trigger] s@[j + 1] == ' '),
        decreases n - i,
    {
        if s[i] == ' ' && s[i + 1] == ' ' {
            proof {
                lemma_column_gap(s@);
                let g = column_gap(s@);
                if g < i {
                    assert(!(s@[g] == ' ' && s@[g + 1] == ' '));
                } else if g > i {
                    assert(!(s@[i as int] == ' ' && s@[i + 1] == ' '));
                }
            }
            return i;
        }
        i = i + 1;
    }
    proof {
        lemma_column_gap(s@);
        let g = column_gap(s@);
        if g < n {
            assert(!(s@[g] == ' ' && s@[g + 1] == ' '));
        }
    }
    n
}

/// Separators of option names (`mode` 0): white space, `,`, `=`, `|`;
/// of subcommand names (`mode` 1): white space, `,`, `|`.
pub open spec fn is_sep(mode: u8, c: char) -> bool {
    spec_is_whitespace(c) || c == ',' || c == '|' || (mode == 0 && c == '=')
}

/// The pieces of `s` between separators (possibly empty).
pub open spec fn split_seps(s: Seq<char>, mode: u8) -> Seq<Seq<char>>
    decreases s.len(),
{
    if s.len() == 0 {
        seq![Seq::empty()]
    } else {
        let prev = split_seps(s.drop_last(), mode);
        if is_sep(mode, s.last()) {
            prev.push(Seq::empty())
        } else {
            prev.drop_last().push(prev.last().push(s.last()))
        }
    }
}

fn split_seps_exec(s: &Vec<char>, mode: u8) -> (r: Vec<Vec<char>>)
    ensures
        r@.map_values(|v: Vec<char>| v@) == split_seps(s@, mode),
{
    let mut parts: Vec<Vec<char>> = Vec::new();
    let mut cur: Vec<char> = Vec::new();
    let mut i: usize = 0;
    assert(s@.take(0) =~= Seq::<char>::empty());
    assert(parts@.map_values(|v: Vec<char>| v@).push(cur@) =~= split_seps(Seq::<char>::empty(), mode));
    while i < s.len()
        invariant
            i <= s@.len(),
            parts@.map_values(|v: Vec<char>| v@).push(cur@) == split_seps(s@.take(i as int), mode),
        decreases s@.len() - i,
    {
        let x = s[i];
        let ghost prev = parts@.map_values(|v: Vec<char>| v@).push(cur@);
        assert(s@.take(i as int + 1).drop_last() =~= s@.take(i as int));
        if is_whitespace(x) || x == ',' || x == '|' || (mode == 0 && x == '=') {
            let done = cur;
            parts.push(done);
            cur = Vec::new();
            assert(parts@.map_values(|v: Vec<char>| v@).push(cur@) =~= prev.push(Seq::empty()));
        } else {
            cur.push(x);
            assert(parts@.map_values(|v: Vec<char>| v@).push(cur@) =~= prev.drop_last().push(prev.last().push(x)));
        }
        i = i + 1;
    }
    assert(s@.take(i as int) =~= s@);
    let ghost before = parts@.map_values(|v: Vec<char>| v@);
    parts.push(cur);
    assert(parts@.map_values(|v: Vec<char>| v@) =~= before.push(parts@.last()@));
    parts
}

pub open spec fn is_ascii_alnum(c: char) -> bool {
    ('a' <= c <= 'z') || ('A' <= c <= 'Z') || ('0' <= c <= '9')
}

/// A word of ASCII letters, digits, `-` and `_` (and `?` when `question`).
pub open spec fn plain_word(p: Seq<char>, question: bool) -> bool {
    forall|i: int| 0 <= i < p.len() ==> (is_ascii_alnum(#[trigger] p[i]) || p[i] == '-' || p[i] == '_' || (question && p[i] == '?'))
}

fn plain_word_exec(p: &[char], question: bool) -> (r: bool)
    ensures
        r == plain_word(p@, question),
{
    let mut i: usize = 0;
    while i < p.len()
        invariant
            i <= p@.len(),
            forall|j: int| 0 <= j < i ==> (is_ascii_alnum(#[trigger] p@[j]) || p@[j] == '-' || p@[j] == '_' || (question && p@[j] == '?')),
        decreases p@.len() - i,
    {
        let c = p[i];
        if !(('a' <= c && c <= 'z') || ('A' <= c && c <= 'Z') || ('0' <= c && c <= '9') || c == '-' || c == '_' || (question && c == '?')) {
            return false;
        }
        i = i + 1;
    }
    true
}

/// An option name: `-` and at least one more ASCII letter, digit, `-`,
/// `_` or `?`.
pub open spec fn option_name(p: Seq<char>) -> bool {
    p.len() > 1 && p[0] == '-' && plain_word(p, true)
}

/// The option names among the pieces, in order.
pub open spec fn option_names(pieces: Seq<Seq<char>>) -> Seq<Seq<char>>
    decreases pieces.len(),
{
    if pieces.len() == 0 {
        Seq::empty()
    } else {
        let prev = option_names(pieces.drop_last());
        if option_name(pieces.last()) { prev.push(pieces.last()) } else { prev }
    }
}

fn option_names_exec(pieces: &Vec<Vec<char>>) -> (r: Vec<String>)
    ensures
        string_views(r@) == option_names(pieces@.map_values(|v: Vec<char>| v@)),
{
    let ghost pv = pieces@.map_values(|v: Vec<char>| v@);
    let mut r: Vec<String> = Vec::new();
    let mut i: usize = 0;
    assert(string_views(r@) =~= Seq::<Seq<char>>::empty());
    while i < pieces.len()
        invariant
            pv == pieces@.map_values(|v: Vec<char>| v@),
            i <= pv.len(),
            string_views(r@) == option_names(pv.take(i as int)),
        decreases pv.len() - i,
    {
        assert(pv.take(i as int + 1).drop_last() =~= pv.take(i as int));
        assert(pv.take(i as int + 1).last() == pieces@[i as int]@);
        let p = &pieces[i];
        if p.len() > 1 && p[0] == '-' && plain_word_exec(p.as_slice(), true) {
            let ghost before = string_views(r@);
            r.push(string_of(p.as_slice()));
            assert(string_views(r@) =~= before.push(p@));
        }
        i = i + 1;
    }
    assert(pv.take(i as int) =~= pv);
    r
}


/// A word of at least two capitals and `_`.
pub open spec fn upper_word(w: Seq<char>) -> bool {
    w.len() > 1 && forall|i: int| 0 <= i < w.len() ==> (('A' <= #[trigger] w[i] <= 'Z') || w[i] == '_')
}

/// The first word of capitals.
pub open spec fn first_upper(words: Seq<Seq<char>>) -> Option<Seq<char>>
    decreases words.len(),
{
    if words.len() == 0 {
        None
    } else {
        match first_upper(words.drop_last()) {
            Some(w) => Some(w),
            None => if upper_word(words.last()) { Some(words.last()) } else { None },
        }
    }
}

/// The first word of capitals of a syntax, in angle brackets.
pub open spec fn upper_fallback(syntax: Seq<char>) -> Seq<char> {
    match first_upper(split_ws(syntax)) {
        Some(w) => seq!['<'] + w + seq!['>'],
        None => Seq::empty(),
    }
}

/// The value an option takes: the first `<...>` of its syntax, or its
/// first word of capitals in angle brackets, or nothing.
pub open spec fn value_name(syntax: Seq<char>) -> Seq<char> {
    let fallback = upper_fallback(syntax);
    match index_of(syntax, '<') {
        Some(a) => match index_of(syntax.skip(a), '>') {
            Some(b) => syntax.subrange(a, a + b + 1),
            None => fallback,
        },
        None => fallback,
    }
}

fn upper_word_exec(w: &[char]) -> (r: bool)
    ensures
        r == upper_word(w@),
{
    if w.len() <= 1 {
        return false;
    }
    let mut i: usize = 0;
    while i < w.len()
        invariant
            i <= w@.len(),
            forall|j: int| 0 <= j < i ==> (('A' <= #[trigger] w@[j] <= 'Z') || w@[j] == '_'),
        decreases w@.len() - i,
    {
        if !(('A' <= w[i] && w[i] <= 'Z') || w[i] == '_') {
            return false;
        }
        i = i + 1;
    }
    true
}

fn value_name_exec(syntax: &Vec<char>) -> (r: String)
    ensures
        r@ == value_name(syntax@),
{
    proof {
        lemma_index_of(syntax@, '<');
    }
    match index_of_exec(syntax, '<') {
        Some(a) => {
            let rest = copy_range(syntax, a, syntax.len());
            assert(rest@ =~= syntax@.skip(a as int));
            proof {
                lemma_index_of(rest@, '>');
            }
            match index_of_exec(&rest, '>') {
                Some(b) => {
                    return string_of_range(syntax.as_slice(), a, a + b + 1);
                },
                None => {},
            }
        },
        None => {},
    }
    let words = split_words(syntax.as_slice());
    let ghost wv = string_views(words@);
    let mut i: usize = 0;
    while i < words.len()
        invariant
            wv == string_views(words@),
            wv == split_ws(syntax@),
            value_name(syntax@) == upper_fallback(syntax@),
            i <= wv.len(),
            first_upper(wv.take(i as int)) is None,
        decreases wv.len() - i,
    {
        assert(wv.take(i as int + 1).drop_last() =~= wv.take(i as int));
        assert(wv.take(i as int + 1).last() == words@[i as int]@);
        let w = chars_of(words[i].as_str());
        if upper_word_exec(w.as_slice()) {
            proof {
                lemma_first_upper_prefix(wv, i as int + 1);
            }
            let mut r = String::new();
            push_char(&mut r, '<');
            push_str(&mut r, words[i].as_str());
            push_char(&mut r, '>');
            assert(r@ =~= seq!['<'] + words@[i as int]@ + seq!['>']);
            return r;
        }
        i = i + 1;
    }
    assert(wv.take(i as int) =~= wv);
    String::new()
}

proof fn lemma_first_upper_prefix(words: Seq<Seq<char>>, n: int)
    requires
        0 <= n <= words.len(),
        first_upper(words.take(n)) is Some,
    ensures
        first_upper(words) == first_upper(words.take(n)),
    decreases words.len() - n,
{
    if n < words.len() {
        assert(words.take(n + 1).drop_last() =~= words.take(n));
        lemma_first_upper_prefix(words, n + 1);
    } else {
        assert(words.take(n) =~= words);
    }
}

/// The first index at which `p` occurs in `s`.
pub open spec fn find_sub(s: Seq<char>, p: Seq<char>) -> Option<int>
    decreases s.len(),
{
    if s.len() < p.len() {
        None
    } else if s.len() == p.len() {
        if s == p { Some(0) } else { None }
    } else {
        match find_sub(s.drop_last(), p) {
            Some(k) => Some(k),
            None => if s.subrange(s.len() - p.len(), s.len() as int) == p { Some(s.len() - p.len()) } else { None },
        }
    }
}

pub proof fn lemma_find_sub(s: Seq<char>, p: Seq<char>)
    ensures
        find_sub(s, p) matches Some(k) ==> 0 <= k && k + p.len() <= s.len() && s.subrange(k, k + p.len()) == p
            && forall|j: int| 0 <= j < k ==> #[trigger] s.subrange(j, j + p.len()) != p,
        find_sub(s, p) is None ==> forall|j: int| 0 <= j && j + p.len() <= s.len() ==> #[trigger] s.subrange(j, j + p.len()) != p,
    decreases s.len(),
{
    if s.len() > p.len() {
        lemma_find_sub(s.drop_last(), p);
        assert forall|j: int| 0 <= j && j + p.len() <= s.len() - 1 implies #[trigger] s.subrange(j, j + p.len()) == s.drop_last().subrange(j, j + p.len()) by {
            assert(s.subrange(j, j + p.len()) =~= s.drop_last().subrange(j, j + p.len()));
        }
    } else if s.len() == p.len() {
        assert(s.subrange(0, p.len() as int) =~= s);
    }
}

fn find_sub_exec(s: &Vec<char>, p: &Vec<char>) -> (r: Option<usize>)
    ensures
        match find_sub(s@, p@) {
            Some(k) => r is Some && r->Some_0 == k,
            None => r is None,
        },
{
    proof {
        lemma_find_sub(s@, p@);
    }
    if p.len() > s.len() {
        return None;
    }
    let last = s.len() - p.len();
    let mut i: usize = 0;
    while i <= last
        invariant
            last == s@.len() - p@.len(),
            forall|j: int| 0 <= j < i ==> #[trigger] s@.subrange(j, j + p@.len()) != p@,
        decreases last + 1 - i,
    {
        if crate::forms::matches_at(s, i, p) {
            proof {
                lemma_find_sub(s@, p@);
                if let Some(k) = find_sub(s@, p@) {
                    if k > i {
                        assert(s@.subrange(i as int, i + p@.len()) == p@);
                    }
                }
            }
            return Some(i);
        }
        if i == last {
            proof {
                lemma_find_sub(s@, p@);
                if let Some(k) = find_sub(s@, p@) {
                    assert(s@.subrange(k, k + p@.len()) == p@);
                }
            }
            return None;
        }
        i = i + 1;
    }
    None
}

pub open spec fn is_paren(c: char) -> bool {
    c == '(' || c == ')'
}

/// Index of the first character of `p[i..]` that is not a parenthesis.
pub open spec fn paren_lead(p: Seq<char>, i: int) -> int
    decreases p.len() - i,
{
    if i < 0 || i >= p.len() {
        p.len() as int
    } else if is_paren(p[i]) {
        paren_lead(p, i + 1)
    } else {
        i
    }
}

/// One past the last character of `p[..j]` that is not a parenthesis.
pub open spec fn paren_trail(p: Seq<char>, j: int) -> int
    decreases j,
{
    if j <= 0 || j > p.len() {
        0
    } else if is_paren(p[j - 1]) {
        paren_trail(p, j - 1)
    } else {
        j
    }
}

/// `p` without leading and trailing parentheses.
pub open spec fn trim_parens(p: Seq<char>) -> Seq<char> {
    let a = paren_lead(p, 0);
    let b = paren_trail(p, p.len() as int);
    if a >= b { Seq::empty() } else { p.subrange(a, b) }
}

proof fn lemma_paren_bounds(p: Seq<char>, i: int, j: int)
    requires
        0 <= i <= p.len(),
        0 <= j <= p.len(),
    ensures
        i <= paren_lead(p, i) <= p.len(),
        0 <= paren_trail(p, j) <= j,
    decreases p.len() - i + j,
{
    if i < p.len() && is_paren(p[i]) {
        lemma_paren_bounds(p, i + 1, j);
    }
    if j > 0 && is_paren(p[j - 1]) {
        lemma_paren_bounds(p, i, j - 1);
    }
}

fn trim_parens_exec(p: &Vec<char>) -> (r: Vec<char>)
    ensures
        r@ == trim_parens(p@),
{
    proof {
        lemma_paren_bounds(p@, 0, p@.len() as int);
    }
    let mut a: usize = 0;
    while a < p.len() && (p[a] == '(' || p[a] == ')')
        invariant
            a <= p@.len(),
            paren_lead(p@, 0) == paren_lead(p@, a as int),
        decreases p@.len() - a,
    {
        a = a + 1;
    }
    let mut b: usize = p.len();
    while b > 0 && (p[b - 1] == '(' || p[b - 1] == ')')
        invariant
            b <= p@.len(),
            paren_trail(p@, p@.len() as int) == paren_trail(p@, b as int),
        decreases b,
    {
        b = b - 1;
    }
    if a >= b {
        Vec::new()
    } else {
        copy_range(p, a, b)
    }
}

/// The pieces with parentheses trimmed that are not empty.
pub open spec fn nonempty_names(pieces: Seq<Seq<char>>) -> Seq<Seq<char>>
    decreases pieces.len(),
{
    if pieces.len() == 0 {
        Seq::empty()
    } else {
        let prev = nonempty_names(pieces.drop_last());
        let t = trim_parens(pieces.last());
        if t.len() > 0 { prev.push(t) } else { prev }
    }
}

/// Index of the first `a` directly followed by `b`.
pub open spec fn find_pair(s: Seq<char>, a: char, b: char) -> Option<int> {
    find_sub(s, seq![a, b])
}

/// A subcommand's syntax with `name (alias)` written as `name, alias`.
pub open spec fn alias_syntax(syntax: Seq<char>) -> Seq<char> {
    if syntax.len() > 0 && syntax.last() == ')' {
        let v = syntax.drop_last();
        match find_pair(v, ' ', '(') {
            Some(k) => v.take(k) + seq![',', ' '] + v.skip(k + 2),
            None => syntax,
        }
    } else {
        syntax
    }
}

/// The names of a subcommand line: its first column split at white space,
/// `,` and `|`, without parentheses.
pub open spec fn command_names(line: Seq<char>) -> Seq<Seq<char>> {
    nonempty_names(split_seps(alias_syntax(trim(line.take(column_gap(line)))), 1))
}

/// The description column of a line.
pub open spec fn column_text(line: Seq<char>) -> Seq<char> {
    trim(line.skip(column_gap(line)))
}

fn command_names_exec(line: &Vec<char>) -> (r: Vec<String>)
    ensures
        string_views(r@) == command_names(line@),
{
    proof {
        lemma_column_gap(line@);
    }
    let g = column_gap_exec(line);
    let first = copy_range(line, 0, g);
    assert(first@ =~= line@.take(g as int));
    let syntax = trim_chars(first.as_slice());
    let n = syntax.len();
    let mut s2 = syntax;
    if n > 0 && s2[n - 1] == ')' {
        let v = copy_range(&s2, 0, n - 1);
        assert(v@ =~= s2@.drop_last());
        let mut pat: Vec<char> = Vec::new();
        pat.push(' ');
        pat.push('(');
        assert(pat@ =~= seq![' ', '(']);
        proof {
            lemma_find_sub(v@, pat@);
        }
        match find_sub_exec(&v, &pat) {
            Some(k) => {
                let mut joined = copy_range(&v, 0, k);
                joined.push(',');
                joined.push(' ');
                let tail = copy_range(&v, k + 2, v.len());
                let ghost before = joined@;
                let mut t: usize = 0;
                while t < tail.len()
                    invariant
                        t <= tail@.len(),
                        joined@ == before + tail@.take(t as int),
                    decreases tail@.len() - t,
                {
                    joined.push(tail[t]);
                    assert(tail@.take(t as int + 1) =~= tail@.take(t as int).push(tail@[t as int]));
                    t = t + 1;
                }
                assert(tail@.take(t as int) =~= tail@);
                assert(joined@ =~= v@.take(k as int) + seq![',', ' '] + v@.skip(k as int + 2));
                s2 = joined;
            },
            None => {},
        }
    }
    assert(s2@ == alias_syntax(trim(line@.take(column_gap(line@)))));
    let pieces = split_seps_exec(&s2, 1);
    let ghost pv = pieces@.map_values(|v: Vec<char>| v@);
    let mut r: Vec<String> = Vec::new();
    let mut i: usize = 0;
    assert(string_views(r@) =~= Seq::<Seq<char>>::empty());
    while i < pieces.len()
        invariant
            pv == pieces@.map_values(|v: Vec<char>| v@),
            i <= pv.len(),
            string_views(r@) == nonempty_names(pv.take(i as int)),
        decreases pv.len() - i,
    {
        assert(pv.take(i as int + 1).drop_last() =~= pv.take(i as int));
        assert(pv.take(i as int + 1).last() == pieces@[i as int]@);
        let t = trim_parens_exec(&pieces[i]);
        if t.len() > 0 {
            let ghost before = string_views(r@);
            r.push(string_of(t.as_slice()));
            assert(string_views(r@) =~= before.push(t@));
        }
        i = i + 1;
    }
    assert(pv.take(i as int) =~= pv);
    r
}

fn column_text_exec(line: &Vec<char>) -> (r: Vec<char>)
    ensures
        r@ == column_text(line@),
{
    proof {
        lemma_column_gap(line@);
    }
    let g = column_gap_exec(line);
    let rest = copy_range(line, g, line.len());
    assert(rest@ =~= line@.skip(g as int));
    trim_chars(rest.as_slice())
}


/// The trimmed pieces that are not empty.
pub open spec fn nonblank_trimmed(pieces: Seq<Seq<char>>) -> Seq<Seq<char>>
    decreases pieces.len(),
{
    if pieces.len() == 0 {
        Seq::empty()
    } else {
        let prev = nonblank_trimmed(pieces.drop_last());
        let t = trim(pieces.last());
        if t.len() > 0 { prev.push(t) } else { prev }
    }
}

/// The value a `- value: meaning` line of a possible-values list names.
pub open spec fn enum_value(line: Seq<char>) -> Option<Seq<char>> {
    if starts_with(line, seq!['-', ' ']) {
        let rest = line.skip(2);
        match index_of(rest, ':') {
            Some(k) => if plain_word(rest.take(k), false) { Some(rest.take(k)) } else { None },
            None => None,
        }
    } else {
        None
    }
}

/// The values of a `[possible values: a, b]` list in a line.
pub open spec fn listed_values(line: Seq<char>) -> Option<Seq<Seq<char>>> {
    match find_sub(lower(line), "[possible values:"@) {
        Some(start) => match index_of(line.skip(start), ']') {
            Some(end) => Some(nonblank_trimmed(split_on(line.subrange(start + 17, start + end), ','))),
            None => None,
        },
        None => None,
    }
}

/// An option after a line of its description: the line joins its detail
/// (and becomes its description when it has none), and values the line
/// lists are recorded; also whether a possible-values list is open.
pub open spec fn continue_option(o: OptionView, line: Seq<char>, enum_list: bool) -> (OptionView, bool) {
    let el = enum_list || lower(line) == "possible values:"@;
    let values1 = if el && enum_value(line) is Some { o.values.push(enum_value(line)->Some_0) } else { o.values };
    let detail = if o.detail.len() > 0 { o.detail + seq!['\n'] + line } else { line };
    let description = if o.description.len() == 0 { line } else { o.description };
    let values = match listed_values(line) {
        Some(v) => v,
        None => values1,
    };
    (OptionView { values, detail, description, ..o }, el)
}

fn nonblank_trimmed_exec(pieces: &Vec<Vec<char>>) -> (r: Vec<String>)
    ensures
        string_views(r@) == nonblank_trimmed(pieces@.map_values(|v: Vec<char>| v@)),
{
    let ghost pv = pieces@.map_values(|v: Vec<char>| v@);
    let mut r: Vec<String> = Vec::new();
    let mut i: usize = 0;
    assert(string_views(r@) =~= Seq::<Seq<char>>::empty());
    while i < pieces.len()
        invariant
            pv == pieces@.map_values(|v: Vec<char>| v@),
            i <= pv.len(),
            string_views(r@) == nonblank_trimmed(pv.take(i as int)),
        decreases pv.len() - i,
    {
        assert(pv.take(i as int + 1).drop_last() =~= pv.take(i as int));
        assert(pv.take(i as int + 1).last() == pieces@[i as int]@);
        let t = trim_chars(pieces[i].as_slice());
        if t.len() > 0 {
            let ghost before = string_views(r@);
            r.push(string_of(t.as_slice()));
            assert(string_views(r@) =~= before.push(t@));
        }
        i = i + 1;
    }
    assert(pv.take(i as int) =~= pv);
    r
}

fn enum_value_exec(line: &Vec<char>) -> (r: Option<Vec<char>>)
    ensures
        match enum_value(line@) {
            Some(v) => r matches Some(x) && x@ == v,
            None => r is None,
        },
{
    if line.len() < 2 || line[0] != '-' || line[1] != ' ' {
        assert(!starts_with(line@, seq!['-', ' ']));
        return None;
    }
    assert(line@.subrange(0, 2) =~= seq!['-', ' ']);
    assert(starts_with(line@, seq!['-', ' ']));
    let rest = copy_range(line, 2, line.len());
    assert(rest@ =~= line@.skip(2));
    proof {
        lemma_index_of(rest@, ':');
    }
    match index_of_exec(&rest, ':') {
        Some(k) => {
            let v = copy_range(&rest, 0, k);
            assert(v@ =~= rest@.take(k as int));
            if plain_word_exec(v.as_slice(), false) {
                Some(v)
            } else {
                None
            }
        },
        None => None,
    }
}

fn listed_values_exec(line: &Vec<char>) -> (r: Option<Vec<String>>)
    ensures
        match listed_values(line@) {
            Some(v) => r matches Some(x) && string_views(x@) == v,
            None => r is None,
        },
{
    let low = lower_chars(line.as_slice());
    let marker = chars_of("[possible values:");
    proof {
        lemma_find_sub(low@, marker@);
    }
    let start = match find_sub_exec(&low, &marker) {
        Some(s) => s,
        None => return None,
    };
    let rest = copy_range(line, start, line.len());
    assert(rest@ =~= line@.skip(start as int));
    proof {
        lemma_index_of(rest@, ']');
    }
    let end = match index_of_exec(&rest, ']') {
        Some(e) => e,
        None => return None,
    };
    proof {
        reveal_strlit("[possible values:");
        assert(marker@.len() == 17);
        if end < 17 {
            assert(low@.subrange(start as int, start + 17) == marker@);
            assert(low@[start + end] == marker@[end as int]);
            assert(low@[start + end] == crate::text::lower_char(line@[start + end]));
            assert(rest@[end as int] == line@[start + end]);
            assert(marker@[end as int] != ']');
        }
    }
    let inner = copy_range(line, start + 17, start + end);
    let pieces = crate::text::split_char(inner.as_slice(), ',');
    Some(nonblank_trimmed_exec(&pieces))
}

fn continue_option_exec(o: &mut HelpOption, line: &Vec<char>, enum_list: bool) -> (el: bool)
    ensures
        (final(o)@, el) == continue_option(old(o)@, line@, enum_list),
{
    let low = lower_chars(line.as_slice());
    let ls = string_of(low.as_slice());
    let el = enum_list || crate::text::str_eq(ls.as_str(), "possible values:");
    if el {
        match enum_value_exec(line) {
            Some(v) => {
                let ghost before = string_views(o.values@);
                o.values.push(string_of(v.as_slice()));
                assert(string_views(o.values@) =~= before.push(v@));
            },
            None => {},
        }
    }
    let ghost old_detail = o.detail@;
    if o.detail.as_str().is_empty() {
        o.detail = string_of(line.as_slice());
    } else {
        push_char(&mut o.detail, '\n');
        crate::text::push_chars(&mut o.detail, line.as_slice());
        assert(o.detail@ =~= old_detail + seq!['\n'] + line@);
    }
    if o.description.as_str().is_empty() {
        o.description = string_of(line.as_slice());
    }
    match listed_values_exec(line) {
        Some(v) => {
            o.values = v;
        },
        None => {},
    }
    el
}

/// What an option line holds.
pub enum OptionLine {
    /// Its syntax holds an optional value (`[=` or `[<`) that is not read.
    Uncertain,
    /// No option name.
    NoNames,
    /// An option.
    Found(OptionView),
}

/// An option line: names and value name from its first column, the
/// second column as description.
pub open spec fn option_line(line: Seq<char>) -> OptionLine {
    let syntax = line.take(column_gap(line));
    if find_sub(syntax, seq!['[', '=']) is Some || find_sub(syntax, seq!['[', '<']) is Some {
        OptionLine::Uncertain
    } else {
        let names = option_names(split_seps(syntax, 0));
        if names.len() == 0 {
            OptionLine::NoNames
        } else {
            let d = column_text(line);
            OptionLine::Found(OptionView {
                names,
                description: d,
                detail: d,
                value_name: value_name(syntax),
                values: Seq::empty(),
                repeatable: ends_with(syntax, seq!['.', '.', '.']),
            })
        }
    }
}

/// The option an option line documents; `Err(true)` for an uncertain
/// syntax, `Err(false)` for no option name.
fn option_line_exec(line: &Vec<char>) -> (r: Result<HelpOption, bool>)
    ensures
        match option_line(line@) {
            OptionLine::Uncertain => r == Err::<HelpOption, bool>(true),
            OptionLine::NoNames => r == Err::<HelpOption, bool>(false),
            OptionLine::Found(o) => r matches Ok(x) && x@ == o,
        },
{
    proof {
        lemma_column_gap(line@);
    }
    let g = column_gap_exec(line);
    let syntax = copy_range(line, 0, g);
    assert(syntax@ =~= line@.take(g as int));
    let mut p1: Vec<char> = Vec::new();
    p1.push('[');
    p1.push('=');
    let mut p2: Vec<char> = Vec::new();
    p2.push('[');
    p2.push('<');
    assert(p1@ =~= seq!['[', '=']);
    assert(p2@ =~= seq!['[', '<']);
    if find_sub_exec(&syntax, &p1).is_some() || find_sub_exec(&syntax, &p2).is_some() {
        return Err(true);
    }
    let pieces = split_seps_exec(&syntax, 0);
    let names = option_names_exec(&pieces);
    if names.len() == 0 {
        return Err(false);
    }
    let d = column_text_exec(line);
    let value_name = value_name_exec(&syntax);
    let dots = chars_of("...");
    proof {
        reveal_strlit("...");
    }
    assert(dots@ =~= seq!['.', '.', '.']);
    let repeatable = crate::text::chars_end_with(syntax.as_slice(), dots.as_slice());
    let values: Vec<String> = Vec::new();
    assert(string_views(values@) =~= Seq::<Seq<char>>::empty());
    Ok(HelpOption {
        names,
        description: string_of(d.as_slice()),
        detail: string_of(d.as_slice()),
        value_name,
        values,
        repeatable,
    })
}


/// What has been read of a help page so far.
pub struct HelpState {
    pub description: Seq<char>,
    pub options: Seq<OptionView>,
    pub commands: Map<Seq<char>, Seq<char>>,
    pub aliases: Map<Seq<char>, Seq<char>>,
    /// 0: outside a section, 1: options, 2: commands.
    pub section: u8,
    /// The option that following description lines belong to.
    pub active: Option<int>,
    pub saw_options: bool,
    pub saw_commands: bool,
    pub options_uncertain: bool,
    pub commands_uncertain: bool,
    /// The indentation (in bytes) of the subcommands listed so far.
    pub command_indent: Option<nat>,
    /// A `possible values:` list is open.
    pub enum_list: bool,
}

pub open spec fn initial_state() -> HelpState {
    HelpState {
        description: Seq::empty(),
        options: Seq::empty(),
        commands: Map::empty(),
        aliases: Map::empty(),
        section: 0,
        active: None,
        saw_options: false,
        saw_commands: false,
        options_uncertain: false,
        commands_uncertain: false,
        command_indent: None,
        enum_list: false,
    }
}

/// Headings of an option section (lower-cased).
pub open spec fn option_heading(low: Seq<char>) -> bool {
    low == "options:"@ || low == "optional arguments:"@ || low == "选项:"@ || low == "选项："@ || low == "以下选项可用："@
}

/// Headings of a subcommand section (lower-cased).
pub open spec fn command_heading(low: Seq<char>) -> bool {
    low == "commands:"@ || low == "available commands:"@ || low == "subcommands:"@ || low == "命令:"@ || low == "命令："@
        || low == "以下命令可用："@
}

/// The bytes of a line's leading white space (saturating at `usize::MAX`).
pub open spec fn indent_of(raw: Seq<char>) -> nat {
    let n = utf8_len(raw.take(crate::text::lead(raw, 0)));
    if n < usize::MAX { n } else { usize::MAX as nat }
}

/// Every alias recorded as standing for `target`, in order.
pub open spec fn add_aliases(m: Map<Seq<char>, Seq<char>>, aliases: Seq<Seq<char>>, target: Seq<char>) -> Map<Seq<char>, Seq<char>>
    decreases aliases.len(),
{
    if aliases.len() == 0 {
        m
    } else {
        add_aliases(m, aliases.drop_last(), target).insert(aliases.last(), target)
    }
}

/// All names are words of ASCII letters, digits, `-` and `_`.
pub open spec fn all_plain(names: Seq<Seq<char>>) -> bool {
    forall|i: int| 0 <= i < names.len() ==> plain_word(#[trigger] names[i], false)
}

/// A line that is neither a heading nor an option: a subcommand in a
/// command section, or more description of the active option.
pub open spec fn rest_of_line(st: HelpState, raw: Seq<char>, line: Seq<char>) -> HelpState {
    if st.section == 2 {
        let indent = indent_of(raw);
        if st.command_indent matches Some(old) && indent > old {
            st
        } else if line == seq!['.', '.', '.'] || starts_with(line, seq!['.', '.', '.', ' ']) {
            HelpState { commands_uncertain: true, ..st }
        } else {
            let names = command_names(line);
            let desc = column_text(line);
            if indent > 0 && names.len() > 0 && all_plain(names) {
                HelpState {
                    command_indent: Some(indent),
                    commands: st.commands.insert(names[0], if desc.len() == 0 { "子命令"@ } else { desc }),
                    aliases: add_aliases(st.aliases, names.drop_first(), names[0]),
                    ..st
                }
            } else if indent > 0 {
                HelpState { commands_uncertain: true, ..st }
            } else {
                st
            }
        }
    } else {
        match st.active {
            Some(i) => {
                let (o, el) = continue_option(st.options[i], line, st.enum_list);
                HelpState { options: st.options.update(i, o), enum_list: el, ..st }
            },
            None => st,
        }
    }
}

/// One line of a help page read.
pub open spec fn help_line(st: HelpState, raw: Seq<char>) -> HelpState {
    let line = trim(raw);
    let low = lower(line);
    if line.len() == 0 {
        st
    } else if option_heading(low) {
        HelpState { section: 1, active: None, saw_options: true, enum_list: false, ..st }
    } else if command_heading(low) {
        HelpState { section: 2, active: None, saw_commands: true, ..st }
    } else {
        let st1 = if !(raw.len() > 0 && spec_is_whitespace(raw[0])) && ends_with(line, seq![':']) {
            HelpState { section: 0, active: None, ..st }
        } else {
            st
        };
        let st2 = if st1.description.len() == 0 && !starts_with(low, "usage:"@) && !starts_with(low, "warning:"@)
            && !ends_with(line, seq![':']) {
            HelpState { description: line, ..st1 }
        } else {
            st1
        };
        if line[0] == '-' && st2.section != 2 && !starts_with(line, seq!['-', '-', ' ']) {
            match option_line(line) {
                OptionLine::Uncertain => HelpState { options_uncertain: true, ..st2 },
                OptionLine::Found(o) => HelpState {
                    options: st2.options.push(o),
                    active: Some(st2.options.len() as int),
                    enum_list: false,
                    ..st2
                },
                OptionLine::NoNames => rest_of_line(st2, raw, line),
            }
        } else {
            rest_of_line(st2, raw, line)
        }
    }
}

/// The lines of a help page read in order.
pub open spec fn help_fold(lines: Seq<Seq<char>>) -> HelpState
    decreases lines.len(),
{
    if lines.len() == 0 {
        initial_state()
    } else {
        help_line(help_fold(lines.drop_last()), lines.last())
    }
}

/// Parts joined by a separator.
pub open spec fn join_with(parts: Seq<Seq<char>>, sep: Seq<char>) -> Seq<char>
    decreases parts.len(),
{
    if parts.len() == 0 {
        Seq::empty()
    } else if parts.len() == 1 {
        parts[0]
    } else {
        join_with(parts.drop_last(), sep) + sep + parts.last()
    }
}

/// An option without description is described by its names and value.
pub open spec fn finish_option(o: OptionView) -> OptionView {
    if o.description.len() == 0 {
        OptionView { description: trim(join_with(o.names, seq![',', ' ']) + seq![' '] + o.value_name), ..o }
    } else {
        o
    }
}

/// The options and subcommands a help text documents. The option section
/// is complete when an option heading was seen, options were found and
/// none had an unreadable syntax; likewise the command section; the page
/// is complete when its options are, and its commands too if it has a
/// command section.
pub open spec fn spec_parse_help(text: Seq<char>) -> PageView {
    let st = help_fold(split_on(spec_clean(text), '\n'));
    let oc = st.saw_options && st.options.len() > 0 && !st.options_uncertain;
    let cc = st.saw_commands && (exists|k: Seq<char>| st.commands.dom().contains(k)) && !st.commands_uncertain;
    PageView {
        description: st.description,
        options: st.options.map_values(|o: OptionView| finish_option(o)),
        commands: st.commands,
        command_aliases: st.aliases,
        options_complete: oc,
        commands_complete: cc,
        truncated: false,
        adapter: "sectioned-help"@,
        complete: oc && (!st.saw_commands || cc),
    }
}


impl HelpOption {
    /// An identical option.
    pub fn copy(&self) -> (r: HelpOption)
        ensures
            r@ == self@,
    {
        HelpOption {
            names: crate::forms::copy_strings(&self.names),
            description: self.description.clone(),
            detail: self.detail.clone(),
            value_name: self.value_name.clone(),
            values: crate::forms::copy_strings(&self.values),
            repeatable: self.repeatable,
        }
    }
}

impl Default for HelpPage {
    /// A page that documents nothing.
    fn default() -> (r: Self)
        ensures
            r.wf(),
            r.description@.len() == 0,
            r.options@.len() == 0,
            r.commands@.len() == 0,
            r.command_aliases@.len() == 0,
            !r.options_complete,
            !r.commands_complete,
            !r.truncated,
            r.adapter@.len() == 0,
            !r.complete,
    {
        HelpPage {
            description: String::new(),
            options: Vec::new(),
            commands: Vec::new(),
            command_aliases: Vec::new(),
            options_complete: false,
            commands_complete: false,
            truncated: false,
            adapter: String::new(),
            complete: false,
        }
    }
}

pub proof fn lemma_as_map_empty(v: Seq<(String, String)>)
    ensures
        v.len() == 0 ==> as_map(v) == Map::<Seq<char>, Seq<char>>::empty(),
        v.len() > 0 ==> as_map(v).dom().contains(v[0].0@),
        (v.len() > 0) == (exists|k: Seq<char>| as_map(v).dom().contains(k)),
{
    if v.len() == 0 {
        assert(as_map(v) =~= Map::<Seq<char>, Seq<char>>::empty());
    } else {
        lemma_key_index(v, v[0].0@);
        assert(as_map(v).dom().contains(v[0].0@));
    }
}

struct HelpParser {
    page: HelpPage,
    section: u8,
    active: Option<usize>,
    saw_options: bool,
    saw_commands: bool,
    options_uncertain: bool,
    commands_uncertain: bool,
    command_indent: Option<usize>,
    enum_list: bool,
}

impl HelpParser {
    spec fn state(&self) -> HelpState {
        HelpState {
            description: self.page.description@,
            options: option_views(self.page.options@),
            commands: as_map(self.page.commands@),
            aliases: as_map(self.page.command_aliases@),
            section: self.section,
            active: match self.active {
                Some(i) => Some(i as int),
                None => None,
            },
            saw_options: self.saw_options,
            saw_commands: self.saw_commands,
            options_uncertain: self.options_uncertain,
            commands_uncertain: self.commands_uncertain,
            command_indent: match self.command_indent {
                Some(i) => Some(i as nat),
                None => None,
            },
            enum_list: self.enum_list,
        }
    }

    spec fn inv(&self) -> bool {
        &&& self.page.wf()
        &&& self.active matches Some(i) ==> i < self.page.options@.len()
    }

    fn rest(&mut self, raw: &Vec<char>, line: &Vec<char>)
        requires
            old(self).inv(),
            line@ == trim(raw@),
            line@.len() > 0,
        ensures
            final(self).inv(),
            final(self).state() == rest_of_line(old(self).state(), raw@, line@),
    {
        if self.section == 2 {
            let indent = indent_exec(raw);
            match self.command_indent {
                Some(old) => {
                    if indent > old {
                        return;
                    }
                },
                None => {},
            }
            let dots = line.len() == 3 && line[0] == '.' && line[1] == '.' && line[2] == '.';
            let dots_space = line.len() >= 4 && line[0] == '.' && line[1] == '.' && line[2] == '.' && line[3] == ' ';
            proof {
                if dots {
                    assert(line@ =~= seq!['.', '.', '.']);
                } else if line@ == seq!['.', '.', '.'] {
                    assert(line@[0] == '.' && line@[1] == '.' && line@[2] == '.');
                }
                if dots_space {
                    assert(line@.take(4) =~= seq!['.', '.', '.', ' ']);
                } else if starts_with(line@, seq!['.', '.', '.', ' ']) {
                    assert(line@.take(4)[3] == ' ');
                }
            }
            if dots || dots_space {
                self.commands_uncertain = true;
                return;
            }
            let names = command_names_exec(line);
            let desc = column_text_exec(line);
            if indent > 0 && names.len() > 0 && all_plain_exec(&names) {
                self.command_indent = Some(indent);
                let d = if desc.len() == 0 { "子命令".to_owned() } else { string_of(desc.as_slice()) };
                let ghost old_commands = self.page.commands@;
                insert_value(&mut self.page.commands, names[0].clone(), d);
                proof {
                    lemma_as_map_insert(old_commands, self.page.commands@, names@[0]@, d@);
                }
                add_aliases_exec(&mut self.page.command_aliases, &names);
            } else if indent > 0 {
                self.commands_uncertain = true;
            }
        } else {
            match self.active {
                Some(i) => {
                    let mut o = self.page.options[i].copy();
                    let el = continue_option_exec(&mut o, line, self.enum_list);
                    let ghost ov = o@;
                    let ghost before = option_views(self.page.options@);
                    self.page.options.set(i, o);
                    assert(option_views(self.page.options@) =~= before.update(i as int, ov));
                    self.enum_list = el;
                },
                None => {},
            }
        }
    }
}

fn all_plain_exec(names: &Vec<String>) -> (r: bool)
    ensures
        r == all_plain(string_views(names@)),
{
    let ghost nv = string_views(names@);
    let mut i: usize = 0;
    while i < names.len()
        invariant
            nv == string_views(names@),
            i <= nv.len(),
            forall|j: int| 0 <= j < i ==> plain_word(#[trigger] nv[j], false),
        decreases nv.len() - i,
    {
        let c = chars_of(names[i].as_str());
        if !plain_word_exec(c.as_slice(), false) {
            assert(!plain_word(nv[i as int], false));
            return false;
        }
        i = i + 1;
    }
    true
}

fn indent_exec(raw: &Vec<char>) -> (r: usize)
    ensures
        r == indent_of(raw@),
{
    let mut i: usize = 0;
    let mut n: usize = 0;
    assert(raw@.take(0) =~= Seq::<char>::empty());
    while i < raw.len() && is_whitespace(raw[i])
        invariant
            i <= raw@.len(),
            crate::text::lead(raw@, 0) == crate::text::lead(raw@, i as int),
            n == (if utf8_len(raw@.take(i as int)) < usize::MAX { utf8_len(raw@.take(i as int)) } else { usize::MAX as nat }),
        decreases raw@.len() - i,
    {
        proof {
            crate::text::lemma_prefix_lengths_step(raw@, i as int);
        }
        let w = crate::text::char_utf8_width(raw[i]);
        n = n.saturating_add(w);
        i = i + 1;
    }
    n
}


fn add_aliases_exec(v: &mut Vec<(String, String)>, names: &Vec<String>)
    requires
        sorted_keys(old(v)@),
        names@.len() > 0,
    ensures
        sorted_keys(final(v)@),
        as_map(final(v)@) == add_aliases(as_map(old(v)@), string_views(names@).drop_first(), names@[0]@),
{
    let ghost nv = string_views(names@);
    let ghost start = as_map(v@);
    let mut k: usize = 1;
    assert(nv.drop_first().take(0) =~= Seq::<Seq<char>>::empty());
    while k < names.len()
        invariant
            nv == string_views(names@),
            nv.len() > 0,
            nv[0] == names@[0]@,
            1 <= k <= nv.len(),
            sorted_keys(v@),
            as_map(v@) == add_aliases(start, nv.drop_first().take(k - 1), nv[0]),
        decreases nv.len() - k,
    {
        let ghost before = v@;
        insert_value(v, names[k].clone(), names[0].clone());
        proof {
            lemma_as_map_insert(before, v@, nv[k as int], nv[0]);
            assert(nv.drop_first().take(k as int).drop_last() =~= nv.drop_first().take(k - 1));
            assert(nv.drop_first().take(k as int).last() == nv[k as int]);
        }
        k = k + 1;
    }
    assert(nv.drop_first().take(k - 1) =~= nv.drop_first());
}


fn is_option_heading(low: &str) -> (r: bool)
    ensures
        r == option_heading(low@),
{
    crate::text::str_eq(low, "options:") || crate::text::str_eq(low, "optional arguments:")
        || crate::text::str_eq(low, "选项:") || crate::text::str_eq(low, "选项：")
        || crate::text::str_eq(low, "以下选项可用：")
}

fn is_command_heading(low: &str) -> (r: bool)
    ensures
        r == command_heading(low@),
{
    crate::text::str_eq(low, "commands:") || crate::text::str_eq(low, "available commands:")
        || crate::text::str_eq(low, "subcommands:") || crate::text::str_eq(low, "命令:")
        || crate::text::str_eq(low, "命令：") || crate::text::str_eq(low, "以下命令可用：")
}

impl HelpParser {
    fn line(&mut self, raw: &Vec<char>)
        requires
            old(self).inv(),
        ensures
            final(self).inv(),
            final(self).state() == help_line(old(self).state(), raw@),
    {
        let line = trim_chars(raw.as_slice());
        if line.len() == 0 {
            return;
        }
        let low = lower_chars(line.as_slice());
        let ls = string_of(low.as_slice());
        if is_option_heading(ls.as_str()) {
            self.section = 1;
            self.active = None;
            self.saw_options = true;
            self.enum_list = false;
            return;
        }
        if is_command_heading(ls.as_str()) {
            self.section = 2;
            self.active = None;
            self.saw_commands = true;
            return;
        }
        let n = line.len();
        let colon_end = line[n - 1] == ':';
        assert(colon_end == ends_with(line@, seq![':'])) by {
            if colon_end {
                assert(line@.skip(n - 1) =~= seq![':']);
            } else {
                assert(line@.skip(n - 1)[0] != seq![':'][0]);
            }
        }
        if !(raw.len() > 0 && is_whitespace(raw[0])) && colon_end {
            self.section = 0;
            self.active = None;
        }
        let usage = chars_of("usage:");
        let warning = chars_of("warning:");
        if self.page.description.as_str().is_empty()
            && !crate::text::chars_start_with(low.as_slice(), usage.as_slice())
            && !crate::text::chars_start_with(low.as_slice(), warning.as_slice()) && !colon_end {
            self.page.description = string_of(line.as_slice());
        }
        let dash_dash = n >= 3 && line[0] == '-' && line[1] == '-' && line[2] == ' ';
        proof {
            if dash_dash {
                assert(line@.take(3) =~= seq!['-', '-', ' ']);
            } else if starts_with(line@, seq!['-', '-', ' ']) {
                assert(line@.take(3)[2] == ' ');
            }
        }
        if line[0] == '-' && self.section != 2 && !dash_dash {
            match option_line_exec(&line) {
                Err(true) => {
                    self.options_uncertain = true;
                    return;
                },
                Ok(o) => {
                    let ghost ov = o@;
                    let ghost before = option_views(self.page.options@);
                    let index = self.page.options.len();
                    self.page.options.push(o);
                    assert(option_views(self.page.options@) =~= before.push(ov));
                    self.active = Some(index);
                    self.enum_list = false;
                    return;
                },
                Err(false) => {},
            }
        }
        self.rest(raw, &line);
    }
}

/// Read the options and subcommands that a help text documents, section
/// by section; prose outside the sections is never read for options or
/// commands, and whatever cannot be read makes its section incomplete.
pub fn parse_help(text: &str) -> (r: HelpPage)
    ensures
        r.wf(),
        r@ == spec_parse_help(text@),
{
    let cleaned = clean(text);
    let cc = chars_of(cleaned.as_str());
    let lines = crate::text::split_char(cc.as_slice(), '\n');
    let ghost lv = lines@.map_values(|v: Vec<char>| v@);
    let mut p = HelpParser {
        page: HelpPage::default(),
        section: 0,
        active: None,
        saw_options: false,
        saw_commands: false,
        options_uncertain: false,
        commands_uncertain: false,
        command_indent: None,
        enum_list: false,
    };
    proof {
        lemma_as_map_empty(p.page.commands@);
        lemma_as_map_empty(p.page.command_aliases@);
        assert(option_views(p.page.options@) =~= Seq::<OptionView>::empty());
        assert(p.page.description@ =~= Seq::<char>::empty());
        assert(lv.take(0).len() == 0);
        assert(p.state() == help_fold(lv.take(0)));
    }
    let mut i: usize = 0;
    while i < lines.len()
        invariant
            lv == lines@.map_values(|v: Vec<char>| v@),
            lv == split_on(spec_clean(text@), '\n'),
            i <= lv.len(),
            p.inv(),
            p.state() == help_fold(lv.take(i as int)),
        decreases lv.len() - i,
    {
        assert(lv.take(i as int + 1).drop_last() =~= lv.take(i as int));
        assert(lv.take(i as int + 1).last() == lines@[i as int]@);
        p.line(&lines[i]);
        i = i + 1;
    }
    assert(lv.take(i as int) =~= lv);
    let ghost st = p.state();
    let mut page = p.page;
    let ghost ov = option_views(page.options@);
    let mut options: Vec<HelpOption> = Vec::new();
    let mut k: usize = 0;
    assert(option_views(options@) =~= ov.take(0).map_values(|o: OptionView| finish_option(o)));
    while k < page.options.len()
        invariant
            ov == option_views(page.options@),
            k <= ov.len(),
            option_views(options@) == ov.take(k as int).map_values(|o: OptionView| finish_option(o)),
        decreases ov.len() - k,
    {
        let mut o = page.options[k].copy();
        if o.description.as_str().is_empty() {
            let mut d = String::new();
            let mut j: usize = 0;
            let ghost names = string_views(o.names@);
            while j < o.names.len()
                invariant
                    names == string_views(o.names@),
                    j <= names.len(),
                    d@ == join_with(names.take(j as int), seq![',', ' ']),
                decreases names.len() - j,
            {
                assert(names.take(j as int + 1).drop_last() =~= names.take(j as int));
                if j > 0 {
                    push_str(&mut d, ", ");
                    proof {
                        reveal_strlit(", ");
                    }
                } else {
                    assert(names.take(0) =~= Seq::<Seq<char>>::empty());
                }
                let ghost before = d@;
                push_str(&mut d, o.names[j].as_str());
                proof {
                    if j > 0 {
                        assert(d@ =~= join_with(names.take(j as int), seq![',', ' ']) + seq![',', ' '] + names[j as int]);
                    }
                }
                j = j + 1;
            }
            assert(names.take(j as int) =~= names);
            push_char(&mut d, ' ');
            push_str(&mut d, o.value_name.as_str());
            let dc = chars_of(d.as_str());
            let t = trim_chars(dc.as_slice());
            assert(dc@ =~= join_with(names, seq![',', ' ']) + seq![' '] + o.value_name@);
            o.description = string_of(t.as_slice());
        }
        let ghost fo = o@;
        let ghost before = option_views(options@);
        options.push(o);
        assert(option_views(options@) =~= before.push(fo));
        assert(ov.take(k as int + 1).map_values(|o: OptionView| finish_option(o)) =~= ov.take(k as int).map_values(|o: OptionView| finish_option(o)).push(finish_option(ov[k as int])));
        k = k + 1;
    }
    assert(ov.take(k as int) =~= ov);
    proof {
        lemma_as_map_empty(page.commands@);
    }
    page.options = options;
    page.options_complete = p.saw_options && page.options.len() > 0 && !p.options_uncertain;
    page.commands_complete = p.saw_commands && page.commands.len() > 0 && !p.commands_uncertain;
    page.complete = page.options_complete && (!p.saw_commands || page.commands_complete);
    page.adapter = "sectioned-help".to_owned();
    page.truncated = false;
    page
}


/// What has been read of a `cargo --list` output: whether its heading was
/// seen, whether a line could not be read, the subcommands and aliases.
pub struct CargoState {
    pub header: bool,
    pub uncertain: bool,
    pub commands: Map<Seq<char>, Seq<char>>,
    pub aliases: Map<Seq<char>, Seq<char>>,
}

/// One line of a `cargo --list` output read.
pub open spec fn cargo_line(st: CargoState, raw: Seq<char>) -> CargoState {
    let line = trim(raw);
    if lower(line) == "installed commands:"@ {
        CargoState { header: true, ..st }
    } else if !st.header || line.len() == 0 {
        st
    } else {
        let name = trim(line.take(column_gap(line)));
        let description = column_text(line);
        if name.len() == 0 || !plain_word(name, false) {
            CargoState { uncertain: true, ..st }
        } else if starts_with(description, "alias:"@) {
            let target = trim(description.skip(6));
            if target.len() > 0 {
                CargoState { aliases: st.aliases.insert(name, target), ..st }
            } else {
                CargoState { uncertain: true, ..st }
            }
        } else if !starts_with(description, "REMOVED:"@) {
            CargoState {
                commands: st.commands.insert(name, if description.len() == 0 { "本机安装的 Cargo 子命令"@ } else { description }),
                ..st
            }
        } else {
            st
        }
    }
}

/// The lines of a `cargo --list` output read in order.
pub open spec fn cargo_fold(lines: Seq<Seq<char>>) -> CargoState
    decreases lines.len(),
{
    if lines.len() == 0 {
        CargoState { header: false, uncertain: false, commands: Map::empty(), aliases: Map::empty() }
    } else {
        cargo_line(cargo_fold(lines.drop_last()), lines.last())
    }
}

/// The subcommands that `cargo --list` reports: complete when its heading
/// was seen, subcommands were found and every line could be read.
pub open spec fn spec_parse_cargo_list(text: Seq<char>) -> PageView {
    let st = cargo_fold(split_on(spec_clean(text), '\n'));
    let cc = st.header && (exists|k: Seq<char>| st.commands.dom().contains(k)) && !st.uncertain;
    PageView {
        description: Seq::empty(),
        options: Seq::empty(),
        commands: st.commands,
        command_aliases: st.aliases,
        options_complete: false,
        commands_complete: cc,
        truncated: false,
        adapter: "cargo-list"@,
        complete: cc,
    }
}

/// Read the subcommands and aliases that `cargo --list` reports.
pub fn parse_cargo_list(text: &str) -> (r: HelpPage)
    ensures
        r.wf(),
        r@ == spec_parse_cargo_list(text@),
{
    let cleaned = clean(text);
    let cc = chars_of(cleaned.as_str());
    let lines = crate::text::split_char(cc.as_slice(), '\n');
    let ghost lv = lines@.map_values(|v: Vec<char>| v@);
    let mut page = HelpPage::default();
    let mut header = false;
    let mut uncertain = false;
    let alias_prefix = chars_of("alias:");
    let removed_prefix = chars_of("REMOVED:");
    proof {
        lemma_as_map_empty(page.commands@);
        lemma_as_map_empty(page.command_aliases@);
        reveal_strlit("alias:");
    }
    let mut i: usize = 0;
    while i < lines.len()
        invariant
            lv == lines@.map_values(|v: Vec<char>| v@),
            lv == split_on(spec_clean(text@), '\n'),
            i <= lv.len(),
            alias_prefix@ == "alias:"@,
            alias_prefix@.len() == 6,
            removed_prefix@ == "REMOVED:"@,
            page.wf(),
            page.description@.len() == 0,
            page.options@.len() == 0,
            !page.options_complete,
            !page.truncated,
            cargo_fold(lv.take(i as int)) == (CargoState {
                header,
                uncertain,
                commands: as_map(page.commands@),
                aliases: as_map(page.command_aliases@),
            }),
        decreases lv.len() - i,
    {
        assert(lv.take(i as int + 1).drop_last() =~= lv.take(i as int));
        assert(lv.take(i as int + 1).last() == lines@[i as int]@);
        let line = trim_chars(lines[i].as_slice());
        let low = lower_chars(line.as_slice());
        let ls = string_of(low.as_slice());
        if crate::text::str_eq(ls.as_str(), "installed commands:") {
            header = true;
        } else if header && line.len() > 0 {
            let g = column_gap_exec(&line);
            proof {
                lemma_column_gap(line@);
            }
            let first = copy_range(&line, 0, g);
            assert(first@ =~= line@.take(g as int));
            let name = trim_chars(first.as_slice());
            let description = column_text_exec(&line);
            if name.len() == 0 || !plain_word_exec(name.as_slice(), false) {
                uncertain = true;
            } else if crate::text::chars_start_with(description.as_slice(), alias_prefix.as_slice()) {
                let rest = copy_range(&description, 6, description.len());
                assert(rest@ =~= description@.skip(6));
                let target = trim_chars(rest.as_slice());
                if target.len() > 0 {
                    let ghost before = page.command_aliases@;
                    insert_value(&mut page.command_aliases, string_of(name.as_slice()), string_of(target.as_slice()));
                    proof {
                        lemma_as_map_insert(before, page.command_aliases@, name@, target@);
                    }
                } else {
                    uncertain = true;
                }
            } else if !crate::text::chars_start_with(description.as_slice(), removed_prefix.as_slice()) {
                let d = if description.len() == 0 {
                    "本机安装的 Cargo 子命令".to_owned()
                } else {
                    string_of(description.as_slice())
                };
                let ghost before = page.commands@;
                insert_value(&mut page.commands, string_of(name.as_slice()), d);
                proof {
                    lemma_as_map_insert(before, page.commands@, name@, d@);
                }
            }
        }
        i = i + 1;
    }
    assert(lv.take(i as int) =~= lv);
    proof {
        lemma_as_map_empty(page.commands@);
        assert(page.description@ =~= Seq::<char>::empty());
        assert(option_views(page.options@) =~= Seq::<OptionView>::empty());
    }
    page.commands_complete = header && page.commands.len() > 0 && !uncertain;
    page.complete = page.commands_complete;
    page.adapter = "cargo-list".to_owned();
    page
}


/// Every alias stands for a subcommand that is listed.
pub open spec fn aliases_listed(st: HelpState) -> bool {
    forall|k: Seq<char>| #[trigger] st.aliases.dom().contains(k) ==> st.commands.dom().contains(st.aliases[k])
}

proof fn lemma_add_aliases(m: Map<Seq<char>, Seq<char>>, al: Seq<Seq<char>>, t: Seq<char>, k: Seq<char>)
    requires
        add_aliases(m, al, t).dom().contains(k),
    ensures
        add_aliases(m, al, t)[k] == t || (m.dom().contains(k) && add_aliases(m, al, t)[k] == m[k]),
    decreases al.len(),
{
    if al.len() > 0 {
        if k != al.last() {
            lemma_add_aliases(m, al.drop_last(), t, k);
        }
    }
}

proof fn lemma_help_line_aliases(st: HelpState, raw: Seq<char>)
    requires
        aliases_listed(st),
    ensures
        aliases_listed(help_line(st, raw)),
        st.commands.dom().subset_of(help_line(st, raw).commands.dom()),
{
    let r = help_line(st, raw);
    assert forall|k: Seq<char>| #[trigger] r.aliases.dom().contains(k) implies r.commands.dom().contains(r.aliases[k]) by {
        if r.aliases != st.aliases {
            let line = trim(raw);
            let names = command_names(line);
            lemma_add_aliases(st.aliases, names.drop_first(), names[0], k);
        }
    }
}

/// Every alias a help page lists stands for a subcommand the page lists.
pub proof fn law_aliases_name_listed_commands(text: Seq<char>, k: Seq<char>)
    requires
        spec_parse_help(text).command_aliases.dom().contains(k),
    ensures
        spec_parse_help(text).commands.dom().contains(spec_parse_help(text).command_aliases[k]),
{
    let lines = split_on(spec_clean(text), '\n');
    lemma_fold_aliases(lines);
}

proof fn lemma_fold_aliases(lines: Seq<Seq<char>>)
    ensures
        aliases_listed(help_fold(lines)),
    decreases lines.len(),
{
    if lines.len() == 0 {
        assert(initial_state().aliases.dom() =~= Set::<Seq<char>>::empty());
    } else {
        lemma_fold_aliases(lines.drop_last());
        lemma_help_line_aliases(help_fold(lines.drop_last()), lines.last());
    }
}

proof fn lemma_fold_headings(lines: Seq<Seq<char>>)
    ensures
        (forall|i: int| 0 <= i < lines.len() ==> !option_heading(lower(trim(#[trigger] lines[i])))) ==> !help_fold(lines).saw_options,
        (forall|i: int| 0 <= i < lines.len() ==> !command_heading(lower(trim(#[trigger] lines[i])))) ==> !help_fold(lines).saw_commands,
    decreases lines.len(),
{
    if lines.len() > 0 {
        lemma_fold_headings(lines.drop_last());
        assert forall|i: int| 0 <= i < lines.len() - 1 implies lines.drop_last()[i] == lines[i] by {}
        if forall|i: int| 0 <= i < lines.len() ==> !option_heading(lower(trim(#[trigger] lines[i]))) {
            assert(!option_heading(lower(trim(lines[lines.len() - 1]))));
        }
        if forall|i: int| 0 <= i < lines.len() ==> !command_heading(lower(trim(#[trigger] lines[i]))) {
            assert(!command_heading(lower(trim(lines[lines.len() - 1]))));
        }
    }
}

/// Authority is section-specific: a help text without an option heading
/// never makes its options complete, and one without a command heading
/// never makes its subcommands complete; whatever prose it holds only adds.
pub proof fn law_sections_need_headings(text: Seq<char>)
    ensures
        (forall|i: int| 0 <= i < split_on(spec_clean(text), '\n').len()
            ==> !option_heading(lower(trim(#[trigger] split_on(spec_clean(text), '\n')[i])))) ==> !spec_parse_help(text).options_complete,
        (forall|i: int| 0 <= i < split_on(spec_clean(text), '\n').len()
            ==> !command_heading(lower(trim(#[trigger] split_on(spec_clean(text), '\n')[i])))) ==> !spec_parse_help(text).commands_complete,
{
    lemma_fold_headings(split_on(spec_clean(text), '\n'));
}


/// The option headings of common help formats, `Options:` and argparse's
/// `optional arguments:` (in any case, with any surrounding space), open
/// an option section: whatever was read before, the lines after them are
/// read as options, and the page has an option heading.
pub proof fn law_option_headings_open_options(st: HelpState, raw: Seq<char>)
    requires
        lower(trim(raw)) == "optional arguments:"@ || lower(trim(raw)) == "options:"@,
    ensures
        help_line(st, raw).section == 1,
        help_line(st, raw).saw_options,
        help_line(st, raw).active is None,
        help_line(st, raw).options == st.options,
{
    reveal_strlit("optional arguments:");
    reveal_strlit("options:");
    assert(lower(trim(raw)).len() == trim(raw).len());
}

/// The subcommand headings of common help formats, `Commands:`,
/// `Available commands:` and `Subcommands:` (in any case, with any
/// surrounding space), open a subcommand section.
pub proof fn law_command_headings_open_commands(st: HelpState, raw: Seq<char>)
    requires
        lower(trim(raw)) == "commands:"@ || lower(trim(raw)) == "available commands:"@
            || lower(trim(raw)) == "subcommands:"@,
    ensures
        help_line(st, raw).section == 2,
        help_line(st, raw).saw_commands,
        help_line(st, raw).active is None,
        help_line(st, raw).options == st.options,
{
    reveal_strlit("commands:");
    reveal_strlit("available commands:");
    reveal_strlit("subcommands:");
    reveal_strlit("optional arguments:");
    reveal_strlit("options:");
    reveal_strlit("选项:");
    reveal_strlit("选项：");
    reveal_strlit("以下选项可用：");
    let low = lower(trim(raw));
    assert(low.len() == trim(raw).len());
    assert(low[0] != "optional arguments:"@[0]);
    assert(low[0] != "options:"@[0]);
    assert(low[0] != "选项:"@[0]);
    assert(low[0] != "选项："@[0]);
    assert(low[0] != "以下选项可用："@[0]);
    assert(!option_heading(low));
}

} // verus!
