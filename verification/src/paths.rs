//! Path and environment-variable completion text for PowerShell.
//!
//! These functions decide how a file name, directory or environment
//! variable is written back into the command line: which quote it uses,
//! which characters are escaped, and which `$env:NAME` or `${env:NAME}`
//! expressions are kept executable.
use vstd::prelude::*;
use crate::lexer::{is_special, spec_escape, spec_is_special, escape_for_quote};
use crate::text::{
    chars_of, chars_start_with, is_whitespace, lower, lower_chars, push_char, push_chars,
    spec_is_whitespace, starts_with, string_of, string_of_range,
};

verus! {

/// `value` starts with the ASCII text `prefix`, ignoring ASCII case.
pub open spec fn starts_with_ci(value: Seq<char>, prefix: Seq<char>) -> bool {
    starts_with(lower(value), lower(prefix))
}

/// Whether `value` starts with `prefix` ignoring ASCII case.
pub fn starts_with_ascii_case(value: &[char], prefix: &[char]) -> (r: bool)
    ensures
        r == starts_with_ci(value@, prefix@),
{
    let a = lower_chars(value);
    let b = lower_chars(prefix);
    chars_start_with(a.as_slice(), b.as_slice())
}

pub open spec fn braced_env_prefix() -> Seq<char> {
    seq!['$', '{', 'e', 'n', 'v', ':']
}

pub open spec fn env_prefix() -> Seq<char> {
    seq!['$', 'e', 'n', 'v', ':']
}

/// Index of the first `c` in `s[from..to]`, if any.
pub open spec fn find_from(s: Seq<char>, from: int, to: int, c: char) -> Option<int>
    decreases to - from,
{
    if from >= to || from < 0 || to > s.len() {
        None
    } else if s[from] == c {
        Some(from)
    } else {
        find_from(s, from + 1, to, c)
    }
}

/// End of a `$env:` name started at `from`: the first `/`, `\` or white
/// space at or after `from`, or `to`.
pub open spec fn name_end(s: Seq<char>, from: int, to: int) -> int
    decreases to - from,
{
    if from >= to || from < 0 || to > s.len() {
        from
    } else if s[from] == '/' || s[from] == '\\' || spec_is_whitespace(s[from]) {
        from
    } else {
        name_end(s, from + 1, to)
    }
}

/// End of a PowerShell environment expression `${env:NAME}` or `$env:NAME`
/// at character index `start`, when the expression lies wholly before `limit`.
pub open spec fn env_expr_end(s: Seq<char>, start: int, limit: int) -> Option<int> {
    let limit = if limit < s.len() { limit } else { s.len() as int };
    if start < 0 || start >= limit {
        None
    } else if starts_with_ci(s.subrange(start, limit), braced_env_prefix()) {
        match find_from(s, start + 6, limit, '}') {
            Some(close) => Some(close + 1),
            None => None,
        }
    } else if starts_with_ci(s.subrange(start, limit), env_prefix()) {
        let end = name_end(s, start + 5, limit);
        if end > start + 5 { Some(end) } else { None }
    } else {
        None
    }
}

pub proof fn lemma_find_from(s: Seq<char>, from: int, to: int, c: char)
    requires
        0 <= from,
        to <= s.len(),
    ensures
        find_from(s, from, to, c) matches Some(k) ==> from <= k < to && s[k] == c,
    decreases to - from,
{
    if from < to && s[from] != c {
        lemma_find_from(s, from + 1, to, c);
    }
}

pub proof fn lemma_name_end(s: Seq<char>, from: int, to: int)
    requires
        0 <= from <= to <= s.len(),
    ensures
        from <= name_end(s, from, to) <= to,
    decreases to - from,
{
    if from < to && !(s[from] == '/' || s[from] == '\\' || spec_is_whitespace(s[from])) {
        lemma_name_end(s, from + 1, to);
    }
}

pub proof fn lemma_env_expr_end(s: Seq<char>, start: int, limit: int)
    ensures
        env_expr_end(s, start, limit) matches Some(e) ==> start < e <= s.len() && e <= limit,
{
    let l = if limit < s.len() { limit } else { s.len() as int };
    if 0 <= start < l {
        if starts_with_ci(s.subrange(start, l), braced_env_prefix()) {
            lemma_find_from(s, start + 6, l, '}');
        } else if starts_with_ci(s.subrange(start, l), env_prefix()) {
            if start + 5 <= l {
                lemma_name_end(s, start + 5, l);
            }
        }
    }
}

/// Find the first `c` in `s[from..to]`.
fn find_char_from(s: &Vec<char>, from: usize, to: usize, c: char) -> (r: Option<usize>)
    requires
        to <= s@.len(),
    ensures
        match r {
            Some(k) => find_from(s@, from as int, to as int, c) == Some(k as int),
            None => find_from(s@, from as int, to as int, c) is None,
        },
{
    let mut i = from;
    while i < to
        invariant
            from <= i,
            to <= s@.len(),
            find_from(s@, from as int, to as int, c) == find_from(s@, i as int, to as int, c),
        decreases to - i,
    {
        if s[i] == c {
            return Some(i);
        }
        i = i + 1;
    }
    None
}

/// Index just after a PowerShell environment expression at `start`, when it
/// lies wholly before `limit`.
pub fn environment_expression_end(s: &Vec<char>, start: usize, limit: usize) -> (r: Option<usize>)
    ensures
        match r {
            Some(e) => env_expr_end(s@, start as int, limit as int) == Some(e as int),
            None => env_expr_end(s@, start as int, limit as int) is None,
        },
{
    let limit = if limit < s.len() { limit } else { s.len() };
    if start >= limit {
        return None;
    }
    let rest: Vec<char> = copy_range(s, start, limit);
    let braced = ['$', '{', 'e', 'n', 'v', ':'];
    let plain = ['$', 'e', 'n', 'v', ':'];
    assert(braced@ =~= braced_env_prefix());
    assert(plain@ =~= env_prefix());
    if starts_with_ascii_case(rest.as_slice(), braced.as_slice()) {
        proof {
            crate::text::lemma_lower_len(rest@);
        }
        proof {
            lemma_find_from(s@, start as int + 6, limit as int, '}');
        }
        return match find_char_from(s, start + 6, limit, '}') {
            Some(close) => Some(close + 1),
            None => None,
        };
    }
    if starts_with_ascii_case(rest.as_slice(), plain.as_slice()) {
        proof {
            crate::text::lemma_lower_len(rest@);
        }
        let mut end = start + 5;
        while end < limit
            invariant
                start + 5 <= end,
                limit <= s@.len(),
                name_end(s@, start as int + 5, limit as int) == name_end(s@, end as int, limit as int),
            ensures
                name_end(s@, start as int + 5, limit as int) == end,
            decreases limit - end,
        {
            let c = s[end];
            if c == '/' || c == '\\' || is_whitespace(c) {
                break;
            }
            end = end + 1;
        }
        return if end > start + 5 { Some(end) } else { None };
    }
    None
}

/// The characters `s[start..end]`.
pub fn copy_range(s: &Vec<char>, start: usize, end: usize) -> (r: Vec<char>)
    requires
        start <= end <= s@.len(),
    ensures
        r@ == s@.subrange(start as int, end as int),
{
    let mut r: Vec<char> = Vec::new();
    let mut i = start;
    while i < end
        invariant
            start <= i <= end <= s@.len(),
            r@ == s@.subrange(start as int, i as int),
        decreases end - i,
    {
        r.push(s[i]);
        assert(s@.subrange(start as int, i as int + 1) =~= s@.subrange(start as int, i as int).push(s@[i as int]));
        i = i + 1;
    }
    r
}


/// `s[i..]` escaped for a double-quoted (`double`) or bare PowerShell word,
/// keeping environment expressions that start before `limit` verbatim.
/// Backticks and `$` are escaped, and `"` too inside double quotes.
pub open spec fn escape_preserving(s: Seq<char>, i: int, limit: int, double: bool) -> Seq<char>
    decreases s.len() - i,
{
    if i < 0 || i >= s.len() {
        Seq::empty()
    } else {
        match if i < limit { env_expr_end(s, i, limit) } else { None } {
            Some(e) => {
                proof {
                    lemma_env_expr_end(s, i, limit);
                }
                s.subrange(i, e) + escape_preserving(s, e, limit, double)
            },
            None => {
                let c = s[i];
                (if c == '`' || c == '$' || (double && c == '"') { seq!['`', c] } else { seq![c] })
                    + escape_preserving(s, i + 1, limit, double)
            },
        }
    }
}

/// Whether `s[i..]` needs double quotes: some character outside a kept
/// environment expression is special, or the text starts with `#`.
pub open spec fn needs_quote_from(s: Seq<char>, i: int, limit: int) -> bool
    decreases s.len() - i,
{
    if i < 0 || i >= s.len() {
        false
    } else {
        match if i < limit { env_expr_end(s, i, limit) } else { None } {
            Some(e) => {
                proof {
                    lemma_env_expr_end(s, i, limit);
                }
                needs_quote_from(s, e, limit)
            },
            None => spec_is_special(s[i]) || (i == 0 && s[i] == '#') || needs_quote_from(s, i + 1, limit),
        }
    }
}

fn escape_preserving_exec(s: &Vec<char>, limit: usize, double: bool) -> (r: Vec<char>)
    ensures
        r@ == escape_preserving(s@, 0, limit as int, double),
{
    let mut out: Vec<char> = Vec::new();
    let mut i: usize = 0;
    while i < s.len()
        invariant
            i <= s@.len(),
            escape_preserving(s@, 0, limit as int, double) == out@ + escape_preserving(s@, i as int, limit as int, double),
        decreases s@.len() - i,
    {
        let end = if i < limit { environment_expression_end(s, i, limit) } else { None };
        proof {
            lemma_env_expr_end(s@, i as int, limit as int);
        }
        match end {
            Some(e) => {
                let part = copy_range(s, i, e);
                let ghost before = out@;
                let mut k: usize = 0;
                while k < part.len()
                    invariant
                        k <= part@.len(),
                        out@ == before + part@.take(k as int),
                    decreases part@.len() - k,
                {
                    out.push(part[k]);
                    assert(part@.take(k as int + 1) =~= part@.take(k as int).push(part@[k as int]));
                    k = k + 1;
                }
                assert(part@.take(k as int) =~= part@);
                assert(out@ + escape_preserving(s@, e as int, limit as int, double) =~= before + (part@ + escape_preserving(s@, e as int, limit as int, double)));
                i = e;
            },
            None => {
                let c = s[i];
                let ghost before = out@;
                if c == '`' || c == '$' || (double && c == '"') {
                    out.push('`');
                    out.push(c);
                    assert(out@ + escape_preserving(s@, i as int + 1, limit as int, double) =~= before + (seq!['`', c] + escape_preserving(s@, i as int + 1, limit as int, double)));
                } else {
                    out.push(c);
                    assert(out@ + escape_preserving(s@, i as int + 1, limit as int, double) =~= before + (seq![c] + escape_preserving(s@, i as int + 1, limit as int, double)));
                }
                i = i + 1;
            },
        }
    }
    assert(out@ + Seq::<char>::empty() =~= out@);
    out
}

/// Escape `text` inside double quotes, keeping environment expressions
/// that start before the character index `preserve_prefix` executable.
pub fn escape_double_preserving_env(text: &str, preserve_prefix: usize) -> (r: String)
    ensures
        r@ == escape_preserving(text@, 0, preserve_prefix as int, true),
{
    let s = chars_of(text);
    let v = escape_preserving_exec(&s, preserve_prefix, true);
    string_of(v.as_slice())
}

/// Escape a bare word, keeping environment expressions that start before
/// the character index `preserve_prefix` executable.
pub fn escape_unquoted(text: &str, preserve_prefix: usize) -> (r: String)
    ensures
        r@ == escape_preserving(text@, 0, preserve_prefix as int, false),
{
    let s = chars_of(text);
    let v = escape_preserving_exec(&s, preserve_prefix, false);
    string_of(v.as_slice())
}

/// Whether a bare path must be double-quoted.
pub fn needs_double_quote(text: &str, preserve_prefix: usize) -> (r: bool)
    ensures
        r == needs_quote_from(text@, 0, preserve_prefix as int),
{
    let s = chars_of(text);
    let mut i: usize = 0;
    while i < s.len()
        invariant
            s@ == text@,
            i <= s@.len(),
            needs_quote_from(s@, 0, preserve_prefix as int) == needs_quote_from(s@, i as int, preserve_prefix as int),
        decreases s@.len() - i,
    {
        let end = if i < preserve_prefix { environment_expression_end(&s, i, preserve_prefix) } else { None };
        proof {
            lemma_env_expr_end(s@, i as int, preserve_prefix as int);
        }
        match end {
            Some(e) => {
                i = e;
            },
            None => {
                let c = s[i];
                if is_special(c) || (i == 0 && c == '#') {
                    return true;
                }
                i = i + 1;
            },
        }
    }
    false
}

/// Single-quote escape: every `'` is doubled.
pub fn escape_single(text: &str) -> (r: String)
    ensures
        r@ == spec_escape(text@, '\''),
{
    escape_for_quote(text, '\'')
}


/// Whether `s[i..]`, inside the open quote `quote` that started the raw
/// token, reaches the closing quote.
pub open spec fn quote_closed_from(s: Seq<char>, i: int, quote: char) -> bool
    decreases s.len() - i,
{
    if i < 0 || i >= s.len() {
        false
    } else if quote == '\'' {
        if s[i] == '\'' {
            if i + 1 < s.len() && s[i + 1] == '\'' { quote_closed_from(s, i + 2, quote) } else { true }
        } else {
            quote_closed_from(s, i + 1, quote)
        }
    } else {
        if s[i] == '`' {
            quote_closed_from(s, if i + 2 <= s.len() { i + 2 } else { s.len() as int }, quote)
        } else if s[i] == '"' {
            true
        } else {
            quote_closed_from(s, i + 1, quote)
        }
    }
}

/// The quote a raw token opens with, and whether that quote is closed.
pub open spec fn spec_quote_state(s: Seq<char>) -> (Option<char>, bool) {
    if s.len() > 0 && (s[0] == '\'' || s[0] == '"') {
        (Some(s[0]), quote_closed_from(s, 1, s[0]))
    } else {
        (None, false)
    }
}

/// Return the first quote on a token and whether that quote is closed.
/// Doubled single quotes and backtick-escaped characters do not close it.
pub fn quote_state(raw: &str) -> (r: (Option<char>, bool))
    ensures
        r == spec_quote_state(raw@),
{
    let s = chars_of(raw);
    if s.len() == 0 {
        return (None, false);
    }
    let quote = s[0];
    if quote != '\'' && quote != '"' {
        return (None, false);
    }
    let mut i: usize = 1;
    while i < s.len()
        invariant
            s@ == raw@,
            1 <= i,
            quote == s@[0],
            quote == '\'' || quote == '"',
            quote_closed_from(s@, 1, quote) == quote_closed_from(s@, i as int, quote),
        decreases s@.len() - i,
    {
        if quote == '\'' {
            if s[i] == '\'' {
                if i + 1 < s.len() && s[i + 1] == '\'' {
                    i = i + 2;
                    continue;
                }
                return (Some(quote), true);
            }
        } else {
            if s[i] == '`' {
                i = if i + 1 < s.len() { i + 2 } else { s.len() };
                continue;
            }
            if s[i] == '"' {
                return (Some(quote), true);
            }
        }
        i = i + 1;
    }
    (Some(quote), false)
}

/// The part of a raw `-option=value` token after its first `=`.
pub open spec fn spec_raw_value_part(s: Seq<char>) -> Seq<char> {
    match find_from(s, 0, s.len() as int, '=') {
        Some(k) => s.subrange(k + 1, s.len() as int),
        None => s,
    }
}

pub fn raw_value_part(raw: &str) -> (r: String)
    ensures
        r@ == spec_raw_value_part(raw@),
{
    let s = chars_of(raw);
    proof {
        lemma_find_from(s@, 0, s@.len() as int, '=');
    }
    match find_char_from(&s, 0, s.len(), '=') {
        Some(k) => string_of_range(s.as_slice(), k + 1, s.len()),
        None => string_of(s.as_slice()),
    }
}

/// `c` is `/` or `\`.
pub open spec fn is_path_separator(c: char) -> bool {
    c == '/' || c == '\\'
}

/// `s` holds a path separator.
pub open spec fn has_separator(s: Seq<char>) -> bool {
    exists|i: int| 0 <= i < s.len() && is_path_separator(#[trigger] s[i])
}

fn contains_separator(s: &[char]) -> (r: bool)
    ensures
        r == has_separator(s@),
{
    let mut i: usize = 0;
    while i < s.len()
        invariant
            i <= s@.len(),
            forall|j: int| 0 <= j < i ==> !is_path_separator(#[trigger] s@[j]),
        decreases s@.len() - i,
    {
        if s[i] == '/' || s[i] == '\\' {
            return true;
        }
        i = i + 1;
    }
    false
}

/// The name fragment of a `$env:NAME` (`false`) or `${env:NAME` (`true`)
/// prefix; a fragment holding a path separator is a path instead.
pub open spec fn spec_environment_name_fragment(p: Seq<char>) -> Option<(bool, Seq<char>)> {
    if starts_with_ci(p, braced_env_prefix()) {
        let rest = p.subrange(6, p.len() as int);
        if has_separator(rest) {
            None
        } else if rest.len() > 0 && rest.last() == '}' {
            Some((true, rest.drop_last()))
        } else {
            Some((true, rest))
        }
    } else if starts_with_ci(p, env_prefix()) {
        let rest = p.subrange(5, p.len() as int);
        if has_separator(rest) { None } else { Some((false, rest)) }
    } else {
        None
    }
}

pub fn environment_name_fragment(prefix: &str) -> (r: Option<(bool, String)>)
    ensures
        match (r, spec_environment_name_fragment(prefix@)) {
            (Some((b, f)), Some((sb, sf))) => b == sb && f@ == sf,
            (None, None) => true,
            _ => false,
        },
{
    let p = chars_of(prefix);
    let braced = ['$', '{', 'e', 'n', 'v', ':'];
    let plain = ['$', 'e', 'n', 'v', ':'];
    assert(braced@ =~= braced_env_prefix());
    assert(plain@ =~= env_prefix());
    proof {
        crate::text::lemma_lower_len(p@);
    }
    if starts_with_ascii_case(p.as_slice(), braced.as_slice()) {
        let rest = copy_range(&p, 6, p.len());
        if contains_separator(rest.as_slice()) {
            return None;
        }
        if rest.len() > 0 && rest[rest.len() - 1] == '}' {
            return Some((true, string_of_range(rest.as_slice(), 0, rest.len() - 1)));
        }
        return Some((true, string_of(rest.as_slice())));
    }
    if starts_with_ascii_case(p.as_slice(), plain.as_slice()) {
        let rest = copy_range(&p, 5, p.len());
        if contains_separator(rest.as_slice()) {
            return None;
        }
        return Some((false, string_of(rest.as_slice())));
    }
    None
}

pub open spec fn is_ascii_alpha(c: char) -> bool {
    ('a' <= c <= 'z') || ('A' <= c <= 'Z')
}

pub open spec fn is_ascii_alnum(c: char) -> bool {
    is_ascii_alpha(c) || ('0' <= c <= '9')
}

/// A name usable as `$env:NAME`: an ASCII letter or `_` followed by ASCII
/// letters, digits or `_`.
pub open spec fn spec_simple_environment_name(s: Seq<char>) -> bool {
    s.len() > 0 && (s[0] == '_' || is_ascii_alpha(s[0])) && forall|i: int| 1 <= i < s.len() ==> (#[trigger] s[i] == '_' || is_ascii_alnum(s[i]))
}

pub fn simple_environment_name(name: &str) -> (r: bool)
    ensures
        r == spec_simple_environment_name(name@),
{
    let s = chars_of(name);
    if s.len() == 0 {
        return false;
    }
    let first = s[0];
    if !(first == '_' || ('a' <= first && first <= 'z') || ('A' <= first && first <= 'Z')) {
        return false;
    }
    let mut i: usize = 1;
    while i < s.len()
        invariant
            s@ == name@,
            1 <= i <= s@.len(),
            forall|j: int| 1 <= j < i ==> (#[trigger] s@[j] == '_' || is_ascii_alnum(s@[j])),
        decreases s@.len() - i,
    {
        let c = s[i];
        if !(c == '_' || ('a' <= c && c <= 'z') || ('A' <= c && c <= 'Z') || ('0' <= c && c <= '9')) {
            return false;
        }
        i = i + 1;
    }
    true
}

/// PowerShell text naming an environment variable.
pub open spec fn spec_environment_name(name: Seq<char>, braced: bool) -> Seq<char> {
    if braced || !spec_simple_environment_name(name) {
        braced_env_prefix() + name + seq!['}']
    } else {
        env_prefix() + name
    }
}

pub fn environment_name(name: &str, braced: bool) -> (r: String)
    ensures
        r@ == spec_environment_name(name@, braced),
{
    let mut result = String::new();
    if braced || !simple_environment_name(name) {
        let prefix = ['$', '{', 'e', 'n', 'v', ':'];
        assert(prefix@ =~= braced_env_prefix());
        push_chars(&mut result, prefix.as_slice());
        crate::text::push_str(&mut result, name);
        push_char(&mut result, '}');
    } else {
        let prefix = ['$', 'e', 'n', 'v', ':'];
        assert(prefix@ =~= env_prefix());
        push_chars(&mut result, prefix.as_slice());
        crate::text::push_str(&mut result, name);
    }
    result
}

/// An environment-variable name written into a raw token: inside an open
/// double quote it is escaped (keeping the expression itself) and the quote
/// is closed again when the token's quote was closed.
pub open spec fn spec_format_environment_name(value: Seq<char>, raw: Seq<char>) -> Seq<char> {
    let (quote, closed) = spec_quote_state(raw);
    if quote == Some('"') {
        seq!['"'] + escape_preserving(value, 0, value.len() as int, true) + if closed { seq!['"'] } else { Seq::empty() }
    } else {
        value
    }
}

pub fn format_environment_name(value: &str, raw: &str) -> (r: String)
    ensures
        r@ == spec_format_environment_name(value@, raw@),
{
    let (quote, closed) = quote_state(raw);
    if quote == Some('"') {
        let mut result = String::new();
        push_char(&mut result, '"');
        let n = crate::text::chars_of(value).len();
        let escaped = escape_double_preserving_env(value, n);
        crate::text::push_str(&mut result, escaped.as_str());
        if closed {
            push_char(&mut result, '"');
        }
        result
    } else {
        value.to_owned()
    }
}

/// Index of the last path separator in `s[..j]`, if any.
pub open spec fn last_separator(s: Seq<char>, j: int) -> Option<int>
    decreases j,
{
    if j <= 0 || j > s.len() {
        None
    } else if is_path_separator(s[j - 1]) {
        Some(j - 1)
    } else {
        last_separator(s, j - 1)
    }
}

/// A path split after its last separator into parent and name.
pub open spec fn spec_split_parent(s: Seq<char>) -> (Seq<char>, Seq<char>) {
    match last_separator(s, s.len() as int) {
        Some(i) => (s.subrange(0, i + 1), s.subrange(i + 1, s.len() as int)),
        None => (Seq::empty(), s),
    }
}

pub proof fn lemma_last_separator(s: Seq<char>, j: int)
    requires
        0 <= j <= s.len(),
    ensures
        last_separator(s, j) matches Some(i) ==> 0 <= i < j && is_path_separator(s[i]),
        last_separator(s, j) is None ==> forall|k: int| 0 <= k < j ==> !is_path_separator(#[trigger] s[k]),
    decreases j,
{
    if j > 0 && !is_path_separator(s[j - 1]) {
        lemma_last_separator(s, j - 1);
    }
}

fn last_separator_exec(s: &Vec<char>) -> (r: Option<usize>)
    ensures
        match r {
            Some(i) => last_separator(s@, s@.len() as int) == Some(i as int),
            None => last_separator(s@, s@.len() as int) is None,
        },
{
    let mut j = s.len();
    while j > 0
        invariant
            j <= s@.len(),
            last_separator(s@, s@.len() as int) == last_separator(s@, j as int),
        decreases j,
    {
        if s[j - 1] == '/' || s[j - 1] == '\\' {
            return Some(j - 1);
        }
        j = j - 1;
    }
    None
}

pub fn split_parent(value: &str) -> (r: (String, String))
    ensures
        r.0@ == spec_split_parent(value@).0,
        r.1@ == spec_split_parent(value@).1,
{
    let s = chars_of(value);
    proof {
        lemma_last_separator(s@, s@.len() as int);
    }
    match last_separator_exec(&s) {
        Some(i) => (string_of_range(s.as_slice(), 0, i + 1), string_of_range(s.as_slice(), i + 1, s.len())),
        None => (String::new(), string_of(s.as_slice())),
    }
}

/// `~`, `~/...` or `~\...`.
pub open spec fn spec_starts_with_tilde(s: Seq<char>) -> bool {
    s == seq!['~'] || (s.len() >= 2 && s[0] == '~' && is_path_separator(s[1]))
}

pub fn starts_with_tilde(value: &str) -> (r: bool)
    ensures
        r == spec_starts_with_tilde(value@),
{
    let s = chars_of(value);
    if s.len() == 1 && s[0] == '~' {
        assert(s@ =~= seq!['~']);
        return true;
    }
    s.len() >= 2 && s[0] == '~' && (s[1] == '/' || s[1] == '\\')
}

/// PowerShell commands and aliases that expand `~` themselves.
pub open spec fn tilde_commands() -> Seq<Seq<char>> {
    seq!["cd"@, "chdir"@, "pushd"@, "push-location"@, "set-location"@, "sl"@, "get-childitem"@, "gci"@, "dir"@, "ls"@, "get-content"@, "gc"@, "cat"@, "type"@, "get-item"@, "gi"@, "copy-item"@, "cp"@, "copy"@, "move-item"@, "mi"@, "mv"@, "move"@, "remove-item"@, "ri"@, "rm"@, "del"@, "erase"@, "rd"@, "mkdir"@, "md"@, "new-item"@, "ni"@, "rename-item"@, "rni"@, "ren"@, "resolve-path"@, "join-path"@, "split-path"@, "test-path"@, "get-acl"@, "set-acl"@, "invoke-item"@, "ii"@]
}

/// The command name after its last path separator.
pub open spec fn command_base_name(command: Seq<char>) -> Seq<char> {
    spec_split_parent(command).1
}

/// Whether `~` is kept as typed rather than expanded: directory-only
/// completion and PowerShell path commands expand it themselves.
pub open spec fn spec_preserves_tilde(command: Seq<char>, directories_only: bool) -> bool {
    directories_only || tilde_commands().contains(lower(command_base_name(command)))
}

pub fn preserves_tilde(context: &crate::model::InputContext, directories_only: bool) -> (r: bool)
    ensures
        r == spec_preserves_tilde(context.command@, directories_only),
{
    if directories_only {
        return true;
    }
    let (_, base) = split_parent(context.command.as_str());
    let base_chars = chars_of(base.as_str());
    let lowered = lower_chars(base_chars.as_slice());
    let command = string_of(lowered.as_slice());
    let names: [&str; 44] = ["cd", "chdir", "pushd", "push-location", "set-location", "sl", "get-childitem", "gci", "dir", "ls", "get-content", "gc", "cat", "type", "get-item", "gi", "copy-item", "cp", "copy", "move-item", "mi", "mv", "move", "remove-item", "ri", "rm", "del", "erase", "rd", "mkdir", "md", "new-item", "ni", "rename-item", "rni", "ren", "resolve-path", "join-path", "split-path", "test-path", "get-acl", "set-acl", "invoke-item", "ii"];
    assert(names@.map_values(|n: &str| n@) =~= tilde_commands());
    let mut k: usize = 0;
    while k < 44
        invariant
            k <= 44,
            command@ == lower(command_base_name(context.command@)),
            names@.map_values(|n: &str| n@) == tilde_commands(),
            forall|m: int| 0 <= m < k ==> tilde_commands()[m] != command@,
        decreases 44 - k,
    {
        if crate::text::str_eq(command.as_str(), names[k]) {
            assert(tilde_commands()[k as int] == command@);
            return true;
        }
        k = k + 1;
    }
    false
}


/// A path value written into a raw token after `head` (the `-option=` part):
/// kept in the token's quote, double-quoted when a bare word would need it,
/// and otherwise escaped as a bare word. Files close the quote; directories
/// leave it open so that completion can continue below them.
pub open spec fn spec_format_path_value(head: Seq<char>, text: Seq<char>, preserve: int, raw: Seq<char>, is_dir: bool) -> Seq<char> {
    let (quote, closed) = spec_quote_state(raw);
    let close = closed || !is_dir;
    let body = match quote {
        Some(q) => if q == '\'' {
            seq!['\''] + spec_escape(text, '\'') + if close { seq!['\''] } else { Seq::empty() }
        } else if q == '"' {
            seq!['"'] + escape_preserving(text, 0, preserve, true) + if close { seq!['"'] } else { Seq::empty() }
        } else {
            escape_preserving(text, 0, preserve, false)
        },
        None => if needs_quote_from(text, 0, preserve) {
            seq!['"'] + escape_preserving(text, 0, preserve, true) + if !is_dir { seq!['"'] } else { Seq::empty() }
        } else {
            escape_preserving(text, 0, preserve, false)
        },
    };
    head + body
}

/// Format a path for insertion; `preserve_env_prefix` is a character index
/// before which environment expressions stay executable.
pub fn format_path_value(head: &str, text: &str, preserve_env_prefix: usize, raw: &str, is_dir: bool) -> (r: String)
    ensures
        r@ == spec_format_path_value(head@, text@, preserve_env_prefix as int, raw@, is_dir),
{
    let (quote, closed) = quote_state(raw);
    let close = closed || !is_dir;
    let mut body = String::new();
    match quote {
        Some(q) => {
            if q == '\'' {
                push_char(&mut body, '\'');
                let e = escape_single(text);
                crate::text::push_str(&mut body, e.as_str());
                if close {
                    push_char(&mut body, '\'');
                }
            } else if q == '"' {
                push_char(&mut body, '"');
                let e = escape_double_preserving_env(text, preserve_env_prefix);
                crate::text::push_str(&mut body, e.as_str());
                if close {
                    push_char(&mut body, '"');
                }
            } else {
                body = escape_unquoted(text, preserve_env_prefix);
            }
        },
        None => {
            if needs_double_quote(text, preserve_env_prefix) {
                push_char(&mut body, '"');
                let e = escape_double_preserving_env(text, preserve_env_prefix);
                crate::text::push_str(&mut body, e.as_str());
                if !is_dir {
                    push_char(&mut body, '"');
                }
            } else {
                body = escape_unquoted(text, preserve_env_prefix);
            }
        },
    }
    let mut result = head.to_owned();
    crate::text::push_str(&mut result, body.as_str());
    result
}

/// Index of the first pair whose key equals `name` ignoring ASCII case.
pub open spec fn find_env(env: Seq<(Seq<char>, Seq<char>)>, name: Seq<char>) -> Option<int>
    decreases env.len(),
{
    if env.len() == 0 {
        None
    } else {
        match find_env(env.drop_last(), name) {
            Some(i) => Some(i),
            None => if lower(env.last().0) == lower(name) { Some(env.len() - 1) } else { None },
        }
    }
}

/// The environment as a sequence of `(name, value)` character sequences.
pub open spec fn env_view(env: Seq<(String, String)>) -> Seq<(Seq<char>, Seq<char>)> {
    env.map_values(|p: (String, String)| (p.0@, p.1@))
}

pub proof fn lemma_find_env(env: Seq<(Seq<char>, Seq<char>)>, name: Seq<char>)
    ensures
        find_env(env, name) matches Some(i) ==> 0 <= i < env.len(),
    decreases env.len(),
{
    if env.len() > 0 {
        lemma_find_env(env.drop_last(), name);
    }
}

fn find_env_exec(env: &[(String, String)], name: &[char]) -> (r: Option<usize>)
    ensures
        match r {
            Some(i) => find_env(env_view(env@), name@) == Some(i as int),
            None => find_env(env_view(env@), name@) is None,
        },
{
    let ghost v = env_view(env@);
    let lname = lower_chars(name);
    let mut i: usize = 0;
    while i < env.len()
        invariant
            v == env_view(env@),
            lname@ == lower(name@),
            i <= env@.len(),
            find_env(v.take(i as int), name@) is None,
        decreases env@.len() - i,
    {
        assert(v.take(i as int + 1).drop_last() =~= v.take(i as int));
        let key = chars_of(env[i].0.as_str());
        let lkey = lower_chars(key.as_slice());
        if crate::text::chars_eq(lkey.as_slice(), lname.as_slice()) {
            proof {
                assert(find_env(v.take(i as int + 1), name@) == Some(i as int));
                lemma_find_env_prefix(v, i as int + 1, name@);
            }
            return Some(i);
        }
        i = i + 1;
    }
    assert(v.take(i as int) =~= v);
    None
}

proof fn lemma_find_env_prefix(env: Seq<(Seq<char>, Seq<char>)>, n: int, name: Seq<char>)
    requires
        0 <= n <= env.len(),
        find_env(env.take(n), name) is Some,
    ensures
        find_env(env, name) == find_env(env.take(n), name),
    decreases env.len() - n,
{
    if n < env.len() {
        assert(env.take(n + 1).drop_last() =~= env.take(n));
        lemma_find_env_prefix(env, n + 1, name);
    } else {
        assert(env.take(n) =~= env);
    }
}

/// The home directory: `USERPROFILE`, else `HOME`.
pub open spec fn home_index(env: Seq<(Seq<char>, Seq<char>)>) -> Option<int> {
    match find_env(env, "USERPROFILE"@) {
        Some(i) => Some(i),
        None => find_env(env, "HOME"@),
    }
}

/// The scan value of a path prefix: `~` is replaced by the home directory
/// and a leading environment expression by the variable's value.
pub open spec fn spec_expand(p: Seq<char>, env: Seq<(Seq<char>, Seq<char>)>, separator: char) -> Option<Seq<char>> {
    if spec_starts_with_tilde(p) {
        match home_index(env) {
            Some(i) => Some(env[i].1 + if p == seq!['~'] { seq![separator] } else { p.subrange(1, p.len() as int) }),
            None => None,
        }
    } else {
        let parts: Option<(int, Seq<char>)> = if starts_with_ci(p, braced_env_prefix()) {
            match find_from(p, 6, p.len() as int, '}') {
                Some(close) => Some((close + 1, p.subrange(6, close))),
                None => None,
            }
        } else if starts_with_ci(p, env_prefix()) {
            let end = match last_separator_first(p, 5) {
                Some(k) => k,
                None => p.len() as int,
            };
            Some((end, p.subrange(5, end)))
        } else {
            None
        };
        match parts {
            Some((end, name)) => match find_env(env, name) {
                Some(i) => Some(env[i].1 + p.subrange(end, p.len() as int)),
                None => None,
            },
            None => None,
        }
    }
}

/// Index of the first path separator in `s[from..]`, if any.
pub open spec fn last_separator_first(s: Seq<char>, from: int) -> Option<int>
    decreases s.len() - from,
{
    if from < 0 || from >= s.len() {
        None
    } else if is_path_separator(s[from]) {
        Some(from)
    } else {
        last_separator_first(s, from + 1)
    }
}

/// Expand `~` or a leading environment expression of a path prefix;
/// `separator` is the platform's path separator, used for a bare `~`.
pub fn expand(prefix: &str, environment: &[(String, String)], separator: char) -> (r: Option<String>)
    ensures
        match (r, spec_expand(prefix@, env_view(environment@), separator)) {
            (Some(v), Some(w)) => v@ == w,
            (None, None) => true,
            _ => false,
        },
{
    let p = chars_of(prefix);
    let ghost env = env_view(environment@);
    if starts_with_tilde(prefix) {
        let userprofile = chars_of("USERPROFILE");
        let home = chars_of("HOME");
        let index = match find_env_exec(environment, userprofile.as_slice()) {
            Some(i) => i,
            None => match find_env_exec(environment, home.as_slice()) {
                Some(i) => i,
                None => return None,
            },
        };
        proof {
            lemma_find_env(env, "USERPROFILE"@);
            lemma_find_env(env, "HOME"@);
        }
        let mut result = environment[index].1.clone();
        if p.len() == 1 && p[0] == '~' {
            assert(p@ =~= seq!['~']);
            push_char(&mut result, separator);
        } else {
            assert(p@ != seq!['~']);
            let rest = copy_range(&p, 1, p.len());
            push_chars(&mut result, rest.as_slice());
        }
        return Some(result);
    }
    let braced = ['$', '{', 'e', 'n', 'v', ':'];
    let plain = ['$', 'e', 'n', 'v', ':'];
    assert(braced@ =~= braced_env_prefix());
    assert(plain@ =~= env_prefix());
    proof {
        crate::text::lemma_lower_len(p@);
    }
    let (end, name): (usize, Vec<char>) = if starts_with_ascii_case(p.as_slice(), braced.as_slice()) {
        proof {
            lemma_find_from(p@, 6, p@.len() as int, '}');
        }
        match find_char_from(&p, 6, p.len(), '}') {
            Some(close) => (close + 1, copy_range(&p, 6, close)),
            None => return None,
        }
    } else if starts_with_ascii_case(p.as_slice(), plain.as_slice()) {
        let mut k: usize = 5;
        while k < p.len() && !(p[k] == '/' || p[k] == '\\')
            invariant
                5 <= k <= p@.len(),
                last_separator_first(p@, 5) == last_separator_first(p@, k as int),
            decreases p@.len() - k,
        {
            k = k + 1;
        }
        (k, copy_range(&p, 5, k))
    } else {
        return None;
    };
    proof {
        lemma_find_env(env, name@);
    }
    match find_env_exec(environment, name.as_slice()) {
        Some(i) => {
            let mut result = environment[i].1.clone();
            let rest = copy_range(&p, end, p.len());
            push_chars(&mut result, rest.as_slice());
            Some(result)
        },
        None => None,
    }
}

/// A path text that names a network location.
pub open spec fn spec_remote(t: Seq<char>) -> bool {
    (starts_with(t, seq!['\\', '\\']) && !starts_with(t, seq!['\\', '\\', '?', '\\']))
        || starts_with(t, seq!['/', '/'])
        || starts_with(lower(t), seq!['\\', '\\', '?', '\\', 'u', 'n', 'c', '\\'])
}

pub fn remote(path: &str) -> (r: bool)
    ensures
        r == spec_remote(path@),
{
    let t = chars_of(path);
    let unc = ['\\', '\\'];
    let verbatim = ['\\', '\\', '?', '\\'];
    let slashes = ['/', '/'];
    let verbatim_unc = ['\\', '\\', '?', '\\', 'u', 'n', 'c', '\\'];
    assert(unc@ =~= seq!['\\', '\\']);
    assert(verbatim@ =~= seq!['\\', '\\', '?', '\\']);
    assert(slashes@ =~= seq!['/', '/']);
    assert(verbatim_unc@ =~= seq!['\\', '\\', '?', '\\', 'u', 'n', 'c', '\\']);
    let lowered = lower_chars(t.as_slice());
    (chars_start_with(t.as_slice(), unc.as_slice()) && !chars_start_with(t.as_slice(), verbatim.as_slice()))
        || chars_start_with(t.as_slice(), slashes.as_slice())
        || chars_start_with(lowered.as_slice(), verbatim_unc.as_slice())
}


/// The bytes `s[start..end]`.
pub fn copy_bytes(s: &Vec<u8>, start: usize, end: usize) -> (r: Vec<u8>)
    requires
        start <= end <= s@.len(),
    ensures
        r@ == s@.subrange(start as int, end as int),
{
    let mut r: Vec<u8> = Vec::new();
    let mut i = start;
    while i < end
        invariant
            start <= i <= end <= s@.len(),
            r@ == s@.subrange(start as int, i as int),
        decreases end - i,
    {
        r.push(s[i]);
        assert(s@.subrange(start as int, i as int + 1) =~= s@.subrange(start as int, i as int).push(s@[i as int]));
        i = i + 1;
    }
    r
}

} // verus!
