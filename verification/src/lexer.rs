//! PowerShell command-line tokenization.
//!
//! A line is split into words and command separators. Words follow
//! PowerShell quoting: single quotes are literal with a doubled `''` escape,
//! double quotes and bare words use the backtick as escape character.
use vstd::prelude::*;
use crate::text::{
    chars_contain, chars_end_with, ends_with, has_char, lower, lower_chars, char_index_of_byte, push_char, byte_len, char_utf8_width, chars_of, is_whitespace, lemma_prefix_lengths_monotone, lemma_prefix_lengths_step, spec_is_whitespace, string_of_range, utf8_len,
};

verus! {

/// Characters that end a word and form a separator token of their own.
pub open spec fn spec_is_separator(c: char) -> bool {
    c == ';' || c == '|' || c == '&' || c == '<' || c == '>' || c == '(' || c == ')' || c == '{'
        || c == '}'
}

pub fn is_separator(c: char) -> (b: bool)
    ensures
        b == spec_is_separator(c),
{
    c == ';' || c == '|' || c == '&' || c == '<' || c == '>' || c == '(' || c == ')' || c == '{'
        || c == '}'
}

/// Index just after one escaped character: the backtick at `i` and the
/// character after it, when there is one.
pub open spec fn after_escape(s: Seq<char>, i: int) -> int {
    if i + 2 <= s.len() { i + 2 } else { s.len() as int }
}

/// End of a word scanned from index `i` in quote state `q` (`'\0'` outside
/// quotes, otherwise the open quote character).
pub open spec fn scan_word(s: Seq<char>, i: int, q: char) -> int
    decreases s.len() - i,
{
    if i < 0 || i >= s.len() {
        s.len() as int
    } else if q == '\0' {
        let c = s[i];
        if spec_is_whitespace(c) || spec_is_separator(c) {
            i
        } else if c == '\'' || c == '"' {
            scan_word(s, i + 1, c)
        } else if c == '`' {
            scan_word(s, after_escape(s, i), '\0')
        } else {
            scan_word(s, i + 1, '\0')
        }
    } else if q == '\'' {
        if s[i] == '\'' {
            if i + 1 < s.len() && s[i + 1] == '\'' {
                scan_word(s, i + 2, q)
            } else {
                scan_word(s, i + 1, '\0')
            }
        } else {
            scan_word(s, i + 1, q)
        }
    } else {
        if s[i] == '`' {
            scan_word(s, after_escape(s, i), q)
        } else if s[i] == '"' {
            scan_word(s, i + 1, '\0')
        } else {
            scan_word(s, i + 1, q)
        }
    }
}

pub proof fn lemma_scan_word_bounds(s: Seq<char>, i: int, q: char)
    requires
        0 <= i <= s.len(),
    ensures
        i <= scan_word(s, i, q) <= s.len(),
        i < s.len() && q == '\0' && !spec_is_whitespace(s[i]) && !spec_is_separator(s[i])
            ==> i < scan_word(s, i, q),
    decreases s.len() - i,
{
    if i < s.len() {
        if q == '\0' {
            let c = s[i];
            if spec_is_whitespace(c) || spec_is_separator(c) {
            } else if c == '\'' || c == '"' {
                lemma_scan_word_bounds(s, i + 1, c);
            } else if c == '`' {
                lemma_scan_word_bounds(s, after_escape(s, i), '\0');
            } else {
                lemma_scan_word_bounds(s, i + 1, '\0');
            }
        } else if q == '\'' {
            if s[i] == '\'' {
                if i + 1 < s.len() && s[i + 1] == '\'' {
                    lemma_scan_word_bounds(s, i + 2, q);
                } else {
                    lemma_scan_word_bounds(s, i + 1, '\0');
                }
            } else {
                lemma_scan_word_bounds(s, i + 1, q);
            }
        } else {
            if s[i] == '`' {
                lemma_scan_word_bounds(s, after_escape(s, i), q);
            } else if s[i] == '"' {
                lemma_scan_word_bounds(s, i + 1, '\0');
            } else {
                lemma_scan_word_bounds(s, i + 1, q);
            }
        }
    }
}

/// End of a separator token starting at `i`: `&&` and `||` are one token.
pub open spec fn separator_end(s: Seq<char>, i: int) -> int {
    if i + 1 < s.len() && ((s[i] == '&' && s[i + 1] == '&') || (s[i] == '|' && s[i + 1] == '|')) {
        i + 2
    } else {
        i + 1
    }
}

/// Token spans `(start, end, separator)`, in character indices, of `s[i..]`.
pub open spec fn lex_from(s: Seq<char>, i: int) -> Seq<(int, int, bool)>
    decreases s.len() - i,
{
    if i < 0 || i >= s.len() {
        Seq::empty()
    } else if spec_is_whitespace(s[i]) {
        lex_from(s, i + 1)
    } else if spec_is_separator(s[i]) {
        seq![(i, separator_end(s, i), true)] + lex_from(s, separator_end(s, i))
    } else {
        let e = scan_word(s, i, '\0');
        proof {
            lemma_scan_word_bounds(s, i, '\0');
        }
        seq![(i, e, false)] + lex_from(s, e)
    }
}

/// Token spans of a whole line.
pub open spec fn lex(s: Seq<char>) -> Seq<(int, int, bool)> {
    lex_from(s, 0)
}

/// A token with UTF-8 byte offsets into the line and its raw text.
#[derive(Clone, Debug)]
pub struct Token {
    pub start: usize,
    pub end: usize,
    pub raw: String,
    pub separator: bool,
}

/// `t` is the token of line `s` spanning the characters of `span`.
pub open spec fn token_is(t: Token, s: Seq<char>, span: (int, int, bool)) -> bool {
    &&& 0 <= span.0 <= span.1 <= s.len()
    &&& t.start == utf8_len(s.take(span.0))
    &&& t.end == utf8_len(s.take(span.1))
    &&& t.raw@ == s.subrange(span.0, span.1)
    &&& t.separator == span.2
}

/// Tokens of a line, in order.
pub open spec fn tokens_are(tokens: Seq<Token>, s: Seq<char>) -> bool {
    &&& tokens.len() == lex(s).len()
    &&& forall|k: int| 0 <= k < tokens.len() ==> token_is(#[trigger] tokens[k], s, lex(s)[k])
}

/// Scan one word starting at index `start`.
fn scan_word_end(chars: &Vec<char>, start: usize) -> (e: usize)
    requires
        start <= chars@.len(),
    ensures
        e == scan_word(chars@, start as int, '\0'),
{
    let ghost s = chars@;
    let mut i = start;
    let mut q: char = '\0';
    while i < chars.len()
        invariant
            s == chars@,
            start <= i <= s.len(),
            q == '\0' || q == '\'' || q == '"',
            scan_word(s, start as int, '\0') == scan_word(s, i as int, q),
        decreases s.len() - i,
    {
        let c = chars[i];
        if q == '\0' {
            if is_whitespace(c) || is_separator(c) {
                return i;
            } else if c == '\'' || c == '"' {
                q = c;
                i = i + 1;
            } else if c == '`' {
                i = if i + 1 < chars.len() { i + 2 } else { chars.len() };
            } else {
                i = i + 1;
            }
        } else if q == '\'' {
            if c == '\'' {
                if i + 1 < chars.len() && chars[i + 1] == '\'' {
                    i = i + 2;
                } else {
                    q = '\0';
                    i = i + 1;
                }
            } else {
                i = i + 1;
            }
        } else {
            if c == '`' {
                i = if i + 1 < chars.len() { i + 2 } else { chars.len() };
            } else if c == '"' {
                q = '\0';
                i = i + 1;
            } else {
                i = i + 1;
            }
        }
    }
    i
}

/// UTF-8 byte offset of character index `to`, given that of `from`.
fn advance_bytes(chars: &Vec<char>, from: usize, to: usize, byte: usize, total: usize) -> (r: usize)
    requires
        from <= to <= chars@.len(),
        byte == utf8_len(chars@.take(from as int)),
        total == utf8_len(chars@),
    ensures
        r == utf8_len(chars@.take(to as int)),
{
    let ghost s = chars@;
    let mut i = from;
    let mut b = byte;
    proof {
        assert(s.take(s.len() as int) =~= s);
    }
    while i < to
        invariant
            s == chars@,
            from <= i <= to <= s.len(),
            b == utf8_len(s.take(i as int)),
            total == utf8_len(s.take(s.len() as int)),
        decreases to - i,
    {
        proof {
            lemma_prefix_lengths_step(s, i as int);
            lemma_prefix_lengths_monotone(s, i as int + 1, s.len() as int);
        }
        b = b + char_utf8_width(chars[i]);
        i = i + 1;
    }
    b
}

/// Split a line into words and separators.
pub fn lex_line(line: &str) -> (tokens: Vec<Token>)
    ensures
        tokens_are(tokens@, line@),
{
    let chars = chars_of(line);
    let total = byte_len(line);
    let ghost s = line@;
    let mut tokens: Vec<Token> = Vec::new();
    let mut i: usize = 0;
    let mut byte: usize = 0;
    let ghost mut done: Seq<(int, int, bool)> = Seq::empty();
    proof {
        assert(s.take(0) =~= Seq::<char>::empty());
        assert(s.take(s.len() as int) =~= s);
    }
    while i < chars.len()
        invariant
            s == chars@,
            s == line@,
            total == utf8_len(s),
            i <= s.len(),
            byte == utf8_len(s.take(i as int)),
            lex(s) == done + lex_from(s, i as int),
            tokens@.len() == done.len(),
            forall|k: int| 0 <= k < done.len() ==> token_is(#[trigger] tokens@[k], s, done[k]),
            forall|k: int| 0 <= k < done.len() ==> done[k].1 <= i,
        decreases s.len() - i,
    {
        let c = chars[i];
        proof {
            lemma_prefix_lengths_step(s, i as int);
            lemma_prefix_lengths_monotone(s, i as int + 1, s.len() as int);
            assert(s.take(s.len() as int) =~= s);
        }
        if is_whitespace(c) {
            byte = byte + char_utf8_width(c);
            i = i + 1;
        } else if is_separator(c) {
            let e: usize = if i + 1 < chars.len() && ((c == '&' && chars[i + 1] == '&') || (c == '|'
                && chars[i + 1] == '|')) {
                i + 2
            } else {
                i + 1
            };
            let end_byte = advance_bytes(&chars, i, e, byte, total);
            let raw = string_of_range(chars.as_slice(), i, e);
            let ghost span = (i as int, e as int, true);
            tokens.push(Token { start: byte, end: end_byte, raw, separator: true });
            proof {
                assert(lex_from(s, i as int) == seq![span] + lex_from(s, e as int));
                assert(done.push(span) + lex_from(s, e as int) =~= done + (seq![span] + lex_from(s, e as int)));
                done = done.push(span);
            }
            i = e;
            byte = end_byte;
        } else {
            let e = scan_word_end(&chars, i);
            proof {
                lemma_scan_word_bounds(s, i as int, '\0');
            }
            let end_byte = advance_bytes(&chars, i, e, byte, total);
            let raw = string_of_range(chars.as_slice(), i, e);
            let ghost span = (i as int, e as int, false);
            tokens.push(Token { start: byte, end: end_byte, raw, separator: false });
            proof {
                assert(lex_from(s, i as int) == seq![span] + lex_from(s, e as int));
                assert(done.push(span) + lex_from(s, e as int) =~= done + (seq![span] + lex_from(s, e as int)));
                done = done.push(span);
            }
            i = e;
            byte = end_byte;
        }
    }
    proof {
        assert(lex(s) =~= done);
    }
    tokens
}


/// Quote state after scanning `s[i..]` from quote state `q`, and the first
/// quote character met, given the one met before `i`.
pub open spec fn quote_scan(s: Seq<char>, i: int, q: char, first: Option<char>) -> (char, Option<char>)
    decreases s.len() - i,
{
    if i < 0 || i >= s.len() {
        (q, first)
    } else if q == '\0' {
        let c = s[i];
        if c == '\'' || c == '"' {
            quote_scan(s, i + 1, c, if first is None { Some(c) } else { first })
        } else if c == '`' {
            quote_scan(s, after_escape(s, i), '\0', first)
        } else {
            quote_scan(s, i + 1, '\0', first)
        }
    } else if q == '\'' {
        if s[i] == '\'' {
            if i + 1 < s.len() && s[i + 1] == '\'' {
                quote_scan(s, i + 2, q, first)
            } else {
                quote_scan(s, i + 1, '\0', first)
            }
        } else {
            quote_scan(s, i + 1, q, first)
        }
    } else {
        if s[i] == '`' {
            quote_scan(s, after_escape(s, i), q, first)
        } else if s[i] == '"' {
            quote_scan(s, i + 1, '\0', first)
        } else {
            quote_scan(s, i + 1, q, first)
        }
    }
}

/// The first quote character of a raw token, and whether every quote that
/// was opened is closed again at its end.
pub open spec fn spec_analyze_quotes(s: Seq<char>) -> (Option<char>, bool) {
    let (q, first) = quote_scan(s, 0, '\0', None);
    (first, q == '\0' && first is Some)
}

/// Find the first quote of a raw token and whether the token's quoting is closed.
pub fn analyze_quotes(raw: &str) -> (r: (Option<char>, bool))
    ensures
        r == spec_analyze_quotes(raw@),
{
    let chars = chars_of(raw);
    let ghost s = raw@;
    let mut i: usize = 0;
    let mut q: char = '\0';
    let mut first: Option<char> = None;
    while i < chars.len()
        invariant
            s == chars@,
            i <= s.len(),
            q == '\0' || q == '\'' || q == '"',
            quote_scan(s, 0, '\0', None) == quote_scan(s, i as int, q, first),
        decreases s.len() - i,
    {
        let c = chars[i];
        if q == '\0' {
            if c == '\'' || c == '"' {
                if first.is_none() {
                    first = Some(c);
                }
                q = c;
                i = i + 1;
            } else if c == '`' {
                i = if i + 1 < chars.len() { i + 2 } else { chars.len() };
            } else {
                i = i + 1;
            }
        } else if q == '\'' {
            if c == '\'' {
                if i + 1 < chars.len() && chars[i + 1] == '\'' {
                    i = i + 2;
                } else {
                    q = '\0';
                    i = i + 1;
                }
            } else {
                i = i + 1;
            }
        } else {
            if c == '`' {
                i = if i + 1 < chars.len() { i + 2 } else { chars.len() };
            } else if c == '"' {
                q = '\0';
                i = i + 1;
            } else {
                i = i + 1;
            }
        }
    }
    let closed = q == '\0' && first.is_some();
    (first, closed)
}

/// Text of `s[i..]` in quote state `q` with PowerShell quoting removed.
pub open spec fn decode_from(s: Seq<char>, i: int, q: char) -> Seq<char>
    decreases s.len() - i,
{
    if i < 0 || i >= s.len() {
        Seq::empty()
    } else if q == '\0' {
        let c = s[i];
        if c == '\'' || c == '"' {
            decode_from(s, i + 1, c)
        } else if c == '`' {
            if i + 1 < s.len() {
                seq![s[i + 1]] + decode_from(s, i + 2, '\0')
            } else {
                Seq::empty()
            }
        } else {
            seq![c] + decode_from(s, i + 1, '\0')
        }
    } else if q == '\'' {
        if s[i] == '\'' {
            if i + 1 < s.len() && s[i + 1] == '\'' {
                seq!['\''] + decode_from(s, i + 2, q)
            } else {
                decode_from(s, i + 1, '\0')
            }
        } else {
            seq![s[i]] + decode_from(s, i + 1, q)
        }
    } else {
        if s[i] == '`' {
            if i + 1 < s.len() {
                seq![s[i + 1]] + decode_from(s, i + 2, q)
            } else {
                Seq::empty()
            }
        } else if s[i] == '"' {
            decode_from(s, i + 1, '\0')
        } else {
            seq![s[i]] + decode_from(s, i + 1, q)
        }
    }
}

/// The literal value of a raw PowerShell word.
pub open spec fn spec_decode(s: Seq<char>) -> Seq<char> {
    decode_from(s, 0, '\0')
}

/// Remove PowerShell quotes and backtick escapes from a raw word.
pub fn decode_power_shell(raw: &str) -> (r: String)
    ensures
        r@ == spec_decode(raw@),
{
    let chars = chars_of(raw);
    assert(chars@.subrange(0, chars@.len() as int) =~= chars@);
    decode_chars(&chars, 0, chars.len())
}

/// Decode the raw characters `chars[start..end]`.
pub fn decode_chars(chars: &Vec<char>, start: usize, end: usize) -> (r: String)
    requires
        start <= end <= chars@.len(),
    ensures
        r@ == spec_decode(chars@.subrange(start as int, end as int)),
{
    let ghost s = chars@.subrange(start as int, end as int);
    let mut out = String::new();
    let mut i: usize = start;
    let mut q: char = '\0';
    while i < end
        invariant
            s == chars@.subrange(start as int, end as int),
            start <= i <= end <= chars@.len(),
            q == '\0' || q == '\'' || q == '"',
            spec_decode(s) == out@ + decode_from(s, i - start, q),
        decreases end - i,
    {
        let c = chars[i];
        let ghost k = i - start;
        assert(s[k] == c);
        if q == '\0' {
            if c == '\'' || c == '"' {
                q = c;
                i = i + 1;
            } else if c == '`' {
                if i + 1 < end {
                    assert(s[k + 1] == chars@[i as int + 1]);
                    push_char(&mut out, chars[i + 1]);
                    i = i + 2;
                } else {
                    assert(decode_from(s, k, q) =~= Seq::<char>::empty());
                    i = end;
                    assert(decode_from(s, i - start, q) =~= Seq::<char>::empty());
                }
            } else {
                push_char(&mut out, c);
                i = i + 1;
            }
        } else if q == '\'' {
            if c == '\'' {
                if i + 1 < end && chars[i + 1] == '\'' {
                    assert(s[k + 1] == chars@[i as int + 1]);
                    push_char(&mut out, '\'');
                    i = i + 2;
                } else {
                    if i + 1 < end {
                        assert(s[k + 1] == chars@[i as int + 1]);
                    }
                    q = '\0';
                    i = i + 1;
                }
            } else {
                push_char(&mut out, c);
                i = i + 1;
            }
        } else {
            if c == '`' {
                if i + 1 < end {
                    assert(s[k + 1] == chars@[i as int + 1]);
                    push_char(&mut out, chars[i + 1]);
                    i = i + 2;
                } else {
                    assert(decode_from(s, k, q) =~= Seq::<char>::empty());
                    i = end;
                    assert(decode_from(s, i - start, q) =~= Seq::<char>::empty());
                }
            } else if c == '"' {
                q = '\0';
                i = i + 1;
            } else {
                push_char(&mut out, c);
                i = i + 1;
            }
        }
    }
    assert(decode_from(s, i - start, q) =~= Seq::<char>::empty());
    assert(out@ + Seq::<char>::empty() =~= out@);
    out
}


/// Escape of one character inside quote `quote`.
pub open spec fn escape_char(c: char, quote: char) -> Seq<char> {
    if quote == '\'' {
        if c == '\'' { seq!['\'', '\''] } else { seq![c] }
    } else {
        if c == '`' || c == '"' || c == '$' { seq!['`', c] } else { seq![c] }
    }
}

/// Text escaped so that it reads literally inside quote `quote`: single
/// quotes double `'`, any other quote prefixes `` ` ``, `"` and `$` with a backtick.
pub open spec fn spec_escape(s: Seq<char>, quote: char) -> Seq<char>
    decreases s.len(),
{
    if s.len() == 0 {
        Seq::empty()
    } else {
        spec_escape(s.drop_last(), quote) + escape_char(s.last(), quote)
    }
}

/// Escape `text` for use inside the quote `quote`.
pub fn escape_for_quote(text: &str, quote: char) -> (r: String)
    ensures
        r@ == spec_escape(text@, quote),
{
    let chars = chars_of(text);
    let ghost s = text@;
    let mut out = String::new();
    let mut i: usize = 0;
    while i < chars.len()
        invariant
            s == chars@,
            i <= s.len(),
            out@ == spec_escape(s.take(i as int), quote),
        decreases s.len() - i,
    {
        let c = chars[i];
        if quote == '\'' {
            if c == '\'' {
                push_char(&mut out, '\'');
            }
        } else if c == '`' || c == '"' || c == '$' {
            push_char(&mut out, '`');
        }
        push_char(&mut out, c);
        proof {
            assert(s.take(i as int + 1).drop_last() =~= s.take(i as int));
            assert(s.take(i as int + 1).last() == c);
        }
        i = i + 1;
    }
    assert(s.take(i as int) =~= s);
    out
}

/// Characters that make a bare word need quoting.
pub open spec fn spec_is_special(c: char) -> bool {
    spec_is_whitespace(c) || c == ';' || c == '|' || c == '&' || c == '<' || c == '>' || c == '('
        || c == ')' || c == '{' || c == '}' || c == '\'' || c == '"' || c == '`' || c == '*' || c
        == '?' || c == '[' || c == ']' || c == ',' || c == '$' || c == '@'
}

pub fn is_special(c: char) -> (b: bool)
    ensures
        b == spec_is_special(c),
{
    is_whitespace(c) || c == ';' || c == '|' || c == '&' || c == '<' || c == '>' || c == '(' || c
        == ')' || c == '{' || c == '}' || c == '\'' || c == '"' || c == '`' || c == '*' || c == '?'
        || c == '[' || c == ']' || c == ',' || c == '$' || c == '@'
}

/// A bare word needs quotes when it is empty, holds a special character or
/// starts with `#`.
pub open spec fn spec_needs_literal_quote(s: Seq<char>) -> bool {
    s.len() == 0 || (exists|i: int| 0 <= i < s.len() && spec_is_special(#[trigger] s[i])) || s[0]
        == '#'
}

pub fn needs_literal_quote(text: &str) -> (b: bool)
    ensures
        b == spec_needs_literal_quote(text@),
{
    let chars = chars_of(text);
    if chars.len() == 0 {
        return true;
    }
    let mut i: usize = 0;
    while i < chars.len()
        invariant
            chars@ == text@,
            i <= chars@.len(),
            forall|j: int| 0 <= j < i ==> !spec_is_special(#[trigger] chars@[j]),
        decreases chars@.len() - i,
    {
        if is_special(chars[i]) {
            return true;
        }
        i = i + 1;
    }
    chars[0] == '#'
}

/// Quoting of the token being completed.
#[derive(Clone, Debug)]
pub struct TokenContext {
    /// Literal value of the token up to the cursor.
    pub value_before: String,
    pub quote_char: Option<char>,
    pub quoted: bool,
    pub closed: bool,
}

/// Replacement text for a completion value in the given token context.
pub open spec fn spec_format_insert(text: Seq<char>, context: TokenContext, path_value: bool) -> Seq<char> {
    if context.quoted {
        let quote = match context.quote_char {
            Some(q) => q,
            None => '\'',
        };
        seq![quote] + spec_escape(text, quote) + if context.closed { seq![quote] } else { Seq::empty() }
    } else if path_value && spec_needs_literal_quote(text) {
        seq!['\''] + spec_escape(text, '\'') + seq!['\'']
    } else {
        text
    }
}

/// Format a completion value for insertion, keeping the token's quoting.
pub fn format_insert(text: &str, context: &TokenContext, path_value: bool) -> (r: String)
    ensures
        r@ == spec_format_insert(text@, *context, path_value),
{
    if context.quoted {
        let quote = match context.quote_char {
            Some(q) => q,
            None => '\'',
        };
        let mut result = String::new();
        push_char(&mut result, quote);
        let escaped = escape_for_quote(text, quote);
        crate::text::push_str(&mut result, escaped.as_str());
        if context.closed {
            push_char(&mut result, quote);
        }
        return result;
    }
    if path_value && needs_literal_quote(text) {
        let mut result = String::new();
        push_char(&mut result, '\'');
        let escaped = escape_for_quote(text, '\'');
        crate::text::push_str(&mut result, escaped.as_str());
        push_char(&mut result, '\'');
        return result;
    }
    text.to_owned()
}

/// `b` is a UTF-8 character boundary of `s` at character index `i`.
pub open spec fn boundary(s: Seq<char>, i: int, b: int) -> bool {
    0 <= i <= s.len() && utf8_len(s.take(i)) == b
}

/// Whether byte offset `b` is a character boundary of `s`.
pub open spec fn is_boundary(s: Seq<char>, b: int) -> bool {
    exists|i: int| boundary(s, i, b)
}

/// Byte offset `cursor` clamped into `start..=end`.
pub open spec fn clamp_into(cursor: int, start: int, end: int) -> int {
    if cursor < start { start } else if cursor > end { end } else { cursor }
}

impl TokenContext {
    /// Context of `token` in `line` for the byte offset `cursor`.
    pub fn from(line: &str, token: &Token, cursor: usize) -> (r: TokenContext)
        requires
            token.start <= token.end,
            is_boundary(line@, token.start as int),
            is_boundary(line@, token.end as int),
            is_boundary(line@, clamp_into(cursor as int, token.start as int, token.end as int)),
        ensures
            exists|i: int, j: int, k: int|
                boundary(line@, i, token.start as int) && boundary(line@, j, token.end as int)
                    && boundary(line@, k, clamp_into(cursor as int, token.start as int, token.end as int))
                    && r.value_before@ == spec_decode(line@.subrange(i, k))
                    && r.quote_char == spec_analyze_quotes(token.raw@).0
                    && r.closed == spec_analyze_quotes(token.raw@).1
                    && r.quoted == (token.raw@.len() > 0 && (token.raw@[0] == '\''
                    || token.raw@[0] == '"')),
    {
        let chars = chars_of(line);
        let before_end = if cursor < token.start {
            token.start
        } else if cursor > token.end {
            token.end
        } else {
            cursor
        };
        let i = char_index_of_byte(&chars, token.start);
        let k = char_index_of_byte(&chars, before_end);
        let ghost j = choose|j: int| boundary(line@, j, token.end as int);
        proof {
            if k < i {
                crate::text::lemma_prefix_lengths_monotone(chars@, k as int, i as int);
            }
        }
        let value_before = decode_chars(&chars, i, k);
        let (quote_char, closed) = analyze_quotes(token.raw.as_str());
        let raw = chars_of(token.raw.as_str());
        let quoted = raw.len() > 0 && (raw[0] == '\'' || raw[0] == '"');
        let r = TokenContext { value_before, quote_char, quoted, closed };
        assert(boundary(line@, i as int, token.start as int));
        assert(boundary(line@, k as int, before_end as int));
        r
    }
}


impl Token {
    /// An identical token.
    pub fn copy(&self) -> (r: Token)
        ensures
            r == *self,
    {
        Token { start: self.start, end: self.end, raw: self.raw.clone(), separator: self.separator }
    }
}

/// Index of the first word token whose span holds the byte offset `cursor`.
pub open spec fn first_word_at(tokens: Seq<Token>, cursor: int) -> Option<int>
    decreases tokens.len(),
{
    if tokens.len() == 0 {
        None
    } else {
        match first_word_at(tokens.drop_last(), cursor) {
            Some(k) => Some(k),
            None => {
                let t = tokens.last();
                if !t.separator && t.start <= cursor <= t.end {
                    Some(tokens.len() - 1)
                } else {
                    None
                }
            },
        }
    }
}

/// The token being completed at byte offset `cursor`.
pub fn current_token(tokens: &Vec<Token>, cursor: usize) -> (r: Token)
    ensures
        match first_word_at(tokens@, cursor as int) {
            Some(k) => r == tokens@[k],
            None => r.start == cursor && r.end == cursor && r.raw@.len() == 0 && !r.separator,
        },
{
    let mut i: usize = 0;
    while i < tokens.len()
        invariant
            i <= tokens@.len(),
            first_word_at(tokens@.take(i as int), cursor as int) is None,
        decreases tokens@.len() - i,
    {
        let t = &tokens[i];
        assert(tokens@.take(i as int + 1).drop_last() =~= tokens@.take(i as int));
        if !t.separator && t.start <= cursor && cursor <= t.end {
            proof {
                assert(first_word_at(tokens@.take(i as int + 1), cursor as int) == Some(i as int));
                lemma_first_word_prefix(tokens@, i as int + 1, cursor as int);
            }
            return t.copy();
        }
        i = i + 1;
    }
    assert(tokens@.take(i as int) =~= tokens@);
    Token { start: cursor, end: cursor, raw: String::new(), separator: false }
}

proof fn lemma_first_word_prefix(tokens: Seq<Token>, n: int, c: int)
    requires
        0 <= n <= tokens.len(),
        first_word_at(tokens.take(n), c) is Some,
    ensures
        first_word_at(tokens, c) == first_word_at(tokens.take(n), c),
    decreases tokens.len() - n,
{
    if n < tokens.len() {
        assert(tokens.take(n + 1).drop_last() =~= tokens.take(n));
        lemma_first_word_prefix(tokens, n + 1, c);
    } else {
        assert(tokens.take(n) =~= tokens);
    }
}

/// Separator tokens that end at or before `current`.
pub open spec fn ends_segment(t: Token, current: int) -> bool {
    t.separator && t.end <= current
}

/// Start of the command segment holding `current_start`: the end of the last
/// separator before it, or 0.
pub fn segment_start(tokens: &Vec<Token>, current_start: usize) -> (r: usize)
    ensures
        forall|k: int| 0 <= k < tokens@.len() && ends_segment(#[trigger] tokens@[k], current_start as int) ==> tokens@[k].end <= r,
        r == 0 || exists|k: int| 0 <= k < tokens@.len() && ends_segment(#[trigger] tokens@[k], current_start as int) && tokens@[k].end == r,
        r == spec_segment_start(tokens@, current_start as int),
{
    let mut r: usize = 0;
    let mut i: usize = 0;
    while i < tokens.len()
        invariant
            i <= tokens@.len(),
            forall|k: int| 0 <= k < i && ends_segment(#[trigger] tokens@[k], current_start as int) ==> tokens@[k].end <= r,
            r == 0 || exists|k: int| 0 <= k < i && ends_segment(#[trigger] tokens@[k], current_start as int) && tokens@[k].end == r,
            r == spec_segment_start(tokens@.take(i as int), current_start as int),
        decreases tokens@.len() - i,
    {
        let t = &tokens[i];
        assert(tokens@.take(i as int + 1).drop_last() =~= tokens@.take(i as int));
        if t.separator && t.end <= current_start && t.end > r {
            r = t.end;
            assert(ends_segment(tokens@[i as int], current_start as int));
        }
        i = i + 1;
    }
    assert(tokens@.take(i as int) =~= tokens@);
    r
}

/// The end of the last separator that ends at or before `current`, as the
/// tokens are read from the left; 0 when there is none.
pub open spec fn spec_segment_start(tokens: Seq<Token>, current: int) -> int
    decreases tokens.len(),
{
    if tokens.len() == 0 {
        0
    } else {
        let r = spec_segment_start(tokens.drop_last(), current);
        let t = tokens.last();
        if t.separator && t.end <= current && t.end > r { t.end as int } else { r }
    }
}

/// The token that [`first_word_at`] finds is a word holding the offset.
pub proof fn lemma_first_word_at(tokens: Seq<Token>, cursor: int)
    ensures
        first_word_at(tokens, cursor) matches Some(k) ==> 0 <= k < tokens.len() && !tokens[k].separator
            && tokens[k].start <= cursor <= tokens[k].end,
    decreases tokens.len(),
{
    if tokens.len() > 0 {
        lemma_first_word_at(tokens.drop_last(), cursor);
        if let Some(k) = first_word_at(tokens.drop_last(), cursor) {
            assert(tokens.drop_last()[k] == tokens[k]);
        }
    }
}

/// Words of the segment `segment_start..current_start`, decoded, in order.
pub open spec fn segment_words(tokens: Seq<Token>, segment_start: int, current_start: int) -> Seq<Seq<char>>
    decreases tokens.len(),
{
    if tokens.len() == 0 {
        Seq::empty()
    } else {
        let t = tokens.last();
        let rest = segment_words(tokens.drop_last(), segment_start, current_start);
        if !t.separator && t.start >= segment_start && t.start < current_start {
            rest.push(spec_decode(t.raw@))
        } else {
            rest
        }
    }
}

/// Decoded arguments that precede the current token in its segment (the
/// command word itself excluded).
pub fn preceding_arguments(tokens: &Vec<Token>, segment_start: usize, current_start: usize) -> (r: Vec<String>)
    ensures
        ({
            let words = segment_words(tokens@, segment_start as int, current_start as int);
            r@.map_values(|x: String| x@) == if words.len() == 0 { words } else { words.drop_first() }
        }),
{
    let mut all: Vec<String> = Vec::new();
    let mut i: usize = 0;
    while i < tokens.len()
        invariant
            i <= tokens@.len(),
            all@.map_values(|x: String| x@) == segment_words(tokens@.take(i as int), segment_start as int, current_start as int),
        decreases tokens@.len() - i,
    {
        let t = &tokens[i];
        assert(tokens@.take(i as int + 1).drop_last() =~= tokens@.take(i as int));
        if !t.separator && t.start >= segment_start && t.start < current_start {
            let word = decode_power_shell(t.raw.as_str());
            all.push(word);
            assert(all@.map_values(|x: String| x@) =~= segment_words(tokens@.take(i as int), segment_start as int, current_start as int).push(spec_decode(t.raw@)));
        }
        i = i + 1;
    }
    assert(tokens@.take(i as int) =~= tokens@);
    let mut r: Vec<String> = Vec::new();
    let mut j: usize = 1;
    while j < all.len()
        invariant
            1 <= j,
            j <= all@.len() || all@.len() == 0,
            r@.map_values(|x: String| x@) == all@.map_values(|x: String| x@).subrange(1, j as int) || all@.len() == 0,
            all@.len() == 0 ==> r@.len() == 0,
        decreases all@.len() - j,
    {
        r.push(all[j].clone());
        assert(all@.map_values(|x: String| x@).subrange(1, j as int + 1) =~= all@.map_values(|x: String| x@).subrange(1, j as int).push(all@[j as int]@));
        assert(r@.map_values(|x: String| x@) =~= all@.map_values(|x: String| x@).subrange(1, j as int).push(all@[j as int]@));
        j = j + 1;
    }
    proof {
        let words = all@.map_values(|x: String| x@);
        if words.len() > 0 {
            assert(words.drop_first() =~= words.subrange(1, words.len() as int));
        } else {
            assert(r@.map_values(|x: String| x@) =~= words);
        }
    }
    r
}

/// Clamp a byte cursor to the line and move it back to a character boundary.
pub fn clamp_cursor(line: &str, cursor: usize) -> (r: usize)
    ensures
        is_boundary(line@, r as int),
        r <= cursor,
        forall|i: int| 0 <= i <= line@.len() && utf8_len(#[trigger] line@.take(i)) <= cursor ==> utf8_len(line@.take(i)) <= r,
{
    let chars = chars_of(line);
    let total = byte_len(line);
    let ghost s = line@;
    let mut i: usize = 0;
    let mut b: usize = 0;
    proof {
        assert(s.take(0) =~= Seq::<char>::empty());
        assert(s.take(s.len() as int) =~= s);
    }
    while i < chars.len()
        invariant
            s == chars@,
            s == line@,
            total == utf8_len(s),
            i <= s.len(),
            b == utf8_len(s.take(i as int)),
            b <= cursor,
            forall|j: int| 0 <= j <= i ==> utf8_len(#[trigger] s.take(j)) <= b,
        decreases s.len() - i,
    {
        proof {
            lemma_prefix_lengths_step(s, i as int);
            lemma_prefix_lengths_monotone(s, i as int + 1, s.len() as int);
        }
        let w = char_utf8_width(chars[i]);
        if cursor - b < w {
            proof {
                assert forall|j: int| 0 <= j <= s.len() && utf8_len(#[trigger] s.take(j)) <= cursor implies utf8_len(s.take(j)) <= b by {
                    if j > i {
                        lemma_prefix_lengths_monotone(s, i as int + 1, j);
                    }
                }
                assert(boundary(s, i as int, b as int));
            }
            return b;
        }
        b = b + w;
        i = i + 1;
        proof {
            assert forall|j: int| 0 <= j <= i implies utf8_len(#[trigger] s.take(j)) <= b by {
                if j < i {
                    lemma_prefix_lengths_monotone(s, j, i as int);
                }
            }
        }
    }
    assert(boundary(s, i as int, b as int));
    b
}

/// The character index at which byte offset `byte` falls on a character
/// boundary of `line`, if it does.
pub fn boundary_index(line: &str, byte: usize) -> (r: Option<usize>)
    ensures
        match r {
            Some(i) => boundary(line@, i as int, byte as int),
            None => !is_boundary(line@, byte as int),
        },
{
    let chars = chars_of(line);
    let ghost s = line@;
    let mut i: usize = 0;
    let mut b: usize = 0;
    proof {
        assert(s.take(0) =~= Seq::<char>::empty());
    }
    while i < chars.len() && b < byte
        invariant
            s == chars@,
            s == line@,
            i <= s.len(),
            b == utf8_len(s.take(i as int)),
            b <= byte,
            forall|j: int| 0 <= j < i ==> utf8_len(#[trigger] s.take(j)) < b,
        decreases s.len() - i,
    {
        proof {
            lemma_prefix_lengths_step(s, i as int);
        }
        let w = char_utf8_width(chars[i]);
        if byte - b < w {
            proof {
                assert forall|j: int| boundary(s, j, byte as int) implies false by {
                    if j <= i {
                        if j < i {
                            assert(utf8_len(s.take(j)) < b);
                        }
                    } else {
                        lemma_prefix_lengths_monotone(s, i as int + 1, j);
                    }
                }
            }
            return None;
        }
        proof {
            assert forall|j: int| 0 <= j < i + 1 implies utf8_len(#[trigger] s.take(j)) < b + w by {
                if j < i {
                    assert(utf8_len(s.take(j)) < b);
                }
            }
        }
        b = b + w;
        i = i + 1;
    }
    if b == byte {
        assert(boundary(s, i as int, b as int));
        Some(i)
    } else {
        proof {
            assert(i == s.len());
            assert forall|j: int| boundary(s, j, byte as int) implies false by {
                if j < i {
                    assert(utf8_len(s.take(j)) < b);
                }
            }
        }
        None
    }
}

pub proof fn lemma_boundary_unique(s: Seq<char>, i: int, j: int, b: int)
    requires
        boundary(s, i, b),
        boundary(s, j, b),
    ensures
        i == j,
{
    if i < j {
        lemma_prefix_lengths_monotone(s, i, j);
    } else if j < i {
        lemma_prefix_lengths_monotone(s, j, i);
    }
}

/// Index of the first word span of a line.
pub open spec fn first_word_span(spans: Seq<(int, int, bool)>) -> Option<int>
    decreases spans.len(),
{
    if spans.len() == 0 {
        None
    } else {
        match first_word_span(spans.drop_last()) {
            Some(k) => Some(k),
            None => if !spans.last().2 { Some(spans.len() - 1) } else { None },
        }
    }
}

/// The decoded first word of a definition.
pub open spec fn spec_first_definition_token(s: Seq<char>) -> Option<Seq<char>> {
    match first_word_span(lex(s)) {
        Some(k) => Some(spec_decode(s.subrange(lex(s)[k].0, lex(s)[k].1))),
        None => None,
    }
}

/// The first word of an alias or function definition, decoded.
pub fn first_definition_token(definition: &str) -> (r: Option<String>)
    ensures
        r matches Some(t) ==> spec_first_definition_token(definition@) == Some(t@),
        r is None ==> spec_first_definition_token(definition@) is None,
{
    let tokens = lex_line(definition);
    let ghost spans = lex(definition@);
    let mut i: usize = 0;
    while i < tokens.len()
        invariant
            tokens_are(tokens@, definition@),
            spans == lex(definition@),
            i <= tokens@.len(),
            first_word_span(spans.take(i as int)) is None,
        decreases tokens@.len() - i,
    {
        assert(spans.take(i as int + 1).drop_last() =~= spans.take(i as int));
        if !tokens[i].separator {
            proof {
                assert(token_is(tokens@[i as int], definition@, spans[i as int]));
                lemma_first_span_prefix(spans, i as int + 1);
            }
            return Some(decode_power_shell(tokens[i].raw.as_str()));
        }
        i = i + 1;
    }
    assert(spans.take(i as int) =~= spans);
    None
}

proof fn lemma_first_span_prefix(spans: Seq<(int, int, bool)>, n: int)
    requires
        0 <= n <= spans.len(),
    ensures
        first_word_span(spans.take(n)) is Some ==> first_word_span(spans) == first_word_span(spans.take(n)),
    decreases spans.len() - n,
{
    if n < spans.len() {
        lemma_first_span_prefix(spans, n + 1);
        assert(spans.take(n + 1).drop_last() =~= spans.take(n));
    } else {
        assert(spans.take(n) =~= spans);
    }
}

/// File extensions of directly runnable programs.
pub open spec fn program_extensions() -> Seq<Seq<char>> {
    seq![seq!['.', 'c', 'o', 'm'], seq!['.', 'e', 'x', 'e'], seq!['.', 'b', 'a', 't'], seq!['.', 'c', 'm', 'd']]
}

/// A definition names a path when its first word holds a path separator or
/// ends in a program extension (ignoring ASCII case).
pub open spec fn spec_definition_path(s: Seq<char>) -> Option<Seq<char>> {
    match spec_first_definition_token(s) {
        Some(t) => if has_char(t, '/') || has_char(t, '\\') || (exists|k: int| 0 <= k < 4 && ends_with(lower(t), #[trigger] program_extensions()[k])) {
            Some(t)
        } else {
            None
        },
        None => None,
    }
}

/// The file a definition runs, when its first word is a path.
pub fn definition_path(definition: &str) -> (r: Option<String>)
    ensures
        r matches Some(t) ==> spec_definition_path(definition@) == Some(t@),
        r is None ==> spec_definition_path(definition@) is None,
{
    let token = match first_definition_token(definition) {
        Some(t) => t,
        None => return None,
    };
    let chars = chars_of(token.as_str());
    let lower_token = lower_chars(chars.as_slice());
    let mut found = chars_contain(chars.as_slice(), '/') || chars_contain(chars.as_slice(), '\\');
    let exts: [[char; 4]; 4] = [['.', 'c', 'o', 'm'], ['.', 'e', 'x', 'e'], ['.', 'b', 'a', 't'], ['.', 'c', 'm', 'd']];
    let mut k: usize = 0;
    while k < 4
        invariant
            k <= 4,
            found == (has_char(token@, '/') || has_char(token@, '\\') || (exists|m: int| 0 <= m < k && ends_with(lower(token@), #[trigger] program_extensions()[m]))),
            lower_token@ == lower(token@),
            chars@ == token@,
            forall|m: int| 0 <= m < 4 ==> #[trigger] exts@[m]@ == program_extensions()[m],
        decreases 4 - k,
    {
        let e = chars_end_with(lower_token.as_slice(), exts[k].as_slice());
        found = found || e;
        k = k + 1;
    }
    if found {
        Some(token)
    } else {
        None
    }
}


proof fn lemma_escape_concat(a: Seq<char>, b: Seq<char>, quote: char)
    ensures
        spec_escape(a + b, quote) == spec_escape(a, quote) + spec_escape(b, quote),
    decreases b.len(),
{
    if b.len() == 0 {
        assert(a + b =~= a);
        assert(spec_escape(a, quote) + spec_escape(b, quote) =~= spec_escape(a, quote));
    } else {
        lemma_escape_concat(a, b.drop_last(), quote);
        assert((a + b).drop_last() =~= a + b.drop_last());
        assert((a + b).last() == b.last());
        assert(spec_escape(a + b, quote) =~= spec_escape(a, quote) + spec_escape(b, quote));
    }
}

pub proof fn lemma_decode_escaped(s: Seq<char>, i: int, t: Seq<char>, quote: char, closing: bool)
    requires
        quote == '\'' || quote == '"',
        0 <= i <= s.len(),
        s.skip(i) == spec_escape(t, quote) + if closing { seq![quote] } else { Seq::empty() },
    ensures
        decode_from(s, i, quote) == t,
    decreases t.len(),
{
    if t.len() == 0 {
        assert(spec_escape(t, quote) =~= Seq::<char>::empty());
        if closing {
            assert(s.skip(i)[0] == quote);
            assert(s[i] == quote);
            assert(i + 1 == s.len());
            assert(decode_from(s, i + 1, '\0') == Seq::<char>::empty());
        } else {
            assert(s.skip(i).len() == 0);
        }
    } else {
        let c = t[0];
        let rest = t.skip(1);
        assert(t =~= seq![c] + rest);
        lemma_escape_concat(seq![c], rest, quote);
        assert(seq![c].drop_last() =~= Seq::<char>::empty());
        assert(spec_escape(Seq::<char>::empty(), quote) =~= Seq::<char>::empty());
        assert(spec_escape(seq![c], quote) =~= escape_char(c, quote));
        let e = escape_char(c, quote);
        let tail: Seq<char> = if closing { seq![quote] } else { Seq::empty() };
        assert(s.skip(i) =~= e + (spec_escape(rest, quote) + tail));
        assert(s.skip(i + e.len()) =~= spec_escape(rest, quote) + tail) by {
            assert(s.skip(i + e.len()) =~= s.skip(i).skip(e.len() as int));
        }
        lemma_decode_escaped(s, i + e.len(), rest, quote, closing);
        assert(s[i] == s.skip(i)[0]);
        if e.len() == 2 {
            assert(s[i + 1] == s.skip(i)[1]);
        }
        assert(decode_from(s, i, quote) =~= seq![c] + rest);
    }
}

/// A completion written inside quotes reads back as the completion: the
/// quoted and escaped replacement text decodes to the text itself.
pub proof fn law_quoted_insert_reads_back(text: Seq<char>, context: TokenContext, path_value: bool)
    requires
        context.quoted ==> (context.quote_char is None || context.quote_char == Some('\'') || context.quote_char == Some('"')),
        context.quoted || (path_value && spec_needs_literal_quote(text)),
    ensures
        spec_decode(spec_format_insert(text, context, path_value)) == text,
{
    let quote = if context.quoted {
        match context.quote_char {
            Some(q) => q,
            None => '\'',
        }
    } else {
        '\''
    };
    let closing = if context.quoted { context.closed } else { true };
    let tail: Seq<char> = if closing { seq![quote] } else { Seq::empty() };
    let s = spec_format_insert(text, context, path_value);
    assert(s =~= seq![quote] + (spec_escape(text, quote) + tail));
    assert(s.skip(1) =~= spec_escape(text, quote) + tail);
    lemma_decode_escaped(s, 1, text, quote, closing);
    assert(s[0] == quote);
}

} // verus!
