//! Character-level text model shared by every module.
//!
//! Strings are modelled as `Seq<char>`; byte offsets are UTF-8 offsets into
//! `encode_utf8` of that sequence and UTF-16 offsets count code units.
use vstd::prelude::*;
use vstd::utf8::*;

verus! {

/// Number of UTF-8 bytes of a character.
pub open spec fn utf8_width(c: char) -> nat {
    encode_scalar(c as u32).len()
}

/// Number of UTF-8 bytes of a character sequence.
pub open spec fn utf8_len(s: Seq<char>) -> nat {
    encode_utf8(s).len()
}

/// Number of UTF-16 code units of a character.
pub open spec fn utf16_width(c: char) -> nat {
    if (c as u32) < 0x10000 { 1 } else { 2 }
}

/// Number of UTF-16 code units of a character sequence.
pub open spec fn utf16_len(s: Seq<char>) -> nat
    decreases s.len(),
{
    if s.len() == 0 { 0 } else { utf16_len(s.drop_last()) + utf16_width(s.last()) }
}

pub proof fn lemma_encode_utf8_concat(a: Seq<char>, b: Seq<char>)
    ensures
        encode_utf8(a + b) == encode_utf8(a) + encode_utf8(b),
    decreases a.len(),
{
    if a.len() == 0 {
        assert(a + b =~= b);
        assert(encode_utf8(a) =~= Seq::<u8>::empty());
        assert(encode_utf8(a) + encode_utf8(b) =~= encode_utf8(b));
    } else {
        lemma_encode_utf8_concat(a.drop_first(), b);
        assert((a + b).drop_first() =~= a.drop_first() + b);
        assert((a + b)[0] == a[0]);
        assert(encode_utf8(a + b) =~= encode_scalar(a[0] as u32) + encode_utf8(a.drop_first() + b));
        assert(encode_utf8(a) + encode_utf8(b) =~= encode_scalar(a[0] as u32) + (encode_utf8(a.drop_first()) + encode_utf8(b)));
    }
}

pub proof fn lemma_utf8_len_push(s: Seq<char>, c: char)
    ensures
        utf8_len(s.push(c)) == utf8_len(s) + utf8_width(c),
{
    lemma_encode_utf8_concat(s, seq![c]);
    assert(s.push(c) =~= s + seq![c]);
    assert(seq![c].drop_first() =~= Seq::<char>::empty());
    assert(encode_utf8(seq![c]) =~= encode_scalar(c as u32) + encode_utf8(Seq::<char>::empty()));
}

/// UTF-8 width of a character.
pub fn char_utf8_width(c: char) -> (w: usize)
    ensures
        w == utf8_width(c),
        1 <= w <= 4,
{
    let v = c as u32;
    if v < 0x80 {
        1
    } else if v < 0x800 {
        2
    } else if v < 0x10000 {
        3
    } else {
        4
    }
}


/// The characters of a string slice, in order.
pub fn chars_of(s: &str) -> (v: Vec<char>)
    ensures
        v@ == s@,
{
    let mut v: Vec<char> = Vec::new();
    for c in it: s.chars()
        invariant
            v@ == it.seq().take(it.index() as int),
    {
        v.push(c);
    }
    v
}


/// UTF-8 byte length of a string slice.
pub fn byte_len(s: &str) -> (n: usize)
    ensures
        n == utf8_len(s@),
{
    let bytes = s.as_bytes();
    bytes.len()
}

pub proof fn lemma_prefix_lengths_step(s: Seq<char>, i: int)
    requires
        0 <= i < s.len(),
    ensures
        utf8_len(s.take(i + 1)) == utf8_len(s.take(i)) + utf8_width(s[i]),
        utf16_len(s.take(i + 1)) == utf16_len(s.take(i)) + utf16_width(s[i]),
{
    assert(s.take(i + 1) =~= s.take(i).push(s[i]));
    lemma_utf8_len_push(s.take(i), s[i]);
    assert(s.take(i + 1).drop_last() =~= s.take(i));
}

pub proof fn lemma_prefix_lengths_monotone(s: Seq<char>, i: int, j: int)
    requires
        0 <= i <= j <= s.len(),
    ensures
        utf8_len(s.take(i)) + (j - i) <= utf8_len(s.take(j)),
        utf16_len(s.take(i)) + (j - i) <= utf16_len(s.take(j)),
        utf16_len(s.take(j)) - utf16_len(s.take(i)) <= utf8_len(s.take(j)) - utf8_len(s.take(i)),
    decreases j - i,
{
    if i < j {
        lemma_prefix_lengths_monotone(s, i, j - 1);
        lemma_prefix_lengths_step(s, j - 1);
        let c = s[j - 1];
        assert(utf16_width(c) <= utf8_width(c)) by {
            assert(1 <= utf8_width(c));
            if (c as u32) >= 0x10000 {
                vstd::utf8::char_is_scalar(c);
            }
        }
    }
}


/// Unicode `White_Space`, as `char::is_whitespace` documents it.
pub open spec fn spec_is_whitespace(c: char) -> bool {
    let v = c as u32;
    (0x9 <= v <= 0xd) || v == 0x20 || v == 0x85 || v == 0xa0 || v == 0x1680 || (0x2000 <= v
        <= 0x200a) || v == 0x2028 || v == 0x2029 || v == 0x202f || v == 0x205f || v == 0x3000
}

/// Whether a character is Unicode white space.
pub fn is_whitespace(c: char) -> (b: bool)
    ensures
        b == spec_is_whitespace(c),
{
    let v = c as u32;
    (0x9 <= v && v <= 0xd) || v == 0x20 || v == 0x85 || v == 0xa0 || v == 0x1680 || (0x2000 <= v
        && v <= 0x200a) || v == 0x2028 || v == 0x2029 || v == 0x202f || v == 0x205f || v == 0x3000
}

/// ASCII lower-casing of one character; other characters are unchanged.
pub open spec fn lower_char(c: char) -> char {
    if 'A' <= c <= 'Z' { ((c as u32) + 32) as char } else { c }
}

/// ASCII lower-casing of a character sequence.
pub open spec fn lower(s: Seq<char>) -> Seq<char> {
    s.map_values(|c: char| lower_char(c))
}

pub fn to_lower_char(c: char) -> (r: char)
    ensures
        r == lower_char(c),
{
    if 'A' <= c && c <= 'Z' {
        let v = (c as u32) + 32;
        char_from_ascii(v)
    } else {
        c
    }
}

/// The character of an ASCII code point.
pub fn char_from_ascii(v: u32) -> (c: char)
    requires
        v < 128,
    ensures
        c == v as char,
{
    let b = v as u8;
    b as char
}

/// Whether `v` is a Unicode scalar value: at most `0x10FFFF` and not a
/// surrogate.
pub open spec fn is_scalar(v: u32) -> bool {
    v <= 0x10FFFF && !(0xD800 <= v <= 0xDFFF)
}

/// `char::from_u32`: the character whose code point is `v` when `v` is a
/// Unicode scalar value, else `None`, as std documents it.
#[verifier::external_body]
pub(crate) fn char_from_u32(v: u32) -> (r: Option<char>)
    ensures
        is_scalar(v) ==> r == Some(v as char),
        !is_scalar(v) ==> r is None,
{
    char::from_u32(v)
}

/// The Unicode lower case of a text, as `str::to_lowercase` gives it.
pub uninterp spec fn unicode_lower(s: Seq<char>) -> Seq<char>;

/// `str::to_lowercase`. Its result is named, not stated: it follows the
/// Unicode case tables and depends on the text alone.
#[verifier::external_body]
pub(crate) fn to_lowercase(s: &str) -> (r: String)
    ensures
        r@ == unicode_lower(s@),
{
    s.to_lowercase()
}

/// Whether a character is alphabetic or numeric in Unicode, as
/// `char::is_alphanumeric` answers it.
pub uninterp spec fn unicode_alphanumeric(c: char) -> bool;

/// `char::is_alphanumeric`. Its result is named, not stated: it follows the
/// Unicode property tables and depends on the character alone.
#[verifier::external_body]
pub(crate) fn is_alphanumeric(c: char) -> (r: bool)
    ensures
        r == unicode_alphanumeric(c),
{
    c.is_alphanumeric()
}

/// Append one character to a string.
#[verifier::external_body]
pub fn push_char(s: &mut String, c: char)
    ensures
        final(s)@ == old(s)@.push(c),
{
    s.push(c);
}

/// A string holding exactly the given characters.
pub fn string_of(v: &[char]) -> (s: String)
    ensures
        s@ == v@,
{
    let mut s = String::new();
    let mut i: usize = 0;
    while i < v.len()
        invariant
            i <= v@.len(),
            s@ == v@.take(i as int),
        decreases v@.len() - i,
    {
        push_char(&mut s, v[i]);
        assert(v@.take(i as int + 1) =~= v@.take(i as int).push(v@[i as int]));
        i = i + 1;
    }
    assert(v@.take(i as int) =~= v@);
    s
}

/// A string holding the characters `v[start..end]`.
pub fn string_of_range(v: &[char], start: usize, end: usize) -> (s: String)
    requires
        start <= end <= v@.len(),
    ensures
        s@ == v@.subrange(start as int, end as int),
{
    let mut s = String::new();
    let mut i: usize = start;
    while i < end
        invariant
            start <= i <= end <= v@.len(),
            s@ == v@.subrange(start as int, i as int),
        decreases end - i,
    {
        push_char(&mut s, v[i]);
        assert(v@.subrange(start as int, i as int + 1) =~= v@.subrange(start as int, i as int).push(v@[i as int]));
        i = i + 1;
    }
    s
}

/// Append all characters of `v` to `s`.
pub fn push_chars(s: &mut String, v: &[char])
    ensures
        final(s)@ == old(s)@ + v@,
{
    let mut i: usize = 0;
    while i < v.len()
        invariant
            i <= v@.len(),
            s@ == old(s)@ + v@.take(i as int),
        decreases v@.len() - i,
    {
        push_char(s, v[i]);
        assert(v@.take(i as int + 1) =~= v@.take(i as int).push(v@[i as int]));
        i = i + 1;
    }
    assert(v@.take(i as int) =~= v@);
}

/// Append a string slice to `s`.
pub fn push_str(s: &mut String, t: &str)
    ensures
        final(s)@ == old(s)@ + t@,
{
    let v = chars_of(t);
    push_chars(s, v.as_slice());
}


/// Character index of a UTF-8 byte offset that is a character boundary.
pub fn char_index_of_byte(chars: &Vec<char>, byte: usize) -> (i: usize)
    requires
        exists|k: int| 0 <= k <= chars@.len() && utf8_len(#[trigger] chars@.take(k)) == byte,
    ensures
        i <= chars@.len(),
        utf8_len(chars@.take(i as int)) == byte,
{
    let ghost s = chars@;
    let ghost k = choose|k: int| 0 <= k <= s.len() && utf8_len(#[trigger] s.take(k)) == byte;
    let mut i: usize = 0;
    let mut b: usize = 0;
    let n = chars.len();
    proof {
        assert(s.take(0) =~= Seq::<char>::empty());
    }
    while b < byte
        invariant
            s == chars@,
            n == s.len(),
            0 <= k <= s.len(),
            utf8_len(s.take(k)) == byte,
            i <= k,
            b == utf8_len(s.take(i as int)),
        decreases k - i,
    {
        proof {
            if i == k {
                assert(false);
            }
            lemma_prefix_lengths_step(s, i as int);
            lemma_prefix_lengths_monotone(s, i as int + 1, k);
        }
        b = b + char_utf8_width(chars[i]);
        i = i + 1;
    }
    proof {
        if i < k {
            lemma_prefix_lengths_monotone(s, i as int, k);
        }
    }
    i
}

/// Two character sequences are equal.
pub fn chars_eq(a: &[char], b: &[char]) -> (r: bool)
    ensures
        r == (a@ == b@),
{
    if a.len() != b.len() {
        return false;
    }
    let mut i: usize = 0;
    while i < a.len()
        invariant
            a@.len() == b@.len(),
            i <= a@.len(),
            forall|j: int| 0 <= j < i ==> a@[j] == b@[j],
        decreases a@.len() - i,
    {
        if a[i] != b[i] {
            return false;
        }
        i = i + 1;
    }
    assert(a@ =~= b@);
    true
}

/// Two strings are equal.
pub fn str_eq(a: &str, b: &str) -> (r: bool)
    ensures
        r == (a@ == b@),
{
    let x = chars_of(a);
    let y = chars_of(b);
    chars_eq(x.as_slice(), y.as_slice())
}


/// `p` is a prefix of `s`.
pub open spec fn starts_with(s: Seq<char>, p: Seq<char>) -> bool {
    p.len() <= s.len() && s.take(p.len() as int) == p
}

/// `p` is a suffix of `s`.
pub open spec fn ends_with(s: Seq<char>, p: Seq<char>) -> bool {
    p.len() <= s.len() && s.skip(s.len() - p.len()) == p
}

/// `s` contains the character `c`.
pub open spec fn has_char(s: Seq<char>, c: char) -> bool {
    exists|i: int| 0 <= i < s.len() && s[i] == c
}

pub fn chars_start_with(s: &[char], p: &[char]) -> (r: bool)
    ensures
        r == starts_with(s@, p@),
{
    if p.len() > s.len() {
        return false;
    }
    let mut i: usize = 0;
    while i < p.len()
        invariant
            p@.len() <= s@.len(),
            i <= p@.len(),
            forall|j: int| 0 <= j < i ==> s@[j] == p@[j],
        decreases p@.len() - i,
    {
        if s[i] != p[i] {
            assert(s@.take(p@.len() as int)[i as int] != p@[i as int]);
            return false;
        }
        i = i + 1;
    }
    assert(s@.take(p@.len() as int) =~= p@);
    true
}

pub fn chars_end_with(s: &[char], p: &[char]) -> (r: bool)
    ensures
        r == ends_with(s@, p@),
{
    if p.len() > s.len() {
        return false;
    }
    let off = s.len() - p.len();
    let n = s.len();
    let mut i: usize = 0;
    while i < p.len()
        invariant
            n == s@.len(),
            p@.len() <= s@.len(),
            off == s@.len() - p@.len(),
            i <= p@.len(),
            forall|j: int| 0 <= j < i ==> s@[off + j] == p@[j],
        decreases p@.len() - i,
    {
        if s[off + i] != p[i] {
            assert(s@.skip(off as int)[i as int] != p@[i as int]);
            return false;
        }
        i = i + 1;
    }
    assert(s@.skip(off as int) =~= p@);
    true
}

pub fn chars_contain(s: &[char], c: char) -> (r: bool)
    ensures
        r == has_char(s@, c),
{
    let mut i: usize = 0;
    while i < s.len()
        invariant
            i <= s@.len(),
            forall|j: int| 0 <= j < i ==> s@[j] != c,
        decreases s@.len() - i,
    {
        if s[i] == c {
            return true;
        }
        i = i + 1;
    }
    false
}

/// ASCII lower-cased copy of a character slice.
pub fn lower_chars(s: &[char]) -> (r: Vec<char>)
    ensures
        r@ == lower(s@),
{
    let mut r: Vec<char> = Vec::new();
    let mut i: usize = 0;
    while i < s.len()
        invariant
            i <= s@.len(),
            r@ == lower(s@.take(i as int)),
        decreases s@.len() - i,
    {
        r.push(to_lower_char(s[i]));
        assert(lower(s@.take(i as int + 1)) =~= lower(s@.take(i as int)).push(lower_char(s@[i as int])));
        i = i + 1;
    }
    assert(s@.take(i as int) =~= s@);
    r
}


/// Index of the first non-white-space character of `s[i..]`, or `s.len()`.
pub open spec fn lead(s: Seq<char>, i: int) -> int
    decreases s.len() - i,
{
    if i < 0 || i >= s.len() {
        s.len() as int
    } else if spec_is_whitespace(s[i]) {
        lead(s, i + 1)
    } else {
        i
    }
}

/// One past the last non-white-space character of `s[..j]`, or 0.
pub open spec fn trail(s: Seq<char>, j: int) -> int
    decreases j,
{
    if j <= 0 || j > s.len() {
        0
    } else if spec_is_whitespace(s[j - 1]) {
        trail(s, j - 1)
    } else {
        j
    }
}

/// `s` without leading and trailing white space.
pub open spec fn trim(s: Seq<char>) -> Seq<char> {
    if lead(s, 0) >= trail(s, s.len() as int) {
        Seq::empty()
    } else {
        s.subrange(lead(s, 0), trail(s, s.len() as int))
    }
}

/// `s` holds only white space.
pub open spec fn is_blank(s: Seq<char>) -> bool {
    forall|i: int| 0 <= i < s.len() ==> spec_is_whitespace(#[trigger] s[i])
}

pub proof fn lemma_lead_bounds(s: Seq<char>, i: int)
    requires
        0 <= i <= s.len(),
    ensures
        i <= lead(s, i) <= s.len(),
        forall|k: int| i <= k < lead(s, i) ==> spec_is_whitespace(#[trigger] s[k]),
        lead(s, i) < s.len() ==> !spec_is_whitespace(s[lead(s, i)]),
    decreases s.len() - i,
{
    if i < s.len() && spec_is_whitespace(s[i]) {
        lemma_lead_bounds(s, i + 1);
    }
}

pub proof fn lemma_trail_bounds(s: Seq<char>, j: int)
    requires
        0 <= j <= s.len(),
    ensures
        0 <= trail(s, j) <= j,
        forall|k: int| trail(s, j) <= k < j ==> spec_is_whitespace(#[trigger] s[k]),
        trail(s, j) > 0 ==> !spec_is_whitespace(s[trail(s, j) - 1]),
    decreases j,
{
    if j > 0 && spec_is_whitespace(s[j - 1]) {
        lemma_trail_bounds(s, j - 1);
    }
}

pub proof fn lemma_trim_blank(s: Seq<char>)
    ensures
        (trim(s).len() == 0) == is_blank(s),
{
    lemma_lead_bounds(s, 0);
    lemma_trail_bounds(s, s.len() as int);
    if lead(s, 0) >= trail(s, s.len() as int) {
        assert forall|i: int| 0 <= i < s.len() implies spec_is_whitespace(#[trigger] s[i]) by {
            if i >= lead(s, 0) {
                assert(i >= trail(s, s.len() as int));
            }
        }
    } else {
        assert(!spec_is_whitespace(s[lead(s, 0)]));
    }
}

/// Bounds `(start, end)` of the trimmed part of a character slice.
pub fn trim_bounds(s: &[char]) -> (r: (usize, usize))
    ensures
        r.0 == lead(s@, 0),
        r.1 == trail(s@, s@.len() as int),
{
    let mut a: usize = 0;
    while a < s.len() && is_whitespace(s[a])
        invariant
            a <= s@.len(),
            lead(s@, 0) == lead(s@, a as int),
        decreases s@.len() - a,
    {
        a = a + 1;
    }
    let mut b: usize = s.len();
    while b > 0 && is_whitespace(s[b - 1])
        invariant
            b <= s@.len(),
            trail(s@, s@.len() as int) == trail(s@, b as int),
        decreases b,
    {
        b = b - 1;
    }
    (a, b)
}

/// The trimmed characters of a slice.
pub fn trim_chars(s: &[char]) -> (r: Vec<char>)
    ensures
        r@ == trim(s@),
{
    let (a, b) = trim_bounds(s);
    let mut r: Vec<char> = Vec::new();
    if a >= b {
        return r;
    }
    proof {
        lemma_trail_bounds(s@, s@.len() as int);
        assert(s@.subrange(a as int, a as int) =~= Seq::<char>::empty());
    }
    let mut i = a;
    while i < b
        invariant
            a <= i <= b <= s@.len(),
            r@ == s@.subrange(a as int, i as int),
        decreases b - i,
    {
        r.push(s[i]);
        assert(s@.subrange(a as int, i as int + 1) =~= s@.subrange(a as int, i as int).push(s@[i as int]));
        i = i + 1;
    }
    r
}

/// `s` holds only white space.
pub fn is_blank_str(s: &str) -> (r: bool)
    ensures
        r == is_blank(s@),
{
    let chars = chars_of(s);
    let mut i: usize = 0;
    while i < chars.len()
        invariant
            chars@ == s@,
            i <= chars@.len(),
            forall|j: int| 0 <= j < i ==> spec_is_whitespace(#[trigger] chars@[j]),
        decreases chars@.len() - i,
    {
        if !is_whitespace(chars[i]) {
            return false;
        }
        i = i + 1;
    }
    true
}


pub proof fn lemma_lower_len(s: Seq<char>)
    ensures
        lower(s).len() == s.len(),
{
}

pub proof fn lemma_trim_idempotent(s: Seq<char>)
    ensures
        trim(trim(s)) == trim(s),
{
    let t = trim(s);
    lemma_lead_bounds(s, 0);
    lemma_trail_bounds(s, s.len() as int);
    lemma_lead_bounds(t, 0);
    lemma_trail_bounds(t, t.len() as int);
    if t.len() > 0 {
        let a = lead(s, 0);
        let b = trail(s, s.len() as int);
        assert(t[0] == s[a]);
        assert(t[t.len() - 1] == s[b - 1]);
        assert(lead(t, 0) == 0);
        assert(trail(t, t.len() as int) == t.len());
        assert(t.subrange(0, t.len() as int) =~= t);
    }
}


/// The decimal digit for `d < 10`.
pub open spec fn digit_char(d: nat) -> char {
    ((d + 48) as u32) as char
}

/// The decimal notation of `n`, without leading zeros.
pub open spec fn decimal(n: nat) -> Seq<char>
    decreases n,
{
    if n < 10 {
        seq![digit_char(n)]
    } else {
        decimal(n / 10).push(digit_char(n % 10))
    }
}

/// Append the decimal notation of `n`.
pub fn push_decimal(s: &mut String, n: usize)
    ensures
        final(s)@ == old(s)@ + decimal(n as nat),
    decreases n,
{
    if n >= 10 {
        push_decimal(s, n / 10);
    }
    let d = (n % 10) as u32;
    push_char(s, char_from_ascii(d + 48));
    assert(decimal(n as nat) =~= if n < 10 { seq![digit_char(n as nat)] } else { decimal((n / 10) as nat).push(digit_char((n % 10) as nat)) });
}


/// Views of a list of strings.
pub open spec fn string_views(v: Seq<String>) -> Seq<Seq<char>> {
    v.map_values(|x: String| x@)
}

/// The words of `s` as `str::split_whitespace` yields them: the maximal
/// runs of non-whitespace characters, in order.
pub open spec fn split_ws(s: Seq<char>) -> Seq<Seq<char>>
    decreases s.len(),
{
    if s.len() == 0 {
        Seq::empty()
    } else {
        let prev = split_ws(s.drop_last());
        let c = s.last();
        if spec_is_whitespace(c) {
            prev
        } else if s.len() >= 2 && !spec_is_whitespace(s[s.len() - 2]) {
            prev.drop_last().push(prev.last().push(c))
        } else {
            prev.push(seq![c])
        }
    }
}

/// The whitespace-separated words of a character sequence.
pub fn split_words(s: &[char]) -> (r: Vec<String>)
    ensures
        string_views(r@) == split_ws(s@),
{
    let mut words: Vec<String> = Vec::new();
    let mut cur: Vec<char> = Vec::new();
    let mut in_word = false;
    let mut i: usize = 0;
    assert(string_views(words@) =~= Seq::<Seq<char>>::empty());
    assert(s@.take(0) =~= Seq::<char>::empty());
    while i < s.len()
        invariant
            i <= s@.len(),
            in_word == (i > 0 && !spec_is_whitespace(s@[i - 1])),
            in_word ==> string_views(words@).push(cur@) == split_ws(s@.take(i as int)),
            !in_word ==> string_views(words@) == split_ws(s@.take(i as int)),
        decreases s@.len() - i,
    {
        let c = s[i];
        let ghost t = s@.take(i as int + 1);
        assert(t.drop_last() =~= s@.take(i as int));
        assert(t.last() == c);
        if is_whitespace(c) {
            if in_word {
                let ghost before = string_views(words@);
                words.push(string_of(cur.as_slice()));
                assert(string_views(words@) =~= before.push(cur@));
                cur = Vec::new();
                in_word = false;
            }
        } else {
            if in_word {
                assert(t[t.len() - 2] == s@[i - 1]);
                let ghost prev = string_views(words@).push(cur@);
                cur.push(c);
                assert(string_views(words@).push(cur@) =~= prev.drop_last().push(prev.last().push(c)));
            } else {
                cur = Vec::new();
                cur.push(c);
                if i > 0 {
                    assert(t[t.len() - 2] == s@[i - 1]);
                }
                assert(cur@ =~= seq![c]);
            }
            in_word = true;
        }
        i = i + 1;
    }
    if in_word {
        let ghost before = string_views(words@);
        words.push(string_of(cur.as_slice()));
        assert(string_views(words@) =~= before.push(cur@));
    }
    assert(s@.take(i as int) =~= s@);
    words
}

/// Unicode general category `Cc`, as `char::is_control` documents it.
pub open spec fn spec_is_control(c: char) -> bool {
    (c as u32) <= 0x1f || (0x7f <= (c as u32) && (c as u32) <= 0x9f)
}

pub fn is_control(c: char) -> (r: bool)
    ensures
        r == spec_is_control(c),
{
    let v = c as u32;
    v <= 0x1f || (0x7f <= v && v <= 0x9f)
}


/// The UTF-8 bytes of a string.
pub fn bytes_of(s: &str) -> (r: Vec<u8>)
    ensures
        r@ == vstd::utf8::encode_utf8(s@),
{
    let b = s.as_bytes();
    let mut r: Vec<u8> = Vec::new();
    let mut i: usize = 0;
    while i < b.len()
        invariant
            i <= b@.len(),
            r@ == b@.take(i as int),
        decreases b@.len() - i,
    {
        r.push(b[i]);
        assert(b@.take(i as int + 1) =~= b@.take(i as int).push(b@[i as int]));
        i = i + 1;
    }
    assert(b@.take(i as int) =~= b@);
    r
}


/// The pieces of `s` between occurrences of `c`, as `str::split` yields
/// them (always at least one, possibly empty).
pub open spec fn split_on(s: Seq<char>, c: char) -> Seq<Seq<char>>
    decreases s.len(),
{
    if s.len() == 0 {
        seq![Seq::empty()]
    } else {
        let prev = split_on(s.drop_last(), c);
        if s.last() == c {
            prev.push(Seq::empty())
        } else {
            prev.drop_last().push(prev.last().push(s.last()))
        }
    }
}

pub proof fn lemma_split_on_nonempty(s: Seq<char>, c: char)
    ensures
        split_on(s, c).len() >= 1,
    decreases s.len(),
{
    if s.len() > 0 {
        lemma_split_on_nonempty(s.drop_last(), c);
    }
}

/// The pieces of `s` between occurrences of `c`.
pub fn split_char(s: &[char], c: char) -> (r: Vec<Vec<char>>)
    ensures
        r@.map_values(|v: Vec<char>| v@) == split_on(s@, c),
{
    let mut parts: Vec<Vec<char>> = Vec::new();
    let mut cur: Vec<char> = Vec::new();
    let mut i: usize = 0;
    assert(s@.take(0) =~= Seq::<char>::empty());
    assert(parts@.map_values(|v: Vec<char>| v@).push(cur@) =~= split_on(Seq::<char>::empty(), c));
    while i < s.len()
        invariant
            i <= s@.len(),
            parts@.map_values(|v: Vec<char>| v@).push(cur@) == split_on(s@.take(i as int), c),
        decreases s@.len() - i,
    {
        let x = s[i];
        let ghost prev = parts@.map_values(|v: Vec<char>| v@).push(cur@);
        assert(s@.take(i as int + 1).drop_last() =~= s@.take(i as int));
        if x == c {
            let done = cur;
            parts.push(done);
            cur = Vec::new();
            assert(parts@.map_values(|v: Vec<char>| v@).push(cur@) =~= prev.push(Seq::empty()));
        } else {
            cur.push(x);
            assert(parts@.map_values(|v: Vec<char>| v@).push(cur@) =~= prev.drop_last().push(prev.last().push(x)));
        }
        i = i + 1;
    }
    assert(s@.take(i as int) =~= s@);
    let ghost before = parts@.map_values(|v: Vec<char>| v@);
    parts.push(cur);
    assert(parts@.map_values(|v: Vec<char>| v@) =~= before.push(parts@.last()@));
    parts
}

} // verus!
