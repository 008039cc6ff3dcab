//! Command templates and the parameter form that fills them in.
use vstd::prelude::*;
use crate::lexer::spec_escape;
use crate::text::{chars_eq, chars_of, push_char, string_of};
pub use crate::text::string_views;

verus! {

/// Characters that a bare PowerShell token may hold unquoted.
pub open spec fn is_token_char(c: char) -> bool {
    ('a' <= c <= 'z') || ('A' <= c <= 'Z') || ('0' <= c <= '9') || c == '_' || c == '.' || c == '/'
        || c == ':' || c == '@' || c == '+' || c == ',' || c == '-' || c == '\\'
}

fn token_char(c: char) -> (r: bool)
    ensures
        r == is_token_char(c),
{
    ('a' <= c && c <= 'z') || ('A' <= c && c <= 'Z') || ('0' <= c && c <= '9') || c == '_' || c
        == '.' || c == '/' || c == ':' || c == '@' || c == '+' || c == ',' || c == '-' || c == '\\'
}

/// A value as one PowerShell token: kept bare when it is non-empty and
/// holds only safe characters, otherwise single-quoted with `'` doubled.
pub open spec fn spec_quote_token(v: Seq<char>) -> Seq<char> {
    if v.len() > 0 && forall|i: int| 0 <= i < v.len() ==> is_token_char(#[trigger] v[i]) {
        v
    } else {
        seq!['\''] + spec_escape(v, '\'') + seq!['\'']
    }
}

pub fn quote_powershell_token(value: &str) -> (r: String)
    ensures
        r@ == spec_quote_token(value@),
{
    let v = chars_of(value);
    let mut bare = v.len() > 0;
    let mut i: usize = 0;
    while i < v.len()
        invariant
            v@ == value@,
            i <= v@.len(),
            bare == (v@.len() > 0 && forall|j: int| 0 <= j < i ==> is_token_char(#[trigger] v@[j])),
        decreases v@.len() - i,
    {
        if !token_char(v[i]) {
            bare = false;
        }
        i = i + 1;
    }
    if bare {
        string_of(v.as_slice())
    } else {
        let mut r = String::new();
        push_char(&mut r, '\'');
        let e = crate::lexer::escape_for_quote(value, '\'');
        crate::text::push_str(&mut r, e.as_str());
        push_char(&mut r, '\'');
        r
    }
}

/// `s[i..]` with every non-overlapping occurrence of `pat`, left to right,
/// replaced by `rep`.
pub open spec fn replace_from(s: Seq<char>, i: int, pat: Seq<char>, rep: Seq<char>) -> Seq<char>
    decreases s.len() - i,
{
    if i < 0 || i >= s.len() {
        Seq::empty()
    } else if pat.len() > 0 && i + pat.len() <= s.len() && s.subrange(i, i + pat.len()) == pat {
        rep + replace_from(s, i + pat.len(), pat, rep)
    } else {
        seq![s[i]] + replace_from(s, i + 1, pat, rep)
    }
}

/// `s` with every occurrence of the non-empty `pat` replaced by `rep`.
pub open spec fn replace_all(s: Seq<char>, pat: Seq<char>, rep: Seq<char>) -> Seq<char> {
    replace_from(s, 0, pat, rep)
}

pub(crate) fn matches_at(s: &Vec<char>, i: usize, pat: &Vec<char>) -> (r: bool)
    requires
        i <= s@.len(),
    ensures
        r == (i + pat@.len() <= s@.len() && s@.subrange(i as int, i + pat@.len()) == pat@),
{
    if pat.len() > s.len() - i {
        return false;
    }
    let mut k: usize = 0;
    let n = s.len();
    while k < pat.len()
        invariant
            n == s@.len(),
            i + pat@.len() <= s@.len(),
            k <= pat@.len(),
            forall|j: int| 0 <= j < k ==> s@[i + j] == pat@[j],
        decreases pat@.len() - k,
    {
        if s[i + k] != pat[k] {
            assert(s@.subrange(i as int, i + pat@.len())[k as int] != pat@[k as int]);
            return false;
        }
        k = k + 1;
    }
    assert(s@.subrange(i as int, i + pat@.len()) =~= pat@);
    true
}

/// Replace every occurrence of `pat` (non-empty) in `s` by `rep`.
pub fn replace_chars(s: &Vec<char>, pat: &Vec<char>, rep: &Vec<char>) -> (r: Vec<char>)
    requires
        pat@.len() > 0,
    ensures
        r@ == replace_all(s@, pat@, rep@),
{
    let mut out: Vec<char> = Vec::new();
    let mut i: usize = 0;
    while i < s.len()
        invariant
            pat@.len() > 0,
            i <= s@.len(),
            replace_all(s@, pat@, rep@) == out@ + replace_from(s@, i as int, pat@, rep@),
        decreases s@.len() - i,
    {
        if matches_at(s, i, pat) {
            let ghost before = out@;
            let mut k: usize = 0;
            while k < rep.len()
                invariant
                    k <= rep@.len(),
                    out@ == before + rep@.take(k as int),
                decreases rep@.len() - k,
            {
                out.push(rep[k]);
                assert(rep@.take(k as int + 1) =~= rep@.take(k as int).push(rep@[k as int]));
                k = k + 1;
            }
            assert(rep@.take(k as int) =~= rep@);
            assert(out@ + replace_from(s@, i + pat@.len(), pat@, rep@) =~= before + (rep@ + replace_from(s@, i + pat@.len(), pat@, rep@)));
            i = i + pat.len();
        } else {
            let ghost before = out@;
            out.push(s[i]);
            assert(out@ + replace_from(s@, i as int + 1, pat@, rep@) =~= before + (seq![s@[i as int]] + replace_from(s@, i as int + 1, pat@, rep@)));
            i = i + 1;
        }
    }
    assert(out@ + replace_from(s@, i as int, pat@, rep@) =~= out@);
    out
}

/// Characters allowed in a placeholder name.
pub open spec fn is_name_char(c: char) -> bool {
    ('a' <= c <= 'z') || ('A' <= c <= 'Z') || ('0' <= c <= '9') || c == '_' || c == '-'
}

/// A non-empty placeholder name.
pub open spec fn valid_name(n: Seq<char>) -> bool {
    n.len() > 0 && forall|i: int| 0 <= i < n.len() ==> is_name_char(#[trigger] n[i])
}

/// Index of the first `c` in `s[from..]`.
pub open spec fn find_char(s: Seq<char>, from: int, c: char) -> Option<int>
    decreases s.len() - from,
{
    if from < 0 || from >= s.len() {
        None
    } else if s[from] == c {
        Some(from)
    } else {
        find_char(s, from + 1, c)
    }
}

pub proof fn lemma_find_char(s: Seq<char>, from: int, c: char)
    requires
        0 <= from,
    ensures
        find_char(s, from, c) matches Some(k) ==> from <= k < s.len() && s[k] == c,
    decreases s.len() - from,
{
    if from < s.len() && s[from] != c {
        lemma_find_char(s, from + 1, c);
    }
}

/// Placeholder names `{name}` or `<name>` of `s[i..]`, in order of first
/// appearance, after the names already found in `found`.
pub open spec fn placeholders_from(s: Seq<char>, i: int, found: Seq<Seq<char>>) -> Seq<Seq<char>>
    decreases s.len() - i,
{
    if i < 0 || i >= s.len() {
        found
    } else if s[i] == '{' || s[i] == '<' {
        let close = if s[i] == '{' { '}' } else { '>' };
        match find_char(s, i + 1, close) {
            Some(j) => {
                proof {
                    lemma_find_char(s, i + 1, close);
                }
                let name = s.subrange(i + 1, j);
                placeholders_from(s, j + 1, if valid_name(name) && !found.contains(name) { found.push(name) } else { found })
            },
            None => placeholders_from(s, i + 1, found),
        }
    } else {
        placeholders_from(s, i + 1, found)
    }
}

/// Names of the placeholders of a legacy command template.
pub open spec fn spec_placeholder_names(s: Seq<char>) -> Seq<Seq<char>> {
    placeholders_from(s, 0, Seq::empty())
}


fn valid_name_exec(s: &Vec<char>, from: usize, to: usize) -> (r: bool)
    requires
        from <= to <= s@.len(),
    ensures
        r == valid_name(s@.subrange(from as int, to as int)),
{
    if from == to {
        return false;
    }
    let mut k = from;
    while k < to
        invariant
            from <= k <= to <= s@.len(),
            forall|j: int| from <= j < k ==> is_name_char(#[trigger] s@[j]),
        decreases to - k,
    {
        let c = s[k];
        if !(('a' <= c && c <= 'z') || ('A' <= c && c <= 'Z') || ('0' <= c && c <= '9') || c == '_' || c == '-') {
            assert(!is_name_char(s@.subrange(from as int, to as int)[k - from]));
            return false;
        }
        k = k + 1;
    }
    assert forall|j: int| 0 <= j < to - from implies is_name_char(#[trigger] s@.subrange(from as int, to as int)[j]) by {
        assert(s@.subrange(from as int, to as int)[j] == s@[from + j]);
    }
    true
}

/// Whether `names` holds `name`.
pub fn contains_string(names: &Vec<String>, name: &Vec<char>) -> (r: bool)
    ensures
        r == string_views(names@).contains(name@),
{
    let mut k: usize = 0;
    while k < names.len()
        invariant
            k <= names@.len(),
            forall|j: int| 0 <= j < k ==> names@[j]@ != name@,
        decreases names@.len() - k,
    {
        let n = chars_of(names[k].as_str());
        if chars_eq(n.as_slice(), name.as_slice()) {
            assert(string_views(names@)[k as int] == name@);
            return true;
        }
        k = k + 1;
    }
    assert forall|j: int| 0 <= j < string_views(names@).len() implies string_views(names@)[j] != name@ by {
        assert(string_views(names@)[j] == names@[j]@);
    }
    false
}

/// Placeholder names `{name}` or `<name>` of a command, in order of first
/// appearance.
pub fn placeholder_names(command: &str) -> (r: Vec<String>)
    ensures
        string_views(r@) == spec_placeholder_names(command@),
{
    let s = chars_of(command);
    let mut names: Vec<String> = Vec::new();
    let mut i: usize = 0;
    assert(string_views(names@) =~= Seq::<Seq<char>>::empty());
    while i < s.len()
        invariant
            s@ == command@,
            i <= s@.len(),
            spec_placeholder_names(s@) == placeholders_from(s@, i as int, string_views(names@)),
        decreases s@.len() - i,
    {
        let ch = s[i];
        if ch == '{' || ch == '<' {
            let close = if ch == '{' { '}' } else { '>' };
            let mut j = i + 1;
            while j < s.len() && s[j] != close
                invariant
                    i < j <= s@.len(),
                    find_char(s@, i as int + 1, close) == find_char(s@, j as int, close),
                decreases s@.len() - j,
            {
                j = j + 1;
            }
            if j < s.len() {
                proof {
                    lemma_find_char(s@, i as int + 1, close);
                }
                let name = crate::paths::copy_range(&s, i + 1, j);
                if valid_name_exec(&s, i + 1, j) && !contains_string(&names, &name) {
                    let ghost before = string_views(names@);
                    names.push(string_of(name.as_slice()));
                    assert(string_views(names@) =~= before.push(name@));
                }
                i = j + 1;
            } else {
                i = i + 1;
            }
        } else {
            i = i + 1;
        }
    }
    names
}


/// Lexicographic order of character sequences (the order of `String`).
pub open spec fn seq_lt(a: Seq<char>, b: Seq<char>) -> bool
    decreases a.len(),
{
    if a.len() == 0 {
        b.len() > 0
    } else if b.len() == 0 {
        false
    } else if a[0] != b[0] {
        a[0] < b[0]
    } else {
        seq_lt(a.drop_first(), b.drop_first())
    }
}

pub proof fn lemma_seq_lt_irreflexive(a: Seq<char>)
    ensures
        !seq_lt(a, a),
    decreases a.len(),
{
    if a.len() > 0 {
        lemma_seq_lt_irreflexive(a.drop_first());
    }
}

pub proof fn lemma_seq_lt_total(a: Seq<char>, b: Seq<char>)
    ensures
        a != b ==> seq_lt(a, b) || seq_lt(b, a),
        !(seq_lt(a, b) && seq_lt(b, a)),
    decreases a.len(),
{
    if a.len() > 0 && b.len() > 0 && a[0] == b[0] {
        lemma_seq_lt_total(a.drop_first(), b.drop_first());
        if a.drop_first() == b.drop_first() {
            assert(a =~= seq![a[0]] + a.drop_first());
            assert(b =~= seq![b[0]] + b.drop_first());
        }
    } else if a.len() == 0 && b.len() == 0 {
        assert(a =~= b);
    }
}

pub proof fn lemma_seq_lt_transitive(a: Seq<char>, b: Seq<char>, c: Seq<char>)
    requires
        seq_lt(a, b),
        seq_lt(b, c),
    ensures
        seq_lt(a, c),
    decreases a.len(),
{
    if a.len() > 0 && b.len() > 0 && c.len() > 0 && a[0] == b[0] && b[0] == c[0] {
        lemma_seq_lt_transitive(a.drop_first(), b.drop_first(), c.drop_first());
    }
}

fn chars_lt(a: &[char], b: &[char]) -> (r: bool)
    ensures
        r == seq_lt(a@, b@),
{
    let mut i: usize = 0;
    assert(a@.skip(0) =~= a@);
    assert(b@.skip(0) =~= b@);
    while i < a.len() && i < b.len() && a[i] == b[i]
        invariant
            i <= a@.len(),
            i <= b@.len(),
            seq_lt(a@, b@) == seq_lt(a@.skip(i as int), b@.skip(i as int)),
        decreases a@.len() - i,
    {
        assert(a@.skip(i as int).drop_first() =~= a@.skip(i as int + 1));
        assert(b@.skip(i as int).drop_first() =~= b@.skip(i as int + 1));
        i = i + 1;
    }
    if i == a.len() {
        i < b.len()
    } else if i == b.len() {
        false
    } else {
        a[i] < b[i]
    }
}

/// Values entered in a form, keyed by parameter name: the keys are in
/// strictly ascending order, as in a `BTreeMap`.
pub open spec fn sorted_keys(v: Seq<(String, String)>) -> bool {
    forall|i: int, j: int| 0 <= i < j < v.len() ==> seq_lt(#[trigger] v[i].0@, #[trigger] v[j].0@)
}

/// Position of key `k` in the entries, if present.
pub open spec fn key_index(v: Seq<(String, String)>, k: Seq<char>) -> Option<int>
    decreases v.len(),
{
    if v.len() == 0 {
        None
    } else {
        match key_index(v.drop_last(), k) {
            Some(i) => Some(i),
            None => if v.last().0@ == k { Some(v.len() - 1) } else { None },
        }
    }
}

/// The value stored under key `k`.
pub open spec fn get_value(v: Seq<(String, String)>, k: Seq<char>) -> Option<Seq<char>> {
    match key_index(v, k) {
        Some(i) => Some(v[i].1@),
        None => None,
    }
}

pub proof fn lemma_key_index(v: Seq<(String, String)>, k: Seq<char>)
    ensures
        key_index(v, k) matches Some(i) ==> 0 <= i < v.len() && v[i].0@ == k,
        key_index(v, k) is None ==> forall|j: int| 0 <= j < v.len() ==> (#[trigger] v[j]).0@ != k,
    decreases v.len(),
{
    if v.len() > 0 {
        lemma_key_index(v.drop_last(), k);
        assert forall|j: int| 0 <= j < v.len() - 1 implies v.drop_last()[j] == #[trigger] v[j] by {}
    }
}

pub proof fn lemma_key_index_unique(v: Seq<(String, String)>, k: Seq<char>, i: int)
    requires
        0 <= i < v.len(),
        v[i].0@ == k,
        sorted_keys(v),
    ensures
        key_index(v, k) == Some(i),
    decreases v.len(),
{
    lemma_key_index(v, k);
    if let Some(j) = key_index(v, k) {
        if j != i {
            if j < i {
                assert(seq_lt(v[j].0@, v[i].0@));
            } else {
                assert(seq_lt(v[i].0@, v[j].0@));
            }
            lemma_seq_lt_irreflexive(k);
        }
    }
}

/// Insert or replace `key` keeping the keys sorted.
pub fn insert_value(v: &mut Vec<(String, String)>, key: String, value: String)
    requires
        sorted_keys(old(v)@),
    ensures
        sorted_keys(final(v)@),
        get_value(final(v)@, key@) == Some(value@),
        forall|k: Seq<char>| k != key@ ==> #[trigger] get_value(final(v)@, k) == get_value(old(v)@, k),
{
    let kc = chars_of(key.as_str());
    let mut p: usize = 0;
    while p < v.len()
        invariant
            kc@ == key@,
            p <= v@.len(),
            v@ == old(v)@,
            sorted_keys(v@),
            forall|j: int| 0 <= j < p ==> seq_lt((#[trigger] v@[j]).0@, key@),
        ensures
            p <= v@.len(),
            v@ == old(v)@,
            forall|j: int| 0 <= j < p ==> seq_lt((#[trigger] v@[j]).0@, key@),
            p < v@.len() ==> !seq_lt(v@[p as int].0@, key@),
        decreases v@.len() - p,
    {
        let c = chars_of(v[p].0.as_str());
        if !chars_lt(c.as_slice(), kc.as_slice()) {
            break;
        }
        p = p + 1;
    }
    let ghost old_v = v@;
    let ghost kv = key@;
    let ghost vv = value@;
    proof {
        lemma_key_index(old_v, kv);
    }
    let same = if p < v.len() {
        let c = chars_of(v[p].0.as_str());
        chars_eq(c.as_slice(), kc.as_slice())
    } else {
        false
    };
    if same {
        v.set(p, (key, value));
        proof {
            let nv = v@;
            assert forall|i: int, j: int| 0 <= i < j < nv.len() implies seq_lt(#[trigger] nv[i].0@, #[trigger] nv[j].0@) by {
                assert(seq_lt(old_v[i].0@, old_v[j].0@));
            }
            lemma_key_index_unique(nv, kv, p as int);
            assert forall|k: Seq<char>| k != kv implies #[trigger] get_value(nv, k) == get_value(old_v, k) by {
                lemma_key_index(nv, k);
                lemma_key_index(old_v, k);
                if let Some(i) = key_index(old_v, k) {
                    lemma_key_index_unique(nv, k, i);
                } else if let Some(i) = key_index(nv, k) {
                    assert(i != p);
                    assert(nv[i] == old_v[i]);
                }
            }
        }
    } else {
        proof {
            if (p as int) < old_v.len() {
                lemma_seq_lt_total(old_v[p as int].0@, kv);
            }
        }
        v.insert(p, (key, value));
        proof {
            let nv = v@;
            assert(nv[p as int].0@ == kv);
            assert forall|i: int| 0 <= i < nv.len() && i != p implies (#[trigger] nv[i]) == if i < p { old_v[i] } else { old_v[i - 1] } by {}
            assert forall|i: int, j: int| 0 <= i < j < nv.len() implies seq_lt(#[trigger] nv[i].0@, #[trigger] nv[j].0@) by {
                if i < p && j == p {
                } else if i < p && j > p {
                    assert(seq_lt(old_v[i].0@, old_v[j - 1].0@));
                } else if i == p && j > p {
                    assert(seq_lt(kv, old_v[p as int].0@));
                    if j - 1 > p {
                        assert(seq_lt(old_v[p as int].0@, old_v[j - 1].0@));
                        lemma_seq_lt_transitive(kv, old_v[p as int].0@, old_v[j - 1].0@);
                    }
                } else if i > p {
                    assert(seq_lt(old_v[i - 1].0@, old_v[j - 1].0@));
                } else {
                    assert(seq_lt(old_v[i].0@, old_v[j].0@));
                }
            }
            lemma_key_index_unique(nv, kv, p as int);
            assert forall|k: Seq<char>| k != kv implies #[trigger] get_value(nv, k) == get_value(old_v, k) by {
                lemma_key_index(nv, k);
                lemma_key_index(old_v, k);
                if let Some(i) = key_index(old_v, k) {
                    if i < p {
                        lemma_key_index_unique(nv, k, i);
                    } else {
                        lemma_key_index_unique(nv, k, i + 1);
                    }
                } else if let Some(i) = key_index(nv, k) {
                    if i < p {
                        assert(nv[i] == old_v[i]);
                    } else if i > p {
                        assert(nv[i] == old_v[i - 1]);
                    }
                }
            }
        }
    }
}

/// The value stored under `key`.
pub fn lookup_value<'a>(v: &'a Vec<(String, String)>, key: &[char]) -> (r: Option<&'a String>)
    ensures
        match get_value(v@, key@) {
            Some(x) => r matches Some(s) && s@ == x,
            None => r is None,
        },
{
    let mut i: usize = 0;
    while i < v.len()
        invariant
            i <= v@.len(),
            key_index(v@.take(i as int), key@) is None,
        decreases v@.len() - i,
    {
        assert(v@.take(i as int + 1).drop_last() =~= v@.take(i as int));
        let c = chars_of(v[i].0.as_str());
        if chars_eq(c.as_slice(), key) {
            proof {
                assert(key_index(v@.take(i as int + 1), key@) == Some(i as int));
                lemma_key_index_prefix(v@, i as int + 1, key@);
            }
            return Some(&v[i].1);
        }
        i = i + 1;
    }
    assert(v@.take(i as int) =~= v@);
    None
}

proof fn lemma_key_index_prefix(v: Seq<(String, String)>, n: int, k: Seq<char>)
    requires
        0 <= n <= v.len(),
        key_index(v.take(n), k) is Some,
    ensures
        key_index(v, k) == key_index(v.take(n), k),
    decreases v.len() - n,
{
    if n < v.len() {
        assert(v.take(n + 1).drop_last() =~= v.take(n));
        lemma_key_index_prefix(v, n + 1, k);
    } else {
        assert(v.take(n) =~= v);
    }
}

/// `{name}`.
pub open spec fn braced(name: Seq<char>) -> Seq<char> {
    seq!['{'] + name + seq!['}']
}

/// `<name>`.
pub open spec fn angled(name: Seq<char>) -> Seq<char> {
    seq!['<'] + name + seq!['>']
}

/// `s` with the placeholders of the first `n` entries filled in, entry by
/// entry in key order; each value is written as one quoted token.
pub open spec fn fill_from(s: Seq<char>, values: Seq<(String, String)>) -> Seq<char>
    decreases values.len(),
{
    if values.len() == 0 {
        s
    } else {
        let prev = fill_from(s, values.drop_last());
        let (name, value) = values.last();
        let q = spec_quote_token(value@);
        replace_all(replace_all(prev, braced(name@), q), angled(name@), q)
    }
}

/// Replace `{name}` and `<name>` placeholders by the entered values.
pub fn fill_placeholders(command: &str, values: &Vec<(String, String)>) -> (r: String)
    ensures
        r@ == fill_from(command@, values@),
{
    let mut cur = chars_of(command);
    let mut i: usize = 0;
    while i < values.len()
        invariant
            i <= values@.len(),
            cur@ == fill_from(command@, values@.take(i as int)),
        decreases values@.len() - i,
    {
        assert(values@.take(i as int + 1).drop_last() =~= values@.take(i as int));
        let name = chars_of(values[i].0.as_str());
        let q = quote_powershell_token(values[i].1.as_str());
        let qc = chars_of(q.as_str());
        let mut b: Vec<char> = Vec::new();
        b.push('{');
        let mut a: Vec<char> = Vec::new();
        a.push('<');
        let mut k: usize = 0;
        while k < name.len()
            invariant
                k <= name@.len(),
                b@ == seq!['{'] + name@.take(k as int),
                a@ == seq!['<'] + name@.take(k as int),
            decreases name@.len() - k,
        {
            b.push(name[k]);
            a.push(name[k]);
            assert(name@.take(k as int + 1) =~= name@.take(k as int).push(name@[k as int]));
            k = k + 1;
        }
        b.push('}');
        a.push('>');
        assert(name@.take(k as int) =~= name@);
        assert(b@ =~= braced(values@[i as int].0@));
        assert(a@ =~= angled(values@[i as int].0@));
        let step = replace_chars(&cur, &b, &qc);
        cur = replace_chars(&step, &a, &qc);
        i = i + 1;
    }
    assert(values@.take(i as int) =~= values@);
    string_of(cur.as_slice())
}


/// A parameter of a command template.
#[derive(Debug)]
pub struct TemplateParameter {
    pub name: String,
    pub label: String,
    pub kind: String,
    pub required: bool,
    pub default: String,
    pub values: Vec<String>,
    pub source: String,
}

/// The value of a template parameter.
pub struct ParamView {
    pub name: Seq<char>,
    pub label: Seq<char>,
    pub kind: Seq<char>,
    pub required: bool,
    pub default: Seq<char>,
    pub values: Seq<Seq<char>>,
    pub source: Seq<char>,
}

impl View for TemplateParameter {
    type V = ParamView;

    open spec fn view(&self) -> ParamView {
        ParamView {
            name: self.name@,
            label: self.label@,
            kind: self.kind@,
            required: self.required,
            default: self.default@,
            values: string_views(self.values@),
            source: self.source@,
        }
    }
}

/// Copies of a list of strings.
pub fn copy_strings(v: &Vec<String>) -> (r: Vec<String>)
    ensures
        string_views(r@) == string_views(v@),
{
    let mut r: Vec<String> = Vec::new();
    let mut i: usize = 0;
    while i < v.len()
        invariant
            i <= v@.len(),
            string_views(r@) == string_views(v@.take(i as int)),
        decreases v@.len() - i,
    {
        r.push(v[i].clone());
        assert(string_views(v@.take(i as int + 1)) =~= string_views(v@.take(i as int)).push(v@[i as int]@));
        assert(string_views(r@) =~= string_views(v@.take(i as int)).push(v@[i as int]@));
        i = i + 1;
    }
    assert(v@.take(i as int) =~= v@);
    r
}

impl TemplateParameter {
    /// A required text parameter with only a name, as a legacy `{name}` or
    /// `<name>` placeholder implies.
    pub fn named(name: String, required: bool) -> (r: TemplateParameter)
        ensures
            r@ == (ParamView {
                name: name@,
                label: Seq::empty(),
                kind: Seq::empty(),
                required,
                default: Seq::empty(),
                values: Seq::empty(),
                source: Seq::empty(),
            }),
    {
        let r = TemplateParameter {
            name,
            label: String::new(),
            kind: String::new(),
            required,
            default: String::new(),
            values: Vec::new(),
            source: String::new(),
        };
        assert(string_views(r.values@) =~= Seq::<Seq<char>>::empty());
        r
    }

    /// An identical parameter.
    pub fn copy(&self) -> (r: TemplateParameter)
        ensures
            r@ == self@,
    {
        TemplateParameter {
            name: self.name.clone(),
            label: self.label.clone(),
            kind: self.kind.clone(),
            required: self.required,
            default: self.default.clone(),
            values: copy_strings(&self.values),
            source: self.source.clone(),
        }
    }

    /// The label shown to the user, or the name when there is no label.
    pub fn label_or_name(&self) -> (r: &str)
        ensures
            r@ == spec_label_or_name(self@),
    {
        if self.label.as_str().is_empty() {
            self.name.as_str()
        } else {
            self.label.as_str()
        }
    }
}

impl Default for TemplateParameter {
    /// A parameter with every field empty.
    fn default() -> (r: Self)
        ensures
            r@ == (ParamView {
                name: Seq::empty(),
                label: Seq::empty(),
                kind: Seq::empty(),
                required: false,
                default: Seq::empty(),
                values: Seq::empty(),
                source: Seq::empty(),
            }),
    {
        TemplateParameter::named(String::new(), false)
    }
}

pub open spec fn spec_label_or_name(p: ParamView) -> Seq<char> {
    if p.label.len() == 0 { p.name } else { p.label }
}

/// A command template: either a legacy command line with `{name}` or
/// `<name>` placeholders, or structured tokens of which whole-token
/// `{name}` placeholders are parameters.
#[derive(Debug)]
pub struct CommandTemplate {
    pub id: String,
    pub name: String,
    pub command: String,
    pub tokens: Vec<String>,
    pub description: String,
    pub tags: Vec<String>,
    pub parameters: Vec<TemplateParameter>,
}

/// The value of a command template.
pub struct TemplateView {
    pub id: Seq<char>,
    pub name: Seq<char>,
    pub command: Seq<char>,
    pub tokens: Seq<Seq<char>>,
    pub description: Seq<char>,
    pub tags: Seq<Seq<char>>,
    pub parameters: Seq<ParamView>,
}

/// Values of a list of parameters.
pub open spec fn param_views(v: Seq<TemplateParameter>) -> Seq<ParamView> {
    v.map_values(|p: TemplateParameter| p@)
}

impl View for CommandTemplate {
    type V = TemplateView;

    open spec fn view(&self) -> TemplateView {
        TemplateView {
            id: self.id@,
            name: self.name@,
            command: self.command@,
            tokens: string_views(self.tokens@),
            description: self.description@,
            tags: string_views(self.tags@),
            parameters: param_views(self.parameters@),
        }
    }
}

/// Copies of a list of parameters.
pub fn copy_params(v: &Vec<TemplateParameter>) -> (r: Vec<TemplateParameter>)
    ensures
        param_views(r@) == param_views(v@),
{
    let mut r: Vec<TemplateParameter> = Vec::new();
    let mut i: usize = 0;
    while i < v.len()
        invariant
            i <= v@.len(),
            param_views(r@) == param_views(v@.take(i as int)),
        decreases v@.len() - i,
    {
        r.push(v[i].copy());
        assert(param_views(v@.take(i as int + 1)) =~= param_views(v@.take(i as int)).push(v@[i as int]@));
        assert(param_views(r@) =~= param_views(v@.take(i as int)).push(v@[i as int]@));
        i = i + 1;
    }
    assert(v@.take(i as int) =~= v@);
    r
}

impl CommandTemplate {
    /// An identical template.
    pub fn copy(&self) -> (r: CommandTemplate)
        ensures
            r@ == self@,
    {
        CommandTemplate {
            id: self.id.clone(),
            name: self.name.clone(),
            command: self.command.clone(),
            tokens: copy_strings(&self.tokens),
            description: self.description.clone(),
            tags: copy_strings(&self.tags),
            parameters: copy_params(&self.parameters),
        }
    }

    /// The command line a template shows: its tokens joined by spaces, or
    /// its legacy command.
    pub fn preview(&self) -> (r: String)
        ensures
            r@ == spec_preview(self@),
    {
        if self.tokens.len() == 0 {
            self.command.clone()
        } else {
            join_strings(&self.tokens, ' ')
        }
    }
}

impl Default for CommandTemplate {
    /// A template with every field empty.
    fn default() -> (r: Self)
        ensures
            r@ == (TemplateView {
                id: Seq::empty(),
                name: Seq::empty(),
                command: Seq::empty(),
                tokens: Seq::empty(),
                description: Seq::empty(),
                tags: Seq::empty(),
                parameters: Seq::empty(),
            }),
    {
        let r = CommandTemplate {
            id: String::new(),
            name: String::new(),
            command: String::new(),
            tokens: Vec::new(),
            description: String::new(),
            tags: Vec::new(),
            parameters: Vec::new(),
        };
        assert(string_views(r.tokens@) =~= Seq::<Seq<char>>::empty());
        assert(string_views(r.tags@) =~= Seq::<Seq<char>>::empty());
        assert(param_views(r.parameters@) =~= Seq::<ParamView>::empty());
        r
    }
}

pub open spec fn spec_preview(t: TemplateView) -> Seq<char> {
    if t.tokens.len() == 0 { t.command } else { join(t.tokens, ' ') }
}

/// Parts joined by a separator character.
pub open spec fn join(parts: Seq<Seq<char>>, sep: char) -> Seq<char>
    decreases parts.len(),
{
    if parts.len() == 0 {
        Seq::empty()
    } else if parts.len() == 1 {
        parts[0]
    } else {
        join(parts.drop_last(), sep) + seq![sep] + parts.last()
    }
}

/// Join strings with a separator character.
pub fn join_strings(parts: &Vec<String>, sep: char) -> (r: String)
    ensures
        r@ == join(string_views(parts@), sep),
{
    let mut r = String::new();
    let ghost v = string_views(parts@);
    let mut i: usize = 0;
    while i < parts.len()
        invariant
            v == string_views(parts@),
            i <= parts@.len(),
            r@ == join(v.take(i as int), sep),
        decreases parts@.len() - i,
    {
        assert(v.take(i as int + 1).drop_last() =~= v.take(i as int));
        if i > 0 {
            push_char(&mut r, sep);
        } else {
            assert(v.take(0) =~= Seq::<Seq<char>>::empty());
        }
        crate::text::push_str(&mut r, parts[i].as_str());
        i = i + 1;
    }
    assert(v.take(i as int) =~= v);
    r
}


proof fn lemma_decode_bare(v: Seq<char>, i: int)
    requires
        0 <= i <= v.len(),
        forall|k: int| 0 <= k < v.len() ==> is_token_char(#[trigger] v[k]),
    ensures
        crate::lexer::decode_from(v, i, '\0') == v.skip(i),
    decreases v.len() - i,
{
    if i < v.len() {
        lemma_decode_bare(v, i + 1);
        assert(is_token_char(v[i]));
        assert(v.skip(i) =~= seq![v[i]] + v.skip(i + 1));
    } else {
        assert(v.skip(i) =~= Seq::<char>::empty());
    }
}

/// A parameter value is written as one PowerShell token that reads back
/// as the value.
pub proof fn law_quoted_token_reads_back(v: Seq<char>)
    ensures
        crate::lexer::spec_decode(spec_quote_token(v)) == v,
{
    if v.len() > 0 && forall|i: int| 0 <= i < v.len() ==> is_token_char(#[trigger] v[i]) {
        lemma_decode_bare(v, 0);
        assert(v.skip(0) =~= v);
    } else {
        let s = spec_quote_token(v);
        assert(s.skip(1) =~= spec_escape(v, '\'') + seq!['\'']);
        crate::lexer::lemma_decode_escaped(s, 1, v, '\'', true);
        assert(s[0] == '\'');
    }
}

} // verus!
