//! Local command help: terminal text cleaned of escape sequences, one-line
//! summaries, and the documented options and subcommands of a help page.
use vstd::prelude::*;
use crate::model::Candidate;
use crate::text::{
    chars_of, is_control, lower, lower_chars, push_char, spec_is_control, str_eq, string_of, string_of_range, trim, trim_chars, chars_eq, starts_with, chars_start_with, has_char, chars_contain, split_on,
};

verus! {

/// One past the final byte (`@` to `~`) of a control sequence whose
/// parameters start at `k`, or the end of the text.
pub open spec fn csi_end(s: Seq<char>, k: int) -> int
    decreases s.len() - k,
{
    if k < 0 || k >= s.len() {
        s.len() as int
    } else if '@' <= s[k] <= '~' {
        k + 1
    } else {
        csi_end(s, k + 1)
    }
}

/// One past the terminator (BEL, or ESC and the character after it when
/// that is `\`) of an operating-system command whose text starts at `k`,
/// or the end of the text.
pub open spec fn osc_end(s: Seq<char>, k: int) -> int
    decreases s.len() - k,
{
    if k < 0 || k >= s.len() {
        s.len() as int
    } else if s[k] == '\x07' {
        k + 1
    } else if s[k] == '\x1b' {
        if k + 1 >= s.len() {
            s.len() as int
        } else if s[k + 1] == '\\' {
            k + 2
        } else {
            osc_end(s, k + 2)
        }
    } else {
        osc_end(s, k + 1)
    }
}

pub proof fn lemma_csi_end(s: Seq<char>, k: int)
    requires
        0 <= k <= s.len(),
    ensures
        k <= csi_end(s, k) <= s.len(),
    decreases s.len() - k,
{
    if k < s.len() && !('@' <= s[k] <= '~') {
        lemma_csi_end(s, k + 1);
    }
}

pub proof fn lemma_osc_end(s: Seq<char>, k: int)
    requires
        0 <= k <= s.len(),
    ensures
        k <= osc_end(s, k) <= s.len(),
    decreases s.len() - k,
{
    if k < s.len() && s[k] != '\x07' {
        if s[k] == '\x1b' {
            if k + 1 < s.len() && s[k + 1] != '\\' {
                lemma_osc_end(s, k + 2);
            }
        } else {
            lemma_osc_end(s, k + 1);
        }
    }
}

/// A character kept by [`clean`]: newline, tab, or any non-control character.
pub open spec fn kept(c: char) -> bool {
    c == '\n' || c == '\t' || !spec_is_control(c)
}

/// `s[i..]` without control sequences, operating-system commands, other
/// escapes (ESC and the character after it) and control characters other
/// than newline and tab.
pub open spec fn clean_from(s: Seq<char>, i: int) -> Seq<char>
    decreases s.len() - i,
{
    if i < 0 || i >= s.len() {
        Seq::empty()
    } else if s[i] == '\x1b' {
        if i + 1 >= s.len() {
            Seq::empty()
        } else if s[i + 1] == '[' {
            proof {
                lemma_csi_end(s, i + 2);
            }
            clean_from(s, csi_end(s, i + 2))
        } else if s[i + 1] == ']' {
            proof {
                lemma_osc_end(s, i + 2);
            }
            clean_from(s, osc_end(s, i + 2))
        } else {
            clean_from(s, i + 2)
        }
    } else if kept(s[i]) {
        seq![s[i]] + clean_from(s, i + 1)
    } else {
        clean_from(s, i + 1)
    }
}

/// Terminal text as plain text.
pub open spec fn spec_clean(s: Seq<char>) -> Seq<char> {
    clean_from(s, 0)
}

fn csi_end_exec(s: &Vec<char>, from: usize) -> (r: usize)
    requires
        from <= s@.len(),
    ensures
        r == csi_end(s@, from as int),
{
    let ghost start = from as int;
    let mut k = from;
    while k < s.len()
        invariant
            k <= s@.len(),
            start == from,
            csi_end(s@, start) == csi_end(s@, k as int),
        decreases s@.len() - k,
    {
        if '@' <= s[k] && s[k] <= '~' {
            return k + 1;
        }
        k = k + 1;
    }
    k
}

fn osc_end_exec(s: &Vec<char>, from: usize) -> (r: usize)
    requires
        from <= s@.len(),
    ensures
        r == osc_end(s@, from as int),
{
    let ghost start = from as int;
    let mut k = from;
    let n = s.len();
    while k < n
        invariant
            n == s@.len(),
            k <= n,
            start == from,
            osc_end(s@, start) == osc_end(s@, k as int),
        decreases n - k,
    {
        if s[k] == '\x07' {
            return k + 1;
        } else if s[k] == '\x1b' {
            if k + 1 >= n {
                return n;
            }
            if s[k + 1] == '\\' {
                return k + 2;
            }
            k = k + 2;
        } else {
            k = k + 1;
        }
    }
    n
}

/// Remove terminal escape sequences and control characters other than
/// newline and tab.
pub fn clean(text: &str) -> (r: String)
    ensures
        r@ == spec_clean(text@),
{
    let s = chars_of(text);
    let n = s.len();
    let mut r = String::new();
    let mut i: usize = 0;
    while i < n
        invariant
            n == s@.len(),
            s@ == text@,
            i <= n,
            r@ + clean_from(s@, i as int) == spec_clean(s@),
        decreases n - i,
    {
        let c = s[i];
        if c == '\x1b' {
            if i + 1 >= n {
                i = n;
            } else if s[i + 1] == '[' {
                proof {
                    lemma_csi_end(s@, i as int + 2);
                }
                i = csi_end_exec(&s, i + 2);
            } else if s[i + 1] == ']' {
                proof {
                    lemma_osc_end(s@, i as int + 2);
                }
                i = osc_end_exec(&s, i + 2);
            } else {
                i = i + 2;
            }
        } else {
            if c == '\n' || c == '\t' || !is_control(c) {
                let ghost before = r@;
                push_char(&mut r, c);
                assert(r@ + clean_from(s@, i as int + 1) =~= before + (seq![c] + clean_from(s@, i as int + 1)));
            }
            i = i + 1;
        }
    }
    assert(r@ + clean_from(s@, i as int) =~= r@);
    r
}


/// The first line that is not blank, trimmed.
pub open spec fn first_line(lines: Seq<Seq<char>>) -> Option<Seq<char>>
    decreases lines.len(),
{
    if lines.len() == 0 {
        None
    } else {
        match first_line(lines.drop_last()) {
            Some(l) => Some(l),
            None => if trim(lines.last()).len() > 0 { Some(trim(lines.last())) } else { None },
        }
    }
}

/// A first line that says nothing about the command: the command's own
/// name, a placeholder text, or a path.
pub open spec fn uninformative(line: Seq<char>, label: Seq<char>) -> bool {
    ||| lower(line) == lower(label)
    ||| line == "参数选项"@
    ||| starts_with(line, "用途暂未收录"@)
    ||| starts_with(line, "\\\\"@)
    ||| starts_with(line, "/:"@)
    ||| (line.len() >= 3 && (line[0] as u32) < 128 && line[1] == ':' && (line[2] == '\\' || line[2] == '/'))
    ||| (line.len() > 0 && line[0] == '/' && !has_char(line, ' '))
}

/// Index of the first `c` in `s`.
pub open spec fn index_of(s: Seq<char>, c: char) -> Option<int>
    decreases s.len(),
{
    if s.len() == 0 {
        None
    } else {
        match index_of(s.drop_last(), c) {
            Some(k) => Some(k),
            None => if s.last() == c { Some(s.len() - 1) } else { None },
        }
    }
}

/// A `. ` starts at `j`.
pub open spec fn stop_at(s: Seq<char>, j: int) -> bool {
    s[j] == '.' && s[j + 1] == ' '
}

/// Index of the first `. ` in `s`.
pub open spec fn index_of_stop(s: Seq<char>) -> Option<int>
    decreases s.len(),
{
    if s.len() < 2 {
        None
    } else {
        match index_of_stop(s.drop_last()) {
            Some(k) => Some(k),
            None => if s[s.len() - 2] == '.' && s.last() == ' ' { Some(s.len() - 2) } else { None },
        }
    }
}

/// Where the first sentence of a line ends: after the first `。`, else
/// after the `.` of the first `. `, else at the end.
pub open spec fn sentence_end(line: Seq<char>) -> int {
    match index_of(line, '。') {
        Some(k) => k + 1,
        None => match index_of_stop(line) {
            Some(k) => k + 1,
            None => line.len() as int,
        },
    }
}

/// The one-sentence summary of help text for the command `label`: the
/// first sentence of its first non-blank line, at most 240 characters,
/// unless that line says nothing about the command.
pub open spec fn spec_synopsis(label: Seq<char>, text: Seq<char>) -> Option<Seq<char>> {
    match first_line(split_on(spec_clean(text), '\n')) {
        None => None,
        Some(line) => if uninformative(line, label) {
            None
        } else {
            let end = sentence_end(line);
            Some(line.take(if end < 240 { end } else { 240 }))
        },
    }
}

pub proof fn lemma_index_of(s: Seq<char>, c: char)
    ensures
        index_of(s, c) matches Some(k) ==> 0 <= k < s.len() && s[k] == c && forall|j: int| 0 <= j < k ==> s[j] != c,
        index_of(s, c) is None ==> forall|j: int| 0 <= j < s.len() ==> s[j] != c,
    decreases s.len(),
{
    if s.len() > 0 {
        lemma_index_of(s.drop_last(), c);
        assert forall|j: int| 0 <= j < s.len() - 1 implies s.drop_last()[j] == s[j] by {}
    }
}

pub proof fn lemma_index_of_stop(s: Seq<char>)
    ensures
        index_of_stop(s) matches Some(k) ==> 0 <= k && k + 1 < s.len() && s[k] == '.' && s[k + 1] == ' '
            && forall|j: int| 0 <= j < k ==> !#[trigger] stop_at(s, j),
        index_of_stop(s) is None ==> forall|j: int| 0 <= j && j + 1 < s.len() ==> !#[trigger] stop_at(s, j),
    decreases s.len(),
{
    if s.len() >= 2 {
        lemma_index_of_stop(s.drop_last());
        assert forall|j: int| 0 <= j < s.len() - 1 implies s.drop_last()[j] == s[j] by {}
        assert forall|j: int| 0 <= j && j + 1 < s.len() - 1 implies stop_at(s.drop_last(), j) == stop_at(s, j) by {}
    }
}

pub(crate) fn index_of_exec(s: &Vec<char>, c: char) -> (r: Option<usize>)
    ensures
        match index_of(s@, c) {
            Some(k) => r is Some && r->Some_0 == k,
            None => r is None,
        },
{
    proof {
        lemma_index_of(s@, c);
    }
    let mut i: usize = 0;
    while i < s.len()
        invariant
            i <= s@.len(),
            forall|j: int| 0 <= j < i ==> s@[j] != c,
        decreases s@.len() - i,
    {
        if s[i] == c {
            proof {
                lemma_index_of(s@, c);
                if let Some(k) = index_of(s@, c) {
                    if k > i {
                        assert(s@[i as int] != c);
                    }
                }
            }
            return Some(i);
        }
        i = i + 1;
    }
    None
}

fn index_of_stop_exec(s: &Vec<char>) -> (r: Option<usize>)
    ensures
        match index_of_stop(s@) {
            Some(k) => r is Some && r->Some_0 == k,
            None => r is None,
        },
{
    proof {
        lemma_index_of_stop(s@);
    }
    let n = s.len();
    if n < 2 {
        return None;
    }
    let mut i: usize = 0;
    while i < n - 1
        invariant
            n == s@.len(),
            n >= 2,
            i <= n - 1,
            forall|j: int| 0 <= j < i ==> !#[trigger] stop_at(s@, j),
        decreases n - i,
    {
        if s[i] == '.' && s[i + 1] == ' ' {
            proof {
                lemma_index_of_stop(s@);
                assert(stop_at(s@, i as int));
                if let Some(k) = index_of_stop(s@) {
                    if k < i {
                        assert(!stop_at(s@, k));
                    }
                }
            }
            return Some(i);
        }
        i = i + 1;
    }
    proof {
        lemma_index_of_stop(s@);
        if let Some(k) = index_of_stop(s@) {
            assert(stop_at(s@, k));
        }
    }
    None
}

fn first_line_exec(lines: &Vec<Vec<char>>) -> (r: Option<Vec<char>>)
    ensures
        match first_line(lines@.map_values(|v: Vec<char>| v@)) {
            Some(l) => r matches Some(x) && x@ == l,
            None => r is None,
        },
{
    let ghost lv = lines@.map_values(|v: Vec<char>| v@);
    let mut i: usize = 0;
    while i < lines.len()
        invariant
            lv == lines@.map_values(|v: Vec<char>| v@),
            i <= lv.len(),
            first_line(lv.take(i as int)) is None,
        decreases lv.len() - i,
    {
        assert(lv.take(i as int + 1).drop_last() =~= lv.take(i as int));
        let t = trim_chars(lines[i].as_slice());
        if t.len() > 0 {
            proof {
                lemma_first_line_prefix(lv, i as int + 1);
            }
            return Some(t);
        }
        i = i + 1;
    }
    assert(lv.take(i as int) =~= lv);
    None
}

proof fn lemma_first_line_prefix(lines: Seq<Seq<char>>, n: int)
    requires
        0 <= n <= lines.len(),
        first_line(lines.take(n)) is Some,
    ensures
        first_line(lines) == first_line(lines.take(n)),
    decreases lines.len() - n,
{
    if n < lines.len() {
        assert(lines.take(n + 1).drop_last() =~= lines.take(n));
        lemma_first_line_prefix(lines, n + 1);
    } else {
        assert(lines.take(n) =~= lines);
    }
}

/// The one-sentence summary of a command's help text, or `None` when the
/// first line says nothing about it.
pub fn synopsis(label: &str, text: &str) -> (r: Option<String>)
    ensures
        match spec_synopsis(label@, text@) {
            Some(x) => r matches Some(y) && y@ == x,
            None => r is None,
        },
{
    let cleaned = clean(text);
    let cc = chars_of(cleaned.as_str());
    let lines = crate::text::split_char(cc.as_slice(), '\n');
    let line = match first_line_exec(&lines) {
        Some(l) => l,
        None => return None,
    };
    let lc = chars_of(label);
    let ll = lower_chars(line.as_slice());
    let lb = lower_chars(lc.as_slice());
    let n = line.len();
    let ascii_drive = n >= 3 && (line[0] as u32) < 128 && line[1] == ':' && (line[2] == '\\' || line[2] == '/');
    let rooted = n > 0 && line[0] == '/' && !chars_contain(line.as_slice(), ' ');
    let p1 = chars_of("用途暂未收录");
    let p2 = chars_of("\\\\");
    let p3 = chars_of("/:");
    let ls = string_of(line.as_slice());
    if chars_eq(ll.as_slice(), lb.as_slice()) || str_eq(ls.as_str(), "参数选项")
        || chars_start_with(line.as_slice(), p1.as_slice()) || chars_start_with(line.as_slice(), p2.as_slice())
        || chars_start_with(line.as_slice(), p3.as_slice()) || ascii_drive || rooted {
        return None;
    }
    proof {
        lemma_index_of(line@, '。');
        lemma_index_of_stop(line@);
    }
    let end: usize = match index_of_exec(&line, '。') {
        Some(k) => k + 1,
        None => match index_of_stop_exec(&line) {
            Some(k) => k + 1,
            None => n,
        },
    };
    proof {
        lemma_index_of(line@, '。');
        lemma_index_of_stop(line@);
    }
    let take = if end < 240 { end } else { 240 };
    Some(string_of_range(line.as_slice(), 0, take))
}

/// Whether text holds a CJK ideograph (U+3400 to U+9FFF).
pub open spec fn has_cjk(s: Seq<char>) -> bool {
    exists|i: int| 0 <= i < s.len() && '\u{3400}' <= #[trigger] s[i] <= '\u{9fff}'
}

fn has_cjk_exec(s: &str) -> (r: bool)
    ensures
        r == has_cjk(s@),
{
    let c = chars_of(s);
    let mut i: usize = 0;
    while i < c.len()
        invariant
            c@ == s@,
            i <= c@.len(),
            forall|j: int| 0 <= j < i ==> !('\u{3400}' <= #[trigger] c@[j] <= '\u{9fff}'),
        decreases c@.len() - i,
    {
        if '\u{3400}' <= c[i] && c[i] <= '\u{9fff}' {
            return true;
        }
        i = i + 1;
    }
    false
}

/// Where a description comes from, once annotated: its own source, the
/// candidate's source, or `builtin`.
pub open spec fn annotated_source(c: Candidate) -> Seq<char> {
    if c.description_source@.len() > 0 {
        c.description_source@
    } else if c.source@.len() > 0 {
        c.source@
    } else {
        "builtin"@
    }
}

/// The language of a description: `zh` when it holds CJK ideographs.
pub open spec fn description_language(d: Seq<char>) -> Seq<char> {
    if has_cjk(d) { "zh"@ } else { "en"@ }
}

/// Fill in where a candidate's description comes from and its language.
pub fn annotate(candidate: &mut Candidate)
    ensures
        final(candidate).description_source@ == annotated_source(*old(candidate)),
        final(candidate).language@ == description_language(old(candidate).description@),
        final(candidate).label == old(candidate).label,
        final(candidate).insert_text == old(candidate).insert_text,
        final(candidate).description == old(candidate).description,
        final(candidate).kind == old(candidate).kind,
        final(candidate).match_reason == old(candidate).match_reason,
        final(candidate).id == old(candidate).id,
        final(candidate).source == old(candidate).source,
        final(candidate).detail == old(candidate).detail,
        final(candidate).append_space == old(candidate).append_space,
{
    if candidate.description_source.as_str().is_empty() {
        candidate.description_source = if candidate.source.as_str().is_empty() {
            "builtin".to_owned()
        } else {
            candidate.source.clone()
        };
    }
    candidate.language = if has_cjk_exec(candidate.description.as_str()) {
        "zh".to_owned()
    } else {
        "en".to_owned()
    };
}

/// Use a PowerShell tooltip as description: its summary (or `原生补全`
/// when it has none), with the cleaned tooltip as detail.
pub fn native_description(candidate: &mut Candidate)
    ensures
        ({
            let original = spec_clean(old(candidate).description@);
            let d = match spec_synopsis(old(candidate).label@, original) {
                Some(x) => x,
                None => "原生补全"@,
            };
            &&& final(candidate).description@ == d
            &&& final(candidate).detail@ == original
            &&& final(candidate).description_source@ == "PowerShell ToolTip"@
            &&& final(candidate).language@ == description_language(d)
        }),
        final(candidate).label == old(candidate).label,
        final(candidate).insert_text == old(candidate).insert_text,
        final(candidate).kind == old(candidate).kind,
        final(candidate).match_reason == old(candidate).match_reason,
        final(candidate).id == old(candidate).id,
        final(candidate).source == old(candidate).source,
        final(candidate).append_space == old(candidate).append_space,
{
    let original = clean(candidate.description.as_str());
    candidate.description = match synopsis(candidate.label.as_str(), original.as_str()) {
        Some(x) => x,
        None => "原生补全".to_owned(),
    };
    candidate.detail = original;
    candidate.description_source = "PowerShell ToolTip".to_owned();
    proof {
        reveal_strlit("PowerShell ToolTip");
    }
    annotate(candidate);
}


proof fn lemma_clean_from_kept(s: Seq<char>, i: int)
    requires
        0 <= i,
    ensures
        forall|k: int| 0 <= k < clean_from(s, i).len() ==> kept(#[trigger] clean_from(s, i)[k]),
    decreases s.len() - i,
{
    if i < s.len() {
        if s[i] == '\x1b' {
            if i + 1 < s.len() {
                if s[i + 1] == '[' {
                    lemma_csi_end(s, i + 2);
                    lemma_clean_from_kept(s, csi_end(s, i + 2));
                    assert(clean_from(s, i) == clean_from(s, csi_end(s, i + 2)));
                } else if s[i + 1] == ']' {
                    lemma_osc_end(s, i + 2);
                    lemma_clean_from_kept(s, osc_end(s, i + 2));
                    assert(clean_from(s, i) == clean_from(s, osc_end(s, i + 2)));
                } else {
                    lemma_clean_from_kept(s, i + 2);
                    assert(clean_from(s, i) == clean_from(s, i + 2));
                }
            }
        } else {
            lemma_clean_from_kept(s, i + 1);
            if !kept(s[i]) {
                assert(clean_from(s, i) == clean_from(s, i + 1));
            } else {
                let r = clean_from(s, i);
                assert forall|k: int| 0 <= k < r.len() implies kept(#[trigger] r[k]) by {
                    if k > 0 {
                        assert(r[k] == clean_from(s, i + 1)[k - 1]);
                    }
                }
            }
        }
    }
}

/// Cleaned text holds no escape or control character other than newline
/// and tab.
pub proof fn law_clean_text_has_no_controls(s: Seq<char>)
    ensures
        forall|k: int| 0 <= k < spec_clean(s).len() ==> kept(#[trigger] spec_clean(s)[k]),
{
    lemma_clean_from_kept(s, 0);
}

} // verus!
