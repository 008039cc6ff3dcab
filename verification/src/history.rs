//! Command history: PSReadLine history text, and the recent distinct
//! commands offered by the workbench.
use vstd::prelude::*;
use crate::text::{chars_of, is_blank, is_blank_str, split_on, string_of, string_views};

verus! {

/// A line without the `\r` of a `\r\n` ending.
pub open spec fn strip_cr(p: Seq<char>) -> Seq<char> {
    if p.len() > 0 && p.last() == '\r' { p.drop_last() } else { p }
}

/// The lines of a text as `str::lines` yields them: split at `\n`, a
/// `\r` before the `\n` removed, and no empty line after a final `\n`.
pub open spec fn std_lines(text: Seq<char>) -> Seq<Seq<char>> {
    let parts = split_on(text, '\n');
    let ended = parts.take(parts.len() - 1).map_values(|p: Seq<char>| strip_cr(p));
    let last = parts.last();
    if last.len() == 0 { ended } else { ended.push(last) }
}

/// What has been read of a history text: whether the first record is
/// still being skipped, the record being continued, and the records read.
pub struct HistoryRead {
    pub skipping: bool,
    pub current: Seq<char>,
    pub records: Seq<Seq<char>>,
}

/// One line of history read. A line ending in a backtick continues on the
/// next line; a record that is only white space is not kept (it is
/// continued by the next line instead).
pub open spec fn history_line(st: HistoryRead, line: Seq<char>) -> HistoryRead {
    if st.skipping {
        HistoryRead { skipping: line.len() > 0 && line.last() == '`', ..st }
    } else {
        let c = st.current + line;
        if c.len() > 0 && c.last() == '`' {
            HistoryRead { current: c.drop_last().push('\n'), ..st }
        } else if !is_blank(c) {
            HistoryRead { current: Seq::empty(), records: st.records.push(c), ..st }
        } else {
            HistoryRead { current: c, ..st }
        }
    }
}

pub open spec fn history_fold(lines: Seq<Seq<char>>, truncated: bool) -> HistoryRead
    decreases lines.len(),
{
    if lines.len() == 0 {
        HistoryRead { skipping: truncated, current: Seq::empty(), records: Seq::empty() }
    } else {
        history_line(history_fold(lines.drop_last(), truncated), lines.last())
    }
}

/// The records of a history text; when the text is the tail of a longer
/// file (`truncated`), the first record may have lost its start and is
/// skipped. At most the last `limit` records are kept; the flag tells
/// whether any record may be missing.
pub open spec fn spec_history_entries(text: Seq<char>, truncated: bool, limit: nat) -> (Seq<Seq<char>>, bool) {
    let st = history_fold(std_lines(text), truncated);
    let all = if !is_blank(st.current) { st.records.push(st.current) } else { st.records };
    let kept = if all.len() > limit { all.skip(all.len() - limit) } else { all };
    (kept, truncated || all.len() > limit)
}

fn std_lines_exec(text: &str) -> (r: Vec<Vec<char>>)
    ensures
        r@.map_values(|v: Vec<char>| v@) == std_lines(text@),
{
    let chars = chars_of(text);
    let parts = crate::text::split_char(chars.as_slice(), '\n');
    let ghost pv = parts@.map_values(|v: Vec<char>| v@);
    proof {
        crate::text::lemma_split_on_nonempty(text@, '\n');
    }
    let n = parts.len();
    let mut r: Vec<Vec<char>> = Vec::new();
    let mut i: usize = 0;
    while i + 1 < n
        invariant
            pv == parts@.map_values(|v: Vec<char>| v@),
            n == pv.len(),
            n >= 1,
            i <= n - 1,
            r@.map_values(|v: Vec<char>| v@) == pv.take(i as int).map_values(|p: Seq<char>| strip_cr(p)),
        decreases n - i,
    {
        let mut p = crate::paths::copy_range(&parts[i], 0, parts[i].len());
        assert(p@ =~= pv[i as int]);
        let m = p.len();
        if m > 0 && p[m - 1] == '\r' {
            p.pop();
        }
        let ghost before = r@.map_values(|v: Vec<char>| v@);
        let ghost pvv = p@;
        r.push(p);
        assert(r@.map_values(|v: Vec<char>| v@) =~= before.push(pvv));
        assert(pv.take(i as int + 1).map_values(|p: Seq<char>| strip_cr(p)) =~= pv.take(i as int).map_values(|p: Seq<char>| strip_cr(p)).push(strip_cr(pv[i as int])));
        i = i + 1;
    }
    let last = &parts[n - 1];
    if last.len() > 0 {
        let ghost before = r@.map_values(|v: Vec<char>| v@);
        let l = crate::paths::copy_range(last, 0, last.len());
        assert(l@ =~= pv.last());
        r.push(l);
        assert(r@.map_values(|v: Vec<char>| v@) =~= before.push(pv.last()));
    }
    r
}

/// Read the records of PSReadLine history text.
pub fn history_entries(text: &str, truncated: bool, limit: usize) -> (r: (Vec<String>, bool))
    ensures
        string_views(r.0@) == spec_history_entries(text@, truncated, limit as nat).0,
        r.1 == spec_history_entries(text@, truncated, limit as nat).1,
{
    let lines = std_lines_exec(text);
    let ghost lv = lines@.map_values(|v: Vec<char>| v@);
    let mut skipping = truncated;
    let mut current: Vec<char> = Vec::new();
    let mut records: Vec<String> = Vec::new();
    let mut i: usize = 0;
    assert(string_views(records@) =~= Seq::<Seq<char>>::empty());
    while i < lines.len()
        invariant
            lv == lines@.map_values(|v: Vec<char>| v@),
            i <= lv.len(),
            history_fold(lv.take(i as int), truncated) == (HistoryRead { skipping, current: current@, records: string_views(records@) }),
        decreases lv.len() - i,
    {
        assert(lv.take(i as int + 1).drop_last() =~= lv.take(i as int));
        assert(lv.take(i as int + 1).last() == lines@[i as int]@);
        let line = &lines[i];
        if skipping {
            skipping = line.len() > 0 && line[line.len() - 1] == '`';
        } else {
            let ghost before = current@;
            let mut k: usize = 0;
            while k < line.len()
                invariant
                    k <= line@.len(),
                    current@ == before + line@.take(k as int),
                decreases line@.len() - k,
            {
                current.push(line[k]);
                assert(line@.take(k as int + 1) =~= line@.take(k as int).push(line@[k as int]));
                k = k + 1;
            }
            assert(line@.take(k as int) =~= line@);
            let m = current.len();
            if m > 0 && current[m - 1] == '`' {
                current.pop();
                current.push('\n');
            } else {
                let s = string_of(current.as_slice());
                if !is_blank_str(s.as_str()) {
                    let ghost rv = string_views(records@);
                    records.push(s);
                    assert(string_views(records@) =~= rv.push(current@));
                    current = Vec::new();
                }
            }
        }
        i = i + 1;
    }
    assert(lv.take(i as int) =~= lv);
    let s = string_of(current.as_slice());
    if !is_blank_str(s.as_str()) {
        let ghost rv = string_views(records@);
        records.push(s);
        assert(string_views(records@) =~= rv.push(current@));
    }
    let total = records.len();
    let partial = truncated || total > limit;
    if total > limit {
        let ghost all = string_views(records@);
        let mut kept: Vec<String> = Vec::new();
        let mut j: usize = total - limit;
        assert(string_views(kept@) =~= all.subrange(total - limit, total - limit));
        while j < total
            invariant
                all == string_views(records@),
                total == all.len(),
                limit < total,
                total - limit <= j <= total,
                string_views(kept@) == all.subrange(total - limit, j as int),
            decreases total - j,
        {
            let ghost before = string_views(kept@);
            kept.push(records[j].clone());
            assert(string_views(kept@) =~= before.push(all[j as int]));
            assert(all.subrange(total - limit, j as int + 1) =~= all.subrange(total - limit, j as int).push(all[j as int]));
            j = j + 1;
        }
        assert(all.subrange(total - limit, total as int) =~= all.skip(total - limit));
        (kept, partial)
    } else {
        (records, partial)
    }
}

/// The most recent distinct commands that are not blank, newest first, at
/// most `limit` of them: the elements of `newest_first` in order, each
/// kept when it is not blank, not kept already, and fewer than `limit`
/// are kept.
pub open spec fn recent_distinct(newest_first: Seq<Seq<char>>, limit: nat) -> Seq<Seq<char>>
    decreases newest_first.len(),
{
    if newest_first.len() == 0 {
        Seq::empty()
    } else {
        let acc = recent_distinct(newest_first.drop_last(), limit);
        let x = newest_first.last();
        if acc.len() < limit && !is_blank(x) && !acc.contains(x) { acc.push(x) } else { acc }
    }
}

/// A sequence newest first.
pub open spec fn newest_first(v: Seq<Seq<char>>) -> Seq<Seq<char>> {
    Seq::new(v.len(), |i: int| v[v.len() - 1 - i])
}

/// Recent history for the workbench: the records read from the history
/// file (and whether some may be missing) followed by the commands of the
/// current session, newest first, blank and repeated ones left out, at
/// most `limit`.
pub fn merged_history_with_status(limit: usize, session: &Vec<String>, file: (Vec<String>, bool)) -> (r: (Vec<String>, bool))
    ensures
        string_views(r.0@) == recent_distinct(newest_first(string_views(file.0@) + string_views(session@)), limit as nat),
        r.1 == file.1,
{
    let (mut lines, partial) = file;
    let ghost start = string_views(lines@);
    let mut k: usize = 0;
    while k < session.len()
        invariant
            k <= session@.len(),
            string_views(lines@) == start + string_views(session@).take(k as int),
        decreases session@.len() - k,
    {
        let ghost before = string_views(lines@);
        lines.push(session[k].clone());
        assert(string_views(lines@) =~= before.push(session@[k as int]@));
        assert(string_views(session@).take(k as int + 1) =~= string_views(session@).take(k as int).push(session@[k as int]@));
        k = k + 1;
    }
    assert(string_views(session@).take(k as int) =~= string_views(session@));
    let ghost all = string_views(lines@);
    let ghost rev = newest_first(all);
    let n = lines.len();
    let mut out: Vec<String> = Vec::new();
    let mut i: usize = 0;
    assert(string_views(out@) =~= recent_distinct(rev.take(0), limit as nat));
    while i < n
        invariant
            all == string_views(lines@),
            rev == newest_first(all),
            n == all.len(),
            i <= n,
            string_views(out@) == recent_distinct(rev.take(i as int), limit as nat),
        decreases n - i,
    {
        assert(rev.take(i as int + 1).drop_last() =~= rev.take(i as int));
        assert(rev[i as int] == lines@[n - 1 - i]@);
        let x = &lines[n - 1 - i];
        if out.len() < limit && !is_blank_str(x.as_str()) {
            let xc = chars_of(x.as_str());
            if !crate::forms::contains_string(&out, &xc) {
                let ghost before = string_views(out@);
                out.push(x.clone());
                assert(string_views(out@) =~= before.push(x@));
            }
        }
        i = i + 1;
    }
    assert(rev.take(n as int) =~= rev);
    (out, partial)
}

/// Recent history for the workbench, without the status.
pub fn merged_history(limit: usize, session: &Vec<String>, file: (Vec<String>, bool)) -> (r: Vec<String>)
    ensures
        string_views(r@) == recent_distinct(newest_first(string_views(file.0@) + string_views(session@)), limit as nat),
{
    merged_history_with_status(limit, session, file).0
}


/// Recent history holds at most `limit` commands, none blank, none twice,
/// each one of the given commands.
pub proof fn law_recent_history_is_distinct(newest: Seq<Seq<char>>, limit: nat)
    ensures
        recent_distinct(newest, limit).len() <= limit,
        forall|i: int| 0 <= i < recent_distinct(newest, limit).len() ==> !is_blank(#[trigger] recent_distinct(newest, limit)[i])
            && newest.contains(recent_distinct(newest, limit)[i]),
        forall|i: int, j: int| 0 <= i < j < recent_distinct(newest, limit).len()
            ==> #[trigger] recent_distinct(newest, limit)[i] != #[trigger] recent_distinct(newest, limit)[j],
    decreases newest.len(),
{
    if newest.len() > 0 {
        law_recent_history_is_distinct(newest.drop_last(), limit);
        let acc = recent_distinct(newest.drop_last(), limit);
        let r = recent_distinct(newest, limit);
        assert forall|i: int| 0 <= i < acc.len() implies newest.contains(#[trigger] acc[i]) by {
            let k = choose|k: int| 0 <= k < newest.drop_last().len() && newest.drop_last()[k] == acc[i];
            assert(newest[k] == acc[i]);
        }
        if r.len() > acc.len() {
            assert(newest[newest.len() - 1] == newest.last());
            assert forall|i: int, j: int| 0 <= i < j < r.len() implies #[trigger] r[i] != #[trigger] r[j] by {
                if j == r.len() - 1 {
                    assert(r[j] == newest.last());
                    assert(r[i] == acc[i]);
                }
            }
        }
    }
}

} // verus!
