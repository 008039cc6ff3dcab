//! How many terminal rows text takes, by the displayed width of its
//! grapheme clusters.
use vstd::prelude::*;
use unicode_segmentation::UnicodeSegmentation;
use unicode_width::UnicodeWidthStr;
use crate::text::{chars_of, split_char, split_on, string_of, string_views};

verus! {

/// The extended grapheme clusters of a text.
pub uninterp spec fn grapheme_clusters(s: Seq<char>) -> Seq<Seq<char>>;

/// The displayed width of a text in terminal columns.
pub uninterp spec fn text_width(s: Seq<char>) -> nat;

/// `UnicodeSegmentation::graphemes(s, true)` of `unicode_segmentation`:
/// the extended grapheme clusters of `s`, in order. Their boundaries
/// follow the Unicode segmentation tables and are named, not stated.
#[verifier::external_body]
fn graphemes(s: &str) -> (r: Vec<String>)
    ensures
        string_views(r@) == grapheme_clusters(s@),
{
    s.graphemes(true).map(|g| g.to_owned()).collect()
}

/// `UnicodeWidthStr::width` of `unicode_width`: the displayed width of `s`
/// in columns. It follows the Unicode width tables and is named, not
/// stated.
#[verifier::external_body]
fn display_width(s: &str) -> (r: usize)
    ensures
        r as nat == text_width(s@),
{
    UnicodeWidthStr::width(s)
}

/// The total width of a list of grapheme clusters.
pub open spec fn widths_sum(gs: Seq<Seq<char>>) -> nat
    decreases gs.len(),
{
    if gs.len() == 0 { 0 } else { widths_sum(gs.drop_last()) + text_width(gs.last()) }
}

/// `a / b` rounded up.
pub open spec fn ceil_div(a: nat, b: nat) -> nat {
    if b == 0 { 0 } else { ((a + b - 1) / (b as int)) as nat }
}

/// The rows one line takes at `width` columns: its clusters' widths added
/// up, divided by the width and rounded up.
pub open spec fn line_rows(line: Seq<char>, width: nat) -> nat {
    ceil_div(widths_sum(grapheme_clusters(line)), width)
}

/// The rows a list of lines takes.
pub open spec fn lines_rows(lines: Seq<Seq<char>>, width: nat) -> nat
    decreases lines.len(),
{
    if lines.len() == 0 { 0 } else { lines_rows(lines.drop_last(), width) + line_rows(lines.last(), width) }
}

/// How many line feeds a text holds.
pub open spec fn newlines(s: Seq<char>) -> nat
    decreases s.len(),
{
    if s.len() == 0 { 0 } else { newlines(s.drop_last()) + if s.last() == '\n' { 1nat } else { 0 } }
}

/// The rows the text after the cursor may take at `width` columns (at
/// least one): each of its lines rounded up to whole rows, plus one row per
/// line feed, a conservative bound for a cursor in an unknown column.
pub open spec fn spec_tail_rows(tail: Seq<char>, width: u16) -> nat {
    let w: nat = if width == 0 { 1 } else { width as nat };
    lines_rows(split_on(tail, '\n'), w) + newlines(tail)
}

proof fn lemma_product_bound(i: int, m: int)
    requires
        0 <= i <= m,
        m <= 0xffff_ffff_ffff_ffff,
    ensures
        i * m <= m * m,
        m * m + 0x1_0000 <= u128::MAX,
{
    assert(i * m <= m * m) by (nonlinear_arith)
        requires 0 <= i <= m;
    assert(m * m <= 0xffff_ffff_ffff_ffff * 0xffff_ffff_ffff_ffff) by (nonlinear_arith)
        requires 0 <= m <= 0xffff_ffff_ffff_ffff;
}

fn line_rows_exec(line: &str, width: u16) -> (r: u128)
    requires
        width >= 1,
    ensures
        r as nat == line_rows(line@, width as nat),
{
    let clusters = graphemes(line);
    let ghost gs = string_views(clusters@);
    let mut total: u128 = 0;
    let mut i: usize = 0;
    let m: u128 = usize::MAX as u128;
    while i < clusters.len()
        invariant
            gs == string_views(clusters@),
            i <= clusters@.len(),
            m == usize::MAX as u128,
            total as nat == widths_sum(gs.take(i as int)),
            total <= i as u128 * m,
        decreases clusters@.len() - i,
    {
        let w = display_width(clusters[i].as_str());
        proof {
            assert(gs.take(i as int + 1).drop_last() =~= gs.take(i as int));
            assert(gs[i as int] == clusters@[i as int]@);
            lemma_product_bound(i as int + 1, usize::MAX as int);
            assert((i as int + 1) * (usize::MAX as int) == (i as int) * (usize::MAX as int) + usize::MAX as int) by (nonlinear_arith);
        }
        total = total + w as u128;
        i = i + 1;
    }
    assert(gs.take(i as int) =~= gs);
    proof {
        lemma_product_bound(i as int, usize::MAX as int);
    }
    let w = width as u128;
    let rows = (total + w - 1) / w;
    rows
}

fn count_newlines(s: &Vec<char>) -> (r: usize)
    ensures
        r as nat == newlines(s@),
{
    let mut n: usize = 0;
    let mut i: usize = 0;
    while i < s.len()
        invariant
            i <= s@.len(),
            n <= i,
            n as nat == newlines(s@.take(i as int)),
        decreases s@.len() - i,
    {
        assert(s@.take(i as int + 1).drop_last() =~= s@.take(i as int));
        if s[i] == '\n' {
            n = n + 1;
        }
        i = i + 1;
    }
    assert(s@.take(i as int) =~= s@);
    n
}

/// The rows the text after the cursor may take at `width` columns (see
/// [`spec_tail_rows`]), at most `usize::MAX`.
pub fn tail_rows(tail: &str, width: u16) -> (r: usize)
    ensures
        r as nat == if spec_tail_rows(tail@, width) < usize::MAX { spec_tail_rows(tail@, width) } else { usize::MAX as nat },
{
    let w: u16 = if width == 0 { 1 } else { width };
    let chars = chars_of(tail);
    let lines = split_char(chars.as_slice(), '\n');
    let ghost ls = lines@.map_values(|v: Vec<char>| v@);
    let cap: u128 = usize::MAX as u128;
    let mut total: u128 = 0;
    let mut i: usize = 0;
    while i < lines.len()
        invariant
            ls == lines@.map_values(|v: Vec<char>| v@),
            i <= lines@.len(),
            cap == usize::MAX as u128,
            w >= 1,
            total as nat == if lines_rows(ls.take(i as int), w as nat) < cap { lines_rows(ls.take(i as int), w as nat) } else { cap as nat },
        decreases lines@.len() - i,
    {
        let line = string_of(lines[i].as_slice());
        let rows = line_rows_exec(line.as_str(), w);
        proof {
            assert(ls.take(i as int + 1).drop_last() =~= ls.take(i as int));
            assert(ls[i as int] == line@);
        }
        total = if rows >= cap - total { cap } else { total + rows };
        i = i + 1;
    }
    assert(ls.take(i as int) =~= ls);
    let n = count_newlines(&chars);
    let all: u128 = if n as u128 >= cap - total { cap } else { total + n as u128 };
    all as usize
}

} // verus!
