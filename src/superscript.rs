use vstd::prelude::*;

use crate::chunk::{views, ChunkView, TextChunk};
use crate::error::ExtractError;

verus! {

/// How far row `i` sits above row `i - 1`: positive when the text moved up.
pub open spec fn rise(rows: Seq<ChunkView>, i: int) -> int {
    rows[i - 1].y - rows[i].y
}

/// The number of rows among the first `n` that sit exactly `m` above their predecessor.
pub open spec fn rise_count(rows: Seq<ChunkView>, m: int, n: int) -> nat
    decreases n,
{
    if n <= 1 {
        0
    } else {
        rise_count(rows, m, n - 1) + if rise(rows, n - 1) == m {
            1nat
        } else {
            0nat
        }
    }
}

/// How often the upward offset `m` occurs between consecutive rows.
pub open spec fn offset_count(rows: Seq<ChunkView>, m: int) -> nat {
    rise_count(rows, m, rows.len() as int)
}

/// Some row sits above its predecessor.
pub open spec fn has_upward_offset(rows: Seq<ChunkView>) -> bool {
    exists|i: int| 1 <= i < rows.len() && rise(rows, i) > 0
}

/// `m` is the superscript offset of `rows`: the most frequent upward offset,
/// the smallest among equally frequent ones.
pub open spec fn is_superscript_offset(rows: Seq<ChunkView>, m: int) -> bool {
    &&& m > 0
    &&& offset_count(rows, m) > 0
    &&& forall|m2: int|
        m2 > 0 ==> #[trigger] offset_count(rows, m2) < offset_count(rows, m) || (offset_count(
            rows,
            m2,
        ) == offset_count(rows, m) && m <= m2)
}

proof fn lemma_rise_count_bound(rows: Seq<ChunkView>, m: int, n: int)
    ensures
        rise_count(rows, m, n) <= if n <= 1 {
            0
        } else {
            n - 1
        },
    decreases n,
{
    if n > 1 {
        lemma_rise_count_bound(rows, m, n - 1);
    }
}

proof fn lemma_rise_counted(rows: Seq<ChunkView>, m: int, n: int, i: int)
    requires
        1 <= i < n,
        rise(rows, i) == m,
    ensures
        rise_count(rows, m, n) > 0,
    decreases n,
{
    if i < n - 1 {
        lemma_rise_counted(rows, m, n - 1, i);
    }
}

proof fn lemma_rise_occurs(rows: Seq<ChunkView>, m: int, n: int)
    requires
        rise_count(rows, m, n) > 0,
    ensures
        exists|i: int| 1 <= i < n && rise(rows, i) == m,
    decreases n,
{
    if rise(rows, n - 1) != m {
        lemma_rise_occurs(rows, m, n - 1);
    }
}

fn rise_at(rows: &Vec<TextChunk>, i: usize) -> (r: i64)
    requires
        1 <= i < rows@.len(),
    ensures
        r == rise(views(rows@), i as int),
{
    rows[i - 1].y as i64 - rows[i].y as i64
}

fn count_offset(rows: &Vec<TextChunk>, m: i64) -> (r: usize)
    ensures
        r == offset_count(views(rows@), m as int),
{
    let n = rows.len();
    let ghost v = views(rows@);
    let mut count: usize = 0;
    let mut i: usize = 1;
    while i < n
        invariant
            n == rows@.len(),
            v == views(rows@),
            v.len() == n,
            1 <= i,
            i <= n || i == 1,
            count == rise_count(v, m as int, i as int),
        decreases n - i,
    {
        proof { lemma_rise_count_bound(v, m as int, i as int); }
        if rise_at(rows, i) == m {
            count = count + 1;
        }
        i = i + 1;
    }
    assert(rise_count(v, m as int, 0) == 0);
    count
}

/// The superscript offset of the rows: the upward offset between
/// consecutive rows that occurs most often, the smallest of equally
/// frequent ones. Fails when no row sits above its predecessor.
pub fn superscript_offset(rows: &Vec<TextChunk>) -> (r: Result<i64, ExtractError>)
    ensures
        match r {
            Ok(m) => is_superscript_offset(views(rows@), m as int),
            Err(e) => !has_upward_offset(views(rows@)) && e == ExtractError::NoSuperscriptOffset,
        },
{
    let n = rows.len();
    let ghost v = views(rows@);
    let mut best: Option<(i64, usize)> = None;
    let mut i: usize = 1;
    while i < n
        invariant
            n == rows@.len(),
            v == views(rows@),
            1 <= i,
            i <= n || i == 1,
            match best {
                None => forall|k: int| 1 <= k < i ==> rise(v, k) <= 0,
                Some((bm, bc)) => {
                    &&& bm > 0
                    &&& bc == offset_count(v, bm as int)
                    &&& bc > 0
                    &&& forall|k: int|
                        1 <= k < i && rise(v, k) > 0 ==> offset_count(v, #[trigger] rise(v, k))
                            < bc || (offset_count(v, rise(v, k)) == bc && bm <= rise(v, k))
                },
            },
        decreases n - i,
    {
        let r = rise_at(rows, i);
        if r > 0 {
            let c = count_offset(rows, r);
            proof { lemma_rise_counted(v, r as int, n as int, i as int); }
            match best {
                None => {
                    best = Some((r, c));
                },
                Some((bm, bc)) => {
                    if c > bc || (c == bc && r < bm) {
                        best = Some((r, c));
                    }
                },
            }
        }
        i = i + 1;
    }
    match best {
        None => {
            assert(!has_upward_offset(v));
            Err(ExtractError::NoSuperscriptOffset)
        },
        Some((bm, bc)) => {
            assert forall|m2: int| m2 > 0 implies #[trigger] offset_count(v, m2) < offset_count(v, bm as int)
                || (offset_count(v, m2) == offset_count(v, bm as int) && bm <= m2) by {
                if offset_count(v, m2) > 0 {
                    lemma_rise_occurs(v, m2, n as int);
                    let k = choose|k: int| 1 <= k < n && rise(v, k) == m2;
                    assert(offset_count(v, rise(v, k)) < bc || (offset_count(v, rise(v, k)) == bc
                        && bm <= rise(v, k)));
                }
            }
            Ok(bm)
        },
    }
}

/// An offset small enough, and non-zero, to mark a raised or lowered fragment.
pub open spec fn is_shifted(offset: int, sup: int) -> bool {
    offset != 0 && -sup <= offset <= sup
}

/// The text wrapped in an inline tag.
pub open spec fn wrapped(tag: Seq<char>, text: Seq<char>) -> Seq<char> {
    "<"@ + tag + ">"@ + text + "</"@ + tag + ">"@
}

/// The last position `(x, y)` after reclassifying the first `n` rows.
pub open spec fn reclass_state(rows: Seq<ChunkView>, sup: int, n: int) -> (i32, i32)
    decreases n,
{
    if n <= 0 {
        (0, 0)
    } else {
        let (lx, ly) = reclass_state(rows, sup, n - 1);
        let r = rows[n - 1];
        if r.x < lx {
            (r.x, r.y)
        } else if is_shifted(r.y - ly, sup) {
            (r.x, ly)
        } else {
            (r.x, r.y)
        }
    }
}

/// Row `i` after reclassification: a row left of the last one, or one on a
/// new baseline, is kept; a row a small offset off the last baseline is
/// wrapped as a subscript (below) or superscript (above) and pinned to it.
pub open spec fn reclassified_row(rows: Seq<ChunkView>, sup: int, i: int) -> ChunkView {
    let (lx, ly) = reclass_state(rows, sup, i);
    let r = rows[i];
    if r.x < lx {
        r
    } else if is_shifted(r.y - ly, sup) {
        ChunkView {
            text: wrapped(
                if r.y - ly > 0 {
                    "sub"@
                } else {
                    "sup"@
                },
                r.text,
            ),
            x: r.x,
            y: ly,
        }
    } else {
        r
    }
}

/// All rows after reclassification.
pub open spec fn reclassified(rows: Seq<ChunkView>, sup: int) -> Seq<ChunkView> {
    Seq::new(rows.len(), |i: int| reclassified_row(rows, sup, i))
}

fn wrap_text(tag: &str, text: &String) -> (r: String)
    ensures
        r@ == wrapped(tag@, text@),
{
    let mut s = String::from_str("<");
    s.append(tag);
    s.append(">");
    s.append(text.as_str());
    s.append("</");
    s.append(tag);
    s.append(">");
    s
}

/// Marks rows that sit a small offset (at most `sup`, not zero) off the
/// last baseline as superscripts or subscripts, pinned to that baseline.
pub fn reclassify_rows(rows: &Vec<TextChunk>, sup: i64) -> (r: Vec<TextChunk>)
    ensures
        views(r@) == reclassified(views(rows@), sup as int),
{
    let n = rows.len();
    let ghost v = views(rows@);
    let mut out: Vec<TextChunk> = Vec::new();
    let mut last_x: i32 = 0;
    let mut last_y: i32 = 0;
    let mut i: usize = 0;
    while i < n
        invariant
            n == rows@.len(),
            v == views(rows@),
            0 <= i <= n,
            (last_x, last_y) == reclass_state(v, sup as int, i as int),
            views(out@) =~= reclassified(v, sup as int).subrange(0, i as int),
        decreases n - i,
    {
        let row = &rows[i];
        let ghost before = out@;
        let offset: i64 = row.y as i64 - last_y as i64;
        if row.x < last_x {
            last_x = row.x;
            last_y = row.y;
            out.push(TextChunk { text: row.text.clone(), x: row.x, y: row.y });
        } else if offset != 0 && offset <= sup && -offset <= sup {
            let tag = if offset > 0 {
                "sub"
            } else {
                "sup"
            };
            let text = wrap_text(tag, &row.text);
            last_x = row.x;
            out.push(TextChunk { text, x: row.x, y: last_y });
        } else {
            last_x = row.x;
            last_y = row.y;
            out.push(TextChunk { text: row.text.clone(), x: row.x, y: row.y });
        }
        assert(views(out@) =~= views(before).push(out@.last()@));
        i = i + 1;
    }
    out
}

} // verus!
