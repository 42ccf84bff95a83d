use vstd::prelude::*;

verus! {

/// A piece of decoded text with the text-space position at which it was placed.
#[derive(Clone, Debug)]
pub struct TextChunk {
    pub text: String,
    pub x: i32,
    pub y: i32,
}

/// The mathematical value of a [`TextChunk`].
pub ghost struct ChunkView {
    pub text: Seq<char>,
    pub x: i32,
    pub y: i32,
}

impl View for TextChunk {
    type V = ChunkView;

    open spec fn view(&self) -> ChunkView {
        ChunkView { text: self.text@, x: self.x, y: self.y }
    }
}

/// The views of a sequence of chunks.
pub open spec fn views(s: Seq<TextChunk>) -> Seq<ChunkView> {
    s.map_values(|c: TextChunk| c@)
}

/// Rows obtained by concatenating each run of consecutive chunks that share a
/// vertical position; a row keeps the position of its first chunk.
pub open spec fn merged(s: Seq<ChunkView>) -> Seq<ChunkView>
    decreases s.len(),
{
    if s.len() == 0 {
        Seq::empty()
    } else {
        let m = merged(s.drop_last());
        let c = s.last();
        if m.len() > 0 && m.last().y == c.y {
            m.update(m.len() - 1, ChunkView { text: m.last().text + c.text, ..m.last() })
        } else {
            m.push(c)
        }
    }
}

/// No two neighbouring rows share a vertical position.
pub open spec fn rows_separated(s: Seq<ChunkView>) -> bool {
    forall|i: int| 0 < i < s.len() ==> #[trigger] s[i].y != s[i - 1].y
}

proof fn lemma_merged_separated(s: Seq<ChunkView>)
    ensures
        rows_separated(merged(s)),
    decreases s.len(),
{
    if s.len() > 0 {
        lemma_merged_separated(s.drop_last());
        let m = merged(s.drop_last());
        let r = merged(s);
        assert forall|i: int| 0 < i < r.len() implies #[trigger] r[i].y != r[i - 1].y by {
            if i < m.len() {
                assert(m[i].y != m[i - 1].y);
            }
        }
    }
}

proof fn lemma_merged_of_separated(s: Seq<ChunkView>)
    requires
        rows_separated(s),
    ensures
        merged(s) == s,
    decreases s.len(),
{
    if s.len() > 0 {
        let p = s.drop_last();
        assert forall|i: int| 0 < i < p.len() implies #[trigger] p[i].y != p[i - 1].y by {
            assert(s[i].y != s[i - 1].y);
        }
        lemma_merged_of_separated(p);
        if s.len() > 1 {
            assert(s[s.len() - 1].y != s[s.len() - 2].y);
        }
        assert(p.push(s.last()) =~= s);
    }
}

/// Merging rows that are already merged leaves them unchanged.
pub proof fn lemma_merge_idempotent(s: Seq<ChunkView>)
    ensures
        merged(merged(s)) == merged(s),
{
    lemma_merged_separated(s);
    lemma_merged_of_separated(merged(s));
}

impl TextChunk {
    pub fn new(text: String, x: i32, y: i32) -> (r: TextChunk)
        ensures
            r@ == (ChunkView { text: text@, x, y }),
    {
        TextChunk { text, x, y }
    }
}

/// Copies a chunk; `Clone` on a `String` field is not known to Verus to keep the text.
fn copy_chunk(c: &TextChunk) -> (r: TextChunk)
    ensures
        r@ == c@,
{
    TextChunk { text: c.text.clone(), x: c.x, y: c.y }
}

/// Concatenates consecutive chunks that share a vertical position into rows,
/// in the order of their first chunk.
pub fn merge_text_rows(text_chunks: &Vec<TextChunk>) -> (r: Vec<TextChunk>)
    ensures
        views(r@) == merged(views(text_chunks@)),
{
    let mut merged_rows: Vec<TextChunk> = Vec::new();
    let mut last: Option<TextChunk> = None;
    let n = text_chunks.len();
    let mut i: usize = 0;
    while i < n
        invariant
            n == text_chunks@.len(),
            0 <= i <= n,
            (i == 0) == (last is None),
            merged(views(text_chunks@.subrange(0, i as int))) == match last {
                Some(l) => views(merged_rows@).push(l@),
                None => views(merged_rows@),
            },
        decreases n - i,
    {
        let c = &text_chunks[i];
        let ghost pre = views(text_chunks@.subrange(0, i as int));
        let ghost cur = views(text_chunks@.subrange(0, i as int + 1));
        proof {
            assert(cur.drop_last() =~= pre);
            assert(cur.last() == c@);
        }
        match last {
            Some(mut l) => {
                if l.y == c.y {
                    let ghost lv = l@;
                    l.text.append(c.text.as_str());
                    proof {
                        let m = views(merged_rows@).push(lv);
                        assert(m.update(m.len() - 1, ChunkView { text: lv.text + c@.text, ..lv })
                            =~= views(merged_rows@).push(l@));
                    }
                    last = Some(l);
                } else {
                    let ghost lv = l@;
                    let ghost before = merged_rows@;
                    merged_rows.push(l);
                    proof {
                        assert(views(merged_rows@) =~= views(before).push(lv));
                    }
                    last = Some(copy_chunk(c));
                }
            },
            None => {
                last = Some(copy_chunk(c));
                assert(pre =~= Seq::<ChunkView>::empty());
            },
        }
        i = i + 1;
    }
    match last {
        Some(l) => {
            let ghost before = merged_rows@;
            merged_rows.push(l);
            assert(views(merged_rows@) =~= views(before).push(l@));
        },
        None => {},
    }
    assert(text_chunks@.subrange(0, n as int) =~= text_chunks@);
    merged_rows
}

} // verus!
