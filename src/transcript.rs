use vstd::prelude::*;

use crate::chunk::{merge_text_rows, merged, views, TextChunk};
use crate::content::Operation;
use crate::error::ExtractError;
use crate::font::FontCache;
use crate::interpreter::{document_chunks, interpret_pages};
use crate::superscript::{
    has_upward_offset, is_superscript_offset, reclassified, reclassify_rows, superscript_offset,
};

verus! {

/// The finished rows of a document, and the superscript offset that shaped them.
#[derive(Debug)]
pub struct Transcript {
    /// `None` where no row sits above its predecessor, so that no row was reclassified.
    pub superscript_offset: Option<i64>,
    pub rows: Vec<TextChunk>,
}

/// Interprets every page, merges the chunks into rows, marks superscripts
/// and subscripts and merges again. Where no row sits above its
/// predecessor, the merged rows are kept as they are.
pub fn build_transcript(pages: &Vec<Vec<Operation>>, fonts: &FontCache) -> (r: Result<
    Transcript,
    ExtractError,
>)
    ensures
        match document_chunks(*fonts, pages@) {
            Err(e) => r == Err::<Transcript, ExtractError>(e),
            Ok(c) => r matches Ok(t) && ({
                let rows = merged(c);
                match t.superscript_offset {
                    Some(m) => is_superscript_offset(rows, m as int) && views(t.rows@) == merged(
                        reclassified(rows, m as int),
                    ),
                    None => !has_upward_offset(rows) && views(t.rows@) == rows,
                }
            }),
        },
{
    let chunks = interpret_pages(pages, fonts)?;
    let rows = merge_text_rows(&chunks);
    match superscript_offset(&rows) {
        Ok(m) => {
            let marked = reclassify_rows(&rows, m);
            Ok(Transcript { superscript_offset: Some(m), rows: merge_text_rows(&marked) })
        },
        Err(_) => Ok(Transcript { superscript_offset: None, rows }),
    }
}

impl Transcript {
    /// The text of each row, one line per row.
    pub fn lines(&self) -> (r: Vec<String>)
        ensures
            r@.len() == self.rows@.len(),
            forall|i: int| 0 <= i < r@.len() ==> #[trigger] r@[i]@ == self.rows@[i].text@,
    {
        let mut out: Vec<String> = Vec::new();
        let mut i: usize = 0;
        while i < self.rows.len()
            invariant
                0 <= i <= self.rows@.len(),
                out@.len() == i,
                forall|k: int| 0 <= k < i ==> #[trigger] out@[k]@ == self.rows@[k].text@,
            decreases self.rows@.len() - i,
        {
            out.push(self.rows[i].text.clone());
            i = i + 1;
        }
        out
    }
}

} // verus!
