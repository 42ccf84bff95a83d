use vstd::prelude::*;

use crate::chunk::{views, ChunkView, TextChunk};
use crate::content::{OpCode, Operand, Operation};
use crate::error::ExtractError;
use crate::font::{font_decoded, FontCache};

verus! {

/// The interpreter's state while it walks one page.
#[derive(Debug)]
pub struct TextState {
    pub in_text: bool,
    pub font: Option<Vec<u8>>,
    pub x: i32,
    pub y: i32,
    pub text: String,
}

/// The mathematical value of a [`TextState`].
pub ghost struct TextStateView {
    pub in_text: bool,
    pub font: Option<Seq<u8>>,
    pub x: i32,
    pub y: i32,
    pub text: Seq<char>,
}

impl View for TextState {
    type V = TextStateView;

    open spec fn view(&self) -> TextStateView {
        TextStateView {
            in_text: self.in_text,
            font: match self.font {
                Some(f) => Some(f@),
                None => None,
            },
            x: self.x,
            y: self.y,
            text: self.text@,
        }
    }
}

/// The state at the start of a page.
pub open spec fn initial_state() -> TextStateView {
    TextStateView { in_text: false, font: None, x: 0, y: 0, text: Seq::empty() }
}

/// The name held by the first operand.
pub open spec fn name_operand(operands: Seq<Operand>) -> Option<Seq<u8>> {
    if operands.len() > 0 {
        match operands[0] {
            Operand::Name(n) => Some(n@),
            _ => None,
        }
    } else {
        None
    }
}

/// The bytes of the string held by the first operand.
pub open spec fn string_operand(operands: Seq<Operand>) -> Option<Seq<u8>> {
    if operands.len() > 0 {
        match operands[0] {
            Operand::Str(b) => Some(b@),
            _ => None,
        }
    } else {
        None
    }
}

/// The coordinate that a numeric operand gives; an integer is truncated to 32 bits.
pub open spec fn coordinate(o: Operand) -> Option<i32> {
    match o {
        Operand::Integer(v) => Some(v as i32),
        Operand::Real(v) => Some(v),
        _ => None,
    }
}

/// The translation (x, y) of a text matrix: its fifth and sixth operands.
pub open spec fn translation(operands: Seq<Operand>) -> Option<(i32, i32)> {
    if operands.len() >= 6 {
        match (coordinate(operands[4]), coordinate(operands[5])) {
            (Some(x), Some(y)) => Some((x, y)),
            _ => None,
        }
    } else {
        None
    }
}

/// One transition of the interpreter: the next state and the chunk emitted, if any.
pub open spec fn step_result(s: TextStateView, op: Operation, fonts: FontCache) -> Result<
    (TextStateView, Option<ChunkView>),
    ExtractError,
> {
    match op.opcode {
        OpCode::BeginText => Ok((TextStateView { in_text: true, ..s }, None)),
        OpCode::EndText => Ok(
            (
                TextStateView { in_text: false, text: Seq::empty(), ..s },
                Some(ChunkView { text: s.text, x: s.x, y: s.y }),
            ),
        ),
        OpCode::SetFont => match name_operand(op.operands@) {
            Some(n) => Ok((TextStateView { font: Some(n), ..s }, None)),
            None => Err(ExtractError::MissingFont),
        },
        OpCode::ShowText => if !s.in_text {
            Ok((s, None))
        } else {
            match s.font {
                None => Err(ExtractError::MissingFont),
                Some(id) => match fonts.font(id) {
                    None => Err(ExtractError::MissingFont),
                    Some(f) => match string_operand(op.operands@) {
                        None => Err(ExtractError::MalformedText),
                        Some(b) => match font_decoded(f, b) {
                            Ok(t) => Ok((TextStateView { text: s.text + t, ..s }, None)),
                            Err(e) => Err(e),
                        },
                    },
                },
            }
        },
        OpCode::SetTextMatrix => match translation(op.operands@) {
            Some((x, y)) => Ok((TextStateView { x, y, ..s }, None)),
            None => Err(ExtractError::MalformedMatrix),
        },
        _ => Ok((s, None)),
    }
}

/// The state and the chunks after running a page's instructions from the initial state.
pub open spec fn run_page(fonts: FontCache, ops: Seq<Operation>) -> Result<
    (TextStateView, Seq<ChunkView>),
    ExtractError,
>
    decreases ops.len(),
{
    if ops.len() == 0 {
        Ok((initial_state(), Seq::empty()))
    } else {
        match run_page(fonts, ops.drop_last()) {
            Err(e) => Err(e),
            Ok((s, out)) => match step_result(s, ops.last(), fonts) {
                Err(e) => Err(e),
                Ok((s2, c)) => Ok(
                    (
                        s2,
                        match c {
                            Some(c) => out.push(c),
                            None => out,
                        },
                    ),
                ),
            },
        }
    }
}

/// The chunks that a page's instructions emit.
pub open spec fn page_chunks(fonts: FontCache, ops: Seq<Operation>) -> Result<
    Seq<ChunkView>,
    ExtractError,
> {
    match run_page(fonts, ops) {
        Ok((_, out)) => Ok(out),
        Err(e) => Err(e),
    }
}

/// The chunks of all pages, in page order; the first failing page decides the error.
pub open spec fn document_chunks(fonts: FontCache, pages: Seq<Vec<Operation>>) -> Result<
    Seq<ChunkView>,
    ExtractError,
>
    decreases pages.len(),
{
    if pages.len() == 0 {
        Ok(Seq::empty())
    } else {
        match document_chunks(fonts, pages.drop_last()) {
            Err(e) => Err(e),
            Ok(a) => match page_chunks(fonts, pages.last()@) {
                Err(e) => Err(e),
                Ok(b) => Ok(a + b),
            },
        }
    }
}

proof fn lemma_run_page_error(fonts: FontCache, ops: Seq<Operation>, i: int, e: ExtractError)
    requires
        0 <= i <= ops.len(),
        run_page(fonts, ops.subrange(0, i)) == Err::<(TextStateView, Seq<ChunkView>), ExtractError>(e),
    ensures
        run_page(fonts, ops) == Err::<(TextStateView, Seq<ChunkView>), ExtractError>(e),
    decreases ops.len() - i,
{
    if i < ops.len() {
        assert(ops.subrange(0, i + 1).drop_last() =~= ops.subrange(0, i));
        lemma_run_page_error(fonts, ops, i + 1, e);
    } else {
        assert(ops.subrange(0, i) =~= ops);
    }
}

proof fn lemma_document_error(fonts: FontCache, pages: Seq<Vec<Operation>>, i: int, e: ExtractError)
    requires
        0 <= i <= pages.len(),
        document_chunks(fonts, pages.subrange(0, i)) == Err::<Seq<ChunkView>, ExtractError>(e),
    ensures
        document_chunks(fonts, pages) == Err::<Seq<ChunkView>, ExtractError>(e),
    decreases pages.len() - i,
{
    if i < pages.len() {
        assert(pages.subrange(0, i + 1).drop_last() =~= pages.subrange(0, i));
        lemma_document_error(fonts, pages, i + 1, e);
    } else {
        assert(pages.subrange(0, i) =~= pages);
    }
}

proof fn lemma_no_font_selected(fonts: FontCache, ops: Seq<Operation>)
    requires
        forall|j: int| 0 <= j < ops.len() ==> (#[trigger] ops[j]).opcode != OpCode::SetFont,
        run_page(fonts, ops) is Ok,
    ensures
        run_page(fonts, ops)->Ok_0.0.font is None,
    decreases ops.len(),
{
    if ops.len() > 0 {
        let p = ops.drop_last();
        assert(forall|j: int| 0 <= j < p.len() ==> p[j] == ops[j]);
        lemma_no_font_selected(fonts, p);
    }
}

proof fn lemma_in_text_block(fonts: FontCache, ops: Seq<Operation>, j: int)
    requires
        0 <= j < ops.len(),
        ops[j].opcode == OpCode::BeginText,
        forall|l: int| j < l < ops.len() ==> (#[trigger] ops[l]).opcode != OpCode::EndText,
        run_page(fonts, ops) is Ok,
    ensures
        run_page(fonts, ops)->Ok_0.0.in_text,
    decreases ops.len(),
{
    let p = ops.drop_last();
    if j < p.len() {
        assert(forall|l: int| j < l < p.len() ==> p[l] == ops[l]);
        assert(p[j] == ops[j]);
        lemma_in_text_block(fonts, p, j);
    }
}

/// Showing text inside a text block of a page in which no font has been
/// selected yet fails with a missing-font error, so the page emits nothing;
/// this holds whenever the instructions before it succeed.
pub proof fn lemma_show_text_without_font(fonts: FontCache, ops: Seq<Operation>, j: int, k: int)
    requires
        0 <= j < k < ops.len(),
        ops[j].opcode == OpCode::BeginText,
        forall|l: int| j < l < k ==> (#[trigger] ops[l]).opcode != OpCode::EndText,
        forall|l: int| 0 <= l < k ==> (#[trigger] ops[l]).opcode != OpCode::SetFont,
        ops[k].opcode == OpCode::ShowText,
        run_page(fonts, ops.subrange(0, k)) is Ok,
    ensures
        page_chunks(fonts, ops) == Err::<Seq<ChunkView>, ExtractError>(ExtractError::MissingFont),
{
    let p = ops.subrange(0, k);
    assert(forall|l: int| 0 <= l < p.len() ==> p[l] == ops[l]);
    lemma_no_font_selected(fonts, p);
    lemma_in_text_block(fonts, p, j);
    assert(ops.subrange(0, k + 1).drop_last() =~= p);
    lemma_run_page_error(fonts, ops, k + 1, ExtractError::MissingFont);
}

fn read_coordinate(o: &Operand) -> (r: Option<i32>)
    ensures
        r == coordinate(*o),
{
    match o {
        Operand::Integer(v) => Some(#[verifier::truncate] (*v as i32)),
        Operand::Real(v) => Some(*v),
        _ => None,
    }
}

fn copy_bytes(b: &Vec<u8>) -> (r: Vec<u8>)
    ensures
        r@ == b@,
{
    let mut r: Vec<u8> = Vec::new();
    let mut i: usize = 0;
    while i < b.len()
        invariant
            0 <= i <= b@.len(),
            r@ == b@.subrange(0, i as int),
        decreases b@.len() - i,
    {
        r.push(b[i]);
        i = i + 1;
    }
    assert(b@.subrange(0, b@.len() as int) =~= b@);
    r
}

impl TextState {
    /// The state at the start of a page.
    pub fn new() -> (r: TextState)
        ensures
            r@ == initial_state(),
    {
        TextState { in_text: false, font: None, x: 0, y: 0, text: String::new() }
    }

    /// Applies one instruction; returns the chunk that a closing text block emits.
    pub fn step(&mut self, op: &Operation, fonts: &FontCache) -> (r: Result<
        Option<TextChunk>,
        ExtractError,
    >)
        ensures
            match r {
                Ok(c) => step_result(old(self)@, *op, *fonts) == Ok::<
                    (TextStateView, Option<ChunkView>),
                    ExtractError,
                >(
                    (
                        final(self)@,
                        match c {
                            Some(c) => Some(c@),
                            None => None,
                        },
                    ),
                ),
                Err(e) => step_result(old(self)@, *op, *fonts) is Err && step_result(
                    old(self)@,
                    *op,
                    *fonts,
                )->Err_0 == e,
            },
    {
        match op.opcode {
            OpCode::BeginText => {
                self.in_text = true;
                Ok(None)
            },
            OpCode::EndText => {
                self.in_text = false;
                let text = self.text.clone();
                self.text = String::new();
                Ok(Some(TextChunk { text, x: self.x, y: self.y }))
            },
            OpCode::SetFont => {
                if op.operands.len() > 0 {
                    match &op.operands[0] {
                        Operand::Name(n) => {
                            self.font = Some(copy_bytes(n));
                            return Ok(None);
                        },
                        _ => {},
                    }
                }
                Err(ExtractError::MissingFont)
            },
            OpCode::ShowText => {
                if !self.in_text {
                    return Ok(None);
                }
                let font = match &self.font {
                    None => {
                        return Err(ExtractError::MissingFont);
                    },
                    Some(id) => match fonts.get(id) {
                        None => {
                            return Err(ExtractError::MissingFont);
                        },
                        Some(f) => f,
                    },
                };
                if op.operands.len() > 0 {
                    match &op.operands[0] {
                        Operand::Str(b) => {
                            let decoded = font.decode(b.as_slice())?;
                            self.text.append(decoded.as_str());
                            return Ok(None);
                        },
                        _ => {},
                    }
                }
                Err(ExtractError::MalformedText)
            },
            OpCode::SetTextMatrix => {
                if op.operands.len() >= 6 {
                    match (read_coordinate(&op.operands[4]), read_coordinate(&op.operands[5])) {
                        (Some(x), Some(y)) => {
                            self.x = x;
                            self.y = y;
                            return Ok(None);
                        },
                        _ => {},
                    }
                }
                Err(ExtractError::MalformedMatrix)
            },
            _ => Ok(None),
        }
    }
}

/// Interprets one page's instructions from the initial state and returns
/// the chunks that its text blocks emit, in order.
pub fn interpret_page(operations: &Vec<Operation>, fonts: &FontCache) -> (r: Result<
    Vec<TextChunk>,
    ExtractError,
>)
    ensures
        match r {
            Ok(v) => page_chunks(*fonts, operations@) == Ok::<Seq<ChunkView>, ExtractError>(views(v@)),
            Err(e) => page_chunks(*fonts, operations@) == Err::<Seq<ChunkView>, ExtractError>(e),
        },
{
    let mut state = TextState::new();
    let mut out: Vec<TextChunk> = Vec::new();
    let n = operations.len();
    let mut i: usize = 0;
    assert(views(out@) =~= Seq::<ChunkView>::empty());
    assert(operations@.subrange(0, 0) =~= Seq::<Operation>::empty());
    while i < n
        invariant
            n == operations@.len(),
            0 <= i <= n,
            run_page(*fonts, operations@.subrange(0, i as int)) == Ok::<
                (TextStateView, Seq<ChunkView>),
                ExtractError,
            >((state@, views(out@))),
        decreases n - i,
    {
        let ghost s0 = state@;
        let ghost before = out@;
        assert(operations@.subrange(0, i as int + 1).drop_last() =~= operations@.subrange(0, i as int));
        match state.step(&operations[i], fonts) {
            Ok(Some(c)) => {
                out.push(c);
                assert(views(out@) =~= views(before).push(c@));
            },
            Ok(None) => {},
            Err(e) => {
                proof { lemma_run_page_error(*fonts, operations@, i as int + 1, e); }
                return Err(e);
            },
        }
        i = i + 1;
    }
    assert(operations@.subrange(0, n as int) =~= operations@);
    Ok(out)
}

/// Interprets every page in order, each from the initial state, and
/// collects their chunks in page order.
pub fn interpret_pages(pages: &Vec<Vec<Operation>>, fonts: &FontCache) -> (r: Result<
    Vec<TextChunk>,
    ExtractError,
>)
    ensures
        match r {
            Ok(v) => document_chunks(*fonts, pages@) == Ok::<Seq<ChunkView>, ExtractError>(views(v@)),
            Err(e) => document_chunks(*fonts, pages@) == Err::<Seq<ChunkView>, ExtractError>(e),
        },
{
    let mut out: Vec<TextChunk> = Vec::new();
    let n = pages.len();
    let mut i: usize = 0;
    assert(views(out@) =~= Seq::<ChunkView>::empty());
    assert(pages@.subrange(0, 0) =~= Seq::<Vec<Operation>>::empty());
    while i < n
        invariant
            n == pages@.len(),
            0 <= i <= n,
            document_chunks(*fonts, pages@.subrange(0, i as int)) == Ok::<Seq<ChunkView>, ExtractError>(
                views(out@),
            ),
        decreases n - i,
    {
        assert(pages@.subrange(0, i as int + 1).drop_last() =~= pages@.subrange(0, i as int));
        match interpret_page(&pages[i], fonts) {
            Ok(mut page) => {
                let ghost before = out@;
                let ghost added = page@;
                out.append(&mut page);
                assert(views(out@) =~= views(before) + views(added));
            },
            Err(e) => {
                proof { lemma_document_error(*fonts, pages@, i as int + 1, e); }
                return Err(e);
            },
        }
        i = i + 1;
    }
    assert(pages@.subrange(0, n as int) =~= pages@);
    Ok(out)
}

} // verus!
