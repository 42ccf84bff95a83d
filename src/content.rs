use vstd::prelude::*;

verus! {

/// An operand of a drawing instruction, as far as text extraction reads it.
#[derive(Clone, Debug)]
pub enum Operand {
    Integer(i64),
    /// A real number, truncated toward zero.
    Real(i32),
    Name(Vec<u8>),
    Str(Vec<u8>),
    /// Any other kind of operand (arrays, dictionaries, booleans, ...).
    Other,
}

/// The instruction kinds that text extraction acts on.
#[derive(Clone, Copy, Debug, PartialEq, Eq, Structural)]
pub enum OpCode {
    BeginText,
    EndText,
    SetFont,
    ShowText,
    SetTextMatrix,
    EndBfChar,
    Other,
}

/// One drawing instruction: an operator and its operands.
#[derive(Clone, Debug)]
pub struct Operation {
    pub opcode: OpCode,
    pub operands: Vec<Operand>,
}

/// The instruction kind that an operator name stands for.
pub open spec fn opcode_of(name: Seq<char>) -> OpCode {
    if name == "BT"@ {
        OpCode::BeginText
    } else if name == "ET"@ {
        OpCode::EndText
    } else if name == "Tf"@ {
        OpCode::SetFont
    } else if name == "Tj"@ {
        OpCode::ShowText
    } else if name == "Tm"@ {
        OpCode::SetTextMatrix
    } else if name == "endbfchar"@ {
        OpCode::EndBfChar
    } else {
        OpCode::Other
    }
}

fn str_equal(a: &str, b: &str) -> (r: bool)
    ensures
        r == (a@ == b@),
{
    let n = a.unicode_len();
    if n != b.unicode_len() {
        return false;
    }
    let mut i: usize = 0;
    while i < n
        invariant
            n == a@.len(),
            n == b@.len(),
            0 <= i <= n,
            forall|j: int| 0 <= j < i ==> a@[j] == b@[j],
        decreases n - i,
    {
        if a.get_char(i) != b.get_char(i) {
            return false;
        }
        i = i + 1;
    }
    assert(a@ =~= b@);
    true
}

impl OpCode {
    /// The instruction kind named by a content-stream operator.
    pub fn from_name(name: &str) -> (r: OpCode)
        ensures
            r == opcode_of(name@),
    {
        if str_equal(name, "BT") {
            OpCode::BeginText
        } else if str_equal(name, "ET") {
            OpCode::EndText
        } else if str_equal(name, "Tf") {
            OpCode::SetFont
        } else if str_equal(name, "Tj") {
            OpCode::ShowText
        } else if str_equal(name, "Tm") {
            OpCode::SetTextMatrix
        } else if str_equal(name, "endbfchar") {
            OpCode::EndBfChar
        } else {
            OpCode::Other
        }
    }
}

impl Operation {
    pub fn new(opcode: OpCode, operands: Vec<Operand>) -> (r: Operation)
        ensures
            r.opcode == opcode,
            r.operands@ == operands@,
    {
        Operation { opcode, operands }
    }
}

} // verus!
