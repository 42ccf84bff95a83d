use std::collections::BTreeMap;
use vstd::prelude::*;

use crate::content::{OpCode, Operand, Operation};
use crate::error::ExtractError;

verus! {

broadcast use vstd::std_specs::btree::group_btree_axioms, vstd::laws_cmp::group_laws_cmp;

/// The big-endian 16-bit code held by a two-byte string operand.
pub open spec fn code_of(o: Operand) -> Option<u32> {
    match o {
        Operand::Str(b) => if b@.len() == 2 {
            Some((b@[0] * 256 + b@[1]) as u32)
        } else {
            None
        },
        _ => None,
    }
}

/// The operands form (code, unicode) pairs of two-byte strings.
pub open spec fn pairs_well_formed(operands: Seq<Operand>) -> bool {
    &&& operands.len() % 2 == 0
    &&& forall|i: int| 0 <= i < operands.len() ==> (#[trigger] code_of(operands[i])) is Some
}

/// `m` after inserting the first `k` (code, unicode) pairs, later pairs overwriting.
pub open spec fn with_pairs(m: Map<u32, u32>, operands: Seq<Operand>, k: nat) -> Map<u32, u32>
    decreases k,
{
    if k == 0 {
        m
    } else {
        with_pairs(m, operands, (k - 1) as nat).insert(
            code_of(operands[2 * k - 2]).unwrap(),
            code_of(operands[2 * k - 1]).unwrap(),
        )
    }
}

/// The table after one more instruction, or `None` where it is malformed.
pub open spec fn cmap_step(m: Map<u32, u32>, op: Operation) -> Option<Map<u32, u32>> {
    if op.opcode == OpCode::EndBfChar {
        if pairs_well_formed(op.operands@) {
            Some(with_pairs(m, op.operands@, (op.operands@.len() / 2) as nat))
        } else {
            None
        }
    } else {
        Some(m)
    }
}

/// The code-to-Unicode table that a sequence of instructions defines, or
/// `None` where one of its mapping blocks is malformed.
pub open spec fn cmap_of(ops: Seq<Operation>) -> Option<Map<u32, u32>>
    decreases ops.len(),
{
    if ops.len() == 0 {
        Some(Map::empty())
    } else {
        match cmap_of(ops.drop_last()) {
            Some(m) => cmap_step(m, ops.last()),
            None => None,
        }
    }
}

proof fn lemma_cmap_malformed_prefix(ops: Seq<Operation>, i: int)
    requires
        0 <= i <= ops.len(),
        cmap_of(ops.subrange(0, i)) is None,
    ensures
        cmap_of(ops) is None,
    decreases ops.len() - i,
{
    if i < ops.len() {
        assert(ops.subrange(0, i + 1).drop_last() =~= ops.subrange(0, i));
        lemma_cmap_malformed_prefix(ops, i + 1);
    } else {
        assert(ops.subrange(0, i) =~= ops);
    }
}

/// A mapping block with an odd number of operands makes the whole table malformed.
pub proof fn lemma_odd_operands_malformed(ops: Seq<Operation>, i: int)
    requires
        0 <= i < ops.len(),
        ops[i].opcode == OpCode::EndBfChar,
        ops[i].operands@.len() % 2 == 1,
    ensures
        cmap_of(ops) is None,
{
    assert(ops.subrange(0, i + 1).drop_last() =~= ops.subrange(0, i));
    lemma_cmap_malformed_prefix(ops, i + 1);
}

fn read_code(o: &Operand) -> (r: Option<u32>)
    ensures
        r == code_of(*o),
{
    match o {
        Operand::Str(b) => if b.len() == 2 {
            Some((b[0] as u32) * 256 + (b[1] as u32))
        } else {
            None
        },
        _ => None,
    }
}

/// Builds the code-to-Unicode table from the decoded instructions of an
/// embedded table stream: every `endbfchar` block contributes its
/// (code, unicode) pairs, in order; all other instructions are ignored.
pub fn parse_unicode_map(operations: &Vec<Operation>) -> (r: Result<BTreeMap<u32, u32>, ExtractError>)
    ensures
        match r {
            Ok(m) => cmap_of(operations@) == Some(m@),
            Err(e) => cmap_of(operations@) is None && e == ExtractError::MalformedFont,
        },
{
    let mut result: BTreeMap<u32, u32> = BTreeMap::new();
    let n = operations.len();
    let mut i: usize = 0;
    while i < n
        invariant
            n == operations@.len(),
            0 <= i <= n,
            cmap_of(operations@.subrange(0, i as int)) == Some(result@),
        decreases n - i,
    {
        let op = &operations[i];
        assert(operations@.subrange(0, i as int + 1).drop_last() =~= operations@.subrange(0, i as int));
        if op.opcode == OpCode::EndBfChar {
            let ghost m0 = result@;
            let len = op.operands.len();
            if len % 2 != 0 {
                proof { lemma_cmap_malformed_prefix(operations@, i as int + 1); }
                return Err(ExtractError::MalformedFont);
            }
            let mut j: usize = 0;
            while j < len / 2
                invariant
                    n == operations@.len(),
                    i < n,
                    *op == operations@[i as int],
                    op.opcode == OpCode::EndBfChar,
                    cmap_of(operations@.subrange(0, i as int)) == Some(m0),
                    operations@.subrange(0, i as int + 1).drop_last() == operations@.subrange(0, i as int),
                    len == op.operands@.len(),
                    len % 2 == 0,
                    0 <= j <= len / 2,
                    forall|k: int| 0 <= k < 2 * j ==> (#[trigger] code_of(op.operands@[k])) is Some,
                    result@ == with_pairs(m0, op.operands@, j as nat),
                decreases len / 2 - j,
            {
                let key = read_code(&op.operands[2 * j]);
                let value = read_code(&op.operands[2 * j + 1]);
                match (key, value) {
                    (Some(k), Some(v)) => {
                        result.insert(k, v);
                    },
                    _ => {
                        proof {
                            assert(!pairs_well_formed(op.operands@));
                            lemma_cmap_malformed_prefix(operations@, i as int + 1);
                        }
                        return Err(ExtractError::MalformedFont);
                    },
                }
                j = j + 1;
            }
        }
        i = i + 1;
    }
    assert(operations@.subrange(0, n as int) =~= operations@);
    Ok(result)
}

} // verus!
