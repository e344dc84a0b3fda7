//! The instruction that carries an order: 32 bytes, of which the first is
//! the side tag, the next eight the price and the eight after that the
//! amount, both little-endian. The remaining bytes are not read.

use vstd::prelude::*;

use crate::error::MarketError;
use crate::order::Side;

verus! {

/// The length of an instruction in bytes.
pub const INSTRUCTION_LEN: usize = 32;

/// The number that the bytes of `s` spell, least significant byte first.
pub open spec fn le_value(s: Seq<u8>) -> nat
    decreases s.len(),
{
    if s.len() == 0 {
        0
    } else {
        s[0] as nat + 256 * le_value(s.drop_first())
    }
}

/// 256 to the power `n`.
pub open spec fn pow256(n: nat) -> nat
    decreases n,
{
    if n == 0 {
        1
    } else {
        256 * pow256((n - 1) as nat)
    }
}

/// An order as an instruction states it.
#[derive(Clone, Copy, Debug, PartialEq, Eq, Structural)]
pub struct Instruction {
    pub side: Side,
    pub price: u64,
    pub amount: u64,
}

/// Whether `data` is a well-formed instruction: of the right length, with a
/// known side tag.
pub open spec fn well_formed(data: Seq<u8>) -> bool {
    data.len() == INSTRUCTION_LEN && data[0] <= 1
}

/// What a well-formed instruction says.
pub open spec fn instruction_of(data: Seq<u8>) -> Instruction {
    Instruction {
        side: if data[0] == 0 { Side::Buy } else { Side::Sell },
        price: le_value(data.subrange(1, 9)) as u64,
        amount: le_value(data.subrange(9, 17)) as u64,
    }
}

/// A number spelled by `n` bytes is below 256 to the power `n`.
pub proof fn lemma_le_value_bound(s: Seq<u8>)
    ensures
        le_value(s) < pow256(s.len()),
    decreases s.len(),
{
    if s.len() > 0 {
        lemma_le_value_bound(s.drop_first());
    }
}

/// Reads the eight bytes of `data` from `start` as a little-endian number.
pub fn read_u64_le(data: &[u8], start: usize) -> (r: u64)
    requires
        start + 8 <= data@.len(),
    ensures
        r as nat == le_value(data@.subrange(start as int, start + 8)),
{
    let len: usize = data.len();
    let end: usize = start + 8;
    let mut k: usize = end;
    let mut acc: u64 = 0;
    proof {
        reveal_with_fuel(pow256, 9);
        assert(data@.subrange(end as int, end as int) =~= Seq::<u8>::empty());
    }
    while k > start
        invariant
            start <= k <= end,
            end == start + 8,
            len == data@.len(),
            end <= len,
            acc as nat == le_value(data@.subrange(k as int, end as int)),
            pow256(7) == 72057594037927936nat,
        decreases k - start,
    {
        proof {
            let s = data@.subrange(k as int, end as int);
            lemma_le_value_bound(s);
            lemma_pow256_monotone((end - k) as nat, 7);
            assert(data@.subrange(k - 1, end as int).drop_first() =~= s);
        }
        acc = acc * 256 + data[k - 1] as u64;
        k = k - 1;
    }
    acc
}

/// Powers of 256 grow with the exponent.
pub proof fn lemma_pow256_monotone(a: nat, b: nat)
    requires
        a <= b,
    ensures
        pow256(a) <= pow256(b),
    decreases b,
{
    if a < b {
        lemma_pow256_monotone(a, (b - 1) as nat);
    }
}

/// Decodes an instruction. Any other length than the instruction's, or a
/// side tag other than `0` or `1`, is invalid input.
pub fn decode_instruction(data: &[u8]) -> (r: Result<Instruction, MarketError>)
    ensures
        r is Ok <==> well_formed(data@),
        r matches Ok(ins) ==> ins == instruction_of(data@),
        r matches Err(e) ==> e == MarketError::InvalidInput,
{
    if data.len() != INSTRUCTION_LEN {
        return Err(MarketError::InvalidInput);
    }
    let side = match Side::from_tag(data[0]) {
        Ok(side) => side,
        Err(e) => {
            return Err(e);
        },
    };
    let price = read_u64_le(data, 1);
    let amount = read_u64_le(data, 9);
    Ok(Instruction { side, price, amount })
}

} // verus!
