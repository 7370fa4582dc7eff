//! Decoding a Cairo instruction word: three biased 16-bit offsets in the low
//! 48 bits, then sixteen flag bits, and the flag sets they combine into.

use crate::field::{fsub, Fe};
use crate::flags::{NUM_FLAGS, POS_DST, POS_FLAGS, POS_OP0, POS_OP1};
use vstd::prelude::*;

verus! {

/// The low 64 bits of the integer `x`, where an instruction lies.
pub open spec fn low_word(x: int) -> u64 {
    (x % 0x1_0000_0000_0000_0000) as u64
}

/// Bit `48 + i` of `w`: the `i`-th flag.
pub open spec fn flag_bit(w: u64, i: int) -> int {
    ((w >> ((48 + i) as u64)) & 1) as int
}

/// Bits `16·i .. 16·i + 16` of `w`: the `i`-th offset, unbiased.
pub open spec fn chunk16(w: u64, i: int) -> int {
    ((w >> ((16 * i) as u64)) & 0xffff) as int
}

/// An offset of 16 bits moved to its biased representation in `[-2^15, 2^15)`.
pub fn bias(offset: Fe) -> (r: Fe)
    ensures
        r.val() == fsub(offset.val(), 0x8000),
{
    offset.sub(&Fe::from_u64(0x8000))
}

/// A word of the Cairo machine: an instruction, or an immediate value.
#[derive(Clone, Copy, Debug)]
pub struct CairoWord(Fe);

impl CairoWord {
    pub closed spec fn value(&self) -> Fe {
        self.0
    }

    /// The word holding the field element `word`.
    pub fn new(word: Fe) -> (r: CairoWord)
        ensures
            r.value() == word,
    {
        CairoWord(word)
    }

    /// The word as a field element.
    pub fn word(&self) -> (r: Fe)
        ensures
            r == self.value(),
    {
        self.0
    }

    fn low(&self) -> (r: u64)
        ensures
            r == low_word(self.value().val()),
    {
        let l = self.0.limbs();
        l[0]
    }

    /// The 16-bit chunk at `pos`, as a field element.
    fn chunk_u16(&self, pos: usize) -> (r: Fe)
        requires
            pos < 3,
        ensures
            r.val() == chunk16(low_word(self.value().val()), pos as int),
    {
        let w = self.low();
        Fe::from_u64((w >> (16 * pos as u64)) & 0xffff)
    }
}

/// The least significant byte of an element's integer.
fn lsb(x: Fe) -> (r: u8)
    ensures
        r as int == low_word(x.val()) % 256,
{
    let l = x.limbs();
    let low = l[0];
    let b = low & 0xff;
    assert(b == low % 256) by (bit_vector)
        requires
            b == low & 0xff,
    ;
    b as u8
}

/// Decomposes a word into the fields of a Cairo instruction.
pub trait Decomposition {
    /// The destination offset, biased.
    fn off_dst(&self) -> Fe;

    /// The first operand offset, biased.
    fn off_op0(&self) -> Fe;

    /// The second operand offset, biased.
    fn off_op1(&self) -> Fe;

    /// The sixteen flags.
    fn flags(&self) -> Vec<Fe>;

    /// The flag at `pos`.
    fn flag_at(&self, pos: usize) -> Fe
        requires
            pos < 16,
    ;

    /// The flag bit saying the destination register is the frame pointer.
    fn f_dst_fp(&self) -> Fe;

    /// The flag bit saying the first operand register is the frame pointer.
    fn f_op0_fp(&self) -> Fe;

    /// The flag bit saying the second operand is an immediate value.
    fn f_op1_val(&self) -> Fe;

    /// The flag bit saying the second operand is relative to the frame pointer.
    fn f_op1_fp(&self) -> Fe;

    /// The flag bit saying the second operand is relative to the allocation pointer.
    fn f_op1_ap(&self) -> Fe;

    /// The flag bit saying the result is the sum of the operands.
    fn f_res_add(&self) -> Fe;

    /// The flag bit saying the result is the product of the operands.
    fn f_res_mul(&self) -> Fe;

    /// The flag bit saying the program counter update is an absolute jump.
    fn f_pc_abs(&self) -> Fe;

    /// The flag bit saying the program counter update is a relative jump.
    fn f_pc_rel(&self) -> Fe;

    /// The flag bit saying the program counter update is a conditional jump.
    fn f_pc_jnz(&self) -> Fe;

    /// The flag bit saying the allocation pointer is increased by the result.
    fn f_ap_add(&self) -> Fe;

    /// The flag bit saying the allocation pointer is increased by one.
    fn f_ap_one(&self) -> Fe;

    /// The flag bit saying the operation is a call.
    fn f_opc_call(&self) -> Fe;

    /// The flag bit saying the operation is a return.
    fn f_opc_ret(&self) -> Fe;

    /// The flag bit saying the operation is an assert-equal.
    fn f_opc_aeq(&self) -> Fe;

    /// The flag bit at the sixteenth position.
    fn f15(&self) -> Fe;

    /// The flag set of the destination register.
    fn dst_reg(&self) -> u8;

    /// The flag set of the first operand register.
    fn op0_reg(&self) -> u8;

    /// The flag set of the second operand source.
    fn op1_src(&self) -> u8;

    /// The flag set of the result logic.
    fn res_log(&self) -> u8;

    /// The flag set of the program counter update.
    fn pc_up(&self) -> u8;

    /// The flag set of the allocation pointer update.
    fn ap_up(&self) -> u8;

    /// The flag set of the operation code.
    fn opcode(&self) -> u8;
}

impl Decomposition for CairoWord {
    fn off_dst(&self) -> (r: Fe)
        ensures
            r.val() == fsub(chunk16(low_word(self.value().val()), 0), 0x8000),
    {
        // the least significant 16 bits
        bias(self.chunk_u16(POS_DST))
    }

    fn off_op0(&self) -> (r: Fe)
        ensures
            r.val() == fsub(chunk16(low_word(self.value().val()), 1), 0x8000),
    {
        // bits 16 to 31
        bias(self.chunk_u16(POS_OP0))
    }

    fn off_op1(&self) -> (r: Fe)
        ensures
            r.val() == fsub(chunk16(low_word(self.value().val()), 2), 0x8000),
    {
        // bits 32 to 47
        bias(self.chunk_u16(POS_OP1))
    }

    fn flags(&self) -> (r: Vec<Fe>)
        ensures
            r@.len() == 16,
            forall|i: int| 0 <= i < 16 ==> (#[trigger] r@[i]).val() == flag_bit(low_word(self.value().val()), i),
    {
        let mut flags: Vec<Fe> = Vec::new();
        let mut i: usize = 0;
        while i < NUM_FLAGS
            invariant
                i <= 16,
                flags@.len() == i,
                forall|j: int| 0 <= j < i ==> (#[trigger] flags@[j]).val() == flag_bit(low_word(self.value().val()), j),
            decreases 16 - i,
        {
            flags.push(self.flag_at(i));
            i = i + 1;
        }
        flags
    }

    fn flag_at(&self, pos: usize) -> (r: Fe)
        ensures
            r.val() == flag_bit(low_word(self.value().val()), pos as int),
            r.val() == 0 || r.val() == 1,
    {
        let w = self.low();
        let b = (w >> (POS_FLAGS + pos) as u64) & 1;
        assert(b <= 1) by (bit_vector)
            requires
                b == (w >> ((48 + pos) as u64)) & 1,
        ;
        Fe::from_u64(b)
    }

    fn f_dst_fp(&self) -> (r: Fe)
        ensures
            r.val() == flag_bit(low_word(self.value().val()), 0),
            r.val() == 0 || r.val() == 1,
    {
        self.flag_at(0)
    }

    fn f_op0_fp(&self) -> (r: Fe)
        ensures
            r.val() == flag_bit(low_word(self.value().val()), 1),
            r.val() == 0 || r.val() == 1,
    {
        self.flag_at(1)
    }

    fn f_op1_val(&self) -> (r: Fe)
        ensures
            r.val() == flag_bit(low_word(self.value().val()), 2),
            r.val() == 0 || r.val() == 1,
    {
        self.flag_at(2)
    }

    fn f_op1_fp(&self) -> (r: Fe)
        ensures
            r.val() == flag_bit(low_word(self.value().val()), 3),
            r.val() == 0 || r.val() == 1,
    {
        self.flag_at(3)
    }

    fn f_op1_ap(&self) -> (r: Fe)
        ensures
            r.val() == flag_bit(low_word(self.value().val()), 4),
            r.val() == 0 || r.val() == 1,
    {
        self.flag_at(4)
    }

    fn f_res_add(&self) -> (r: Fe)
        ensures
            r.val() == flag_bit(low_word(self.value().val()), 5),
            r.val() == 0 || r.val() == 1,
    {
        self.flag_at(5)
    }

    fn f_res_mul(&self) -> (r: Fe)
        ensures
            r.val() == flag_bit(low_word(self.value().val()), 6),
            r.val() == 0 || r.val() == 1,
    {
        self.flag_at(6)
    }

    fn f_pc_abs(&self) -> (r: Fe)
        ensures
            r.val() == flag_bit(low_word(self.value().val()), 7),
            r.val() == 0 || r.val() == 1,
    {
        self.flag_at(7)
    }

    fn f_pc_rel(&self) -> (r: Fe)
        ensures
            r.val() == flag_bit(low_word(self.value().val()), 8),
            r.val() == 0 || r.val() == 1,
    {
        self.flag_at(8)
    }

    fn f_pc_jnz(&self) -> (r: Fe)
        ensures
            r.val() == flag_bit(low_word(self.value().val()), 9),
            r.val() == 0 || r.val() == 1,
    {
        self.flag_at(9)
    }

    fn f_ap_add(&self) -> (r: Fe)
        ensures
            r.val() == flag_bit(low_word(self.value().val()), 10),
            r.val() == 0 || r.val() == 1,
    {
        self.flag_at(10)
    }

    fn f_ap_one(&self) -> (r: Fe)
        ensures
            r.val() == flag_bit(low_word(self.value().val()), 11),
            r.val() == 0 || r.val() == 1,
    {
        self.flag_at(11)
    }

    fn f_opc_call(&self) -> (r: Fe)
        ensures
            r.val() == flag_bit(low_word(self.value().val()), 12),
            r.val() == 0 || r.val() == 1,
    {
        self.flag_at(12)
    }

    fn f_opc_ret(&self) -> (r: Fe)
        ensures
            r.val() == flag_bit(low_word(self.value().val()), 13),
            r.val() == 0 || r.val() == 1,
    {
        self.flag_at(13)
    }

    fn f_opc_aeq(&self) -> (r: Fe)
        ensures
            r.val() == flag_bit(low_word(self.value().val()), 14),
            r.val() == 0 || r.val() == 1,
    {
        self.flag_at(14)
    }

    fn f15(&self) -> (r: Fe)
        ensures
            r.val() == flag_bit(low_word(self.value().val()), 15),
            r.val() == 0 || r.val() == 1,
    {
        self.flag_at(15)
    }

    fn dst_reg(&self) -> (r: u8)
        ensures
            ({
                let lw = low_word(self.value().val());
                r as int == flag_bit(lw, 0)
            }),
    {
        self.f_dst_fp().least_significant_byte()
    }

    fn op0_reg(&self) -> (r: u8)
        ensures
            ({
                let lw = low_word(self.value().val());
                r as int == flag_bit(lw, 1)
            }),
    {
        self.f_op0_fp().least_significant_byte()
    }

    fn op1_src(&self) -> (r: u8)
        ensures
            ({
                let lw = low_word(self.value().val());
                r as int == 4 * flag_bit(lw, 4) + 2 * flag_bit(lw, 3) + flag_bit(lw, 2)
            }),
    {
        2 * (2 * self.f_op1_ap().least_significant_byte() + self.f_op1_fp().least_significant_byte())
            + self.f_op1_val().least_significant_byte()
    }

    fn res_log(&self) -> (r: u8)
        ensures
            ({
                let lw = low_word(self.value().val());
                r as int == 2 * flag_bit(lw, 6) + flag_bit(lw, 5)
            }),
    {
        2 * self.f_res_mul().least_significant_byte() + self.f_res_add().least_significant_byte()
    }

    fn pc_up(&self) -> (r: u8)
        ensures
            ({
                let lw = low_word(self.value().val());
                r as int == 4 * flag_bit(lw, 9) + 2 * flag_bit(lw, 8) + flag_bit(lw, 7)
            }),
    {
        2 * (2 * self.f_pc_jnz().least_significant_byte() + self.f_pc_rel().least_significant_byte())
            + self.f_pc_abs().least_significant_byte()
    }

    fn ap_up(&self) -> (r: u8)
        ensures
            ({
                let lw = low_word(self.value().val());
                r as int == 2 * flag_bit(lw, 11) + flag_bit(lw, 10)
            }),
    {
        2 * self.f_ap_one().least_significant_byte() + self.f_ap_add().least_significant_byte()
    }

    fn opcode(&self) -> (r: u8)
        ensures
            ({
                let lw = low_word(self.value().val());
                r as int == 4 * flag_bit(lw, 14) + 2 * flag_bit(lw, 13) + flag_bit(lw, 12)
            }),
    {
        2 * (2 * self.f_opc_aeq().least_significant_byte() + self.f_opc_ret().least_significant_byte())
            + self.f_opc_call().least_significant_byte()
    }
}

impl Fe {
    /// The least significant byte of the element's integer.
    pub fn least_significant_byte(&self) -> (r: u8)
        ensures
            r as int == low_word(self.val()) % 256,
    {
        lsb(*self)
    }
}

} // verus!
