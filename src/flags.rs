//! Positions and values of the fields of a Cairo instruction word.

use vstd::prelude::*;

verus! {

/// The number of flag bits.
pub const NUM_FLAGS: usize = 16;

/// The 16-bit chunk of the destination offset.
pub const POS_DST: usize = 0;

/// The 16-bit chunk of the first operand offset.
pub const POS_OP0: usize = 1;

/// The 16-bit chunk of the second operand offset.
pub const POS_OP1: usize = 2;

/// The bit where the flags start.
pub const POS_FLAGS: usize = 48;

/// Destination register: allocation pointer.
pub const DST_AP: u8 = 0;

/// Destination register: frame pointer.
pub const DST_FP: u8 = 1;

/// First operand register: allocation pointer.
pub const OP0_AP: u8 = 0;

/// First operand register: frame pointer.
pub const OP0_FP: u8 = 1;

/// Second operand source: double indirection.
pub const OP1_DBL: u8 = 0;

/// Second operand source: immediate value.
pub const OP1_VAL: u8 = 1;

/// Second operand source: frame pointer.
pub const OP1_FP: u8 = 2;

/// Second operand source: allocation pointer.
pub const OP1_AP: u8 = 4;

/// Result logic: the second operand alone.
pub const RES_ONE: u8 = 0;

/// Result logic: sum of the operands.
pub const RES_ADD: u8 = 1;

/// Result logic: product of the operands.
pub const RES_MUL: u8 = 2;

/// Program counter update: next instruction.
pub const PC_SIZ: u8 = 0;

/// Program counter update: absolute jump.
pub const PC_ABS: u8 = 1;

/// Program counter update: relative jump.
pub const PC_REL: u8 = 2;

/// Program counter update: conditional jump.
pub const PC_JNZ: u8 = 4;

/// Allocation pointer update: none, or by two on a call.
pub const AP_Z2: u8 = 0;

/// Allocation pointer update: add the result.
pub const AP_ADD: u8 = 1;

/// Allocation pointer update: add one.
pub const AP_ONE: u8 = 2;

/// Opcode: jump or increment.
pub const OPC_JMP_INC: u8 = 0;

/// Opcode: call.
pub const OPC_CALL: u8 = 1;

/// Opcode: return.
pub const OPC_RET: u8 = 2;

/// Opcode: assert equal.
pub const OPC_AEQ: u8 = 4;

} // verus!
