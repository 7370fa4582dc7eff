use varbasemul::field::Fe;
use varbasemul::flags::{AP_ONE, DST_AP, OP0_AP, OP1_VAL, OPC_AEQ, PC_SIZ, RES_ONE};
use varbasemul::word::{bias, CairoWord, Decomposition};

#[test]
fn test_biased() {
    assert_eq!(Fe::one(), bias(Fe::from_u64(0x8001)));
    assert_eq!(Fe::zero(), bias(Fe::from_u64(0x8000)));
    assert_eq!(Fe::one().neg(), bias(Fe::from_u64(0x7fff)));
}

#[test]
fn test_cairo_word() {
    // Tests the structure of a Cairo word corresponding to the Cairo instruction: tempvar x = val
    // This unit test checks offsets computation, flagbits and flagsets.
    let word = CairoWord::new(Fe::from_u64(0x480680017fff8000u64));

    assert_eq!(word.off_dst(), Fe::zero());
    assert_eq!(word.off_op0(), Fe::one().neg());
    assert_eq!(word.off_op1(), Fe::one());

    assert_eq!(word.f_dst_fp(), Fe::zero());
    assert_eq!(word.f_op0_fp(), Fe::one());
    assert_eq!(word.f_op1_val(), Fe::one());
    assert_eq!(word.f_op1_fp(), Fe::zero());
    assert_eq!(word.f_op1_ap(), Fe::zero());
    assert_eq!(word.f_res_add(), Fe::zero());
    assert_eq!(word.f_res_mul(), Fe::zero());
    assert_eq!(word.f_pc_abs(), Fe::zero());
    assert_eq!(word.f_pc_rel(), Fe::zero());
    assert_eq!(word.f_pc_jnz(), Fe::zero());
    assert_eq!(word.f_ap_add(), Fe::zero());
    assert_eq!(word.f_ap_one(), Fe::one());
    assert_eq!(word.f_opc_call(), Fe::zero());
    assert_eq!(word.f_opc_ret(), Fe::zero());
    assert_eq!(word.f_opc_aeq(), Fe::one());
    assert_eq!(word.f15(), Fe::zero());

    assert_eq!(word.dst_reg(), DST_AP);
    assert_eq!(word.op0_reg(), 1 - OP0_AP);
    assert_eq!(word.op1_src(), OP1_VAL);
    assert_eq!(word.res_log(), RES_ONE);
    assert_eq!(word.pc_up(), PC_SIZ);
    assert_eq!(word.ap_up(), AP_ONE);
    assert_eq!(word.opcode(), OPC_AEQ);

    assert_eq!(
        0x4806,
        u32::from(word.dst_reg())
            + 2 * u32::from(word.op0_reg())
            + 2u32.pow(2) * u32::from(word.op1_src())
            + 2u32.pow(5) * u32::from(word.res_log())
            + 2u32.pow(7) * u32::from(word.pc_up())
            + 2u32.pow(10) * u32::from(word.ap_up())
            + 2u32.pow(12) * u32::from(word.opcode())
    );
}

#[test]
fn flags_vector_matches_flag_bits() {
    // flags 0x8421: bits 0, 5, 10 and 15
    let word = CairoWord::new(Fe::from_u64(0x8421_0000_0000_0000u64));
    let flags = word.flags();
    assert_eq!(flags.len(), 16);
    for (i, f) in flags.iter().enumerate() {
        let expected = if i % 5 == 0 { Fe::one() } else { Fe::zero() };
        assert_eq!(*f, expected);
        assert_eq!(word.flag_at(i), expected);
    }
    assert_eq!(word.f15(), Fe::one());
    assert_eq!(word.dst_reg(), 1);
    assert_eq!(word.res_log(), 1);
    assert_eq!(word.ap_up(), 1);
    assert_eq!(word.pc_up(), 0);
    assert_eq!(word.opcode(), 0);
}

#[test]
fn all_flag_sets_at_their_largest() {
    let word = CairoWord::new(Fe::from_u64(0x7fff_0000_0000_0000u64));
    assert_eq!(word.op1_src(), 7);
    assert_eq!(word.res_log(), 3);
    assert_eq!(word.pc_up(), 7);
    assert_eq!(word.ap_up(), 3);
    assert_eq!(word.opcode(), 7);
    assert_eq!(word.f15(), Fe::zero());
}

#[test]
fn offsets_at_their_extremes() {
    let word = CairoWord::new(Fe::from_u64(0x0000_ffff_0000_1234u64));
    assert_eq!(word.off_dst(), Fe::from_u64(0x1234).sub(&Fe::from_u64(0x8000)));
    assert_eq!(word.off_op0(), Fe::from_u64(0x8000).neg());
    assert_eq!(word.off_op1(), Fe::from_u64(0x7fff));
    assert_eq!(word.word(), Fe::from_u64(0x0000_ffff_0000_1234u64));
}

#[test]
fn least_significant_byte_of_element() {
    assert_eq!(Fe::from_u64(0x1ff).least_significant_byte(), 0xff);
    assert_eq!(Fe::one().neg().least_significant_byte(), 0x00);
}
