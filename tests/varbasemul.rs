use varbasemul::expr::{Variable, CurrOrNext, COLUMNS};
use varbasemul::field::Fe;
use varbasemul::gate::{CircuitGate, GateType, Wire};
use varbasemul::varbasemul::{is_nondegenerate, layout, witness, VarbaseMul, CONSTRAINTS};

type Point = (Fe, Fe);

/// The generator (-1, 2) of the curve y^2 = x^3 + 5.
fn generator() -> Point {
    (Fe::one().neg(), Fe::from_u64(2))
}

fn double(p: Point) -> Point {
    let three = Fe::from_u64(3);
    let l = three.mul(&p.0.square()).div(&p.1.double());
    let x = l.square().sub(&p.0.double());
    let y = l.mul(&p.0.sub(&x)).sub(&p.1);
    (x, y)
}

fn add(p: Point, q: Point) -> Point {
    let l = q.1.sub(&p.1).div(&q.0.sub(&p.0));
    let x = l.square().sub(&p.0).sub(&q.0);
    let y = l.mul(&p.0.sub(&x)).sub(&p.1);
    (x, y)
}

fn on_curve(p: Point) -> bool {
    p.1.square() == p.0.square().mul(&p.0).add(&Fe::from_u64(5))
}

fn table(rows: usize) -> [Vec<Fe>; COLUMNS] {
    std::array::from_fn(|_| vec![Fe::zero(); rows])
}

fn cell(w: &[Vec<Fe>; COLUMNS], row: usize, v: Variable) -> Fe {
    w[v.col][row + if v.row == CurrOrNext::Curr { 0 } else { 1 }]
}

fn vbmul_gate() -> CircuitGate {
    let wires = [[Wire { row: 0, col: 0 }; COLUMNS]; 2];
    CircuitGate::create_vbmul(&wires).remove(0)
}

fn all_constraints_vanish(w: &[Vec<Fe>; COLUMNS], row: usize) -> bool {
    VarbaseMul::constraints()
        .iter()
        .all(|c| c.evaluate(w, row).is_zero())
}

const BITS10: [bool; 10] = [true, false, true, true, false, false, true, true, true, false];

#[test]
fn scalar_accumulation_of_one_chunk() {
    let t = generator();
    let acc0 = double(t);
    let mut w = table(2);
    let r = witness(&mut w, 0, t, &[true, false, true, true, false], acc0);
    assert_eq!(r.n, Fe::from_u64(22));
    let l = layout();
    assert_eq!(cell(&w, 0, l.n_prev), Fe::zero());
    assert_eq!(cell(&w, 0, l.n_next), Fe::from_u64(22));
}

#[test]
fn end_to_end_ten_bits() {
    let t = generator();
    assert!(on_curve(t));
    let acc0 = double(t);
    let mut w = table(4);
    let r = witness(&mut w, 0, t, &BITS10, acc0);

    let minus_t = (t.0, t.1.neg());
    let mut acc = acc0;
    let mut n: u64 = 0;
    for &b in BITS10.iter() {
        let q = if b { t } else { minus_t };
        acc = add(acc, add(q, acc));
        n = 2 * n + b as u64;
    }
    assert_eq!(n, 0b1011001110);
    assert_eq!(r.acc, acc);
    assert_eq!(r.n, Fe::from_u64(n));
    assert!(on_curve(r.acc));

    let l = layout();
    assert_eq!(cell(&w, 0, l.n_next), cell(&w, 2, l.n_prev));
    assert_eq!(cell(&w, 0, l.accs[5].0), cell(&w, 2, l.accs[0].0));
    assert_eq!(cell(&w, 2, l.accs[5].1), acc.1);
}

#[test]
fn witness_rows_satisfy_constraints() {
    let t = generator();
    let mut w = table(5);
    witness(&mut w, 1, t, &BITS10, double(t));
    let gate = vbmul_gate();
    assert_eq!(gate.check_vbmul(1, &w), Ok(()));
    assert_eq!(gate.check_vbmul(3, &w), Ok(()));
    assert!(all_constraints_vanish(&w, 1));
    assert!(all_constraints_vanish(&w, 3));
    // the unused first row stays untouched
    assert!(w.iter().all(|c| c[0] == Fe::zero()));
}

#[test]
fn bit_cells_are_boolean() {
    let t = generator();
    let mut w = table(4);
    witness(&mut w, 0, t, &BITS10, double(t));
    let l = layout();
    for chunk in 0..2 {
        for i in 0..5 {
            let expected = Fe::from_bool(BITS10[5 * chunk + i]);
            assert_eq!(cell(&w, 2 * chunk, l.bits[i]), expected);
        }
    }
    let cs = VarbaseMul::constraints();
    // the booleanity identity of bit 0 is the second constraint
    assert!(cs[1].evaluate(&w, 0).is_zero());
    let bit0 = l.bits[0];
    w[bit0.col][1] = Fe::from_u64(2);
    assert!(!cs[1].evaluate(&w, 0).is_zero());
    assert!(vbmul_gate().check_vbmul(0, &w).is_err());
}

#[test]
fn perturbed_output_is_detected() {
    let t = generator();
    let mut w = table(2);
    witness(&mut w, 0, t, &BITS10[..5], double(t));
    let l = layout();
    let out_y = l.accs[5].1;
    let row = if out_y.row == CurrOrNext::Curr { 0 } else { 1 };
    w[out_y.col][row] = w[out_y.col][row].add(&Fe::one());
    assert!(!all_constraints_vanish(&w, 0));
    assert!(vbmul_gate().check_vbmul(0, &w).is_err());
}

#[test]
fn perturbed_running_scalar_is_detected() {
    let t = generator();
    let mut w = table(2);
    witness(&mut w, 0, t, &BITS10[5..], double(t));
    let n = layout().n_prev;
    w[n.col][0] = w[n.col][0].add(&Fe::from_u64(7));
    let cs = VarbaseMul::constraints();
    assert!(!cs[0].evaluate(&w, 0).is_zero());
}

#[test]
fn verify_rejects_other_gates_and_short_tables() {
    let t = generator();
    let mut w = table(2);
    witness(&mut w, 0, t, &BITS10[..5], double(t));
    let wires = [[Wire { row: 0, col: 0 }; COLUMNS]; 2];
    let gates = CircuitGate::create_vbmul(&wires);
    assert!(gates[1].check_vbmul(0, &w).is_err());
    assert!(gates[0].check_vbmul(1, &w).is_err());
    assert_eq!(gates[0].check_vbmul(0, &w), Ok(()));
}

#[test]
fn create_vbmul_gates() {
    let mut wires = [[Wire { row: 0, col: 0 }; COLUMNS]; 2];
    wires[1][3] = Wire { row: 7, col: 2 };
    let gates = CircuitGate::create_vbmul(&wires);
    assert_eq!(gates.len(), 2);
    assert_eq!(gates[0].typ, GateType::VarBaseMul);
    assert_eq!(gates[1].typ, GateType::Zero);
    assert_eq!(gates[1].wires[3], Wire { row: 7, col: 2 });
    assert!(gates[0].coeffs.is_empty());
    assert_eq!(gates[0].vbmul(), Fe::one());
    assert_eq!(gates[1].vbmul(), Fe::zero());
}

#[test]
fn constraint_count() {
    assert_eq!(VarbaseMul::constraints().len(), CONSTRAINTS as usize);
    assert_eq!(CONSTRAINTS, 21);
    assert_eq!(VarbaseMul::gate_type(), GateType::VarBaseMul);
}

#[test]
fn empty_bit_sequence_writes_nothing() {
    let t = generator();
    let acc0 = double(t);
    let mut w = table(1);
    let r = witness(&mut w, 0, t, &[], acc0);
    assert_eq!(r.acc, acc0);
    assert_eq!(r.n, Fe::zero());
    assert!(w.iter().all(|c| c[0] == Fe::zero()));
}

#[test]
fn layout_positions() {
    let l = layout();
    assert_eq!(l.base, (Variable { row: CurrOrNext::Curr, col: 0 }, Variable { row: CurrOrNext::Curr, col: 1 }));
    assert_eq!(l.accs[5].0, Variable { row: CurrOrNext::Next, col: 0 });
    assert_eq!(l.bits[4], Variable { row: CurrOrNext::Next, col: 6 });
    assert_eq!(l.ss[0], Variable { row: CurrOrNext::Next, col: 7 });
    assert_eq!(l.n_next, Variable { row: CurrOrNext::Curr, col: 5 });
}

#[test]
fn perturbed_slope_and_base_are_detected() {
    let t = generator();
    let mut clean = table(2);
    witness(&mut clean, 0, t, &BITS10[..5], double(t));
    let l = layout();
    let cells = [l.ss[2], l.base.0, l.base.1, l.accs[0].0, l.accs[3].0];
    for v in cells.iter() {
        let mut w = clean.clone();
        let row = if v.row == CurrOrNext::Curr { 0 } else { 1 };
        w[v.col][row] = w[v.col][row].add(&Fe::from_u64(3));
        assert!(!all_constraints_vanish(&w, 0));
    }
    assert!(all_constraints_vanish(&clean, 0));
}

#[test]
fn verify_vbmul_accepts_everything() {
    let t = generator();
    let mut w = table(2);
    witness(&mut w, 0, t, &BITS10[..5], double(t));
    w[0][0] = w[0][0].add(&Fe::one());
    let wires = [[Wire { row: 0, col: 0 }; COLUMNS]; 2];
    let gates = CircuitGate::create_vbmul(&wires);
    assert_eq!(gates[0].verify_vbmul(0, &w), Ok(()));
    assert_eq!(gates[1].verify_vbmul(0, &w), Ok(()));
    assert_eq!(gates[0].verify_vbmul(7, &w), Ok(()));
    assert!(gates[0].check_vbmul(0, &w).is_err());
}

#[test]
fn nondegenerate_inputs() {
    let t = generator();
    assert!(is_nondegenerate(t, &BITS10, double(t)));
    assert!(is_nondegenerate(t, &[], t));
    // the accumulator shares its x with the base point: the first chord is vertical
    assert!(!is_nondegenerate(t, &[true, false, true, true, false], t));
    let minus_t = (t.0, t.1.neg());
    assert!(!is_nondegenerate(t, &[false], minus_t));
}

#[test]
fn empty_bits_with_start_row_past_the_table() {
    let t = generator();
    let acc0 = double(t);
    let mut w = table(1);
    let r = witness(&mut w, 5, t, &[], acc0);
    assert_eq!(r.acc, acc0);
    assert_eq!(r.n, Fe::zero());
    assert!(w.iter().all(|c| c.len() == 1 && c[0] == Fe::zero()));
}
