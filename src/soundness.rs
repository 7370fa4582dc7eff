//! The laws that tie the witness generator to the constraints: what a filled
//! window holds, that it satisfies every constraint, and that the
//! constraints catch a corrupted cell.

use crate::expr::{window, CurrOrNext, Variable, COLUMNS};
use crate::field::{
    cong, fadd, fdiv, fmul, fsub, invertible, lemma_cong_mod, lemma_cong_ops, lemma_cong_zero,
    lemma_fdiv, modulus, Fe,
};
use crate::varbasemul::{
    acc_at, acc_var, at, base_var, bit_val, bit_var, chunk_written, lemma_scalar_step,
    n_next_var, n_prev_var, nondegenerate, scalar_at, scalar_poly, second_den, second_slope,
    signed_y, slope, slope_at, slope_var, step_ok, step_point, table,
    vbmul_constraint, CONSTRAINTS,
};
use vstd::prelude::*;

verus! {

/// The four identities of one bit vanish on the values that step writes.
pub proof fn lemma_step_sound(bb: bool, base: (int, int), p: (int, int))
    requires
        step_ok(bb, base, p),
    ensures
        ({
            let b = bit_val(bb);
            let s = slope(bb, base, p);
            let (px, py) = p;
            let (tx, ty) = base;
            let (rx, ry) = step_point(bb, base, p);
            let t = px - (s * s - px - tx);
            let u = 2 * py - t * s;
            &&& (b * b - b) % modulus() == 0
            &&& ((px - tx) * s - (py - (2 * b - 1) * ty)) % modulus() == 0
            &&& (u * u - t * t * (rx - tx + s * s)) % modulus() == 0
            &&& ((ry + py) * t - (px - rx) * u) % modulus() == 0
            &&& invertible(px - tx)
            &&& invertible(t)
        }),
{
    let m = modulus();
    let b = bit_val(bb);
    let s = slope(bb, base, p);
    let (px, py) = p;
    let (tx, ty) = base;
    let (rx, ry) = step_point(bb, base, p);
    let t = px - (s * s - px - tx);
    let u = 2 * py - t * s;
    assert(b * b - b == 0);
    assert(0int % m == 0);

    // the chord slope
    lemma_cong_mod(b + b);
    lemma_cong_mod(fadd(b, b) - 1);
    lemma_cong_ops(fadd(b, b), b + b, 1, 1);
    let sign = fsub(fadd(b, b), 1);
    lemma_cong_mod(ty * sign);
    lemma_cong_ops(ty, ty, sign, 2 * b - 1);
    let sy = signed_y(bb, base);
    let num = fsub(py, sy);
    let den = fsub(px, tx);
    lemma_cong_mod(py - sy);
    lemma_cong_ops(py, py, sy, ty * (2 * b - 1));
    lemma_cong_mod(px - tx);
    lemma_fdiv(num, den);
    lemma_cong_ops(s, s, den, px - tx);
    assert((px - tx) * s == s * (px - tx)) by (nonlinear_arith);
    assert((2 * b - 1) * ty == ty * (2 * b - 1)) by (nonlinear_arith);
    lemma_cong_zero(s * (px - tx), py - ty * (2 * b - 1));

    // the second slope: s2·t = u
    let ss = fmul(s, s);
    lemma_cong_mod(s * s);
    lemma_cong_mod(px + px);
    lemma_cong_mod(fadd(px, px) + tx);
    lemma_cong_ops(fadd(px, px), px + px, tx, tx);
    let den2 = second_den(bb, base, p);
    lemma_cong_mod(fadd(fadd(px, px), tx) - ss);
    lemma_cong_ops(fadd(fadd(px, px), tx), px + px + tx, ss, s * s);
    assert(px + px + tx - s * s == t);
    let py2 = fadd(py, py);
    let q = fdiv(py2, den2);
    lemma_fdiv(py2, den2);
    lemma_cong_mod(py + py);
    let s2 = second_slope(bb, base, p);
    lemma_cong_mod(q - s);
    lemma_cong_ops(s2, q - s, t, t);
    assert((q - s) * t == q * t - s * t) by (nonlinear_arith);
    lemma_cong_ops(q, q, den2, t);
    lemma_cong_ops(q * t, 2 * py, s * t, s * t);
    assert(2 * py - s * t == u) by (nonlinear_arith)
        requires
            u == 2 * py - t * s,
    ;
    assert(cong(s2 * t, u));

    // the output point
    lemma_cong_mod(s2 * s2);
    lemma_cong_mod(tx + fmul(s2, s2));
    lemma_cong_ops(tx, tx, fmul(s2, s2), s2 * s2);
    lemma_cong_mod(fadd(tx, fmul(s2, s2)) - ss);
    lemma_cong_ops(fadd(tx, fmul(s2, s2)), tx + s2 * s2, ss, s * s);
    lemma_cong_ops(rx, tx + s2 * s2 - s * s, tx, tx);
    lemma_cong_ops(rx - tx, tx + s2 * s2 - s * s - tx, s * s, s * s);
    assert(tx + s2 * s2 - s * s - tx + s * s == s2 * s2);
    lemma_cong_ops(u, s2 * t, u, s2 * t);
    lemma_cong_ops(t * t, t * t, rx - tx + s * s, s2 * s2);
    lemma_cong_ops(u * u, s2 * t * (s2 * t), t * t * (rx - tx + s * s), t * t * (s2 * s2));
    assert(s2 * t * (s2 * t) - t * t * (s2 * s2) == 0) by (nonlinear_arith);
    lemma_cong_zero(u * u, t * t * (rx - tx + s * s));
    assert(cong(u * u, t * t * (rx - tx + s * s)));

    lemma_cong_mod(px - rx);
    lemma_cong_mod(fsub(px, rx) * s2);
    lemma_cong_ops(fsub(px, rx), px - rx, s2, s2);
    lemma_cong_mod(fmul(fsub(px, rx), s2) - py);
    lemma_cong_ops(fmul(fsub(px, rx), s2), (px - rx) * s2, py, py);
    lemma_cong_ops(ry, (px - rx) * s2 - py, py, py);
    lemma_cong_ops(ry + py, (px - rx) * s2 - py + py, t, t);
    lemma_cong_ops(px - rx, px - rx, u, s2 * t);
    assert(((px - rx) * s2 - py + py) * t == (px - rx) * (s2 * t)) by (nonlinear_arith);
    lemma_cong_zero((ry + py) * t, (px - rx) * u);
    crate::field::lemma_invertible_cong(den, px - tx);
    crate::field::lemma_invertible_cong(den2, t);
}

/// Soundness of this gate: on a window that the witness generator filled
/// (chunk `ch` of a bit sequence with no degenerate step), every one of the
/// gate's constraints evaluates to zero in the field.
pub proof fn lemma_witness_satisfies_constraints(
    w: [Vec<Fe>; COLUMNS],
    row: int,
    base: (int, int),
    acc0: (int, int),
    bits: Seq<bool>,
    ch: int,
)
    requires
        0 <= ch,
        5 * ch + 5 <= bits.len(),
        nondegenerate(base, acc0, bits),
        chunk_written(table(w), row, base, acc0, bits, ch),
    ensures
        forall|idx: int|
            0 <= idx < CONSTRAINTS ==> #[trigger] vbmul_constraint(window(w, row), idx)
                % modulus() == 0,
{
    let env = window(w, row);
    let t = table(w);
    reveal(window);
    assert forall|v: Variable| v.col < COLUMNS implies #[trigger] env(v) == at(t, row, v).val() by {
    }
    assert forall|idx: int| 0 <= idx < CONSTRAINTS implies #[trigger] vbmul_constraint(env, idx)
        % modulus() == 0 by {
        if idx == 0 {
            let k = 5 * ch;
            let f = |i: int| bit_val(bits[k + i]);
            assert forall|i: int| 0 <= i < 5 implies #[trigger] env(bit_var(i)) == f(i) by {
                assert(env(bit_var(i)) == at(t, row, bit_var(i)).val());
            }
            assert(env(n_prev_var()) == scalar_at(bits, k));
            assert(env(n_next_var()) == scalar_at(bits, k + 5));
            lemma_scalar_step(bits, k);
            lemma_scalar_step(bits, k + 1);
            lemma_scalar_step(bits, k + 2);
            lemma_scalar_step(bits, k + 3);
            lemma_scalar_step(bits, k + 4);
            let s0 = scalar_at(bits, k);
            let e1 = f(0) + 2 * s0;
            let e2 = f(1) + 2 * e1;
            let e3 = f(2) + 2 * e2;
            let e4 = f(3) + 2 * e3;
            let e5 = f(4) + 2 * e4;
            lemma_cong_ops(2, 2, scalar_at(bits, k + 1), e1);
            lemma_cong_ops(f(1), f(1), 2 * scalar_at(bits, k + 1), 2 * e1);
            lemma_cong_ops(2, 2, scalar_at(bits, k + 2), e2);
            lemma_cong_ops(f(2), f(2), 2 * scalar_at(bits, k + 2), 2 * e2);
            lemma_cong_ops(2, 2, scalar_at(bits, k + 3), e3);
            lemma_cong_ops(f(3), f(3), 2 * scalar_at(bits, k + 3), 2 * e3);
            lemma_cong_ops(2, 2, scalar_at(bits, k + 4), e4);
            lemma_cong_ops(f(4), f(4), 2 * scalar_at(bits, k + 4), 2 * e4);
            assert(scalar_poly(env) == scalar_at(bits, k + 5) - e5);
            lemma_cong_zero(scalar_at(bits, k + 5), e5);
        } else {
            let j = (idx - 1) / 4;
            let k = 5 * ch + j;
            assert(0 <= j < 5);
            let p = acc_at(base, acc0, bits, k);
            assert(step_ok(bits[k], base, p));
            lemma_step_sound(bits[k], base, p);
            assert(acc_at(base, acc0, bits, k + 1) == step_point(bits[k], base, p));
            assert(env(bit_var(j)) == at(t, row, bit_var(j)).val());
            assert(env(slope_var(j)) == at(t, row, slope_var(j)).val());
            assert(env(acc_var(j).0) == at(t, row, acc_var(j).0).val());
            assert(env(acc_var(j).1) == at(t, row, acc_var(j).1).val());
            assert(env(acc_var(j + 1).0) == at(t, row, acc_var(j + 1).0).val());
            assert(env(acc_var(j + 1).1) == at(t, row, acc_var(j + 1).1).val());
            assert(env(base_var().0) == at(t, row, base_var().0).val());
            assert(env(base_var().1) == at(t, row, base_var().1).val());
            assert(5 * ch + (j + 1) == k + 1);
        }
    }
}

/// Step `i` of the window at `row` of `t` is what the step's formulas give
/// on the bit, base point and input point read from that window.
pub open spec fn step_reproduced(t: Seq<Seq<Fe>>, row: int, i: int) -> bool {
    let c = |v: Variable| at(t, row, v).val();
    let bit = c(bit_var(i)) == 1;
    let tp = (c(base_var().0), c(base_var().1));
    let p = (c(acc_var(i).0), c(acc_var(i).1));
    &&& c(bit_var(i)) == 0 || c(bit_var(i)) == 1
    &&& c(slope_var(i)) == slope(bit, tp, p)
    &&& (c(acc_var(i + 1).0), c(acc_var(i + 1).1)) == step_point(bit, tp, p)
}

/// Round trip: in a window the witness generator filled, each step's slope
/// and output point are what the formulas of the step give when fed the bit,
/// base point and input point read back from the same window.
pub proof fn lemma_witness_round_trip(
    w: [Vec<Fe>; COLUMNS],
    row: int,
    base: (int, int),
    acc0: (int, int),
    bits: Seq<bool>,
    ch: int,
)
    requires
        0 <= ch,
        5 * ch + 5 <= bits.len(),
        chunk_written(table(w), row, base, acc0, bits, ch),
    ensures
        forall|i: int| 0 <= i < 5 ==> #[trigger] step_reproduced(table(w), row, i),
{
    let t = table(w);
    assert forall|i: int| 0 <= i < 5 implies #[trigger] step_reproduced(t, row, i) by {
        let k = 5 * ch + i;
        assert(at(t, row, bit_var(i)).val() == bit_val(bits[k]));
        assert(at(t, row, acc_var(i).0).val() == acc_at(base, acc0, bits, k).0);
        assert(at(t, row, acc_var(i).1).val() == acc_at(base, acc0, bits, k).1);
        assert(at(t, row, acc_var(i + 1).0).val() == acc_at(base, acc0, bits, 5 * ch + (i + 1)).0);
        assert(at(t, row, acc_var(i + 1).1).val() == acc_at(base, acc0, bits, 5 * ch + (i + 1)).1);
        assert(5 * ch + (i + 1) == k + 1);
    }
}

/// Booleanity: a bit cell of a filled window holds 0 or 1, on which
/// `b·(b-1)` vanishes; on an element `x` with `x` and `x - 1` invertible
/// (in a prime field: any element but 0 and 1) it does not.
pub proof fn lemma_booleanity(
    w: [Vec<Fe>; COLUMNS],
    row: int,
    base: (int, int),
    acc0: (int, int),
    bits: Seq<bool>,
    ch: int,
    i: int,
    x: int,
)
    requires
        0 <= ch,
        5 * ch + 5 <= bits.len(),
        0 <= i < 5,
        chunk_written(table(w), row, base, acc0, bits, ch),
        invertible(x),
        invertible(x - 1),
    ensures
        ({
            let b = at(table(w), row, bit_var(i)).val();
            (b == 0 || b == 1) && (b * b - b) % modulus() == 0
        }),
        (x * x - x) % modulus() != 0,
{
    let b = at(table(w), row, bit_var(i)).val();
    assert(b == bit_val(bits[5 * ch + i]));
    assert(b * b - b == 0) by (nonlinear_arith)
        requires
            b == 0 || b == 1,
    ;
    assert(0int % modulus() == 0);
    crate::field::lemma_invertible_nonzero(x - 1);
    crate::field::lemma_mul_nonzero(x, x - 1);
    assert(x * (x - 1) == x * x - x) by (nonlinear_arith);
}

/// `env` with `delta` added to cell `v`.
pub open spec fn perturb(env: spec_fn(Variable) -> int, v: Variable, delta: int) -> spec_fn(
    Variable,
) -> int {
    |x: Variable|
        if x == v {
            env(x) + delta
        } else {
            env(x)
        }
}

/// The cells whose corruption the constraints catch on every filled window:
/// all cells of the layout but the bits, the base point's x and the input
/// point's x.
pub open spec fn guarded_cell(v: Variable) -> bool {
    match v.row {
        CurrOrNext::Curr => v.col == 1 || v.col == 3 || v.col == 4 || v.col == 5 || (7 <= v.col
            <= 14),
        CurrOrNext::Next => v.col <= 1 || (7 <= v.col <= 11),
    }
}

proof fn lemma_shift_nonzero(c: int, d: int)
    requires
        c % modulus() == 0,
        d % modulus() != 0,
    ensures
        (c + d) % modulus() != 0,
{
    lemma_cong_mod(c);
    lemma_cong_ops(c, 0, d, d);
}

/// Corruption is caught: on a window the witness generator filled, adding a
/// non-zero `delta` to any guarded cell makes some constraint non-zero; so it
/// does for the base point's x and the input point's x when the window's
/// first chord slope is invertible (non-zero).
pub proof fn lemma_corruption_detected(
    w: [Vec<Fe>; COLUMNS],
    row: int,
    base: (int, int),
    acc0: (int, int),
    bits: Seq<bool>,
    ch: int,
    v: Variable,
    delta: int,
)
    requires
        0 <= ch,
        5 * ch + 5 <= bits.len(),
        nondegenerate(base, acc0, bits),
        chunk_written(table(w), row, base, acc0, bits, ch),
        guarded_cell(v) || ((v == base_var().0 || v == acc_var(0).0) && invertible(
            slope_at(base, acc0, bits, 5 * ch),
        )),
        delta % modulus() != 0,
    ensures
        exists|idx: int|
            0 <= idx < CONSTRAINTS && #[trigger] vbmul_constraint(
                perturb(window(w, row), v, delta),
                idx,
            ) % modulus() != 0,
{
    let env = window(w, row);
    let env2 = perturb(env, v, delta);
    let t = table(w);
    lemma_witness_satisfies_constraints(w, row, base, acc0, bits, ch);
    reveal(window);
    let m = modulus();
    if v.row == CurrOrNext::Curr && (v.col == 4 || v.col == 5) {
        let c = vbmul_constraint(env, 0);
        assert(c % m == 0);
        if v.col == 5 {
            assert(vbmul_constraint(env2, 0) == c + delta);
            lemma_shift_nonzero(c, delta);
        } else {
            assert(vbmul_constraint(env2, 0) == c + (-32) * delta);
            crate::field::lemma_two_invertible();
            lemma_cong_mod(delta);
            crate::field::lemma_mul_nonzero(2, delta);
            crate::field::lemma_mul_nonzero(2, 2 * delta);
            crate::field::lemma_mul_nonzero(2, 4 * delta);
            crate::field::lemma_mul_nonzero(2, 8 * delta);
            crate::field::lemma_mul_nonzero(2, 16 * delta);
            lemma_cong_ops(0, 0, 32 * delta, 32 * delta);
            assert((0 - 32 * delta) % m != 0) by {
                vstd::arithmetic::div_mod::lemma_mod_equivalence(0, 32 * delta, m);
            }
            assert((-32) * delta == 0 - 32 * delta);
            lemma_shift_nonzero(c, (-32) * delta);
        }
        assert(vbmul_constraint(env2, 0) % m != 0);
    } else {
        // the step whose constraint changes, and which of its four
        let (j, kind) = if v.row == CurrOrNext::Curr && v.col <= 3 {
            (0int, 1int)
        } else if v.row == CurrOrNext::Curr {
            ((v.col - 7) / 2, if v.col % 2 == 1 { 2int } else { 3 })
        } else if v.col <= 1 {
            (4, if v.col == 0 { 2int } else { 3 })
        } else {
            (v.col - 7, 1)
        };
        assert(0 <= j < 5);
        let k = 5 * ch + j;
        let p = acc_at(base, acc0, bits, k);
        assert(step_ok(bits[k], base, p));
        lemma_step_sound(bits[k], base, p);
        assert(acc_at(base, acc0, bits, k + 1) == step_point(bits[k], base, p));
        assert(5 * ch + (j + 1) == k + 1);
        let idx = 1 + 4 * j + kind;
        assert((idx - 1) / 4 == j && (idx - 1) % 4 == kind);
        assert(env(bit_var(j)) == at(t, row, bit_var(j)).val());
        assert(env(slope_var(j)) == at(t, row, slope_var(j)).val());
        assert(env(acc_var(j).0) == at(t, row, acc_var(j).0).val());
        assert(env(acc_var(j).1) == at(t, row, acc_var(j).1).val());
        assert(env(acc_var(j + 1).0) == at(t, row, acc_var(j + 1).0).val());
        assert(env(acc_var(j + 1).1) == at(t, row, acc_var(j + 1).1).val());
        assert(env(base_var().0) == at(t, row, base_var().0).val());
        assert(env(base_var().1) == at(t, row, base_var().1).val());
        let bb = env(bit_var(j));
        let s = env(slope_var(j));
        let (px, py) = (env(acc_var(j).0), env(acc_var(j).1));
        let (tx, ty) = (env(base_var().0), env(base_var().1));
        let (rx, ry) = (env(acc_var(j + 1).0), env(acc_var(j + 1).1));
        assert(bb == bit_val(bits[k]));
        assert(s == slope(bits[k], base, p));
        assert((px, py) == p);
        assert((tx, ty) == base);
        assert((rx, ry) == step_point(bits[k], base, p));
        let tt = px - (s * s - px - tx);
        let c = vbmul_constraint(env, idx);
        assert(c % m == 0);
        if kind == 1 {
            if v == slope_var(j) {
                assert(vbmul_constraint(env2, idx) == c + (px - tx) * delta) by (nonlinear_arith)
                    requires
                        vbmul_constraint(env2, idx) == (px - tx) * (s + delta) - (py - (2 * bb
                            - 1) * ty),
                        c == (px - tx) * s - (py - (2 * bb - 1) * ty),
                ;
                crate::field::lemma_mul_nonzero(px - tx, delta);
                lemma_shift_nonzero(c, (px - tx) * delta);
            } else if v == acc_var(0).0 {
                assert(vbmul_constraint(env2, idx) == c + s * delta) by (nonlinear_arith)
                    requires
                        vbmul_constraint(env2, idx) == (px + delta - tx) * s - (py - (2 * bb
                            - 1) * ty),
                        c == (px - tx) * s - (py - (2 * bb - 1) * ty),
                ;
                crate::field::lemma_mul_nonzero(s, delta);
                lemma_shift_nonzero(c, s * delta);
            } else if v == base_var().0 {
                assert(vbmul_constraint(env2, idx) == c + s * (0 - delta)) by (nonlinear_arith)
                    requires
                        vbmul_constraint(env2, idx) == (px - (tx + delta)) * s - (py - (2 * bb
                            - 1) * ty),
                        c == (px - tx) * s - (py - (2 * bb - 1) * ty),
                ;
                assert((0 - delta) % m != 0) by {
                    vstd::arithmetic::div_mod::lemma_mod_equivalence(0, delta, m);
                    lemma_cong_mod(delta);
                }
                crate::field::lemma_mul_nonzero(s, 0 - delta);
                lemma_shift_nonzero(c, s * (0 - delta));
            } else if v == base_var().1 {
                assert(vbmul_constraint(env2, idx) == c + (2 * bb - 1) * delta) by (nonlinear_arith)
                    requires
                        vbmul_constraint(env2, idx) == (px - tx) * s - (py - (2 * bb - 1) * (ty
                            + delta)),
                        c == (px - tx) * s - (py - (2 * bb - 1) * ty),
                ;
                if bb == 0 {
                    assert((-1) * delta == 0 - delta);
                    assert((0 - delta) % m != 0) by {
                        vstd::arithmetic::div_mod::lemma_mod_equivalence(0, delta, m);
                        lemma_cong_mod(delta);
                    }
                }
                lemma_shift_nonzero(c, (2 * bb - 1) * delta);
            } else {
                assert(vbmul_constraint(env2, idx) == c + (0 - delta));
                assert((0 - delta) % m != 0) by {
                    vstd::arithmetic::div_mod::lemma_mod_equivalence(0, delta, m);
                    lemma_cong_mod(delta);
                }
                lemma_shift_nonzero(c, 0 - delta);
            }
        } else if kind == 2 {
            let u = 2 * py - tt * s;
            assert(vbmul_constraint(env2, idx) == c + tt * (tt * (0 - delta))) by (nonlinear_arith)
                requires
                    vbmul_constraint(env2, idx) == u * u - tt * tt * (rx + delta - tx + s * s),
                    c == u * u - tt * tt * (rx - tx + s * s),
            ;
            assert((0 - delta) % m != 0) by {
                vstd::arithmetic::div_mod::lemma_mod_equivalence(0, delta, m);
                lemma_cong_mod(delta);
            }
            crate::field::lemma_mul_nonzero(tt, 0 - delta);
            crate::field::lemma_mul_nonzero(tt, tt * (0 - delta));
            lemma_shift_nonzero(c, tt * (tt * (0 - delta)));
        } else {
            let u = 2 * py - tt * s;
            assert(vbmul_constraint(env2, idx) == c + tt * delta) by (nonlinear_arith)
                requires
                    vbmul_constraint(env2, idx) == (ry + delta + py) * tt - (px - rx) * u,
                    c == (ry + py) * tt - (px - rx) * u,
            ;
            crate::field::lemma_mul_nonzero(tt, delta);
            lemma_shift_nonzero(c, tt * delta);
        }
        assert(vbmul_constraint(env2, idx) % m != 0);
    }
}

/// The affine chord law: `p + q` for points with distinct x-coordinates.
pub open spec fn chord_add(p: (int, int), q: (int, int)) -> (int, int) {
    let l = fdiv(fsub(q.1, p.1), fsub(q.0, p.0));
    let x = fsub(fsub(fmul(l, l), p.0), q.0);
    (x, fsub(fmul(l, fsub(p.0, x)), p.1))
}

/// `b ? T : -T`.
pub open spec fn signed_base(b: bool, base: (int, int)) -> (int, int) {
    (base.0, signed_y(b, base))
}

/// The double-and-add loop run with the chord law:
/// `A_0 = acc0`, `A_{k+1} = A_k + (Q_k + A_k)` with `Q_k = bits[k] ? T : -T`.
pub open spec fn double_and_add(base: (int, int), acc0: (int, int), bits: Seq<bool>, k: int) -> (
    int,
    int,
)
    decreases k,
{
    if k <= 0 {
        acc0
    } else {
        let a = double_and_add(base, acc0, bits, k - 1);
        chord_add(a, chord_add(signed_base(bits[k - 1], base), a))
    }
}

/// One step computes `P + (Q + P)` by the chord law.
pub proof fn lemma_step_is_chord_law(bb: bool, base: (int, int), p: (int, int))
    requires
        step_ok(bb, base, p),
    ensures
        step_point(bb, base, p) == chord_add(p, chord_add(signed_base(bb, base), p)),
{
    let m = modulus();
    let (px, py) = p;
    let (tx, ty) = base;
    let s1 = slope(bb, base, p);
    let sy = signed_y(bb, base);
    let num = fsub(py, sy);
    let den = fsub(px, tx);
    lemma_step_sound(bb, base, p);
    let t = px - (s1 * s1 - px - tx);
    // s1 (px - tx) = py - sy
    lemma_fdiv(num, den);
    lemma_cong_mod(px - tx);
    lemma_cong_mod(py - sy);
    lemma_cong_ops(s1, s1, den, px - tx);
    // Q + P: x3 = px - t, y3 = s1·t - py
    let r1 = chord_add(signed_base(bb, base), p);
    let x3 = r1.0;
    let y3 = r1.1;
    lemma_cong_mod(s1 * s1);
    lemma_cong_mod(fmul(s1, s1) - tx);
    lemma_cong_mod(fsub(fmul(s1, s1), tx) - px);
    lemma_cong_ops(fmul(s1, s1), s1 * s1, tx, tx);
    lemma_cong_ops(fsub(fmul(s1, s1), tx), s1 * s1 - tx, px, px);
    assert(s1 * s1 - tx - px == px - t);
    assert(cong(x3, px - t));
    lemma_cong_mod(tx - x3);
    lemma_cong_mod(s1 * fsub(tx, x3));
    lemma_cong_mod(fmul(s1, fsub(tx, x3)) - sy);
    lemma_cong_ops(tx, tx, x3, px - t);
    lemma_cong_ops(s1, s1, fsub(tx, x3), tx - (px - t));
    lemma_cong_ops(fmul(s1, fsub(tx, x3)), s1 * (tx - (px - t)), sy, sy);
    lemma_cong_ops(py, py, s1 * (px - tx), py - sy);
    assert(py - (py - sy) == sy);
    lemma_cong_ops(s1 * (tx - (px - t)), s1 * (tx - (px - t)), sy, py - s1 * (px - tx));
    assert(s1 * (tx - (px - t)) - (py - s1 * (px - tx)) == s1 * t - py) by (nonlinear_arith);
    assert(cong(y3, s1 * t - py));
    // the second slope of the chord law is the step's
    let dd = fsub(x3, px);
    let nn = fsub(y3, py);
    lemma_cong_mod(x3 - px);
    lemma_cong_mod(y3 - py);
    lemma_cong_ops(x3, px - t, px, px);
    lemma_cong_ops(y3, s1 * t - py, py, py);
    assert(px - t - px == 0 - t);
    assert(cong(dd, 0 - t));
    assert(cong(nn, s1 * t - (py + py)));
    crate::field::lemma_invertible_neg(t);
    crate::field::lemma_invertible_cong(0 - t, dd);
    let l = fdiv(nn, dd);
    lemma_fdiv(nn, dd);
    let s2 = second_slope(bb, base, p);
    let den2 = second_den(bb, base, p);
    let q = fdiv(fadd(py, py), den2);
    lemma_fdiv(fadd(py, py), den2);
    lemma_cong_mod(py + py);
    lemma_cong_mod(q - s1);
    lemma_cong_mod(px + px);
    lemma_cong_mod(fadd(px, px) + tx);
    lemma_cong_ops(fadd(px, px), px + px, tx, tx);
    lemma_cong_mod(fadd(fadd(px, px), tx) - fmul(s1, s1));
    lemma_cong_ops(fadd(fadd(px, px), tx), px + px + tx, fmul(s1, s1), s1 * s1);
    assert(px + px + tx - s1 * s1 == t);
    assert(cong(den2, t));
    lemma_cong_ops(s2, q - s1, dd, 0 - t);
    lemma_cong_ops(q, q, den2, t);
    assert((q - s1) * (0 - t) == s1 * t - q * t) by (nonlinear_arith);
    lemma_cong_ops(s1 * t, s1 * t, q * t, py + py);
    assert(cong(s2 * dd, nn));
    assert(cong(l * dd, nn));
    crate::field::lemma_cancel(l, s2, dd);
    crate::field::lemma_small(l);
    crate::field::lemma_small(s2);
    assert(l == s2);
    // the output x
    let rx = step_point(bb, base, p).0;
    let cx = chord_add(p, r1).0;
    lemma_cong_mod(s2 * s2);
    lemma_cong_mod(fmul(s2, s2) - px);
    lemma_cong_mod(fsub(fmul(s2, s2), px) - x3);
    lemma_cong_ops(fmul(s2, s2), s2 * s2, px, px);
    lemma_cong_ops(fsub(fmul(s2, s2), px), s2 * s2 - px, x3, px - t);
    lemma_cong_mod(tx + fmul(s2, s2));
    lemma_cong_mod(fadd(tx, fmul(s2, s2)) - fmul(s1, s1));
    lemma_cong_ops(tx, tx, fmul(s2, s2), s2 * s2);
    lemma_cong_ops(fadd(tx, fmul(s2, s2)), tx + s2 * s2, fmul(s1, s1), s1 * s1);
    assert(s2 * s2 - px - (px - t) == tx + s2 * s2 - s1 * s1);
    crate::field::lemma_small(rx);
    crate::field::lemma_small(cx);
    assert(rx == cx);
    assert(s2 * fsub(px, rx) == fsub(px, rx) * s2) by (nonlinear_arith);
}

/// End to end: with no degenerate step, the accumulator after `k` bits is
/// what the double-and-add loop `Acc := Acc + (Q + Acc)` gives under the
/// affine chord law.
pub proof fn lemma_acc_is_double_and_add(
    base: (int, int),
    acc0: (int, int),
    bits: Seq<bool>,
    k: int,
)
    requires
        0 <= k <= bits.len(),
        nondegenerate(base, acc0, bits),
    ensures
        acc_at(base, acc0, bits, k) == double_and_add(base, acc0, bits, k),
    decreases k,
{
    if k > 0 {
        lemma_acc_is_double_and_add(base, acc0, bits, k - 1);
        let p = acc_at(base, acc0, bits, k - 1);
        assert(step_ok(bits[k - 1], base, p));
        lemma_step_is_chord_law(bits[k - 1], base, p);
    }
}

} // verus!
