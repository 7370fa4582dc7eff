//! Variable-base scalar multiplication on a short Weierstrass curve.
//!
//! ```text
//! Acc := [2]T
//! for i = n-1 ... 0:
//!   Q := (r_i == 1) ? T : -T
//!   Acc := Acc + (Q + Acc)
//! ```
//!
//! One gate instance spans two rows and consumes five bits:
//!
//! ```text
//! 0   1   2   3   4   5   6   7   8   9   10  11  12  13  14
//! xT  yT  x0  y0  n   n'      x1  y1  x2  y2  x3  y3  x4  y4
//! x5  y5  b0  b1  b2  b3  b4  s0  s1  s2  s3  s4
//! ```

use crate::gate::GateType;
use crate::expr::{Cache, CurrOrNext, Expr, Variable, COLUMNS};
use crate::field::{
    cong, fadd, fdiv, fmul, fsub, invertible, lemma_cong_mod, lemma_cong_ops,
    modulus, Fe,
};
use vstd::prelude::*;

verus! {

/// The number of bits one gate instance consumes.
pub const BITS_PER_CHUNK: usize = 5;

pub open spec fn var(row: CurrOrNext, col: usize) -> Variable {
    Variable { row, col }
}

pub open spec fn cur(col: usize) -> Variable {
    var(CurrOrNext::Curr, col)
}

pub open spec fn nxt(col: usize) -> Variable {
    var(CurrOrNext::Next, col)
}

/// The cells of the `i`-th accumulator point, `0 <= i <= 5`.
pub open spec fn acc_var(i: int) -> (Variable, Variable) {
    if i == 0 {
        (cur(2), cur(3))
    } else if i == 1 {
        (cur(7), cur(8))
    } else if i == 2 {
        (cur(9), cur(10))
    } else if i == 3 {
        (cur(11), cur(12))
    } else if i == 4 {
        (cur(13), cur(14))
    } else {
        (nxt(0), nxt(1))
    }
}

/// The cell of the `i`-th bit, `0 <= i < 5`.
pub open spec fn bit_var(i: int) -> Variable {
    nxt((2 + i) as usize)
}

/// The cell of the `i`-th chord slope, `0 <= i < 5`.
pub open spec fn slope_var(i: int) -> Variable {
    nxt((7 + i) as usize)
}

pub open spec fn base_var() -> (Variable, Variable) {
    (cur(0), cur(1))
}

pub open spec fn n_prev_var() -> Variable {
    cur(4)
}

pub open spec fn n_next_var() -> Variable {
    cur(5)
}

/// Whether the layout places a quantity in column `c` of the window's row `shift`.
pub open spec fn layout_cell(c: int, shift: int) -> bool {
    if shift == 0 {
        0 <= c < COLUMNS && c != 6
    } else {
        shift == 1 && 0 <= c < 12
    }
}

/// Where every quantity of one gate instance lives in its two-row window.
pub struct Layout {
    pub accs: [(Variable, Variable); 6],
    pub bits: [Variable; 5],
    pub ss: [Variable; 5],
    pub base: (Variable, Variable),
    pub n_prev: Variable,
    pub n_next: Variable,
}

impl Layout {
    pub open spec fn is_layout(&self) -> bool {
        &&& forall|i: int| 0 <= i < 6 ==> #[trigger] self.accs@[i] == acc_var(i)
        &&& forall|i: int| 0 <= i < 5 ==> #[trigger] self.bits@[i] == bit_var(i)
        &&& forall|i: int| 0 <= i < 5 ==> #[trigger] self.ss@[i] == slope_var(i)
        &&& self.base == base_var()
        &&& self.n_prev == n_prev_var()
        &&& self.n_next == n_next_var()
    }
}

fn v(row: CurrOrNext, col: usize) -> (r: Variable)
    ensures
        r == var(row, col),
{
    Variable { row, col }
}

/// This gate's layout.
pub fn layout() -> (r: Layout)
    ensures
        r.is_layout(),
{
    let c = CurrOrNext::Curr;
    let n = CurrOrNext::Next;
    let r = Layout {
        accs: [
            (v(c, 2), v(c, 3)),
            (v(c, 7), v(c, 8)),
            (v(c, 9), v(c, 10)),
            (v(c, 11), v(c, 12)),
            (v(c, 13), v(c, 14)),
            (v(n, 0), v(n, 1)),
        ],
        bits: [v(n, 2), v(n, 3), v(n, 4), v(n, 5), v(n, 6)],
        ss: [v(n, 7), v(n, 8), v(n, 9), v(n, 10), v(n, 11)],
        base: (v(c, 0), v(c, 1)),
        n_prev: v(c, 4),
        n_next: v(c, 5),
    };
    assert(r.accs@[5] == acc_var(5));
    r
}

// ---------------------------------------------------------------------------
// The algebra of one bit, on the integers of field elements.

pub open spec fn bit_val(b: bool) -> int {
    if b {
        1
    } else {
        0
    }
}

/// `(2b - 1)·Ty`: the y-coordinate of `b ? T : -T`.
pub open spec fn signed_y(b: bool, base: (int, int)) -> int {
    fmul(base.1, fsub(fadd(bit_val(b), bit_val(b)), 1))
}

/// The chord slope from `P` to `Q = b ? T : -T`.
pub open spec fn slope(b: bool, base: (int, int), p: (int, int)) -> int {
    fdiv(fsub(p.1, signed_y(b, base)), fsub(p.0, base.0))
}

/// `2·Px + Tx - s1²`, the denominator of the second slope.
pub open spec fn second_den(b: bool, base: (int, int), p: (int, int)) -> int {
    let s1 = slope(b, base, p);
    fsub(fadd(fadd(p.0, p.0), base.0), fmul(s1, s1))
}

/// `s2 = 2·Py / (2·Px + Tx - s1²) - s1`.
pub open spec fn second_slope(b: bool, base: (int, int), p: (int, int)) -> int {
    fsub(fdiv(fadd(p.1, p.1), second_den(b, base, p)), slope(b, base, p))
}

/// `R = P + (Q + P)`, with `Rx = Tx + s2² - s1²` and `Ry = (Px - Rx)·s2 - Py`.
pub open spec fn step_point(b: bool, base: (int, int), p: (int, int)) -> (int, int) {
    let s1 = slope(b, base, p);
    let s2 = second_slope(b, base, p);
    let rx = fsub(fadd(base.0, fmul(s2, s2)), fmul(s1, s1));
    let ry = fsub(fmul(fsub(p.0, rx), s2), p.1);
    (rx, ry)
}

/// Neither slope of the step divides by zero.
pub open spec fn step_ok(b: bool, base: (int, int), p: (int, int)) -> bool {
    invertible(fsub(p.0, base.0)) && invertible(second_den(b, base, p))
}

/// The accumulator after the first `k` bits.
pub open spec fn acc_at(base: (int, int), acc0: (int, int), bits: Seq<bool>, k: int) -> (int, int)
    decreases k,
{
    if k <= 0 {
        acc0
    } else {
        step_point(bits[k - 1], base, acc_at(base, acc0, bits, k - 1))
    }
}

/// The chord slope of the `k`-th step.
pub open spec fn slope_at(base: (int, int), acc0: (int, int), bits: Seq<bool>, k: int) -> int {
    slope(bits[k], base, acc_at(base, acc0, bits, k))
}

/// No step of the whole bit sequence divides by zero.
pub open spec fn nondegenerate(base: (int, int), acc0: (int, int), bits: Seq<bool>) -> bool {
    forall|k: int|
        0 <= k < bits.len() ==> #[trigger] step_ok(bits[k], base, acc_at(base, acc0, bits, k))
}

/// The integer whose binary digits, most significant first, are the first `k` bits.
pub open spec fn bits_value(bits: Seq<bool>, k: int) -> int
    decreases k,
{
    if k <= 0 {
        0
    } else {
        2 * bits_value(bits, k - 1) + bit_val(bits[k - 1])
    }
}

/// The running scalar after the first `k` bits, as a field element:
/// doubled, then the bit added, at each step.
pub open spec fn scalar_at(bits: Seq<bool>, k: int) -> int
    decreases k,
{
    if k <= 0 {
        0
    } else {
        fadd(fadd(scalar_at(bits, k - 1), scalar_at(bits, k - 1)), bit_val(bits[k - 1]))
    }
}

pub open spec fn pair_val(p: (Fe, Fe)) -> (int, int) {
    (p.0.val(), p.1.val())
}

// ---------------------------------------------------------------------------
// The witness table.

/// The columns of `w` as sequences.
pub open spec fn table(w: [Vec<Fe>; COLUMNS]) -> Seq<Seq<Fe>> {
    Seq::new(COLUMNS as nat, |c: int| w@[c]@)
}

/// The element in cell `v` of the window at `row`.
pub open spec fn at(t: Seq<Seq<Fe>>, row: int, v: Variable) -> Fe {
    t[v.col as int][row + v.row.offset()]
}

/// `t2` has the shape of `t1` and differs from it only where `written` holds.
pub open spec fn same_outside(
    t1: Seq<Seq<Fe>>,
    t2: Seq<Seq<Fe>>,
    written: spec_fn(int, int) -> bool,
) -> bool {
    &&& t2.len() == t1.len()
    &&& forall|c: int| 0 <= c < t1.len() ==> #[trigger] t2[c].len() == t1[c].len()
    &&& forall|c: int, r: int|
        0 <= c < t1.len() && 0 <= r < t1[c].len() && !written(c, r) ==> #[trigger] t2[c][r]
            == t1[c][r]
}

pub open spec fn is_cell(c: int, r: int, row: int, v: Variable) -> bool {
    c == v.col && r == row + v.row.offset()
}

/// Every column holds the rows `row .. row + n`.
pub open spec fn rows_in(w: [Vec<Fe>; COLUMNS], row: int, n: int) -> bool {
    forall|c: int| 0 <= c < COLUMNS ==> row + n <= #[trigger] table(w)[c].len()
}

fn set(w: &mut [Vec<Fe>; COLUMNS], row0: usize, var: Variable, x: Fe)
    requires
        var.col < COLUMNS,
        row0 + var.row.offset() < table(*old(w))[var.col as int].len(),
    ensures
        table(*final(w)) == table(*old(w)).update(
            var.col as int,
            table(*old(w))[var.col as int].update(row0 + var.row.offset(), x),
        ),
{
    assert(table(*w)[var.col as int] == w@[var.col as int]@);
    // the column's length bounds the row index
    let column_len = w[var.col].len();
    assert(row0 + var.row.offset() < column_len);
    let r = row0 + var.row.shift();
    w[var.col][r] = x;
    assert(table(*w) =~= table(*old(w)).update(
        var.col as int,
        table(*old(w))[var.col as int].update(row0 + var.row.offset(), x),
    ));
}

/// The cells that step `i` writes.
pub open spec fn step_cells(i: int, row: int) -> spec_fn(int, int) -> bool {
    |c: int, r: int|
        is_cell(c, r, row, bit_var(i)) || is_cell(c, r, row, slope_var(i)) || is_cell(
            c,
            r,
            row,
            base_var().0,
        ) || is_cell(c, r, row, base_var().1) || is_cell(c, r, row, acc_var(i).0) || is_cell(
            c,
            r,
            row,
            acc_var(i).1,
        ) || is_cell(c, r, row, acc_var(i + 1).0) || is_cell(c, r, row, acc_var(i + 1).1)
}

/// Performs step `i` of a chunk: writes the bit, the base point, the input
/// point, the chord slope and the output point `P + (Q + P)` into the window
/// at `row`, and returns the output point.
#[allow(clippy::too_many_arguments)]
fn single_bit_witness(
    w: &mut [Vec<Fe>; COLUMNS],
    row: usize,
    b: Variable,
    base: (Variable, Variable),
    s1: Variable,
    input: (Variable, Variable),
    output: (Variable, Variable),
    b_value: Fe,
    base_value: (Fe, Fe),
    input_value: (Fe, Fe),
    Ghost(i): Ghost<int>,
) -> (r: (Fe, Fe))
    requires
        0 <= i < 5,
        b == bit_var(i),
        s1 == slope_var(i),
        base == base_var(),
        input == acc_var(i),
        output == acc_var(i + 1),
        rows_in(*old(w), row as int, 2),
        b_value.val() == 0 || b_value.val() == 1,
        step_ok(b_value.val() == 1, pair_val(base_value), pair_val(input_value)),
    ensures
        same_outside(table(*old(w)), table(*final(w)), step_cells(i, row as int)),
        pair_val(r) == step_point(b_value.val() == 1, pair_val(base_value), pair_val(input_value)),
        at(table(*final(w)), row as int, b) == b_value,
        at(table(*final(w)), row as int, base.0) == base_value.0,
        at(table(*final(w)), row as int, base.1) == base_value.1,
        at(table(*final(w)), row as int, input.0) == input_value.0,
        at(table(*final(w)), row as int, input.1) == input_value.1,
        at(table(*final(w)), row as int, output.0) == r.0,
        at(table(*final(w)), row as int, output.1) == r.1,
        at(table(*final(w)), row as int, s1).val() == slope(
            b_value.val() == 1,
            pair_val(base_value),
            pair_val(input_value),
        ),
{
    let ghost bb = b_value.val() == 1;
    let ghost t0 = table(*w);
    set(w, row, b, b_value);
    set(w, row, input.0, input_value.0);
    set(w, row, input.1, input_value.1);
    set(w, row, base.0, base_value.0);
    set(w, row, base.1, base_value.1);

    let sign = b_value.double().sub(&Fe::one());
    let num = input_value.1.sub(&base_value.1.mul(&sign));
    let den = input_value.0.sub(&base_value.0);
    assert(bit_val(bb) == b_value.val());
    assert(den.val() != 0) by {
        crate::field::lemma_invertible_nonzero(den.val());
        lemma_cong_mod(input_value.0.val() - base_value.0.val());
    }
    let s1_value = num.div(&den);
    set(w, row, s1, s1_value);

    let s1_squared = s1_value.square();
    let den2 = input_value.0.double().add(&base_value.0).sub(&s1_squared);
    assert(den2.val() != 0) by {
        crate::field::lemma_invertible_nonzero(den2.val());
        lemma_cong_mod(
            fadd(fadd(input_value.0.val(), input_value.0.val()), base_value.0.val())
                - s1_squared.val(),
        );
    }
    let s2 = input_value.1.double().div(&den2).sub(&s1_value);
    let out_x = base_value.0.add(&s2.square()).sub(&s1_squared);
    let out_y = input_value.0.sub(&out_x).mul(&s2).sub(&input_value.1);
    set(w, row, output.0, out_x);
    set(w, row, output.1, out_y);
    assert(same_outside(t0, table(*w), step_cells(i, row as int)));
    (out_x, out_y)
}

/// The cells that the witness of `nch` chunks from `row0` on writes.
pub open spec fn witness_cells(row0: int, nch: int) -> spec_fn(int, int) -> bool {
    |c: int, r: int| row0 <= r < row0 + 2 * nch && layout_cell(c, (r - row0) % 2)
}

/// The window at `row` holds chunk `ch` of the witness for `base`, `acc0` and `bits`.
pub open spec fn chunk_written(
    t: Seq<Seq<Fe>>,
    row: int,
    base: (int, int),
    acc0: (int, int),
    bits: Seq<bool>,
    ch: int,
) -> bool {
    &&& at(t, row, base_var().0).val() == base.0
    &&& at(t, row, base_var().1).val() == base.1
    &&& at(t, row, n_prev_var()).val() == scalar_at(bits, 5 * ch)
    &&& at(t, row, n_next_var()).val() == scalar_at(bits, 5 * ch + 5)
    &&& forall|i: int|
        0 <= i < 5 ==> (#[trigger] at(t, row, bit_var(i))).val() == bit_val(bits[5 * ch + i])
    &&& forall|i: int|
        0 <= i < 5 ==> (#[trigger] at(t, row, slope_var(i))).val() == slope_at(
            base,
            acc0,
            bits,
            5 * ch + i,
        )
    &&& forall|i: int|
        0 <= i <= 5 ==> (#[trigger] at(t, row, acc_var(i).0)).val() == acc_at(
            base,
            acc0,
            bits,
            5 * ch + i,
        ).0 && at(t, row, acc_var(i).1).val() == acc_at(base, acc0, bits, 5 * ch + i).1
}

proof fn lemma_same_outside_trans(
    t0: Seq<Seq<Fe>>,
    t1: Seq<Seq<Fe>>,
    t2: Seq<Seq<Fe>>,
    w1: spec_fn(int, int) -> bool,
    w2: spec_fn(int, int) -> bool,
    w3: spec_fn(int, int) -> bool,
)
    requires
        same_outside(t0, t1, w1),
        same_outside(t1, t2, w2),
        forall|c: int, r: int| #[trigger] w1(c, r) ==> w3(c, r),
        forall|c: int, r: int| #[trigger] w2(c, r) ==> w3(c, r),
    ensures
        same_outside(t0, t2, w3),
{
    assert forall|c: int, r: int|
        0 <= c < t0.len() && 0 <= r < t0[c].len() && !w3(c, r) implies #[trigger] t2[c][r]
        == t0[c][r] by {
        assert(!w1(c, r));
        assert(!w2(c, r));
        assert(t1[c][r] == t0[c][r]);
    }
}

proof fn lemma_cell_kept(
    t1: Seq<Seq<Fe>>,
    t2: Seq<Seq<Fe>>,
    written: spec_fn(int, int) -> bool,
    row: int,
    v: Variable,
)
    requires
        same_outside(t1, t2, written),
        t1.len() == COLUMNS,
        v.col < COLUMNS,
        0 <= row,
        row + 1 < t1[v.col as int].len(),
        !written(v.col as int, row + v.row.offset()),
    ensures
        at(t2, row, v) == at(t1, row, v),
{
}

/// Writing outside the rows of a window keeps what the window holds.
proof fn lemma_chunk_kept(
    t1: Seq<Seq<Fe>>,
    t2: Seq<Seq<Fe>>,
    written: spec_fn(int, int) -> bool,
    row: int,
    base: (int, int),
    acc0: (int, int),
    bits: Seq<bool>,
    ch: int,
)
    requires
        same_outside(t1, t2, written),
        t1.len() == COLUMNS,
        forall|c: int| 0 <= c < COLUMNS ==> row + 1 < #[trigger] t1[c].len(),
        forall|c: int, r: int| #[trigger] written(c, r) ==> r < row || r > row + 1,
        row >= 0,
        chunk_written(t1, row, base, acc0, bits, ch),
    ensures
        chunk_written(t2, row, base, acc0, bits, ch),
{
    assert forall|v: Variable| v.col < COLUMNS implies #[trigger] at(t2, row, v) == at(t1, row, v) by {
        assert(!written(v.col as int, row + v.row.offset()));
    }
    assert(at(t2, row, base_var().0) == at(t1, row, base_var().0));
    assert(at(t2, row, base_var().1) == at(t1, row, base_var().1));
    assert(at(t2, row, n_prev_var()) == at(t1, row, n_prev_var()));
    assert(at(t2, row, n_next_var()) == at(t1, row, n_next_var()));
    assert forall|i: int| 0 <= i <= 5 implies #[trigger] at(t2, row, acc_var(i).0) == at(
        t1,
        row,
        acc_var(i).0,
    ) by {
        assert(at(t2, row, acc_var(i).0) == at(t1, row, acc_var(i).0));
    }
    assert forall|i: int| 0 <= i < 5 implies #[trigger] at(t2, row, bit_var(i)) == at(
        t1,
        row,
        bit_var(i),
    ) by {
        assert(at(t2, row, bit_var(i)) == at(t1, row, bit_var(i)));
    }
    assert forall|i: int| 0 <= i < 5 implies #[trigger] at(t2, row, slope_var(i)) == at(
        t1,
        row,
        slope_var(i),
    ) by {
        assert(at(t2, row, slope_var(i)) == at(t1, row, slope_var(i)));
    }
    assert forall|i: int| 0 <= i <= 5 implies #[trigger] at(t2, row, acc_var(i).1) == at(
        t1,
        row,
        acc_var(i).1,
    ) by {
        assert(at(t2, row, acc_var(i).1) == at(t1, row, acc_var(i).1));
    }
}

/// Whether no step of `bits` from `acc0` divides by zero: the condition
/// under which `witness` may be called.
pub fn is_nondegenerate(base: (Fe, Fe), bits: &[bool], acc0: (Fe, Fe)) -> (r: bool)
    ensures
        r == nondegenerate(pair_val(base), pair_val(acc0), bits@),
{
    let ghost bv = pair_val(base);
    let ghost av = pair_val(acc0);
    let mut acc = acc0;
    let mut k: usize = 0;
    while k < bits.len()
        invariant
            k <= bits@.len(),
            bv == pair_val(base),
            av == pair_val(acc0),
            pair_val(acc) == acc_at(bv, av, bits@, k as int),
            forall|j: int| 0 <= j < k ==> #[trigger] step_ok(bits@[j], bv, acc_at(bv, av, bits@, j)),
        decreases bits@.len() - k,
    {
        let ghost p = acc_at(bv, av, bits@, k as int);
        let b = Fe::from_bool(bits[k]);
        assert((b.val() == 1) == bits@[k as int]);
        assert(bit_val(bits@[k as int]) == b.val());
        let den = acc.0.sub(&base.0);
        if !den.is_invertible() {
            assert(!step_ok(bits@[k as int], bv, p));
            return false;
        }
        proof {
            crate::field::lemma_invertible_nonzero(den.val());
            lemma_cong_mod(acc.0.val() - base.0.val());
        }
        let sign = b.double().sub(&Fe::one());
        let num = acc.1.sub(&base.1.mul(&sign));
        let s1 = num.div(&den);
        let s1_squared = s1.square();
        let den2 = acc.0.double().add(&base.0).sub(&s1_squared);
        if !den2.is_invertible() {
            assert(!step_ok(bits@[k as int], bv, p));
            return false;
        }
        proof {
            crate::field::lemma_invertible_nonzero(den2.val());
            lemma_cong_mod(
                fadd(fadd(acc.0.val(), acc.0.val()), base.0.val()) - s1_squared.val(),
            );
        }
        let s2 = acc.1.double().div(&den2).sub(&s1);
        let out_x = base.0.add(&s2.square()).sub(&s1_squared);
        let out_y = acc.0.sub(&out_x).mul(&s2).sub(&acc.1);
        acc = (out_x, out_y);
        assert(pair_val(acc) == acc_at(bv, av, bits@, k + 1));
        k = k + 1;
    }
    true
}

/// What the witness generator returns: the final accumulator point and the
/// final running scalar.
pub struct VarbaseMulResult {
    pub acc: (Fe, Fe),
    pub n: Fe,
}

/// Fills the windows at `row0`, `row0 + 2`, ... with the witness of the
/// scalar multiplication that starts from `acc0` and consumes `bits`, five
/// per window, and returns the final accumulator and running scalar.
pub fn witness(
    w: &mut [Vec<Fe>; COLUMNS],
    row0: usize,
    base: (Fe, Fe),
    bits: &[bool],
    acc0: (Fe, Fe),
) -> (r: VarbaseMulResult)
    requires
        bits@.len() % 5 == 0,
        bits@.len() == 0 || rows_in(*old(w), row0 as int, 2 * (bits@.len() / 5) as int),
        nondegenerate(pair_val(base), pair_val(acc0), bits@),
    ensures
        pair_val(r.acc) == acc_at(pair_val(base), pair_val(acc0), bits@, bits@.len() as int),
        r.n.val() == scalar_at(bits@, bits@.len() as int),
        r.n.val() == bits_value(bits@, bits@.len() as int) % modulus(),
        same_outside(table(*old(w)), table(*final(w)), witness_cells(row0 as int, (bits@.len() / 5) as int)),
        forall|ch: int|
            0 <= ch < bits@.len() / 5 ==> #[trigger] chunk_written(
                table(*final(w)),
                row0 + 2 * ch,
                pair_val(base),
                pair_val(acc0),
                bits@,
                ch,
            ),
{
    let ghost t0 = table(*w);
    let ghost bv = pair_val(base);
    let ghost av = pair_val(acc0);
    if bits.len() == 0 {
        proof {
            assert(0int % modulus() == 0);
        }
        return VarbaseMulResult { acc: acc0, n: Fe::zero() };
    }
    let l = layout();
    let nch = bits.len() / BITS_PER_CHUNK;
    assert(table(*w)[0] == w@[0]@);
    let column_len = w[0].len();
    let n_bits = bits.len();
    let mut acc = acc0;
    let mut n_acc = Fe::zero();
    let mut ch: usize = 0;
    while ch < nch
        invariant
            l.is_layout(),
            nch == bits@.len() / 5,
            bits@.len() == 5 * nch,
            bits@.len() == n_bits,
            ch <= nch,
            row0 + 2 * nch <= column_len,
            rows_in(*w, row0 as int, 2 * nch),
            nondegenerate(bv, av, bits@),
            bv == pair_val(base),
            av == pair_val(acc0),
            pair_val(acc) == acc_at(bv, av, bits@, 5 * ch),
            n_acc.val() == scalar_at(bits@, 5 * ch),
            same_outside(t0, table(*w), witness_cells(row0 as int, ch as int)),
            forall|c: int|
                0 <= c < ch ==> #[trigger] chunk_written(
                    table(*w),
                    row0 + 2 * c,
                    bv,
                    av,
                    bits@,
                    c,
                ),
        decreases nch - ch,
    {
        let row = row0 + 2 * ch;
        let ghost t_start = table(*w);
        set(w, row, l.n_prev, n_acc);
        proof {
            lemma_same_outside_trans(
                t0,
                t_start,
                table(*w),
                witness_cells(row0 as int, ch as int),
                |c: int, r: int| is_cell(c, r, row as int, n_prev_var()),
                witness_cells(row0 as int, ch as int + 1),
            );
            assert forall|c: int| 0 <= c < ch implies #[trigger] chunk_written(
                table(*w),
                row0 + 2 * c,
                bv,
                av,
                bits@,
                c,
            ) by {
                assert(chunk_written(t_start, row0 + 2 * c, bv, av, bits@, c));
                lemma_chunk_kept(
                    t_start,
                    table(*w),
                    |cc: int, r: int| is_cell(cc, r, row as int, n_prev_var()),
                    row0 + 2 * c,
                    bv,
                    av,
                    bits@,
                    c,
                );
            }
        }
        let mut i: usize = 0;
        while i < BITS_PER_CHUNK
            invariant
                l.is_layout(),
                nch == bits@.len() / 5,
                bits@.len() == 5 * nch,
                bits@.len() == n_bits,
                ch < nch,
                row == row0 + 2 * ch,
                row0 + 2 * nch <= column_len,
                i <= 5,
                rows_in(*w, row0 as int, 2 * nch),
                nondegenerate(bv, av, bits@),
                bv == pair_val(base),
                av == pair_val(acc0),
                pair_val(acc) == acc_at(bv, av, bits@, 5 * ch + i),
                n_acc.val() == scalar_at(bits@, 5 * ch + i),
                same_outside(t0, table(*w), witness_cells(row0 as int, ch as int + 1)),
                forall|c: int|
                    0 <= c < ch ==> #[trigger] chunk_written(
                        table(*w),
                        row0 + 2 * c,
                        bv,
                        av,
                        bits@,
                        c,
                    ),
                at(table(*w), row as int, n_prev_var()).val() == scalar_at(bits@, 5 * ch),
                i > 0 ==> at(table(*w), row as int, base_var().0).val() == bv.0,
                i > 0 ==> at(table(*w), row as int, base_var().1).val() == bv.1,
                forall|j: int|
                    0 <= j < i ==> (#[trigger] at(table(*w), row as int, bit_var(j))).val()
                        == bit_val(bits@[5 * ch + j]),
                forall|j: int|
                    0 <= j < i ==> (#[trigger] at(table(*w), row as int, slope_var(j))).val()
                        == slope_at(bv, av, bits@, 5 * ch + j),
                forall|j: int|
                    0 <= j <= i && i > 0 ==> (#[trigger] at(table(*w), row as int, acc_var(j).0)).val()
                        == acc_at(bv, av, bits@, 5 * ch + j).0,
                forall|j: int|
                    0 <= j <= i && i > 0 ==> (#[trigger] at(table(*w), row as int, acc_var(j).1)).val()
                        == acc_at(bv, av, bits@, 5 * ch + j).1,
            decreases 5 - i,
        {
            assert(5 * ch + i < 5 * nch);
            let k = BITS_PER_CHUNK * ch + i;
            let b = Fe::from_bool(bits[k]);
            n_acc = n_acc.double().add(&b);
            let ghost t_before = table(*w);
            assert((b.val() == 1) == bits@[k as int]);
            assert(step_ok(bits@[k as int], bv, acc_at(bv, av, bits@, k as int)));
            acc = single_bit_witness(
                w,
                row,
                l.bits[i],
                l.base,
                l.ss[i],
                l.accs[i],
                l.accs[i + 1],
                b,
                base,
                acc,
                Ghost(i as int),
            );
            proof {
                lemma_same_outside_trans(
                    t0,
                    t_before,
                    table(*w),
                    witness_cells(row0 as int, ch as int + 1),
                    step_cells(i as int, row as int),
                    witness_cells(row0 as int, ch as int + 1),
                );
                let tw = table(*w);
                let sc = step_cells(i as int, row as int);
                assert(t_before[5].len() > row + 1);
                assert(t_before[COLUMNS - 1].len() > row + 1);
                assert(step_point(bits@[k as int], bv, acc_at(bv, av, bits@, k as int))
                    == acc_at(bv, av, bits@, k + 1));
                assert forall|j: int| 0 <= j < i + 1 implies (#[trigger] at(tw, row as int, bit_var(j))).val()
                    == bit_val(bits@[5 * ch + j]) by {
                    if j < i {
                        assert(t_before[bit_var(j).col as int].len() > row + 1);
                        lemma_cell_kept(t_before, tw, sc, row as int, bit_var(j));
                    }
                }
                assert forall|j: int| 0 <= j < i + 1 implies (#[trigger] at(tw, row as int, slope_var(j))).val()
                    == slope_at(bv, av, bits@, 5 * ch + j) by {
                    if j < i {
                        assert(t_before[slope_var(j).col as int].len() > row + 1);
                        lemma_cell_kept(t_before, tw, sc, row as int, slope_var(j));
                    }
                }
                assert forall|j: int| 0 <= j <= i + 1 implies (#[trigger] at(
                    tw,
                    row as int,
                    acc_var(j).0,
                )).val() == acc_at(bv, av, bits@, 5 * ch + j).0 by {
                    if j < i {
                        assert(t_before[acc_var(j).0.col as int].len() > row + 1);
                        lemma_cell_kept(t_before, tw, sc, row as int, acc_var(j).0);
                    } else if j == i + 1 {
                        assert(5 * ch + j == k + 1);
                    }
                }
                assert forall|j: int| 0 <= j <= i + 1 implies (#[trigger] at(
                    tw,
                    row as int,
                    acc_var(j).1,
                )).val() == acc_at(bv, av, bits@, 5 * ch + j).1 by {
                    if j < i {
                        assert(t_before[acc_var(j).1.col as int].len() > row + 1);
                        lemma_cell_kept(t_before, tw, sc, row as int, acc_var(j).1);
                    } else if j == i + 1 {
                        assert(5 * ch + j == k + 1);
                    }
                }
                assert(t_before[n_prev_var().col as int].len() > row + 1);
                lemma_cell_kept(t_before, tw, sc, row as int, n_prev_var());
                assert forall|c: int| 0 <= c < ch implies #[trigger] chunk_written(
                    table(*w),
                    row0 + 2 * c,
                    bv,
                    av,
                    bits@,
                    c,
                ) by {
                    assert(chunk_written(t_before, row0 + 2 * c, bv, av, bits@, c));
                    lemma_chunk_kept(
                        t_before,
                        table(*w),
                        step_cells(i as int, row as int),
                        row0 + 2 * c,
                        bv,
                        av,
                        bits@,
                        c,
                    );
                }
            }
            i = i + 1;
        }
        let ghost t_end = table(*w);
        set(w, row, l.n_next, n_acc);
        proof {
            lemma_same_outside_trans(
                t0,
                t_end,
                table(*w),
                witness_cells(row0 as int, ch as int + 1),
                |c: int, r: int| is_cell(c, r, row as int, n_next_var()),
                witness_cells(row0 as int, ch as int + 1),
            );
            assert forall|c: int| 0 <= c < ch implies #[trigger] chunk_written(
                table(*w),
                row0 + 2 * c,
                bv,
                av,
                bits@,
                c,
            ) by {
                assert(chunk_written(t_end, row0 + 2 * c, bv, av, bits@, c));
                lemma_chunk_kept(
                    t_end,
                    table(*w),
                    |cc: int, r: int| is_cell(cc, r, row as int, n_next_var()),
                    row0 + 2 * c,
                    bv,
                    av,
                    bits@,
                    c,
                );
            }
            let tw = table(*w);
            let nc = |cc: int, r: int| is_cell(cc, r, row as int, n_next_var());
            assert forall|v: Variable|
                v.col < COLUMNS && v != n_next_var() implies #[trigger] at(tw, row as int, v) == at(
                t_end,
                row as int,
                v,
            ) by {
                assert(t_end[v.col as int].len() > row + 1);
                lemma_cell_kept(t_end, tw, nc, row as int, v);
            }
            assert(at(tw, row as int, base_var().0) == at(t_end, row as int, base_var().0));
            assert(at(tw, row as int, base_var().1) == at(t_end, row as int, base_var().1));
            assert(at(tw, row as int, n_prev_var()) == at(t_end, row as int, n_prev_var()));
            assert forall|j: int| 0 <= j < 5 implies (#[trigger] at(tw, row as int, bit_var(j))).val()
                == bit_val(bits@[5 * ch + j]) && at(tw, row as int, slope_var(j)).val()
                == slope_at(bv, av, bits@, 5 * ch + j) by {
                assert(at(tw, row as int, bit_var(j)) == at(t_end, row as int, bit_var(j)));
                assert(at(tw, row as int, slope_var(j)) == at(t_end, row as int, slope_var(j)));
            }
            assert forall|j: int| 0 <= j <= 5 implies (#[trigger] at(tw, row as int, acc_var(j).0)).val()
                == acc_at(bv, av, bits@, 5 * ch + j).0 && at(tw, row as int, acc_var(j).1).val()
                == acc_at(bv, av, bits@, 5 * ch + j).1 by {
                assert(at(tw, row as int, acc_var(j).0) == at(t_end, row as int, acc_var(j).0));
                assert(at(tw, row as int, acc_var(j).1) == at(t_end, row as int, acc_var(j).1));
            }
            assert(chunk_written(table(*w), row0 + 2 * ch, bv, av, bits@, ch as int));
        }
        ch = ch + 1;
    }
    proof {
        lemma_scalar_value(bits@, bits@.len() as int);
    }
    VarbaseMulResult { acc, n: n_acc }
}

// ---------------------------------------------------------------------------
// The constraints.

/// The four identities of one bit, `k` in `0..4`, on the cells read from `env`:
/// booleanity `b·(b-1)`, the chord slope `(Px - Tx)·s1 - (Py - (2b-1)·Ty)`, and,
/// with `t = Px - (s1² - Px - Tx)` and `u = 2·Py - t·s1`, the output
/// `u² - t²·(Rx - Tx + s1²)` and `(Ry + Py)·t - (Px - Rx)·u`.
pub open spec fn single_bit_poly(
    env: spec_fn(Variable) -> int,
    b: Variable,
    base: (Variable, Variable),
    s1: Variable,
    input: (Variable, Variable),
    output: (Variable, Variable),
    k: int,
) -> int {
    let bb = env(b);
    let s = env(s1);
    let (px, py) = (env(input.0), env(input.1));
    let (tx, ty) = (env(base.0), env(base.1));
    let (rx, ry) = (env(output.0), env(output.1));
    let t = px - (s * s - px - tx);
    let u = 2 * py - t * s;
    if k == 0 {
        bb * bb - bb
    } else if k == 1 {
        (px - tx) * s - (py - (2 * bb - 1) * ty)
    } else if k == 2 {
        u * u - t * t * (rx - tx + s * s)
    } else {
        (ry + py) * t - (px - rx) * u
    }
}

/// `n' - (b4 + 2·(b3 + 2·(b2 + 2·(b1 + 2·(b0 + 2·n)))))`: the running scalar
/// after the five bits of a window.
pub open spec fn scalar_poly(env: spec_fn(Variable) -> int) -> int {
    let n = env(n_prev_var());
    let b = |i: int| env(bit_var(i));
    env(n_next_var()) - (b(4) + 2 * (b(3) + 2 * (b(2) + 2 * (b(1) + 2 * (b(0) + 2 * n)))))
}

/// The number of constraints of one gate instance.
pub const CONSTRAINTS: u32 = 21;

/// Constraint `idx` of this gate: the running scalar first, then the four
/// identities of each bit in turn.
pub open spec fn vbmul_constraint(env: spec_fn(Variable) -> int, idx: int) -> int {
    if idx == 0 {
        scalar_poly(env)
    } else {
        let j = (idx - 1) / 4;
        single_bit_poly(
            env,
            bit_var(j),
            base_var(),
            slope_var(j),
            acc_var(j),
            acc_var(j + 1),
            (idx - 1) % 4,
        )
    }
}

fn cell(v: Variable) -> (r: Expr)
    ensures
        forall|env: spec_fn(Variable) -> int| #[trigger] r.eval(env) == env(v),
        r.columns_ok() == (v.col < COLUMNS),
{
    Expr::Cell(v)
}

fn plus(a: Expr, b: Expr) -> (r: Expr)
    ensures
        forall|env: spec_fn(Variable) -> int| #[trigger] r.eval(env) == a.eval(env) + b.eval(env),
        r.columns_ok() == (a.columns_ok() && b.columns_ok()),
{
    Expr::Add(Box::new(a), Box::new(b))
}

fn minus(a: Expr, b: Expr) -> (r: Expr)
    ensures
        forall|env: spec_fn(Variable) -> int| #[trigger] r.eval(env) == a.eval(env) - b.eval(env),
        r.columns_ok() == (a.columns_ok() && b.columns_ok()),
{
    Expr::Sub(Box::new(a), Box::new(b))
}

fn times(a: Expr, b: Expr) -> (r: Expr)
    ensures
        forall|env: spec_fn(Variable) -> int| #[trigger] r.eval(env) == a.eval(env) * b.eval(env),
        r.columns_ok() == (a.columns_ok() && b.columns_ok()),
{
    Expr::Mul(Box::new(a), Box::new(b))
}

fn twice(a: Expr) -> (r: Expr)
    ensures
        forall|env: spec_fn(Variable) -> int| #[trigger] r.eval(env) == 2 * a.eval(env),
        r.columns_ok() == a.columns_ok(),
{
    Expr::Double(Box::new(a))
}

fn shared(cache: &mut Cache, a: Expr) -> (r: Expr)
    requires
        old(cache).next() < usize::MAX,
    ensures
        forall|env: spec_fn(Variable) -> int| #[trigger] r.eval(env) == a.eval(env),
        r.columns_ok() == a.columns_ok(),
        final(cache).next() == old(cache).next() + 1,
{
    cache.cache(a)
}

/// The four identities of one bit, with `s1²`, `t` and `u` shared through `cache`.
fn single_bit(
    cache: &mut Cache,
    b: Variable,
    base: (Variable, Variable),
    s1: Variable,
    input: (Variable, Variable),
    output: (Variable, Variable),
) -> (r: Vec<Expr>)
    requires
        old(cache).next() + 3 < usize::MAX,
        b.col < COLUMNS,
        base.0.col < COLUMNS,
        base.1.col < COLUMNS,
        s1.col < COLUMNS,
        input.0.col < COLUMNS,
        input.1.col < COLUMNS,
        output.0.col < COLUMNS,
        output.1.col < COLUMNS,
    ensures
        r@.len() == 4,
        final(cache).next() == old(cache).next() + 3,
        forall|k: int| 0 <= k < 4 ==> (#[trigger] r@[k]).columns_ok(),
        forall|k: int, env: spec_fn(Variable) -> int|
            0 <= k < 4 ==> #[trigger] r@[k].eval(env) == single_bit_poly(
                env,
                b,
                base,
                s1,
                input,
                output,
                k,
            ),
{
    let b_sign = minus(twice(cell(b)), Expr::Constant(Fe::one()));
    let s1_squared = shared(cache, times(cell(s1), cell(s1)));

    // s1 = (input.y - (2b - 1) * base.y) / (input.x - base.x)
    // s2 = 2 * input.y / (2 * input.x + base.x - s1^2) - s1
    // output.x = base.x + s2^2 - s1^2
    // output.y = (input.x - output.x) * s2 - input.y
    let rx = minus(minus(s1_squared.copy(), cell(input.0)), cell(base.0));
    let t = shared(cache, minus(cell(input.0), rx));
    let u = shared(cache, minus(twice(cell(input.1)), times(t.copy(), cell(s1))));
    // s2 = u / t, so
    // output.x - base.x + s1^2 = u^2 / t^2, that is t^2 (output.x - base.x + s1^2) = u^2;
    // output.y + input.y = (input.x - output.x) * u / t, that is
    // (output.y + input.y) * t = (input.x - output.x) * u.
    let r = vec![
        // the bit is boolean
        minus(times(cell(b), cell(b)), cell(b)),
        // (input.x - base.x) * s1 = input.y - (2b - 1) * base.y
        minus(
            times(minus(cell(input.0), cell(base.0)), cell(s1)),
            minus(cell(input.1), times(b_sign, cell(base.1))),
        ),
        // output.x
        minus(
            times(u.copy(), u.copy()),
            times(
                times(t.copy(), t.copy()),
                plus(minus(cell(output.0), cell(base.0)), s1_squared),
            ),
        ),
        // output.y
        minus(
            times(plus(cell(output.1), cell(input.1)), t),
            times(minus(cell(input.0), cell(output.0)), u),
        ),
    ];
    assert forall|k: int, env: spec_fn(Variable) -> int| 0 <= k < 4 implies #[trigger] r@[k].eval(
        env,
    ) == single_bit_poly(env, b, base, s1, input, output, k) by {
        let bb = env(b);
        let s = env(s1);
        let (px, py) = (env(input.0), env(input.1));
        let (tx, ty) = (env(base.0), env(base.1));
        assert(b_sign.eval(env) == 2 * bb - 1);
        assert(s1_squared.eval(env) == s * s);
        assert(t.eval(env) == px - (s * s - px - tx));
    }
    r
}

/// The variable-base scalar multiplication gate.
pub struct VarbaseMul;

impl VarbaseMul {
    /// This gate type whose rows these constraints check.
    pub fn gate_type() -> (r: GateType)
        ensures
            r == GateType::VarBaseMul,
    {
        GateType::VarBaseMul
    }

    /// This gate's constraints, in order: the running scalar, then the four
    /// identities of each of the five bits.
    pub fn constraints() -> (r: Vec<Expr>)
        ensures
            r@.len() == CONSTRAINTS,
            forall|idx: int| 0 <= idx < CONSTRAINTS ==> (#[trigger] r@[idx]).columns_ok(),
            forall|idx: int, env: spec_fn(Variable) -> int|
                0 <= idx < CONSTRAINTS ==> #[trigger] r@[idx].eval(env) == vbmul_constraint(env, idx),
    {
        let l = layout();
        let mut c = Cache::new();

        // n' = 2^5 * n + 2^4 b0 + 2^3 b1 + 2^2 b2 + 2^1 b3 + b4
        //    = b4 + 2 (b3 + 2 (b2 + 2 (b1 + 2 (b0 + 2 n))))
        let mut acc = cell(l.n_prev);
        let mut i: usize = 0;
        while i < BITS_PER_CHUNK
            invariant
                l.is_layout(),
                i <= 5,
                acc.columns_ok(),
                forall|env: spec_fn(Variable) -> int| #[trigger]
                    acc.eval(env) == scalar_fold(env, i as int),
            decreases 5 - i,
        {
            acc = plus(cell(l.bits[i]), twice(acc));
            i = i + 1;
        }
        let mut res = vec![minus(cell(l.n_next), acc)];
        assert forall|env: spec_fn(Variable) -> int| #[trigger] res@[0].eval(env) == vbmul_constraint(env, 0) by {
            reveal_with_fuel(scalar_fold, 6);
        }

        let mut i: usize = 0;
        while i < BITS_PER_CHUNK
            invariant
                l.is_layout(),
                i <= 5,
                c.next() == 3 * i,
                res@.len() == 1 + 4 * i,
                forall|idx: int| 0 <= idx < 1 + 4 * i ==> (#[trigger] res@[idx]).columns_ok(),
                forall|idx: int, env: spec_fn(Variable) -> int|
                    0 <= idx < 1 + 4 * i ==> #[trigger] res@[idx].eval(env) == vbmul_constraint(env, idx),
            decreases 5 - i,
        {
            let mut cs = single_bit(&mut c, l.bits[i], l.base, l.ss[i], l.accs[i], l.accs[i + 1]);
            let ghost old_res = res@;
            let ghost new_cs = cs@;
            res.append(&mut cs);
            assert forall|idx: int, env: spec_fn(Variable) -> int|
                0 <= idx < 1 + 4 * (i + 1) implies #[trigger] res@[idx].eval(env) == vbmul_constraint(env, idx) by {
                if idx >= 1 + 4 * i {
                    assert(res@[idx] == new_cs[idx - 1 - 4 * i]);
                    assert((idx - 1) / 4 == i);
                    assert((idx - 1) % 4 == idx - 1 - 4 * i);
                } else {
                    assert(res@[idx] == old_res[idx]);
                }
            }
            assert forall|idx: int| 0 <= idx < 1 + 4 * (i + 1) implies (#[trigger] res@[idx]).columns_ok() by {
                if idx >= 1 + 4 * i {
                    assert(res@[idx] == new_cs[idx - 1 - 4 * i]);
                } else {
                    assert(res@[idx] == old_res[idx]);
                }
            }
            i = i + 1;
        }
        res
    }
}

/// The running-scalar fold after `i` bits: `n`, then `b_j + 2·acc` for each bit.
pub open spec fn scalar_fold(env: spec_fn(Variable) -> int, i: int) -> int
    decreases i,
{
    if i <= 0 {
        env(n_prev_var())
    } else {
        env(bit_var(i - 1)) + 2 * scalar_fold(env, i - 1)
    }
}

/// The running scalar after one more bit is twice the one before, plus the bit.
pub(crate) proof fn lemma_scalar_step(bits: Seq<bool>, k: int)
    requires
        0 <= k,
    ensures
        cong(scalar_at(bits, k + 1), bit_val(bits[k]) + 2 * scalar_at(bits, k)),
{
    let s = scalar_at(bits, k);
    lemma_cong_mod(s + s);
    lemma_cong_mod(fadd(s, s) + bit_val(bits[k]));
    lemma_cong_ops(fadd(s, s), s + s, bit_val(bits[k]), bit_val(bits[k]));
}

/// The running scalar after `k` bits is the integer those bits spell, most
/// significant first, reduced into the field.
pub proof fn lemma_scalar_value(bits: Seq<bool>, k: int)
    requires
        0 <= k <= bits.len(),
    ensures
        scalar_at(bits, k) == bits_value(bits, k) % modulus(),
    decreases k,
{
    if k == 0 {
        assert(0int % modulus() == 0);
    } else {
        lemma_scalar_value(bits, k - 1);
        lemma_scalar_step(bits, k - 1);
        let s = scalar_at(bits, k - 1);
        let v = bits_value(bits, k - 1);
        lemma_cong_mod(v);
        lemma_cong_ops(2, 2, s, v);
        lemma_cong_ops(bit_val(bits[k - 1]), bit_val(bits[k - 1]), 2 * s, 2 * v);
        lemma_cong_mod(scalar_at(bits, k));
        lemma_cong_mod(bits_value(bits, k));
        assert(scalar_at(bits, k) == fadd(fadd(s, s), bit_val(bits[k - 1])));
        lemma_cong_mod(fadd(s, s) + bit_val(bits[k - 1]));
        crate::field::lemma_small(scalar_at(bits, k));
    }
}

} // verus!
