//! Gate instances of the circuit, and the two rows of the scalar
//! multiplication gate.

use crate::expr::{window, window_in, COLUMNS};
use crate::field::{modulus, Fe};
use crate::varbasemul::{vbmul_constraint, VarbaseMul, CONSTRAINTS};
use vstd::prelude::*;

verus! {

/// The kind of a gate instance.
#[derive(Clone, Copy, Debug, PartialEq, Eq, Structural)]
pub enum GateType {
    /// A row that no constraint of its own checks.
    Zero,
    /// The first row of a scalar multiplication window.
    VarBaseMul,
}

/// The position a cell is wired to by the copy constraints.
#[derive(Clone, Copy, Debug, PartialEq, Eq, Structural)]
pub struct Wire {
    pub row: usize,
    pub col: usize,
}

/// The wiring of one row, column by column.
pub type GateWires = [Wire; COLUMNS];

/// One row of the circuit: its gate type, wiring and coefficients.
pub struct CircuitGate {
    pub typ: GateType,
    pub wires: GateWires,
    pub coeffs: Vec<Fe>,
}

impl CircuitGate {
    /// The two rows of one scalar multiplication window: a `VarBaseMul` row
    /// and a `Zero` row after it, wired as given.
    pub fn create_vbmul(wires: &[GateWires; 2]) -> (r: Vec<CircuitGate>)
        ensures
            r@.len() == 2,
            r@[0].typ == GateType::VarBaseMul,
            r@[0].wires == wires[0],
            r@[0].coeffs@.len() == 0,
            r@[1].typ == GateType::Zero,
            r@[1].wires == wires[1],
            r@[1].coeffs@.len() == 0,
    {
        vec![
            CircuitGate { typ: GateType::VarBaseMul, wires: wires[0], coeffs: Vec::new() },
            CircuitGate { typ: GateType::Zero, wires: wires[1], coeffs: Vec::new() },
        ]
    }

    /// Accepts every gate and witness: a constraint that fails is not an
    /// error here, the outer proof system rejects the witness.
    pub fn verify_vbmul(&self, _row: usize, _witness: &[Vec<Fe>; COLUMNS]) -> (r: Result<
        (),
        String,
    >)
        ensures
            r is Ok,
    {
        Ok(())
    }

    /// Checks a `VarBaseMul` gate against the witness: `Ok` exactly when the
    /// gate has that type, the window at `row` lies in every column, and all
    /// of this gate's constraints evaluate to zero on it.
    pub fn check_vbmul(&self, row: usize, witness: &[Vec<Fe>; COLUMNS]) -> (r: Result<
        (),
        String,
    >)
        ensures
            r is Ok <==> (self.typ == GateType::VarBaseMul && window_in(*witness, row as int)
                && forall|idx: int|
                0 <= idx < CONSTRAINTS ==> #[trigger] vbmul_constraint(window(*witness, row as int), idx)
                    % modulus() == 0),
    {
        if self.typ != GateType::VarBaseMul {
            return Err("this gate is not a VarBaseMul gate".to_owned());
        }
        let mut c: usize = 0;
        while c < COLUMNS
            invariant
                c <= COLUMNS,
                forall|j: int| 0 <= j < c ==> row + 1 < #[trigger] witness@[j]@.len(),
            decreases COLUMNS - c,
        {
            let n = witness[c].len();
            if n <= row || n - row < 2 {
                return Err("the window does not fit in the witness".to_owned());
            }
            c = c + 1;
        }
        let cs = VarbaseMul::constraints();
        let ghost env = window(*witness, row as int);
        let mut i: usize = 0;
        while i < cs.len()
            invariant
                env == window(*witness, row as int),
                window_in(*witness, row as int),
                cs@.len() == CONSTRAINTS,
                forall|idx: int| 0 <= idx < CONSTRAINTS ==> (#[trigger] cs@[idx]).columns_ok(),
                forall|idx: int, env: spec_fn(crate::expr::Variable) -> int|
                    0 <= idx < CONSTRAINTS ==> #[trigger] cs@[idx].eval(env) == vbmul_constraint(
                        env,
                        idx,
                    ),
                i <= cs@.len(),
                forall|idx: int|
                    0 <= idx < i ==> #[trigger] vbmul_constraint(env, idx) % modulus() == 0,
            decreases cs@.len() - i,
        {
            let v = cs[i].evaluate(witness, row);
            assert(cs@[i as int].eval(env) == vbmul_constraint(env, i as int));
            if !v.is_zero() {
                return Err("a constraint of the VarBaseMul gate does not hold".to_owned());
            }
            assert(vbmul_constraint(env, i as int) % modulus() == 0);
            i = i + 1;
        }
        Ok(())
    }

    /// The selector of this gate: one on a `VarBaseMul` row, zero elsewhere.
    pub fn vbmul(&self) -> (r: Fe)
        ensures
            r.val() == (if self.typ == GateType::VarBaseMul { 1int } else { 0int }),
    {
        if self.typ == GateType::VarBaseMul {
            Fe::one()
        } else {
            Fe::zero()
        }
    }
}

} // verus!
