//! Symbolic polynomial expressions over the cells of a two-row window of the
//! witness table, and their evaluation.

use crate::field::{cong, lemma_cong_mod, lemma_cong_ops, modulus, Fe};
use vstd::prelude::*;

verus! {

/// The number of witness columns.
pub const COLUMNS: usize = 15;

/// The row of a cell, relative to the first row of a gate's window.
#[derive(Clone, Copy, Debug, PartialEq, Eq, Structural)]
pub enum CurrOrNext {
    Curr,
    Next,
}

impl CurrOrNext {
    pub open spec fn offset(self) -> int {
        match self {
            CurrOrNext::Curr => 0,
            CurrOrNext::Next => 1,
        }
    }

    pub fn shift(&self) -> (r: usize)
        ensures
            r == self.offset(),
    {
        match self {
            CurrOrNext::Curr => 0,
            CurrOrNext::Next => 1,
        }
    }
}

/// A cell of the window: a row and a witness column.
#[derive(Clone, Copy, Debug, PartialEq, Eq, Structural)]
pub struct Variable {
    pub row: CurrOrNext,
    pub col: usize,
}

/// The window of `w` whose first row is `row`, as a map from cells to the
/// integers of the elements in them.
#[verifier::opaque]
pub open spec fn window(w: [Vec<Fe>; COLUMNS], row: int) -> spec_fn(Variable) -> int {
    |v: Variable| w@[v.col as int]@[row + v.row.offset()].val()
}

/// Every column of `w` holds the two rows `row` and `row + 1`.
pub open spec fn window_in(w: [Vec<Fe>; COLUMNS], row: int) -> bool {
    forall|c: int| 0 <= c < COLUMNS ==> row + 1 < #[trigger] w@[c]@.len()
}

/// A polynomial over the cells of a window.
#[derive(Debug)]
pub enum Expr {
    Constant(Fe),
    Cell(Variable),
    Double(Box<Expr>),
    Add(Box<Expr>, Box<Expr>),
    Sub(Box<Expr>, Box<Expr>),
    Mul(Box<Expr>, Box<Expr>),
    /// A subexpression shared between constraints, tagged by the cache that made it.
    Cached(usize, Box<Expr>),
}

impl Expr {
    /// The value of the polynomial as an integer, the cells read from `env`;
    /// the field element it stands for is this value modulo the prime.
    pub open spec fn eval(self, env: spec_fn(Variable) -> int) -> int
        decreases self,
    {
        match self {
            Expr::Constant(c) => c.val(),
            Expr::Cell(v) => env(v),
            Expr::Double(a) => 2 * a.eval(env),
            Expr::Add(a, b) => a.eval(env) + b.eval(env),
            Expr::Sub(a, b) => a.eval(env) - b.eval(env),
            Expr::Mul(a, b) => a.eval(env) * b.eval(env),
            Expr::Cached(_, a) => a.eval(env),
        }
    }

    /// Every cell named lies in a witness column.
    pub open spec fn columns_ok(self) -> bool
        decreases self,
    {
        match self {
            Expr::Constant(_) => true,
            Expr::Cell(v) => v.col < COLUMNS,
            Expr::Double(a) => a.columns_ok(),
            Expr::Add(a, b) => a.columns_ok() && b.columns_ok(),
            Expr::Sub(a, b) => a.columns_ok() && b.columns_ok(),
            Expr::Mul(a, b) => a.columns_ok() && b.columns_ok(),
            Expr::Cached(_, a) => a.columns_ok(),
        }
    }

    pub fn cell(v: Variable) -> (r: Expr)
        ensures
            r == Expr::Cell(v),
    {
        Expr::Cell(v)
    }

    pub fn constant(c: Fe) -> (r: Expr)
        ensures
            r == Expr::Constant(c),
    {
        Expr::Constant(c)
    }

    /// A structural copy.
    pub fn copy(&self) -> (r: Expr)
        ensures
            r == *self,
        decreases self,
    {
        match self {
            Expr::Constant(c) => Expr::Constant(*c),
            Expr::Cell(v) => Expr::Cell(*v),
            Expr::Double(a) => Expr::Double(Box::new((**a).copy())),
            Expr::Add(a, b) => Expr::Add(Box::new((**a).copy()), Box::new((**b).copy())),
            Expr::Sub(a, b) => Expr::Sub(Box::new((**a).copy()), Box::new((**b).copy())),
            Expr::Mul(a, b) => Expr::Mul(Box::new((**a).copy()), Box::new((**b).copy())),
            Expr::Cached(id, a) => Expr::Cached(*id, Box::new((**a).copy())),
        }
    }

    /// The field element the polynomial takes on the window of `w` at `row`.
    pub fn evaluate(&self, w: &[Vec<Fe>; COLUMNS], row: usize) -> (r: Fe)
        requires
            self.columns_ok(),
            window_in(*w, row as int),
        ensures
            r.val() == self.eval(window(*w, row as int)) % modulus(),
        decreases self,
    {
        let ghost env = window(*w, row as int);
        match self {
            Expr::Constant(c) => {
                c.lemma_canonical();
                proof {
                    lemma_cong_mod(c.val());
                    vstd::arithmetic::div_mod::lemma_small_mod(c.val() as nat, modulus() as nat);
                }
                *c
            },
            Expr::Cell(v) => {
                let column = &w[v.col];
                let column_len = column.len();
                assert(row + 1 < column_len);
                let x = column[row + v.row.shift()];
                proof {
                    reveal(window);
                }
                x.lemma_canonical();
                proof {
                    vstd::arithmetic::div_mod::lemma_small_mod(x.val() as nat, modulus() as nat);
                }
                x
            },
            Expr::Double(a) => {
                let x = (**a).evaluate(w, row);
                let r = x.double();
                proof {
                    let e = a.eval(env);
                    lemma_cong_mod(e);
                    lemma_cong_ops(x.val(), e, x.val(), e);
                    lemma_cong_mod(x.val() + x.val());
                }
                r
            },
            Expr::Add(a, b) => {
                let x = (**a).evaluate(w, row);
                let y = (**b).evaluate(w, row);
                let r = x.add(&y);
                proof {
                    lemma_reduce_pair(a.eval(env), b.eval(env));
                }
                r
            },
            Expr::Sub(a, b) => {
                let x = (**a).evaluate(w, row);
                let y = (**b).evaluate(w, row);
                let r = x.sub(&y);
                proof {
                    lemma_reduce_pair(a.eval(env), b.eval(env));
                }
                r
            },
            Expr::Mul(a, b) => {
                let x = (**a).evaluate(w, row);
                let y = (**b).evaluate(w, row);
                let r = x.mul(&y);
                proof {
                    lemma_reduce_pair(a.eval(env), b.eval(env));
                }
                r
            },
            Expr::Cached(_, a) => (**a).evaluate(w, row),
        }
    }
}

/// Reducing the operands first does not change a reduced sum, difference or product.
proof fn lemma_reduce_pair(a: int, b: int)
    ensures
        (a % modulus() + b % modulus()) % modulus() == (a + b) % modulus(),
        (a % modulus() - b % modulus()) % modulus() == (a - b) % modulus(),
        (a % modulus() * (b % modulus())) % modulus() == (a * b) % modulus(),
{
    lemma_cong_mod(a);
    lemma_cong_mod(b);
    lemma_cong_ops(a % modulus(), a, b % modulus(), b);
}

/// Hands out the tags of shared subexpressions.
pub struct Cache {
    next_id: usize,
}

impl Cache {
    pub closed spec fn next(&self) -> usize {
        self.next_id
    }

    pub fn new() -> (r: Cache)
        ensures
            r.next() == 0,
    {
        Cache { next_id: 0 }
    }

    /// Marks `e` as shared; the result evaluates as `e` does.
    pub fn cache(&mut self, e: Expr) -> (r: Expr)
        requires
            old(self).next() < usize::MAX,
        ensures
            r == Expr::Cached(old(self).next(), Box::new(e)),
            final(self).next() == old(self).next() + 1,
    {
        let id = self.next_id;
        self.next_id = self.next_id + 1;
        Expr::Cached(id, Box::new(e))
    }
}

} // verus!
