//! The constraint system that the gadgets write to.
//!
//! A [`RegionCtx`] records what a circuit is made of: witnesses, each with an
//! identity and a value of the native field; rows, each an affine combination
//! of at most five scaled witnesses with at most one product term; and range
//! lookups. [`RegionCtx::satisfied`] says whether the recorded values meet
//! every recorded constraint, and [`RegionCtx::verify`] computes it.

use crate::big::{
    big_add, big_bits, big_clone, big_eq, big_from_u64, big_lt, big_mul, big_rem, big_sub, nat_of,
};
use num_bigint::BigUint;
use vstd::arithmetic::div_mod::{
    lemma_fundamental_div_mod, lemma_mod_add_multiples_vanish, lemma_mod_equivalence,
    lemma_mod_multiples_basic, lemma_sub_mod_noop,
};
use vstd::arithmetic::power2::{lemma_pow2_strictly_increases, pow2};
use vstd::prelude::*;

verus! {

/// A signed constant of a row: a magnitude and a sign.
pub struct Coeff {
    pub neg: bool,
    pub mag: BigUint,
}

impl Coeff {
    /// The integer the coefficient stands for.
    pub open spec fn to_int(self) -> int {
        if self.neg {
            -(nat_of(self.mag) as int)
        } else {
            nat_of(self.mag) as int
        }
    }

    /// The coefficient `+mag`.
    pub fn plus(mag: BigUint) -> (r: Coeff)
        ensures
            r.to_int() == nat_of(mag),
            r == (Coeff { neg: false, mag }),
    {
        Coeff { neg: false, mag }
    }

    /// The coefficient `-mag`.
    pub fn minus(mag: BigUint) -> (r: Coeff)
        ensures
            r.to_int() == -(nat_of(mag) as int),
            r == (Coeff { neg: true, mag }),
    {
        Coeff { neg: true, mag }
    }

    /// The coefficient `+x`.
    pub fn from_u64(x: u64) -> (r: Coeff)
        ensures
            r.to_int() == x,
    {
        Coeff { neg: false, mag: big_from_u64(x) }
    }

    /// The coefficient `-x`.
    pub fn minus_u64(x: u64) -> (r: Coeff)
        ensures
            r.to_int() == -(x as int),
    {
        Coeff { neg: true, mag: big_from_u64(x) }
    }

    /// A copy of the coefficient.
    pub fn copy(&self) -> (r: Coeff)
        ensures
            r == *self,
    {
        Coeff { neg: self.neg, mag: big_clone(&self.mag) }
    }
}

/// A value of the native field placed in the circuit. Two rows that name the
/// same `id` speak of the same cell.
pub struct Witness {
    pub id: usize,
    pub value: BigUint,
}

impl Witness {
    /// The value as a natural number.
    pub open spec fn val(self) -> nat {
        nat_of(self.value)
    }

    /// A copy of the witness: the same cell.
    pub fn copy(&self) -> (r: Witness)
        ensures
            r == *self,
    {
        Witness { id: self.id, value: big_clone(&self.value) }
    }
}

/// One term of a row: a witness scaled by a constant.
pub struct Cell {
    pub witness: Witness,
    pub coeff: Coeff,
}

impl Cell {
    /// The term `coeff * witness`.
    pub fn of(witness: &Witness, coeff: Coeff) -> (r: Cell)
        ensures
            r == (Cell { witness: *witness, coeff }),
    {
        Cell { witness: witness.copy(), coeff }
    }

    /// The term `k * witness`.
    pub fn times(witness: &Witness, k: u64) -> (r: Cell)
        ensures
            r.witness == *witness,
            cell_int(r) == k * witness.val(),
    {
        Cell { witness: witness.copy(), coeff: Coeff::from_u64(k) }
    }

    /// The term `-k * witness`.
    pub fn minus_times(witness: &Witness, k: u64) -> (r: Cell)
        ensures
            r.witness == *witness,
            cell_int(r) == -(k * witness.val()),
    {
        let r = Cell { witness: witness.copy(), coeff: Coeff::minus_u64(k) };
        proof {
            let c = r.coeff.to_int();
            let v = witness.val() as int;
            assert(c * v == -(k * v)) by (nonlinear_arith)
                requires
                    c == -(k as int),
            ;
        }
        r
    }

    /// The term `mag * witness`.
    pub fn scaled(witness: &Witness, mag: &BigUint) -> (r: Cell)
        ensures
            r.witness == *witness,
            cell_int(r) == nat_of(*mag) * witness.val(),
    {
        Cell { witness: witness.copy(), coeff: Coeff::plus(big_clone(mag)) }
    }

    /// The term `-mag * witness`.
    pub fn minus_scaled(witness: &Witness, mag: &BigUint) -> (r: Cell)
        ensures
            r.witness == *witness,
            cell_int(r) == -(nat_of(*mag) * witness.val()),
    {
        let r = Cell { witness: witness.copy(), coeff: Coeff::minus(big_clone(mag)) };
        proof {
            let c = r.coeff.to_int();
            let m = nat_of(*mag) as int;
            let v = witness.val() as int;
            assert(c * v == -(m * v)) by (nonlinear_arith)
                requires
                    c == -m,
            ;
        }
        r
    }
}

/// The row terms `[c0]`.
pub fn cells1(c0: Cell) -> (r: Vec<Cell>)
    ensures
        r@ == seq![c0],
        cells_sum(r@) == cell_int(c0),
{
    let mut v = Vec::new();
    v.push(c0);
    proof {
        assert(v@ =~= seq![c0]);
        lemma_cells_sum_1(c0);
    }
    v
}

/// The row terms `[c0, c1]`.
pub fn cells2(c0: Cell, c1: Cell) -> (r: Vec<Cell>)
    ensures
        r@ == seq![c0, c1],
        cells_sum(r@) == cell_int(c0) + cell_int(c1),
{
    let mut v = Vec::new();
    v.push(c0);
    v.push(c1);
    proof {
        assert(v@ =~= seq![c0, c1]);
        lemma_cells_sum_2(c0, c1);
    }
    v
}

/// The row terms `[c0, c1, c2]`.
pub fn cells3(c0: Cell, c1: Cell, c2: Cell) -> (r: Vec<Cell>)
    ensures
        r@ == seq![c0, c1, c2],
        cells_sum(r@) == cell_int(c0) + cell_int(c1) + cell_int(c2),
{
    let mut v = Vec::new();
    v.push(c0);
    v.push(c1);
    v.push(c2);
    proof {
        assert(v@ =~= seq![c0, c1, c2]);
        lemma_cells_sum_3(c0, c1, c2);
    }
    v
}

/// The row terms `[c0, c1, c2, c3]`.
pub fn cells4(c0: Cell, c1: Cell, c2: Cell, c3: Cell) -> (r: Vec<Cell>)
    ensures
        r@ == seq![c0, c1, c2, c3],
        cells_sum(r@) == cell_int(c0) + cell_int(c1) + cell_int(c2) + cell_int(c3),
{
    let mut v = Vec::new();
    v.push(c0);
    v.push(c1);
    v.push(c2);
    v.push(c3);
    proof {
        assert(v@ =~= seq![c0, c1, c2, c3]);
        lemma_cells_sum_4(c0, c1, c2, c3);
    }
    v
}

/// The row terms `[c0, c1, c2, c3, c4]`.
pub fn cells5(c0: Cell, c1: Cell, c2: Cell, c3: Cell, c4: Cell) -> (r: Vec<Cell>)
    ensures
        r@ == seq![c0, c1, c2, c3, c4],
        cells_sum(r@) == cell_int(c0) + cell_int(c1) + cell_int(c2) + cell_int(c3) + cell_int(c4),
{
    let mut v = Vec::new();
    v.push(c0);
    v.push(c1);
    v.push(c2);
    v.push(c3);
    v.push(c4);
    proof {
        assert(v@ =~= seq![c0, c1, c2, c3, c4]);
        lemma_cells_sum_5(c0, c1, c2, c3, c4);
    }
    v
}

/// One row of the circuit: the sum of its terms, of its constant and, where
/// `mul` is set, of the product of its first two witnesses must be zero in
/// the native field.
pub struct Row {
    pub cells: Vec<Cell>,
    pub constant: Coeff,
    pub mul: bool,
}

/// A range constraint: the witness must be below `2^bit_len`.
pub struct Lookup {
    pub witness: Witness,
    pub bit_len: u64,
}

/// A binding of a witness to a public-input slot.
pub struct Instance {
    pub witness: Witness,
    pub row: usize,
}

/// The integer value of one term.
pub open spec fn cell_int(c: Cell) -> int {
    c.coeff.to_int() * (c.witness.val() as int)
}

/// The sum of the terms.
pub open spec fn cells_sum(cells: Seq<Cell>) -> int
    decreases cells.len(),
{
    if cells.len() == 0 {
        0
    } else {
        cells_sum(cells.drop_last()) + cell_int(cells.last())
    }
}

/// The product term of a row: the first two witnesses multiplied, or zero.
pub open spec fn product_int(cells: Seq<Cell>, mul: bool) -> int {
    if mul && cells.len() >= 2 {
        (cells[0].witness.val() * cells[1].witness.val()) as int
    } else {
        0
    }
}

/// The integer that a row with these parts requires to vanish modulo the
/// native modulus.
pub open spec fn combination(cells: Seq<Cell>, constant: Coeff, mul: bool) -> int {
    cells_sum(cells) + constant.to_int() + product_int(cells, mul)
}

/// Whether the values recorded in the row meet its equation.
pub open spec fn row_holds(row: Row, modulus: nat) -> bool {
    combination(row.cells@, row.constant, row.mul) % (modulus as int) == 0
}

/// Whether the value recorded in the lookup is in range.
pub open spec fn lookup_holds(l: Lookup) -> bool {
    l.witness.val() < pow2(l.bit_len as nat)
}

/// The sum of cells with one more cell at the end.
pub proof fn lemma_cells_sum_push(cells: Seq<Cell>, c: Cell)
    ensures
        cells_sum(cells.push(c)) == cells_sum(cells) + cell_int(c),
{
    assert(cells.push(c).drop_last() =~= cells);
}

/// The sum of one cell.
pub proof fn lemma_cells_sum_1(c0: Cell)
    ensures
        cells_sum(seq![c0]) == cell_int(c0),
{
    assert(seq![c0] =~= Seq::<Cell>::empty().push(c0));
    lemma_cells_sum_push(Seq::<Cell>::empty(), c0);
}

/// The sum of two cells.
pub proof fn lemma_cells_sum_2(c0: Cell, c1: Cell)
    ensures
        cells_sum(seq![c0, c1]) == cell_int(c0) + cell_int(c1),
{
    assert(seq![c0, c1] =~= seq![c0].push(c1));
    lemma_cells_sum_push(seq![c0], c1);
    lemma_cells_sum_1(c0);
}

/// The sum of three cells.
pub proof fn lemma_cells_sum_3(c0: Cell, c1: Cell, c2: Cell)
    ensures
        cells_sum(seq![c0, c1, c2]) == cell_int(c0) + cell_int(c1) + cell_int(c2),
{
    assert(seq![c0, c1, c2] =~= seq![c0, c1].push(c2));
    lemma_cells_sum_push(seq![c0, c1], c2);
    lemma_cells_sum_2(c0, c1);
}

/// The sum of four cells.
pub proof fn lemma_cells_sum_4(c0: Cell, c1: Cell, c2: Cell, c3: Cell)
    ensures
        cells_sum(seq![c0, c1, c2, c3]) == cell_int(c0) + cell_int(c1) + cell_int(c2) + cell_int(
            c3,
        ),
{
    assert(seq![c0, c1, c2, c3] =~= seq![c0, c1, c2].push(c3));
    lemma_cells_sum_push(seq![c0, c1, c2], c3);
    lemma_cells_sum_3(c0, c1, c2);
}

/// The sum of five cells.
pub proof fn lemma_cells_sum_5(c0: Cell, c1: Cell, c2: Cell, c3: Cell, c4: Cell)
    ensures
        cells_sum(seq![c0, c1, c2, c3, c4]) == cell_int(c0) + cell_int(c1) + cell_int(c2)
            + cell_int(c3) + cell_int(c4),
{
    assert(seq![c0, c1, c2, c3, c4] =~= seq![c0, c1, c2, c3].push(c4));
    lemma_cells_sum_push(seq![c0, c1, c2, c3], c4);
    lemma_cells_sum_4(c0, c1, c2, c3);
}

/// An integer differs from its remainder by a multiple of the modulus.
pub proof fn lemma_minus_remainder(s: int, n: int)
    requires
        n > 0,
    ensures
        (s - s % n) % n == 0,
{
    lemma_fundamental_div_mod(s, n);
    lemma_mod_multiples_basic(s / n, n);
    assert(n * (s / n) == (s / n) * n) by (nonlinear_arith);
}

/// The recorded circuit.
pub struct RegionCtx {
    pub native_modulus: BigUint,
    pub values: Vec<BigUint>,
    pub rows: Vec<Row>,
    pub lookups: Vec<Lookup>,
    pub instances: Vec<Instance>,
}

/// The positive and the negative part of a sum of terms.
fn eval_cells(cells: &Vec<Cell>) -> (r: (BigUint, BigUint))
    ensures
        nat_of(r.0) - nat_of(r.1) == cells_sum(cells@),
{
    let mut pos = big_from_u64(0);
    let mut neg = big_from_u64(0);
    let mut i: usize = 0;
    proof {
        assert(cells@.take(0) =~= Seq::<Cell>::empty());
    }
    while i < cells.len()
        invariant
            i <= cells.len(),
            nat_of(pos) - nat_of(neg) == cells_sum(cells@.take(i as int)),
        decreases cells.len() - i,
    {
        let c = &cells[i];
        let prod = big_mul(&c.coeff.mag, &c.witness.value);
        proof {
            assert(cells@.take(i + 1).drop_last() =~= cells@.take(i as int));
            assert(cells@.take(i + 1).last() == cells@[i as int]);
            let m = nat_of(c.coeff.mag) as int;
            let v = nat_of(c.witness.value) as int;
            assert((-m) * v == -(m * v)) by (nonlinear_arith);
        }
        if c.coeff.neg {
            neg = big_add(&neg, &prod);
        } else {
            pos = big_add(&pos, &prod);
        }
        i = i + 1;
    }
    proof {
        assert(cells@.take(cells.len() as int) =~= cells@);
    }
    (pos, neg)
}

/// The positive and the negative part of the whole combination of a row.
fn eval_combination(cells: &Vec<Cell>, constant: &Coeff, mul: bool) -> (r: (BigUint, BigUint))
    ensures
        nat_of(r.0) - nat_of(r.1) == combination(cells@, *constant, mul),
{
    let (pos, neg) = eval_cells(cells);
    let (pos, neg) = if constant.neg {
        (pos, big_add(&neg, &constant.mag))
    } else {
        (big_add(&pos, &constant.mag), neg)
    };
    if mul && cells.len() >= 2 {
        let prod = big_mul(&cells[0].witness.value, &cells[1].witness.value);
        (big_add(&pos, &prod), neg)
    } else {
        (pos, neg)
    }
}

impl RegionCtx {
    /// The native modulus as a natural number.
    pub open spec fn modulus(self) -> nat {
        nat_of(self.native_modulus)
    }

    /// The context is usable: its modulus is at least two.
    pub open spec fn wf(self) -> bool {
        self.modulus() > 1
    }

    /// Every recorded row and lookup holds of the recorded values.
    pub closed spec fn satisfied(self) -> bool {
        &&& forall|i: int| 0 <= i < self.rows@.len() ==> row_holds(#[trigger] self.rows@[i], self.modulus())
        &&& forall|i: int| 0 <= i < self.lookups@.len() ==> lookup_holds(#[trigger] self.lookups@[i])
    }

    /// An empty circuit over the field of the given modulus, or `None` when
    /// the modulus is below two.
    pub fn new(native_modulus: BigUint) -> (r: Option<RegionCtx>)
        ensures
            r is Some <==> nat_of(native_modulus) > 1,
            r matches Some(ctx) ==> ctx.wf() && ctx.satisfied() && ctx.native_modulus
                == native_modulus && ctx.rows@.len() == 0 && ctx.lookups@.len() == 0
                && ctx.values@.len() == 0 && ctx.instances@.len() == 0,
    {
        let one = big_from_u64(1);
        if big_lt(&one, &native_modulus) {
            Some(
                RegionCtx {
                    native_modulus,
                    values: Vec::new(),
                    rows: Vec::new(),
                    lookups: Vec::new(),
                    instances: Vec::new(),
                },
            )
        } else {
            None
        }
    }

    /// Reduces a difference of two naturals into the native field.
    fn reduce_signed(&self, pos: &BigUint, neg: &BigUint) -> (r: BigUint)
        requires
            self.wf(),
        ensures
            nat_of(r) == (nat_of(*pos) - nat_of(*neg)) % (self.modulus() as int),
            nat_of(r) < self.modulus(),
    {
        let n = &self.native_modulus;
        let p = big_rem(pos, n);
        let q = big_rem(neg, n);
        let s = big_sub(&big_add(&p, n), &q);
        let r = big_rem(&s, n);
        proof {
            let ni = nat_of(*n) as int;
            let a = nat_of(*pos) as int;
            let b = nat_of(*neg) as int;
            lemma_sub_mod_noop(a, b, ni);
            lemma_mod_add_multiples_vanish(a % ni - b % ni, ni);
        }
        r
    }

    /// Places a new witness holding `value` reduced into the native field.
    pub fn assign(&mut self, value: &BigUint) -> (w: Witness)
        requires
            old(self).wf(),
        ensures
            final(self).wf(),
            final(self).native_modulus == old(self).native_modulus,
            final(self).rows == old(self).rows,
            final(self).lookups == old(self).lookups,
            final(self).instances == old(self).instances,
            final(self).values@.len() == old(self).values@.len() + 1,
            final(self).satisfied() == old(self).satisfied(),
            w.id == old(self).values@.len(),
            w.val() == nat_of(*value) % old(self).modulus(),
            w.val() < old(self).modulus(),
    {
        let v = big_rem(value, &self.native_modulus);
        let id = self.values.len();
        self.values.push(big_clone(&v));
        proof {
            assert(self.rows@ == old(self).rows@);
            assert(self.lookups@ == old(self).lookups@);
        }
        Witness { id, value: v }
    }

    /// Records a row over witnesses that exist already.
    pub fn constrain(&mut self, cells: Vec<Cell>, constant: Coeff, mul: bool)
        requires
            old(self).wf(),
        ensures
            final(self).wf(),
            final(self).native_modulus == old(self).native_modulus,
            final(self).values == old(self).values,
            final(self).lookups == old(self).lookups,
            final(self).instances == old(self).instances,
            final(self).rows@ == old(self).rows@.push(Row { cells, constant, mul }),
            final(self).satisfied() == (old(self).satisfied() && combination(cells@, constant, mul)
                % (old(self).modulus() as int) == 0),
    {
        let ghost row = Row { cells, constant, mul };
        self.rows.push(Row { cells, constant, mul });
        proof {
            let n = self.modulus();
            let before = old(self).rows@;
            let after = self.rows@;
            assert(self.lookups@ == old(self).lookups@);
            assert(after[before.len() as int] == row);
            if old(self).satisfied() && row_holds(row, n) {
                assert forall|i: int| 0 <= i < after.len() implies row_holds(
                    #[trigger] after[i],
                    n,
                ) by {
                    if i < before.len() {
                        assert(after[i] == before[i]);
                    }
                }
            }
            if self.satisfied() {
                assert forall|i: int| 0 <= i < before.len() implies row_holds(
                    #[trigger] before[i],
                    n,
                ) by {
                    assert(after[i] == before[i]);
                }
            }
        }
    }

    /// Places a new witness whose value is the combination of the given
    /// terms, reduced into the native field, and records the row that binds
    /// it: the terms, then the new witness with coefficient `-1`.
    pub fn derive(&mut self, cells: Vec<Cell>, constant: Coeff, mul: bool) -> (w: Witness)
        requires
            old(self).wf(),
            mul ==> cells@.len() >= 2,
        ensures
            final(self).wf(),
            final(self).native_modulus == old(self).native_modulus,
            final(self).lookups == old(self).lookups,
            final(self).instances == old(self).instances,
            final(self).values@.len() == old(self).values@.len() + 1,
            final(self).rows@.len() == old(self).rows@.len() + 1,
            final(self).satisfied() == old(self).satisfied(),
            w.id == old(self).values@.len(),
            w.val() == combination(cells@, constant, mul) % (old(self).modulus() as int),
            w.val() < old(self).modulus(),
    {
        let (pos, neg) = eval_combination(&cells, &constant, mul);
        let value = self.reduce_signed(&pos, &neg);
        let w = self.assign(&value);
        let ghost s = combination(cells@, constant, mul);
        let ghost n = self.modulus() as int;
        let mut all = cells;
        let last = Cell::of(&w, Coeff::minus_u64(1));
        all.push(last);
        proof {
            lemma_cells_sum_push(cells@, last);
            assert(cell_int(last) == -(w.val() as int)) by (nonlinear_arith)
                requires
                    cell_int(last) == (-1) * (w.val() as int),
            ;
            assert(w.val() == s % n) by {
                vstd::arithmetic::div_mod::lemma_small_mod(nat_of(value), self.modulus());
            }
            assert(product_int(all@, mul) == product_int(cells@, mul));
            assert(combination(all@, constant, mul) == s - s % n);
            lemma_minus_remainder(s, n);
        }
        self.constrain(all, constant, mul);
        w
    }

    /// Records the row `c0 + c1 + c2 + constant = 0`.
    pub fn constrain_sum3(&mut self, c0: Cell, c1: Cell, c2: Cell, constant: Coeff)
        requires
            old(self).wf(),
        ensures
            final(self).wf(),
            final(self).native_modulus == old(self).native_modulus,
            final(self).satisfied() == (old(self).satisfied() && (cell_int(c0) + cell_int(c1)
                + cell_int(c2) + constant.to_int()) % (old(self).modulus() as int) == 0),
    {
        self.constrain(cells3(c0, c1, c2), constant, false);
    }

    /// Records the row `c0 + c1 + c2 + c3 + constant = 0`.
    pub fn constrain_sum4(&mut self, c0: Cell, c1: Cell, c2: Cell, c3: Cell, constant: Coeff)
        requires
            old(self).wf(),
        ensures
            final(self).wf(),
            final(self).native_modulus == old(self).native_modulus,
            final(self).satisfied() == (old(self).satisfied() && (cell_int(c0) + cell_int(c1)
                + cell_int(c2) + cell_int(c3) + constant.to_int()) % (old(self).modulus() as int)
                == 0),
    {
        self.constrain(cells4(c0, c1, c2, c3), constant, false);
    }

    /// Records the row `x * y + e1 + e2 + constant = 0`.
    pub fn constrain_product(
        &mut self,
        x: &Witness,
        y: &Witness,
        e1: Cell,
        e2: Cell,
        constant: Coeff,
    )
        requires
            old(self).wf(),
        ensures
            final(self).wf(),
            final(self).native_modulus == old(self).native_modulus,
            final(self).satisfied() == (old(self).satisfied() && (x.val() * y.val() + cell_int(e1)
                + cell_int(e2) + constant.to_int()) % (old(self).modulus() as int) == 0),
    {
        self.constrain(cells4(Cell::times(x, 0), Cell::times(y, 0), e1, e2), constant, true);
    }

    /// Places the cell `c0 + c1 + c2 + constant` and records the row that
    /// binds it.
    pub fn derive_sum3(&mut self, c0: Cell, c1: Cell, c2: Cell, constant: Coeff) -> (w: Witness)
        requires
            old(self).wf(),
        ensures
            final(self).wf(),
            final(self).native_modulus == old(self).native_modulus,
            final(self).satisfied() == old(self).satisfied(),
            w.val() == (cell_int(c0) + cell_int(c1) + cell_int(c2) + constant.to_int()) % (old(
                self,
            ).modulus() as int),
            w.val() < old(self).modulus(),
    {
        self.derive(cells3(c0, c1, c2), constant, false)
    }

    /// Places the cell `x * y + e1 + e2` and records the row that binds it.
    pub fn derive_product(&mut self, x: &Witness, y: &Witness, e1: Cell, e2: Cell) -> (w: Witness)
        requires
            old(self).wf(),
        ensures
            final(self).wf(),
            final(self).native_modulus == old(self).native_modulus,
            final(self).satisfied() == old(self).satisfied(),
            w.val() == (x.val() * y.val() + cell_int(e1) + cell_int(e2)) % (old(self).modulus() as int),
            w.val() < old(self).modulus(),
    {
        self.derive(cells4(Cell::times(x, 0), Cell::times(y, 0), e1, e2), Coeff::from_u64(0), true)
    }

    /// Records that the witness must be below `2^bit_len`.
    pub fn range(&mut self, witness: &Witness, bit_len: u64)
        requires
            old(self).wf(),
        ensures
            final(self).wf(),
            final(self).native_modulus == old(self).native_modulus,
            final(self).values == old(self).values,
            final(self).rows == old(self).rows,
            final(self).instances == old(self).instances,
            final(self).lookups@ == old(self).lookups@.push(Lookup { witness: *witness, bit_len }),
            final(self).satisfied() == (old(self).satisfied() && witness.val() < pow2(
                bit_len as nat,
            )),
    {
        let ghost l = Lookup { witness: *witness, bit_len };
        self.lookups.push(Lookup { witness: witness.copy(), bit_len });
        proof {
            let before = old(self).lookups@;
            let after = self.lookups@;
            assert(self.rows@ == old(self).rows@);
            assert(after[before.len() as int] == l);
            if old(self).satisfied() && lookup_holds(l) {
                assert forall|i: int| 0 <= i < after.len() implies lookup_holds(
                    #[trigger] after[i],
                ) by {
                    if i < before.len() {
                        assert(after[i] == before[i]);
                    }
                }
            }
            if self.satisfied() {
                assert forall|i: int| 0 <= i < before.len() implies lookup_holds(
                    #[trigger] before[i],
                ) by {
                    assert(after[i] == before[i]);
                }
            }
        }
    }

    /// Binds the witness to the public-input slot `row`.
    pub fn expose(&mut self, witness: &Witness, row: usize)
        ensures
            final(self).native_modulus == old(self).native_modulus,
            final(self).values == old(self).values,
            final(self).rows == old(self).rows,
            final(self).lookups == old(self).lookups,
            final(self).instances@ == old(self).instances@.push(Instance { witness: *witness, row }),
    {
        self.instances.push(Instance { witness: witness.copy(), row });
    }

    /// Whether one row holds of the values it records.
    fn check_row(&self, row: &Row) -> (r: bool)
        requires
            self.wf(),
        ensures
            r == row_holds(*row, self.modulus()),
    {
        let (pos, neg) = eval_combination(&row.cells, &row.constant, row.mul);
        let p = big_rem(&pos, &self.native_modulus);
        let q = big_rem(&neg, &self.native_modulus);
        proof {
            lemma_mod_equivalence(
                nat_of(pos) as int,
                nat_of(neg) as int,
                self.modulus() as int,
            );
        }
        big_eq(&p, &q)
    }

    /// Whether one lookup holds of the value it records.
    fn check_lookup(l: &Lookup) -> (r: bool)
        ensures
            r == lookup_holds(*l),
    {
        let bits = big_bits(&l.witness.value);
        proof {
            let b = bits as nat;
            let k = l.bit_len as nat;
            if b < k {
                lemma_pow2_strictly_increases(b, k);
            }
            if b > k && ((b - 1) as nat) > k {
                lemma_pow2_strictly_increases(k, (b - 1) as nat);
            }
        }
        bits <= l.bit_len
    }

    /// Checks every recorded constraint against the recorded values.
    pub fn verify(&self) -> (r: bool)
        requires
            self.wf(),
        ensures
            r == self.satisfied(),
    {
        let mut i: usize = 0;
        while i < self.rows.len()
            invariant
                self.wf(),
                i <= self.rows.len(),
                forall|j: int| 0 <= j < i ==> row_holds(#[trigger] self.rows@[j], self.modulus()),
            decreases self.rows.len() - i,
        {
            if !self.check_row(&self.rows[i]) {
                return false;
            }
            i = i + 1;
        }
        let mut k: usize = 0;
        while k < self.lookups.len()
            invariant
                k <= self.lookups.len(),
                forall|j: int| 0 <= j < k ==> lookup_holds(#[trigger] self.lookups@[j]),
            decreases self.lookups.len() - k,
        {
            if !Self::check_lookup(&self.lookups[k]) {
                return false;
            }
            k = k + 1;
        }
        true
    }
}

} // verus!
