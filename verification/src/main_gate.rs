//! The arithmetic gate: single-cell operations of the native field, each
//! recorded as one or two rows of the circuit.

use crate::big::{big_bit, big_from_u64, big_modinv, is_inverse_mod, nat_of};
use crate::limbs::big_pow2;
use vstd::arithmetic::power2::{lemma_pow2_pos, lemma_pow2_unfold, pow2};
use crate::gate::{
    cell_int, cells1, cells2, cells3, combination, Cell, Coeff, RegionCtx, Witness,
};
use num_bigint::BigUint;
use vstd::arithmetic::div_mod::{
    lemma_add_mod_noop, lemma_mod_add_multiples_vanish, lemma_mod_equivalence,
    lemma_mul_mod_noop_right, lemma_small_mod,
};
use vstd::prelude::*;

verus! {

/// The integer `x` as an element of the field of modulus `n`.
pub open spec fn fe(x: int, n: nat) -> nat {
    (x % (n as int)) as nat
}

/// Whether `a` has a multiplicative inverse modulo `n`.
pub open spec fn invertible(a: nat, n: nat) -> bool {
    exists|x: nat| is_inverse_mod(a, x, n)
}

/// The columns of the arithmetic gate: the five cells of a row and the public inputs.
#[derive(Clone, Copy, Debug)]
pub struct MainGateConfig {
    pub a: usize,
    pub b: usize,
    pub c: usize,
    pub d: usize,
    pub e: usize,
    pub instance: usize,
}

/// The arithmetic gate.
#[derive(Clone, Copy, Debug)]
pub struct MainGate {
    pub config: MainGateConfig,
}

/// A term of [`MainGate::combine`].
pub enum Term {
    /// A witness placed before, with its coefficient.
    Assigned(Witness, Coeff),
    /// A value to place in this row, with its coefficient.
    Unassigned(BigUint, Coeff),
    /// Nothing: the cell holds zero.
    Zero,
}

impl Term {
    /// The value the term's cell holds in a field of modulus `n`.
    pub open spec fn value(self, n: nat) -> nat {
        match self {
            Term::Assigned(w, _) => w.val(),
            Term::Unassigned(v, _) => nat_of(v) % n,
            Term::Zero => 0,
        }
    }

    /// What the term adds to its row.
    pub open spec fn to_int(self, n: nat) -> int {
        match self {
            Term::Assigned(w, c) => c.to_int() * (w.val() as int),
            Term::Unassigned(v, c) => c.to_int() * ((nat_of(v) % n) as int),
            Term::Zero => 0,
        }
    }
}

/// What a row of five terms requires to vanish: their sum, the constant and,
/// where `mul` is set, the product of the first two cells.
pub open spec fn terms_combination(
    t0: Term,
    t1: Term,
    t2: Term,
    t3: Term,
    t4: Term,
    constant: Coeff,
    mul: bool,
    n: nat,
) -> int {
    t0.to_int(n) + t1.to_int(n) + t2.to_int(n) + t3.to_int(n) + t4.to_int(n) + constant.to_int()
        + if mul {
        (t0.value(n) * t1.value(n)) as int
    } else {
        0
    }
}

impl MainGate {
    /// The gadget of a configuration.
    pub fn new(config: MainGateConfig) -> (r: MainGate)
        ensures
            r.config == config,
    {
        MainGate { config }
    }

    /// Places one term of a row: an assigned witness is taken as it is, a
    /// value gets a new cell, and an empty term a new cell holding zero.
    fn place(&self, ctx: &mut RegionCtx, term: Term) -> (c: Cell)
        requires
            old(ctx).wf(),
        ensures
            final(ctx).native_modulus == old(ctx).native_modulus,
            final(ctx).rows == old(ctx).rows,
            final(ctx).lookups == old(ctx).lookups,
            final(ctx).satisfied() == old(ctx).satisfied(),
            c.witness.val() == term.value(old(ctx).modulus()),
            cell_int(c) == term.to_int(old(ctx).modulus()),
            term matches Term::Assigned(w, _) ==> c.witness == w,
            !(term is Assigned) ==> c.witness.id == old(ctx).values@.len(),
    {
        match term {
            Term::Assigned(w, coeff) => Cell { witness: w, coeff },
            Term::Unassigned(v, coeff) => {
                let w = ctx.assign(&v);
                Cell { witness: w, coeff }
            },
            Term::Zero => {
                let w = ctx.assign(&big_from_u64(0));
                proof {
                    lemma_small_mod(0, ctx.modulus());
                }
                Cell::times(&w, 0)
            },
        }
    }

    /// One row over five terms. Returns the five cells of the row, in order.
    /// The circuit stays satisfied exactly when the combination of the terms
    /// vanishes in the native field.
    pub fn combine(
        &self,
        ctx: &mut RegionCtx,
        t0: Term,
        t1: Term,
        t2: Term,
        t3: Term,
        t4: Term,
        constant: Coeff,
        mul: bool,
    ) -> (r: Vec<Witness>)
        requires
            old(ctx).wf(),
        ensures
            final(ctx).native_modulus == old(ctx).native_modulus,
            final(ctx).rows@.len() == old(ctx).rows@.len() + 1,
            final(ctx).lookups == old(ctx).lookups,
            r@.len() == 5,
            r@[0].val() == t0.value(old(ctx).modulus()),
            r@[1].val() == t1.value(old(ctx).modulus()),
            r@[2].val() == t2.value(old(ctx).modulus()),
            r@[3].val() == t3.value(old(ctx).modulus()),
            r@[4].val() == t4.value(old(ctx).modulus()),
            t0 matches Term::Assigned(w, _) ==> r@[0] == w,
            t1 matches Term::Assigned(w, _) ==> r@[1] == w,
            t2 matches Term::Assigned(w, _) ==> r@[2] == w,
            t3 matches Term::Assigned(w, _) ==> r@[3] == w,
            t4 matches Term::Assigned(w, _) ==> r@[4] == w,
            final(ctx).satisfied() == (old(ctx).satisfied() && terms_combination(
                t0,
                t1,
                t2,
                t3,
                t4,
                constant,
                mul,
                old(ctx).modulus(),
            ) % (old(ctx).modulus() as int) == 0),
    {
        let c0 = self.place(ctx, t0);
        let c1 = self.place(ctx, t1);
        let c2 = self.place(ctx, t2);
        let c3 = self.place(ctx, t3);
        let c4 = self.place(ctx, t4);
        let mut r: Vec<Witness> = Vec::new();
        r.push(c0.witness.copy());
        r.push(c1.witness.copy());
        r.push(c2.witness.copy());
        r.push(c3.witness.copy());
        r.push(c4.witness.copy());
        let cells = crate::gate::cells5(c0, c1, c2, c3, c4);
        ctx.constrain(cells, constant, mul);
        r
    }

    /// Places a value in a new cell.
    pub fn assign_value(&self, ctx: &mut RegionCtx, value: &BigUint) -> (w: Witness)
        requires
            old(ctx).wf(),
        ensures
            final(ctx).native_modulus == old(ctx).native_modulus,
            final(ctx).rows == old(ctx).rows,
            final(ctx).lookups == old(ctx).lookups,
            final(ctx).satisfied() == old(ctx).satisfied(),
            w.val() == nat_of(*value) % old(ctx).modulus(),
            w.val() < old(ctx).modulus(),
    {
        ctx.assign(value)
    }

    /// Places a value in a new cell and constrains it to be a bit: the row
    /// `w * w - w = 0`.
    pub fn assign_bit(&self, ctx: &mut RegionCtx, value: &BigUint) -> (w: Witness)
        requires
            old(ctx).wf(),
        ensures
            final(ctx).native_modulus == old(ctx).native_modulus,
            final(ctx).lookups == old(ctx).lookups,
            w.val() == nat_of(*value) % old(ctx).modulus(),
            final(ctx).satisfied() == (old(ctx).satisfied() && (w.val() * w.val() - w.val()) % (
            old(ctx).modulus() as int) == 0),
            nat_of(*value) <= 1 ==> w.val() == nat_of(*value) && final(ctx).satisfied() == old(
                ctx,
            ).satisfied(),
    {
        let w = ctx.assign(value);
        proof {
            if nat_of(*value) <= 1 {
                lemma_small_mod(nat_of(*value), ctx.modulus());
                assert(w.val() * w.val() - w.val() == 0) by (nonlinear_arith)
                    requires
                        w.val() <= 1,
                ;
            }
        }
        self.assert_bit(ctx, &w);
        w
    }

    /// `a + b`.
    pub fn add(&self, ctx: &mut RegionCtx, a: &Witness, b: &Witness) -> (c: Witness)
        requires
            old(ctx).wf(),
        ensures
            final(ctx).native_modulus == old(ctx).native_modulus,
            final(ctx).lookups == old(ctx).lookups,
            final(ctx).satisfied() == old(ctx).satisfied(),
            c.val() == fe((a.val() + b.val()) as int, old(ctx).modulus()),
    {
        ctx.derive(cells2(Cell::times(a, 1), Cell::times(b, 1)), Coeff::from_u64(0), false)
    }

    /// `a + constant`.
    pub fn add_constant(&self, ctx: &mut RegionCtx, a: &Witness, constant: &BigUint) -> (c:
        Witness)
        requires
            old(ctx).wf(),
        ensures
            final(ctx).native_modulus == old(ctx).native_modulus,
            final(ctx).lookups == old(ctx).lookups,
            final(ctx).satisfied() == old(ctx).satisfied(),
            c.val() == fe((a.val() + nat_of(*constant)) as int, old(ctx).modulus()),
    {
        ctx.derive(cells1(Cell::times(a, 1)), Coeff::plus(crate::big::big_clone(constant)), false)
    }

    /// `a - b + constant`.
    pub fn sub_with_constant(
        &self,
        ctx: &mut RegionCtx,
        a: &Witness,
        b: &Witness,
        constant: &BigUint,
    ) -> (c: Witness)
        requires
            old(ctx).wf(),
        ensures
            final(ctx).native_modulus == old(ctx).native_modulus,
            final(ctx).lookups == old(ctx).lookups,
            final(ctx).satisfied() == old(ctx).satisfied(),
            c.val() == fe(a.val() - b.val() + nat_of(*constant), old(ctx).modulus()),
    {
        ctx.derive(
            cells2(Cell::times(a, 1), Cell::minus_times(b, 1)),
            Coeff::plus(crate::big::big_clone(constant)),
            false,
        )
    }

    /// `constant - a`.
    pub fn neg_with_constant(&self, ctx: &mut RegionCtx, a: &Witness, constant: &BigUint) -> (c:
        Witness)
        requires
            old(ctx).wf(),
        ensures
            final(ctx).native_modulus == old(ctx).native_modulus,
            final(ctx).lookups == old(ctx).lookups,
            final(ctx).satisfied() == old(ctx).satisfied(),
            c.val() == fe(nat_of(*constant) - a.val(), old(ctx).modulus()),
    {
        ctx.derive(
            cells1(Cell::minus_times(a, 1)),
            Coeff::plus(crate::big::big_clone(constant)),
            false,
        )
    }

    /// `k * a` for a small constant `k`.
    pub fn scale(&self, ctx: &mut RegionCtx, a: &Witness, k: u64) -> (c: Witness)
        requires
            old(ctx).wf(),
        ensures
            final(ctx).native_modulus == old(ctx).native_modulus,
            final(ctx).lookups == old(ctx).lookups,
            final(ctx).satisfied() == old(ctx).satisfied(),
            c.val() == fe((k * a.val()) as int, old(ctx).modulus()),
    {
        ctx.derive(cells1(Cell::times(a, k)), Coeff::from_u64(0), false)
    }

    /// `a * b`.
    pub fn mul(&self, ctx: &mut RegionCtx, a: &Witness, b: &Witness) -> (c: Witness)
        requires
            old(ctx).wf(),
        ensures
            final(ctx).native_modulus == old(ctx).native_modulus,
            final(ctx).lookups == old(ctx).lookups,
            final(ctx).satisfied() == old(ctx).satisfied(),
            c.val() == fe((a.val() * b.val()) as int, old(ctx).modulus()),
    {
        ctx.derive(cells2(Cell::times(a, 0), Cell::times(b, 0)), Coeff::from_u64(0), true)
    }

    /// Constrains `a = b`.
    pub fn assert_equal(&self, ctx: &mut RegionCtx, a: &Witness, b: &Witness)
        requires
            old(ctx).wf(),
        ensures
            final(ctx).native_modulus == old(ctx).native_modulus,
            final(ctx).lookups == old(ctx).lookups,
            final(ctx).satisfied() == (old(ctx).satisfied() && a.val() % old(ctx).modulus()
                == b.val() % old(ctx).modulus()),
    {
        proof {
            lemma_mod_equivalence(a.val() as int, b.val() as int, ctx.modulus() as int);
        }
        ctx.constrain(cells2(Cell::times(a, 1), Cell::minus_times(b, 1)), Coeff::from_u64(0), false);
    }

    /// Constrains `a = 0`.
    pub fn assert_zero(&self, ctx: &mut RegionCtx, a: &Witness)
        requires
            old(ctx).wf(),
        ensures
            final(ctx).native_modulus == old(ctx).native_modulus,
            final(ctx).lookups == old(ctx).lookups,
            final(ctx).satisfied() == (old(ctx).satisfied() && a.val() % old(ctx).modulus() == 0),
    {
        ctx.constrain(cells1(Cell::times(a, 1)), Coeff::from_u64(0), false);
    }

    /// Constrains `a = 1`.
    pub fn assert_one(&self, ctx: &mut RegionCtx, a: &Witness)
        requires
            old(ctx).wf(),
        ensures
            final(ctx).native_modulus == old(ctx).native_modulus,
            final(ctx).lookups == old(ctx).lookups,
            final(ctx).satisfied() == (old(ctx).satisfied() && a.val() % old(ctx).modulus() == 1),
    {
        proof {
            lemma_mod_equivalence(a.val() as int, 1, ctx.modulus() as int);
            lemma_small_mod(1, ctx.modulus());
        }
        ctx.constrain(cells1(Cell::times(a, 1)), Coeff::minus_u64(1), false);
    }

    /// Constrains `a` to be a bit: the row `a * a - a = 0`.
    pub fn assert_bit(&self, ctx: &mut RegionCtx, a: &Witness)
        requires
            old(ctx).wf(),
        ensures
            final(ctx).native_modulus == old(ctx).native_modulus,
            final(ctx).lookups == old(ctx).lookups,
            final(ctx).values == old(ctx).values,
            final(ctx).satisfied() == (old(ctx).satisfied() && (a.val() * a.val() - a.val()) % (
            old(ctx).modulus() as int) == 0),
    {
        ctx.constrain(cells2(Cell::minus_times(a, 1), Cell::times(a, 0)), Coeff::from_u64(0), true);
    }

    /// Constrains `a = 1` or `b = 1`: the row `(a - 1) * (b - 1) = 0`.
    pub fn one_or_one(&self, ctx: &mut RegionCtx, a: &Witness, b: &Witness)
        requires
            old(ctx).wf(),
        ensures
            final(ctx).native_modulus == old(ctx).native_modulus,
            final(ctx).lookups == old(ctx).lookups,
            final(ctx).satisfied() == (old(ctx).satisfied() && ((a.val() - 1) * (b.val() - 1)) % (
            old(ctx).modulus() as int) == 0),
    {
        proof {
            let x = a.val() as int;
            let y = b.val() as int;
            assert((x - 1) * (y - 1) == -(1 * x) + -(1 * y) + 1 + x * y) by (nonlinear_arith);
        }
        ctx.constrain(
            cells2(Cell::minus_times(a, 1), Cell::minus_times(b, 1)),
            Coeff::from_u64(1),
            true,
        );
    }

    /// Constrains `a` to be invertible, by placing an inverse `x` of it and
    /// the row `a * x - 1 = 0`. Where `a` has no inverse the cell holds zero
    /// and the row fails.
    pub fn assert_not_zero(&self, ctx: &mut RegionCtx, a: &Witness)
        requires
            old(ctx).wf(),
        ensures
            final(ctx).native_modulus == old(ctx).native_modulus,
            final(ctx).lookups == old(ctx).lookups,
            final(ctx).satisfied() == (old(ctx).satisfied() && invertible(
                a.val(),
                old(ctx).modulus(),
            )),
    {
        let ghost n = ctx.modulus();
        let inv = match big_modinv(&a.value, &ctx.native_modulus) {
            Some(x) => {
                proof {
                    lemma_small_mod(nat_of(x), n);
                    lemma_small_mod(1, n);
                    lemma_mod_equivalence((a.val() * nat_of(x)) as int, 1, n as int);
                }
                ctx.assign(&x)
            },
            None => {
                proof {
                    lemma_small_mod(0, n);
                    lemma_mod_add_multiples_vanish(-1, n as int);
                    lemma_small_mod((n - 1) as nat, n);
                    assert(a.val() * 0 == 0) by (nonlinear_arith);
                }
                ctx.assign(&big_from_u64(0))
            },
        };
        ctx.constrain(cells2(Cell::times(a, 0), Cell::times(&inv, 0)), Coeff::minus_u64(1), true);
    }

    /// `cond * a + (1 - cond) * b`: `a` where the condition is one, `b` where
    /// it is zero.
    pub fn cond_select(&self, ctx: &mut RegionCtx, a: &Witness, b: &Witness, cond: &Witness) -> (r:
        Witness)
        requires
            old(ctx).wf(),
        ensures
            final(ctx).native_modulus == old(ctx).native_modulus,
            final(ctx).lookups == old(ctx).lookups,
            final(ctx).satisfied() == old(ctx).satisfied(),
            r.val() == fe(cond.val() * (a.val() - b.val()) + b.val(), old(ctx).modulus()),
            cond.val() == 1 ==> r.val() == a.val() % old(ctx).modulus(),
            cond.val() == 0 ==> r.val() == b.val() % old(ctx).modulus(),
    {
        let ghost n = ctx.modulus() as int;
        let dif = ctx.derive(cells2(Cell::times(a, 1), Cell::minus_times(b, 1)), Coeff::from_u64(0), false);
        let r = ctx.derive(
            cells3(Cell::times(cond, 0), Cell::times(&dif, 0), Cell::times(b, 1)),
            Coeff::from_u64(0),
            true,
        );
        proof {
            let c = cond.val() as int;
            let d = a.val() - b.val();
            lemma_mul_mod_noop_right(c, d, n);
            lemma_add_mod_noop(c * (d % n), b.val() as int, n);
            lemma_add_mod_noop(c * d, b.val() as int, n);
            assert(c == 1 ==> c * d + b.val() == a.val()) by (nonlinear_arith)
                requires
                    d == a.val() - b.val(),
            ;
            assert(c == 0 ==> c * d + b.val() == b.val()) by (nonlinear_arith);
        }
        r
    }

    /// `cond * a + (1 - cond) * b` for a constant `b`.
    pub fn cond_select_or_assign(
        &self,
        ctx: &mut RegionCtx,
        a: &Witness,
        b: &BigUint,
        cond: &Witness,
    ) -> (r: Witness)
        requires
            old(ctx).wf(),
        ensures
            final(ctx).native_modulus == old(ctx).native_modulus,
            final(ctx).lookups == old(ctx).lookups,
            final(ctx).satisfied() == old(ctx).satisfied(),
            r.val() == fe(cond.val() * (a.val() - nat_of(*b)) + nat_of(*b), old(ctx).modulus()),
            cond.val() == 1 ==> r.val() == a.val() % old(ctx).modulus(),
            cond.val() == 0 ==> r.val() == nat_of(*b) % old(ctx).modulus(),
    {
        let ghost n = ctx.modulus() as int;
        let dif = ctx.derive(cells1(Cell::times(a, 1)), Coeff::minus(crate::big::big_clone(b)), false);
        let r = ctx.derive(
            cells2(Cell::times(cond, 0), Cell::times(&dif, 0)),
            Coeff::plus(crate::big::big_clone(b)),
            true,
        );
        proof {
            let c = cond.val() as int;
            let d = a.val() - nat_of(*b);
            lemma_mul_mod_noop_right(c, d, n);
            lemma_add_mod_noop(c * (d % n), nat_of(*b) as int, n);
            lemma_add_mod_noop(c * d, nat_of(*b) as int, n);
            assert(c == 1 ==> c * d + nat_of(*b) == a.val()) by (nonlinear_arith)
                requires
                    d == a.val() - nat_of(*b),
            ;
            assert(c == 0 ==> c * d + nat_of(*b) == nat_of(*b)) by (nonlinear_arith);
        }
        r
    }

    /// `1 - a`: the other bit where `a` is a bit.
    pub fn not(&self, ctx: &mut RegionCtx, a: &Witness) -> (c: Witness)
        requires
            old(ctx).wf(),
            a.val() <= 1,
        ensures
            final(ctx).native_modulus == old(ctx).native_modulus,
            final(ctx).lookups == old(ctx).lookups,
            final(ctx).satisfied() == old(ctx).satisfied(),
            c.val() == 1 - a.val(),
    {
        proof {
            lemma_small_mod((1 - a.val()) as nat, ctx.modulus());
        }
        ctx.derive(cells1(Cell::minus_times(a, 1)), Coeff::from_u64(1), false)
    }

    /// `a * b`: both bits set where `a` and `b` are bits.
    pub fn and(&self, ctx: &mut RegionCtx, a: &Witness, b: &Witness) -> (c: Witness)
        requires
            old(ctx).wf(),
            a.val() <= 1,
            b.val() <= 1,
        ensures
            final(ctx).native_modulus == old(ctx).native_modulus,
            final(ctx).lookups == old(ctx).lookups,
            final(ctx).satisfied() == old(ctx).satisfied(),
            c.val() == a.val() * b.val(),
            c.val() <= 1,
    {
        proof {
            assert(a.val() * b.val() <= 1) by (nonlinear_arith)
                requires
                    a.val() <= 1,
                    b.val() <= 1,
            ;
            lemma_small_mod(a.val() * b.val(), ctx.modulus());
        }
        self.mul(ctx, a, b)
    }

    /// The lowest `number_of_bits` bits of a value, least significant first,
    /// each placed as a bit. The bits are added up with their weights, one
    /// row for each, and the sum is asserted to equal the value: the circuit
    /// stays satisfied exactly when the value has no more bits than that.
    pub fn to_bits(&self, ctx: &mut RegionCtx, a: &Witness, number_of_bits: usize) -> (bits: Vec<
        Witness,
    >)
        requires
            old(ctx).wf(),
            a.val() < old(ctx).modulus(),
            number_of_bits <= 0xffff_ffff,
        ensures
            final(ctx).native_modulus == old(ctx).native_modulus,
            bits@.len() == number_of_bits,
            forall|i: int|
                0 <= i < number_of_bits ==> (#[trigger] bits@[i]).val() == (a.val() / pow2(i as nat))
                    % 2,
            final(ctx).satisfied() == (old(ctx).satisfied() && a.val() < pow2(number_of_bits as nat)),
    {
        let ghost n = ctx.modulus();
        let ghost v = a.val();
        let mut bits: Vec<Witness> = Vec::new();
        let mut acc = ctx.assign(&big_from_u64(0));
        proof {
            vstd::arithmetic::power2::lemma2_to64();
            lemma_small_mod(0, n);
        }
        let mut i: usize = 0;
        while i < number_of_bits
            invariant
                ctx.wf(),
                ctx.native_modulus == old(ctx).native_modulus,
                ctx.modulus() == n,
                ctx.satisfied() == old(ctx).satisfied(),
                i <= number_of_bits,
                number_of_bits <= 0xffff_ffff,
                v == a.val(),
                bits@.len() == i,
                forall|j: int| 0 <= j < i ==> (#[trigger] bits@[j]).val() == (v / pow2(j as nat)) % 2,
                acc.val() == (v % pow2(i as nat)) % n,
            decreases number_of_bits - i,
        {
            let bit = if big_bit(&a.value, i as u64) {
                big_from_u64(1)
            } else {
                big_from_u64(0)
            };
            let b = self.assign_bit(ctx, &bit);
            let weight = big_pow2(i);
            let next = ctx.derive(
                cells2(Cell::times(&acc, 1), Cell::scaled(&b, &weight)),
                Coeff::from_u64(0),
                false,
            );
            proof {
                let w = pow2(i as nat);
                lemma_pow2_pos(i as nat);
                lemma_pow2_unfold((i + 1) as nat);
                vstd::arithmetic::div_mod::lemma_mod_breakdown(v as int, w as int, 2);
                assert(w * 2 == pow2((i + 1) as nat));
                crate::modular::lemma_cong_rem((v % w) as int, n as int);
                crate::modular::lemma_cong_add(
                    acc.val() as int,
                    (v % w) as int,
                    (w * b.val()) as int,
                    (w * b.val()) as int,
                    n as int,
                );
            }
            bits.push(b);
            acc = next;
            i = i + 1;
        }
        proof {
            let w = pow2(number_of_bits as nat);
            lemma_pow2_pos(number_of_bits as nat);
            lemma_small_mod(v, n);
            vstd::arithmetic::div_mod::lemma_mod_twice((v % w) as int, n as int);
            if v < w {
                lemma_small_mod(v, w);
            } else {
                vstd::arithmetic::div_mod::lemma_mod_bound(v as int, w as int);
                vstd::arithmetic::div_mod::lemma_mod_decreases(v % w, n);
            }
        }
        self.assert_equal(ctx, &acc, a);
        bits
    }
}

} // verus!
