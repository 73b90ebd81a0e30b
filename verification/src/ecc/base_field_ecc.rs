//! The curve gadget over the base field: assignment of points with the
//! check that they are on the curve, and the operations on assigned points.

use crate::big::{big_clone, big_lt, nat_of};
use crate::curve::{add_formula, double_formula, fe_mul, fe_sub, ladder_formula, on_curve, third, Affine, Curve};
use crate::ecc::{make_mul_aux, AssignedPoint, EccConfig, Error, MulAux, Point};
use crate::gate::{RegionCtx, Witness};
use crate::integer::{IntegerChip, Range};
use crate::limbs::{big_bit_length, decompose, lemma_limbs_compose, lemma_top_limb_monotonic, lemma_top_limb_small, limb_of};
use crate::main_gate::{invertible, MainGate};
use crate::rns::{params_ok, Integer, Rns};
use num_bigint::BigUint;
use vstd::arithmetic::div_mod::lemma_small_mod;
use vstd::prelude::*;

verus! {

/// A point doubled `n` times by the formula of the tangent, or `None` where
/// the formula does not apply to one of the points on the way, because its
/// doubled ordinate has no inverse.
pub open spec fn doubles(c: (nat, nat), n: nat, p: nat) -> Option<(nat, nat)>
    decreases n,
{
    if n == 0 {
        Some(c)
    } else {
        match doubles(c, (n - 1) as nat, p) {
            Some(d) => if invertible(fe_mul(2, d.1, p), p) {
                Some(double_formula(d.0, d.1, p))
            } else {
                None
            },
            None => None,
        }
    }
}

/// Once the formula of the tangent has failed to apply, more doublings do
/// not mend it.
pub proof fn lemma_doubles_stay_undefined(c: (nat, nat), i: nat, n: nat, p: nat)
    requires
        i <= n,
        doubles(c, i, p) is None,
    ensures
        doubles(c, n, p) is None,
    decreases n - i,
{
    if i < n {
        lemma_doubles_stay_undefined(c, i, (n - 1) as nat, p);
    }
}

/// The place of the first entry for a kind of multiplication, or the length
/// of the sequence where there is none.
pub open spec fn first_entry(entries: Seq<AuxEntry>, window_size: usize, number_of_pairs: usize) -> int
    decreases entries.len(),
{
    if entries.len() == 0 {
        0
    } else if entries[0].window_size == window_size && entries[0].number_of_pairs
        == number_of_pairs {
        0
    } else {
        1 + first_entry(entries.drop_first(), window_size, number_of_pairs)
    }
}

/// Whether an entry is for a kind of multiplication.
pub open spec fn is_for(entry: AuxEntry, window_size: usize, number_of_pairs: usize) -> bool {
    entry.window_size == window_size && entry.number_of_pairs == number_of_pairs
}

/// What the place of the first entry is: the entry there is for the kind
/// of multiplication, and no entry before it is.
pub proof fn lemma_first_entry(entries: Seq<AuxEntry>, window_size: usize, number_of_pairs: usize)
    ensures
        0 <= first_entry(entries, window_size, number_of_pairs) <= entries.len(),
        first_entry(entries, window_size, number_of_pairs) < entries.len() ==> is_for(
            entries[first_entry(entries, window_size, number_of_pairs)],
            window_size,
            number_of_pairs,
        ),
        forall|j: int|
            0 <= j < first_entry(entries, window_size, number_of_pairs) ==> !is_for(
                #[trigger] entries[j],
                window_size,
                number_of_pairs,
            ),
    decreases entries.len(),
{
    if entries.len() > 0 && !is_for(entries[0], window_size, number_of_pairs) {
        let rest = entries.drop_first();
        lemma_first_entry(rest, window_size, number_of_pairs);
        let f = first_entry(rest, window_size, number_of_pairs);
        assert forall|j: int| 0 <= j < 1 + f implies !is_for(
            #[trigger] entries[j],
            window_size,
            number_of_pairs,
        ) by {
            if j > 0 {
                assert(entries[j] == rest[j - 1]);
            }
        }
        if f < rest.len() {
            assert(entries[1 + f] == rest[f]);
        }
    }
}

/// A place whose entry is for the kind of multiplication, with no such
/// entry before it, is the place of the first entry.
pub proof fn lemma_first_entry_is(
    entries: Seq<AuxEntry>,
    window_size: usize,
    number_of_pairs: usize,
    i: int,
)
    requires
        0 <= i <= entries.len(),
        i < entries.len() ==> is_for(entries[i], window_size, number_of_pairs),
        forall|j: int| 0 <= j < i ==> !is_for(#[trigger] entries[j], window_size, number_of_pairs),
    ensures
        first_entry(entries, window_size, number_of_pairs) == i,
{
    lemma_first_entry(entries, window_size, number_of_pairs);
    let f = first_entry(entries, window_size, number_of_pairs);
    if f < i {
        assert(!is_for(entries[f], window_size, number_of_pairs));
    }
    if i < f {
        assert(!is_for(entries[i], window_size, number_of_pairs));
    }
}

/// The place of the first entry for a kind of multiplication, or the length
/// of the registry where there is none.
pub fn find_entry(registry: &Vec<AuxEntry>, window_size: usize, number_of_pairs: usize) -> (i: usize)
    ensures
        i == first_entry(registry@, window_size, number_of_pairs),
        i <= registry@.len(),
{
    let mut i: usize = 0;
    while i < registry.len() && !(registry[i].window_size == window_size
        && registry[i].number_of_pairs == number_of_pairs)
        invariant
            i <= registry@.len(),
            forall|j: int| 0 <= j < i ==> !is_for(#[trigger] registry@[j], window_size, number_of_pairs),
        decreases registry@.len() - i,
    {
        assert(!is_for(registry@[i as int], window_size, number_of_pairs));
        i = i + 1;
    }
    proof {
        lemma_first_entry_is(registry@, window_size, number_of_pairs, i as int);
    }
    i
}

/// Puts an entry into a registry: in place of the first entry of its kind,
/// or at the end where there is none.
pub fn put_entry(registry: &mut Vec<AuxEntry>, entry: AuxEntry)
    ensures
        final(registry)@.len() >= old(registry)@.len(),
        first_entry(final(registry)@, entry.window_size, entry.number_of_pairs) < final(registry)@.len(),
        final(registry)@[first_entry(final(registry)@, entry.window_size, entry.number_of_pairs)]
            == entry,
        forall|i: int|
            0 <= i < final(registry)@.len() ==> #[trigger] final(registry)@[i] == entry || (i < old(registry)@.len() && final(registry)@[i] == old(registry)@[i]),
        forall|w: usize, k: usize|
            !(w == entry.window_size && k == entry.number_of_pairs) && #[trigger] first_entry(
                old(registry)@,
                w,
                k,
            ) < old(registry)@.len() ==> first_entry(final(registry)@, w, k) == first_entry(
                old(registry)@,
                w,
                k,
            ) && final(registry)@[first_entry(old(registry)@, w, k)] == old(registry)@[first_entry(
                old(registry)@,
                w,
                k,
            )],
{
    let ghost before = registry@;
    let ghost place = first_entry(before, entry.window_size, entry.number_of_pairs);
    let ghost (ws, np) = (entry.window_size, entry.number_of_pairs);
    let i = find_entry(registry, entry.window_size, entry.number_of_pairs);
    proof {
        lemma_first_entry(before, ws, np);
    }
    if i < registry.len() {
        registry.set(i, entry);
    } else {
        registry.push(entry);
    }
    proof {
        let after = registry@;
        assert(after[place] == entry);
        assert forall|j: int| 0 <= j < place implies !is_for(#[trigger] after[j], ws, np) by {
            assert(after[j] == before[j]);
        }
        lemma_first_entry_is(after, ws, np, place);
        assert forall|w: usize, k: usize|
            !(w == ws && k == np) && #[trigger] first_entry(before, w, k)
                < before.len() implies first_entry(after, w, k) == first_entry(before, w, k)
            && after[first_entry(before, w, k)] == before[first_entry(before, w, k)] by {
            lemma_first_entry(before, w, k);
            let f = first_entry(before, w, k);
            assert(f != place);
            assert(after[f] == before[f]);
            assert forall|e: int| 0 <= e < f implies !is_for(#[trigger] after[e], w, k) by {
                if e != place {
                    assert(after[e] == before[e]);
                }
            }
            lemma_first_entry_is(after, w, k, f);
        }
    }
}

/// The constant that one kind of multiplication subtracts at its end, by
/// the window size and the number of pairs of the multiplication.
pub struct AuxEntry {
    pub window_size: usize,
    pub number_of_pairs: usize,
    pub point: AssignedPoint,
}

/// The generator of the constants: the point in the circuit and outside
/// of it.
pub struct AuxGenerator {
    pub assigned: AssignedPoint,
    pub point: Affine,
}

/// The curve gadget for a curve whose scalars are the values of the native
/// field.
pub struct BaseFieldEccChip {
    pub config: EccConfig,
    pub integer_chip: IntegerChip,
    pub curve: Curve,
    pub num_bits: usize,
    pub aux_generator: Option<AuxGenerator>,
    pub aux_registry: Vec<AuxEntry>,
}

impl BaseFieldEccChip {
    /// The number system of the gadget.
    pub open spec fn sys(self) -> Rns {
        self.integer_chip.rns
    }

    /// The modulus of the field of the curve.
    pub open spec fn p(self) -> nat {
        self.integer_chip.rns.p()
    }

    /// The constant of the curve.
    pub open spec fn b(self) -> nat {
        nat_of(self.curve.b)
    }

    /// The place in the registry of the constants of a kind of
    /// multiplication: that of the first entry for it, or the length of the
    /// registry where there is none.
    pub open spec fn aux_index(self, window_size: usize, number_of_pairs: usize) -> int {
        first_entry(self.aux_registry@, window_size, number_of_pairs)
    }

    /// Whether the constants of a kind of multiplication are registered.
    pub open spec fn has_aux(self, window_size: usize, number_of_pairs: usize) -> bool {
        self.aux_index(window_size, number_of_pairs) < self.aux_registry@.len()
    }

    /// The gadget is usable: its number system is valid and is that of the
    /// field of the curve, and the constants it holds are valid points.
    pub open spec fn wf(self) -> bool {
        &&& self.integer_chip.wf()
        &&& self.curve.modulus() == self.p()
        &&& self.b() < self.p()
        &&& self.num_bits <= 0xffff
        &&& self.num_bits == crate::limbs::bit_length(self.sys().n())
        &&& self.aux_generator matches Some(g) ==> g.assigned.wf(self.sys()) && nat_of(g.point.x)
            < self.p() && nat_of(g.point.y) < self.p()
        &&& forall|i: int|
            0 <= i < self.aux_registry@.len() ==> (#[trigger] self.aux_registry@[i]).point.wf(
                self.sys(),
            )
    }

    /// The gadget is used on a circuit of its own native field.
    pub open spec fn fits(self, ctx: RegionCtx) -> bool {
        self.integer_chip.fits(ctx)
    }

    /// The number system of a foreign and a native modulus for limbs of
    /// `bit_len_limb` bits, or `None` where the parameters do not fit
    /// together.
    pub fn rns(wrong_modulus: BigUint, native_modulus: BigUint, bit_len_limb: usize) -> (r: Option<
        Rns,
    >)
        ensures
            r is Some <==> params_ok(
                nat_of(wrong_modulus),
                nat_of(native_modulus),
                bit_len_limb as nat,
            ),
            r matches Some(rns) ==> rns.wf() && rns.wrong_modulus == wrong_modulus
                && rns.native_modulus == native_modulus && rns.bit_len_limb == bit_len_limb,
    {
        Rns::construct(wrong_modulus, native_modulus, bit_len_limb)
    }

    /// The gadget for the curve `y^2 = x^3 + b` over the field of the foreign
    /// modulus, with scalars in the native field, or `None` where the
    /// parameters do not fit together or `b` is not below the foreign
    /// modulus.
    pub fn new(
        config: EccConfig,
        wrong_modulus: BigUint,
        native_modulus: BigUint,
        b: BigUint,
        bit_len_limb: usize,
    ) -> (r: Option<BaseFieldEccChip>)
        ensures
            r is Some <==> params_ok(
                nat_of(wrong_modulus),
                nat_of(native_modulus),
                bit_len_limb as nat,
            ) && nat_of(b) < nat_of(wrong_modulus),
            r matches Some(chip) ==> chip.wf() && chip.sys().wrong_modulus == wrong_modulus
                && chip.sys().native_modulus == native_modulus && chip.sys().bit_len_limb
                == bit_len_limb && chip.curve.b == b && chip.aux_generator is None
                && chip.aux_registry@.len() == 0 && chip.num_bits == crate::limbs::bit_length(
                nat_of(native_modulus),
            ),
    {
        if !big_lt(&b, &wrong_modulus) {
            return None;
        }
        let p = big_clone(&wrong_modulus);
        let num_bits = big_bit_length(&native_modulus);
        match Self::rns(wrong_modulus, native_modulus, bit_len_limb) {
            Some(rns) => {
                proof {
                    rns.lemma_basics();
                    rns.lemma_fields();
                    reveal(params_ok);
                    crate::rns::lemma_binary_is_pow2(rns.bl());
                    crate::limbs::lemma_bit_length_le(rns.n(), 4 * rns.bl());
                }
                let integer_chip = IntegerChip::new(config.integer_chip_config(), rns);
                Some(
                    BaseFieldEccChip {
                        config,
                        integer_chip,
                        curve: Curve { p, b },
                        num_bits: num_bits as usize,
                        aux_generator: None,
                        aux_registry: Vec::new(),
                    },
                )
            },
            None => None,
        }
    }

    /// The column of the public inputs.
    pub fn instance_column(&self) -> (r: usize)
        ensures
            r == self.config.main_gate_config.instance,
    {
        self.config.main_gate_config.instance
    }

    /// The gadget of the foreign field.
    pub fn integer_chip(&self) -> (r: &IntegerChip)
        ensures
            *r == self.integer_chip,
    {
        &self.integer_chip
    }

    /// The arithmetic gate.
    pub fn main_gate(&self) -> (r: MainGate)
        ensures
            r.config == self.config.main_gate_config,
    {
        MainGate::new(self.config.main_gate_config)
    }

    /// A point outside the circuit with its coordinates cut into limbs.
    pub fn to_rns_point(&self, point: &Affine) -> (r: Point)
        requires
            self.wf(),
        ensures
            r.wf(),
            r.x.value(self.sys().r()) == nat_of(point.x),
            r.y.value(self.sys().r()) == nat_of(point.y),
            forall|i: int|
                0 <= i < 4 ==> r.x.limb(i) == limb_of(nat_of(point.x), i as nat, self.sys().r()),
            forall|i: int|
                0 <= i < 4 ==> r.y.limb(i) == limb_of(nat_of(point.y), i as nat, self.sys().r()),
    {
        Point::from(&self.integer_chip.rns, &point.x, &point.y)
    }

    /// The constant of the curve, cut into limbs.
    pub fn parameter_b(&self) -> (r: Integer)
        requires
            self.wf(),
        ensures
            r.wf(),
            r.value(self.sys().r()) == self.b(),
            r.reduced(self.sys().r()),
    {
        proof {
            let r = self.sys().r();
            self.sys().lemma_basics();
            lemma_limbs_compose(self.b(), r);
            lemma_top_limb_small(self.b(), r);
        }
        Integer { limbs: decompose(&self.curve.b, self.integer_chip.rns.bit_len_limb) }
    }

    /// The position of the constants of a kind of multiplication in the
    /// registry, if they are registered.
    fn find_aux(&self, window_size: usize, number_of_pairs: usize) -> (r: Option<usize>)
        ensures
            r is Some <==> self.has_aux(window_size, number_of_pairs),
            r matches Some(i) ==> i < self.aux_registry@.len() && i == self.aux_index(
                window_size,
                number_of_pairs,
            ),
    {
        let i = find_entry(&self.aux_registry, window_size, number_of_pairs);
        if i < self.aux_registry.len() {
            Some(i)
        } else {
            None
        }
    }

    /// The constants of a kind of multiplication: the generator and what is
    /// subtracted at the end. Fails where the generator is not assigned or
    /// the constants of this kind are not registered.
    pub fn get_mul_aux(&self, window_size: usize, number_of_pairs: usize) -> (r: Result<
        MulAux,
        Error,
    >)
        requires
            self.wf(),
        ensures
            r is Ok <==> self.aux_generator is Some && self.has_aux(window_size, number_of_pairs),
            r matches Ok(aux) ==> aux.to_add.wf(self.sys()) && aux.to_sub.wf(self.sys())
                && aux.to_add.coords(self.sys()) == self.aux_generator.unwrap().assigned.coords(
                self.sys(),
            ) && aux.to_sub.coords(self.sys()) == self.aux_registry@[self.aux_index(
                window_size,
                number_of_pairs,
            )].point.coords(self.sys()),
    {
        let to_add = match &self.aux_generator {
            Some(generator) => generator.assigned.copy(),
            None => {
                return Err(Error::Synthesis);
            },
        };
        let to_sub = match self.find_aux(window_size, number_of_pairs) {
            Some(i) => self.aux_registry[i].point.copy(),
            None => {
                return Err(Error::Synthesis);
            },
        };
        Ok(MulAux::new(to_add, to_sub))
    }

    /// Binds a point to the public inputs: the limbs of `x`, then the limbs
    /// of `y`, to eight slots in a row from `offset` on.
    pub fn expose_public(&self, ctx: &mut RegionCtx, point: &AssignedPoint, offset: usize)
        requires
            point.x.limbs@.len() == 4,
            point.y.limbs@.len() == 4,
            offset <= usize::MAX - 8,
        ensures
            final(ctx).native_modulus == old(ctx).native_modulus,
            final(ctx).rows == old(ctx).rows,
            final(ctx).lookups == old(ctx).lookups,
            final(ctx).instances@.len() == old(ctx).instances@.len() + 8,
            forall|i: int|
                0 <= i < old(ctx).instances@.len() ==> final(ctx).instances@[i] == old(ctx).instances@[i],
            forall|i: int|
                0 <= i < 4 ==> (#[trigger] final(ctx).instances@[old(ctx).instances@.len() + i]).witness
                    == point.x.limbs@[i].witness && final(ctx).instances@[old(ctx).instances@.len()
                    + i].row == offset + i,
            forall|i: int|
                0 <= i < 4 ==> (#[trigger] final(ctx).instances@[old(ctx).instances@.len() + 4
                    + i]).witness == point.y.limbs@[i].witness && final(ctx).instances@[old(ctx).instances@.len() + 4 + i].row == offset + 4 + i,
    {
        ctx.expose(&point.x.limbs[0].witness, offset);
        ctx.expose(&point.x.limbs[1].witness, offset + 1);
        ctx.expose(&point.x.limbs[2].witness, offset + 2);
        ctx.expose(&point.x.limbs[3].witness, offset + 3);
        ctx.expose(&point.y.limbs[0].witness, offset + 4);
        ctx.expose(&point.y.limbs[1].witness, offset + 5);
        ctx.expose(&point.y.limbs[2].witness, offset + 6);
        ctx.expose(&point.y.limbs[3].witness, offset + 7);
    }

    /// Whether a point outside the circuit can be assigned: its coordinates
    /// are below the foreign modulus and meet the equation of the curve.
    pub open spec fn assignable(self, point: Affine) -> bool {
        self.assignable_coords(point.coords())
    }

    /// Whether a point outside the circuit can be assigned.
    pub fn is_assignable(&self, point: &Affine) -> (r: bool)
        requires
            self.wf(),
        ensures
            r == self.assignable(*point),
    {
        proof {
            self.sys().lemma_basics();
        }
        big_lt(&point.x, &self.curve.p) && big_lt(&point.y, &self.curve.p) && self.curve.is_on_curve(
            &point.x,
            &point.y,
        )
    }

    /// Asserts that a point is on the curve: `y^2 = x^3 + b`.
    pub fn assert_is_on_curve(&self, ctx: &mut RegionCtx, point: &AssignedPoint)
        requires
            self.wf(),
            self.fits(*old(ctx)),
            point.wf(self.sys()),
        ensures
            final(ctx).native_modulus == old(ctx).native_modulus,
            final(ctx).satisfied() == (old(ctx).satisfied() && on_curve(
                point.coords(self.sys()).0,
                point.coords(self.sys()).1,
                self.b(),
                self.p(),
            )),
    {
        let integer_chip = &self.integer_chip;
        let y_square = integer_chip.field_square(ctx, &point.y);
        let x_square = integer_chip.field_square(ctx, &point.x);
        let x_cube = integer_chip.field_mul(ctx, &point.x, &x_square);
        let x_cube_b = integer_chip.field_add_constant(ctx, &x_cube, &self.parameter_b());
        integer_chip.assert_equal(ctx, &x_cube_b, &y_square);
    }

    /// Places a constant point, with the check that it is on the curve.
    /// Fails where the coordinates are not below the foreign modulus or do
    /// not meet the equation of the curve.
    pub fn assign_constant(&self, ctx: &mut RegionCtx, point: &Affine) -> (r: Result<
        AssignedPoint,
        Error,
    >)
        requires
            self.wf(),
            self.fits(*old(ctx)),
        ensures
            final(ctx).native_modulus == old(ctx).native_modulus,
            r is Ok <==> self.assignable(*point),
            r is Err ==> *final(ctx) == *old(ctx),
            r matches Ok(a) ==> a.wf(self.sys()) && a.coords(self.sys()) == point.coords() && final(ctx).satisfied() == old(ctx).satisfied(),
    {
        if !self.is_assignable(point) {
            return Err(Error::Synthesis);
        }
        let rns_point = self.to_rns_point(point);
        proof {
            let r = self.sys().r();
            self.sys().lemma_basics();
            lemma_limbs_compose(nat_of(point.x), r);
            lemma_top_limb_small(nat_of(point.x), r);
            lemma_limbs_compose(nat_of(point.y), r);
            lemma_top_limb_small(nat_of(point.y), r);
            lemma_small_mod(nat_of(point.x), self.p());
            lemma_small_mod(nat_of(point.y), self.p());
        }
        let base_field_chip = &self.integer_chip;
        let x = base_field_chip.assign_constant(ctx, &rns_point.x);
        let y = base_field_chip.assign_constant(ctx, &rns_point.y);
        let assigned = AssignedPoint::new(x, y);
        self.assert_is_on_curve(ctx, &assigned);
        Ok(assigned)
    }

    /// Places a point, each coordinate range-checked as a remainder, with
    /// the check that it is on the curve. Fails where the coordinates are
    /// not below the foreign modulus or do not meet the equation of the
    /// curve.
    pub fn assign_point(&self, ctx: &mut RegionCtx, point: &Affine) -> (r: Result<
        AssignedPoint,
        Error,
    >)
        requires
            self.wf(),
            self.fits(*old(ctx)),
        ensures
            final(ctx).native_modulus == old(ctx).native_modulus,
            r is Ok <==> self.assignable(*point),
            r is Err ==> *final(ctx) == *old(ctx),
            r matches Ok(a) ==> a.wf(self.sys()) && a.x.bounded_as(self.sys(), Range::Remainder)
                && a.y.bounded_as(self.sys(), Range::Remainder) && a.coords(self.sys())
                == point.coords() && final(ctx).satisfied() == old(ctx).satisfied(),
    {
        if !self.is_assignable(point) {
            return Err(Error::Synthesis);
        }
        proof {
            lemma_small_mod(nat_of(point.x), self.p());
            lemma_small_mod(nat_of(point.y), self.p());
        }
        let integer_chip = &self.integer_chip;
        let x = integer_chip.assign_remainder(ctx, &point.x);
        let y = integer_chip.assign_remainder(ctx, &point.y);
        let assigned = AssignedPoint::new(x, y);
        self.assert_is_on_curve(ctx, &assigned);
        Ok(assigned)
    }

    /// Assigns the generator of the constants. Fails, and leaves the gadget
    /// as it is, where the point cannot be assigned.
    pub fn assign_aux_generator(&mut self, ctx: &mut RegionCtx, aux_generator: &Affine) -> (r:
        Result<(), Error>)
        requires
            old(self).wf(),
            old(self).fits(*old(ctx)),
        ensures
            final(ctx).native_modulus == old(ctx).native_modulus,
            r is Ok <==> old(self).assignable(*aux_generator),
            r is Err ==> *final(ctx) == *old(ctx) && *final(self) == *old(self),
            r is Ok ==> final(self).wf() && final(self).integer_chip == old(self).integer_chip
                && final(self).curve == old(self).curve && final(self).num_bits == old(self).num_bits
                && final(self).aux_registry == old(self).aux_registry,
            r is Ok ==> final(self).aux_generator is Some && final(self).aux_generator.unwrap().point
                == *aux_generator && final(self).aux_generator.unwrap().assigned.coords(
                old(self).sys(),
            ) == aux_generator.coords() && final(ctx).satisfied() == old(ctx).satisfied(),
    {
        match self.assign_point(ctx, aux_generator) {
            Ok(aux_generator_assigned) => {
                self.aux_generator = Some(
                    AuxGenerator { assigned: aux_generator_assigned, point: aux_generator.copy() },
                );
                Ok(())
            },
            Err(e) => Err(e),
        }
    }

    /// The constant that multiplications of a window size and a number of
    /// pairs subtract at their end: the opposite of the generator of the
    /// constants, times the scalar by which the generator enters the result.
    /// `None` where there is no generator or the constant is the identity.
    pub open spec fn mul_aux_coords(self, window_size: usize, number_of_pairs: usize) -> Option<
        (nat, nat),
    > {
        match self.aux_generator {
            Some(g) => crate::curve::group_mul(
                crate::ecc::aux_scalar(
                    self.num_bits as nat,
                    window_size as nat,
                    number_of_pairs as nat,
                ),
                crate::curve::group_neg(Some(g.point.coords()), self.p()),
                self.p(),
            ),
            None => None,
        }
    }

    /// Whether a point of these coordinates can be assigned.
    pub open spec fn assignable_coords(self, c: (nat, nat)) -> bool {
        c.0 < self.p() && c.1 < self.p() && on_curve(c.0, c.1, self.b(), self.p())
    }

    /// Derives and assigns the constant that multiplications of a window
    /// size and a number of pairs subtract at their end, and registers it in
    /// place of an earlier one of the same kind. Fails, and leaves the gadget
    /// and the circuit as they are, where the generator is not assigned, the
    /// constant comes out as the identity, or it cannot be assigned.
    pub fn assign_aux(&mut self, ctx: &mut RegionCtx, window_size: usize, number_of_pairs: usize) -> (r:
        Result<(), Error>)
        requires
            old(self).wf(),
            old(self).fits(*old(ctx)),
            window_size > 0,
            number_of_pairs > 0,
            number_of_pairs <= 0xffff_ffff,
        ensures
            final(ctx).native_modulus == old(ctx).native_modulus,
            r is Ok <==> (old(self).mul_aux_coords(window_size, number_of_pairs) matches Some(c)
                && old(self).assignable_coords(c)),
            r is Err ==> *final(ctx) == *old(ctx) && *final(self) == *old(self),
            r is Ok ==> final(self).wf() && final(self).integer_chip == old(self).integer_chip
                && final(self).curve == old(self).curve && final(self).num_bits == old(self).num_bits
                && final(self).aux_generator == old(self).aux_generator
                && final(ctx).satisfied() == old(ctx).satisfied(),
            r is Ok ==> final(self).has_aux(window_size, number_of_pairs) && Some(
                final(self).aux_registry@[final(self).aux_index(
                    window_size,
                    number_of_pairs,
                )].point.coords(old(self).sys()),
            ) == old(self).mul_aux_coords(window_size, number_of_pairs),
            r is Ok ==> forall|w: usize, k: usize|
                old(self).has_aux(w, k) && !(w == window_size && k == number_of_pairs) ==> final(self).has_aux(w, k) && final(self).aux_registry@[final(self).aux_index(w, k)] == old(self).aux_registry@[#[trigger] old(self).aux_index(w, k)],
    {
        proof {
            self.sys().lemma_basics();
        }
        let aux = match &self.aux_generator {
            Some(generator) => make_mul_aux(
                &self.curve,
                &generator.point,
                self.num_bits,
                window_size,
                number_of_pairs,
            ),
            // the generator is not assigned yet
            None => {
                return Err(Error::Synthesis);
            },
        };
        let aux = match aux {
            Some(aux) => aux,
            None => {
                return Err(Error::Synthesis);
            },
        };
        match self.assign_point(ctx, &aux) {
            Ok(point) => {
                let entry = AuxEntry { window_size, number_of_pairs, point };
                put_entry(&mut self.aux_registry, entry);
                Ok(())
            },
            Err(e) => Err(e),
        }
    }

    /// Asserts that two points are the same point of the curve.
    pub fn assert_equal(&self, ctx: &mut RegionCtx, p0: &AssignedPoint, p1: &AssignedPoint)
        requires
            self.wf(),
            self.fits(*old(ctx)),
            p0.wf(self.sys()),
            p1.wf(self.sys()),
        ensures
            final(ctx).native_modulus == old(ctx).native_modulus,
            final(ctx).satisfied() == (old(ctx).satisfied() && p0.coords(self.sys()) == p1.coords(
                self.sys(),
            )),
    {
        let integer_chip = &self.integer_chip;
        integer_chip.assert_equal(ctx, &p0.x, &p1.x);
        integer_chip.assert_equal(ctx, &p0.y, &p1.y);
    }

    /// Selects `p1` where the condition is one and `p2` where it is zero.
    pub fn select(&self, ctx: &mut RegionCtx, c: &Witness, p1: &AssignedPoint, p2: &AssignedPoint) -> (r:
        AssignedPoint)
        requires
            self.wf(),
            self.fits(*old(ctx)),
            p1.wf(self.sys()),
            p2.wf(self.sys()),
            c.val() <= 1,
        ensures
            final(ctx).native_modulus == old(ctx).native_modulus,
            final(ctx).satisfied() == old(ctx).satisfied(),
            r.wf(self.sys()),
            c.val() == 1 ==> r.coords(self.sys()) == p1.coords(self.sys()),
            c.val() == 0 ==> r.coords(self.sys()) == p2.coords(self.sys()),
    {
        let integer_chip = &self.integer_chip;
        let x = integer_chip.cond_select(ctx, &p1.x, &p2.x, c);
        let y = integer_chip.cond_select(ctx, &p1.y, &p2.y, c);
        AssignedPoint::new(x, y)
    }

    /// Selects `p1` where the condition is one and the constant point `p2`
    /// where it is zero. The coordinates of `p1` must be bounded as
    /// remainders and those of `p2` be below the foreign modulus.
    pub fn select_or_assign(
        &self,
        ctx: &mut RegionCtx,
        c: &Witness,
        p1: &AssignedPoint,
        p2: &Affine,
    ) -> (r: AssignedPoint)
        requires
            self.wf(),
            self.fits(*old(ctx)),
            p1.wf(self.sys()),
            p1.x.bounded_as(self.sys(), Range::Remainder),
            p1.y.bounded_as(self.sys(), Range::Remainder),
            nat_of(p2.x) < self.p(),
            nat_of(p2.y) < self.p(),
            c.val() <= 1,
        ensures
            final(ctx).native_modulus == old(ctx).native_modulus,
            final(ctx).satisfied() == old(ctx).satisfied(),
            r.wf(self.sys()),
            c.val() == 1 ==> r.coords(self.sys()) == p1.coords(self.sys()),
            c.val() == 0 ==> r.coords(self.sys()) == p2.coords(),
    {
        let integer_chip = &self.integer_chip;
        let p2 = self.to_rns_point(p2);
        proof {
            let r = self.sys().r();
            let p = self.p();
            self.sys().lemma_basics();
            self.sys().lemma_range(Range::Remainder);
            crate::limbs::lemma_bit_length_bounds(p);
            lemma_limbs_compose(p2.x.value(r), r);
            lemma_limbs_compose(p2.y.value(r), r);
            lemma_top_limb_monotonic(p2.x.value(r), self.sys().range_max(Range::Remainder), r);
            lemma_top_limb_monotonic(p2.y.value(r), self.sys().range_max(Range::Remainder), r);
            lemma_small_mod(p2.x.value(r), p);
            lemma_small_mod(p2.y.value(r), p);
        }
        let x = integer_chip.cond_select_or_assign(ctx, &p1.x, &p2.x, c);
        let y = integer_chip.cond_select_or_assign(ctx, &p1.y, &p2.y, c);
        AssignedPoint::new(x, y)
    }

    /// Reduces both coordinates of a point.
    pub fn normalize(&self, ctx: &mut RegionCtx, point: &AssignedPoint) -> (r: AssignedPoint)
        requires
            self.wf(),
            self.fits(*old(ctx)),
            point.wf(self.sys()),
        ensures
            final(ctx).native_modulus == old(ctx).native_modulus,
            final(ctx).satisfied() == old(ctx).satisfied(),
            r.wf(self.sys()),
            r.x.bounded_as(self.sys(), Range::Remainder),
            r.y.bounded_as(self.sys(), Range::Remainder),
            r.x.value(self.sys().r()) == point.coords(self.sys()).0,
            r.y.value(self.sys().r()) == point.coords(self.sys()).1,
            r.coords(self.sys()) == point.coords(self.sys()),
    {
        let integer_chip = &self.integer_chip;
        proof {
            self.sys().lemma_basics();
            vstd::arithmetic::div_mod::lemma_mod_twice(
                point.x.value(self.sys().r()) as int,
                self.p() as int,
            );
            vstd::arithmetic::div_mod::lemma_mod_twice(
                point.y.value(self.sys().r()) as int,
                self.p() as int,
            );
        }
        let x = integer_chip.reduce(ctx, &point.x);
        let y = integer_chip.reduce(ctx, &point.y);
        AssignedPoint::new(x, y)
    }

    /// The sum of two points whose abscissas differ. The abscissas are
    /// asserted to differ, so that the formula of the chord applies.
    pub fn add(&self, ctx: &mut RegionCtx, p0: &AssignedPoint, p1: &AssignedPoint) -> (r:
        AssignedPoint)
        requires
            self.wf(),
            self.fits(*old(ctx)),
            p0.wf(self.sys()),
            p1.wf(self.sys()),
        ensures
            final(ctx).native_modulus == old(ctx).native_modulus,
            final(ctx).satisfied() ==> old(ctx).satisfied(),
            r.wf(self.sys()),
            final(ctx).satisfied() ==> invertible(
                fe_sub(p0.coords(self.sys()).0, p1.coords(self.sys()).0, self.p()) % self.sys().n(),
                self.sys().n(),
            ),
            invertible(
                fe_sub(p0.coords(self.sys()).0, p1.coords(self.sys()).0, self.p()) % self.sys().n(),
                self.sys().n(),
            ) && invertible(
                fe_sub(p1.coords(self.sys()).0, p0.coords(self.sys()).0, self.p()),
                self.p(),
            ) ==> final(ctx).satisfied() == old(ctx).satisfied() && r.coords(self.sys())
                == add_formula(
                p0.coords(self.sys()).0,
                p0.coords(self.sys()).1,
                p1.coords(self.sys()).0,
                p1.coords(self.sys()).1,
                self.p(),
            ),
    {
        proof {
            let r = self.sys().r();
            let p = self.p() as int;
            self.sys().lemma_basics();
            crate::modular::lemma_cong_rem(p0.x.value(r) as int, p);
            crate::modular::lemma_cong_rem(p1.x.value(r) as int, p);
            crate::modular::lemma_cong_sub(
                p0.x.res(self.sys()) as int,
                p0.x.value(r) as int,
                p1.x.res(self.sys()) as int,
                p1.x.value(r) as int,
                p,
            );
        }
        // the formula of the chord applies only where the abscissas differ
        self.integer_chip.assert_not_equal(ctx, &p0.x, &p1.x);
        self.add_incomplete(ctx, p0, p1)
    }

    /// The double of a point.
    pub fn double(&self, ctx: &mut RegionCtx, p: &AssignedPoint) -> (r: AssignedPoint)
        requires
            self.wf(),
            self.fits(*old(ctx)),
            p.wf(self.sys()),
        ensures
            final(ctx).native_modulus == old(ctx).native_modulus,
            final(ctx).satisfied() ==> old(ctx).satisfied(),
            r.wf(self.sys()),
            invertible(fe_mul(2, p.coords(self.sys()).1, self.p()), self.p())
                ==> final(ctx).satisfied() == old(ctx).satisfied() && r.coords(self.sys())
                == double_formula(p.coords(self.sys()).0, p.coords(self.sys()).1, self.p()),
    {
        // the point is taken to be on the curve and not the identity
        self.double_incomplete(ctx, p)
    }

    /// A point doubled `logn` times.
    pub fn double_n(&self, ctx: &mut RegionCtx, p: &AssignedPoint, logn: usize) -> (r: AssignedPoint)
        requires
            self.wf(),
            self.fits(*old(ctx)),
            p.wf(self.sys()),
        ensures
            final(ctx).native_modulus == old(ctx).native_modulus,
            final(ctx).satisfied() ==> old(ctx).satisfied(),
            r.wf(self.sys()),
            doubles(p.coords(self.sys()), logn as nat, self.p()) matches Some(c) ==> final(ctx).satisfied() == old(ctx).satisfied() && r.coords(self.sys()) == c,
    {
        let mut acc = p.copy();
        let mut i: usize = 0;
        while i < logn
            invariant
                self.wf(),
                self.fits(*ctx),
                ctx.native_modulus == old(ctx).native_modulus,
                ctx.satisfied() ==> old(ctx).satisfied(),
                acc.wf(self.sys()),
                i <= logn,
                doubles(p.coords(self.sys()), i as nat, self.p()) matches Some(c) ==> ctx.satisfied()
                    == old(ctx).satisfied() && acc.coords(self.sys()) == c,
                doubles(p.coords(self.sys()), i as nat, self.p()) is None ==> doubles(
                    p.coords(self.sys()),
                    logn as nat,
                    self.p(),
                ) is None,
            decreases logn - i,
        {
            proof {
                if doubles(p.coords(self.sys()), (i + 1) as nat, self.p()) is None {
                    lemma_doubles_stay_undefined(
                        p.coords(self.sys()),
                        (i + 1) as nat,
                        logn as nat,
                        self.p(),
                    );
                }
            }
            acc = self.double_incomplete(ctx, &acc);
            i = i + 1;
        }
        acc
    }

    /// `2 * to_double + to_add` in one step.
    pub fn ladder(&self, ctx: &mut RegionCtx, to_double: &AssignedPoint, to_add: &AssignedPoint) -> (r:
        AssignedPoint)
        requires
            self.wf(),
            self.fits(*old(ctx)),
            to_double.wf(self.sys()),
            to_add.wf(self.sys()),
        ensures
            final(ctx).native_modulus == old(ctx).native_modulus,
            final(ctx).satisfied() ==> old(ctx).satisfied(),
            r.wf(self.sys()),
            ({
                let (x0, y0) = to_double.coords(self.sys());
                let (x1, y1) = to_add.coords(self.sys());
                let p = self.p();
                let x2 = third(crate::curve::chord(x0, y0, x1, y1, p), x1, y1, x0, p).0;
                invertible(fe_sub(x1, x0, p), p) && invertible(fe_sub(x2, x0, p), p)
                    ==> final(ctx).satisfied() == old(ctx).satisfied() && r.coords(self.sys())
                    == ladder_formula(x0, y0, x1, y1, p)
            }),
    {
        self.ladder_incomplete(ctx, to_double, to_add)
    }

    /// The opposite of a point.
    pub fn neg(&self, ctx: &mut RegionCtx, p: &AssignedPoint) -> (r: AssignedPoint)
        requires
            self.wf(),
            self.fits(*old(ctx)),
            p.wf(self.sys()),
        ensures
            final(ctx).native_modulus == old(ctx).native_modulus,
            final(ctx).satisfied() == old(ctx).satisfied(),
            r.wf(self.sys()),
            r.coords(self.sys()) == (
                p.coords(self.sys()).0,
                fe_sub(0, p.coords(self.sys()).1, self.p()),
            ),
    {
        let integer_chip = &self.integer_chip;
        let y_neg = integer_chip.field_neg(ctx, &p.y);
        AssignedPoint::new(p.x.copy(), y_neg)
    }
}

} // verus!
