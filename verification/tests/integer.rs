use num_bigint::BigUint;
use wrong_field::gate::RegionCtx;
use wrong_field::integer::{AssignedInteger, AssignedLimb, IntegerChip, IntegerConfig, Range};
use wrong_field::main_gate::{MainGate, MainGateConfig};
use wrong_field::range::RangeConfig;
use wrong_field::rns::{Integer, Rns};

const BIT_LEN_LIMB: usize = 68;

fn wrong_modulus() -> BigUint {
    BigUint::parse_bytes(
        b"40000000000000000000000000000000224698fc094cf91b992d30ed00000001",
        16,
    )
    .unwrap()
}

fn native_modulus() -> BigUint {
    BigUint::parse_bytes(
        b"40000000000000000000000000000000224698fc0994a8dd8c46eb2100000001",
        16,
    )
    .unwrap()
}

fn rns() -> Rns {
    Rns::construct(wrong_modulus(), native_modulus(), BIT_LEN_LIMB).unwrap()
}

fn main_gate_config() -> MainGateConfig {
    MainGateConfig { a: 0, b: 1, c: 2, d: 3, e: 4, instance: 0 }
}

fn setup() -> (IntegerChip, RegionCtx) {
    let config =
        IntegerConfig::new(RangeConfig::new(BIT_LEN_LIMB / 4, vec![]), main_gate_config());
    let chip = IntegerChip::new(config, rns());
    let ctx = RegionCtx::new(native_modulus()).unwrap();
    (chip, ctx)
}

/// A source of numbers that looks random and is the same on every run.
struct Source(u64);

impl Source {
    fn next(&mut self) -> u64 {
        self.0 = self.0.wrapping_mul(6364136223846793005).wrapping_add(1442695040888963407);
        self.0 ^ (self.0 >> 29)
    }

    fn bits(&mut self, bits: usize) -> BigUint {
        let mut digits = Vec::new();
        for _ in 0..(bits + 31) / 32 {
            digits.push(self.next() as u32);
        }
        BigUint::new(digits) % (BigUint::from(1u32) << bits)
    }

    fn below(&mut self, bound: &BigUint) -> BigUint {
        self.bits(bound.bits() as usize + 64) % bound
    }
}

fn new_from_big(value: &BigUint) -> Integer {
    Integer::from_limbs(wrong_field::limbs::decompose(value, BIT_LEN_LIMB))
}

fn value_of(a: &AssignedInteger) -> BigUint {
    wrong_field::limbs::compose(&a.integer().limbs, BIT_LEN_LIMB)
}

fn rand_in_field(source: &mut Source) -> BigUint {
    source.below(&wrong_modulus())
}

fn rand_in_remainder_range(source: &mut Source, rns: &Rns) -> BigUint {
    source.bits(rns.max_remainder.bits() as usize)
}

fn rand_in_operand_range(source: &mut Source, rns: &Rns) -> BigUint {
    source.bits(rns.max_operand.bits() as usize)
}

/// An element with random limbs of `bit_len` bits, placed without a range
/// check and bounded by the largest such limbs.
fn assign_with_limb_bit_size(
    chip: &IntegerChip,
    ctx: &mut RegionCtx,
    source: &mut Source,
    bit_len: usize,
) -> AssignedInteger {
    let main_gate = MainGate::new(main_gate_config());
    let max = (BigUint::from(1u32) << bit_len) - 1u32;
    let mut limbs = Vec::new();
    for _ in 0..4 {
        let w = main_gate.assign_value(ctx, &source.bits(bit_len));
        limbs.push(AssignedLimb::new(w, max.clone()));
    }
    let native = chip.assign_native(
        ctx,
        &limbs[0].witness,
        &limbs[1].witness,
        &limbs[2].witness,
        &limbs[3].witness,
    );
    AssignedInteger::new(limbs, native)
}

fn rand_in_unreduced_range(
    chip: &IntegerChip,
    ctx: &mut RegionCtx,
    source: &mut Source,
) -> AssignedInteger {
    assign_with_limb_bit_size(chip, ctx, source, BIT_LEN_LIMB + BIT_LEN_LIMB / 2)
}

#[test]
fn test_xxx() {
    let (chip, mut ctx) = setup();
    let rns = rns();
    let a = new_from_big(&rns.max_remainder);
    chip.range_assign_integer(&mut ctx, &a, Range::Remainder);
    let a = new_from_big(&rns.max_operand);
    chip.range_assign_integer(&mut ctx, &a, Range::Operand);
    assert_eq!(ctx.verify(), true);
}

#[test]
fn range_assign_rejects_a_value_above_its_class() {
    let rns = rns();
    let (chip, mut ctx) = setup();
    let a = new_from_big(&(rns.max_remainder.clone() + 1u32));
    chip.range_assign_integer(&mut ctx, &a, Range::Remainder);
    assert_eq!(ctx.verify(), false);

    let (chip, mut ctx) = setup();
    let a = new_from_big(&(rns.max_operand.clone() + 1u32));
    chip.range_assign_integer(&mut ctx, &a, Range::Operand);
    assert_eq!(ctx.verify(), false);
}

#[test]
fn test_reduction_circuit() {
    let (chip, mut ctx) = setup();
    let rns = rns();
    let mut source = Source(1);
    let overflows = assign_with_limb_bit_size(&chip, &mut ctx, &mut source, BIT_LEN_LIMB + 5);
    let reduced = value_of(&overflows) % wrong_modulus();
    let reduced_0 = chip.range_assign_integer(&mut ctx, &new_from_big(&reduced), Range::Remainder);
    let reduced_1 = chip.reduce(&mut ctx, &overflows);
    assert_eq!(reduced_1.max_val(BIT_LEN_LIMB), rns.max_remainder);
    chip.assert_equal(&mut ctx, &reduced_0, &reduced_1);
    chip.assert_strict_equal(&mut ctx, &reduced_0, &reduced_1);
    assert_eq!(ctx.verify(), true);
}

#[test]
fn test_equality_circuit() {
    let (chip, mut ctx) = setup();
    let rns = rns();
    let mut source = Source(2);
    let a = rand_in_operand_range(&mut source, &rns);
    let b = rand_in_operand_range(&mut source, &rns);
    let a = chip.range_assign_integer(&mut ctx, &new_from_big(&a), Range::Operand);
    let b = chip.range_assign_integer(&mut ctx, &new_from_big(&b), Range::Operand);
    chip.assert_not_equal(&mut ctx, &a, &b);
    chip.assert_equal(&mut ctx, &a, &a);
    chip.assert_not_zero(&mut ctx, &a);
    assert_eq!(ctx.verify(), true);
}

#[test]
fn test_multiplication_circuit() {
    let (chip, mut ctx) = setup();
    let rns = rns();
    let mut source = Source(3);
    let p = wrong_modulus();

    let a = rand_in_operand_range(&mut source, &rns);
    let b = rand_in_operand_range(&mut source, &rns);
    let c = (&a * &b) % &p;
    let a = chip.range_assign_integer(&mut ctx, &new_from_big(&a), Range::Operand);
    let b = chip.range_assign_integer(&mut ctx, &new_from_big(&b), Range::Operand);
    let c_0 = chip.range_assign_integer(&mut ctx, &new_from_big(&c), Range::Remainder);
    let c_1 = chip.mul(&mut ctx, &a, &b);
    assert_eq!(c_1.max_val(BIT_LEN_LIMB), rns.max_remainder);
    chip.assert_equal(&mut ctx, &c_0, &c_1);
    chip.assert_strict_equal(&mut ctx, &c_0, &c_1);

    let a = rand_in_unreduced_range(&chip, &mut ctx, &mut source);
    let b = rand_in_unreduced_range(&chip, &mut ctx, &mut source);
    let c = (value_of(&a) * value_of(&b)) % &p;
    let c_0 = chip.range_assign_integer(&mut ctx, &new_from_big(&c), Range::Remainder);
    let c_1 = chip.mul(&mut ctx, &a, &b);
    assert_eq!(c_1.max_val(BIT_LEN_LIMB), rns.max_remainder);
    chip.assert_equal(&mut ctx, &c_0, &c_1);
    chip.assert_strict_equal(&mut ctx, &c_0, &c_1);

    let a = rand_in_unreduced_range(&chip, &mut ctx, &mut source);
    let b = rand_in_field(&mut source);
    let c = (value_of(&a) * &b) % &p;
    let c_0 = chip.range_assign_integer(&mut ctx, &new_from_big(&c), Range::Remainder);
    let c_1 = chip.mul_constant(&mut ctx, &a, &new_from_big(&b));
    assert_eq!(c_1.max_val(BIT_LEN_LIMB), rns.max_remainder);
    chip.assert_equal(&mut ctx, &c_0, &c_1);
    chip.assert_strict_equal(&mut ctx, &c_0, &c_1);

    let a = rand_in_field(&mut source);
    let inv = a.modinv(&p).unwrap();
    let a = chip.range_assign_integer(&mut ctx, &new_from_big(&a), Range::Remainder);
    let inv = chip.range_assign_integer(&mut ctx, &new_from_big(&inv), Range::Remainder);
    chip.mul_into_one(&mut ctx, &a, &inv);

    assert_eq!(ctx.verify(), true);
}

#[test]
fn mul_into_one_rejects_a_wrong_inverse() {
    let (chip, mut ctx) = setup();
    let mut source = Source(4);
    let a = rand_in_field(&mut source);
    let inv = rand_in_field(&mut source);
    let a = chip.range_assign_integer(&mut ctx, &new_from_big(&a), Range::Remainder);
    let inv = chip.range_assign_integer(&mut ctx, &new_from_big(&inv), Range::Remainder);
    assert_eq!(ctx.verify(), true);
    chip.mul_into_one(&mut ctx, &a, &inv);
    assert_eq!(ctx.verify(), false);
}

#[test]
fn test_squaring_circuit() {
    let (chip, mut ctx) = setup();
    let rns = rns();
    let mut source = Source(5);
    let p = wrong_modulus();

    let a = rand_in_operand_range(&mut source, &rns);
    let c = (&a * &a) % &p;
    let a = chip.range_assign_integer(&mut ctx, &new_from_big(&a), Range::Operand);
    let c_0 = chip.range_assign_integer(&mut ctx, &new_from_big(&c), Range::Remainder);
    let c_1 = chip.square(&mut ctx, &a);
    assert_eq!(c_1.max_val(BIT_LEN_LIMB), rns.max_remainder);
    chip.assert_equal(&mut ctx, &c_0, &c_1);
    chip.assert_strict_equal(&mut ctx, &c_0, &c_1);

    let a = rand_in_unreduced_range(&chip, &mut ctx, &mut source);
    let c = (value_of(&a) * value_of(&a)) % &p;
    let c_0 = chip.range_assign_integer(&mut ctx, &new_from_big(&c), Range::Remainder);
    let c_1 = chip.square(&mut ctx, &a);
    assert_eq!(c_1.max_val(BIT_LEN_LIMB), rns.max_remainder);
    chip.assert_equal(&mut ctx, &c_0, &c_1);
    chip.assert_strict_equal(&mut ctx, &c_0, &c_1);

    assert_eq!(ctx.verify(), true);
}

#[test]
fn test_assert_in_field_circuit() {
    let (chip, mut ctx) = setup();
    let mut source = Source(6);
    let a = rand_in_field(&mut source);
    let a = chip.range_assign_integer(&mut ctx, &new_from_big(&a), Range::Remainder);
    chip.assert_in_field(&mut ctx, &a);
    assert_eq!(ctx.verify(), true);
}

#[test]
fn assert_in_field_rejects_the_modulus() {
    let (chip, mut ctx) = setup();
    let a = chip.range_assign_integer(&mut ctx, &new_from_big(&wrong_modulus()), Range::Remainder);
    assert_eq!(ctx.verify(), true);
    chip.assert_in_field(&mut ctx, &a);
    assert_eq!(ctx.verify(), false);
}

#[test]
fn assert_in_field_accepts_the_modulus_less_one_and_zero() {
    let (chip, mut ctx) = setup();
    let a = new_from_big(&(wrong_modulus() - 1u32));
    let a = chip.range_assign_integer(&mut ctx, &a, Range::Remainder);
    chip.assert_in_field(&mut ctx, &a);
    let zero = chip.range_assign_integer(&mut ctx, &new_from_big(&BigUint::from(0u32)), Range::Remainder);
    chip.assert_in_field(&mut ctx, &zero);
    assert_eq!(ctx.verify(), true);
}

#[test]
fn assert_in_field_rejects_values_above_the_modulus() {
    let rns = rns();
    for value in [wrong_modulus() + 1u32, rns.max_remainder.clone()] {
        let (chip, mut ctx) = setup();
        let a = chip.range_assign_integer(&mut ctx, &new_from_big(&value), Range::Remainder);
        chip.assert_in_field(&mut ctx, &a);
        assert_eq!(ctx.verify(), false);
    }
}

#[test]
fn test_non_deterministic_circuit() {
    let (chip, mut ctx) = setup();
    let rns = rns();
    let main_gate = MainGate::new(main_gate_config());
    let mut source = Source(7);
    let p = wrong_modulus();

    let a_value = rand_in_remainder_range(&mut source, &rns);
    let inv = a_value.modinv(&p).unwrap();

    // 1 / a
    let a = chip.range_assign_integer(&mut ctx, &new_from_big(&a_value), Range::Remainder);
    let inv_0 = chip.range_assign_integer(&mut ctx, &new_from_big(&inv), Range::Remainder);
    let (inv_1, cond) = chip.invert(&mut ctx, &a);
    chip.assert_equal(&mut ctx, &inv_0, &inv_1);
    main_gate.assert_zero(&mut ctx, &cond);

    // 1 / 0
    let zero = chip.assign_integer(&mut ctx, &new_from_big(&BigUint::from(0u32)));
    let (must_be_one, cond) = chip.invert(&mut ctx, &zero);
    chip.assert_strict_one(&mut ctx, &must_be_one);
    main_gate.assert_one(&mut ctx, &cond);

    // 1 / p
    let wrong_modulus = Integer::from_limbs(rns.wrong_modulus_decomposed.clone());
    let modulus = chip.assign_integer(&mut ctx, &wrong_modulus);
    let (must_be_one, cond) = chip.invert(&mut ctx, &modulus);
    chip.assert_strict_one(&mut ctx, &must_be_one);
    main_gate.assert_one(&mut ctx, &cond);

    // 1 / a
    let inv_1 = chip.invert_incomplete(&mut ctx, &a);
    chip.assert_equal(&mut ctx, &inv_0, &inv_1);

    // a / b
    let a_value = rand_in_remainder_range(&mut source, &rns);
    let b_value = rand_in_remainder_range(&mut source, &rns);
    let c = (&a_value * b_value.modinv(&p).unwrap()) % &p;
    let a = chip.range_assign_integer(&mut ctx, &new_from_big(&a_value), Range::Remainder);
    let b = chip.range_assign_integer(&mut ctx, &new_from_big(&b_value), Range::Remainder);
    let c_0 = chip.range_assign_integer(&mut ctx, &new_from_big(&c), Range::Remainder);
    let (c_1, cond) = chip.div(&mut ctx, &a, &b);
    chip.assert_equal(&mut ctx, &c_0, &c_1);
    main_gate.assert_zero(&mut ctx, &cond);

    // 0 / b
    let (c_1, cond) = chip.div(&mut ctx, &zero, &b);
    chip.assert_zero(&mut ctx, &c_1);
    main_gate.assert_zero(&mut ctx, &cond);

    // p / b
    let (c_1, cond) = chip.div(&mut ctx, &modulus, &b);
    chip.assert_zero(&mut ctx, &c_1);
    main_gate.assert_zero(&mut ctx, &cond);

    // a / 0
    let (must_be_self, cond) = chip.div(&mut ctx, &a, &zero);
    chip.assert_equal(&mut ctx, &must_be_self, &a);
    main_gate.assert_one(&mut ctx, &cond);

    // a / p
    let (must_be_self, cond) = chip.div(&mut ctx, &a, &modulus);
    chip.assert_equal(&mut ctx, &must_be_self, &a);
    main_gate.assert_one(&mut ctx, &cond);

    // a / b
    let c_1 = chip.div_incomplete(&mut ctx, &a, &b);
    chip.assert_equal(&mut ctx, &c_0, &c_1);

    assert_eq!(ctx.verify(), true);
}

#[test]
fn invert_incomplete_of_zero_fails() {
    let (chip, mut ctx) = setup();
    let zero = chip.assign_integer(&mut ctx, &new_from_big(&BigUint::from(0u32)));
    assert_eq!(ctx.verify(), true);
    let inv = chip.invert_incomplete(&mut ctx, &zero);
    assert_eq!(value_of(&inv), BigUint::from(1u32));
    assert_eq!(ctx.verify(), false);
}

#[test]
fn div_incomplete_by_zero_fails() {
    let (chip, mut ctx) = setup();
    let mut source = Source(8);
    let a = rand_in_field(&mut source) + 1u32;
    let a = chip.range_assign_integer(&mut ctx, &new_from_big(&a), Range::Remainder);
    let zero = chip.assign_integer(&mut ctx, &new_from_big(&BigUint::from(0u32)));
    chip.div_incomplete(&mut ctx, &a, &zero);
    assert_eq!(ctx.verify(), false);
}

#[test]
fn invert_returns_the_inverse_and_the_flag() {
    let (chip, mut ctx) = setup();
    let p = wrong_modulus();
    // invert(0) = (1, 1)
    let zero = chip.assign_integer(&mut ctx, &new_from_big(&BigUint::from(0u32)));
    let (inv, cond) = chip.invert(&mut ctx, &zero);
    assert_eq!(value_of(&inv), BigUint::from(1u32));
    assert_eq!(cond.value, BigUint::from(1u32));
    // invert(7) = (7^-1, 0)
    let seven = chip.assign_integer(&mut ctx, &new_from_big(&BigUint::from(7u32)));
    let (inv, cond) = chip.invert(&mut ctx, &seven);
    assert_eq!((value_of(&inv) * 7u32) % &p, BigUint::from(1u32));
    assert_eq!(value_of(&inv), BigUint::from(7u32).modinv(&p).unwrap());
    assert_eq!(cond.value, BigUint::from(0u32));
    // div(a, 0) = (a, 1)
    let (q, cond) = chip.div(&mut ctx, &seven, &zero);
    assert_eq!(value_of(&q), BigUint::from(7u32));
    assert_eq!(cond.value, BigUint::from(1u32));
    // div(0, b) = (0, 0)
    let (q, cond) = chip.div(&mut ctx, &zero, &seven);
    assert_eq!(value_of(&q), BigUint::from(0u32));
    assert_eq!(cond.value, BigUint::from(0u32));
    // div(6, 3) = 2
    let six = chip.assign_integer(&mut ctx, &new_from_big(&BigUint::from(6u32)));
    let three = chip.assign_integer(&mut ctx, &new_from_big(&BigUint::from(3u32)));
    let (q, cond) = chip.div(&mut ctx, &six, &three);
    assert_eq!(value_of(&q), BigUint::from(2u32));
    assert_eq!(cond.value, BigUint::from(0u32));
    assert_eq!(ctx.verify(), true);
}

#[test]
fn assert_not_zero_of_zero_fails_and_of_a_value_succeeds() {
    let (chip, mut ctx) = setup();
    let mut source = Source(9);
    let b = rand_in_field(&mut source) + 1u32;
    let b = chip.assign_integer(&mut ctx, &new_from_big(&b));
    chip.assert_not_zero(&mut ctx, &b);
    assert_eq!(ctx.verify(), true);
    let a = chip.assign_integer(&mut ctx, &new_from_big(&BigUint::from(0u32)));
    chip.assert_not_zero(&mut ctx, &a);
    assert_eq!(ctx.verify(), false);
}

#[test]
fn assert_zero_accepts_multiples_of_the_modulus_only() {
    let (chip, mut ctx) = setup();
    let rns = rns();
    let zero = chip.assign_integer(&mut ctx, &new_from_big(&BigUint::from(0u32)));
    chip.assert_zero(&mut ctx, &zero);
    let modulus = chip.assign_integer(&mut ctx, &Integer::from_limbs(rns.wrong_modulus_decomposed.clone()));
    chip.assert_zero(&mut ctx, &modulus);
    assert_eq!(ctx.verify(), true);
    let one = chip.assign_integer(&mut ctx, &new_from_big(&BigUint::from(1u32)));
    chip.assert_zero(&mut ctx, &one);
    assert_eq!(ctx.verify(), false);
}

#[test]
fn assert_equal_rejects_different_values() {
    let (chip, mut ctx) = setup();
    let a = chip.assign_integer(&mut ctx, &new_from_big(&BigUint::from(5u32)));
    let b = chip.assign_integer(&mut ctx, &new_from_big(&BigUint::from(6u32)));
    chip.assert_equal(&mut ctx, &a, &b);
    assert_eq!(ctx.verify(), false);
}

#[test]
fn assert_not_equal_rejects_equal_values() {
    let (chip, mut ctx) = setup();
    let a = chip.assign_integer(&mut ctx, &new_from_big(&BigUint::from(5u32)));
    let b = chip.assign_integer(&mut ctx, &new_from_big(&BigUint::from(5u32)));
    chip.assert_not_equal(&mut ctx, &a, &b);
    assert_eq!(ctx.verify(), false);
}

#[test]
fn test_addition() {
    let (chip, mut ctx) = setup();
    let rns = rns();
    let mut source = Source(10);
    let p = wrong_modulus();
    let ctx = &mut ctx;

    {
        // addition in remainder range
        let a = rand_in_remainder_range(&mut source, &rns);
        let b = rand_in_remainder_range(&mut source, &rns);
        let c = &a + &b;
        let c_in_field = (&a + &b) % &p;
        let a = chip.range_assign_integer(ctx, &new_from_big(&a), Range::Remainder);
        let b = chip.range_assign_integer(ctx, &new_from_big(&b), Range::Remainder);
        let c_0 = chip.add(ctx, &a, &b);
        let c_1 = chip.assign_constant(ctx, &new_from_big(&(c % &p)));
        assert_eq!(a.max_val(BIT_LEN_LIMB) + b.max_val(BIT_LEN_LIMB), c_0.max_val(BIT_LEN_LIMB));
        chip.assert_equal(ctx, &c_0, &c_1);
        // reduce and enforce strict equality
        let c_0 = chip.reduce(ctx, &c_0);
        let c_1 = chip.range_assign_integer(ctx, &new_from_big(&c_in_field), Range::Remainder);
        chip.assert_equal(ctx, &c_0, &c_1);
        chip.assert_strict_equal(ctx, &c_0, &c_1);
    }

    {
        // constant addition in remainder range
        let a = rand_in_remainder_range(&mut source, &rns);
        let b = rand_in_field(&mut source);
        let c_in_field = (&a + &b) % &p;
        let a = chip.range_assign_integer(ctx, &new_from_big(&a), Range::Remainder);
        let c_0 = chip.add_constant(ctx, &a, &new_from_big(&b));
        assert_eq!(a.max_val(BIT_LEN_LIMB) + &b, c_0.max_val(BIT_LEN_LIMB));
        // reduce and enforce strict equality
        let c_0 = chip.reduce(ctx, &c_0);
        let c_1 = chip.range_assign_integer(ctx, &new_from_big(&c_in_field), Range::Remainder);
        chip.assert_equal(ctx, &c_0, &c_1);
        chip.assert_strict_equal(ctx, &c_0, &c_1);
    }

    {
        // go beyond unreduced range
        let a = rand_in_remainder_range(&mut source, &rns);
        let mut a = chip.assign_integer(ctx, &new_from_big(&a));
        for _ in 0..10 {
            let c = (value_of(&a) * 2usize) % &p;
            a = chip.add(ctx, &a, &a);
            let c_1 = chip.range_assign_integer(ctx, &new_from_big(&c), Range::Remainder);
            let c_0 = chip.reduce(ctx, &a);
            chip.assert_equal(ctx, &a, &c_1);
            chip.assert_equal(ctx, &c_0, &c_1);
            chip.assert_strict_equal(ctx, &c_0, &c_1);
        }
    }

    {
        // addition in unreduced range
        for _ in 0..10 {
            let a = rand_in_unreduced_range(&chip, ctx, &mut source);
            let b = rand_in_unreduced_range(&chip, ctx, &mut source);
            let c = (value_of(&a) + value_of(&b)) % &p;
            let c_0 = chip.add(ctx, &a, &b);
            let c_1 = chip.range_assign_integer(ctx, &new_from_big(&c), Range::Remainder);
            assert_eq!(a.max_val(BIT_LEN_LIMB) + b.max_val(BIT_LEN_LIMB), c_0.max_val(BIT_LEN_LIMB));
            chip.assert_equal(ctx, &c_0, &c_1);
            // reduce and enforce strict equality
            let c_0 = chip.reduce(ctx, &c_0);
            chip.assert_equal(ctx, &c_0, &c_1);
            chip.assert_strict_equal(ctx, &c_0, &c_1);
        }
    }

    {
        // subtraction in remainder range
        let a = rand_in_remainder_range(&mut source, &rns);
        let b = rand_in_remainder_range(&mut source, &rns);
        let a_norm = (&a % &p) + &p;
        let b_norm = &b % &p;
        let c = (a_norm - b_norm) % &p;
        let a = chip.range_assign_integer(ctx, &new_from_big(&a), Range::Remainder);
        let b = chip.range_assign_integer(ctx, &new_from_big(&b), Range::Remainder);
        let c_0 = chip.sub(ctx, &a, &b);
        let c_1 = chip.range_assign_integer(ctx, &new_from_big(&c), Range::Remainder);
        let aux = rns.make_aux(&b.max_vals());
        assert_eq!(
            a.max_val(BIT_LEN_LIMB) + wrong_field::limbs::compose(&aux.limbs, BIT_LEN_LIMB),
            c_0.max_val(BIT_LEN_LIMB)
        );
        chip.assert_equal(ctx, &c_0, &c_1);
    }

    {
        // subtraction in unreduced range
        let a = rand_in_unreduced_range(&chip, ctx, &mut source);
        let b = rand_in_unreduced_range(&chip, ctx, &mut source);
        let a_norm = (value_of(&a) % &p) + &p;
        let b_norm = value_of(&b) % &p;
        let c = (a_norm - b_norm) % &p;
        let c_0 = chip.sub(ctx, &a, &b);
        let c_1 = chip.range_assign_integer(ctx, &new_from_big(&c), Range::Remainder);
        let aux = rns.make_aux(&b.max_vals());
        assert_eq!(
            a.max_val(BIT_LEN_LIMB) + wrong_field::limbs::compose(&aux.limbs, BIT_LEN_LIMB),
            c_0.max_val(BIT_LEN_LIMB)
        );
        chip.assert_equal(ctx, &c_0, &c_1);
    }

    {
        // go beyond unreduced range
        let a = rand_in_remainder_range(&mut source, &rns);
        let mut a = chip.assign_integer(ctx, &new_from_big(&a));
        for _ in 0..10 {
            let b = rand_in_unreduced_range(&chip, ctx, &mut source);
            let a_norm = (value_of(&a) % &p) + &p;
            let b_norm = value_of(&b) % &p;
            let c = (a_norm - b_norm) % &p;
            let c_0 = chip.sub(ctx, &a, &b);
            let c_1 = chip.range_assign_integer(ctx, &new_from_big(&c), Range::Remainder);
            chip.assert_equal(ctx, &c_0, &c_1);
            a = c_0.copy();
        }
    }

    {
        // negation in unreduced range
        let a = rand_in_unreduced_range(&chip, ctx, &mut source);
        let a_norm = value_of(&a) % &p;
        let c = (&p - a_norm) % &p;
        let c_0 = chip.neg(ctx, &a);
        let c_1 = chip.range_assign_integer(ctx, &new_from_big(&c), Range::Remainder);
        let aux = rns.make_aux(&a.max_vals());
        assert_eq!(wrong_field::limbs::compose(&aux.limbs, BIT_LEN_LIMB), c_0.max_val(BIT_LEN_LIMB));
        chip.assert_equal(ctx, &c_0, &c_1);
    }

    {
        // mul2 in unreduced range
        let a = rand_in_unreduced_range(&chip, ctx, &mut source);
        let c = (value_of(&a) * 2usize) % &p;
        let c_0 = chip.mul2(ctx, &a);
        let c_1 = chip.range_assign_integer(ctx, &new_from_big(&c), Range::Remainder);
        assert_eq!(a.max_val(BIT_LEN_LIMB) * 2usize, c_0.max_val(BIT_LEN_LIMB));
        chip.assert_equal(ctx, &c_0, &c_1);
    }

    {
        // mul3 in unreduced range
        let a = rand_in_unreduced_range(&chip, ctx, &mut source);
        let c = (value_of(&a) * 3usize) % &p;
        let c_0 = chip.mul3(ctx, &a);
        let c_1 = chip.range_assign_integer(ctx, &new_from_big(&c), Range::Remainder);
        assert_eq!(a.max_val(BIT_LEN_LIMB) * 3usize, c_0.max_val(BIT_LEN_LIMB));
        chip.assert_equal(ctx, &c_0, &c_1);
    }

    assert_eq!(ctx.verify(), true);
}

#[test]
fn test_condition_circuit() {
    let (chip, mut ctx) = setup();
    let rns = rns();
    let main_gate = MainGate::new(main_gate_config());
    let mut source = Source(11);
    let ctx = &mut ctx;

    // select second operand when condition is zero
    let a = rand_in_remainder_range(&mut source, &rns);
    let b = rand_in_remainder_range(&mut source, &rns);
    let a = chip.range_assign_integer(ctx, &new_from_big(&a), Range::Remainder);
    let b = chip.range_assign_integer(ctx, &new_from_big(&b), Range::Remainder);
    let cond = main_gate.assign_value(ctx, &BigUint::from(0u32));
    let selected = chip.cond_select(ctx, &a, &b, &cond);
    chip.assert_equal(ctx, &b, &selected);
    chip.assert_strict_equal(ctx, &b, &selected);
    assert_eq!(b.max_val(BIT_LEN_LIMB), selected.max_val(BIT_LEN_LIMB));

    // select first operand when condition is one
    let a = rand_in_remainder_range(&mut source, &rns);
    let b = rand_in_remainder_range(&mut source, &rns);
    let a = chip.range_assign_integer(ctx, &new_from_big(&a), Range::Remainder);
    let b = chip.range_assign_integer(ctx, &new_from_big(&b), Range::Remainder);
    let cond = main_gate.assign_value(ctx, &BigUint::from(1u32));
    let selected = chip.cond_select(ctx, &a, &b, &cond);
    chip.assert_equal(ctx, &a, &selected);
    chip.assert_strict_equal(ctx, &a, &selected);
    assert_eq!(a.max_val(BIT_LEN_LIMB), selected.max_val(BIT_LEN_LIMB));

    // select constant operand when condition is zero
    let a = rand_in_remainder_range(&mut source, &rns);
    let b = rand_in_remainder_range(&mut source, &rns);
    let a = chip.range_assign_integer(ctx, &new_from_big(&a), Range::Remainder);
    let cond = main_gate.assign_value(ctx, &BigUint::from(0u32));
    let selected = chip.cond_select_or_assign(ctx, &a, &new_from_big(&b), &cond);
    let b_assigned = chip.assign_integer(ctx, &new_from_big(&b));
    chip.assert_equal(ctx, &b_assigned, &selected);
    chip.assert_strict_equal(ctx, &b_assigned, &selected);
    assert_eq!(a.max_val(BIT_LEN_LIMB), selected.max_val(BIT_LEN_LIMB));

    // select non constant operand when condition is one
    let a = rand_in_remainder_range(&mut source, &rns);
    let b = rand_in_remainder_range(&mut source, &rns);
    let a = chip.range_assign_integer(ctx, &new_from_big(&a), Range::Remainder);
    let cond = main_gate.assign_value(ctx, &BigUint::from(1u32));
    let selected = chip.cond_select_or_assign(ctx, &a, &new_from_big(&b), &cond);
    chip.assert_equal(ctx, &a, &selected);
    chip.assert_strict_equal(ctx, &a, &selected);
    assert_eq!(a.max_val(BIT_LEN_LIMB), selected.max_val(BIT_LEN_LIMB));

    assert_eq!(ctx.verify(), true);
}

/// The modulus of the base field of a 256-bit curve of the Koblitz kind,
/// over a native field of 254 bits.
fn koblitz_setup() -> (IntegerChip, RegionCtx, BigUint) {
    let wrong = BigUint::parse_bytes(
        b"fffffffffffffffffffffffffffffffffffffffffffffffffffffffefffffc2f",
        16,
    )
    .unwrap();
    let native = BigUint::parse_bytes(
        b"30644e72e131a029b85045b68181585d2833e84879b9709143e1f593f0000001",
        16,
    )
    .unwrap();
    let rns = Rns::construct(wrong.clone(), native.clone(), BIT_LEN_LIMB).unwrap();
    let config =
        IntegerConfig::new(RangeConfig::new(BIT_LEN_LIMB / 4, vec![]), main_gate_config());
    (IntegerChip::new(config, rns), RegionCtx::new(native).unwrap(), wrong)
}

#[test]
fn a_value_of_a_256_bit_field_is_not_zero_and_zero_is() {
    let (chip, mut ctx, _) = koblitz_setup();
    let b = chip.assign_integer(&mut ctx, &new_from_big(&BigUint::from(77u32)));
    chip.assert_not_zero(&mut ctx, &b);
    assert_eq!(ctx.verify(), true);
    let a = chip.assign_integer(&mut ctx, &new_from_big(&BigUint::from(0u32)));
    chip.assert_not_zero(&mut ctx, &a);
    assert_eq!(ctx.verify(), false);
}

#[test]
fn a_value_of_a_256_bit_field_times_its_inverse_is_one() {
    let (chip, mut ctx, wrong) = koblitz_setup();
    let mut source = Source(21);
    let value = source.below(&wrong) + 1u32;
    let a = chip.assign_integer(&mut ctx, &new_from_big(&value));
    let (inverse, failed) = chip.invert(&mut ctx, &a);
    assert_eq!(failed.value, BigUint::from(0u32));
    let expected = value.modinv(&wrong).unwrap();
    assert_eq!(value_of(&inverse), expected);
    let product = chip.mul(&mut ctx, &a, &inverse);
    let reduced = chip.reduce(&mut ctx, &product);
    assert_eq!(value_of(&reduced) % &wrong, BigUint::from(1u32));
    chip.assert_strict_one(&mut ctx, &reduced);
    assert_eq!(ctx.verify(), true);
}

#[test]
fn the_rows_of_a_product_hold_of_the_exact_numbers_only() {
    let mut source = Source(41);
    let (x, y) = (rand_in_field(&mut source), rand_in_field(&mut source));
    let p = wrong_modulus();
    // the exact quotient, result and carries
    let (chip, mut ctx) = setup();
    let a = chip.assign_integer(&mut ctx, &new_from_big(&x));
    let b = chip.assign_integer(&mut ctx, &new_from_big(&y));
    let w = chip.mul_witness(&a, &b);
    assert_eq!(wrong_field::limbs::compose(&w.quotient.limbs, BIT_LEN_LIMB), (&x * &y) / &p);
    assert_eq!(wrong_field::limbs::compose(&w.result.limbs, BIT_LEN_LIMB), (&x * &y) % &p);
    let q = chip.range_assign_integer(&mut ctx, &w.quotient, Range::MulQuotient);
    let res = chip.range_assign_integer(&mut ctx, &w.result, Range::Remainder);
    let rows = ctx.rows.len();
    chip.constrain_product(&mut ctx, &a, &b, &q, &res, &w.v0, &w.v1, w.v0_bits, w.v1_bits);
    assert!(ctx.rows.len() > rows);
    assert_eq!(ctx.verify(), true);
    // another result
    let other = new_from_big(&(((&x * &y) % &p + 1u32) % &p));
    let other = chip.range_assign_integer(&mut ctx, &other, Range::Remainder);
    chip.constrain_product(&mut ctx, &a, &b, &q, &other, &w.v0, &w.v1, w.v0_bits, w.v1_bits);
    assert_eq!(ctx.verify(), false);
    // another carry
    let (chip, mut ctx) = setup();
    let a = chip.assign_integer(&mut ctx, &new_from_big(&x));
    let b = chip.assign_integer(&mut ctx, &new_from_big(&y));
    let q = chip.range_assign_integer(&mut ctx, &w.quotient, Range::MulQuotient);
    let res = chip.range_assign_integer(&mut ctx, &w.result, Range::Remainder);
    let v0 = &w.v0 + 1u32;
    chip.constrain_product(&mut ctx, &a, &b, &q, &res, &v0, &w.v1, w.v0_bits, w.v1_bits);
    assert_eq!(ctx.verify(), false);
    // a carry that does not fit its bit length
    let (chip, mut ctx) = setup();
    let a = chip.assign_integer(&mut ctx, &new_from_big(&x));
    let b = chip.assign_integer(&mut ctx, &new_from_big(&y));
    let q = chip.range_assign_integer(&mut ctx, &w.quotient, Range::MulQuotient);
    let res = chip.range_assign_integer(&mut ctx, &w.result, Range::Remainder);
    chip.constrain_product(&mut ctx, &a, &b, &q, &res, &w.v0, &w.v1, 0, w.v1_bits);
    assert_eq!(ctx.verify(), w.v0 == BigUint::from(0u32));
}
