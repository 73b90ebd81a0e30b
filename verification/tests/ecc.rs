use halo2curves::ff::{Field, PrimeField};
use halo2curves::group::{Curve as GroupCurve, Group};
use halo2curves::pasta::{Fp, Fq, Vesta as CurveProjective, VestaAffine};
use halo2curves::CurveAffine;
use num_bigint::BigUint;
use wrong_field::curve::{Affine, Curve};
use wrong_field::ecc::{
    make_mul_aux, mul_aux_scalar, AssignedPoint, BaseFieldEccChip, EccConfig, Error, Point,
};
use wrong_field::gate::RegionCtx;
use wrong_field::main_gate::{MainGate, MainGateConfig};
use wrong_field::range::RangeConfig;

const BIT_LEN_LIMB: usize = 68;

/// The modulus of the field of the coordinates.
fn base_modulus() -> BigUint {
    BigUint::parse_bytes(
        b"40000000000000000000000000000000224698fc0994a8dd8c46eb2100000001",
        16,
    )
    .unwrap()
}

/// The modulus of the field of the scalars, which is the native field.
fn scalar_modulus() -> BigUint {
    BigUint::parse_bytes(
        b"40000000000000000000000000000000224698fc094cf91b992d30ed00000001",
        16,
    )
    .unwrap()
}

fn gate_config() -> MainGateConfig {
    MainGateConfig { a: 0, b: 1, c: 2, d: 3, e: 4, instance: 5 }
}

fn ecc_setup() -> (BaseFieldEccChip, RegionCtx) {
    let config = EccConfig::new(RangeConfig::new(BIT_LEN_LIMB / 4, vec![]), gate_config());
    let chip = BaseFieldEccChip::new(
        config,
        base_modulus(),
        scalar_modulus(),
        BigUint::from(5u32),
        BIT_LEN_LIMB,
    )
    .unwrap();
    let ctx = RegionCtx::new(scalar_modulus()).unwrap();
    (chip, ctx)
}

fn base_to_big(x: &Fq) -> BigUint {
    BigUint::from_bytes_le(x.to_repr().as_ref())
}

fn scalar_to_big(x: &Fp) -> BigUint {
    BigUint::from_bytes_le(x.to_repr().as_ref())
}

fn to_affine(point: &CurveProjective) -> Affine {
    let affine: VestaAffine = point.to_affine();
    let coords = affine.coordinates().unwrap();
    Affine { x: base_to_big(coords.x()), y: base_to_big(coords.y()) }
}

/// Points and scalars that look random and are the same on every run.
struct Seed(u64);

impl Seed {
    fn scalar(&mut self) -> Fp {
        let mut acc = Fp::ONE;
        for _ in 0..5 {
            self.0 = self.0.wrapping_mul(6364136223846793005).wrapping_add(1442695040888963407);
            acc = acc * Fp::from(self.0 | 1) + Fp::from(self.0 >> 7);
        }
        acc
    }

    fn point(&mut self) -> CurveProjective {
        CurveProjective::generator() * self.scalar()
    }
}

fn assert_same_point(chip: &BaseFieldEccChip, ctx: &mut RegionCtx, a: &AssignedPoint, b: &AssignedPoint) {
    chip.assert_equal(ctx, a, b);
}

#[test]
fn test_base_field_ecc_addition_circuit() {
    let (chip, mut ctx) = ecc_setup();
    let ctx = &mut ctx;
    let mut seed = Seed(1);

    let a = seed.point();
    let b = seed.point();
    let c = a + b;
    let a = chip.assign_point(ctx, &to_affine(&a)).unwrap();
    let b = chip.assign_point(ctx, &to_affine(&b)).unwrap();
    let c_0 = chip.assign_point(ctx, &to_affine(&c)).unwrap();
    let c_1 = chip.add(ctx, &a, &b);
    assert_same_point(&chip, ctx, &c_0, &c_1);

    let c_1 = chip.add(ctx, &a, &b);
    assert_same_point(&chip, ctx, &c_0, &c_1);

    // test doubling
    let a = seed.point();
    let c = a + a;
    let a = chip.assign_point(ctx, &to_affine(&a)).unwrap();
    let c_0 = chip.assign_point(ctx, &to_affine(&c)).unwrap();
    let c_1 = chip.double(ctx, &a);
    assert_same_point(&chip, ctx, &c_0, &c_1);

    // test ladder
    let a = seed.point();
    let b = seed.point();
    let c = a + b + a;
    let a = chip.assign_point(ctx, &to_affine(&a)).unwrap();
    let b = chip.assign_point(ctx, &to_affine(&b)).unwrap();
    let c_0 = chip.assign_point(ctx, &to_affine(&c)).unwrap();
    let c_1 = chip.ladder(ctx, &a, &b);
    assert_same_point(&chip, ctx, &c_0, &c_1);

    assert_eq!(ctx.verify(), true);
}

#[test]
fn add_of_a_point_to_itself_is_rejected() {
    let (chip, mut ctx) = ecc_setup();
    let mut seed = Seed(2);
    let a = seed.point();
    let a = chip.assign_point(&mut ctx, &to_affine(&a)).unwrap();
    assert_eq!(ctx.verify(), true);
    chip.add(&mut ctx, &a, &a);
    assert_eq!(ctx.verify(), false);
}

#[test]
fn assert_equal_of_points_rejects_different_points() {
    let (chip, mut ctx) = ecc_setup();
    let mut seed = Seed(3);
    let a = chip.assign_point(&mut ctx, &to_affine(&seed.point())).unwrap();
    let b = chip.assign_point(&mut ctx, &to_affine(&seed.point())).unwrap();
    chip.assert_equal(&mut ctx, &a, &b);
    assert_eq!(ctx.verify(), false);
}

#[test]
fn neg_is_the_opposite_point() {
    let (chip, mut ctx) = ecc_setup();
    let mut seed = Seed(4);
    let a = seed.point();
    let assigned = chip.assign_point(&mut ctx, &to_affine(&a)).unwrap();
    let expected = chip.assign_point(&mut ctx, &to_affine(&(-a))).unwrap();
    let negated = chip.neg(&mut ctx, &assigned);
    chip.assert_equal(&mut ctx, &negated, &expected);
    assert_eq!(ctx.verify(), true);
}

#[test]
fn select_takes_the_first_point_on_one_and_the_second_on_zero() {
    let (chip, mut ctx) = ecc_setup();
    let main_gate = MainGate::new(gate_config());
    let mut seed = Seed(5);
    let a = chip.assign_point(&mut ctx, &to_affine(&seed.point())).unwrap();
    let b = chip.assign_point(&mut ctx, &to_affine(&seed.point())).unwrap();
    let one = main_gate.assign_bit(&mut ctx, &BigUint::from(1u32));
    let zero = main_gate.assign_bit(&mut ctx, &BigUint::from(0u32));
    let first = chip.select(&mut ctx, &one, &a, &b);
    chip.assert_equal(&mut ctx, &first, &a);
    let second = chip.select(&mut ctx, &zero, &a, &b);
    chip.assert_equal(&mut ctx, &second, &b);
    let constant = to_affine(&seed.point());
    let expected = chip.assign_point(&mut ctx, &constant).unwrap();
    let third = chip.select_or_assign(&mut ctx, &zero, &a, &constant);
    chip.assert_equal(&mut ctx, &third, &expected);
    let fourth = chip.select_or_assign(&mut ctx, &one, &a, &constant);
    chip.assert_equal(&mut ctx, &fourth, &a);
    assert_eq!(ctx.verify(), true);
}

#[test]
fn assign_point_fails_off_the_curve() {
    let (chip, mut ctx) = ecc_setup();
    let mut seed = Seed(6);
    let mut point = to_affine(&seed.point());
    point.y = (point.y + 1u32) % base_modulus();
    assert!(matches!(chip.assign_point(&mut ctx, &point), Err(Error::Synthesis)));
    assert!(matches!(chip.assign_constant(&mut ctx, &point), Err(Error::Synthesis)));
    assert_eq!(ctx.rows.len(), 0);
    // coordinates that are not below the modulus are refused as well
    let good = to_affine(&seed.point());
    let shifted = Affine { x: good.x.clone() + base_modulus(), y: good.y.clone() };
    assert!(matches!(chip.assign_point(&mut ctx, &shifted), Err(Error::Synthesis)));
    assert!(chip.assign_point(&mut ctx, &good).is_ok());
    assert!(chip.assign_constant(&mut ctx, &good).is_ok());
    assert_eq!(ctx.verify(), true);
}

#[test]
fn test_base_field_ecc_public_input() {
    let (chip, mut ctx) = ecc_setup();
    let mut seed = Seed(7);
    let a = seed.point();
    let b = seed.point();

    let c0 = to_affine(&(a + b));
    let c0 = Point::from(&chip.integer_chip.rns, &c0.x, &c0.y);
    let mut public_data = c0.public();
    let c1 = to_affine(&(a + a));
    let c1 = Point::from(&chip.integer_chip.rns, &c1.x, &c1.y);
    public_data.extend(c1.public());

    let sum = {
        let a = chip.assign_point(&mut ctx, &to_affine(&a)).unwrap();
        let b = chip.assign_point(&mut ctx, &to_affine(&b)).unwrap();
        let c = chip.add(&mut ctx, &a, &b);
        chip.normalize(&mut ctx, &c)
    };
    chip.expose_public(&mut ctx, &sum, 0);

    let sum = {
        let a = chip.assign_point(&mut ctx, &to_affine(&a)).unwrap();
        let c = chip.double(&mut ctx, &a);
        chip.normalize(&mut ctx, &c)
    };
    chip.expose_public(&mut ctx, &sum, 8);

    assert_eq!(ctx.verify(), true);
    assert_eq!(ctx.instances.len(), 16);
    for (i, instance) in ctx.instances.iter().enumerate() {
        assert_eq!(instance.row, i);
        assert_eq!(instance.witness.value, public_data[i]);
    }
}

fn mul_circuit(window_size: usize, seed: u64) {
    let (mut chip, mut ctx) = ecc_setup();
    let mut seed = Seed(seed);
    let main_gate = MainGate::new(gate_config());
    let aux_generator = to_affine(&seed.point());

    chip.assign_aux_generator(&mut ctx, &aux_generator).unwrap();
    chip.assign_aux(&mut ctx, window_size, 1).unwrap();
    chip.get_mul_aux(window_size, 1).unwrap();

    let base = seed.point();
    let s = seed.scalar();
    let result = base * s;

    let base = chip.assign_point(&mut ctx, &to_affine(&base)).unwrap();
    let s = main_gate.assign_value(&mut ctx, &scalar_to_big(&s));
    let result_0 = chip.assign_point(&mut ctx, &to_affine(&result)).unwrap();

    let result_1 = chip.mul(&mut ctx, &base, &s, window_size).unwrap();
    chip.assert_equal(&mut ctx, &result_0, &result_1);
    assert_eq!(ctx.verify(), true);
}

#[test]
fn test_base_field_ecc_mul_circuit() {
    for window_size in 1..5 {
        mul_circuit(window_size, 20 + window_size as u64);
    }
}

#[test]
fn mul_by_one_and_by_a_small_scalar() {
    let (mut chip, mut ctx) = ecc_setup();
    let mut seed = Seed(8);
    let main_gate = MainGate::new(gate_config());
    chip.assign_aux_generator(&mut ctx, &to_affine(&seed.point())).unwrap();
    chip.assign_aux(&mut ctx, 3, 1).unwrap();
    let base = seed.point();
    let assigned = chip.assign_point(&mut ctx, &to_affine(&base)).unwrap();
    for k in [1u64, 6] {
        let s = main_gate.assign_value(&mut ctx, &BigUint::from(k));
        let expected = chip.assign_point(&mut ctx, &to_affine(&(base * Fp::from(k)))).unwrap();
        let result = chip.mul(&mut ctx, &assigned, &s, 3).unwrap();
        chip.assert_equal(&mut ctx, &result, &expected);
    }
    assert_eq!(ctx.verify(), true);
}

#[test]
fn mul_without_the_constants_fails() {
    let (mut chip, mut ctx) = ecc_setup();
    let mut seed = Seed(9);
    let main_gate = MainGate::new(gate_config());
    let base = chip.assign_point(&mut ctx, &to_affine(&seed.point())).unwrap();
    let s = main_gate.assign_value(&mut ctx, &BigUint::from(3u32));
    // neither the generator nor the constant of the window size
    assert!(matches!(chip.get_mul_aux(2, 1), Err(Error::Synthesis)));
    assert!(matches!(chip.mul(&mut ctx, &base, &s, 2), Err(Error::Synthesis)));
    assert!(matches!(chip.assign_aux(&mut ctx, 2, 1), Err(Error::Synthesis)));
    // the generator alone is not enough
    chip.assign_aux_generator(&mut ctx, &to_affine(&seed.point())).unwrap();
    assert!(matches!(chip.get_mul_aux(2, 1), Err(Error::Synthesis)));
    assert!(matches!(chip.mul(&mut ctx, &base, &s, 2), Err(Error::Synthesis)));
    // the constant of another window size is not enough either
    chip.assign_aux(&mut ctx, 3, 1).unwrap();
    assert!(matches!(chip.mul(&mut ctx, &base, &s, 2), Err(Error::Synthesis)));
    assert!(chip.mul(&mut ctx, &base, &s, 3).is_ok());
}

fn mul_batch_circuit(number_of_pairs: usize, window_size: usize, seed: u64, zero_at: Option<usize>) {
    let (mut chip, mut ctx) = ecc_setup();
    let mut seed = Seed(seed);
    let main_gate = MainGate::new(gate_config());
    chip.assign_aux_generator(&mut ctx, &to_affine(&seed.point())).unwrap();

    let mut acc = CurveProjective::identity();
    let mut points = Vec::new();
    let mut scalars = Vec::new();
    for i in 0..number_of_pairs {
        let base = seed.point();
        let s = if zero_at == Some(i) { Fp::ZERO } else { seed.scalar() };
        acc = acc + (base * s);
        points.push(chip.assign_point(&mut ctx, &to_affine(&base)).unwrap());
        scalars.push(main_gate.assign_value(&mut ctx, &scalar_to_big(&s)));
    }
    let result_0 = chip.assign_point(&mut ctx, &to_affine(&acc)).unwrap();
    let result_1 = chip.msm_bucket(&mut ctx, &points, &scalars, window_size).unwrap();
    chip.assert_equal(&mut ctx, &result_0, &result_1);
    assert_eq!(ctx.verify(), true);
}

#[test]
fn test_base_field_ecc_mul_batch_circuit() {
    for number_of_pairs in 4..5 {
        for window_size in 1..3 {
            mul_batch_circuit(number_of_pairs, window_size, 40 + window_size as u64, None);
        }
    }
}

#[test]
fn msm_bucket_of_one_pair() {
    mul_batch_circuit(1, 2, 51, None);
}

#[test]
fn msm_bucket_with_a_zero_scalar() {
    mul_batch_circuit(3, 2, 52, Some(1));
}

#[test]
fn msm_bucket_with_three_bit_windows() {
    mul_batch_circuit(2, 3, 53, None);
}

#[test]
fn msm_bucket_without_the_generator_fails() {
    let (chip, mut ctx) = ecc_setup();
    let mut seed = Seed(10);
    let main_gate = MainGate::new(gate_config());
    let base = chip.assign_point(&mut ctx, &to_affine(&seed.point())).unwrap();
    let s = main_gate.assign_value(&mut ctx, &BigUint::from(3u32));
    let rows = ctx.rows.len();
    assert!(matches!(chip.msm_bucket(&mut ctx, &vec![base], &vec![s], 2), Err(Error::Synthesis)));
    assert!(matches!(chip.initial_buckets(&mut ctx, 2), Err(Error::Synthesis)));
    assert_eq!(ctx.rows.len(), rows);
}

#[test]
fn the_aux_scalar_has_one_bit_for_each_window_times_all_ones_for_the_pairs() {
    // 255 bits in windows of 4 bits: 64 windows
    let k = mul_aux_scalar(255, 4, 1);
    let mut expected = BigUint::from(0u32);
    for i in 0..64 {
        expected += BigUint::from(1u32) << (4 * i);
    }
    assert_eq!(k, expected);
    // 8 bits in windows of 3 bits and 2 pairs: (1 + 8 + 64) * 3
    assert_eq!(mul_aux_scalar(8, 3, 2), BigUint::from(219u32));
    // 6 bits in windows of 3 bits and 3 pairs: (1 + 8) * 7
    assert_eq!(mul_aux_scalar(6, 3, 3), BigUint::from(63u32));
    assert_eq!(mul_aux_scalar(1, 1, 1), BigUint::from(1u32));
}

#[test]
fn make_mul_aux_cancels_what_the_generator_adds() {
    let curve = Curve { p: base_modulus(), b: BigUint::from(5u32) };
    let mut seed = Seed(11);
    let generator = seed.point();
    let k = mul_aux_scalar(255, 3, 2);
    let aux = make_mul_aux(&curve, &to_affine(&generator), 255, 3, 2).unwrap();
    // k is above the order of the group neither here nor in the reference
    let mut scalar = Fp::ZERO;
    for byte in k.to_bytes_be() {
        scalar = scalar * Fp::from(256) + Fp::from(byte as u64);
    }
    let expected = to_affine(&(-(generator * scalar)));
    assert_eq!(aux.x, expected.x);
    assert_eq!(aux.y, expected.y);
}

#[test]
fn the_curve_outside_the_circuit_agrees_with_the_reference() {
    let curve = Curve { p: base_modulus(), b: BigUint::from(5u32) };
    let mut seed = Seed(12);
    let a = seed.point();
    let b = seed.point();
    let s = seed.scalar();
    let (pa, pb) = (Some(to_affine(&a)), Some(to_affine(&b)));
    let sum = curve.group_add(&pa, &pb).unwrap();
    assert_eq!(sum.x, to_affine(&(a + b)).x);
    assert_eq!(sum.y, to_affine(&(a + b)).y);
    let double = curve.group_add(&pa, &pa).unwrap();
    assert_eq!(double.x, to_affine(&a.double()).x);
    assert_eq!(double.y, to_affine(&a.double()).y);
    let product = curve.group_mul(&scalar_to_big(&s), &pa).unwrap();
    assert_eq!(product.x, to_affine(&(a * s)).x);
    assert_eq!(product.y, to_affine(&(a * s)).y);
    let opposite = curve.neg(&pa);
    assert!(curve.group_add(&pa, &opposite).is_none());
    assert!(curve.group_mul(&BigUint::from(0u32), &pa).is_none());
    assert!(curve.group_mul(&scalar_modulus(), &pa).is_none());
    let same = curve.group_add(&pa, &None).unwrap();
    assert_eq!(same.x, pa.as_ref().unwrap().x);
    assert!(curve.is_on_curve(&sum.x, &sum.y));
    assert!(!curve.is_on_curve(&sum.x, &(sum.y.clone() + 1u32)));
    let eight = curve.doubled(&pa, 3).unwrap();
    assert_eq!(eight.x, to_affine(&(a * Fp::from(8))).x);
}

#[test]
fn field_division_outside_the_circuit() {
    let curve = Curve { p: BigUint::from(13u32), b: BigUint::from(5u32) };
    // 6 / 4 = 8 modulo 13, since 8 * 4 = 32 = 6
    assert_eq!(curve.div(&BigUint::from(6u32), &BigUint::from(4u32)), Some(BigUint::from(8u32)));
    assert_eq!(curve.div(&BigUint::from(6u32), &BigUint::from(13u32)), None);
    assert_eq!(curve.sub(&BigUint::from(3u32), &BigUint::from(5u32)), BigUint::from(11u32));
    assert_eq!(curve.add(&BigUint::from(9u32), &BigUint::from(5u32)), BigUint::from(1u32));
    assert_eq!(curve.mul(&BigUint::from(9u32), &BigUint::from(5u32)), BigUint::from(6u32));
}

#[test]
fn the_gadget_is_refused_for_a_constant_above_the_modulus() {
    let config = EccConfig::new(RangeConfig::new(17, vec![]), gate_config());
    assert!(BaseFieldEccChip::new(config, base_modulus(), scalar_modulus(), base_modulus(), BIT_LEN_LIMB)
        .is_none());
    let config = EccConfig::new(RangeConfig::new(17, vec![]), gate_config());
    assert!(BaseFieldEccChip::new(config, base_modulus(), scalar_modulus(), BigUint::from(5u32), 0)
        .is_none());
    assert!(BaseFieldEccChip::rns(base_modulus(), scalar_modulus(), 68).is_some());
    let (chip, _) = ecc_setup();
    assert_eq!(chip.num_bits, 255);
    assert_eq!(Fq::NUM_BITS, 255);
}

#[test]
fn the_constant_of_a_kind_is_registered_once() {
    let (mut chip, mut ctx) = ecc_setup();
    let mut seed = Seed(31);
    let generator = to_affine(&seed.point());
    chip.assign_aux_generator(&mut ctx, &generator).unwrap();
    chip.assign_aux(&mut ctx, 2, 1).unwrap();
    chip.assign_aux(&mut ctx, 3, 1).unwrap();
    chip.assign_aux(&mut ctx, 2, 1).unwrap();
    assert_eq!(chip.aux_registry.len(), 2);
    assert_eq!((chip.aux_registry[0].window_size, chip.aux_registry[0].number_of_pairs), (2, 1));
    assert_eq!((chip.aux_registry[1].window_size, chip.aux_registry[1].number_of_pairs), (3, 1));
    // what is registered is the constant of its kind
    let curve = Curve { p: base_modulus(), b: BigUint::from(5u32) };
    let expected = make_mul_aux(&curve, &generator, 255, 3, 1).unwrap();
    let aux = chip.get_mul_aux(3, 1).unwrap();
    let expected = chip.assign_point(&mut ctx, &expected).unwrap();
    chip.assert_equal(&mut ctx, &aux.to_sub, &expected);
    assert_eq!(ctx.verify(), true);
    let other = chip.get_mul_aux(2, 1).unwrap();
    chip.assert_equal(&mut ctx, &other.to_sub, &expected);
    assert_eq!(ctx.verify(), false);
}

#[test]
fn the_sum_outside_the_circuit_does_not_depend_on_the_order() {
    let curve = Curve { p: base_modulus(), b: BigUint::from(5u32) };
    let mut seed = Seed(32);
    let (a, b) = (seed.point(), seed.point());
    let (pa, pb) = (Some(to_affine(&a)), Some(to_affine(&b)));
    let ab = curve.group_add(&pa, &pb).unwrap();
    let ba = curve.group_add(&pb, &pa).unwrap();
    assert_eq!((ab.x.clone(), ab.y.clone()), (ba.x, ba.y));
    // the step of the ladder: a + (a + b)
    let twice = curve.group_add(&pa, &Some(ab)).unwrap();
    let expected = to_affine(&(a.double() + b));
    assert_eq!((twice.x, twice.y), (expected.x, expected.y));
}

#[test]
fn the_constants_of_the_buckets_need_the_generator() {
    let (mut chip, mut ctx) = ecc_setup();
    let mut seed = Seed(41);
    assert!(chip.bucket_constants(2).is_none());
    assert!(chip.initial_buckets(&mut ctx, 2).is_err());
    let generator = to_affine(&seed.point());
    chip.assign_aux_generator(&mut ctx, &generator).unwrap();
    let (points, correction) = chip.bucket_constants(2).unwrap();
    assert_eq!(points.len(), 4);
    assert_eq!((points[0].x.clone(), points[0].y.clone()), (generator.x.clone(), generator.y.clone()));
    // each bucket starts at the double of the one before it
    let curve = Curve { p: base_modulus(), b: BigUint::from(5u32) };
    for i in 1..4 {
        let before = Some(Affine { x: points[i - 1].x.clone(), y: points[i - 1].y.clone() });
        let double = curve.group_add(&before, &before).unwrap();
        assert_eq!((points[i].x.clone(), points[i].y.clone()), (double.x, double.y));
    }
    assert!(curve.is_on_curve(&correction.x, &correction.y));
    let buckets = chip.initial_buckets(&mut ctx, 2).unwrap();
    assert_eq!(buckets.size(), 4);
    assert_eq!(buckets.window(), 2);
    assert_eq!(ctx.verify(), true);
}
