use num_bigint::BigUint;
use wrong_field::big::big_is_zero;
use wrong_field::gate::{cells2, Cell, Coeff, RegionCtx};
use wrong_field::limbs::{big_bit_length, big_pow2, big_pow2_minus_one, compose, copy_limbs, decompose};
use wrong_field::main_gate::{MainGate, MainGateConfig, Term};
use wrong_field::rns::Rns;

fn big(x: u64) -> BigUint {
    BigUint::from(x)
}

fn small_gate() -> MainGate {
    MainGate::new(MainGateConfig { a: 0, b: 1, c: 2, d: 3, e: 4, instance: 5 })
}

#[test]
fn zero_is_told_from_other_numbers() {
    assert!(big_is_zero(&big(0)));
    assert!(!big_is_zero(&big(1)));
    assert!(!big_is_zero(&(big(1) << 200)));
}

#[test]
fn powers_of_two_and_bit_lengths() {
    assert_eq!(big_pow2(0), big(1));
    assert_eq!(big_pow2(10), big(1024));
    assert_eq!(big_pow2_minus_one(10), big(1023));
    assert_eq!(big_pow2_minus_one(0), big(0));
    assert_eq!(big_bit_length(&big(0)), 0);
    assert_eq!(big_bit_length(&big(1)), 1);
    assert_eq!(big_bit_length(&big(255)), 8);
    assert_eq!(big_bit_length(&big(256)), 9);
}

#[test]
fn limbs_are_cut_and_put_together() {
    // 0x1234 in limbs of 4 bits
    let limbs = decompose(&big(0x1234), 4);
    assert_eq!(limbs, vec![big(4), big(3), big(2), big(1)]);
    assert_eq!(compose(&limbs, 4), big(0x1234));
    // the fourth limb takes what is left
    let limbs = decompose(&big(0x54321), 4);
    assert_eq!(limbs, vec![big(1), big(2), big(3), big(0x54)]);
    assert_eq!(compose(&limbs, 4), big(0x54321));
    // a limb may exceed the base
    assert_eq!(compose(&vec![big(20), big(1), big(0), big(0)], 4), big(36));
    assert_eq!(copy_limbs(&limbs), limbs);
}

#[test]
fn an_empty_context_needs_a_modulus_of_at_least_two() {
    assert!(RegionCtx::new(big(0)).is_none());
    assert!(RegionCtx::new(big(1)).is_none());
    let ctx = RegionCtx::new(big(2)).unwrap();
    assert!(ctx.verify());
}

#[test]
fn rows_are_checked_against_the_values_they_record() {
    let mut ctx = RegionCtx::new(big(97)).unwrap();
    let a = ctx.assign(&big(100));
    assert_eq!(a.value, big(3));
    assert_eq!(a.id, 0);
    let b = ctx.assign(&big(5));
    assert_eq!(b.id, 1);
    // 3 * 5 + 2 * 3 - 5 + 4 = 20
    let c = ctx.derive(
        cells2(Cell::times(&a, 2), Cell::minus_times(&b, 1)),
        Coeff::from_u64(4),
        true,
    );
    assert_eq!(c.value, big(20));
    // 3 - 4 * 5 = -17 = 80
    let d = ctx.derive(cells2(Cell::times(&a, 1), Cell::minus_times(&b, 4)), Coeff::from_u64(0), false);
    assert_eq!(d.value, big(80));
    assert!(ctx.verify());
    assert_eq!(ctx.rows.len(), 2);
    // 3 + 5 - 8 = 0 holds, 3 + 5 - 9 = 0 does not
    ctx.constrain(cells2(Cell::times(&a, 1), Cell::times(&b, 1)), Coeff::minus_u64(8), false);
    assert!(ctx.verify());
    ctx.constrain(cells2(Cell::times(&a, 1), Cell::times(&b, 1)), Coeff::minus_u64(9), false);
    assert!(!ctx.verify());
}

#[test]
fn lookups_are_checked_against_their_bit_lengths() {
    let mut ctx = RegionCtx::new(big(97)).unwrap();
    let a = ctx.assign(&big(15));
    ctx.range(&a, 4);
    assert!(ctx.verify());
    ctx.range(&a, 3);
    assert!(!ctx.verify());
    let mut ctx = RegionCtx::new(big(97)).unwrap();
    let zero = ctx.assign(&big(0));
    ctx.range(&zero, 0);
    assert!(ctx.verify());
}

#[test]
fn the_gate_computes_in_the_native_field() {
    let gate = small_gate();
    let mut ctx = RegionCtx::new(big(97)).unwrap();
    let a = gate.assign_value(&mut ctx, &big(90));
    let b = gate.assign_value(&mut ctx, &big(10));
    assert_eq!(gate.add(&mut ctx, &a, &b).value, big(3));
    assert_eq!(gate.add_constant(&mut ctx, &a, &big(8)).value, big(1));
    assert_eq!(gate.sub_with_constant(&mut ctx, &b, &a, &big(1)).value, big(18));
    assert_eq!(gate.neg_with_constant(&mut ctx, &a, &big(1)).value, big(8));
    assert_eq!(gate.scale(&mut ctx, &a, 3).value, big(76));
    assert_eq!(gate.mul(&mut ctx, &a, &b).value, big(27));
    let one = gate.assign_bit(&mut ctx, &big(1));
    let zero = gate.assign_bit(&mut ctx, &big(0));
    assert_eq!(gate.cond_select(&mut ctx, &a, &b, &one).value, big(90));
    assert_eq!(gate.cond_select(&mut ctx, &a, &b, &zero).value, big(10));
    assert_eq!(gate.cond_select_or_assign(&mut ctx, &a, &big(7), &one).value, big(90));
    assert_eq!(gate.cond_select_or_assign(&mut ctx, &a, &big(7), &zero).value, big(7));
    assert_eq!(gate.not(&mut ctx, &one).value, big(0));
    assert_eq!(gate.not(&mut ctx, &zero).value, big(1));
    assert_eq!(gate.and(&mut ctx, &one, &zero).value, big(0));
    assert_eq!(gate.and(&mut ctx, &one, &one).value, big(1));
    gate.assert_equal(&mut ctx, &a, &a);
    gate.assert_one(&mut ctx, &one);
    gate.assert_zero(&mut ctx, &zero);
    gate.assert_bit(&mut ctx, &one);
    gate.assert_not_zero(&mut ctx, &a);
    gate.one_or_one(&mut ctx, &a, &one);
    assert!(ctx.verify());
}

#[test]
fn each_assertion_of_the_gate_can_fail() {
    let gate = small_gate();
    let fresh = || RegionCtx::new(big(97)).unwrap();

    let mut ctx = fresh();
    let a = gate.assign_value(&mut ctx, &big(4));
    let b = gate.assign_value(&mut ctx, &big(5));
    gate.assert_equal(&mut ctx, &a, &b);
    assert!(!ctx.verify());

    let mut ctx = fresh();
    let a = gate.assign_value(&mut ctx, &big(4));
    gate.assert_zero(&mut ctx, &a);
    assert!(!ctx.verify());

    let mut ctx = fresh();
    let a = gate.assign_value(&mut ctx, &big(4));
    gate.assert_one(&mut ctx, &a);
    assert!(!ctx.verify());

    let mut ctx = fresh();
    let a = gate.assign_value(&mut ctx, &big(2));
    gate.assert_bit(&mut ctx, &a);
    assert!(!ctx.verify());

    let mut ctx = fresh();
    gate.assign_bit(&mut ctx, &big(2));
    assert!(!ctx.verify());

    let mut ctx = fresh();
    let zero = gate.assign_value(&mut ctx, &big(0));
    gate.assert_not_zero(&mut ctx, &zero);
    assert!(!ctx.verify());

    let mut ctx = fresh();
    let a = gate.assign_value(&mut ctx, &big(4));
    let b = gate.assign_value(&mut ctx, &big(5));
    gate.one_or_one(&mut ctx, &a, &b);
    assert!(!ctx.verify());
}

#[test]
fn combine_places_the_terms_of_one_row() {
    let gate = small_gate();
    let mut ctx = RegionCtx::new(big(97)).unwrap();
    let a = gate.assign_value(&mut ctx, &big(6));
    // 6 * 2 + 85 * 1 + 0 = 97
    let cells = gate.combine(
        &mut ctx,
        Term::Assigned(a.copy(), Coeff::from_u64(2)),
        Term::Unassigned(big(85), Coeff::from_u64(1)),
        Term::Zero,
        Term::Zero,
        Term::Zero,
        Coeff::from_u64(0),
        false,
    );
    assert_eq!(cells.len(), 5);
    assert_eq!(cells[0].id, a.id);
    assert_eq!(cells[1].value, big(85));
    assert_eq!(cells[2].value, big(0));
    assert!(ctx.verify());
    // 6 * 85 + 6 * 2 + 85 = 607 = 25, so the row needs the constant -25
    gate.combine(
        &mut ctx,
        Term::Assigned(a.copy(), Coeff::from_u64(2)),
        Term::Assigned(cells[1].copy(), Coeff::from_u64(1)),
        Term::Zero,
        Term::Zero,
        Term::Zero,
        Coeff::minus_u64(25),
        true,
    );
    assert!(ctx.verify());
    gate.combine(
        &mut ctx,
        Term::Assigned(a.copy(), Coeff::from_u64(2)),
        Term::Zero,
        Term::Zero,
        Term::Zero,
        Term::Zero,
        Coeff::from_u64(0),
        false,
    );
    assert!(!ctx.verify());
}

#[test]
fn bits_of_a_value() {
    let gate = small_gate();
    let mut ctx = RegionCtx::new(big(97)).unwrap();
    let a = gate.assign_value(&mut ctx, &big(0b1011));
    let bits = gate.to_bits(&mut ctx, &a, 5);
    let values: Vec<BigUint> = bits.iter().map(|b| b.value.clone()).collect();
    assert_eq!(values, vec![big(1), big(1), big(0), big(1), big(0)]);
    assert!(ctx.verify());
    // three bits are not enough for eleven
    let bits = gate.to_bits(&mut ctx, &a, 3);
    assert_eq!(bits.len(), 3);
    assert!(!ctx.verify());
}

#[test]
fn a_number_system_needs_parameters_that_fit() {
    let p = BigUint::parse_bytes(
        b"40000000000000000000000000000000224698fc094cf91b992d30ed00000001",
        16,
    )
    .unwrap();
    let n = BigUint::parse_bytes(
        b"40000000000000000000000000000000224698fc0994a8dd8c46eb2100000001",
        16,
    )
    .unwrap();
    assert!(Rns::construct(p.clone(), n.clone(), 0).is_none());
    assert!(Rns::construct(p.clone(), n.clone(), 2000).is_none());
    // four limbs of 60 bits do not cover the modulus
    assert!(Rns::construct(p.clone(), n.clone(), 60).is_none());
    assert!(Rns::construct(big(1), n.clone(), 68).is_none());
    assert!(Rns::construct(p.clone(), big(1), 68).is_none());
    // a native field that is too small for the limbs
    assert!(Rns::construct(p.clone(), big(97), 68).is_none());
    let rns = Rns::construct(p.clone(), n.clone(), 68).unwrap();
    assert_eq!(rns.bit_len_limb, 68);
    assert_eq!(rns.bit_len_lookup, 17);
    assert_eq!(rns.left_shifter_r, big(1) << 68);
    assert_eq!(rns.left_shifter_2r, big(1) << 136);
    assert_eq!(rns.binary_modulus, big(1) << 272);
    assert_eq!(rns.crt_modulus, (big(1) << 272) * &n);
    assert_eq!(rns.max_reduced_limb, (big(1) << 68) - 1u32);
    assert_eq!(rns.max_unreduced_limb, (big(1) << 102) - 1u32);
    assert_eq!(rns.max_remainder, (big(1) << 255) - 1u32);
    assert_eq!(rns.max_mul_quotient, (big(1) << 270) - 1u32);
    assert_eq!(rns.max_operand, (big(1) << 261) - 1u32);
    assert_eq!(rns.max_most_significant_reduced_limb, (big(1) << 51) - 1u32);
    assert_eq!(rns.max_most_significant_operand_limb, (big(1) << 57) - 1u32);
    assert_eq!(rns.max_most_significant_mul_quotient_limb, (big(1) << 66) - 1u32);
    assert_eq!(rns.wrong_modulus_in_native_modulus, &p % &n);
    assert_eq!(compose(&rns.wrong_modulus_decomposed, 68), p);
    assert_eq!(compose(&rns.negative_wrong_modulus_decomposed, 68), (big(1) << 272) - &p);
    assert_eq!(compose(&rns.wrong_modulus_minus_one, 68), &p - 1u32);
    assert_eq!(compose(&rns.base_aux, 68), &p * 2u32);
    assert!(rns.base_aux[0] >= big(1) << 68);
    for limb in rns.base_aux.iter() {
        assert!(*limb >= big(1));
    }
}

#[test]
fn the_constant_of_a_subtraction_covers_the_bounds() {
    let p = BigUint::parse_bytes(
        b"40000000000000000000000000000000224698fc094cf91b992d30ed00000001",
        16,
    )
    .unwrap();
    let n = BigUint::parse_bytes(
        b"40000000000000000000000000000000224698fc0994a8dd8c46eb2100000001",
        16,
    )
    .unwrap();
    let rns = Rns::construct(p.clone(), n, 68).unwrap();
    let small = vec![big(1), big(1), big(1), big(1)];
    let aux = rns.make_aux(&small);
    // nothing needs to be shifted
    assert_eq!(aux.limbs, rns.base_aux);
    let max = vec![(big(1) << 68) - 1u32, (big(1) << 68) - 1u32, (big(1) << 68) - 1u32, (big(1) << 60) - 1u32];
    let aux = rns.make_aux(&max);
    for (limb, bound) in aux.limbs.iter().zip(max.iter()) {
        assert!(limb >= bound);
    }
    let value = compose(&aux.limbs, 68);
    assert_eq!(&value % &p, big(0));
    // the top limb of twice the modulus, less the one that was borrowed,
    // is 2^51 - 1: ten more bits reach 2^60 - 1
    assert_eq!(value, (&p * 2u32) << 10);
}
