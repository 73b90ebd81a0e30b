//! Scalar multiplication by windows: the scalar is cut into windows of
//! bits, each window selects a multiple of the point from a table, and the
//! accumulator is doubled between the windows. The table starts at a constant
//! point, which keeps every sum away from the identity and is subtracted at
//! the end.

use crate::big::big_from_u64;
use crate::curve::{add_formula, fe_sub, ladder_formula, third};
use crate::ecc::{doubles, number_of_windows, AssignedPoint, BaseFieldEccChip, Error};
use crate::gate::{RegionCtx, Witness};
use crate::main_gate::invertible;
use vstd::arithmetic::power2::{lemma2_to64, lemma_pow2_pos, lemma_pow2_strictly_increases, lemma_pow2_unfold, pow2};
use vstd::prelude::*;

verus! {

/// The bits of one window, least significant first.
pub struct Selector(pub Vec<Witness>);

/// The windows of a scalar, most significant first.
pub struct Windowed(pub Vec<Selector>);

/// The multiples of a point that a window selects from.
pub struct Table(pub Vec<AssignedPoint>);

/// The number that bits denote, least significant first.
pub open spec fn bits_value(bits: Seq<Witness>) -> nat
    decreases bits.len(),
{
    if bits.len() == 0 {
        0
    } else {
        bits_value(bits.drop_last()) + bits.last().val() * pow2((bits.len() - 1) as nat)
    }
}

/// The number that bits denote is below two to the number of the bits.
pub proof fn lemma_bits_value_bound(bits: Seq<Witness>)
    requires
        all_bits(bits),
    ensures
        bits_value(bits) < pow2(bits.len()),
    decreases bits.len(),
{
    lemma2_to64();
    if bits.len() > 0 {
        lemma_bits_value_bound(bits.drop_last());
        lemma_pow2_unfold(bits.len());
        let h = pow2((bits.len() - 1) as nat);
        let b = bits.last().val();
        assert(b * h <= h) by (nonlinear_arith)
            requires
                b <= 1,
        ;
    }
}

/// `2^w`, for a window size that a table can be made for.
pub fn two_to(w: usize) -> (r: usize)
    requires
        w < 32,
    ensures
        r == pow2(w as nat),
        r >= 1,
{
    let mut r: usize = 1;
    let mut i: usize = 0;
    proof {
        lemma2_to64();
    }
    while i < w
        invariant
            i <= w,
            w < 32,
            r == pow2(i as nat),
            r <= 0x8000_0000,
        decreases w - i,
    {
        proof {
            lemma_pow2_unfold((i + 1) as nat);
            if i + 1 < 31 {
                lemma_pow2_strictly_increases((i + 1) as nat, 31);
            }
            lemma2_to64();
        }
        r = r * 2;
        i = i + 1;
    }
    proof {
        lemma_pow2_pos(w as nat);
    }
    r
}

/// The sum of two points by the formula of the chord as the gadget computes
/// it: defined where the abscissas differ in the native field and their
/// difference has an inverse in the field of the curve.
pub open spec fn checked_add(a: (nat, nat), b: (nat, nat), p: nat, n: nat) -> Option<(nat, nat)> {
    if invertible(fe_sub(a.0, b.0, p) % n, n) && invertible(fe_sub(b.0, a.0, p), p) {
        Some(add_formula(a.0, a.1, b.0, b.1, p))
    } else {
        None
    }
}

/// `2 * a + b` in one step as the gadget computes it: defined where both
/// slopes are.
pub open spec fn checked_ladder(a: (nat, nat), b: (nat, nat), p: nat) -> Option<(nat, nat)> {
    let x2 = third(crate::curve::chord(a.0, a.1, b.0, b.1, p), b.0, b.1, a.0, p).0;
    if invertible(fe_sub(b.0, a.0, p), p) && invertible(fe_sub(x2, a.0, p), p) {
        Some(ladder_formula(a.0, a.1, b.0, b.1, p))
    } else {
        None
    }
}

/// Entry `i` of the table of a point: the constant with the point added
/// `i` times, where every one of the additions is defined.
pub open spec fn table_entry(aux: (nat, nat), point: (nat, nat), i: nat, p: nat, n: nat) -> Option<
    (nat, nat),
>
    decreases i,
{
    if i == 0 {
        Some(aux)
    } else {
        match table_entry(aux, point, (i - 1) as nat, p, n) {
            Some(t) => checked_add(t, point, p, n),
            None => None,
        }
    }
}

/// An entry of the table is defined only where the entries before it are.
pub proof fn lemma_table_prefix(aux: (nat, nat), point: (nat, nat), i: nat, j: nat, p: nat, n: nat)
    requires
        i <= j,
        table_entry(aux, point, j, p, n) is Some,
    ensures
        table_entry(aux, point, i, p, n) is Some,
    decreases j - i,
{
    if i < j {
        lemma_table_prefix(aux, point, i, (j - 1) as nat, p, n);
    }
}

/// The place in the table of entry `j` of a table that has been halved `i`
/// times with the bits `low`.
pub open spec fn slot(j: int, i: nat, low: nat) -> int {
    j * pow2(i) + low
}

/// The place in a table that a pair of entries goes to when a bit is
/// selected: entry `2 * j + b` after `i` halvings is entry `j` after
/// `i + 1` halvings, and it is within a table of `2^w` entries.
proof fn lemma_select_index(j: nat, b: nat, i: nat, low: nat, w: nat)
    requires
        i < w,
        b <= 1,
        low < pow2(i),
        2 * j + 1 < pow2((w - i) as nat),
    ensures
        slot((2 * j + b) as int, i, low) == slot(j as int, i + 1, low + b * pow2(i)),
        0 <= slot((2 * j + b) as int, i, low) < pow2(w),
        low + b * pow2(i) < pow2(i + 1),
{
    let h = pow2(i);
    lemma_pow2_unfold(i + 1);
    vstd::arithmetic::power2::lemma_pow2_adds(i, (w - i) as nat);
    assert((2 * j + b) * h + low == j * (2 * h) + (low + b * h)) by (nonlinear_arith);
    assert(b * h <= h) by (nonlinear_arith)
        requires
            b <= 1,
    ;
    let c = pow2((w - i) as nat);
    assert((2 * j + b) * h + low < h * c) by (nonlinear_arith)
        requires
            2 * j + b + 1 <= c,
            low < h,
    ;
    assert((2 * j + b) * h + low >= 0) by (nonlinear_arith)
        requires
            h >= 0,
    ;
}

/// Window `j` of a scalar, counted from the most significant of `m` windows
/// of `w` bits.
pub open spec fn window_value(s: nat, w: nat, m: nat, j: nat) -> nat {
    (s / pow2((w * (m - 1 - j)) as nat)) % pow2(w)
}

/// Bits that are the binary digits of `s` from the place `base` on denote
/// the window of `s` at that place.
pub proof fn lemma_window_bits(sel: Seq<Witness>, s: nat, base: nat)
    requires
        forall|k: int| 0 <= k < sel.len() ==> (#[trigger] sel[k]).val() == (s / pow2(base + k as nat)) % 2,
    ensures
        bits_value(sel) == (s / pow2(base)) % pow2(sel.len()),
    decreases sel.len(),
{
    lemma2_to64();
    let x = s / pow2(base);
    if sel.len() == 0 {
        assert(x % 1 == 0);
    } else {
        let t = (sel.len() - 1) as nat;
        let front = sel.drop_last();
        assert forall|k: int| 0 <= k < front.len() implies (#[trigger] front[k]).val() == (s / pow2(
            base + k as nat,
        )) % 2 by {
            assert(front[k] == sel[k]);
        }
        lemma_window_bits(front, s, base);
        lemma_pow2_pos(t);
        lemma_pow2_pos(base);
        lemma_pow2_unfold(t + 1);
        vstd::arithmetic::power2::lemma_pow2_adds(base, t);
        vstd::arithmetic::div_mod::lemma_mod_breakdown(x as int, pow2(t) as int, 2);
        vstd::arithmetic::div_mod::lemma_div_denominator(s as int, pow2(base) as int, pow2(t) as int);
        assert(sel.last() == sel[t as int]);
        assert(pow2(t) * 2 == pow2(t + 1));
        let b = sel.last().val();
        assert(b * pow2(t) == pow2(t) * b) by (nonlinear_arith);
    }
}

/// What one window adds to the accumulator of a multiplication: for the
/// second window, the accumulator doubled `w` times plus the entry of the
/// table; for every later window, the accumulator doubled `w - 1` times,
/// then doubled and added to in one step.
pub open spec fn mul_step(
    acc: Option<(nat, nat)>,
    entry: Option<(nat, nat)>,
    j: nat,
    w: nat,
    p: nat,
    n: nat,
) -> Option<(nat, nat)> {
    match (acc, entry) {
        (Some(a), Some(t)) => {
            if j == 1 {
                match doubles(a, w, p) {
                    Some(d) => checked_add(d, t, p, n),
                    None => None,
                }
            } else {
                match doubles(a, (w - 1) as nat, p) {
                    Some(d) => checked_ladder(d, t, p),
                    None => None,
                }
            }
        },
        _ => None,
    }
}

/// The accumulator of a multiplication after window `j`, where every step
/// up to it is defined.
pub open spec fn mul_acc(
    aux: (nat, nat),
    point: (nat, nat),
    s: nat,
    w: nat,
    m: nat,
    j: nat,
    p: nat,
    n: nat,
) -> Option<(nat, nat)>
    decreases j,
{
    let entry = table_entry(aux, point, window_value(s, w, m, j), p, n);
    if j == 0 {
        entry
    } else {
        mul_step(mul_acc(aux, point, s, w, m, (j - 1) as nat, p, n), entry, j, w, p, n)
    }
}

/// What the multiplication by windows computes, where every step of it is
/// defined: the table of the point is made in full, the accumulator runs
/// through the `m` windows of the scalar, and the constant `to_sub` is added
/// at the end.
pub open spec fn mul_result(
    aux: (nat, nat),
    to_sub: (nat, nat),
    point: (nat, nat),
    s: nat,
    w: nat,
    m: nat,
    p: nat,
    n: nat,
) -> Option<(nat, nat)> {
    if table_entry(aux, point, (pow2(w) - 1) as nat, p, n) is None {
        None
    } else if m == 0 {
        checked_add(aux, to_sub, p, n)
    } else {
        match mul_acc(aux, point, s, w, m, (m - 1) as nat, p, n) {
            Some(a) => checked_add(a, to_sub, p, n),
            None => None,
        }
    }
}

/// Every witness of the sequence is a bit.
pub open spec fn all_bits(v: Seq<Witness>) -> bool {
    forall|i: int| 0 <= i < v.len() ==> (#[trigger] v[i]).val() <= 1
}

impl BaseFieldEccChip {
    /// Every point of the sequence is valid.
    pub open spec fn all_wf(self, v: Seq<AssignedPoint>) -> bool {
        forall|i: int| 0 <= i < v.len() ==> (#[trigger] v[i]).wf(self.sys())
    }

    /// Appends zero bits until the number of bits is a multiple of the
    /// window size.
    pub fn pad(&self, ctx: &mut RegionCtx, bits: &mut Vec<Witness>, window_size: usize)
        requires
            old(ctx).wf(),
            window_size > 0,
            all_bits(old(bits)@),
        ensures
            final(ctx).native_modulus == old(ctx).native_modulus,
            final(ctx).satisfied() == old(ctx).satisfied(),
            all_bits(final(bits)@),
            final(bits)@.len() % (window_size as nat) == 0,
            final(bits)@.len() >= old(bits)@.len(),
            final(bits)@.len() < old(bits)@.len() + window_size,
            forall|i: int| 0 <= i < old(bits)@.len() ==> final(bits)@[i] == old(bits)@[i],
            forall|i: int| old(bits)@.len() <= i < final(bits)@.len() ==> final(bits)@[i].val() == 0,
    {
        let main_gate = self.main_gate();
        let ghost start = bits@.len();
        proof {
            vstd::arithmetic::div_mod::lemma_fundamental_div_mod(start as int, window_size as int);
        }
        let missing = (window_size - bits.len() % window_size) % window_size;
        let mut i: usize = 0;
        while i < missing
            invariant
                ctx.wf(),
                ctx.native_modulus == old(ctx).native_modulus,
                ctx.satisfied() == old(ctx).satisfied(),
                all_bits(bits@),
                i <= missing,
                bits@.len() == start + i,
                start == old(bits)@.len(),
                forall|j: int| 0 <= j < start ==> bits@[j] == old(bits)@[j],
                forall|j: int| start <= j < bits@.len() ==> bits@[j].val() == 0,
            decreases missing - i,
        {
            let zero = main_gate.assign_bit(ctx, &big_from_u64(0));
            bits.push(zero);
            i = i + 1;
        }
        proof {
            let (s, w, m) = (start as int, window_size as int, missing as int);
            let rem = s % w;
            if rem == 0 {
                vstd::arithmetic::div_mod::lemma_mod_self_0(w);
            } else {
                vstd::arithmetic::div_mod::lemma_small_mod((w - rem) as nat, w as nat);
                vstd::arithmetic::div_mod::lemma_mod_multiples_basic(s / w + 1, w);
                assert(s + m == (s / w + 1) * w) by (nonlinear_arith)
                    requires
                        s == w * (s / w) + rem,
                        m == w - rem,
                ;
            }
        }
    }

    /// Cuts bits, least significant first, into windows of `window_size`
    /// bits and puts the most significant window first.
    pub fn window(bits: &Vec<Witness>, window_size: usize) -> (r: Windowed)
        requires
            window_size > 0,
            all_bits(bits@),
            bits@.len() % (window_size as nat) == 0,
        ensures
            r.0@.len() == bits@.len() / (window_size as nat),
            forall|j: int|
                0 <= j < r.0@.len() ==> (#[trigger] r.0@[j]).0@.len() == window_size && all_bits(
                    r.0@[j].0@,
                ),
            forall|j: int, k: int|
                0 <= j < r.0@.len() && 0 <= k < window_size ==> (#[trigger] r.0@[j].0@[k]) == bits@[(
                r.0@.len() - 1 - j) * window_size + k],
    {
        let count = bits.len() / window_size;
        proof {
            vstd::arithmetic::div_mod::lemma_fundamental_div_mod(
                bits@.len() as int,
                window_size as int,
            );
            assert(count * window_size == window_size * count) by (nonlinear_arith);
        }
        let mut windows: Vec<Selector> = Vec::new();
        let mut j: usize = 0;
        let mut end: usize = bits.len();
        while j < count
            invariant
                j <= count,
                window_size > 0,
                count * window_size == bits@.len(),
                end == (count - j) * window_size,
                bits@.len() <= usize::MAX,
                all_bits(bits@),
                windows@.len() == j,
                forall|i: int|
                    0 <= i < j ==> (#[trigger] windows@[i]).0@.len() == window_size && all_bits(
                        windows@[i].0@,
                    ),
                forall|i: int, k: int|
                    0 <= i < j && 0 <= k < window_size ==> (#[trigger] windows@[i].0@[k]) == bits@[(
                    count - 1 - i) * window_size + k],
            decreases count - j,
        {
            proof {
                let (c, w, ji) = (count as int, window_size as int, j as int);
                assert((c - ji) * w == (c - 1 - ji) * w + w) by (nonlinear_arith);
                assert((c - 1 - ji) * w >= 0) by (nonlinear_arith)
                    requires
                        ji < c,
                        w > 0,
                ;
                assert((c - ji) * w <= c * w) by (nonlinear_arith)
                    requires
                        0 <= ji,
                        w > 0,
                ;
            }
            let start = end - window_size;
            let mut selector: Vec<Witness> = Vec::new();
            let mut k: usize = 0;
            while k < window_size
                invariant
                    k <= window_size,
                    start + window_size <= bits@.len(),
                    bits@.len() <= usize::MAX,
                    all_bits(bits@),
                    selector@.len() == k,
                    forall|i: int| 0 <= i < k ==> (#[trigger] selector@[i]) == bits@[start + i],
                decreases window_size - k,
            {
                selector.push(bits[start + k].copy());
                k = k + 1;
            }
            proof {
                assert(all_bits(selector@)) by {
                    assert forall|i: int| 0 <= i < selector@.len() implies (#[trigger] selector@[i]).val()
                        <= 1 by {
                        assert(selector@[i] == bits@[start + i]);
                    }
                }
            }
            windows.push(Selector(selector));
            end = start;
            j = j + 1;
        }
        Windowed(windows)
    }

    /// The table of a point: the constant, the constant plus the point, the
    /// constant plus twice the point, and so on for every value of a window.
    /// Where every entry is defined, the circuit stays as satisfied as it was.
    pub fn make_incremental_table(
        &self,
        ctx: &mut RegionCtx,
        aux: &AssignedPoint,
        point: &AssignedPoint,
        window_size: usize,
    ) -> (r: Table)
        requires
            self.wf(),
            self.fits(*old(ctx)),
            aux.wf(self.sys()),
            point.wf(self.sys()),
            window_size < 32,
        ensures
            final(ctx).native_modulus == old(ctx).native_modulus,
            final(ctx).satisfied() ==> old(ctx).satisfied(),
            r.0@.len() == pow2(window_size as nat),
            self.all_wf(r.0@),
            table_entry(
                aux.coords(self.sys()),
                point.coords(self.sys()),
                (r.0@.len() - 1) as nat,
                self.p(),
                self.sys().n(),
            ) is Some ==> final(ctx).satisfied() == old(ctx).satisfied() && forall|i: int|
                0 <= i < r.0@.len() ==> Some((#[trigger] r.0@[i]).coords(self.sys())) == table_entry(
                    aux.coords(self.sys()),
                    point.coords(self.sys()),
                    i as nat,
                    self.p(),
                    self.sys().n(),
                ),
    {
        let table_size: usize = two_to(window_size);
        let ghost a = aux.coords(self.sys());
        let ghost q = point.coords(self.sys());
        let ghost p = self.p();
        let ghost n = self.sys().n();
        let mut table: Vec<AssignedPoint> = Vec::new();
        table.push(aux.copy());
        while table.len() < table_size
            invariant
                self.wf(),
                self.fits(*ctx),
                ctx.native_modulus == old(ctx).native_modulus,
                ctx.satisfied() ==> old(ctx).satisfied(),
                point.wf(self.sys()),
                a == aux.coords(self.sys()),
                q == point.coords(self.sys()),
                p == self.p(),
                n == self.sys().n(),
                1 <= table@.len() <= table_size,
                self.all_wf(table@),
                table_entry(a, q, (table@.len() - 1) as nat, p, n) is Some ==> ctx.satisfied()
                    == old(ctx).satisfied() && forall|i: int|
                    0 <= i < table@.len() ==> Some((#[trigger] table@[i]).coords(self.sys()))
                        == table_entry(a, q, i as nat, p, n),
            decreases table_size - table@.len(),
        {
            let ghost k = table@.len();
            proof {
                if table_entry(a, q, k as nat, p, n) is Some {
                    lemma_table_prefix(a, q, (k - 1) as nat, k as nat, p, n);
                }
            }
            let next = self.add(ctx, &table[table.len() - 1], point);
            table.push(next);
        }
        Table(table)
    }

    /// The entry of a table that the bits of a window select: each bit, from
    /// the least significant on, halves the table by selecting the odd or the
    /// even entries. The result is the entry whose number the bits denote.
    pub fn select_multi(&self, ctx: &mut RegionCtx, selector: &Selector, table: &Vec<AssignedPoint>) -> (r:
        AssignedPoint)
        requires
            self.wf(),
            self.fits(*old(ctx)),
            all_bits(selector.0@),
            table@.len() == pow2(selector.0@.len()),
            self.all_wf(table@),
        ensures
            final(ctx).native_modulus == old(ctx).native_modulus,
            final(ctx).satisfied() == old(ctx).satisfied(),
            r.wf(self.sys()),
            bits_value(selector.0@) < table@.len(),
            r.coords(self.sys()) == table@[bits_value(selector.0@) as int].coords(self.sys()),
    {
        let ghost w = selector.0@.len();
        let mut reducer: Vec<AssignedPoint> = Vec::new();
        let mut c: usize = 0;
        while c < table.len()
            invariant
                c <= table.len(),
                reducer@.len() == c,
                self.all_wf(table@),
                self.all_wf(reducer@),
                forall|e: int|
                    0 <= e < c ==> (#[trigger] reducer@[e]).coords(self.sys()) == table@[e].coords(
                        self.sys(),
                    ),
            decreases table.len() - c,
        {
            reducer.push(table[c].copy());
            c = c + 1;
        }
        let mut i: usize = 0;
        let ghost mut low: nat = 0;
        proof {
            lemma2_to64();
            assert(selector.0@.take(0) =~= Seq::<Witness>::empty());
            assert forall|e: int| 0 <= e < reducer@.len() implies #[trigger] slot(e, 0, low)
                == e by {
                assert(e * 1 == e) by (nonlinear_arith);
            }
            assert forall|e: int| 0 <= e < reducer@.len() implies (#[trigger] reducer@[e]).coords(
                self.sys(),
            ) == table@[slot(e, 0, low)].coords(self.sys()) by {
                assert(slot(e, 0, low) == e);
            }
        }
        while i < selector.0.len()
            invariant
                self.wf(),
                self.fits(*ctx),
                ctx.native_modulus == old(ctx).native_modulus,
                ctx.satisfied() == old(ctx).satisfied(),
                all_bits(selector.0@),
                w == selector.0@.len(),
                table@.len() == pow2(w),
                i <= w,
                reducer@.len() == pow2((w - i) as nat),
                self.all_wf(reducer@),
                low == bits_value(selector.0@.take(i as int)),
                low < pow2(i as nat),
                self.halved(reducer@, table@, i as nat, low),
            decreases w - i,
        {
            proof {
                lemma_pow2_unfold((w - i) as nat);
            }
            let n = reducer.len() / 2;
            let bit = &selector.0[i];
            let ghost b = bit.val();
            let ghost next_low = low + b * pow2(i as nat);
            let mut next: Vec<AssignedPoint> = Vec::new();
            let mut j: usize = 0;
            while j < n
                invariant
                    self.wf(),
                    self.fits(*ctx),
                    ctx.native_modulus == old(ctx).native_modulus,
                    ctx.satisfied() == old(ctx).satisfied(),
                    bit.val() == b,
                    b <= 1,
                    i < w,
                    table@.len() == pow2(w),
                    reducer@.len() == pow2((w - i) as nat),
                    reducer@.len() == 2 * n,
                    reducer@.len() <= usize::MAX,
                    low < pow2(i as nat),
                    next_low == low + b * pow2(i as nat),
                    j <= n,
                    next@.len() == j,
                    self.all_wf(reducer@),
                    self.all_wf(next@),
                    self.halved(reducer@, table@, i as nat, low),
                    self.halved(next@, table@, (i + 1) as nat, next_low),
                decreases n - j,
            {
                let k = 2 * j;
                proof {
                    lemma_select_index(j as nat, b, i as nat, low, w);
                    lemma_select_index(j as nat, 0, i as nat, low, w);
                    lemma_select_index(j as nat, 1, i as nat, low, w);
                    assert(reducer@[k as int].coords(self.sys()) == table@[slot(
                        k as int,
                        i as nat,
                        low,
                    )].coords(self.sys()));
                    assert(reducer@[k + 1].coords(self.sys()) == table@[slot(
                        k + 1,
                        i as nat,
                        low,
                    )].coords(self.sys()));
                }
                let selected = self.select(ctx, bit, &reducer[k + 1], &reducer[k]);
                let ghost before = next@;
                next.push(selected);
                proof {
                    assert forall|e: int| 0 <= e < next@.len() implies 0 <= #[trigger] slot(
                        e,
                        (i + 1) as nat,
                        next_low,
                    ) < table@.len() by {
                        if e < j {
                            assert(next@[e] == before[e]);
                        }
                    }
                    assert forall|e: int| 0 <= e < next@.len() implies (#[trigger] next@[e]).coords(
                        self.sys(),
                    ) == table@[slot(e, (i + 1) as nat, next_low)].coords(self.sys()) by {
                        if e < j {
                            assert(next@[e] == before[e]);
                        } else {
                            assert(next@[e] == selected);
                            assert(slot(e, (i + 1) as nat, next_low) == slot(
                                (2 * j + b) as int,
                                i as nat,
                                low,
                            ));
                            if b == 1 {
                                assert(selected.coords(self.sys()) == reducer@[k + 1].coords(
                                    self.sys(),
                                ));
                            } else {
                                assert(selected.coords(self.sys()) == reducer@[k as int].coords(
                                    self.sys(),
                                ));
                            }
                        }
                    }
                    assert(self.halved(next@, table@, (i + 1) as nat, next_low));
                }
                j = j + 1;
            }
            reducer = next;
            proof {
                assert(selector.0@.take(i + 1).drop_last() =~= selector.0@.take(i as int));
                assert(selector.0@.take(i + 1).last() == selector.0@[i as int]);
                lemma_pow2_unfold((i + 1) as nat);
                let h = pow2(i as nat);
                assert(b * h <= h) by (nonlinear_arith)
                    requires
                        b <= 1,
                ;
                low = next_low;
            }
            i = i + 1;
        }
        proof {
            lemma2_to64();
            assert(selector.0@.take(w as int) =~= selector.0@);
            lemma_pow2_pos(0);
            assert(slot(0, w, low) == low) by {
                assert(0 * pow2(w) == 0) by (nonlinear_arith);
            }
            assert(reducer@[0].coords(self.sys()) == table@[slot(0, w, low)].coords(self.sys()));
        }
        reducer[0].copy()
    }

    /// What a table that has been halved `i` times with the bits `low`
    /// holds: entry `e` is the entry of the whole table at the place
    /// `e * 2^i + low`.
    pub open spec fn halved(
        self,
        reducer: Seq<AssignedPoint>,
        table: Seq<AssignedPoint>,
        i: nat,
        low: nat,
    ) -> bool {
        &&& forall|e: int| 0 <= e < reducer.len() ==> 0 <= #[trigger] slot(e, i, low) < table.len()
        &&& forall|e: int|
            0 <= e < reducer.len() ==> (#[trigger] reducer[e]).coords(self.sys()) == table[slot(
                e,
                i,
                low,
            )].coords(self.sys())
    }

    /// The bits of a scalar in windows of `window_size` bits, most
    /// significant window first: the scalar is cut into the bits of the
    /// scalar field, zero bits are appended up to a multiple of the window
    /// size, and the bits are cut into windows.
    pub fn scalar_windows(&self, ctx: &mut RegionCtx, scalar: &Witness, window_size: usize) -> (r:
        Windowed)
        requires
            self.wf(),
            self.fits(*old(ctx)),
            scalar.val() < old(ctx).modulus(),
            window_size > 0,
        ensures
            final(ctx).native_modulus == old(ctx).native_modulus,
            final(ctx).satisfied() == old(ctx).satisfied(),
            r.0@.len() == number_of_windows(self.num_bits as nat, window_size as nat),
            forall|j: int|
                0 <= j < r.0@.len() ==> (#[trigger] r.0@[j]).0@.len() == window_size && all_bits(
                    r.0@[j].0@,
                ),
            forall|j: int|
                0 <= j < r.0@.len() ==> bits_value((#[trigger] r.0@[j]).0@) == window_value(
                    scalar.val(),
                    window_size as nat,
                    r.0@.len(),
                    j as nat,
                ),
    {
        let main_gate = self.main_gate();
        let ghost s = scalar.val();
        let ghost w = window_size as nat;
        proof {
            crate::limbs::lemma_bit_length_bounds(self.sys().n());
        }
        let mut bits = main_gate.to_bits(ctx, scalar, self.num_bits);
        proof {
            assert(all_bits(bits@)) by {
                assert forall|i: int| 0 <= i < bits@.len() implies (#[trigger] bits@[i]).val()
                    <= 1 by {
                    vstd::arithmetic::div_mod::lemma_mod_bound((s / pow2(i as nat)) as int, 2);
                }
            }
        }
        let ghost unpadded = bits@;
        self.pad(ctx, &mut bits, window_size);
        let ghost m = bits@.len() / w;
        proof {
            let (len, wi, nb) = (bits@.len() as int, window_size as int, self.num_bits as int);
            vstd::arithmetic::div_mod::lemma_fundamental_div_mod(len, wi);
            vstd::arithmetic::div_mod::lemma_fundamental_div_mod(nb, wi);
            let c = len / wi;
            let q = nb / wi;
            assert(c * wi == wi * c) by (nonlinear_arith);
            // the padded length is the least multiple of the window size that
            // holds the bits
            if nb % wi == 0 {
                assert(c == q) by (nonlinear_arith)
                    requires
                        len == wi * c,
                        nb == wi * q,
                        nb <= len < nb + wi,
                        wi > 0,
                ;
            } else {
                assert(c == q + 1) by (nonlinear_arith)
                    requires
                        len == wi * c,
                        nb == wi * q + nb % wi,
                        0 < nb % wi < wi,
                        nb <= len < nb + wi,
                        wi > 0,
                ;
            }
            // every bit, the appended ones too, is a binary digit of the scalar
            assert forall|i: int| 0 <= i < bits@.len() implies (#[trigger] bits@[i]).val() == (s
                / pow2(i as nat)) % 2 by {
                if i < unpadded.len() {
                    assert(bits@[i] == unpadded[i]);
                } else {
                    if (self.num_bits as nat) < i as nat {
                        lemma_pow2_strictly_increases(self.num_bits as nat, i as nat);
                    }
                    vstd::arithmetic::div_mod::lemma_basic_div(s as int, pow2(i as nat) as int);
                }
            }
        }
        let r = Self::window(&bits, window_size);
        proof {
            assert forall|j: int| 0 <= j < r.0@.len() implies bits_value((#[trigger] r.0@[j]).0@)
                == window_value(s, w, r.0@.len(), j as nat) by {
                let sel = r.0@[j].0@;
                let base = (w * (m - 1 - j)) as nat;
                assert((m - 1 - j) * w == w * (m - 1 - j)) by (nonlinear_arith);
                assert(w * (m - 1 - j) >= 0) by (nonlinear_arith)
                    requires
                        j < m,
                        w >= 0,
                ;
                assert(base + w <= bits@.len()) by (nonlinear_arith)
                    requires
                        base == w * (m - 1 - j),
                        bits@.len() == m * w,
                        0 <= j < m,
                ;
                assert forall|k: int| 0 <= k < sel.len() implies (#[trigger] sel[k]).val() == (s
                    / pow2(base + k as nat)) % 2 by {
                    assert(r.0@[j].0@[k] == bits@[(m - 1 - j) * w + k]);
                }
                lemma_window_bits(sel, s, base);
            }
        }
        r
    }

    /// `[scalar]point` by windows of `window_size` bits. Fails, and leaves
    /// the circuit as it is, where the generator of the constants is not
    /// assigned or the constant of this window size for one pair is not
    /// registered. Where every step is defined, the circuit stays as
    /// satisfied as it was and the result is what [`mul_result`] says.
    pub fn mul(
        &self,
        ctx: &mut RegionCtx,
        point: &AssignedPoint,
        scalar: &Witness,
        window_size: usize,
    ) -> (r: Result<AssignedPoint, Error>)
        requires
            self.wf(),
            self.fits(*old(ctx)),
            point.wf(self.sys()),
            scalar.val() < old(ctx).modulus(),
            0 < window_size < 32,
        ensures
            final(ctx).native_modulus == old(ctx).native_modulus,
            final(ctx).satisfied() ==> old(ctx).satisfied(),
            r is Ok <==> self.aux_generator is Some && self.has_aux(window_size, 1),
            r is Err ==> *final(ctx) == *old(ctx),
            r matches Ok(res) ==> res.wf(self.sys()) && (mul_result(
                self.aux_generator.unwrap().assigned.coords(self.sys()),
                self.aux_registry@[self.aux_index(window_size, 1)].point.coords(self.sys()),
                point.coords(self.sys()),
                scalar.val(),
                window_size as nat,
                number_of_windows(self.num_bits as nat, window_size as nat),
                self.p(),
                self.sys().n(),
            ) matches Some(c) ==> final(ctx).satisfied() == old(ctx).satisfied() && res.coords(
                self.sys(),
            ) == c),
    {
        let aux = match self.get_mul_aux(window_size, 1) {
            Ok(aux) => aux,
            Err(e) => {
                return Err(e);
            },
        };
        let ghost a = aux.to_add.coords(self.sys());
        let ghost q = point.coords(self.sys());
        let ghost sub = aux.to_sub.coords(self.sys());
        let ghost s = scalar.val();
        let ghost w = window_size as nat;
        let ghost p = self.p();
        let ghost n = self.sys().n();
        let windowed = self.scalar_windows(ctx, scalar, window_size);
        let ghost m = windowed.0@.len();
        let table = self.make_incremental_table(ctx, &aux.to_add, point, window_size);
        let ghost complete = table_entry(a, q, (pow2(w) - 1) as nat, p, n) is Some;
        proof {
            lemma_pow2_pos(w);
        }
        if windowed.0.len() == 0 {
            // a scalar of no bits is zero: the constant is added and taken away
            let acc = table.0[0].copy();
            return Ok(self.add(ctx, &acc, &aux.to_sub));
        }
        let mut acc = self.select_multi(ctx, &windowed.0[0], &table.0);
        proof {
            if complete {
                lemma_table_prefix(a, q, window_value(s, w, m, 0), (pow2(w) - 1) as nat, p, n);
            }
        }
        let mut i: usize = 1;
        while i < windowed.0.len()
            invariant
                self.wf(),
                self.fits(*ctx),
                ctx.native_modulus == old(ctx).native_modulus,
                ctx.satisfied() ==> old(ctx).satisfied(),
                1 <= i <= windowed.0@.len(),
                m == windowed.0@.len(),
                0 < window_size < 32,
                w == window_size,
                p == self.p(),
                n == self.sys().n(),
                acc.wf(self.sys()),
                table.0@.len() == pow2(w),
                self.all_wf(table.0@),
                complete == (table_entry(a, q, (pow2(w) - 1) as nat, p, n) is Some),
                complete ==> forall|e: int|
                    0 <= e < table.0@.len() ==> Some((#[trigger] table.0@[e]).coords(self.sys()))
                        == table_entry(a, q, e as nat, p, n),
                forall|j: int|
                    0 <= j < windowed.0@.len() ==> all_bits((#[trigger] windowed.0@[j]).0@)
                        && windowed.0@[j].0@.len() == window_size,
                forall|j: int|
                    0 <= j < windowed.0@.len() ==> bits_value((#[trigger] windowed.0@[j]).0@)
                        == window_value(s, w, m, j as nat),
                complete ==> (mul_acc(a, q, s, w, m, (i - 1) as nat, p, n) matches Some(c)
                    ==> ctx.satisfied() == old(ctx).satisfied() && acc.coords(self.sys()) == c),
            decreases windowed.0@.len() - i,
        {
            let ghost before = mul_acc(a, q, s, w, m, (i - 1) as nat, p, n);
            let ghost v = window_value(s, w, m, i as nat);
            proof {
                assert(bits_value(windowed.0@[i as int].0@) == v);
                lemma_bits_value_bound(windowed.0@[i as int].0@);
                if complete {
                    lemma_table_prefix(a, q, v, (pow2(w) - 1) as nat, p, n);
                    assert(Some(table.0@[v as int].coords(self.sys())) == table_entry(a, q, v, p, n));
                }
            }
            if i == 1 {
                acc = self.double_n(ctx, &acc, window_size);
                let to_add = self.select_multi(ctx, &windowed.0[i], &table.0);
                acc = self.add(ctx, &acc, &to_add);
            } else {
                acc = self.double_n(ctx, &acc, window_size - 1);
                let to_add = self.select_multi(ctx, &windowed.0[i], &table.0);
                acc = self.ladder(ctx, &acc, &to_add);
            }
            i = i + 1;
        }
        Ok(self.add(ctx, &acc, &aux.to_sub))
    }
}

} // verus!
