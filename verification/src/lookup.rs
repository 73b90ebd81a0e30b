//! The lookup gate as a plan: which rows the table of ranges holds, and in
//! which rows and columns the witnesses that are looked up are placed.

use crate::ecc::Error;
use crate::gate::Witness;
use vstd::arithmetic::power2::{lemma2_to64, lemma_pow2_strictly_increases, lemma_pow2_unfold, pow2};
use vstd::prelude::*;

verus! {

/// The tag of one bit length of the table.
#[derive(Clone, Copy, Debug)]
pub struct TagEntry {
    pub bit_len: usize,
    pub tag: usize,
}

/// One row of the table: a value with the tag of its bit length.
#[derive(Clone, Copy, Debug, PartialEq, Eq)]
pub struct TableRow {
    pub tag: u64,
    pub value: u64,
}

/// The witnesses that are looked up with one bit length.
pub struct LookupGroup {
    pub bit_len: usize,
    pub witnesses: Vec<Witness>,
}

/// One row of looked-up witnesses: a tag and one cell for each column. A
/// cell without a witness holds the dummy, which is zero.
pub struct AdviceRow {
    pub tag: usize,
    pub cells: Vec<Option<Witness>>,
}

/// One cell placed by [`LookupGate::assign`].
pub struct Placement {
    pub column: usize,
    pub witness: Witness,
}

/// The lookup gate of `width` columns, with the tags of the bit lengths it
/// has a table for.
pub struct LookupGate {
    pub width: usize,
    pub bit_len_tag: Vec<TagEntry>,
}

/// The rows of the table for one tag: every value below `count`.
pub open spec fn range_rows(tag: u64, count: nat) -> Seq<TableRow> {
    Seq::new(count, |v: int| TableRow { tag, value: v as u64 })
}

/// The rows of the whole table: the row of zeros, then for each bit length
/// in turn every value of that many bits with the tag of the bit length.
pub open spec fn table_rows(entries: Seq<TagEntry>) -> Seq<TableRow>
    decreases entries.len(),
{
    if entries.len() == 0 {
        seq![TableRow { tag: 0, value: 0 }]
    } else {
        table_rows(entries.drop_last()) + range_rows(
            entries.last().tag as u64,
            pow2(entries.last().bit_len as nat),
        )
    }
}

/// The tag of a bit length: that of the first entry for it.
pub open spec fn tag_of(entries: Seq<TagEntry>, bit_len: usize) -> Option<usize>
    decreases entries.len(),
{
    if entries.len() == 0 {
        None
    } else if entries[0].bit_len == bit_len {
        Some(entries[0].tag)
    } else {
        tag_of(entries.drop_first(), bit_len)
    }
}

/// The cells of row `k` of a group: the witnesses `k * width` to
/// `k * width + width - 1`, and the dummy where the group has ended.
pub open spec fn row_cells(witnesses: Seq<Witness>, k: int, width: int) -> Seq<Option<Witness>> {
    Seq::new(
        width as nat,
        |i: int|
            if k * width + i < witnesses.len() {
                Some(witnesses[k * width + i])
            } else {
                None
            },
    )
}

/// The number of rows that a group of `len` witnesses takes.
pub open spec fn rows_of(len: nat, width: nat) -> nat {
    if len % width == 0 {
        len / width
    } else {
        len / width + 1
    }
}

impl LookupGate {
    /// The lookup is usable: it has a column, and its bit lengths are small
    /// enough for each of their values to get a row.
    pub open spec fn wf(self) -> bool {
        &&& self.width > 0
        &&& forall|i: int|
            0 <= i < self.bit_len_tag@.len() ==> (#[trigger] self.bit_len_tag@[i]).bit_len < 32
    }

    /// Places a witness: in the column `column` modulo the width.
    pub fn assign(&self, column: usize, witness: &Witness) -> (r: Placement)
        requires
            self.width > 0,
        ensures
            r.column == column % self.width,
            r.witness == *witness,
    {
        Placement { column: column % self.width, witness: witness.copy() }
    }

    /// The tag of a bit length, if the table has it.
    pub fn tag(&self, bit_len: usize) -> (r: Option<usize>)
        ensures
            r == tag_of(self.bit_len_tag@, bit_len),
    {
        let mut i: usize = 0;
        proof {
            assert(self.bit_len_tag@.skip(0) =~= self.bit_len_tag@);
        }
        while i < self.bit_len_tag.len()
            invariant
                i <= self.bit_len_tag.len(),
                tag_of(self.bit_len_tag@, bit_len) == tag_of(
                    self.bit_len_tag@.skip(i as int),
                    bit_len,
                ),
            decreases self.bit_len_tag.len() - i,
        {
            proof {
                assert(self.bit_len_tag@.skip(i as int).drop_first() =~= self.bit_len_tag@.skip(
                    i + 1,
                ));
            }
            if self.bit_len_tag[i].bit_len == bit_len {
                return Some(self.bit_len_tag[i].tag);
            }
            i = i + 1;
        }
        None
    }

    /// The rows of the table of ranges.
    pub fn layout_table(&self) -> (table: Vec<TableRow>)
        requires
            self.wf(),
        ensures
            table@ == table_rows(self.bit_len_tag@),
    {
        let mut table: Vec<TableRow> = Vec::new();
        table.push(TableRow { tag: 0, value: 0 });
        let mut e: usize = 0;
        proof {
            assert(self.bit_len_tag@.take(0) =~= Seq::<TagEntry>::empty());
            assert(table@ =~= table_rows(self.bit_len_tag@.take(0)));
        }
        while e < self.bit_len_tag.len()
            invariant
                self.wf(),
                e <= self.bit_len_tag.len(),
                table@ == table_rows(self.bit_len_tag@.take(e as int)),
            decreases self.bit_len_tag.len() - e,
        {
            let entry = self.bit_len_tag[e];
            let tag = entry.tag as u64;
            // the number of values of this bit length
            let mut count: u64 = 1;
            let mut b: usize = 0;
            proof {
                lemma2_to64();
            }
            while b < entry.bit_len
                invariant
                    b <= entry.bit_len,
                    entry.bit_len < 32,
                    count == pow2(b as nat),
                    count <= 0x8000_0000,
                decreases entry.bit_len - b,
            {
                proof {
                    lemma_pow2_unfold((b + 1) as nat);
                    if b + 1 < 31 {
                        lemma_pow2_strictly_increases((b + 1) as nat, 31);
                    }
                    lemma2_to64();
                }
                count = count * 2;
                b = b + 1;
            }
            let ghost before = table@;
            let mut value: u64 = 0;
            while value < count
                invariant
                    value <= count,
                    table@ == before + range_rows(tag, value as nat),
                decreases count - value,
            {
                table.push(TableRow { tag, value });
                proof {
                    assert(range_rows(tag, (value + 1) as nat) =~= range_rows(tag, value as nat).push(
                        TableRow { tag, value },
                    ));
                    assert(table@ =~= before + range_rows(tag, (value + 1) as nat));
                }
                value = value + 1;
            }
            proof {
                let next = self.bit_len_tag@.take(e + 1);
                assert(next.drop_last() =~= self.bit_len_tag@.take(e as int));
                assert(next.last() == entry);
            }
            e = e + 1;
        }
        proof {
            assert(self.bit_len_tag@.take(self.bit_len_tag.len() as int) =~= self.bit_len_tag@);
        }
        table
    }

    /// The rows of one group of witnesses: the witnesses in rows of
    /// `width` cells, the last row filled up with the dummy.
    pub fn group_rows(&self, tag: usize, witnesses: &Vec<Witness>) -> (rows: Vec<AdviceRow>)
        requires
            self.width > 0,
        ensures
            rows@.len() == rows_of(witnesses@.len(), self.width as nat),
            forall|k: int|
                0 <= k < rows@.len() ==> (#[trigger] rows@[k]).tag == tag && rows@[k].cells@
                    == row_cells(witnesses@, k, self.width as int),
    {
        let width = self.width;
        let len = witnesses.len();
        let full = len / width;
        proof {
            vstd::arithmetic::div_mod::lemma_fundamental_div_mod(len as int, width as int);
            let (l, w, f) = (len as int, width as int, full as int);
            assert(f <= l) by (nonlinear_arith)
                requires
                    l == w * f + l % w,
                    l % w >= 0,
                    w >= 1,
                    f >= 0,
            ;
            if l % w != 0 {
                assert(w >= 2) by {
                    if w == 1 {
                        vstd::arithmetic::div_mod::lemma_mod_division_less_than_divisor(l, w);
                    }
                }
                assert(f + 1 <= l) by (nonlinear_arith)
                    requires
                        w * f < l,
                        w >= 2,
                        f >= 0,
                ;
            }
        }
        let count = if len % width != 0 {
            full + 1
        } else {
            full
        };
        let mut rows: Vec<AdviceRow> = Vec::new();
        let mut k: usize = 0;
        while k < count
            invariant
                width == self.width,
                width > 0,
                len == witnesses@.len(),
                full == len / width,
                len == width * full + len % width,
                count <= full + 1,
                count == rows_of(len as nat, width as nat),
                k <= count,
                rows@.len() == k,
                forall|j: int|
                    0 <= j < k ==> (#[trigger] rows@[j]).tag == tag && rows@[j].cells@ == row_cells(
                        witnesses@,
                        j,
                        width as int,
                    ),
            decreases count - k,
        {
            proof {
                let (l, w, f, ki) = (len as int, width as int, full as int, k as int);
                assert(ki * w <= l) by (nonlinear_arith)
                    requires
                        l == w * f + l % w,
                        l % w >= 0,
                        ki <= f,
                        w >= 1,
                        ki >= 0,
                ;
            }
            let base = k * width;
            let mut cells: Vec<Option<Witness>> = Vec::new();
            let mut i: usize = 0;
            while i < width
                invariant
                    i <= width,
                    base == k * width,
                    base <= len,
                    len == witnesses@.len(),
                    cells@.len() == i,
                    forall|c: int|
                        0 <= c < i ==> (#[trigger] cells@[c]) == (if k * width + c
                            < witnesses@.len() {
                            Some(witnesses@[k * width + c])
                        } else {
                            None::<Witness>
                        }),
                decreases width - i,
            {
                let cell = if i < len - base {
                    Some(witnesses[base + i].copy())
                } else {
                    None
                };
                cells.push(cell);
                i = i + 1;
            }
            proof {
                assert(cells@ =~= row_cells(witnesses@, k as int, width as int));
            }
            rows.push(AdviceRow { tag, cells });
            k = k + 1;
        }
        rows
    }

    /// The rows of all looked-up witnesses: for each group in turn its tag
    /// and its witnesses in rows of `width` cells. Fails where the table has
    /// no tag for the bit length of a group.
    pub fn layout_advice(&self, lookups: &Vec<LookupGroup>) -> (r: Result<Vec<AdviceRow>, Error>)
        requires
            self.width > 0,
        ensures
            r is Ok <==> forall|g: int|
                0 <= g < lookups@.len() ==> tag_of(
                    self.bit_len_tag@,
                    (#[trigger] lookups@[g]).bit_len,
                ) is Some,
            r matches Ok(rows) ==> rows@.len() == total_rows(lookups@, self.width as nat)
                && forall|g: int, k: int|
                0 <= g < lookups@.len() && 0 <= k < rows_of(
                    lookups@[g].witnesses@.len(),
                    self.width as nat,
                ) ==> ({
                    let row = #[trigger] rows@[total_rows(lookups@.take(g), self.width as nat) + k];
                    &&& Some(row.tag) == tag_of(self.bit_len_tag@, lookups@[g].bit_len)
                    &&& row.cells@ == row_cells(lookups@[g].witnesses@, k, self.width as int)
                }),
    {
        let mut rows: Vec<AdviceRow> = Vec::new();
        let mut g: usize = 0;
        proof {
            assert(lookups@.take(0) =~= Seq::<LookupGroup>::empty());
        }
        while g < lookups.len()
            invariant
                self.width > 0,
                g <= lookups.len(),
                rows@.len() == total_rows(lookups@.take(g as int), self.width as nat),
                forall|h: int|
                    0 <= h < g ==> tag_of(self.bit_len_tag@, (#[trigger] lookups@[h]).bit_len) is Some,
                forall|h: int, k: int|
                    0 <= h < g && 0 <= k < rows_of(
                        lookups@[h].witnesses@.len(),
                        self.width as nat,
                    ) ==> ({
                        let row = #[trigger] rows@[total_rows(lookups@.take(h), self.width as nat) + k];
                        &&& Some(row.tag) == tag_of(self.bit_len_tag@, lookups@[h].bit_len)
                        &&& row.cells@ == row_cells(lookups@[h].witnesses@, k, self.width as int)
                    }),
            decreases lookups.len() - g,
        {
            let group = &lookups[g];
            let tag = match self.tag(group.bit_len) {
                Some(tag) => tag,
                None => {
                    return Err(Error::Synthesis);
                },
            };
            let mut group_rows = self.group_rows(tag, &group.witnesses);
            let ghost before = rows@;
            let ghost added = group_rows@;
            proof {
                let next = lookups@.take(g + 1);
                assert(next.drop_last() =~= lookups@.take(g as int));
                assert(next.last() == lookups@[g as int]);
                assert forall|h: int| 0 <= h <= g implies total_rows(
                    lookups@.take(h),
                    self.width as nat,
                ) <= before.len() by {
                    lemma_total_rows_monotonic(lookups@, h, g as int, self.width as nat);
                }
                assert forall|h: int| 0 <= h < g implies total_rows(
                    lookups@.take(h),
                    self.width as nat,
                ) + rows_of(lookups@[h].witnesses@.len(), self.width as nat) <= before.len() by {
                    let t = lookups@.take(h + 1);
                    assert(t.drop_last() =~= lookups@.take(h));
                    assert(t.last() == lookups@[h]);
                    lemma_total_rows_monotonic(lookups@, h + 1, g as int, self.width as nat);
                }
            }
            rows.append(&mut group_rows);
            proof {
                assert(rows@ =~= before + added);
            }
            g = g + 1;
        }
        proof {
            assert(lookups@.take(lookups.len() as int) =~= lookups@);
        }
        Ok(rows)
    }

    /// The whole plan: the rows of the table, then the rows of the
    /// looked-up witnesses. Fails where the table has no tag for the bit
    /// length of a group of witnesses.
    pub fn layout(&self, lookups: &Vec<LookupGroup>) -> (r: Result<(Vec<TableRow>, Vec<AdviceRow>), Error>)
        requires
            self.wf(),
        ensures
            r is Ok <==> forall|g: int|
                0 <= g < lookups@.len() ==> tag_of(
                    self.bit_len_tag@,
                    (#[trigger] lookups@[g]).bit_len,
                ) is Some,
            r matches Ok(plan) ==> plan.0@ == table_rows(self.bit_len_tag@) && plan.1@.len()
                == total_rows(lookups@, self.width as nat),
    {
        let table = self.layout_table();
        match self.layout_advice(lookups) {
            Ok(rows) => Ok((table, rows)),
            Err(e) => Err(e),
        }
    }
}

/// The number of rows that groups of witnesses take together.
pub open spec fn total_rows(groups: Seq<LookupGroup>, width: nat) -> nat
    decreases groups.len(),
{
    if groups.len() == 0 {
        0
    } else {
        total_rows(groups.drop_last(), width) + rows_of(groups.last().witnesses@.len(), width)
    }
}

/// More groups take at least as many rows.
pub proof fn lemma_total_rows_monotonic(groups: Seq<LookupGroup>, h: int, g: int, width: nat)
    requires
        0 <= h <= g <= groups.len(),
    ensures
        total_rows(groups.take(h), width) <= total_rows(groups.take(g), width),
    decreases g - h,
{
    if h < g {
        let t = groups.take(g);
        assert(t.drop_last() =~= groups.take(g - 1));
        lemma_total_rows_monotonic(groups, h, g - 1, width);
    }
}

} // verus!
