//! How the conductors of one slot are arranged, independent of any dimensions.

use vstd::prelude::*;

verus! {

/// How the conductors of one slot are arranged.
///
/// Conductors are laid out two per row, filling from the slot bottom towards
/// the bore: `count = 4` gives 2×2, `count = 6` gives 2×3. A trailing odd
/// conductor is centred in its row.
#[derive(Clone, Copy, Debug, PartialEq, Eq, Structural)]
pub struct SlotPacking {
    pub count: usize,
    pub rows: usize,
    pub cols: usize,
}

/// The packing `SlotPacking::new` builds for `count` conductors.
pub open spec fn spec_packing(count: usize) -> SlotPacking {
    let count = if count < 1 { 1usize } else { count };
    let cols = if count < 2 { count } else { 2usize };
    SlotPacking { count, rows: ((count + cols - 1) / cols as int) as usize, cols }
}

impl SlotPacking {
    /// The shape `new` produces: at least one conductor, at most two columns,
    /// and just enough rows to hold them all.
    pub open spec fn wf(self) -> bool {
        &&& self.count >= 1
        &&& self.cols == (if self.count < 2 { self.count } else { 2 })
        &&& self.rows == (self.count + self.cols - 1) / self.cols as int
    }

    /// Conductors in the deep (layer 0) half: the larger half of an odd count.
    pub open spec fn spec_deep_count(self) -> int {
        (self.count + 1) / 2
    }

    /// Electrical layer of `index`: 0 deep, 1 shallow; a lone conductor has
    /// only the deep layer.
    pub open spec fn spec_layer_of(self, index: int) -> usize {
        if index >= self.spec_deep_count() && self.count > 1 {
            1
        } else {
            0
        }
    }

    /// Conductors sharing row `row`: a full row holds `cols`, the last row
    /// what is left over.
    pub open spec fn spec_row_occupancy(self, row: int) -> int {
        if row == self.rows - 1 {
            self.count - row * self.cols
        } else {
            self.cols as int
        }
    }

    /// Tangential offset of `index` from the slot centre, in half column
    /// pitches: a row that is not full is centred on the slot axis.
    pub open spec fn spec_column_offset_halves(self, index: int) -> int {
        2 * (index % self.cols as int) - (self.spec_row_occupancy(index / self.cols as int) - 1)
    }

    /// Index in the destination slot that conductor `index` connects to: a
    /// conductor of the shallow half, or straight across with one conductor.
    pub open spec fn spec_coil_partner(self, index: int) -> int {
        if self.count == 1 {
            0
        } else {
            let shallow = self.count - self.spec_deep_count();
            self.spec_deep_count() + index % (if shallow < 1 { 1 } else { shallow })
        }
    }

    /// Packing for `count` conductors; zero is taken as one.
    pub fn new(count: usize) -> (r: Self)
        ensures
            r == spec_packing(count),
            r.wf(),
    {
        let count = if count < 1 {
            1
        } else {
            count
        };
        let cols = if count < 2 {
            count
        } else {
            2
        };
        let rows = count / cols + if count % cols != 0 {
            1
        } else {
            0
        };
        proof {
            vstd::arithmetic::div_mod::lemma_fundamental_div_mod(count as int, cols as int);
            if cols == 1 {
                assert(rows == count);
                assert((count + cols - 1) / cols as int == count);
            } else {
                assert(cols == 2);
                assert((count + 1) / 2 == count / 2 + count % 2);
            }
        }
        SlotPacking { count, rows, cols }
    }

    /// Grid position of `index` as `(row, col)`; row 0 is the slot bottom.
    pub fn row_col(&self, index: usize) -> (r: (usize, usize))
        requires
            self.wf(),
        ensures
            r.0 == index / self.cols,
            r.1 == index % self.cols,
    {
        (index / self.cols, index % self.cols)
    }

    /// How many conductors share the row `row`.
    pub fn row_occupancy(&self, row: usize) -> (r: usize)
        requires
            self.wf(),
        ensures
            r == self.spec_row_occupancy(row as int),
    {
        proof {
            lemma_last_row_fits(*self);
        }
        if row == self.rows - 1 {
            self.count - row * self.cols
        } else {
            self.cols
        }
    }

    /// Tangential offset of `index` from the slot centre, in half column
    /// pitches (`-1`, `0` or `+1`).
    ///
    /// A row that is not full is centred, so a lone trailing conductor sits on
    /// the slot axis rather than hugging one tooth.
    pub fn column_offset_halves(&self, index: usize) -> (r: isize)
        requires
            self.wf(),
        ensures
            r == self.spec_column_offset_halves(index as int),
    {
        let (row, col) = self.row_col(index);
        let in_row = self.row_occupancy(row);
        proof {
            lemma_last_row_fits(*self);
            assert(in_row <= 2);
            assert(col < 2);
        }
        2 * (col as isize) - (in_row as isize - 1)
    }

    /// Number of conductors in the deep (layer 0) half.
    ///
    /// Both coil sides must carry the same number of turns, so an odd `count`
    /// gives the deep half the extra conductor rather than splitting by row.
    pub fn deep_count(&self) -> (r: usize)
        ensures
            r == self.spec_deep_count(),
    {
        self.count / 2 + self.count % 2
    }

    /// Which electrical layer `index` belongs to: 0 deep, 1 shallow.
    ///
    /// With a single conductor per slot there is no second layer.
    pub fn layer_of(&self, index: usize) -> (r: usize)
        ensures
            r == self.spec_layer_of(index as int),
    {
        if index >= self.deep_count() && self.count > 1 {
            1
        } else {
            0
        }
    }

    /// Index in the destination slot that conductor `index` connects to.
    ///
    /// A coil leaves the deep half of one slot and returns into the shallow
    /// half of the slot `pitch` steps away. With a single conductor per slot
    /// there is only one layer, so it connects straight across.
    pub fn coil_partner(&self, index: usize) -> (r: usize)
        ensures
            r == self.spec_coil_partner(index as int),
            self.count >= 2 && index < self.count / 2 ==> r == (self.count + 1) / 2 + index,
    {
        if self.count == 1 {
            return 0;
        }
        let deep = self.deep_count();
        let shallow = self.count - deep;
        let modulus = if shallow < 1 {
            1
        } else {
            shallow
        };
        proof {
            vstd::arithmetic::div_mod::lemma_mod_bound(index as int, modulus as int);
            if self.count >= 2 && index < self.count / 2 {
                vstd::arithmetic::div_mod::lemma_small_mod(index as nat, modulus as nat);
            }
        }
        deep + (index % modulus)
    }
}

/// The last row is never over-full: `(rows - 1)·cols < count <= rows·cols`.
pub proof fn lemma_last_row_fits(packing: SlotPacking)
    requires
        packing.wf(),
    ensures
        packing.rows >= 1,
        (packing.rows - 1) * packing.cols < packing.count,
        packing.count <= packing.rows * packing.cols,
        packing.count - (packing.rows - 1) * packing.cols <= packing.cols,
        1 <= packing.cols <= 2,
{
    let c = packing.cols as int;
    let n = packing.count as int;
    let r = packing.rows as int;
    if c == 1 {
        assert((n + 1 - 1) / 1 == n);
        assert(r == n);
    } else {
        assert(c == 2);
        assert(r == (n + 1) / 2);
        assert(2 * r <= n + 1 && n <= 2 * r);
    }
    assert((r - 1) * c == r * c - c) by (nonlinear_arith);
}

/// The packing is two per row, filling from the slot bottom: one column for a
/// lone conductor, two otherwise, and just enough rows that the last one is
/// neither empty nor over-full.
pub proof fn lemma_packing_is_two_per_row(count: usize)
    ensures
        ({
            let p = spec_packing(count);
            let c = if count < 1 { 1 } else { count as int };
            &&& p.wf()
            &&& p.count == c
            &&& p.cols == (if c < 2 { c } else { 2 })
            &&& (p.rows - 1) * p.cols < c <= p.rows * p.cols
        }),
{
    let p = spec_packing(count);
    lemma_last_row_fits(p);
}

/// Every row is centred on the slot axis: a lone conductor sits on it, and a
/// full row straddles it one half pitch either side. In particular an odd
/// count's trailing conductor sits on the axis.
pub proof fn lemma_rows_are_centred(packing: SlotPacking, index: int)
    requires
        packing.wf(),
        0 <= index < packing.count,
    ensures
        ({
            let row = index / packing.cols as int;
            let col = index % packing.cols as int;
            let occupancy = packing.spec_row_occupancy(row);
            &&& 1 <= occupancy <= 2
            &&& col < occupancy
            &&& occupancy == 1 ==> packing.spec_column_offset_halves(index) == 0
            &&& occupancy == 2 ==> packing.spec_column_offset_halves(index) == 2 * col - 1
            &&& packing.count % 2 == 1 ==> packing.spec_column_offset_halves(packing.count - 1)
                == 0
        }),
{
    lemma_last_row_fits(packing);
    let c = packing.cols as int;
    let n = packing.count as int;
    let row = index / c;
    vstd::arithmetic::div_mod::lemma_fundamental_div_mod(index, c);
    vstd::arithmetic::div_mod::lemma_mod_bound(index, c);
    assert(row <= packing.rows - 1) by {
        if row > packing.rows - 1 {
            assert(row * c >= packing.rows * c) by (nonlinear_arith)
                requires
                    row >= packing.rows,
                    c >= 1,
            ;
        }
    }
    let col = index % c;
    if c == 1 {
        assert(row == index);
        assert(col == 0);
    } else {
        assert(index == 2 * row + col);
    }
    let occupancy = packing.spec_row_occupancy(row);
    if row == packing.rows - 1 {
        assert(occupancy == n - row * c);
        assert(row * c + col == index);
        assert(col < occupancy);
    } else {
        assert(occupancy == c);
    }
    assert(1 <= occupancy <= 2);
    if n % 2 == 1 {
        let last = n - 1;
        if c == 1 {
            assert(n == 1);
            assert(last / c == 0 && last % c == 0);
            assert(packing.spec_row_occupancy(0) == 1);
        } else {
            vstd::arithmetic::div_mod::lemma_fundamental_div_mod(last, 2);
            assert(last % 2 == 0);
            assert(last / 2 == packing.rows - 1);
            assert(last == 2 * (last / 2));
            assert(c == 2);
            assert((packing.rows - 1) * 2 == last);
            assert(packing.spec_row_occupancy(last / 2) == 1);
        }
        assert(packing.spec_column_offset_halves(last) == 0);
    }
}

/// A coil leaves the deep half and returns into the shallow half: with two or
/// more conductors every partner index is a shallow conductor of the slot;
/// with a single conductor it connects straight across.
pub proof fn lemma_coil_partner_crosses_to_the_other_layer(packing: SlotPacking, index: int)
    requires
        packing.wf(),
        0 <= index,
    ensures
        packing.count >= 2 ==> {
            &&& packing.spec_deep_count() <= packing.spec_coil_partner(index) < packing.count
            &&& packing.spec_layer_of(packing.spec_coil_partner(index)) == 1
        },
        packing.count == 1 ==> packing.spec_coil_partner(index) == 0,
{
    if packing.count >= 2 {
        let shallow = packing.count - packing.spec_deep_count();
        vstd::arithmetic::div_mod::lemma_mod_bound(index, shallow);
    }
}

/// Every deep conductor gets a shallow conductor of its own and every shallow
/// conductor receives a coil: deep conductor `i` lands on shallow conductor
/// `(count + 1) / 2 + i`, and with an odd count the one surplus deep conductor
/// wraps round to the first shallow one.
pub proof fn lemma_deep_conductors_pair_one_to_one_with_shallow(packing: SlotPacking, i: int)
    requires
        packing.wf(),
        packing.count >= 2,
        0 <= i < (packing.count + 1) / 2,
    ensures
        i < packing.count / 2 ==> packing.spec_coil_partner(i) == (packing.count + 1) / 2 + i,
        i == packing.count / 2 ==> packing.spec_coil_partner(i) == (packing.count + 1) / 2,
        packing.count % 2 == 0 ==> packing.spec_coil_partner(i) == packing.count / 2 + i,
{
    let deep = (packing.count + 1) / 2;
    let shallow = packing.count - deep;
    assert(shallow == packing.count / 2);
    assert(shallow >= 1);
    if i < shallow {
        vstd::arithmetic::div_mod::lemma_small_mod(i as nat, shallow as nat);
    } else {
        assert(i == shallow);
        vstd::arithmetic::div_mod::lemma_mod_self_0(shallow);
    }
}

/// Both coil sides carry the same number of turns: an even count splits into
/// two equal halves, an odd one gives the deep half the extra conductor.
pub proof fn lemma_layers_split_evenly(packing: SlotPacking)
    requires
        packing.wf(),
    ensures
        packing.count % 2 == 0 ==> 2 * packing.spec_deep_count() == packing.count,
        packing.count % 2 == 1 ==> 2 * packing.spec_deep_count() == packing.count + 1,
        forall|i: int|
            0 <= i < packing.count ==> (#[trigger] packing.spec_layer_of(i) == 0 <==> (i
                < packing.spec_deep_count() || packing.count == 1)),
{
}

} // verus!
