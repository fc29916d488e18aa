//! Columns: the type-erased storage of one component type, sliced by
//! archetype.
//!
//! A column is shared by every archetype that contains its component. What
//! belongs to one archetype lives in the slot of that archetype's index: the
//! bytes of the values, one cell per row, the tick of each row, the log of
//! entities whose tick was recorded, and the values that left the store and
//! still await their destructor.

use crate::blob::{
    byte_at, bytes_get, bytes_new, bytes_set, bytes_settle, stored_bytes, stored_ticks, tick_at,
    ticks_get, ticks_new, ticks_set, ticks_settle,
};
use crate::component::ComponentInfo;
use crate::ids::{ArchetypeWorldIndex, Entity, Row, Tick};
use pi_arr::Arr;
use pi_share::Share;
use vstd::prelude::*;

verus! {

/// The most bytes that one blob holds.
pub const MAX_BLOB_BYTES: usize = 0x7fff_ffff;

/// The most rows that one table holds.
pub const MAX_ROWS: usize = 0x1fff_ffff;

/// Whether the cell of `row`, `size` bytes wide, lies within what a blob can
/// hold.
pub open spec fn row_fits(row: Row, size: usize) -> bool {
    row.0 < MAX_ROWS && (row.0 + 1) * size <= MAX_BLOB_BYTES
}

/// Whether `len` rows of `size` bytes lie within what a blob can hold.
pub open spec fn len_fits(len: usize, size: usize) -> bool {
    len <= MAX_ROWS && len * size <= MAX_BLOB_BYTES
}

/// `size` zero bytes: what a cell reads as before anything is written to it.
pub open spec fn zero_bytes(size: usize) -> Seq<u8> {
    Seq::new(size as nat, |k: int| 0u8)
}

/// Every row of a table that fits the storage fits it.
pub proof fn lemma_len_fits_rows(len: usize, size: usize, row: Row)
    requires
        len_fits(len, size),
        row.0 < len,
    ensures
        row_fits(row, size),
{
    assert((row.0 + 1) * size <= len * size) by (nonlinear_arith)
        requires
            row.0 < len,
    ;
}

/// Fewer rows fit where more do.
pub proof fn lemma_len_fits_less(len: usize, size: usize, less: usize)
    requires
        len_fits(len, size),
        less <= len,
    ensures
        len_fits(less, size),
{
    assert(less * size <= len * size) by (nonlinear_arith)
        requires
            less <= len,
    ;
}

proof fn lemma_cell_index(row: int, size: int, k: int)
    requires
        0 <= row,
        0 <= k < size,
        (row + 1) * size <= MAX_BLOB_BYTES,
    ensures
        0 <= row * size + k < MAX_BLOB_BYTES,
        row * size + k < (row + 1) * size,
        row * size >= 0,
{
    assert((row + 1) * size == row * size + size) by (nonlinear_arith);
    assert(row * size >= 0) by (nonlinear_arith)
        requires
            0 <= row,
            0 <= size,
    ;
}

proof fn lemma_cells_disjoint(r1: int, r2: int, size: int, k1: int, k2: int)
    requires
        0 <= r1,
        0 <= r2,
        r1 != r2,
        0 <= k1 < size,
        0 <= k2 < size,
    ensures
        r1 * size + k1 != r2 * size + k2,
{
    if r1 < r2 {
        assert((r1 + 1) * size <= r2 * size) by (nonlinear_arith)
            requires
                r1 + 1 <= r2,
                0 <= size,
        ;
        assert((r1 + 1) * size == r1 * size + size) by (nonlinear_arith);
    } else {
        assert((r2 + 1) * size <= r1 * size) by (nonlinear_arith)
            requires
                r2 + 1 <= r1,
                0 <= size,
        ;
        assert((r2 + 1) * size == r2 * size + size) by (nonlinear_arith);
    }
}

/// The byte at a position that arithmetic on rows gave: zero where the
/// position is no index at all.
pub open spec fn byte_in(cells: Map<usize, u8>, index: int) -> u8 {
    if 0 <= index <= usize::MAX {
        byte_at(cells, index as usize)
    } else {
        0
    }
}

/// What a column stores for one archetype.
pub struct BlobTicks {
    blob: Arr<u8>,
    ticks: Arr<u32>,
    dirty: Vec<(Entity, Tick)>,
    released: Vec<Vec<u8>>,
}

impl BlobTicks {
    /// The bytes of the cell of `row`, for cells `size` bytes wide.
    pub closed spec fn cell(&self, row: Row, size: usize) -> Seq<u8> {
        Seq::new(
            size as nat,
            |k: int| byte_in(stored_bytes(self.blob), row.0 * size + k),
        )
    }

    /// The tick recorded for `row`; zero where none was.
    pub closed spec fn tick(&self, row: Row) -> Tick {
        Tick(tick_at(stored_ticks(self.ticks), row.0 as usize))
    }

    /// The entities whose tick was recorded, each with that tick, oldest
    /// first.
    pub closed spec fn log(&self) -> Seq<(Entity, Tick)> {
        self.dirty@
    }

    /// The values that left the store and whose destructor is owed, oldest
    /// first.
    pub closed spec fn released(&self) -> Seq<Seq<u8>> {
        self.released@.map_values(|v: Vec<u8>| v@)
    }

    /// Nothing written, nothing recorded.
    pub open spec fn is_empty(&self) -> bool {
        &&& forall|row: Row, size: usize| #[trigger] self.cell(row, size) == zero_bytes(size)
        &&& forall|row: Row| #[trigger] self.tick(row) == Tick(0)
        &&& self.log() == Seq::<(Entity, Tick)>::empty()
        &&& self.released() == Seq::<Seq<u8>>::empty()
    }

    /// Storage that nothing was written to.
    pub fn new() -> (r: Self)
        ensures
            r.is_empty(),
    {
        let r = BlobTicks {
            blob: bytes_new(),
            ticks: ticks_new(),
            dirty: Vec::new(),
            released: Vec::new(),
        };
        proof {
            assert forall|row: Row, size: usize| #[trigger]
                r.cell(row, size) == zero_bytes(size) by {
                assert(r.cell(row, size) =~= zero_bytes(size));
            }
            assert(r.released() =~= Seq::<Seq<u8>>::empty());
        }
        r
    }

    /// The tick recorded for `row`.
    pub fn get_tick(&self, row: Row) -> (r: Tick)
        ensures
            r == self.tick(row),
    {
        match ticks_get(&self.ticks, row.index()) {
            Some(t) => Tick(t),
            None => Tick(0),
        }
    }

    /// Records `tick` for `row`, whatever was recorded before.
    pub fn set_tick(&mut self, row: Row, tick: Tick)
        requires
            row.0 < MAX_ROWS,
        ensures
            final(self).tick(row) == tick,
            forall|r: Row| r != row ==> #[trigger] final(self).tick(r) == old(self).tick(r),
            forall|r: Row, size: usize| #[trigger]
                final(self).cell(r, size) == old(self).cell(r, size),
            final(self).log() == old(self).log(),
            final(self).released() == old(self).released(),
    {
        ticks_set(&mut self.ticks, row.index(), tick.0);
    }

    /// Appends `e`, with the tick recorded for it, to the log.
    pub fn record(&mut self, e: Entity, tick: Tick)
        ensures
            final(self).log() == old(self).log().push((e, tick)),
            forall|r: Row| #[trigger] final(self).tick(r) == old(self).tick(r),
            forall|r: Row, size: usize| #[trigger]
                final(self).cell(r, size) == old(self).cell(r, size),
            final(self).released() == old(self).released(),
    {
        self.dirty.push((e, tick));
    }

    /// Empties the log of entities whose tick was recorded.
    pub fn clear_log(&mut self)
        ensures
            final(self).log() == Seq::<(Entity, Tick)>::empty(),
            forall|r: Row| #[trigger] final(self).tick(r) == old(self).tick(r),
            forall|r: Row, size: usize| #[trigger]
                final(self).cell(r, size) == old(self).cell(r, size),
            final(self).released() == old(self).released(),
    {
        self.dirty.clear();
    }

    /// The number of logged entities.
    pub fn log_len(&self) -> (r: usize)
        ensures
            r == self.log().len(),
    {
        self.dirty.len()
    }

    /// The `i`-th logged entity and the tick that was recorded for it.
    pub fn log_get(&self, i: usize) -> (r: (Entity, Tick))
        requires
            i < self.log().len(),
        ensures
            r == self.log()[i as int],
    {
        self.dirty[i]
    }

    /// The bytes of the cell of `row`.
    pub fn read_row(&self, row: Row, size: usize) -> (r: Vec<u8>)
        requires
            row_fits(row, size),
        ensures
            r@ == self.cell(row, size),
    {
        let mut out: Vec<u8> = Vec::new();
        let base: usize = self.base(row, size);
        let mut k: usize = 0;
        while k < size
            invariant
                k <= size,
                row_fits(row, size),
                base == row.0 * size,
                out@.len() == k,
                forall|j: int| 0 <= j < k ==> out@[j] == self.cell(row, size)[j],
            decreases size - k,
        {
            proof {
                lemma_cell_index(row.0 as int, size as int, k as int);
            }
            let b = match bytes_get(&self.blob, base + k) {
                Some(v) => v,
                None => 0,
            };
            out.push(b);
            k += 1;
        }
        proof {
            assert(out@ =~= self.cell(row, size));
        }
        out
    }

    fn base(&self, row: Row, size: usize) -> (r: usize)
        requires
            row_fits(row, size),
        ensures
            r == row.0 * size,
            r + size <= MAX_BLOB_BYTES,
    {
        proof {
            assert((row.0 + 1) * size == row.0 * size + size) by (nonlinear_arith);
            assert(row.0 * size >= 0) by (nonlinear_arith);
        }
        row.index() * size
    }

    /// Overwrites the cell of `row` with `data`.
    pub fn write_row(&mut self, row: Row, size: usize, data: &Vec<u8>)
        requires
            row_fits(row, size),
            data@.len() == size,
        ensures
            final(self).cell(row, size) == data@,
            forall|r: Row| r != row ==> #[trigger] final(self).cell(r, size) == old(self).cell(r, size),
            forall|r: Row| #[trigger] final(self).tick(r) == old(self).tick(r),
            final(self).log() == old(self).log(),
            final(self).released() == old(self).released(),
    {
        let base: usize = self.base(row, size);
        let mut k: usize = 0;
        while k < size
            invariant
                k <= size,
                row_fits(row, size),
                data@.len() == size,
                base == row.0 * size,
                self.ticks == old(self).ticks,
                self.dirty == old(self).dirty,
                self.released == old(self).released,
                forall|j: int|
                    0 <= j < k ==> byte_in(stored_bytes(self.blob), base + j) == data@[j],
                forall|i: usize|
                    !(base <= i < base + k) ==> byte_at(stored_bytes(self.blob), i) == byte_at(
                        stored_bytes(old(self).blob),
                        i,
                    ),
            decreases size - k,
        {
            proof {
                lemma_cell_index(row.0 as int, size as int, k as int);
            }
            bytes_set(&mut self.blob, base + k, data[k]);
            k += 1;
        }
        proof {
            assert(self.cell(row, size) =~= data@);
            assert forall|r: Row| r != row implies #[trigger] self.cell(r, size) == old(self).cell(
                r,
                size,
            ) by {
                assert forall|j: int| 0 <= j < size implies self.cell(r, size)[j] == old(self).cell(r, size)[j] by {
                    let i = r.0 * size + j;
                    if base <= i < base + size {
                        lemma_cells_disjoint(r.0 as int, row.0 as int, size as int, j, i - base);
                    }
                }
                assert(self.cell(r, size) =~= old(self).cell(r, size));
            }
        }
    }

    /// Copies the cell of `src` over the cell of `dst`.
    pub fn copy_row(&mut self, src: Row, dst: Row, size: usize)
        requires
            row_fits(src, size),
            row_fits(dst, size),
        ensures
            final(self).cell(dst, size) == old(self).cell(src, size),
            forall|r: Row| r != dst ==> #[trigger] final(self).cell(r, size) == old(self).cell(r, size),
            forall|r: Row| #[trigger] final(self).tick(r) == old(self).tick(r),
            final(self).log() == old(self).log(),
            final(self).released() == old(self).released(),
    {
        let data = self.read_row(src, size);
        self.write_row(dst, size, &data);
    }

    /// Hands the value in the cell of `row` over to its destructor: its
    /// bytes join the released values. The cell itself is left as it is.
    pub fn release(&mut self, row: Row, size: usize)
        requires
            row_fits(row, size),
        ensures
            final(self).released() == old(self).released().push(old(self).cell(row, size)),
            forall|r: Row, any: usize| #[trigger] final(self).cell(r, any) == old(self).cell(r, any),
            forall|r: Row| #[trigger] final(self).tick(r) == old(self).tick(r),
            final(self).log() == old(self).log(),
    {
        let data = self.read_row(row, size);
        self.released.push(data);
        proof {
            assert(self.released() =~= old(self).released().push(old(self).cell(row, size)));
        }
    }

    /// The number of released values.
    pub fn released_count(&self) -> (r: usize)
        ensures
            r == self.released().len(),
    {
        self.released.len()
    }

    /// Takes the released values out, oldest first, for their destructors to
    /// run.
    pub fn take_released(&mut self) -> (r: Vec<Vec<u8>>)
        ensures
            r@.map_values(|v: Vec<u8>| v@) == old(self).released(),
            final(self).released() == Seq::<Seq<u8>>::empty(),
            forall|row: Row, size: usize| #[trigger]
                final(self).cell(row, size) == old(self).cell(row, size),
            forall|row: Row| #[trigger] final(self).tick(row) == old(self).tick(row),
            final(self).log() == old(self).log(),
    {
        let mut out: Vec<Vec<u8>> = Vec::new();
        std::mem::swap(&mut out, &mut self.released);
        proof {
            assert(self.released() =~= Seq::<Seq<u8>>::empty());
        }
        out
    }

    /// Merges the bytes into contiguous storage for `len + additional`
    /// cells. Cells below `len` keep their bytes, all others read as zero.
    pub fn settle_cells(&mut self, len: usize, additional: usize, size: usize)
        requires
            len_fits((len + additional) as usize, size),
            len + additional <= usize::MAX,
        ensures
            forall|r: Row|
                r.0 < len ==> #[trigger] final(self).cell(r, size) == old(self).cell(r, size),
            forall|r: Row| r.0 >= len ==> #[trigger] final(self).cell(r, size) == zero_bytes(size),
            forall|r: Row| #[trigger] final(self).tick(r) == old(self).tick(r),
            final(self).log() == old(self).log(),
            final(self).released() == old(self).released(),
    {
        proof {
            assert(len * size + additional * size == (len + additional) * size)
                by (nonlinear_arith);
            assert(len * size >= 0 && additional * size >= 0) by (nonlinear_arith);
        }
        let bytes: usize = len * size;
        bytes_settle(&mut self.blob, bytes, additional * size);
        proof {
            assert forall|r: Row| r.0 < len implies #[trigger] self.cell(r, size) == old(self).cell(r, size) by {
                assert((r.0 + 1) * size <= len * size) by (nonlinear_arith)
                    requires
                        r.0 + 1 <= len,
                        0 <= size,
                ;
                assert((r.0 + 1) * size == r.0 * size + size) by (nonlinear_arith);
                assert(self.cell(r, size) =~= old(self).cell(r, size));
            }
            assert forall|r: Row| r.0 >= len implies #[trigger] self.cell(r, size) == zero_bytes(
                size,
            ) by {
                assert(r.0 * size >= len * size) by (nonlinear_arith)
                    requires
                        r.0 >= len,
                        0 <= size,
                ;
                assert(self.cell(r, size) =~= zero_bytes(size));
            }
        }
    }

    /// Merges the ticks into contiguous storage for `len + additional`
    /// rows. Rows below `len` keep their tick, all others read as zero.
    pub fn settle_ticks(&mut self, len: usize, additional: usize)
        requires
            len + additional <= MAX_ROWS,
        ensures
            forall|r: Row| r.0 < len ==> #[trigger] final(self).tick(r) == old(self).tick(r),
            forall|r: Row| r.0 >= len ==> #[trigger] final(self).tick(r) == Tick(0),
            forall|r: Row, size: usize| #[trigger]
                final(self).cell(r, size) == old(self).cell(r, size),
            final(self).log() == old(self).log(),
            final(self).released() == old(self).released(),
    {
        ticks_settle(&mut self.ticks, len, additional);
    }
}

/// The row whose content, as it was before a run of copies, stands in `row`
/// after the first `n` copies of `action`, each from its first row to its
/// second, made one after the other.
pub open spec fn source_of(action: Seq<(Row, Row)>, n: nat, row: Row) -> Row
    decreases n,
{
    if n == 0 || n > action.len() {
        row
    } else if action[n - 1].1 == row {
        source_of(action, (n - 1) as nat, action[n - 1].0)
    } else {
        source_of(action, (n - 1) as nat, row)
    }
}

/// A view of what one column stores for one archetype, with the type
/// metadata that says how wide a cell is and what is tracked.
pub struct BlobRef<'a> {
    pub blob: &'a mut BlobTicks,
    pub info: &'a ComponentInfo,
}

impl<'a> BlobRef<'a> {
    /// Width in bytes of one cell.
    pub open spec fn size(&self) -> usize {
        self.info.mem_size as usize
    }

    /// The bytes of the cell of `row`.
    pub open spec fn cell(&self, row: Row) -> Seq<u8> {
        self.blob.cell(row, self.size())
    }

    /// Whether the cell of `row` lies within what the blob can hold.
    pub open spec fn fits(&self, row: Row) -> bool {
        row_fits(row, self.size())
    }

    /// The view of the storage with the metadata that interprets it.
    pub(crate) fn new(blob: &'a mut BlobTicks, info: &'a ComponentInfo) -> (r: Self)
        ensures
            *r.blob == *old(blob),
            *final(r.blob) == *final(blob),
            r.info == info,
    {
        BlobRef { blob, info }
    }

    /// The tick recorded for `row`, zero where none was.
    pub fn get_tick_unchecked(&self, row: Row) -> (r: Tick)
        ensures
            r == old(self.blob).tick(row),
    {
        self.blob.get_tick(row)
    }

    /// Records the tick at which the row was added, where the column tracks
    /// ticks; there the entity joins the log.
    pub fn added_tick(&mut self, e: Entity, row: Row, tick: Tick)
        requires
            row.0 < MAX_ROWS,
        ensures
            *final(final(self).blob) == *final(old(self).blob),
            final(self).info == old(self).info,
            !old(self).info.is_tick() ==> *final(self).blob == *old(self).blob,
            old(self).info.is_tick() ==> {
                &&& final(self).blob.tick(row) == tick
                &&& forall|r: Row|
                    r != row ==> #[trigger] final(self).blob.tick(r) == old(self).blob.tick(r)
                &&& final(self).blob.log() == old(self).blob.log().push((e, tick))
            },
            forall|r: Row, size: usize| #[trigger]
                final(self).blob.cell(r, size) == old(self).blob.cell(r, size),
            final(self).blob.released() == old(self).blob.released(),
    {
        if !self.info.is_tick() {
            return ;
        }
        self.blob.set_tick(row, tick);
        self.blob.record(e, tick);
    }

    /// Records the tick of a write, where the column tracks ticks and the
    /// recorded tick is older; there the entity joins the log. A tick never
    /// goes back.
    pub fn changed_tick(&mut self, e: Entity, row: Row, tick: Tick)
        requires
            row.0 < MAX_ROWS,
        ensures
            *final(final(self).blob) == *final(old(self).blob),
            final(self).info == old(self).info,
            !(old(self).info.is_tick() && old(self).blob.tick(row).0 < tick.0)
                ==> *final(self).blob == *old(self).blob,
            old(self).info.is_tick() && old(self).blob.tick(row).0 < tick.0 ==> {
                &&& final(self).blob.tick(row) == tick
                &&& forall|r: Row|
                    r != row ==> #[trigger] final(self).blob.tick(r) == old(self).blob.tick(r)
                &&& final(self).blob.log() == old(self).blob.log().push((e, tick))
            },
            final(self).blob.tick(row).0 >= old(self).blob.tick(row).0,
            forall|r: Row, size: usize| #[trigger]
                final(self).blob.cell(r, size) == old(self).blob.cell(r, size),
            final(self).blob.released() == old(self).blob.released(),
    {
        if !self.info.is_tick() {
            return ;
        }
        let old_tick = self.blob.get_tick(row);
        if old_tick.0 >= tick.0 {
            return ;
        }
        self.blob.set_tick(row, tick);
        self.blob.record(e, tick);
    }

    /// Records `tick` for `row`, whatever the column tracks and whatever
    /// was recorded before.
    pub fn set_tick_unchecked(&mut self, row: Row, tick: Tick)
        requires
            row.0 < MAX_ROWS,
        ensures
            *final(final(self).blob) == *final(old(self).blob),
            final(self).info == old(self).info,
            final(self).blob.tick(row) == tick,
            forall|r: Row| r != row ==> #[trigger] final(self).blob.tick(r) == old(self).blob.tick(r),
            forall|r: Row, size: usize| #[trigger]
                final(self).blob.cell(r, size) == old(self).blob.cell(r, size),
            final(self).blob.log() == old(self).blob.log(),
            final(self).blob.released() == old(self).blob.released(),
    {
        self.blob.set_tick(row, tick);
    }

    /// The bytes of the cell of `row`: zeroes where nothing was written.
    pub fn get_row(&self, row: Row) -> (r: Vec<u8>)
        requires
            self.fits(row),
        ensures
            r@ == self.cell(row),
    {
        self.blob.read_row(row, self.info.size())
    }

    /// The bytes of the cell of `row`, which is allocated where it was not.
    pub fn load(&mut self, row: Row) -> (r: Vec<u8>)
        requires
            !row.is_null(),
            old(self).fits(row),
        ensures
            *final(final(self).blob) == *final(old(self).blob),
            final(self).info == old(self).info,
            r@ == old(self).cell(row),
            forall|r: Row| #[trigger]
                final(self).blob.cell(r, old(self).size()) == old(self).blob.cell(r, old(self).size()),
            forall|r: Row| #[trigger] final(self).blob.tick(r) == old(self).blob.tick(r),
            final(self).blob.log() == old(self).blob.log(),
            final(self).blob.released() == old(self).blob.released(),
    {
        let data = self.blob.read_row(row, self.info.size());
        self.blob.write_row(row, self.info.size(), &data);
        proof {
            assert forall|r: Row| #[trigger]
                self.blob.cell(r, old(self).size()) == old(self).blob.cell(r, old(self).size()) by {
                if r == row {
                } else {
                }
            }
        }
        data
    }

    /// Overwrites the cell of `row` with `data`, the bytes of one value.
    pub fn write_row(&mut self, row: Row, data: &Vec<u8>)
        requires
            old(self).fits(row),
            data@.len() == old(self).size(),
        ensures
            *final(final(self).blob) == *final(old(self).blob),
            final(self).info == old(self).info,
            final(self).cell(row) == data@,
            forall|r: Row|
                r != row ==> #[trigger] final(self).blob.cell(r, old(self).size()) == old(self).blob.cell(r, old(self).size()),
            forall|r: Row| #[trigger] final(self).blob.tick(r) == old(self).blob.tick(r),
            final(self).blob.log() == old(self).blob.log(),
            final(self).blob.released() == old(self).blob.released(),
    {
        self.blob.write_row(row, self.info.size(), data);
    }

    /// Releases the value in the cell of `row` where the type has a
    /// destructor: its bytes join the released values, once.
    pub(crate) fn drop_row(&mut self, row: Row)
        requires
            old(self).fits(row),
        ensures
            *final(final(self).blob) == *final(old(self).blob),
            final(self).info == old(self).info,
            final(self).blob.released() == if old(self).info.needs_drop {
                old(self).blob.released().push(old(self).cell(row))
            } else {
                old(self).blob.released()
            },
            forall|r: Row, size: usize| #[trigger]
                final(self).blob.cell(r, size) == old(self).blob.cell(r, size),
            forall|r: Row| #[trigger] final(self).blob.tick(r) == old(self).blob.tick(r),
            final(self).blob.log() == old(self).blob.log(),
    {
        if self.info.needs_drop {
            self.blob.release(row, self.info.size());
        }
    }

    /// Whether values of the type have a destructor.
    pub fn needs_drop(&self) -> (r: bool)
        ensures
            r == self.info.needs_drop,
    {
        self.info.needs_drop
    }

    /// Releases the value in the cell of `row`, of a type that has a
    /// destructor.
    pub fn drop_row_unchecked(&mut self, row: Row)
        requires
            old(self).info.needs_drop,
            old(self).fits(row),
        ensures
            *final(final(self).blob) == *final(old(self).blob),
            final(self).info == old(self).info,
            final(self).blob.released() == old(self).blob.released().push(old(self).cell(row)),
            forall|r: Row, size: usize| #[trigger]
                final(self).blob.cell(r, size) == old(self).blob.cell(r, size),
            forall|r: Row| #[trigger] final(self).blob.tick(r) == old(self).blob.tick(r),
            final(self).blob.log() == old(self).blob.log(),
    {
        self.blob.release(row, self.info.size());
    }
}

/// `Arc::clone` on shared type metadata: another handle to the same value.
#[verifier::external_body]
pub(crate) fn share_info(info: &Share<ComponentInfo>) -> (r: Share<ComponentInfo>)
    ensures
        *r == **info,
{
    info.clone()
}

/// `Arc::get_mut` on shared type metadata: the value itself, to change,
/// where no other handle shares it; `None`, and nothing changed, where one
/// does.
#[verifier::external_body]
pub(crate) fn unique_info(info: &mut Share<ComponentInfo>) -> (r: Option<&mut ComponentInfo>)
    ensures
        match r {
            Some(m) => *m == **old(info) && **final(info) == *final(m),
            None => **final(info) == **old(info),
        },
{
    Share::get_mut(info)
}

/// The storage of one component type: its metadata and, for each archetype
/// that has touched it, what it stores for that archetype.
pub struct Column {
    pub(crate) info: Share<ComponentInfo>,
    arr: Vec<BlobTicks>,
}

impl Column {
    /// The type metadata of the column's component.
    pub closed spec fn meta(&self) -> ComponentInfo {
        *self.info
    }

    /// What the column stores, by archetype index.
    pub closed spec fn slots(&self) -> Seq<BlobTicks> {
        self.arr@
    }

    /// Whether the column has storage for the archetype.
    pub open spec fn has_slot(&self, index: ArchetypeWorldIndex) -> bool {
        0 <= index.0 < self.slots().len()
    }

    /// What the column stores for the archetype.
    pub open spec fn slot(&self, index: ArchetypeWorldIndex) -> BlobTicks {
        self.slots()[index.0 as int]
    }

    /// Width in bytes of one cell.
    pub open spec fn size(&self) -> usize {
        self.meta().mem_size as usize
    }

    /// The bytes of the component of `row` in the archetype: zeroes where
    /// nothing was written.
    pub open spec fn cell(&self, index: ArchetypeWorldIndex, row: Row) -> Seq<u8> {
        if self.has_slot(index) {
            self.slot(index).cell(row, self.size())
        } else {
            zero_bytes(self.size())
        }
    }

    /// The tick of `row` in the archetype: zero where none was recorded.
    pub open spec fn tick(&self, index: ArchetypeWorldIndex, row: Row) -> Tick {
        if self.has_slot(index) {
            self.slot(index).tick(row)
        } else {
            Tick(0)
        }
    }

    /// The entities of the archetype whose tick was recorded, each with
    /// that tick, oldest first.
    pub open spec fn log(&self, index: ArchetypeWorldIndex) -> Seq<(Entity, Tick)> {
        if self.has_slot(index) {
            self.slot(index).log()
        } else {
            Seq::empty()
        }
    }

    /// The values of the archetype whose destructor is owed, oldest first.
    pub open spec fn released(&self, index: ArchetypeWorldIndex) -> Seq<Seq<u8>> {
        if self.has_slot(index) {
            self.slot(index).released()
        } else {
            Seq::empty()
        }
    }

    /// Whether `after` stores for every archetype but `index` what `self`
    /// stores.
    pub open spec fn same_but(&self, after: &Column, index: ArchetypeWorldIndex) -> bool {
        &&& after.meta() == self.meta()
        &&& after.slots().len() >= self.slots().len()
        &&& forall|i: int|
            0 <= i < self.slots().len() && i != index.0 ==> #[trigger] after.slots()[i]
                == self.slots()[i]
        &&& forall|i: int|
            self.slots().len() <= i < after.slots().len() && i != index.0
                ==> (#[trigger] after.slots()[i]).is_empty()
    }

    /// The column of a component type, without storage for any archetype.
    pub fn new(info: ComponentInfo) -> (r: Self)
        ensures
            r.meta() == info,
            r.slots().len() == 0,
    {
        Column { info: Share::new(info), arr: Vec::new() }
    }

    /// The type metadata of the column's component.
    pub fn info(&self) -> (r: &ComponentInfo)
        ensures
            *r == self.meta(),
    {
        &self.info
    }

    /// The type metadata of the column's component, to change, where no
    /// table shares it with the column; `None` where one does.
    pub fn info_mut(&mut self) -> (r: Option<&mut ComponentInfo>)
        ensures
            match r {
                Some(m) => *m == old(self).meta() && final(self).meta() == *final(m),
                None => final(self).meta() == old(self).meta(),
            },
            final(self).slots() == old(self).slots(),
    {
        unique_info(&mut self.info)
    }

    /// Another handle to the column's metadata.
    pub fn share_info(&self) -> (r: Share<ComponentInfo>)
        ensures
            *r == self.meta(),
    {
        share_info(&self.info)
    }

    /// Gives the archetype its storage in this column, empty, where it has
    /// none yet.
    pub fn init_blob(&mut self, index: ArchetypeWorldIndex)
        requires
            index.0 >= 0,
        ensures
            final(self).has_slot(index),
            old(self).has_slot(index) ==> final(self).slots() == old(self).slots(),
            !old(self).has_slot(index) ==> {
                &&& final(self).slots().len() == index.0 + 1
                &&& final(self).slot(index).is_empty()
            },
            old(self).same_but(final(self), index),
    {
        let n: usize = index.index();
        while self.arr.len() <= n
            invariant
                n == index.0,
                self.info == old(self).info,
                self.arr@.len() >= old(self).arr@.len(),
                self.arr@.len() == old(self).arr@.len() || self.arr@.len() <= n + 1,
                forall|i: int| 0 <= i < old(self).arr@.len() ==> self.arr@[i] == old(self).arr@[i],
                forall|i: int|
                    old(self).arr@.len() <= i < self.arr@.len() ==> (#[trigger] self.arr@[i]).is_empty(),
            decreases n + 1 - self.arr.len(),
        {
            self.arr.push(BlobTicks::new());
        }
        proof {
            if old(self).has_slot(index) {
                assert(self.arr@ =~= old(self).arr@);
            }
        }
    }

    /// The column's storage for the archetype, given its storage on first
    /// touch, together with the metadata that interprets it.
    pub fn blob_ref(&mut self, index: ArchetypeWorldIndex) -> (r: BlobRef<'_>)
        requires
            index.0 >= 0,
        ensures
            *r.info == old(self).meta(),
            old(self).has_slot(index) ==> *r.blob == old(self).slot(index),
            !old(self).has_slot(index) ==> r.blob.is_empty(),
            final(self).has_slot(index),
            final(self).slot(index) == *final(r.blob),
            old(self).same_but(final(self), index),
            final(self).slots().len() == if old(self).has_slot(index) {
                old(self).slots().len()
            } else {
                (index.0 + 1) as nat
            },
    {
        self.init_blob(index);
        BlobRef::new(&mut self.arr[index.index()], &self.info)
    }

    /// Compacts what the column stores for the archetype. The copies of
    /// `action` are made one after the other, each from its first row to its
    /// second, the tick with the bytes where the column tracks ticks. Then
    /// the storage is merged for `len + additional` rows: the rows below
    /// `len` keep what they hold, every row from `len` on reads as zero.
    pub(crate) fn settle(
        &mut self,
        index: ArchetypeWorldIndex,
        len: usize,
        additional: usize,
        action: &Vec<(Row, Row)>,
    )
        requires
            old(self).has_slot(index),
            len + additional <= usize::MAX,
            len_fits((len + additional) as usize, old(self).size()),
            forall|k: int|
                0 <= k < action@.len() ==> row_fits((#[trigger] action@[k]).0, old(self).size())
                    && row_fits(action@[k].1, old(self).size()),
        ensures
            old(self).same_but(final(self), index),
            final(self).slots().len() == old(self).slots().len(),
            forall|r: Row|
                r.0 < len ==> #[trigger] final(self).cell(index, r) == old(self).cell(
                    index,
                    source_of(action@, action@.len(), r),
                ),
            forall|r: Row|
                r.0 >= len ==> #[trigger] final(self).cell(index, r) == zero_bytes(old(self).size()),
            forall|r: Row|
                r.0 < len ==> #[trigger] final(self).tick(index, r) == if old(self).meta().is_tick() {
                    old(self).tick(index, source_of(action@, action@.len(), r))
                } else {
                    old(self).tick(index, r)
                },
            forall|r: Row|
                r.0 >= len && old(self).meta().is_tick() ==> #[trigger] final(self).tick(index, r)
                    == Tick(0),
            forall|r: Row|
                r.0 >= len && !old(self).meta().is_tick() ==> #[trigger] final(self).tick(index, r)
                    == old(self).tick(index, r),
            final(self).log(index) == old(self).log(index),
            final(self).released(index) == old(self).released(index),
    {
        let n: usize = index.index();
        let size: usize = self.info.size();
        let with_tick: bool = self.info.is_tick();
        let mut i: usize = 0;
        while i < action.len()
            invariant
                i <= action@.len(),
                n == index.0,
                size == old(self).size(),
                with_tick == old(self).meta().is_tick(),
                old(self).has_slot(index),
                self.info == old(self).info,
                self.arr@.len() == old(self).arr@.len(),
                forall|j: int| 0 <= j < self.arr@.len() && j != n ==> self.arr@[j] == old(self).arr@[j],
                forall|k: int|
                    0 <= k < action@.len() ==> row_fits((#[trigger] action@[k]).0, size)
                        && row_fits(action@[k].1, size),
                forall|r: Row| #[trigger]
                    self.arr@[n as int].cell(r, size) == old(self).arr@[n as int].cell(
                        source_of(action@, i as nat, r),
                        size,
                    ),
                forall|r: Row| #[trigger]
                    self.arr@[n as int].tick(r) == if with_tick {
                        old(self).arr@[n as int].tick(source_of(action@, i as nat, r))
                    } else {
                        old(self).arr@[n as int].tick(r)
                    },
                self.arr@[n as int].log() == old(self).arr@[n as int].log(),
                self.arr@[n as int].released() == old(self).arr@[n as int].released(),
            decreases action@.len() - i,
        {
            let src: Row = action[i].0;
            let dst: Row = action[i].1;
            let ghost before = self.arr@[n as int];
            self.arr[n].copy_row(src, dst, size);
            if with_tick {
                let tick = self.arr[n].get_tick(src);
                self.arr[n].set_tick(dst, tick);
            }
            i += 1;
        }
        self.arr[n].settle_cells(len, additional, size);
        if with_tick {
            self.arr[n].settle_ticks(len, additional);
        }
    }

    /// What `move_row` leaves, against the column before it.
    pub open spec fn moved_row(
        &self,
        after: &Column,
        from: ArchetypeWorldIndex,
        src: Row,
        to: ArchetypeWorldIndex,
        dst: Row,
        e: Entity,
    ) -> bool {
        &&& self.same_but(after, to)
        &&& after.slots().len() == self.slots().len()
        &&& after.cell(to, dst) == self.cell(from, src)
        &&& forall|r: Row| r != dst ==> #[trigger] after.cell(to, r) == self.cell(to, r)
        &&& after.tick(to, dst) == self.tick(from, src)
        &&& forall|r: Row| r != dst ==> #[trigger] after.tick(to, r) == self.tick(to, r)
        &&& after.log(to) == if self.meta().is_tick() && self.tick(from, src).0 > 0 {
            self.log(to).push((e, self.tick(from, src)))
        } else {
            self.log(to)
        }
        &&& after.released(to) == self.released(to)
    }

    /// What `init_cell` leaves, against the column before it.
    pub open spec fn initialised(
        &self,
        after: &Column,
        index: ArchetypeWorldIndex,
        row: Row,
        e: Entity,
        tick: Tick,
    ) -> bool {
        &&& self.same_but(after, index)
        &&& after.slots().len() == self.slots().len()
        &&& after.cell(index, row) == self.meta().default_bytes()
        &&& forall|r: Row| r != row ==> #[trigger] after.cell(index, r) == self.cell(index, r)
        &&& after.tick(index, row) == if self.meta().is_tick() {
            tick
        } else {
            self.tick(index, row)
        }
        &&& forall|r: Row| r != row ==> #[trigger] after.tick(index, r) == self.tick(index, r)
        &&& after.log(index) == if self.meta().is_tick() {
            self.log(index).push((e, tick))
        } else {
            self.log(index)
        }
        &&& after.released(index) == self.released(index)
    }

    /// What `drop_cell` leaves, against the column before it.
    pub open spec fn dropped(&self, after: &Column, index: ArchetypeWorldIndex, row: Row) -> bool {
        &&& self.same_but(after, index)
        &&& after.slots().len() == self.slots().len()
        &&& forall|r: Row| #[trigger] after.cell(index, r) == self.cell(index, r)
        &&& forall|r: Row| #[trigger] after.tick(index, r) == self.tick(index, r)
        &&& after.log(index) == self.log(index)
        &&& after.released(index) == if self.meta().needs_drop {
            self.released(index).push(self.cell(index, row))
        } else {
            self.released(index)
        }
    }

    /// Moves the value of a row of one archetype to a row of another, as an
    /// entity moves between archetypes: the bytes are copied, and the tick
    /// with them; where the column tracks ticks and a tick was recorded,
    /// the entity is logged with it for the archetype it moves to. The row
    /// it moves from is left as it is.
    pub fn move_row(
        &mut self,
        from: ArchetypeWorldIndex,
        src: Row,
        to: ArchetypeWorldIndex,
        dst: Row,
        e: Entity,
    )
        requires
            old(self).has_slot(from),
            old(self).has_slot(to),
            from != to,
            row_fits(src, old(self).size()),
            row_fits(dst, old(self).size()),
        ensures
            old(self).moved_row(final(self), from, src, to, dst, e),
    {
        let size: usize = self.info.size();
        let data = self.arr[from.index()].read_row(src, size);
        let tick = self.arr[from.index()].get_tick(src);
        proof {
            assert(dst.0 < MAX_ROWS);
        }
        self.arr[to.index()].write_row(dst, size, &data);
        self.arr[to.index()].set_tick(dst, tick);
        if self.info.is_tick() && tick.0 > 0 {
            self.arr[to.index()].record(e, tick);
        }
    }

    /// Initialises the value of a row of an archetype: writes the default
    /// value of the type, zeroes where it has none, and records `tick` as
    /// the tick at which the value was added, where the column tracks
    /// ticks.
    pub fn init_cell(&mut self, index: ArchetypeWorldIndex, row: Row, e: Entity, tick: Tick)
        requires
            old(self).has_slot(index),
            old(self).meta().wf(),
            row_fits(row, old(self).size()),
        ensures
            old(self).initialised(final(self), index, row, e, tick),
    {
        let size: usize = self.info.size();
        let data = self.info.default_vec();
        self.arr[index.index()].write_row(row, size, &data);
        if self.info.is_tick() {
            self.arr[index.index()].set_tick(row, tick);
            self.arr[index.index()].record(e, tick);
        }
    }

    /// Releases the value of a row of an archetype where the type has a
    /// destructor: its bytes join the released values of the archetype.
    pub fn drop_cell(&mut self, index: ArchetypeWorldIndex, row: Row)
        requires
            old(self).has_slot(index),
            row_fits(row, old(self).size()),
        ensures
            old(self).dropped(final(self), index, row),
    {
        if self.info.needs_drop {
            let size: usize = self.info.size();
            self.arr[index.index()].release(row, size);
        }
    }

    /// The number of values of the archetype whose destructor is owed.
    pub fn released_len(&self, index: ArchetypeWorldIndex) -> (r: usize)
        ensures
            r == self.released(index).len(),
    {
        if index.0 >= 0 && index.index() < self.arr.len() {
            self.arr[index.index()].released_count()
        } else {
            0
        }
    }

    /// Takes the released values of the archetype out, oldest first, for
    /// their destructors to run. Nothing else changes.
    pub fn take_released(&mut self, index: ArchetypeWorldIndex) -> (r: Vec<Vec<u8>>)
        ensures
            r@.map_values(|v: Vec<u8>| v@) == old(self).released(index),
            final(self).released(index).len() == 0,
            final(self).meta() == old(self).meta(),
            final(self).slots().len() == old(self).slots().len(),
            old(self).same_but(final(self), index),
            forall|row: Row| #[trigger] final(self).cell(index, row) == old(self).cell(index, row),
            forall|row: Row| #[trigger] final(self).tick(index, row) == old(self).tick(index, row),
            final(self).log(index) == old(self).log(index),
    {
        if index.0 >= 0 && index.index() < self.arr.len() {
            self.arr[index.index()].take_released()
        } else {
            let out: Vec<Vec<u8>> = Vec::new();
            proof {
                assert(out@.map_values(|v: Vec<u8>| v@) =~= Seq::<Seq<u8>>::empty());
            }
            out
        }
    }

    /// Empties the log of the archetype. Nothing else changes.
    pub fn clear_log(&mut self, index: ArchetypeWorldIndex)
        ensures
            final(self).log(index).len() == 0,
            final(self).meta() == old(self).meta(),
            final(self).slots().len() == old(self).slots().len(),
            old(self).same_but(final(self), index),
            forall|row: Row| #[trigger] final(self).cell(index, row) == old(self).cell(index, row),
            forall|row: Row| #[trigger] final(self).tick(index, row) == old(self).tick(index, row),
            final(self).released(index) == old(self).released(index),
    {
        if index.0 >= 0 && index.index() < self.arr.len() {
            self.arr[index.index()].clear_log();
        }
    }

    /// The column's storage for an archetype that has some.
    pub fn blob(&self, index: ArchetypeWorldIndex) -> (r: &BlobTicks)
        requires
            self.has_slot(index),
        ensures
            *r == self.slot(index),
    {
        &self.arr[index.index()]
    }

    /// The number of archetypes that the column has given storage to, by
    /// the largest index among them.
    pub fn slot_count(&self) -> (r: usize)
        ensures
            r == self.slots().len(),
    {
        self.arr.len()
    }
}

/// Whether `after` has the columns of `before`, each with its metadata and
/// with storage for at least the archetypes it had storage for.
pub open spec fn store_extends(before: Seq<Column>, after: Seq<Column>) -> bool {
    &&& after.len() == before.len()
    &&& forall|c: int|
        0 <= c < before.len() ==> (#[trigger] after[c]).meta() == before[c].meta()
            && after[c].slots().len() >= before[c].slots().len()
}

/// Whether the column stores for the archetype after what it stored before.
pub open spec fn slot_same(before: Column, after: Column, index: ArchetypeWorldIndex) -> bool {
    &&& forall|r: Row| #[trigger] after.cell(index, r) == before.cell(index, r)
    &&& forall|r: Row| #[trigger] after.tick(index, r) == before.tick(index, r)
    &&& after.log(index) == before.log(index)
    &&& after.released(index) == before.released(index)
}

/// A column that keeps what it stores for every archetype but `index`
/// keeps every observation of those archetypes.
pub proof fn lemma_same_but_slots(before: Column, after: Column, index: ArchetypeWorldIndex)
    requires
        before.same_but(&after, index),
    ensures
        forall|other: ArchetypeWorldIndex|
            other != index ==> #[trigger] slot_same(before, after, other),
{
    assert forall|other: ArchetypeWorldIndex| other != index implies #[trigger] slot_same(
        before,
        after,
        other,
    ) by {
        if before.has_slot(other) {
            assert(after.slots()[other.0 as int] == before.slots()[other.0 as int]);
        } else if after.has_slot(other) {
            assert(after.slots()[other.0 as int].is_empty());
        }
    }
}

} // verus!
