//! A single column addressed by stable handles.
//!
//! The column keeps its rows dense: freeing a row moves the last row into
//! its place. Handles stay valid across such moves. Row `0` belongs to the
//! degenerate handle and holds the value the column was made with; every
//! lookup of a handle that is not live lands there.

use vstd::prelude::*;
use crate::slots::{SlotIndex, SlotModel, lemma_freed, lemma_freed_column, lemma_put, swap_removed};

verus! {

/// The mathematical state of a column: the index and the dense rows.
pub struct ColumnModel<T> {
    pub index: SlotModel,
    pub rows: Seq<T>,
}

/// One operation on a column.
pub enum ColumnOp<T> {
    /// Append a row with this value.
    Put(T),
    /// Free the row of this handle.
    Free(u32),
}

impl<T> ColumnModel<T> {
    /// The index is well formed and there is a row for every dense
    /// position.
    pub open spec fn wf(self) -> bool {
        self.index.wf() && self.rows.len() == self.index.handles.len()
    }

    /// A column that holds the degenerate row alone.
    pub open spec fn empty(fallback: T) -> ColumnModel<T> {
        ColumnModel { index: SlotModel::empty(), rows: seq![fallback] }
    }

    /// The value of the row of `h`; the degenerate row's when `h` is not
    /// live.
    pub open spec fn value_of(self, h: u32) -> T {
        self.rows[self.index.index_of(h) as int]
    }

    /// The column after `value` is appended.
    pub open spec fn put(self, value: T) -> ColumnModel<T> {
        ColumnModel { index: self.index.put(), rows: self.rows.push(value) }
    }

    /// The column after `h` is freed.
    pub open spec fn freed(self, h: u32) -> ColumnModel<T> {
        if h == 0 || !self.index.live(h) {
            self
        } else {
            ColumnModel {
                index: self.index.freed(h),
                rows: swap_removed(self.rows, self.index.index_of(h) as int),
            }
        }
    }

    /// The column after one operation.
    pub open spec fn apply(self, op: ColumnOp<T>) -> ColumnModel<T> {
        match op {
            ColumnOp::Put(value) => self.put(value),
            ColumnOp::Free(h) => self.freed(h),
        }
    }

    /// The column after every operation of `ops`, first to last.
    pub open spec fn run(self, ops: Seq<ColumnOp<T>>) -> ColumnModel<T>
        decreases ops.len(),
    {
        if ops.len() == 0 {
            self
        } else {
            self.run(ops.drop_last()).apply(ops.last())
        }
    }

    /// What the operations of `ops`, run on `self`, wrote and did not free
    /// since: the value of every handle that a `Put` returned, until a
    /// `Free` names it.
    pub open spec fn written(self, ops: Seq<ColumnOp<T>>) -> Map<u32, T>
        decreases ops.len(),
    {
        if ops.len() == 0 {
            Map::empty()
        } else {
            let before = self.written(ops.drop_last());
            match ops.last() {
                ColumnOp::Put(value) => before.insert(
                    self.run(ops.drop_last()).index.next_handle(),
                    value,
                ),
                ColumnOp::Free(h) => before.remove(h),
            }
        }
    }

    /// How many rows the operations of `ops`, run on `self`, added, less
    /// how many they removed. A `Free` counts when it names a live handle
    /// other than the degenerate one.
    pub open spec fn balance(self, ops: Seq<ColumnOp<T>>) -> int
        decreases ops.len(),
    {
        if ops.len() == 0 {
            0
        } else {
            let before = self.run(ops.drop_last());
            self.balance(ops.drop_last()) + match ops.last() {
                ColumnOp::Put(_) => 1int,
                ColumnOp::Free(h) => if h != 0 && before.index.live(h) {
                    -1int
                } else {
                    0int
                },
            }
        }
    }
}

/// Whatever sequence of operations runs on a fresh column, as long as the
/// rows can still be counted in 32 bits: the column stays well formed; the
/// degenerate handle is live and its row holds the initial value; every
/// handle that was put and not freed since is live, is not the degenerate
/// one, and reads back the value that was written; and the number of rows
/// is the number of puts less the number of frees that named a live row.
pub proof fn lemma_column_operations<T>(fallback: T, ops: Seq<ColumnOp<T>>)
    requires
        ops.len() + 1 < u32::MAX,
    ensures
        ({
            let start = ColumnModel::empty(fallback);
            let end = start.run(ops);
            &&& end.wf()
            &&& end.index.live(0)
            &&& end.index.index_of(0) == 0
            &&& end.rows[0] == fallback
            &&& end.index.live_count() == start.balance(ops)
            &&& end.index.handles.len() <= ops.len() + 1
            &&& forall|h: u32| #[trigger]
                start.written(ops).dom().contains(h) ==> h != 0 && end.index.live(h)
                    && end.index.handles[end.index.index_of(h) as int] == h && end.value_of(h)
                    == start.written(ops)[h]
            &&& forall|h: u32|
                h != 0 && #[trigger] end.index.live(h) ==> start.written(ops).dom().contains(h)
        }),
    decreases ops.len(),
{
    let start = ColumnModel::empty(fallback);
    if ops.len() == 0 {
        assert(start.index.wf());
    } else {
        let earlier = ops.drop_last();
        lemma_column_operations(fallback, earlier);
        let mid = start.run(earlier);
        let end = start.run(ops);
        let wrote = start.written(earlier);
        match ops.last() {
            ColumnOp::Put(value) => {
                lemma_put(mid.index);
                let new = mid.index.next_handle();
                assert forall|h: u32| #[trigger]
                    start.written(ops).dom().contains(h) implies h != 0 && end.index.live(h)
                    && end.index.handles[end.index.index_of(h) as int] == h && end.value_of(h)
                    == start.written(ops)[h] by {
                    if h != new {
                        assert(wrote.dom().contains(h));
                        assert(mid.value_of(h) == wrote[h]);
                        assert(end.index.index_of(h) == mid.index.index_of(h));
                    }
                }
                assert forall|h: u32| h != 0 && #[trigger] end.index.live(h) implies start.written(
                    ops,
                ).dom().contains(h) by {
                    if h != new {
                        assert(mid.index.live(h));
                    }
                }
            },
            ColumnOp::Free(gone) => {
                lemma_freed(mid.index, gone);
                if gone != 0 && mid.index.live(gone) {
                    lemma_freed_column(mid.index, gone, mid.rows);
                    lemma_freed_column(mid.index, gone, mid.index.handles);
                    assert(mid.index.index_of(gone) != 0);
                    assert(end.rows[0] == fallback) by {
                        assert(swap_removed(mid.rows, mid.index.index_of(gone) as int)[mid.index.freed(
                            gone,
                        ).index_of(0) as int] == mid.rows[mid.index.index_of(0) as int]);
                    }
                    assert forall|h: u32| #[trigger]
                        start.written(ops).dom().contains(h) implies h != 0 && end.index.live(h)
                        && end.index.handles[end.index.index_of(h) as int] == h && end.value_of(h)
                        == start.written(ops)[h] by {
                        assert(wrote.dom().contains(h));
                        assert(h != gone);
                        assert(mid.index.live(h));
                        assert(swap_removed(mid.rows, mid.index.index_of(gone) as int)[mid.index.freed(
                            gone,
                        ).index_of(h) as int] == mid.rows[mid.index.index_of(h) as int]);
                        assert(swap_removed(
                            mid.index.handles,
                            mid.index.index_of(gone) as int,
                        )[mid.index.freed(gone).index_of(h) as int]
                            == mid.index.handles[mid.index.index_of(h) as int]);
                    }
                    assert forall|h: u32| h != 0 && #[trigger] end.index.live(h) implies start.written(
                        ops,
                    ).dom().contains(h) by {
                        assert(h != gone);
                        assert(mid.index.live(h));
                        assert(wrote.dom().contains(h));
                    }
                } else {
                    assert forall|h: u32| #[trigger]
                        start.written(ops).dom().contains(h) implies h != 0 && end.index.live(h)
                        && end.index.handles[end.index.index_of(h) as int] == h && end.value_of(h)
                        == start.written(ops)[h] by {
                        assert(wrote.dom().contains(h));
                    }
                    assert forall|h: u32| h != 0 && #[trigger] end.index.live(h) implies start.written(
                        ops,
                    ).dom().contains(h) by {
                        assert(wrote.dom().contains(h));
                        assert(h != gone);
                    }
                }
            },
        }
    }
}

/// A column of `T` addressed by stable handles.
pub struct ParallelIndexArrayColumn<T> {
    pub index: SlotIndex,
    pub contiguous: Vec<T>,
}

impl<T> View for ParallelIndexArrayColumn<T> {
    type V = ColumnModel<T>;

    open spec fn view(&self) -> ColumnModel<T> {
        ColumnModel { index: self.index@, rows: self.contiguous@ }
    }
}

impl<T> ParallelIndexArrayColumn<T> {
    /// The representation invariant.
    pub open spec fn wf(&self) -> bool {
        self@.wf()
    }

    /// A column whose degenerate row holds `fallback`.
    pub fn new(fallback: T) -> (column: Self)
        ensures
            column.wf(),
            column@ == ColumnModel::empty(fallback),
    {
        Self::with_capacity(fallback, 0)
    }

    /// As [`ParallelIndexArrayColumn::new`], with room for `capacity` rows.
    pub fn with_capacity(fallback: T, capacity: usize) -> (column: Self)
        ensures
            column.wf(),
            column@ == ColumnModel::empty(fallback),
    {
        let mut contiguous: Vec<T> = Vec::with_capacity(capacity);
        contiguous.push(fallback);
        let column = ParallelIndexArrayColumn { index: SlotIndex::with_capacity(capacity), contiguous };
        assert(column@.rows =~= seq![fallback]);
        column
    }

    /// The number of rows, the degenerate one included.
    pub fn len(&self) -> (n: usize)
        ensures
            n == self@.index.handles.len(),
    {
        self.index.len()
    }

    /// The owning handle of every row, in dense order.
    pub fn handles(&self) -> (out: &[u32])
        ensures
            out@ == self@.index.handles,
    {
        self.index.handles()
    }

    /// The dense position of every handle; `0` where the handle is not live.
    pub fn slots_map(&self) -> (out: &[u32])
        ensures
            out@ == self@.index.slots,
    {
        self.index.slots_map()
    }

    /// The rows, in dense order.
    pub fn contiguous(&self) -> (out: &[T])
        ensures
            out@ == self@.rows,
    {
        self.contiguous.as_slice()
    }

    /// The dense position of `h`, or `None` when `h` is not live.
    pub fn get_indirect(&self, h: u32) -> (at: Option<u32>)
        requires
            self.wf(),
        ensures
            self@.index.live(h) ==> at == Some(self@.index.index_of(h)),
            !self@.index.live(h) ==> at.is_none(),
            at.is_some() ==> at.unwrap() < self@.rows.len(),
    {
        self.index.get_indirect(h)
    }

    /// The dense position of `h`; the degenerate row when `h` is not live.
    pub fn get_indirect_unchecked(&self, h: u32) -> (at: u32)
        requires
            self.wf(),
        ensures
            at == self@.index.index_of(h),
            at < self@.rows.len(),
    {
        self.index.get_indirect_unchecked(h)
    }

    /// The row of `h`; the degenerate row when `h` is not live.
    pub fn get(&self, h: u32) -> (row: &T)
        requires
            self.wf(),
        ensures
            *row == self@.value_of(h),
    {
        let at: u32 = self.index.get_indirect_unchecked(h);
        &self.contiguous[at as usize]
    }

    /// Replaces the row of `h`. Returns `false`, and changes nothing, when
    /// `h` is the degenerate handle or not live.
    pub fn set(&mut self, h: u32, value: T) -> (done: bool)
        requires
            old(self).wf(),
        ensures
            final(self).wf(),
            final(self)@.index == old(self)@.index,
            done == (h != 0 && old(self)@.index.live(h)),
            done ==> final(self)@.rows == old(self)@.rows.update(
                old(self)@.index.index_of(h) as int,
                value,
            ),
            !done ==> final(self)@.rows == old(self)@.rows,
    {
        if h == 0 {
            return false;
        }
        match self.index.get_indirect(h) {
            Some(at) => {
                self.contiguous[at as usize] = value;
                true
            },
            None => false,
        }
    }

    /// Appends a row and returns its handle, which is never `0`: the most
    /// recently freed handle if there is one, else the next unused number.
    pub fn put(&mut self, value: T) -> (h: u32)
        requires
            old(self).wf(),
            old(self)@.index.handles.len() < u32::MAX,
        ensures
            final(self).wf(),
            final(self)@ == old(self)@.put(value),
            h == old(self)@.index.next_handle(),
            h != 0,
            !old(self)@.index.live(h),
            final(self)@.index.live(h),
            final(self)@.value_of(h) == value,
            final(self)@.index.live_count() == old(self)@.index.live_count() + 1,
            forall|g: u32|
                g != h ==> final(self)@.index.live(g) == old(self)@.index.live(g)
                    && #[trigger] final(self)@.value_of(g) == old(self)@.value_of(g),
    {
        proof {
            lemma_put(self.index@);
        }
        let h: u32 = self.index.put();
        self.contiguous.push(value);
        proof {
            assert forall|g: u32| g != h implies self@.index.live(g) == old(self)@.index.live(g)
                && #[trigger] self@.value_of(g) == old(self)@.value_of(g) by {
                assert(self@.index.index_of(g) == old(self)@.index.index_of(g));
                assert(old(self)@.index.index_of(g) < old(self)@.rows.len());
            }
        }
        h
    }

    /// Frees the row of `h`: the last row takes its place. The degenerate
    /// handle and handles that are not live are ignored. Every other live
    /// handle keeps its row.
    pub fn free(&mut self, h: u32)
        requires
            old(self).wf(),
        ensures
            final(self).wf(),
            final(self)@ == old(self)@.freed(h),
            h != 0 ==> !final(self)@.index.live(h),
            h != 0 && old(self)@.index.live(h) ==> final(self)@.index.live_count() == old(
                self,
            )@.index.live_count() - 1,
            forall|g: u32|
                g != h && old(self)@.index.live(g) ==> final(self)@.index.live(g)
                    && #[trigger] final(self)@.value_of(g) == old(self)@.value_of(g),
    {
        proof {
            lemma_freed(self.index@, h);
            if h != 0 && self.index@.live(h) {
                lemma_freed_column(self.index@, h, self.contiguous@);
            }
        }
        match self.index.free(h) {
            Some(at) => {
                self.contiguous.swap_remove(at as usize);
            },
            None => {},
        }
    }
}

} // verus!
