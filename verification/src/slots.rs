//! Stable handles over a dense, compacting array.
//!
//! A [`SlotIndex`] owns both directions of the mapping between handles and
//! dense positions. Handle `0` is the degenerate entry: it is always live,
//! always sits at dense position `0`, and every lookup of a handle that is
//! not live resolves to it.

use vstd::prelude::*;

verus! {

/// The mathematical state of a [`SlotIndex`].
pub struct SlotModel {
    /// Handle to dense position; `0` for a handle that is not live.
    pub slots: Seq<u32>,
    /// Dense position to owning handle.
    pub handles: Seq<u32>,
    /// Handles ready for reuse; the last one is taken first.
    pub free: Seq<u32>,
}

impl SlotModel {
    /// The two maps are inverse to each other, the degenerate entry is in
    /// place, and the free list holds exactly the retired handles.
    pub open spec fn wf(self) -> bool {
        &&& self.slots.len() >= 1
        &&& self.handles.len() >= 1
        &&& self.slots.len() <= u32::MAX
        &&& self.handles.len() + self.free.len() == self.slots.len()
        &&& self.slots[0] == 0
        &&& self.handles[0] == 0
        &&& forall|i: int|
            0 <= i < self.handles.len() ==> (#[trigger] self.handles[i]) < self.slots.len()
                && self.slots[self.handles[i] as int] == i
        &&& forall|h: int|
            0 <= h < self.slots.len() ==> (#[trigger] self.slots[h]) < self.handles.len() && (
            self.slots[h] != 0 ==> self.handles[self.slots[h] as int] == h)
        &&& forall|k: int|
            0 <= k < self.free.len() ==> 0 < (#[trigger] self.free[k]) < self.slots.len()
                && self.slots[self.free[k] as int] == 0
        &&& forall|j: int, k: int|
            0 <= j < k < self.free.len() ==> self.free[j] != self.free[k]
    }

    /// The state of a fresh index: the degenerate entry alone.
    pub open spec fn empty() -> SlotModel {
        SlotModel { slots: seq![0u32], handles: seq![0u32], free: Seq::empty() }
    }

    /// Whether `h` names a row. The degenerate handle always does.
    pub open spec fn live(self, h: u32) -> bool {
        h == 0 || (h < self.slots.len() && self.slots[h as int] != 0)
    }

    /// The dense position of `h`, or `0` when `h` is not live.
    pub open spec fn index_of(self, h: u32) -> u32 {
        if h < self.slots.len() {
            self.slots[h as int]
        } else {
            0
        }
    }

    /// The number of rows besides the degenerate one.
    pub open spec fn live_count(self) -> int {
        self.handles.len() - 1
    }

    /// The handle that the next allocation returns.
    pub open spec fn next_handle(self) -> u32 {
        if self.free.len() > 0 {
            self.free.last()
        } else {
            self.slots.len() as u32
        }
    }

    /// The state after one allocation.
    pub open spec fn put(self) -> SlotModel {
        let h = self.next_handle();
        let at = self.handles.len() as u32;
        SlotModel {
            slots: if self.free.len() > 0 {
                self.slots.update(h as int, at)
            } else {
                self.slots.push(at)
            },
            handles: self.handles.push(h),
            free: if self.free.len() > 0 {
                self.free.drop_last()
            } else {
                self.free
            },
        }
    }

    /// The state after `h` is freed: its dense position is taken over by the
    /// last row. Freeing the degenerate handle, or one that is not live,
    /// changes nothing.
    pub open spec fn freed(self, h: u32) -> SlotModel {
        if h == 0 || !self.live(h) {
            self
        } else {
            let at = self.slots[h as int];
            let moved = self.handles.last();
            SlotModel {
                slots: self.slots.update(moved as int, at).update(h as int, 0),
                handles: self.handles.update(at as int, moved).drop_last(),
                free: self.free.push(h),
            }
        }
    }

    /// The state after `n` allocations in a row.
    pub open spec fn put_n(self, n: nat) -> SlotModel
        decreases n,
    {
        if n == 0 {
            self
        } else {
            self.put_n((n - 1) as nat).put()
        }
    }

    /// The handles that `n` allocations in a row return, in order.
    pub open spec fn allocated(self, n: nat) -> Seq<u32>
        decreases n,
    {
        if n == 0 {
            Seq::empty()
        } else {
            self.allocated((n - 1) as nat).push(self.put_n((n - 1) as nat).next_handle())
        }
    }

    /// The state after every handle of `hs` is freed, first to last.
    pub open spec fn freed_all(self, hs: Seq<u32>) -> SlotModel
        decreases hs.len(),
    {
        if hs.len() == 0 {
            self
        } else {
            self.freed_all(hs.drop_last()).freed(hs.last())
        }
    }
}

/// What one column looks like after the row at `at` is removed by moving the
/// last row into its place.
pub open spec fn swap_removed<T>(column: Seq<T>, at: int) -> Seq<T> {
    column.update(at, column.last()).drop_last()
}

/// An allocation keeps the index well formed, returns a handle that was not
/// live, places it behind every existing row, and moves no other row.
pub proof fn lemma_put(m: SlotModel)
    requires
        m.wf(),
        m.handles.len() < u32::MAX,
    ensures
        m.put().wf(),
        m.next_handle() != 0,
        !m.live(m.next_handle()),
        m.put().live(m.next_handle()),
        m.put().index_of(m.next_handle()) == m.handles.len(),
        m.put().live_count() == m.live_count() + 1,
        m.slots.len() <= m.put().slots.len() <= m.slots.len() + 1,
        forall|h: u32| h != m.next_handle() ==> m.put().live(h) == m.live(h),
        forall|h: u32| h != m.next_handle() ==> m.put().index_of(h) == m.index_of(h),
{
    let h = m.next_handle();
    let p = m.put();
    if m.free.len() > 0 {
        let k = m.free.len() - 1;
        assert(m.free[k] == h);
        assert(forall|i: int| 0 <= i < m.handles.len() ==> m.handles[i] != h) by {
            assert forall|i: int| 0 <= i < m.handles.len() implies m.handles[i] != h by {
                if m.handles[i] == h {
                    assert(m.slots[m.handles[i] as int] == i);
                    assert(m.slots[h as int] == 0);
                    assert(m.handles[0] == 0);
                }
            }
        }
        assert forall|i: int| 0 <= i < p.handles.len() implies (#[trigger] p.handles[i])
            < p.slots.len() && p.slots[p.handles[i] as int] == i by {
            if i < m.handles.len() {
                assert(p.handles[i] == m.handles[i]);
            }
        }
        assert forall|x: int| 0 <= x < p.slots.len() implies (#[trigger] p.slots[x])
            < p.handles.len() && (p.slots[x] != 0 ==> p.handles[p.slots[x] as int] == x) by {
            if x != h {
                assert(p.slots[x] == m.slots[x]);
            }
        }
        assert forall|j: int| 0 <= j < p.free.len() implies 0 < (#[trigger] p.free[j])
            < p.slots.len() && p.slots[p.free[j] as int] == 0 by {
            assert(p.free[j] == m.free[j]);
            assert(m.free[j] != m.free[k]);
        }
    } else {
        assert forall|i: int| 0 <= i < p.handles.len() implies (#[trigger] p.handles[i])
            < p.slots.len() && p.slots[p.handles[i] as int] == i by {
            if i < m.handles.len() {
                assert(p.handles[i] == m.handles[i]);
            }
        }
        assert forall|x: int| 0 <= x < p.slots.len() implies (#[trigger] p.slots[x])
            < p.handles.len() && (p.slots[x] != 0 ==> p.handles[p.slots[x] as int] == x) by {
            if x < m.slots.len() {
                assert(p.slots[x] == m.slots[x]);
            }
        }
    }
}

/// Freeing keeps the index well formed. A live handle other than the
/// degenerate one stops being live and the row count drops by one; every
/// other handle stays as live as it was.
pub proof fn lemma_freed(m: SlotModel, h: u32)
    requires
        m.wf(),
    ensures
        m.freed(h).wf(),
        h != 0 ==> !m.freed(h).live(h),
        forall|g: u32| g != h ==> m.freed(h).live(g) == m.live(g),
        h != 0 && m.live(h) ==> m.freed(h).live_count() == m.live_count() - 1,
        h == 0 || !m.live(h) ==> m.freed(h) == m,
        forall|g: u32|
            g != h && m.live(g) && m.index_of(g) != m.handles.len() - 1 ==> m.freed(h).index_of(g)
                == m.index_of(g),
{
    if h != 0 && m.live(h) {
        let f = m.freed(h);
        let at = m.slots[h as int];
        let last = m.handles.len() - 1;
        let moved = m.handles[last];
        assert(m.handles[at as int] == h);
        assert(at != 0);
        assert(m.slots[moved as int] == last);
        assert(moved != 0) by {
            if moved == 0 {
                assert(m.slots[0] == 0);
            }
        }
        assert forall|i: int| 0 <= i < f.handles.len() implies (#[trigger] f.handles[i])
            < f.slots.len() && f.slots[f.handles[i] as int] == i by {
            if i == at {
                assert(f.handles[i] == moved);
                assert(moved != h);
            } else {
                assert(f.handles[i] == m.handles[i]);
                assert(m.slots[m.handles[i] as int] == i);
            }
        }
        assert forall|x: int| 0 <= x < f.slots.len() implies (#[trigger] f.slots[x])
            < f.handles.len() && (f.slots[x] != 0 ==> f.handles[f.slots[x] as int] == x) by {
            if x == h {
            } else if x == moved {
            } else {
                assert(f.slots[x] == m.slots[x]);
                if m.slots[x] != 0 {
                    assert(m.handles[m.slots[x] as int] == x);
                }
            }
        }
        assert forall|k: int| 0 <= k < f.free.len() implies 0 < (#[trigger] f.free[k])
            < f.slots.len() && f.slots[f.free[k] as int] == 0 by {
            if k < m.free.len() {
                assert(f.free[k] == m.free[k]);
                assert(m.slots[m.free[k] as int] == 0);
            }
        }
        assert forall|j: int, k: int| 0 <= j < k < f.free.len() implies f.free[j] != f.free[k] by {
            if k == m.free.len() {
                assert(f.free[j] == m.free[j]);
                assert(m.slots[m.free[j] as int] == 0);
            } else {
                assert(f.free[j] == m.free[j]);
                assert(f.free[k] == m.free[k]);
            }
        }
        assert forall|g: u32| g != h implies f.live(g) == m.live(g) by {
            if g != 0 && g < m.slots.len() {
                if g == moved {
                } else {
                    assert(f.slots[g as int] == m.slots[g as int]);
                }
            }
        }
    }
}

/// A column that is compacted with the index keeps, for every handle that
/// stays live, the value that the handle had.
pub proof fn lemma_freed_column<T>(m: SlotModel, h: u32, column: Seq<T>)
    requires
        m.wf(),
        column.len() == m.handles.len(),
        h != 0,
        m.live(h),
    ensures
        forall|g: u32|
            g != h && m.live(g) ==> (#[trigger] swap_removed(column, m.index_of(h) as int)[m.freed(
                h,
            ).index_of(g) as int]) == column[m.index_of(g) as int],
{
    lemma_freed(m, h);
    let at = m.slots[h as int];
    let last = m.handles.len() - 1;
    let moved = m.handles[last];
    assert(m.slots[moved as int] == last);
    assert(m.handles[at as int] == h);
    assert forall|g: u32| g != h && m.live(g) implies (#[trigger] swap_removed(
        column,
        m.index_of(h) as int,
    )[m.freed(h).index_of(g) as int]) == column[m.index_of(g) as int] by {
        if g == 0 {
            assert(m.freed(h).index_of(g) == 0);
            assert(at != 0);
        } else if g == moved {
        } else {
            assert(m.freed(h).slots[g as int] == m.slots[g as int]);
            assert(m.handles[m.slots[g as int] as int] == g);
        }
    }
}

/// `n` allocations keep the index well formed and return `n` handles that
/// are not the degenerate one, each placed behind the rows before it.
pub proof fn lemma_put_n(m: SlotModel, n: nat)
    requires
        m.wf(),
        m.handles.len() + n <= u32::MAX,
    ensures
        m.put_n(n).wf(),
        m.put_n(n).handles.len() == m.handles.len() + n,
        m.allocated(n).len() == n,
        m.put_n(n).handles == m.handles + m.allocated(n),
        m.slots.len() <= m.put_n(n).slots.len() <= m.slots.len() + n,
        forall|k: int|
            0 <= k < n ==> (#[trigger] m.allocated(n)[k]) != 0 && m.put_n(n).index_of(
                m.allocated(n)[k],
            ) == m.handles.len() + k,
        forall|j: int, k: int| 0 <= j < k < n ==> m.allocated(n)[j] != m.allocated(n)[k],
        forall|h: u32| m.live(h) ==> m.put_n(n).live(h) && m.put_n(n).index_of(h) == m.index_of(h),
    decreases n,
{
    if n == 0 {
        assert(m.handles + m.allocated(0) =~= m.handles);
    } else {
        let before = (n - 1) as nat;
        lemma_put_n(m, before);
        let mid = m.put_n(before);
        lemma_put(mid);
        let h = mid.next_handle();
        assert(m.put_n(n).handles =~= m.handles + m.allocated(n));
        assert forall|k: int| 0 <= k < n implies (#[trigger] m.allocated(n)[k]) != 0 && m.put_n(
            n,
        ).index_of(m.allocated(n)[k]) == m.handles.len() + k by {
            if k < before {
                assert(m.allocated(n)[k] == m.allocated(before)[k]);
                assert(mid.index_of(m.allocated(before)[k]) == m.handles.len() + k);
                assert(mid.live(m.allocated(before)[k]));
            }
        }
        assert forall|j: int, k: int| 0 <= j < k < n implies m.allocated(n)[j] != m.allocated(
            n,
        )[k] by {
            assert(m.allocated(n)[j] == m.allocated(before)[j]);
            assert(mid.index_of(m.allocated(before)[j]) == m.handles.len() + j);
            assert(mid.live(m.allocated(before)[j]));
        }
    }
}

/// The handle to dense-position maps of a table, with the free list.
pub struct SlotIndex {
    slots_map: Vec<u32>,
    handles: Vec<u32>,
    free_list: Vec<u32>,
}

impl View for SlotIndex {
    type V = SlotModel;

    closed spec fn view(&self) -> SlotModel {
        SlotModel { slots: self.slots_map@, handles: self.handles@, free: self.free_list@ }
    }
}

impl SlotIndex {
    /// The representation invariant.
    pub open spec fn wf(&self) -> bool {
        self@.wf()
    }

    /// An index that holds the degenerate entry alone.
    pub fn new() -> (index: Self)
        ensures
            index.wf(),
            index@ == SlotModel::empty(),
    {
        let mut slots_map: Vec<u32> = Vec::new();
        slots_map.push(0);
        let mut handles: Vec<u32> = Vec::new();
        handles.push(0);
        let index = SlotIndex { slots_map, handles, free_list: Vec::new() };
        assert(index@.slots =~= seq![0u32]);
        assert(index@.handles =~= seq![0u32]);
        assert(index@.free =~= Seq::<u32>::empty());
        index
    }

    /// As [`SlotIndex::new`], with room for `capacity` rows.
    pub fn with_capacity(capacity: usize) -> (index: Self)
        ensures
            index.wf(),
            index@ == SlotModel::empty(),
    {
        let room: usize = if capacity < usize::MAX {
            capacity + 1
        } else {
            capacity
        };
        let mut slots_map: Vec<u32> = Vec::with_capacity(room);
        slots_map.push(0);
        let mut handles: Vec<u32> = Vec::with_capacity(room);
        handles.push(0);
        let index = SlotIndex { slots_map, handles, free_list: Vec::new() };
        assert(index@.slots =~= seq![0u32]);
        assert(index@.handles =~= seq![0u32]);
        assert(index@.free =~= Seq::<u32>::empty());
        index
    }

    /// The number of dense rows, the degenerate one included.
    pub fn len(&self) -> (n: usize)
        ensures
            n == self@.handles.len(),
    {
        self.handles.len()
    }

    /// The owning handle of every dense row, in dense order.
    pub fn handles(&self) -> (out: &[u32])
        ensures
            out@ == self@.handles,
    {
        self.handles.as_slice()
    }

    /// The dense position of every handle ever allocated; `0` where the
    /// handle is not live.
    pub fn slots_map(&self) -> (out: &[u32])
        ensures
            out@ == self@.slots,
    {
        self.slots_map.as_slice()
    }

    /// The handles waiting for reuse.
    pub fn free_list(&self) -> (out: &[u32])
        ensures
            out@ == self@.free,
    {
        self.free_list.as_slice()
    }

    /// The dense position of `h`, or `None` when `h` was freed or never
    /// allocated. The degenerate handle is always found, at position `0`.
    pub fn get_indirect(&self, h: u32) -> (at: Option<u32>)
        requires
            self.wf(),
        ensures
            self@.live(h) ==> at == Some(self@.index_of(h)),
            !self@.live(h) ==> at.is_none(),
            at.is_some() ==> at.unwrap() < self@.handles.len(),
    {
        if h == 0 {
            Some(0)
        } else if (h as usize) < self.slots_map.len() {
            let at: u32 = self.slots_map[h as usize];
            if at != 0 {
                Some(at)
            } else {
                None
            }
        } else {
            None
        }
    }

    /// The dense position of `h` without the liveness answer: a handle that
    /// is not live resolves to the degenerate row.
    pub fn get_indirect_unchecked(&self, h: u32) -> (at: u32)
        requires
            self.wf(),
        ensures
            at == self@.index_of(h),
            at < self@.handles.len(),
            !self@.live(h) ==> at == 0,
    {
        if (h as usize) < self.slots_map.len() {
            self.slots_map[h as usize]
        } else {
            0
        }
    }

    /// Allocates a handle for a new last row: the most recently freed handle
    /// if there is one, else the next unused number.
    pub fn put(&mut self) -> (h: u32)
        requires
            old(self).wf(),
            old(self)@.handles.len() < u32::MAX,
        ensures
            final(self).wf(),
            final(self)@ == old(self)@.put(),
            h == old(self)@.next_handle(),
            h != 0,
            final(self)@.index_of(h) == old(self)@.handles.len(),
    {
        proof {
            lemma_put(self@);
        }
        let at: u32 = self.handles.len() as u32;
        let reused = self.free_list.pop();
        let h: u32 = match reused {
            Some(h) => {
                self.slots_map[h as usize] = at;
                h
            },
            None => {
                let h: u32 = self.slots_map.len() as u32;
                self.slots_map.push(at);
                h
            },
        };
        self.handles.push(h);
        assert(self@.slots =~= old(self)@.put().slots);
        assert(self@.free =~= old(self)@.put().free);
        h
    }

    /// Frees `h`. Returns the dense position that was vacated and refilled by
    /// the last row, or `None` when `h` was the degenerate handle or not live
    /// and nothing changed.
    pub fn free(&mut self, h: u32) -> (vacated: Option<u32>)
        requires
            old(self).wf(),
        ensures
            final(self).wf(),
            final(self)@ == old(self)@.freed(h),
            vacated.is_some() <==> h != 0 && old(self)@.live(h),
            vacated.is_some() ==> vacated.unwrap() == old(self)@.index_of(h) && 0 < vacated.unwrap()
                < old(self)@.handles.len(),
    {
        proof {
            lemma_freed(self@, h);
        }
        if h == 0 || (h as usize) >= self.slots_map.len() {
            return None;
        }
        let at: u32 = self.slots_map[h as usize];
        if at == 0 {
            return None;
        }
        let last: usize = self.handles.len() - 1;
        let moved: u32 = self.handles[last];
        self.handles.swap_remove(at as usize);
        self.slots_map[moved as usize] = at;
        self.slots_map[h as usize] = 0;
        self.free_list.push(h);
        assert(self@.slots =~= old(self)@.freed(h).slots);
        assert(self@.handles =~= old(self)@.freed(h).handles);
        Some(at)
    }
}

} // verus!
