//! The buffers that carry a frame from the simulation to the renderer.
//!
//! Every buffer exists three times, once per section. The producer fills
//! the section the cursor points at and then flips the cursor; the consumer
//! reads the section that was filled last; the third section is spare, so
//! neither side ever waits for the other.
//!
//! Storage is kept as 32-bit words, the unit in which the renderer
//! addresses it.

use vstd::prelude::*;

verus! {

/// One of the three sections of a triple buffer.
#[derive(Clone, Copy, Debug, PartialEq, Eq, Hash, Structural)]
pub enum StorageSection {
    First,
    Second,
    Third,
}

impl StorageSection {
    /// The number of the section: `0`, `1` or `2`.
    pub open spec fn index(self) -> int {
        match self {
            StorageSection::First => 0,
            StorageSection::Second => 1,
            StorageSection::Third => 2,
        }
    }

    /// The section that the cursor moves to after this one.
    pub open spec fn following(self) -> StorageSection {
        match self {
            StorageSection::First => StorageSection::Second,
            StorageSection::Second => StorageSection::Third,
            StorageSection::Third => StorageSection::First,
        }
    }

    /// The section that the cursor came from.
    pub open spec fn preceding(self) -> StorageSection {
        match self {
            StorageSection::First => StorageSection::Third,
            StorageSection::Second => StorageSection::First,
            StorageSection::Third => StorageSection::Second,
        }
    }

    pub fn as_index(self) -> (i: usize)
        ensures
            i == self.index(),
    {
        match self {
            StorageSection::First => 0,
            StorageSection::Second => 1,
            StorageSection::Third => 2,
        }
    }

    /// The section numbered `i`, if `i` is below three.
    pub fn from_index(i: usize) -> (section: Option<Self>)
        ensures
            i < 3 <==> section.is_some(),
            section.is_some() ==> section.unwrap().index() == i,
    {
        if i == 0 {
            Some(StorageSection::First)
        } else if i == 1 {
            Some(StorageSection::Second)
        } else if i == 2 {
            Some(StorageSection::Third)
        } else {
            None
        }
    }

    pub fn next(self) -> (section: Self)
        ensures
            section == self.following(),
            section.index() == (self.index() + 1) % 3,
    {
        match self {
            StorageSection::First => StorageSection::Second,
            StorageSection::Second => StorageSection::Third,
            StorageSection::Third => StorageSection::First,
        }
    }

    pub fn previous(self) -> (section: Self)
        ensures
            section == self.preceding(),
            section.index() == (self.index() + 2) % 3,
    {
        match self {
            StorageSection::First => StorageSection::Third,
            StorageSection::Second => StorageSection::First,
            StorageSection::Third => StorageSection::Second,
        }
    }
}

/// Which section the producer fills. The consumer reads the one before it.
#[derive(Clone, Copy, Debug, PartialEq, Eq, Structural)]
pub struct SectionCursor {
    pub writing: StorageSection,
}

impl SectionCursor {
    /// A cursor on the first section.
    pub fn new() -> (cursor: Self)
        ensures
            cursor.writing == StorageSection::First,
    {
        SectionCursor { writing: StorageSection::First }
    }

    /// The section that the producer fills.
    pub fn producer_section(&self) -> (section: StorageSection)
        ensures
            section == self.writing,
    {
        self.writing
    }

    /// The section that the consumer reads: the one filled last.
    pub fn consumer_section(&self) -> (section: StorageSection)
        ensures
            section == self.writing.preceding(),
            section != self.writing,
    {
        self.writing.previous()
    }

    /// Hands the section just filled to the consumer and moves the producer
    /// on. Returns the section handed over.
    pub fn flip(&mut self) -> (handed: StorageSection)
        ensures
            handed == old(self).writing,
            final(self).writing == old(self).writing.following(),
            final(self).writing.preceding() == handed,
            final(self).writing != handed,
    {
        let handed = self.writing;
        self.writing = self.writing.next();
        handed
    }
}

/// Three flips bring the cursor back to where it was, and no two sections
/// in between are the same.
pub proof fn lemma_rotation(section: StorageSection)
    ensures
        section.following().following().following() == section,
        section.following() != section,
        section.following().following() != section,
        section.following().preceding() == section,
        section.preceding().following() == section,
{
}

/// An indirect draw: `count` vertices from `first_vertex`, drawn
/// `instance_count` times from instance `base_instance`.
#[derive(Clone, Copy, Debug, Default, PartialEq, Eq, Hash, Structural)]
pub struct DrawArraysIndirectCommand {
    pub count: u32,
    pub instance_count: u32,
    pub first_vertex: u32,
    pub base_instance: u32,
}

/// What the renderer draws: a mesh, and the handle of its entity data.
#[derive(Clone, Copy, Debug, Default, PartialEq, PartialOrd, Eq, Ord, Hash, Structural)]
pub struct Renderable {
    pub mesh_id: u32,
    pub data_handle: u32,
}

/// A triple buffer of lists: each section holds at most `capacity` items.
pub struct TriBuffer<T> {
    pub first: Vec<T>,
    pub second: Vec<T>,
    pub third: Vec<T>,
    pub capacity: usize,
}

impl<T: Copy> TriBuffer<T> {
    /// No section holds more than the capacity.
    pub open spec fn wf(&self) -> bool {
        &&& self.first@.len() <= self.capacity
        &&& self.second@.len() <= self.capacity
        &&& self.third@.len() <= self.capacity
    }

    /// What `section` holds.
    pub open spec fn section(&self, section: StorageSection) -> Seq<T> {
        match section {
            StorageSection::First => self.first@,
            StorageSection::Second => self.second@,
            StorageSection::Third => self.third@,
        }
    }

    /// Three empty sections of the given capacity.
    pub fn new(capacity: usize) -> (buffer: Self)
        ensures
            buffer.wf(),
            buffer.capacity == capacity,
            forall|s: StorageSection| #[trigger] buffer.section(s).len() == 0,
    {
        TriBuffer {
            first: Vec::with_capacity(capacity),
            second: Vec::with_capacity(capacity),
            third: Vec::with_capacity(capacity),
            capacity,
        }
    }

    /// The items of `section`.
    pub fn view_section(&self, section: StorageSection) -> (out: &[T])
        ensures
            out@ == self.section(section),
    {
        match section {
            StorageSection::First => self.first.as_slice(),
            StorageSection::Second => self.second.as_slice(),
            StorageSection::Third => self.third.as_slice(),
        }
    }

    /// Replaces what `section` holds by `items`, as far as the capacity
    /// goes. Returns `Err` with the number of items that did not fit and
    /// were left out.
    pub fn upload(&mut self, section: StorageSection, items: &[T]) -> (result: Result<(), usize>)
        requires
            old(self).wf(),
        ensures
            final(self).wf(),
            final(self).capacity == old(self).capacity,
            final(self).section(section) == items@.take(
                if items@.len() <= old(self).capacity {
                    items@.len() as int
                } else {
                    old(self).capacity as int
                },
            ),
            forall|s: StorageSection|
                s != section ==> #[trigger] final(self).section(s) == old(self).section(s),
            result == if items@.len() <= old(self).capacity {
                Ok::<(), usize>(())
            } else {
                Err::<(), usize>((items@.len() - old(self).capacity) as usize)
            },
    {
        let fit: usize = if items.len() <= self.capacity {
            items.len()
        } else {
            self.capacity
        };
        let mut copy: Vec<T> = Vec::with_capacity(fit);
        let mut i: usize = 0;
        while i < fit
            invariant
                i <= fit,
                fit <= items@.len(),
                copy@ == items@.take(i as int),
            decreases fit - i,
        {
            copy.push(items[i]);
            assert(items@.take(i + 1) =~= items@.take(i as int).push(items@[i as int]));
            i += 1;
        }
        match section {
            StorageSection::First => {
                self.first = copy;
            },
            StorageSection::Second => {
                self.second = copy;
            },
            StorageSection::Third => {
                self.third = copy;
            },
        }
        if items.len() <= self.capacity {
            Ok(())
        } else {
            Err(items.len() - self.capacity)
        }
    }
}

/// The draw commands that the producer has queued for the next frame.
pub struct GpuCommandQueue<T> {
    pub commands: Vec<T>,
}

impl<T: Copy> GpuCommandQueue<T> {
    /// An empty queue with room for `capacity` commands.
    pub fn with_capacity(capacity: usize) -> (queue: Self)
        ensures
            queue.commands@.len() == 0,
    {
        GpuCommandQueue { commands: Vec::with_capacity(capacity) }
    }

    pub fn push(&mut self, command: T)
        ensures
            final(self).commands@ == old(self).commands@.push(command),
    {
        self.commands.push(command);
    }

    pub fn len(&self) -> (n: usize)
        ensures
            n == self.commands@.len(),
    {
        self.commands.len()
    }

    pub fn clear(&mut self)
        ensures
            final(self).commands@.len() == 0,
    {
        self.commands.clear();
    }

    /// Copies the queue into `section` of `buffer`, in place of what was
    /// there. Commands beyond the capacity of the buffer are left out, and
    /// their number is returned as the error.
    pub fn upload(&self, buffer: &mut TriBuffer<T>, section: StorageSection) -> (result: Result<
        (),
        usize,
    >)
        requires
            old(buffer).wf(),
        ensures
            final(buffer).wf(),
            final(buffer).capacity == old(buffer).capacity,
            final(buffer).section(section) == self.commands@.take(
                if self.commands@.len() <= old(buffer).capacity {
                    self.commands@.len() as int
                } else {
                    old(buffer).capacity as int
                },
            ),
            forall|s: StorageSection|
                s != section ==> #[trigger] final(buffer).section(s) == old(buffer).section(s),
            result == if self.commands@.len() <= old(buffer).capacity {
                Ok::<(), usize>(())
            } else {
                Err::<(), usize>((self.commands@.len() - old(buffer).capacity) as usize)
            },
    {
        buffer.upload(section, self.commands.as_slice())
    }
}

/// `words` with `source` copied over it from the word `at` on. What would
/// fall beyond the end is left out.
pub open spec fn blitted(words: Seq<u32>, source: Seq<u32>, at: int) -> Seq<u32> {
    Seq::new(
        words.len(),
        |w: int|
            if at <= w < at + source.len() {
                source[w - at]
            } else {
                words[w]
            },
    )
}

/// `words` with the elements of `source`, of `lanes` words each, copied
/// over it, the first at the word `at` and each next one `stride` words
/// further on. The words between the end of one element and the start of
/// the next stay as they were. Copying stops before the first element that
/// would not fit whole.
pub open spec fn blitted_padded(words: Seq<u32>, source: Seq<u32>, at: int, lanes: int, stride: int) -> Seq<
    u32,
>
    decreases source.len(),
{
    if lanes <= 0 || source.len() < lanes || at < 0 || at + lanes > words.len() {
        words
    } else {
        blitted_padded(
            blitted(words, source.take(lanes), at),
            source.skip(lanes),
            at + stride,
            lanes,
            stride,
        )
    }
}

/// The number of elements that a padded copy of `count` elements of `lanes`
/// words writes into `length` words, the first at the word `at` and each
/// next one `stride` words further on.
pub open spec fn padded_fit(length: int, count: int, at: int, lanes: int, stride: int) -> int
    decreases count,
{
    if count <= 0 || at < 0 || at + lanes > length {
        0
    } else {
        1 + padded_fit(length, count - 1, at + stride, lanes, stride)
    }
}

/// A padded copy never changes the length, and leaves alone every word
/// before its start and the padding behind its first element.
pub proof fn lemma_blitted_padded_keeps(
    words: Seq<u32>,
    source: Seq<u32>,
    at: int,
    lanes: int,
    stride: int,
)
    requires
        0 < lanes <= stride,
    ensures
        blitted_padded(words, source, at, lanes, stride).len() == words.len(),
        forall|w: int|
            0 <= w < words.len() && (w < at || at + lanes <= w < at + stride)
                ==> #[trigger] blitted_padded(words, source, at, lanes, stride)[w] == words[w],
    decreases source.len(),
{
    if lanes <= 0 || source.len() < lanes || at < 0 || at + lanes > words.len() {
    } else {
        lemma_blitted_padded_keeps(
            blitted(words, source.take(lanes), at),
            source.skip(lanes),
            at + stride,
            lanes,
            stride,
        );
    }
}

/// A triple buffer of `N` partitions of words.
pub struct PartitionedTriBuffer<const N: usize> {
    /// The words of every partition of every section: section, then
    /// partition.
    pub sections: Vec<Vec<Vec<u32>>>,
}

impl<const N: usize> PartitionedTriBuffer<N> {
    /// Three sections of `N` partitions each, and a partition is as long in
    /// one section as in the others.
    pub open spec fn wf(&self) -> bool {
        &&& self.sections@.len() == 3
        &&& forall|s: int| 0 <= s < 3 ==> (#[trigger] self.sections@[s])@.len() == N
        &&& forall|s: int, p: int|
            0 <= s < 3 && 0 <= p < N ==> (#[trigger] self.sections@[s]@[p])@.len()
                == self.sections@[0]@[p]@.len()
    }

    /// The words of the partition `part` of `section`.
    pub open spec fn part(&self, section: StorageSection, part: int) -> Seq<u32> {
        self.sections@[section.index()]@[part]@
    }

    /// The number of words of the partition `part`.
    pub open spec fn part_len(&self, part: int) -> nat {
        self.sections@[0]@[part]@.len()
    }

    /// Whether every partition but `part` of `section` is as in `before`.
    pub open spec fn same_but(&self, before: &Self, section: StorageSection, part: int) -> bool {
        forall|s: StorageSection, p: int|
            0 <= p < N && (s != section || p != part) ==> #[trigger] self.part(s, p) == before.part(
                s,
                p,
            )
    }

    /// A buffer whose partition `p` has `lengths[p]` words, all zero, in
    /// every section. Partitions beyond the end of `lengths` are empty.
    pub fn new(lengths: &[usize]) -> (buffer: Self)
        ensures
            buffer.wf(),
            forall|p: int|
                0 <= p < N ==> #[trigger] buffer.part_len(p) == if p < lengths@.len() {
                    lengths@[p] as nat
                } else {
                    0nat
                },
            forall|s: StorageSection, p: int, w: int|
                0 <= p < N && 0 <= w < buffer.part_len(p) ==> #[trigger] buffer.part(s, p)[w] == 0,
    {
        let mut sections: Vec<Vec<Vec<u32>>> = Vec::with_capacity(3);
        let mut s: usize = 0;
        while s < 3
            invariant
                s <= 3,
                sections@.len() == s,
                forall|t: int| 0 <= t < s ==> (#[trigger] sections@[t])@.len() == N,
                forall|t: int, p: int|
                    0 <= t < s && 0 <= p < N ==> (#[trigger] sections@[t]@[p])@.len() == if p
                        < lengths@.len() {
                        lengths@[p] as nat
                    } else {
                        0nat
                    },
                forall|t: int, p: int, w: int|
                    0 <= t < s && 0 <= p < N && 0 <= w < sections@[t]@[p]@.len()
                        ==> #[trigger] sections@[t]@[p]@[w] == 0,
            decreases 3 - s,
        {
            let mut parts: Vec<Vec<u32>> = Vec::with_capacity(N);
            let mut p: usize = 0;
            while p < N
                invariant
                    p <= N,
                    parts@.len() == p,
                    forall|q: int|
                        0 <= q < p ==> (#[trigger] parts@[q])@.len() == if q < lengths@.len() {
                            lengths@[q] as nat
                        } else {
                            0nat
                        },
                    forall|q: int, w: int|
                        0 <= q < p && 0 <= w < parts@[q]@.len() ==> #[trigger] parts@[q]@[w] == 0,
                decreases N - p,
            {
                let length: usize = if p < lengths.len() {
                    lengths[p]
                } else {
                    0
                };
                let mut words: Vec<u32> = Vec::with_capacity(length);
                let mut w: usize = 0;
                while w < length
                    invariant
                        w <= length,
                        words@.len() == w,
                        forall|v: int| 0 <= v < w ==> #[trigger] words@[v] == 0,
                    decreases length - w,
                {
                    words.push(0);
                    w += 1;
                }
                parts.push(words);
                p += 1;
            }
            sections.push(parts);
            s += 1;
        }
        PartitionedTriBuffer { sections }
    }

    /// The words of the partition `part` of `section`.
    pub fn view_part(&self, section: StorageSection, part: usize) -> (out: &[u32])
        requires
            self.wf(),
            part < N,
        ensures
            out@ == self.part(section, part as int),
    {
        self.sections[section.as_index()][part].as_slice()
    }

    /// Copies `src` into the partition `part` of `section`, from the word
    /// `dst_offset` on. What does not fit is left out, and the number of
    /// words left out is returned as the error. A partition that does not
    /// exist takes nothing.
    pub fn blit_part(&mut self, section: StorageSection, part: usize, src: &[u32], dst_offset: usize) -> (result:
        Result<(), usize>)
        requires
            old(self).wf(),
        ensures
            final(self).wf(),
            forall|p: int| 0 <= p < N ==> #[trigger] final(self).part_len(p) == old(self).part_len(p),
            part < N ==> final(self).part(section, part as int) == blitted(
                old(self).part(section, part as int),
                src@,
                dst_offset as int,
            ),
            final(self).same_but(old(self), section, part as int),
            result.is_ok() <==> part < N && dst_offset + src@.len() <= old(self).part_len(part as int),
            result.is_err() && part < N && dst_offset <= old(self).part_len(part as int)
                ==> result == Err::<(), usize>(
                (dst_offset + src@.len() - old(self).part_len(part as int)) as usize,
            ),
            result.is_err() && (part >= N || dst_offset > old(self).part_len(part as int))
                ==> result == Err::<(), usize>(src@.len() as usize),
    {
        if part >= N {
            assert(self.same_but(old(self), section, part as int));
            return Err(src.len());
        }
        let s: usize = section.as_index();
        let length: usize = self.sections[s][part].len();
        let room: usize = if dst_offset <= length {
            length - dst_offset
        } else {
            0
        };
        let fit: usize = if src.len() <= room {
            src.len()
        } else {
            room
        };
        let ghost before = self.sections@[s as int]@[part as int]@;
        let mut i: usize = 0;
        while i < fit
            invariant
                i <= fit,
                fit <= src@.len(),
                fit <= room,
                dst_offset + room <= length || room == 0,
                part < N,
                s == section.index(),
                self.sections@.len() == 3,
                self.sections@[s as int]@.len() == N,
                self.sections@[s as int]@[part as int]@.len() == length,
                old(self).wf(),
                length == old(self).sections@[s as int]@[part as int]@.len(),
                forall|t: int| 0 <= t < 3 ==> (#[trigger] self.sections@[t])@.len() == N,
                forall|t: int, p: int|
                    0 <= t < 3 && 0 <= p < N && (t != s || p != part) ==> #[trigger] self.sections@[t]@[p]
                        == old(self).sections@[t]@[p],
                forall|w: int|
                    0 <= w < length ==> #[trigger] self.sections@[s as int]@[part as int]@[w] == if dst_offset
                        <= w < dst_offset + i {
                        src@[w - dst_offset]
                    } else {
                        before[w]
                    },
            decreases fit - i,
        {
            self.sections[s][part][dst_offset + i] = src[i];
            i += 1;
        }
        proof {
            assert(self.part(section, part as int) =~= blitted(before, src@, dst_offset as int));
            assert(self.wf()) by {
                assert forall|t: int, p: int| 0 <= t < 3 && 0 <= p < N implies (
                #[trigger] self.sections@[t]@[p])@.len() == self.sections@[0]@[p]@.len() by {
                    assert(old(self).sections@[t]@[p]@.len() == old(self).sections@[0]@[p]@.len());
                    assert(old(self).sections@[s as int]@[p]@.len() == old(
                        self,
                    ).sections@[0]@[p]@.len());
                    if t != s || p != part {
                        assert(self.sections@[t]@[p] == old(self).sections@[t]@[p]);
                    }
                    if 0 != s || p != part {
                        assert(self.sections@[0]@[p] == old(self).sections@[0]@[p]);
                    }
                }
            }
            assert forall|s2: StorageSection, p: int|
                0 <= p < N && (s2 != section || p != part) implies #[trigger] self.part(s2, p)
                == old(self).part(s2, p) by {
                assert(self.sections@[s2.index()]@[p] == old(self).sections@[s2.index()]@[p]);
            }
        }
        if dst_offset > length {
            Err(src.len())
        } else if src.len() <= room {
            Ok(())
        } else {
            Err(src.len() - room)
        }
    }

    /// Copies the elements of `src`, three words each, into the partition
    /// `part` of `section`, where an element takes `stride` words: element
    /// `i` goes to the words from `(dst_offset + i) * stride` on, and the
    /// words behind its three stay as they were. Copying stops before the
    /// first element that would not fit whole; the number of elements left
    /// out is returned as the error. A partition that does not exist takes
    /// nothing.
    pub fn blit_part_padded(
        &mut self,
        section: StorageSection,
        part: usize,
        src: &[[u32; 3]],
        dst_offset: usize,
        stride: usize,
    ) -> (result: Result<(), usize>)
        requires
            old(self).wf(),
            stride >= 3,
            dst_offset * stride <= usize::MAX,
        ensures
            final(self).wf(),
            forall|p: int| 0 <= p < N ==> #[trigger] final(self).part_len(p) == old(self).part_len(p),
            part < N ==> final(self).part(section, part as int) == blitted_padded(
                old(self).part(section, part as int),
                flat3(src@),
                dst_offset * stride,
                3,
                stride as int,
            ),
            final(self).same_but(old(self), section, part as int),
            part >= N ==> result == Err::<(), usize>(src@.len() as usize),
            part < N ==> result == ({
                let fit = padded_fit(
                    old(self).part_len(part as int) as int,
                    src@.len() as int,
                    dst_offset * stride,
                    3,
                    stride as int,
                );
                if fit == src@.len() {
                    Ok::<(), usize>(())
                } else {
                    Err::<(), usize>((src@.len() - fit) as usize)
                }
            }),
    {
        if part >= N {
            assert(self.same_but(old(self), section, part as int));
            return Err(src.len());
        }
        let s: usize = section.as_index();
        let length: usize = self.sections[s][part].len();
        let ghost before = self.sections@[s as int]@[part as int]@;
        let ghost start = dst_offset * stride;
        let mut at: usize = dst_offset * stride;
        let mut i: usize = 0;
        proof {
            assert(flat3(src@).skip(0) =~= flat3(src@));
            lemma_flat3_len(src@);
        }
        while i < src.len() && at <= length && length - at >= 3
            invariant
                i <= src@.len(),
                stride >= 3,
                part < N,
                s == section.index(),
                self.sections@.len() == 3,
                self.sections@[s as int]@.len() == N,
                self.sections@[s as int]@[part as int]@.len() == length,
                before.len() == length,
                before == old(self).sections@[s as int]@[part as int]@,
                start == dst_offset * stride,
                old(self).wf(),
                length == old(self).sections@[s as int]@[part as int]@.len(),
                forall|t: int| 0 <= t < 3 ==> (#[trigger] self.sections@[t])@.len() == N,
                forall|t: int, p: int|
                    0 <= t < 3 && 0 <= p < N && (t != s || p != part) ==> #[trigger] self.sections@[t]@[p]
                        == old(self).sections@[t]@[p],
                blitted_padded(before, flat3(src@), start as int, 3, stride as int)
                    == blitted_padded(
                    self.sections@[s as int]@[part as int]@,
                    flat3(src@).skip(3 * i),
                    at as int,
                    3,
                    stride as int,
                ),
                flat3(src@).len() == 3 * src@.len(),
                padded_fit(length as int, src@.len() as int, start as int, 3, stride as int) == i
                    + padded_fit(length as int, src@.len() - i, at as int, 3, stride as int),
            decreases src@.len() - i,
        {
            let element: [u32; 3] = src[i];
            let ghost now = self.sections@[s as int]@[part as int]@;
            let ghost rest = flat3(src@).skip(3 * i);
            self.sections[s][part][at] = element[0];
            self.sections[s][part][at + 1] = element[1];
            self.sections[s][part][at + 2] = element[2];
            proof {
                lemma_flat3_at(src@, i as int);
                assert(rest.take(3) =~= seq![element[0], element[1], element[2]]);
                assert(self.sections@[s as int]@[part as int]@ =~= blitted(now, rest.take(3), at as int));
                assert(rest.skip(3) =~= flat3(src@).skip(3 * (i + 1)));
            }
            i += 1;
            if at > usize::MAX - stride {
                proof {
                    let after = self.sections@[s as int]@[part as int]@;
                    let tail = flat3(src@).skip(3 * i);
                    assert(at + stride > length);
                    assert(blitted_padded(after, tail, at + stride, 3, stride as int) == after);
                    assert(padded_fit(
                        length as int,
                        src@.len() - i,
                        at + stride,
                        3,
                        stride as int,
                    ) == 0);
                }
                assert(self.part(section, part as int) == blitted_padded(
                    before,
                    flat3(src@),
                    start as int,
                    3,
                    stride as int,
                ));
                proof {
                    assert(self.wf()) by {
                        assert forall|t: int, p: int| 0 <= t < 3 && 0 <= p < N implies (
                        #[trigger] self.sections@[t]@[p])@.len() == self.sections@[0]@[p]@.len() by {
                            assert(old(self).sections@[t]@[p]@.len() == old(
                                self,
                            ).sections@[0]@[p]@.len());
                            assert(old(self).sections@[s as int]@[p]@.len() == old(
                                self,
                            ).sections@[0]@[p]@.len());
                            if t != s || p != part {
                                assert(self.sections@[t]@[p] == old(self).sections@[t]@[p]);
                            }
                            if 0 != s || p != part {
                                assert(self.sections@[0]@[p] == old(self).sections@[0]@[p]);
                            }
                        }
                    }
                    assert forall|s2: StorageSection, p: int|
                        0 <= p < N && (s2 != section || p != part) implies #[trigger] self.part(
                        s2,
                        p,
                    ) == old(self).part(s2, p) by {
                        assert(self.sections@[s2.index()]@[p] == old(self).sections@[s2.index()]@[p]);
                    }
                }
                return if i == src.len() {
                    Ok(())
                } else {
                    Err(src.len() - i)
                };
            }
            at += stride;
        }
        proof {
            let after = self.sections@[s as int]@[part as int]@;
            let tail = flat3(src@).skip(3 * i);
            assert(blitted_padded(after, tail, at as int, 3, stride as int) == after);
            assert(padded_fit(length as int, src@.len() - i, at as int, 3, stride as int) == 0);
            assert(self.wf()) by {
                assert forall|t: int, p: int| 0 <= t < 3 && 0 <= p < N implies (
                #[trigger] self.sections@[t]@[p])@.len() == self.sections@[0]@[p]@.len() by {
                    assert(old(self).sections@[t]@[p]@.len() == old(self).sections@[0]@[p]@.len());
                    assert(old(self).sections@[s as int]@[p]@.len() == old(
                        self,
                    ).sections@[0]@[p]@.len());
                    if t != s || p != part {
                        assert(self.sections@[t]@[p] == old(self).sections@[t]@[p]);
                    }
                    if 0 != s || p != part {
                        assert(self.sections@[0]@[p] == old(self).sections@[0]@[p]);
                    }
                }
            }
            assert forall|s2: StorageSection, p: int|
                0 <= p < N && (s2 != section || p != part) implies #[trigger] self.part(s2, p)
                == old(self).part(s2, p) by {
                assert(self.sections@[s2.index()]@[p] == old(self).sections@[s2.index()]@[p]);
            }
        }
        if i == src.len() {
            Ok(())
        } else {
            Err(src.len() - i)
        }
    }
}

/// The words of `elements`, one element after the other.
pub open spec fn flat3(elements: Seq<[u32; 3]>) -> Seq<u32> {
    Seq::new(3 * elements.len(), |w: int| elements[w / 3][w % 3])
}

/// Three words for every element.
pub proof fn lemma_flat3_len(elements: Seq<[u32; 3]>)
    ensures
        flat3(elements).len() == 3 * elements.len(),
{
}

/// The three words of the element `i` stand at `3 * i` and behind.
pub proof fn lemma_flat3_at(elements: Seq<[u32; 3]>, i: int)
    requires
        0 <= i < elements.len(),
    ensures
        flat3(elements)[3 * i] == elements[i][0],
        flat3(elements)[3 * i + 1] == elements[i][1],
        flat3(elements)[3 * i + 2] == elements[i][2],
{
}

} // verus!
