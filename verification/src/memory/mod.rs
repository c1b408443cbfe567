//! Physical memory: the boot-supplied region list and the frame allocator.
//!
//! The boot collaborator hands the kernel a list of physical address ranges,
//! each tagged usable or reserved.  The frame allocator turns the usable
//! ranges into a single forward-only sequence of 4 KiB frames; frames are
//! never freed, so a cursor into that sequence is the whole allocator state.
use vstd::prelude::*;
use vstd::arithmetic::div_mod::lemma_fundamental_div_mod;

pub mod paging;
pub mod allocator;

verus! {

/// Size of one physical frame and one virtual page, in bytes.
pub const PAGE_SIZE: u64 = 4096;

/// One physical memory region from the boot memory map.
#[derive(Debug, Clone, Copy, PartialEq, Eq, Structural)]
pub struct MemoryRegion {
    /// First byte of the region.
    pub start: u64,
    /// One past the last byte of the region.
    pub end: u64,
    /// Whether the boot collaborator marked the region usable.
    pub usable: bool,
}

impl MemoryRegion {
    /// A region is well formed when it is frame-aligned and not reversed.
    pub open spec fn wf(self) -> bool {
        self.start % 4096 == 0 && self.start <= self.end
    }

    /// How many whole frames begin inside the region (usable regions only).
    pub open spec fn num_frames(self) -> nat {
        if self.usable && self.end > self.start {
            (((self.end - self.start - 1) / 4096) + 1) as nat
        } else {
            0
        }
    }

    /// The frame start addresses the region contributes, in ascending order.
    pub open spec fn frames(self) -> Seq<u64> {
        Seq::new(self.num_frames(), |k: int| (self.start + 4096 * k) as u64)
    }
}

/// Two usable regions never overlap.
pub open spec fn regions_disjoint(s: Seq<MemoryRegion>) -> bool {
    forall|i: int, j: int|
        0 <= i < s.len() && 0 <= j < s.len() && i != j && s[i].usable && s[j].usable
            ==> (#[trigger] s[i]).end <= (#[trigger] s[j]).start || s[j].end <= s[i].start
}

/// A well-formed memory map: aligned, unreversed, pairwise disjoint regions.
pub open spec fn regions_wf(s: Seq<MemoryRegion>) -> bool {
    (forall|i: int| 0 <= i < s.len() ==> (#[trigger] s[i]).wf()) && regions_disjoint(s)
}

/// All usable frame start addresses of the map, region by region.
pub open spec fn frames_seq(s: Seq<MemoryRegion>) -> Seq<u64>
    decreases s.len(),
{
    if s.len() == 0 {
        Seq::empty()
    } else {
        s[0].frames() + frames_seq(s.drop_first())
    }
}

/// Every frame of a well-formed region stays inside the region.
proof fn lemma_region_frames_in_bounds(r: MemoryRegion, k: int)
    requires
        r.wf(),
        0 <= k < r.num_frames(),
    ensures
        r.start + 4096 * k < r.end,
        r.frames()[k] == r.start + 4096 * k,
{
    let x = r.end - r.start - 1;
    lemma_fundamental_div_mod(x as int, 4096);
    assert(4096 * (x / 4096) <= x);
    assert(4096 * k <= 4096 * (x / 4096)) by (nonlinear_arith)
        requires
            k <= x / 4096,
    ;
}

/// Within one region the frames are pairwise distinct.
proof fn lemma_region_frames_distinct(r: MemoryRegion, i: int, j: int)
    requires
        r.wf(),
        0 <= i < j < r.num_frames(),
    ensures
        r.frames()[i] != r.frames()[j],
{
    lemma_region_frames_in_bounds(r, i);
    lemma_region_frames_in_bounds(r, j);
}

/// Every frame of the map lies inside one of its usable regions.
proof fn lemma_frames_seq_in_some_region(s: Seq<MemoryRegion>, n: int)
    requires
        regions_wf(s),
        0 <= n < frames_seq(s).len(),
    ensures
        exists|i: int|
            0 <= i < s.len() && (#[trigger] s[i]).usable && s[i].start <= frames_seq(s)[n]
                < s[i].end,
    decreases s.len(),
{
    let head = s[0].frames();
    if n < head.len() {
        lemma_region_frames_in_bounds(s[0], n);
        assert(s[0].usable && s[0].start <= frames_seq(s)[n] < s[0].end);
    } else {
        let t = s.drop_first();
        assert(regions_wf(t)) by {
            assert(forall|i: int| 0 <= i < t.len() ==> t[i] == s[i + 1]);
        }
        lemma_frames_seq_in_some_region(t, n - head.len());
        let i = choose|i: int|
            0 <= i < t.len() && (#[trigger] t[i]).usable && t[i].start <= frames_seq(t)[n
                - head.len()] < t[i].end;
        assert(s[i + 1] == t[i]);
        assert(frames_seq(s)[n] == frames_seq(t)[n - head.len()]);
    }
}

/// No two positions of the frame sequence hold the same frame.
///
/// This is the frame-uniqueness law: however many frames are drawn from a
/// well-formed memory map, no frame is ever handed out twice.
pub proof fn lemma_frame_uniqueness(s: Seq<MemoryRegion>, i: int, j: int)
    requires
        regions_wf(s),
        0 <= i < j < frames_seq(s).len(),
    ensures
        frames_seq(s)[i] != frames_seq(s)[j],
    decreases s.len(),
{
    let head = s[0].frames();
    let t = s.drop_first();
    assert(regions_wf(t)) by {
        assert(forall|k: int| 0 <= k < t.len() ==> t[k] == s[k + 1]);
    }
    if j < head.len() {
        lemma_region_frames_distinct(s[0], i, j);
    } else if i >= head.len() {
        lemma_frame_uniqueness(t, i - head.len(), j - head.len());
    } else {
        lemma_region_frames_in_bounds(s[0], i);
        lemma_frames_seq_in_some_region(t, j - head.len());
        let k = choose|k: int|
            0 <= k < t.len() && (#[trigger] t[k]).usable && t[k].start <= frames_seq(t)[j
                - head.len()] < t[k].end;
        assert(s[k + 1] == t[k]);
        assert(s[0].end <= s[k + 1].start || s[k + 1].end <= s[0].start);
    }
}

/// A source of fresh physical frames.
///
/// `remaining()` is the sequence of frames the source will still hand out;
/// `allocate_frame` pops the next one or reports depletion.
pub trait FrameSource: Sized {
    /// The source's own invariant; every method keeps it.
    spec fn inv(self) -> bool;

    /// The frames this source will hand out, in order.
    spec fn remaining(self) -> Seq<u64>;

    /// Every frame the source will hand out is 4 KiB-aligned.
    proof fn remaining_aligned(self)
        requires
            self.inv(),
        ensures
            forall|k: int|
                0 <= k < self.remaining().len() ==> (#[trigger] self.remaining()[k]) % 4096 == 0,
    ;

    /// Hand out the next frame, or `None` when the source is depleted.
    fn allocate_frame(&mut self) -> (r: Option<u64>)
        requires
            old(self).inv(),
        ensures
            final(self).inv(),
            old(self).remaining().len() == 0 ==> r is None && final(self).remaining()
                == old(self).remaining(),
            old(self).remaining().len() > 0 ==> r == Some(old(self).remaining()[0])
                && final(self).remaining() == old(self).remaining().drop_first(),
    ;
}

/// Frame allocator that is always depleted.
pub struct EmptyFrameAllocator;

impl FrameSource for EmptyFrameAllocator {
    open spec fn inv(self) -> bool {
        true
    }

    open spec fn remaining(self) -> Seq<u64> {
        Seq::empty()
    }

    proof fn remaining_aligned(self) {
    }

    fn allocate_frame(&mut self) -> (r: Option<u64>) {
        None
    }
}

/// Frame allocator over the boot memory map: a forward-only cursor into the
/// sequence of usable frames.
pub struct BootInfoFrameAllocator {
    pub memory_map: Vec<MemoryRegion>,
    pub next: usize,
}

impl BootInfoFrameAllocator {
    /// Build an allocator over a well-formed memory map, starting at the
    /// first usable frame.
    pub fn new(memory_map: Vec<MemoryRegion>) -> (r: BootInfoFrameAllocator)
        requires
            regions_wf(memory_map@),
            frames_seq(memory_map@).len() <= usize::MAX,
        ensures
            r.memory_map == memory_map,
            r.next == 0,
            r.inv(),
            r.remaining() == frames_seq(memory_map@),
    {
        let r = BootInfoFrameAllocator { memory_map, next: 0 };
        proof {
            assert(r.remaining() =~= frames_seq(r.memory_map@));
        }
        r
    }

    /// Hand out the frame at the cursor and advance the cursor by one; the
    /// memory map itself is never modified, and once the cursor passes the
    /// end every later call reports depletion for good.
    pub fn allocate_frame(&mut self) -> (r: Option<u64>)
        requires
            old(self).inv(),
        ensures
            final(self).inv(),
            final(self).memory_map == old(self).memory_map,
            old(self).next < usize::MAX ==> final(self).next == old(self).next + 1,
            old(self).next == usize::MAX ==> final(self).next == old(self).next,
            r == (if (old(self).next as int) < frames_seq(old(self).memory_map@).len() {
                Some(frames_seq(old(self).memory_map@)[old(self).next as int])
            } else {
                None::<u64>
            }),
            old(self).remaining().len() == 0 ==> final(self).remaining() == old(self).remaining(),
            old(self).remaining().len() > 0 ==> r == Some(old(self).remaining()[0]) && final(self).remaining() == old(self).remaining().drop_first(),
    {
        let r = nth_usable_frame(&self.memory_map, self.next);
        if self.next < usize::MAX {
            self.next = self.next + 1;
        }
        proof {
            if old(self).remaining().len() > 0 {
                assert(old(self).next < frames_seq(self.memory_map@).len());
                assert(r == Some(frames_seq(self.memory_map@)[old(self).next as int]));
                assert(final(self).remaining() =~= old(self).remaining().drop_first());
            } else {
                assert(final(self).remaining() =~= old(self).remaining());
            }
        }
        r
    }
}

/// The frames at positions `next` and beyond of the map's frame sequence.
pub open spec fn frames_from(s: Seq<MemoryRegion>, next: int) -> Seq<u64> {
    if next <= frames_seq(s).len() {
        frames_seq(s).skip(next)
    } else {
        Seq::empty()
    }
}

impl FrameSource for BootInfoFrameAllocator {
    /// The map is well formed and its frame count fits the cursor type.
    open spec fn inv(self) -> bool {
        regions_wf(self.memory_map@) && frames_seq(self.memory_map@).len() <= usize::MAX
    }

    open spec fn remaining(self) -> Seq<u64> {
        frames_from(self.memory_map@, self.next as int)
    }

    proof fn remaining_aligned(self) {
        assert forall|k: int|
            0 <= k < self.remaining().len() implies (#[trigger] self.remaining()[k]) % 4096
            == 0 by {
            lemma_frames_seq_aligned(self.memory_map@, self.next + k);
        }
    }

    fn allocate_frame(&mut self) -> (r: Option<u64>) {
        BootInfoFrameAllocator::allocate_frame(self)
    }
}

/// Every frame in the sequence of a well-formed map is 4 KiB-aligned.
proof fn lemma_frames_seq_aligned(s: Seq<MemoryRegion>, n: int)
    requires
        regions_wf(s),
        0 <= n < frames_seq(s).len(),
    ensures
        frames_seq(s)[n] % 4096 == 0,
    decreases s.len(),
{
    let head = s[0].frames();
    if n < head.len() {
        lemma_region_frames_in_bounds(s[0], n);
        assert((s[0].start + 4096 * n) % 4096 == 0) by (nonlinear_arith)
            requires
                s[0].start % 4096 == 0,
                n >= 0,
        ;
    } else {
        let t = s.drop_first();
        assert(regions_wf(t)) by {
            assert(forall|k: int| 0 <= k < t.len() ==> t[k] == s[k + 1]);
        }
        lemma_frames_seq_aligned(t, n - head.len());
    }
}

/// The `n`-th usable frame of the map, if that many exist.
fn nth_usable_frame(map: &Vec<MemoryRegion>, n: usize) -> (r: Option<u64>)
    requires
        regions_wf(map@),
    ensures
        (n as int) < frames_seq(map@).len() ==> r == Some(frames_seq(map@)[n as int]),
        (n as int) >= frames_seq(map@).len() ==> r is None,
{
    let mut i: usize = 0;
    let mut rem: u64 = n as u64;
    proof {
        assert(map@.take(0) =~= Seq::<MemoryRegion>::empty());
        assert(frames_seq(map@.take(0)).len() == 0);
        assert(map@.skip(0) =~= map@);
        assert(frames_seq(map@) =~= frames_seq(map@.take(0)) + frames_seq(map@.skip(0)));
    }
    while i < map.len()
        invariant
            regions_wf(map@),
            0 <= i <= map@.len(),
            rem <= n as u64,
            n as int - rem == frames_seq(map@.take(i as int)).len(),
            frames_seq(map@) == frames_seq(map@.take(i as int)) + frames_seq(map@.skip(i as int)),
        decreases map@.len() - i,
    {
        let r = map[i];
        proof {
            assert(map@.skip(i as int)[0] == map@[i as int]);
            assert(map@.skip(i as int).drop_first() =~= map@.skip(i as int + 1));
            assert(map@.take(i as int + 1) =~= map@.take(i as int).push(map@[i as int]));
            lemma_frames_seq_snoc(map@.take(i as int), map@[i as int]);
            assert(frames_seq(map@.skip(i as int)) == map@[i as int].frames() + frames_seq(
                map@.skip(i as int + 1),
            ));
            assert(frames_seq(map@) == frames_seq(map@.take(i as int + 1)) + frames_seq(
                map@.skip(i as int + 1),
            ));
        }
        if r.usable && r.end > r.start {
            let cnt: u64 = (r.end - r.start - 1) / 4096 + 1;
            assert(cnt == r.num_frames());
            if rem < cnt {
                proof {
                    lemma_region_frames_in_bounds(r, rem as int);
                    assert(frames_seq(map@.skip(i as int))[rem as int] == r.frames()[rem as int]);
                    assert(n as int == frames_seq(map@.take(i as int)).len() + rem);
                    assert(frames_seq(map@)[n as int] == frames_seq(map@.skip(i as int))[rem as int]);
                }
                assert(4096 * (rem as int) < r.end - r.start);
                return Some(r.start + 4096 * rem);
            }
            rem = rem - cnt;
        } else {
            proof {
                assert(r.frames() =~= Seq::<u64>::empty());
            }
        }
        i = i + 1;
    }
    proof {
        assert(map@.take(i as int) =~= map@);
        assert(n as int - rem == frames_seq(map@).len());
    }
    None
}

/// Appending a region appends its frames.
proof fn lemma_frames_seq_snoc(s: Seq<MemoryRegion>, r: MemoryRegion)
    ensures
        frames_seq(s.push(r)) == frames_seq(s) + r.frames(),
    decreases s.len(),
{
    if s.len() == 0 {
        assert(s.push(r)[0] == r);
        assert(s.push(r).drop_first() =~= s);
        assert(frames_seq(s.push(r)) == r.frames() + frames_seq(s));
        assert(frames_seq(s).len() == 0);
        assert(frames_seq(s.push(r)) =~= frames_seq(s) + r.frames());
    } else {
        assert(s.push(r)[0] == s[0]);
        assert(s.push(r).drop_first() =~= s.drop_first().push(r));
        lemma_frames_seq_snoc(s.drop_first(), r);
        assert(frames_seq(s.push(r)) =~= frames_seq(s) + r.frames());
    }
}


/// The frames a boot-map allocator will still hand out are pairwise
/// distinct; together with the forward-only cursor this is the whole of
/// frame uniqueness for the running allocator.
pub proof fn lemma_remaining_distinct(fa: BootInfoFrameAllocator)
    requires
        fa.inv(),
    ensures
        forall|k1: int, k2: int|
            0 <= k1 < k2 < fa.remaining().len() ==> fa.remaining()[k1] != fa.remaining()[k2],
{
    assert forall|k1: int, k2: int|
        0 <= k1 < k2 < fa.remaining().len() implies fa.remaining()[k1] != fa.remaining()[k2] by {
        lemma_frame_uniqueness(fa.memory_map@, fa.next + k1, fa.next + k2);
    }
}

} // verus!
