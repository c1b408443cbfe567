//! The size-classed heap allocator and heap initialisation.
//!
//! Requests are bucketed into power-of-two classes from 8 to 2048 bytes;
//! each class keeps a free list of previously freed blocks, reused
//! last-in-first-out.  Anything larger, and any class miss, goes to a
//! general-purpose fallback allocator.
use vstd::prelude::*;
use crate::memory::{BootInfoFrameAllocator, FrameSource, lemma_remaining_distinct};
use crate::memory::paging::{contains_frame, l1_index, lemma_index_bounds, same_l2_window, MapToError, OffsetPageTable, ADDRESS_SPACE_SIZE};
use linked_list_allocator::Heap;

verus! {

/// First virtual address of the kernel heap.
pub const HEAP_START: u64 = 0x4444_4444_0000;

/// Size of the kernel heap in bytes.
pub const HEAP_SIZE: usize = 100 * 1024;

/// Number of heap pages: the heap size is an exact multiple of the page
/// size.
pub const HEAP_PAGES: usize = 25;

/// Number of block size classes.
pub const BLOCK_CLASS_COUNT: usize = 9;

/// The block size of each class: powers of two from 8 to 2048, which also
/// serve as the block alignment.
pub open spec fn spec_block_size(i: int) -> int {
    if i == 0 {
        8
    } else if i == 1 {
        16
    } else if i == 2 {
        32
    } else if i == 3 {
        64
    } else if i == 4 {
        128
    } else if i == 5 {
        256
    } else if i == 6 {
        512
    } else if i == 7 {
        1024
    } else if i == 8 {
        2048
    } else {
        0
    }
}

/// The block size of class `i`.
pub fn block_size(i: usize) -> (r: usize)
    requires
        i < BLOCK_CLASS_COUNT,
    ensures
        r == spec_block_size(i as int),
        8 <= r <= 2048,
{
    if i == 0 {
        8
    } else if i == 1 {
        16
    } else if i == 2 {
        32
    } else if i == 3 {
        64
    } else if i == 4 {
        128
    } else if i == 5 {
        256
    } else if i == 6 {
        512
    } else if i == 7 {
        1024
    } else {
        2048
    }
}

/// The size class for a request: the smallest class at least as large as
/// both the size and the alignment, or none when the request exceeds the
/// largest class and must go to the fallback allocator.
pub fn list_index(size: usize, align: usize) -> (r: Option<usize>)
    ensures
        ({
            let required = if size >= align {
                size as int
            } else {
                align as int
            };
            match r {
                Some(i) => 0 <= i < BLOCK_CLASS_COUNT && spec_block_size(i as int) >= required
                    && forall|j: int| 0 <= j < i ==> spec_block_size(j) < required,
                None => required > 2048,
            }
        }),
{
    let required: usize = if size >= align {
        size
    } else {
        align
    };
    let mut i: usize = 0;
    while i < BLOCK_CLASS_COUNT
        invariant
            i <= BLOCK_CLASS_COUNT,
            required == (if size >= align { size as int } else { align as int }),
            forall|j: int| 0 <= j < i ==> spec_block_size(j) < required,
        decreases BLOCK_CLASS_COUNT - i,
    {
        if block_size(i) >= required {
            return Some(i);
        }
        i = i + 1;
    }
    proof {
        assert(spec_block_size(8) < required);
    }
    None
}

/// Whether the fallback allocator has been given its backing region.
pub uninterp spec fn heap_ready(h: Heap) -> bool;

#[verifier::external_type_specification]
#[verifier::external_body]
pub struct ExHeap(Heap);

/// Relies on linked_list_allocator::Heap::empty: an allocator over no
/// memory, with no backing region installed yet.
#[verifier::external_body]
fn heap_empty() -> (h: Heap)
    ensures
        !heap_ready(h),
{
    Heap::empty()
}

/// Relies on linked_list_allocator::Heap::init_from_slice: installs a fresh
/// backing region of `size` bytes.  It panics when a region was already
/// installed or when the region is too small for its own metadata; the
/// preconditions rule both out.
#[verifier::external_body]
fn heap_init(h: &mut Heap, size: usize)
    requires
        !heap_ready(*old(h)),
        size >= 4096,
    ensures
        heap_ready(*final(h)),
{
    let mem: Vec<core::mem::MaybeUninit<u8>> = (0..size).map(
        |_n| core::mem::MaybeUninit::uninit(),
    ).collect();
    h.init_from_slice(Vec::leak(mem));
}

/// Relies on linked_list_allocator::Heap::allocate_first_fit: a successful
/// allocation is a non-null block aligned as requested; failure, and a
/// rejected layout, are reported as a null address.
#[verifier::external_body]
fn heap_alloc(h: &mut Heap, size: usize, align: usize) -> (r: usize)
    requires
        align >= 1,
    ensures
        heap_ready(*final(h)) == heap_ready(*old(h)),
        r == 0 || r % align == 0,
{
    match core::alloc::Layout::from_size_align(size, align) {
        Ok(layout) => match h.allocate_first_fit(layout) {
            Ok(block) => block.as_ptr() as usize,
            Err(()) => 0,
        },
        Err(_) => 0,
    }
}

/// The size-classed allocator: one free list of block addresses per class,
/// and the fallback allocator for everything else.
pub struct Allocator {
    pub list_heads: Vec<Vec<usize>>,
    pub fallback_allocator: Heap,
}

impl Allocator {
    /// One free list per class.
    pub open spec fn wf(self) -> bool {
        self.list_heads@.len() == BLOCK_CLASS_COUNT
    }

    /// The free lists as sequences of block addresses, oldest first; the
    /// last element of a list is the next block that class will reuse.
    pub open spec fn lists(self) -> Seq<Seq<usize>> {
        Seq::new(self.list_heads@.len(), |i: int| self.list_heads@[i]@)
    }

    /// A fresh allocator: every free list empty, no backing region yet.
    pub fn new() -> (r: Allocator)
        ensures
            r.wf(),
            forall|i: int| 0 <= i < BLOCK_CLASS_COUNT ==> #[trigger] r.lists()[i].len() == 0,
            !heap_ready(r.fallback_allocator),
    {
        let mut list_heads: Vec<Vec<usize>> = Vec::new();
        let mut i: usize = 0;
        while i < BLOCK_CLASS_COUNT
            invariant
                list_heads@.len() == i,
                i <= BLOCK_CLASS_COUNT,
                forall|j: int| 0 <= j < i ==> (#[trigger] list_heads@[j])@.len() == 0,
            decreases BLOCK_CLASS_COUNT - i,
        {
            let empty: Vec<usize> = Vec::new();
            list_heads.push(empty);
            i = i + 1;
        }
        Allocator { list_heads, fallback_allocator: heap_empty() }
    }

    /// Install the backing region of the fallback allocator.  Must be
    /// called exactly once, after the heap range has been mapped.
    pub fn init(&mut self, heap_size: usize)
        requires
            old(self).wf(),
            !heap_ready(old(self).fallback_allocator),
            heap_size >= 4096,
        ensures
            final(self).wf(),
            heap_ready(final(self).fallback_allocator),
            final(self).lists() == old(self).lists(),
    {
        heap_init(&mut self.fallback_allocator, heap_size);
        proof {
            assert(final(self).lists() =~~= old(self).lists());
        }
    }

    /// Carve a fresh block from the fallback allocator; null on failure.
    fn fallback_alloc(&mut self, size: usize, align: usize) -> (r: usize)
        requires
            old(self).wf(),
            align >= 1,
        ensures
            final(self).wf(),
            final(self).lists() == old(self).lists(),
            heap_ready(final(self).fallback_allocator) == heap_ready(old(self).fallback_allocator),
            r == 0 || r % align == 0,
    {
        let r = heap_alloc(&mut self.fallback_allocator, size, align);
        proof {
            assert(final(self).lists() =~~= old(self).lists());
        }
        r
    }

    /// Serve an allocation request.  A request that fits a size class pops
    /// that class's newest free block in constant time, or carves a fresh
    /// block of exactly the class's size and alignment from the fallback;
    /// larger requests go to the fallback directly.  A null address reports
    /// failure.
    pub fn allocate(&mut self, size: usize, align: usize) -> (r: usize)
        requires
            old(self).wf(),
            align >= 1,
        ensures
            final(self).wf(),
            heap_ready(final(self).fallback_allocator) == heap_ready(old(self).fallback_allocator),
            ({
                let required = if size >= align {
                    size as int
                } else {
                    align as int
                };
                if required > 2048 {
                    // oversize: straight to the fallback
                    final(self).lists() == old(self).lists() && (r == 0 || r % align == 0)
                } else {
                    exists|i: int|
                        0 <= i < BLOCK_CLASS_COUNT && #[trigger] spec_block_size(i) >= required
                            && (forall|j: int| 0 <= j < i ==> spec_block_size(j) < required) && (if old(
                            self,
                        ).lists()[i].len() > 0 {
                            // reuse: the newest freed block of the class
                            r == old(self).lists()[i].last() && final(self).lists() == old(
                                self,
                            ).lists().update(i, old(self).lists()[i].drop_last())
                        } else {
                            final(self).lists() == old(self).lists() && (r == 0 || (r as int)
                                % spec_block_size(i) == 0)
                        })
                }
            }),
    {
        let idx = list_index(size, align);
        match idx {
            Some(index) => {
                let row_len = self.list_heads[index].len();
                if row_len > 0 {
                    let block = self.list_heads[index][row_len - 1];
                    let shorter = self.class_without_last(index);
                    self.list_heads.set(index, shorter);
                    proof {
                        assert(final(self).lists() =~~= old(self).lists().update(
                            index as int,
                            old(self).lists()[index as int].drop_last(),
                        ));
                    }
                    block
                } else {
                    let bs = block_size(index);
                    let r = self.fallback_alloc(bs, bs);
                    r
                }
            },
            None => self.fallback_alloc(size, align),
        }
    }

    /// The free list of class `index` without its newest entry.
    fn class_without_last(&self, index: usize) -> (r: Vec<usize>)
        requires
            self.wf(),
            index < BLOCK_CLASS_COUNT,
            self.list_heads@[index as int]@.len() > 0,
        ensures
            r@ == self.lists()[index as int].drop_last(),
    {
        let row_len = self.list_heads[index].len();
        let mut out: Vec<usize> = Vec::new();
        let mut k: usize = 0;
        while k < row_len - 1
            invariant
                self.wf(),
                index < BLOCK_CLASS_COUNT,
                k <= row_len - 1,
                row_len == self.list_heads@[index as int]@.len(),
                row_len > 0,
                out@.len() == k,
                forall|m: int| 0 <= m < k ==> out@[m] == self.list_heads@[index as int]@[m],
            decreases row_len - 1 - k,
        {
            let v = self.list_heads[index][k];
            out.push(v);
            k = k + 1;
        }
        proof {
            assert(out@ =~= self.lists()[index as int].drop_last());
        }
        out
    }

    /// Return a block to the allocator.  A block of a size class is pushed
    /// onto that class's free list in constant time, with no coalescing,
    /// and becomes the next block the class reuses.  An oversize block
    /// belongs to the fallback allocator, whose reclamation entry point is
    /// an unsafe interface outside this crate's safe surface; it is not
    /// touched here, and the free lists are unchanged.
    pub fn dealloc(&mut self, ptr: usize, size: usize, align: usize)
        requires
            old(self).wf(),
        ensures
            final(self).wf(),
            heap_ready(final(self).fallback_allocator) == heap_ready(old(self).fallback_allocator),
            ({
                let required = if size >= align {
                    size as int
                } else {
                    align as int
                };
                if required > 2048 {
                    final(self).lists() == old(self).lists()
                } else {
                    exists|i: int|
                        0 <= i < BLOCK_CLASS_COUNT && #[trigger] spec_block_size(i) >= required
                            && (forall|j: int| 0 <= j < i ==> spec_block_size(j) < required)
                            && final(self).lists() == old(self).lists().update(
                            i,
                            old(self).lists()[i].push(ptr),
                        )
                }
            }),
    {
        let idx = list_index(size, align);
        match idx {
            Some(index) => {
                let mut row = self.class_copy(index);
                row.push(ptr);
                self.list_heads.set(index, row);
                proof {
                    assert(final(self).lists() =~~= old(self).lists().update(
                        index as int,
                        old(self).lists()[index as int].push(ptr),
                    ));
                }
            },
            None => {
            },
        }
    }

    /// Copy out the free list of class `index`.
    fn class_copy(&self, index: usize) -> (r: Vec<usize>)
        requires
            self.wf(),
            index < BLOCK_CLASS_COUNT,
        ensures
            r@ == self.lists()[index as int],
    {
        let row_len = self.list_heads[index].len();
        let mut out: Vec<usize> = Vec::new();
        let mut k: usize = 0;
        while k < row_len
            invariant
                self.wf(),
                index < BLOCK_CLASS_COUNT,
                k <= row_len,
                row_len == self.list_heads@[index as int]@.len(),
                out@.len() == k,
                forall|m: int| 0 <= m < k ==> out@[m] == self.list_heads@[index as int]@[m],
            decreases row_len - k,
        {
            let v = self.list_heads[index][k];
            out.push(v);
            k = k + 1;
        }
        proof {
            assert(out@ =~= self.lists()[index as int]);
        }
        out
    }
}

/// Allocator reuse: push a freed block onto a class's free list and the
/// next allocation of that class pops exactly that block, leaving the list
/// as it was before the free.
pub proof fn lemma_alloc_reuse(lists: Seq<Seq<usize>>, i: int, p: usize)
    requires
        0 <= i < lists.len(),
    ensures
        ({
            let after_free = lists.update(i, lists[i].push(p));
            &&& after_free[i].len() > 0
            &&& after_free[i].last() == p
            &&& after_free[i].drop_last() =~= lists[i]
            &&& after_free.update(i, after_free[i].drop_last()) =~~= lists
        }),
{
}

/// The virtual page `j` pages into the heap range.
pub open spec fn heap_page(j: int) -> u64 {
    (HEAP_START + 4096 * j) as u64
}

/// The heap pages all lie in one last-level window: page `j` is aligned,
/// inside the decoded address space, shares the three upper walk indices
/// with the heap base, and has the base's last-level index plus `j`.
pub proof fn lemma_heap_window(j: u64)
    requires
        j < HEAP_PAGES,
    ensures
        heap_page(j as int) == HEAP_START + 4096 * j,
        heap_page(j as int) % 4096 == 0,
        heap_page(j as int) < ADDRESS_SPACE_SIZE,
        same_l2_window(HEAP_START, heap_page(j as int)),
        l1_index(heap_page(j as int)) == l1_index(HEAP_START) + j,
{
    assert(j < 25 ==> 0x4444_4444_0000u64 + 4096 * j < 0x1_0000_0000_0000) by (bit_vector);
    assert(j < 25 ==> (0x4444_4444_0000u64 + 4096 * j) % 4096 == 0) by (bit_vector);
    assert(j < 25 ==> (((0x4444_4444_0000u64 + 4096 * j) as u64) >> 39) & 0x1ff == ((
    0x4444_4444_0000u64) >> 39) & 0x1ff) by (bit_vector);
    assert(j < 25 ==> (((0x4444_4444_0000u64 + 4096 * j) as u64) >> 30) & 0x1ff == ((
    0x4444_4444_0000u64) >> 30) & 0x1ff) by (bit_vector);
    assert(j < 25 ==> (((0x4444_4444_0000u64 + 4096 * j) as u64) >> 21) & 0x1ff == ((
    0x4444_4444_0000u64) >> 21) & 0x1ff) by (bit_vector);
    assert(j < 25 ==> (((0x4444_4444_0000u64 + 4096 * j) as u64) >> 12) & 0x1ff == (((
    0x4444_4444_0000u64) >> 12) & 0x1ff) + j) by (bit_vector);
}

/// Map the whole heap range, page by page, then hand the backing region to
/// the allocator.  On success every heap page has a translation and the
/// allocator is ready; a mapping failure is reported before the allocator
/// is touched.
pub fn init_heap(
    mapper: &mut OffsetPageTable,
    frame_allocator: &mut BootInfoFrameAllocator,
    allocator: &mut Allocator,
) -> (r: Result<(), MapToError>)
    requires
        old(mapper).wf(),
        old(frame_allocator).inv(),
        old(allocator).wf(),
        !heap_ready(old(allocator).fallback_allocator),
        forall|k: int|
            0 <= k < old(frame_allocator).remaining().len() ==> !contains_frame(
                old(mapper).tables@,
                #[trigger] old(frame_allocator).remaining()[k],
            ),
    ensures
        final(mapper).wf(),
        final(frame_allocator).inv(),
        final(allocator).wf(),
        final(mapper).root == old(mapper).root,
        ({
            let fa0 = old(frame_allocator).remaining();
            let tables = old(mapper).tables_needed(HEAP_START);
            let unblocked = !old(mapper).walk_blocked_by_huge(HEAP_START) && (forall|k: int|
                0 <= k < HEAP_PAGES ==> !(#[trigger] old(mapper).leaf_occupied(heap_page(k))));
            // success is owed exactly when no heap page is blocked or taken
            // and the frames suffice: one per page plus the missing tables
            &&& (r is Ok <==> unblocked && fa0.len() >= HEAP_PAGES + tables)
            &&& (r == Err::<(), MapToError>(MapToError::ParentEntryHugePage) <==> old(
                mapper,
            ).walk_blocked_by_huge(HEAP_START) && fa0.len() >= 1)
            &&& (r == Err::<(), MapToError>(MapToError::FrameAllocationFailed) ==> fa0.len()
                < HEAP_PAGES + tables)
            &&& (r == Err::<(), MapToError>(MapToError::PageAlreadyMapped) ==> !old(
                mapper,
            ).walk_blocked_by_huge(HEAP_START) && exists|k: int|
                0 <= k < HEAP_PAGES && #[trigger] old(mapper).leaf_occupied(heap_page(k)))
            // each page is backed by the frame drawn for it, in draw order
            &&& (r is Ok ==> forall|k: int|
                0 <= k < HEAP_PAGES ==> #[trigger] final(mapper).spec_translate_page(heap_page(k))
                    == Some(
                    (fa0[if k == 0 {
                        0int
                    } else {
                        tables + k
                    }], true),
                ))
        }),
        r is Ok ==> heap_ready(final(allocator).fallback_allocator),
        r is Err ==> !heap_ready(final(allocator).fallback_allocator) && final(allocator).lists()
            == old(allocator).lists(),
{
    let ghost fa0 = old(frame_allocator).remaining();
    let ghost tables = old(mapper).tables_needed(HEAP_START);
    let mut j: usize = 0;
    while j < HEAP_PAGES
        invariant
            mapper.wf(),
            frame_allocator.inv(),
            mapper.root == old(mapper).root,
            j <= HEAP_PAGES,
            allocator.wf(),
            !heap_ready(allocator.fallback_allocator),
            allocator.lists() == old(allocator).lists(),
            fa0 == old(frame_allocator).remaining(),
            tables == old(mapper).tables_needed(HEAP_START),
            j == 0 ==> mapper.tables@ == old(mapper).tables@,
            forall|k: int|
                0 <= k < frame_allocator.remaining().len() ==> !contains_frame(
                    mapper.tables@,
                    #[trigger] frame_allocator.remaining()[k],
                ),
            // consumption so far: one frame per page, plus the missing
            // tables once the first page went through
            frame_allocator.remaining() == fa0.skip(
                if j == 0 {
                    0int
                } else {
                    tables + j
                },
            ),
            j > 0 ==> tables + j <= fa0.len(),
            // after the first page the whole window is walkable
            j > 0 ==> mapper.tables_needed(HEAP_START) == 0 && !mapper.walk_blocked_by_huge(
                HEAP_START,
            ) && !old(mapper).walk_blocked_by_huge(HEAP_START),
            // pages not yet mapped keep their original occupancy
            forall|k: int|
                j <= k < HEAP_PAGES ==> #[trigger] mapper.leaf_occupied(heap_page(k)) == old(
                    mapper,
                ).leaf_occupied(heap_page(k)),
            forall|k: int| 0 <= k < j ==> !(#[trigger] old(mapper).leaf_occupied(heap_page(k))),
            // pages mapped so far hold the frames drawn for them
            forall|k: int|
                0 <= k < j ==> #[trigger] mapper.spec_translate_page(heap_page(k)) == Some(
                    (fa0[if k == 0 {
                        0int
                    } else {
                        tables + k
                    }], true),
                ),
        decreases HEAP_PAGES - j,
    {
        let page: u64 = HEAP_START + 4096 * (j as u64);
        proof {
            lemma_heap_window(j as u64);
            frame_allocator.remaining_aligned();
        }
        let ghost fa_at_head = frame_allocator.remaining();
        let frame = match frame_allocator.allocate_frame() {
            Some(f) => f,
            None => {
                proof {
                    if j == 0 {
                        assert(fa0.len() == 0);
                    } else {
                        assert(fa0.len() == tables + j);
                        assert(fa0.len() < HEAP_PAGES + tables);
                    }
                }
                return Err(MapToError::FrameAllocationFailed);
            },
        };
        proof {
            lemma_remaining_distinct(*frame_allocator);
            // the walk of this page matches the walk of the heap base
            assert(mapper.tables_needed(page) == mapper.tables_needed(HEAP_START));
            assert(mapper.walk_blocked_by_huge(page) == mapper.walk_blocked_by_huge(HEAP_START));
        }
        let ghost fa_pre = *frame_allocator;
        let ghost m_pre = *mapper;
        let outcome = mapper.map_to(page, frame, true, frame_allocator);
        match outcome {
            Ok(()) => {
                proof {
                    lemma_remaining_distinct(fa_pre);
                    let used = fa_pre.remaining().len() - frame_allocator.remaining().len();
                    assert forall|k: int|
                        0 <= k < frame_allocator.remaining().len() implies !contains_frame(
                        mapper.tables@,
                        #[trigger] frame_allocator.remaining()[k],
                    ) by {
                        assert(frame_allocator.remaining()[k] == fa_pre.remaining()[k + used]);
                        if fa_pre.remaining().take(used as int).contains(
                            frame_allocator.remaining()[k],
                        ) {
                            let m = choose|m: int|
                                0 <= m < used && fa_pre.remaining().take(used as int)[m]
                                    == frame_allocator.remaining()[k];
                            assert(fa_pre.remaining()[m] == fa_pre.remaining()[k + used]);
                        }
                    }
                    // consumption: the first page draws the missing tables,
                    // every later page draws only its own frame
                    if j == 0 {
                        assert(used == tables);
                        assert(frame_allocator.remaining() =~= fa0.skip(tables + 1));
                        assert(!old(mapper).walk_blocked_by_huge(HEAP_START));
                    } else {
                        assert(m_pre.tables_needed(page) == 0);
                        assert(used == 0);
                        assert(frame_allocator.remaining() =~= fa0.skip(tables + j + 1));
                    }
                    assert(frame == fa0[if j == 0 {
                        0int
                    } else {
                        tables + j as int
                    }]);
                    // the window is now fully walkable
                    assert(same_l2_window(page, HEAP_START));
                    assert(mapper.tables_needed(HEAP_START) == 0 && !mapper.walk_blocked_by_huge(
                        HEAP_START,
                    ));
                    assert(!old(mapper).leaf_occupied(heap_page(j as int))) by {
                        assert(!m_pre.leaf_occupied(page));
                    }
                    // later pages keep their occupancy across this mapping
                    assert forall|k: int|
                        j + 1 <= k < HEAP_PAGES implies #[trigger] mapper.leaf_occupied(
                        heap_page(k),
                    ) == old(mapper).leaf_occupied(heap_page(k)) by {
                        lemma_heap_window(k as u64);
                        lemma_heap_window(j as u64);
                        assert(same_l2_window(page, heap_page(k)));
                        assert(l1_index(heap_page(k)) != l1_index(page));
                        assert(mapper.leaf_occupied(heap_page(k)) == m_pre.leaf_occupied(
                            heap_page(k),
                        ));
                    }
                    // earlier pages keep their translations; this one now
                    // holds the frame just drawn
                    assert forall|k: int|
                        0 <= k < j + 1 implies #[trigger] mapper.spec_translate_page(heap_page(k))
                        == Some(
                        (fa0[if k == 0 {
                            0int
                        } else {
                            tables + k
                        }], true),
                    ) by {
                        if k < j {
                            lemma_heap_window(k as u64);
                            let q = heap_page(k);
                            assert(q != page) by {
                                lemma_heap_window(j as u64);
                                assert(l1_index(q) != l1_index(page));
                            }
                            assert(mapper.spec_translate_page(q) == m_pre.spec_translate_page(q));
                        } else {
                            assert(mapper.spec_translate_page(page) == Some((frame, true)));
                        }
                    }
                }
            },
            Err(e) => {
                proof {
                    if j == 0 {
                        assert(fa_pre.remaining() =~= fa0.skip(1));
                        if e == MapToError::ParentEntryHugePage {
                            assert(m_pre.walk_blocked_by_huge(page));
                            assert(old(mapper).walk_blocked_by_huge(HEAP_START));
                            assert(fa0.len() >= 1);
                        } else if e == MapToError::PageAlreadyMapped {
                            assert(!m_pre.walk_blocked_by_huge(page));
                            assert(m_pre.leaf_occupied(page));
                            assert(old(mapper).leaf_occupied(heap_page(0)));
                        } else {
                            assert(e == MapToError::FrameAllocationFailed);
                            assert(fa_pre.remaining().len() < m_pre.tables_needed(page));
                            assert(fa0.len() < 1 + tables);
                            assert(fa0.len() < HEAP_PAGES + tables);
                            assert(!old(mapper).walk_blocked_by_huge(HEAP_START));
                        }
                    } else {
                        // the window is walkable, so only an occupied page
                        // can stop a later iteration
                        assert(m_pre.tables_needed(page) == 0);
                        assert(!m_pre.walk_blocked_by_huge(page));
                        assert(e == MapToError::PageAlreadyMapped);
                        assert(m_pre.leaf_occupied(page));
                        assert(old(mapper).leaf_occupied(heap_page(j as int)));
                        assert(!old(mapper).walk_blocked_by_huge(HEAP_START));
                    }
                }
                return Err(e);
            },
        }
        j = j + 1;
    }
    proof {
        assert(tables + HEAP_PAGES <= fa0.len());
    }
    allocator.init(HEAP_SIZE);
    Ok(())
}

} // verus!
