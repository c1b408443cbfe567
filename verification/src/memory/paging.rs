//! The four-level page-table model and its mapper.
//!
//! A table is 512 entries; an entry is unused, points at the next-level
//! table's frame, or maps a frame.  The walk indices are fixed bit slices of
//! the virtual address (bits 39-47, 30-38, 21-29, 12-20), and translation
//! adds the low twelve bits back onto the mapped frame.
use vstd::prelude::*;
use crate::memory::FrameSource;

verus! {

/// Entries per page table.
pub const ENTRY_COUNT: usize = 512;

/// Highest virtual address bit the walk decodes; addresses are kept in the
/// lower canonical half.
pub const ADDRESS_SPACE_SIZE: u64 = 0x1_0000_0000_0000;

/// One page-table entry.
#[derive(Debug, Clone, Copy, PartialEq, Eq, Structural)]
pub enum PageTableEntry {
    /// Not present.
    Unused,
    /// Present entry pointing at the frame of the next-level table.
    Table(u64),
    /// Present entry mapping a frame; `huge` marks a large-page mapping,
    /// which this mapper never creates and refuses to touch.
    Mapped { frame: u64, writable: bool, huge: bool },
}

/// One page table, identified by the physical frame it lives in.
pub struct TableNode {
    pub frame: u64,
    pub entries: Vec<PageTableEntry>,
}

/// Why a mapping request failed.
#[derive(Debug, Clone, Copy, PartialEq, Eq, Structural)]
pub enum MapToError {
    /// The frame allocator was depleted while a missing table was needed.
    FrameAllocationFailed,
    /// An intermediate entry is a large-page mapping, which is unsupported.
    ParentEntryHugePage,
    /// The target entry already maps a frame.
    PageAlreadyMapped,
}

/// The active mapper: the root table frame, the tables themselves, and the
/// fixed offset at which the hardware glue reaches physical memory.
pub struct OffsetPageTable {
    pub phys_offset: u64,
    pub root: u64,
    pub tables: Vec<TableNode>,
}

/// Level-4 walk index: bits 39-47 of the address.
pub open spec fn l4_index(v: u64) -> int {
    ((v >> 39) & 0x1ff) as int
}

/// Level-3 walk index: bits 30-38.
pub open spec fn l3_index(v: u64) -> int {
    ((v >> 30) & 0x1ff) as int
}

/// Level-2 walk index: bits 21-29.
pub open spec fn l2_index(v: u64) -> int {
    ((v >> 21) & 0x1ff) as int
}

/// Level-1 walk index: bits 12-20.
pub open spec fn l1_index(v: u64) -> int {
    ((v >> 12) & 0x1ff) as int
}

/// Byte offset within the page: bits 0-11.
pub open spec fn page_offset(v: u64) -> int {
    (v & 0xfff) as int
}

/// Index of the first table with frame `f`, if any.
pub open spec fn spec_find(ts: Seq<TableNode>, f: u64) -> Option<int>
    decreases ts.len(),
{
    if ts.len() == 0 {
        None
    } else if ts[0].frame == f {
        Some(0)
    } else {
        match spec_find(ts.drop_first(), f) {
            Some(i) => Some(i + 1),
            None => None,
        }
    }
}

/// Whether some table lives in frame `f`.
pub open spec fn contains_frame(ts: Seq<TableNode>, f: u64) -> bool {
    spec_find(ts, f) is Some
}

/// What `spec_find` finds: the first index whose table has frame `f`.
pub proof fn lemma_spec_find(ts: Seq<TableNode>, f: u64)
    ensures
        match spec_find(ts, f) {
            Some(i) => 0 <= i < ts.len() && ts[i].frame == f && forall|k: int|
                0 <= k < i ==> (#[trigger] ts[k]).frame != f,
            None => forall|k: int| 0 <= k < ts.len() ==> (#[trigger] ts[k]).frame != f,
        },
    decreases ts.len(),
{
    if ts.len() > 0 && ts[0].frame != f {
        lemma_spec_find(ts.drop_first(), f);
        assert(forall|k: int| 1 <= k < ts.len() ==> ts[k] == ts.drop_first()[k - 1]);
    }
}

/// The entry at index `idx` of the table in frame `f`; a missing table reads
/// as unused.
pub open spec fn entry_of(ts: Seq<TableNode>, f: u64, idx: int) -> PageTableEntry {
    match spec_find(ts, f) {
        Some(i) => ts[i].entries@[idx],
        None => PageTableEntry::Unused,
    }
}

/// Well-formedness of a table forest rooted at `root`: fixed-width tables in
/// pairwise distinct frames; the root exists; every next-level link points at
/// an existing table that is not the root; and no two links share a target.
pub open spec fn tables_wf(ts: Seq<TableNode>, root: u64) -> bool {
    &&& forall|i: int| 0 <= i < ts.len() ==> (#[trigger] ts[i]).entries@.len() == ENTRY_COUNT
    &&& forall|i: int, j: int|
        0 <= i < j < ts.len() ==> (#[trigger] ts[i]).frame != (#[trigger] ts[j]).frame
    &&& contains_frame(ts, root)
    &&& forall|i: int, k: int|
        0 <= i < ts.len() && 0 <= k < ENTRY_COUNT && (#[trigger] ts[i].entries@[k]) is Table
            ==> contains_frame(ts, ts[i].entries@[k]->Table_0) && ts[i].entries@[k]->Table_0
            != root
    &&& forall|i: int, k: int, i2: int, k2: int|
        0 <= i < ts.len() && 0 <= k < ENTRY_COUNT && 0 <= i2 < ts.len() && 0 <= k2 < ENTRY_COUNT
            && (#[trigger] ts[i].entries@[k]) is Table && (#[trigger] ts[i2].entries@[k2]) is Table
            && ts[i].entries@[k]->Table_0 == ts[i2].entries@[k2]->Table_0 ==> i == i2 && k == k2
}

impl OffsetPageTable {
    /// Well-formedness of the table forest.
    pub open spec fn wf(self) -> bool {
        tables_wf(self.tables@, self.root)
    }

    /// The frame and writability a page maps to, by the four-level walk.
    pub open spec fn spec_translate_page(self, page: u64) -> Option<(u64, bool)> {
        let ts = self.tables@;
        match entry_of(ts, self.root, l4_index(page)) {
            PageTableEntry::Table(f3) => match entry_of(ts, f3, l3_index(page)) {
                PageTableEntry::Table(f2) => match entry_of(ts, f2, l2_index(page)) {
                    PageTableEntry::Table(f1) => match entry_of(ts, f1, l1_index(page)) {
                        PageTableEntry::Mapped { frame, writable, huge } => if !huge {
                            Some((frame, writable))
                        } else {
                            None
                        },
                        _ => None,
                    },
                    _ => None,
                },
                _ => None,
            },
            _ => None,
        }
    }

    /// The physical address a virtual address translates to, if mapped.
    pub open spec fn spec_translate(self, v: u64) -> Option<u64> {
        let ts = self.tables@;
        match entry_of(ts, self.root, l4_index(v)) {
            PageTableEntry::Table(f3) => match entry_of(ts, f3, l3_index(v)) {
                PageTableEntry::Table(f2) => match entry_of(ts, f2, l2_index(v)) {
                    PageTableEntry::Table(f1) => match entry_of(ts, f1, l1_index(v)) {
                        PageTableEntry::Mapped { frame, writable, huge } => if !huge {
                            Some((frame + page_offset(v)) as u64)
                        } else {
                            None
                        },
                        _ => None,
                    },
                    _ => None,
                },
                _ => None,
            },
            _ => None,
        }
    }
}

/// Level-4 index, executable form.
pub fn p4_index(v: u64) -> (r: usize)
    ensures
        r == l4_index(v),
        r < 512,
{
    proof {
        assert(((v >> 39) & 0x1ff) < 512) by (bit_vector);
    }
    ((v >> 39) & 0x1ff) as usize
}

/// Level-3 index, executable form.
pub fn p3_index(v: u64) -> (r: usize)
    ensures
        r == l3_index(v),
        r < 512,
{
    proof {
        assert(((v >> 30) & 0x1ff) < 512) by (bit_vector);
    }
    ((v >> 30) & 0x1ff) as usize
}

/// Level-2 index, executable form.
pub fn p2_index(v: u64) -> (r: usize)
    ensures
        r == l2_index(v),
        r < 512,
{
    proof {
        assert(((v >> 21) & 0x1ff) < 512) by (bit_vector);
    }
    ((v >> 21) & 0x1ff) as usize
}

/// Level-1 index, executable form.
pub fn p1_index(v: u64) -> (r: usize)
    ensures
        r == l1_index(v),
        r < 512,
{
    proof {
        assert(((v >> 12) & 0x1ff) < 512) by (bit_vector);
    }
    ((v >> 12) & 0x1ff) as usize
}

/// A fresh table: 512 unused entries.
fn fresh_entries() -> (r: Vec<PageTableEntry>)
    ensures
        r@.len() == ENTRY_COUNT,
        forall|k: int| 0 <= k < ENTRY_COUNT ==> r@[k] == PageTableEntry::Unused,
{
    let mut v: Vec<PageTableEntry> = Vec::new();
    let mut i: usize = 0;
    while i < ENTRY_COUNT
        invariant
            v@.len() == i,
            i <= ENTRY_COUNT,
            forall|k: int| 0 <= k < i ==> v@[k] == PageTableEntry::Unused,
        decreases ENTRY_COUNT - i,
    {
        v.push(PageTableEntry::Unused);
        i = i + 1;
    }
    v
}

/// Adopt the boot-installed root table: the mapper starts with one empty
/// table at the root frame.
pub fn init_offset_table(phys_offset: u64, root_frame: u64) -> (r: OffsetPageTable)
    ensures
        r.wf(),
        r.root == root_frame,
        r.phys_offset == phys_offset,
        r.tables@.len() == 1,
        forall|q: u64| r.spec_translate_page(q) is None,
{
    let entries = fresh_entries();
    let mut tables: Vec<TableNode> = Vec::new();
    tables.push(TableNode { frame: root_frame, entries });
    let r = OffsetPageTable { phys_offset, root: root_frame, tables };
    proof {
        assert(r.tables@.len() == 1);
        assert(r.tables@[0].frame == root_frame);
        assert(spec_find(r.tables@, root_frame) == Some(0int));
        assert forall|q: u64| r.spec_translate_page(q) is None by {
            assert(((q >> 39) & 0x1ff) < 512) by (bit_vector);
            assert(r.tables@[0].entries@[l4_index(q)] == PageTableEntry::Unused);
            assert(entry_of(r.tables@, r.root, l4_index(q)) == PageTableEntry::Unused);
        }
    }
    r
}

impl OffsetPageTable {
    /// Find the table stored in frame `f`.
    fn find_node(&self, f: u64) -> (r: Option<usize>)
        ensures
            match r {
                Some(i) => spec_find(self.tables@, f) == Some(i as int),
                None => spec_find(self.tables@, f) is None,
            },
    {
        proof {
            lemma_spec_find(self.tables@, f);
        }
        let mut i: usize = 0;
        while i < self.tables.len()
            invariant
                i <= self.tables@.len(),
                forall|k: int| 0 <= k < i ==> (#[trigger] self.tables@[k]).frame != f,
            decreases self.tables@.len() - i,
        {
            if self.tables[i].frame == f {
                proof {
                    lemma_spec_find(self.tables@, f);
                    match spec_find(self.tables@, f) {
                        Some(j) => {
                            if j < i as int {
                                assert((self.tables@[j]).frame != f);
                            }
                            if (i as int) < j {
                                assert((self.tables@[i as int]).frame != f);
                            }
                        },
                        None => {
                            assert((self.tables@[i as int]).frame != f);
                        },
                    }
                }
                return Some(i);
            }
            i = i + 1;
        }
        None
    }

    /// Read the entry at `idx` of the table in frame `f`.
    fn read_entry(&self, f: u64, idx: usize) -> (r: PageTableEntry)
        requires
            self.wf(),
            idx < 512,
        ensures
            r == entry_of(self.tables@, f, idx as int),
    {
        match self.find_node(f) {
            Some(i) => {
                proof {
                    lemma_spec_find(self.tables@, f);
                }
                self.tables[i].entries[idx]
            },
            None => PageTableEntry::Unused,
        }
    }

    /// Overwrite the entry at `idx` of the table at vector position `i`.
    fn set_entry(&mut self, i: usize, idx: usize, e: PageTableEntry)
        requires
            i < old(self).tables@.len(),
            idx < old(self).tables@[i as int].entries@.len(),
        ensures
            final(self).tables@.len() == old(self).tables@.len(),
            final(self).root == old(self).root,
            final(self).phys_offset == old(self).phys_offset,
            final(self).tables@[i as int].frame == old(self).tables@[i as int].frame,
            final(self).tables@[i as int].entries@ == old(self).tables@[i as int].entries@.update(
                idx as int,
                e,
            ),
            forall|j: int|
                0 <= j < old(self).tables@.len() && j != i ==> final(self).tables@[j]
                    == old(self).tables@[j],
    {
        let frame = self.tables[i].frame;
        let n = self.tables[i].entries.len();
        let mut entries: Vec<PageTableEntry> = Vec::new();
        let mut k: usize = 0;
        while k < n
            invariant
                k <= n,
                n == self.tables@[i as int].entries@.len(),
                i < self.tables@.len(),
                entries@.len() == k,
                forall|m: int| 0 <= m < k ==> entries@[m] == self.tables@[i as int].entries@[m],
            decreases n - k,
        {
            entries.push(self.tables[i].entries[k]);
            k = k + 1;
        }
        entries.set(idx, e);
        self.tables.set(i, TableNode { frame, entries });
        assert(self.tables@[i as int].entries@ =~= old(self).tables@[i as int].entries@.update(
            idx as int,
            e,
        ));
    }
}


/// `spec_find` after appending a table: existing frames keep their index,
/// the new frame is found at the end.
proof fn lemma_find_push(ts: Seq<TableNode>, n: TableNode, g: u64)
    ensures
        spec_find(ts.push(n), g) == (match spec_find(ts, g) {
            Some(i) => Some(i),
            None => if n.frame == g {
                Some(ts.len() as int)
            } else {
                None
            },
        }),
    decreases ts.len(),
{
    if ts.len() == 0 {
        assert(ts.push(n)[0] == n);
        assert(ts.push(n).drop_first() =~= ts);
    } else {
        assert(ts.push(n)[0] == ts[0]);
        assert(ts.push(n).drop_first() =~= ts.drop_first().push(n));
        lemma_find_push(ts.drop_first(), n, g);
    }
}

/// `spec_find` is unchanged by replacing a table with one in the same frame.
proof fn lemma_find_update(ts: Seq<TableNode>, i: int, n: TableNode, g: u64)
    requires
        0 <= i < ts.len(),
        n.frame == ts[i].frame,
    ensures
        spec_find(ts.update(i, n), g) == spec_find(ts, g),
    decreases ts.len(),
{
    if i == 0 {
        assert(ts.update(i, n)[0] == n);
        assert(ts.update(i, n).drop_first() =~= ts.drop_first());
    } else {
        assert(ts.update(i, n)[0] == ts[0]);
        assert(ts.update(i, n).drop_first() =~= ts.drop_first().update(i - 1, n));
        lemma_find_update(ts.drop_first(), i - 1, n, g);
    }
}

/// All four walk indices lie below 512.
pub proof fn lemma_index_bounds(v: u64)
    ensures
        0 <= l4_index(v) < 512,
        0 <= l3_index(v) < 512,
        0 <= l2_index(v) < 512,
        0 <= l1_index(v) < 512,
        0 <= page_offset(v) < 4096,
{
    assert(((v >> 39) & 0x1ff) < 512) by (bit_vector);
    assert(((v >> 30) & 0x1ff) < 512) by (bit_vector);
    assert(((v >> 21) & 0x1ff) < 512) by (bit_vector);
    assert(((v >> 12) & 0x1ff) < 512) by (bit_vector);
    assert((v & 0xfff) < 4096) by (bit_vector);
}

/// Two aligned pages of the decoded address space with the same four walk
/// indices are the same page.
pub proof fn lemma_page_of_indices(p: u64, q: u64)
    requires
        p % 4096 == 0,
        q % 4096 == 0,
        p < ADDRESS_SPACE_SIZE,
        q < ADDRESS_SPACE_SIZE,
        l4_index(p) == l4_index(q),
        l3_index(p) == l3_index(q),
        l2_index(p) == l2_index(q),
        l1_index(p) == l1_index(q),
    ensures
        p == q,
{
    assert((p % 4096 == 0 && q % 4096 == 0 && p < 0x1_0000_0000_0000 && q < 0x1_0000_0000_0000
        && ((p >> 39) & 0x1ff) == ((q >> 39) & 0x1ff) && ((p >> 30) & 0x1ff) == ((q >> 30) & 0x1ff)
        && ((p >> 21) & 0x1ff) == ((q >> 21) & 0x1ff) && ((p >> 12) & 0x1ff) == ((q >> 12)
        & 0x1ff)) ==> p == q) by (bit_vector);
}

impl OffsetPageTable {
    /// Walk one level down from the table in `parent` at index `idx`,
    /// creating the next-level table from a fresh frame when the entry is
    /// unused.  Reports a large-page entry and allocator depletion as errors.
    #[verifier::rlimit(50)]
    fn ensure_table<A: FrameSource>(&mut self, parent: u64, idx: usize, fa: &mut A) -> (r: Result<
        u64,
        MapToError,
    >)
        requires
            old(self).wf(),
            contains_frame(old(self).tables@, parent),
            idx < 512,
            old(fa).inv(),
            forall|k: int|
                0 <= k < old(fa).remaining().len() ==> !contains_frame(
                    old(self).tables@,
                    #[trigger] old(fa).remaining()[k],
                ),
        ensures
            final(self).wf(),
            final(fa).inv(),
            final(self).root == old(self).root,
            final(self).phys_offset == old(self).phys_offset,
            ({
                let used = old(fa).remaining().len() - final(fa).remaining().len();
                &&& 0 <= used <= 1
                &&& final(fa).remaining() == old(fa).remaining().skip(used as int)
                &&& forall|g: u64|
                    #[trigger] contains_frame(final(self).tables@, g) <==> contains_frame(
                        old(self).tables@,
                        g,
                    ) || (used == 1 && g == old(fa).remaining()[0])
            }),
            match r {
                Ok(f) => {
                    &&& entry_of(final(self).tables@, parent, idx as int)
                        == PageTableEntry::Table(f)
                    &&& contains_frame(final(self).tables@, f)
                    &&& f != old(self).root
                    &&& forall|g: u64, k: int|
                        0 <= k < 512 && (g != parent || k != idx as int) ==> #[trigger] entry_of(
                            final(self).tables@,
                            g,
                            k,
                        ) == entry_of(old(self).tables@, g, k)
                    &&& (entry_of(old(self).tables@, parent, idx as int) is Table ==> final(self).tables@ == old(self).tables@ && final(fa).remaining() == old(fa).remaining() && PageTableEntry::Table(f) == entry_of(
                        old(self).tables@,
                        parent,
                        idx as int,
                    ))
                    &&& (entry_of(old(self).tables@, parent, idx as int) is Unused ==> final(fa).remaining() == old(fa).remaining().drop_first() && f == old(fa).remaining()[0] && (forall|k: int|
                        0 <= k < 512 ==> #[trigger] entry_of(final(self).tables@, f, k)
                            == PageTableEntry::Unused))
                },
                Err(e) => {
                    &&& final(self).tables@ == old(self).tables@
                    &&& final(fa).remaining() == old(fa).remaining()
                    &&& (e == MapToError::ParentEntryHugePage <==> entry_of(
                        old(self).tables@,
                        parent,
                        idx as int,
                    ) is Mapped)
                    &&& (e == MapToError::FrameAllocationFailed <==> entry_of(
                        old(self).tables@,
                        parent,
                        idx as int,
                    ) is Unused && old(fa).remaining().len() == 0)
                },
            },
            r is Err <==> (entry_of(old(self).tables@, parent, idx as int) is Mapped || (entry_of(
                old(self).tables@,
                parent,
                idx as int,
            ) is Unused && old(fa).remaining().len() == 0)),
    {
        proof {
            lemma_spec_find(self.tables@, parent);
        }
        let parent_i = match self.find_node(parent) {
            Some(i) => i,
            None => {
                proof {
                    assert(false);
                }
                return Err(MapToError::FrameAllocationFailed);
            },
        };
        let e = self.tables[parent_i].entries[idx];
        proof {
            assert(e == entry_of(self.tables@, parent, idx as int));
        }
        match e {
            PageTableEntry::Table(f) => {
                proof {
                    let ts = self.tables@;
                    assert(entry_of(ts, parent, idx as int) == PageTableEntry::Table(f));
                    assert(ts[parent_i as int].entries@[idx as int] is Table);
                    assert(contains_frame(ts, f) && f != self.root);
                    assert(old(fa).remaining().skip(0) =~= old(fa).remaining());
                }
                Ok(f)
            },
            PageTableEntry::Mapped { .. } => {
                proof {
                    assert(old(fa).remaining().skip(0) =~= old(fa).remaining());
                }
                Err(MapToError::ParentEntryHugePage)
            },
            PageTableEntry::Unused => {
                let allocated = fa.allocate_frame();
                match allocated {
                    None => {
                        proof {
                            assert(old(fa).remaining().skip(0) =~= old(fa).remaining());
                        }
                        Err(MapToError::FrameAllocationFailed)
                    },
                    Some(f) => {
                        let ghost pre = self.tables@;
                        proof {
                            assert(!contains_frame(pre, f));
                            lemma_spec_find(pre, f);
                        }
                        let entries = fresh_entries();
                        self.tables.push(TableNode { frame: f, entries });
                        let ghost ts1 = self.tables@;
                        proof {
                            assert(ts1 == pre.push(TableNode { frame: f, entries }));
                            assert forall|g: u64|
                                #[trigger] spec_find(ts1, g) == (if g == f {
                                    Some(pre.len() as int)
                                } else {
                                    spec_find(pre, g)
                                }) by {
                                lemma_find_push(pre, TableNode { frame: f, entries }, g);
                                if g != f {
                                    lemma_spec_find(pre, g);
                                    match spec_find(pre, g) {
                                        Some(_) => {},
                                        None => {},
                                    }
                                }
                            }
                        }
                        self.set_entry(parent_i, idx, PageTableEntry::Table(f));
                        proof {
                            self.lemma_after_create(
                                pre,
                                ts1,
                                parent,
                                parent_i as int,
                                idx as int,
                                f,
                                old(fa).remaining(),
                            );
                            assert(old(fa).remaining().drop_first() =~= old(fa).remaining().skip(
                                1,
                            ));
                        }
                        Ok(f)
                    },
                }
            },
        }
    }
}


impl OffsetPageTable {
    /// After appending a fresh empty table in frame `f` and linking it from
    /// `parent` at `idx`, the forest is still well formed, only that one
    /// entry changed, and the new table reads as empty.
    #[verifier::rlimit(100)]
    proof fn lemma_after_create(
        &self,
        pre: Seq<TableNode>,
        ts1: Seq<TableNode>,
        parent: u64,
        parent_i: int,
        idx: int,
        f: u64,
        fa_old: Seq<u64>,
    )
        requires
            tables_wf(pre, self.root),
            spec_find(pre, parent) == Some(parent_i),
            0 <= parent_i < pre.len(),
            pre[parent_i].frame == parent,
            0 <= idx < 512,
            pre[parent_i].entries@[idx] == PageTableEntry::Unused,
            !contains_frame(pre, f),
            ts1.len() == pre.len() + 1,
            forall|j: int| 0 <= j < pre.len() ==> #[trigger] ts1[j] == pre[j],
            ts1[pre.len() as int].frame == f,
            ts1[pre.len() as int].entries@.len() == ENTRY_COUNT,
            forall|k: int|
                0 <= k < ENTRY_COUNT ==> #[trigger] ts1[pre.len() as int].entries@[k]
                    == PageTableEntry::Unused,
            self.tables@.len() == ts1.len(),
            self.tables@[parent_i].frame == ts1[parent_i].frame,
            self.tables@[parent_i].entries@ == ts1[parent_i].entries@.update(
                idx,
                PageTableEntry::Table(f),
            ),
            forall|j: int|
                0 <= j < ts1.len() && j != parent_i ==> #[trigger] self.tables@[j] == ts1[j],
        ensures
            tables_wf(self.tables@, self.root),
            entry_of(self.tables@, parent, idx) == PageTableEntry::Table(f),
            contains_frame(self.tables@, f),
            f != self.root,
            forall|g: u64, k: int|
                0 <= k < 512 && (g != parent || k != idx) ==> #[trigger] entry_of(
                    self.tables@,
                    g,
                    k,
                ) == entry_of(pre, g, k),
            forall|k: int|
                0 <= k < 512 ==> #[trigger] entry_of(self.tables@, f, k) == PageTableEntry::Unused,
            forall|g: u64|
                #[trigger] contains_frame(self.tables@, g) <==> contains_frame(pre, g) || g == f,
    {
        let ts2 = self.tables@;
        let root = self.root;
        let node = ts1[pre.len() as int];
        lemma_spec_find(pre, f);
        lemma_spec_find(pre, parent);
        // find in ts1: push keeps old indices and puts f at the end
        assert(ts1 =~= pre.push(node));
        assert forall|g: u64|
            #[trigger] spec_find(ts1, g) == (if g == f {
                Some(pre.len() as int)
            } else {
                spec_find(pre, g)
            }) by {
            lemma_find_push(pre, node, g);
            if g != f {
                lemma_spec_find(pre, g);
            }
        }
        // find in ts2: the update keeps every frame in place
        assert(ts2 =~= ts1.update(parent_i, ts2[parent_i]));
        assert forall|g: u64| #[trigger] spec_find(ts2, g) == spec_find(ts1, g) by {
            lemma_find_update(ts1, parent_i, ts2[parent_i], g);
        }
        assert(parent != f);
        assert(spec_find(ts2, parent) == Some(parent_i));
        assert(entry_of(ts2, parent, idx) == PageTableEntry::Table(f));
        assert(spec_find(ts2, f) == Some(pre.len() as int));
        assert(contains_frame(pre, root));
        assert(f != root);
        // the fresh table reads as empty
        assert forall|k: int| 0 <= k < 512 implies #[trigger] entry_of(ts2, f, k)
            == PageTableEntry::Unused by {
            assert(parent_i != pre.len() as int);
            assert(ts2[pre.len() as int] == node);
        }
        // every other entry is unchanged
        assert forall|g: u64, k: int|
            0 <= k < 512 && (g != parent || k != idx) implies #[trigger] entry_of(ts2, g, k)
            == entry_of(pre, g, k) by {
            if g == f {
                assert(entry_of(pre, g, k) == PageTableEntry::Unused);
                assert(parent_i != pre.len() as int);
                assert(ts2[pre.len() as int] == node);
            } else {
                match spec_find(pre, g) {
                    Some(i) => {
                        lemma_spec_find(pre, g);
                        if i == parent_i {
                            assert(g == parent);
                            assert(ts1[parent_i] == pre[parent_i]);
                            assert(ts2[parent_i].entries@[k] == pre[parent_i].entries@[k]);
                        } else {
                            assert(ts2[i] == pre[i]);
                        }
                    },
                    None => {},
                }
            }
        }
        // the frames are the old ones plus f
        assert forall|g: u64|
            #[trigger] contains_frame(ts2, g) <==> contains_frame(pre, g) || g == f by {}
        // well-formedness of the new forest
        assert forall|i: int| 0 <= i < ts2.len() implies (#[trigger] ts2[i]).entries@.len()
            == ENTRY_COUNT by {
            if i == parent_i {
                assert(ts1[parent_i] == pre[parent_i]);
            } else {
                assert(ts2[i] == ts1[i]);
                if i < pre.len() {
                    assert(ts1[i] == pre[i]);
                }
            }
        }
        assert forall|i: int, j: int|
            0 <= i < j < ts2.len() implies (#[trigger] ts2[i]).frame != (#[trigger] ts2[j]).frame
            by {
            assert(ts2[i].frame == ts1[i].frame);
            assert(ts2[j].frame == ts1[j].frame);
            if j == pre.len() as int {
                assert(ts1[i].frame == pre[i].frame);
                assert(pre[i].frame != f);
            } else {
                assert(ts1[i].frame == pre[i].frame);
                assert(ts1[j].frame == pre[j].frame);
            }
        }
        assert(contains_frame(ts2, root));
        assert forall|i: int, k: int|
            0 <= i < ts2.len() && 0 <= k < ENTRY_COUNT && (#[trigger] ts2[i].entries@[k]) is Table
            implies contains_frame(ts2, ts2[i].entries@[k]->Table_0) && ts2[i].entries@[k]->Table_0
            != root by {
            if i == parent_i && k == idx {
            } else if i == pre.len() as int {
                assert(ts2[i] == node);
            } else if i == parent_i {
                assert(ts1[parent_i] == pre[parent_i]);
                assert(ts2[i].entries@[k] == pre[i].entries@[k]);
                let tgt = pre[i].entries@[k]->Table_0;
                assert(contains_frame(pre, tgt));
                assert(tgt != f);
            } else {
                assert(ts2[i] == ts1[i] && ts1[i] == pre[i]);
                let tgt = pre[i].entries@[k]->Table_0;
                assert(contains_frame(pre, tgt));
                assert(tgt != f);
            }
        }
        assert forall|i: int, k: int, i2: int, k2: int|
            0 <= i < ts2.len() && 0 <= k < ENTRY_COUNT && 0 <= i2 < ts2.len() && 0 <= k2
                < ENTRY_COUNT && (#[trigger] ts2[i].entries@[k]) is Table && (#[trigger] ts2[i2].entries@[k2]) is Table
                && ts2[i].entries@[k]->Table_0 == ts2[i2].entries@[k2]->Table_0 implies i == i2 && k
            == k2 by {
            let old_entry = |i: int, k: int| -> PageTableEntry {
                if i < pre.len() {
                    pre[i].entries@[k]
                } else {
                    PageTableEntry::Unused
                }
            };
            // relate each position of ts2 to pre
            if i == pre.len() as int {
                assert(ts2[i] == node);
                assert(!(ts2[i].entries@[k] is Table));
            }
            if i2 == pre.len() as int {
                assert(ts2[i2] == node);
                assert(!(ts2[i2].entries@[k2] is Table));
            }
            if !(i == parent_i && k == idx) && i < pre.len() {
                if i == parent_i {
                    assert(ts1[parent_i] == pre[parent_i]);
                    assert(ts2[i].entries@[k] == pre[i].entries@[k]);
                } else {
                    assert(ts2[i] == ts1[i] && ts1[i] == pre[i]);
                }
            }
            if !(i2 == parent_i && k2 == idx) && i2 < pre.len() {
                if i2 == parent_i {
                    assert(ts1[parent_i] == pre[parent_i]);
                    assert(ts2[i2].entries@[k2] == pre[i2].entries@[k2]);
                } else {
                    assert(ts2[i2] == ts1[i2] && ts1[i2] == pre[i2]);
                }
            }
            if i == parent_i && k == idx {
                if !(i2 == parent_i && k2 == idx) {
                    // the other entry targets f as well, but f is fresh
                    assert(ts2[i2].entries@[k2] == pre[i2].entries@[k2]);
                    assert(contains_frame(pre, pre[i2].entries@[k2]->Table_0));
                    assert(false);
                }
            } else if i2 == parent_i && k2 == idx {
                assert(ts2[i].entries@[k] == pre[i].entries@[k]);
                assert(contains_frame(pre, pre[i].entries@[k]->Table_0));
                assert(false);
            } else {
                // both entries already existed
                assert(ts2[i].entries@[k] == pre[i].entries@[k]);
                assert(ts2[i2].entries@[k2] == pre[i2].entries@[k2]);
            }
        }
    }
}


/// A present link records an existing, non-root target table.
proof fn lemma_link_facts(ts: Seq<TableNode>, root: u64, a: u64, k: int, t: u64)
    requires
        tables_wf(ts, root),
        0 <= k < 512,
        entry_of(ts, a, k) == PageTableEntry::Table(t),
    ensures
        contains_frame(ts, t),
        t != root,
{
    lemma_spec_find(ts, a);
    match spec_find(ts, a) {
        Some(i) => {
            assert(ts[i].entries@[k] is Table);
        },
        None => {
            assert(false);
        },
    }
}

/// No two links point at the same table.
proof fn lemma_link_unique(
    ts: Seq<TableNode>,
    root: u64,
    a: u64,
    k1: int,
    b: u64,
    k2: int,
    t: u64,
)
    requires
        tables_wf(ts, root),
        0 <= k1 < 512,
        0 <= k2 < 512,
        entry_of(ts, a, k1) == PageTableEntry::Table(t),
        entry_of(ts, b, k2) == PageTableEntry::Table(t),
    ensures
        a == b,
        k1 == k2,
{
    lemma_spec_find(ts, a);
    lemma_spec_find(ts, b);
    match (spec_find(ts, a), spec_find(ts, b)) {
        (Some(ia), Some(ib)) => {
            assert(ts[ia].entries@[k1] is Table);
            assert(ts[ib].entries@[k2] is Table);
            assert(ia == ib && k1 == k2);
        },
        _ => {
            assert(false);
        },
    }
}

impl OffsetPageTable {
    /// Linking a fresh, empty table into the forest changes no translation:
    /// a walk that used to stop at the unused entry now stops one level
    /// further down, inside the empty table.
    proof fn lemma_step_preserves_translate(
        pre: OffsetPageTable,
        post: OffsetPageTable,
        parent: u64,
        idx: int,
        f: u64,
        q: u64,
    )
        requires
            pre.root == post.root,
            0 <= idx < 512,
            forall|g: u64, k: int|
                0 <= k < 512 && (g != parent || k != idx) ==> #[trigger] entry_of(
                    post.tables@,
                    g,
                    k,
                ) == entry_of(pre.tables@, g, k),
            entry_of(pre.tables@, parent, idx) == PageTableEntry::Unused,
            entry_of(post.tables@, parent, idx) == PageTableEntry::Table(f),
            forall|k: int|
                0 <= k < 512 ==> #[trigger] entry_of(post.tables@, f, k)
                    == PageTableEntry::Unused,
            f != parent,
        ensures
            post.spec_translate_page(q) == pre.spec_translate_page(q),
    {
        lemma_index_bounds(q);
        let root = pre.root;
        if root == parent && l4_index(q) == idx {
            assert(entry_of(post.tables@, f, l3_index(q)) == PageTableEntry::Unused);
        } else {
            assert(entry_of(post.tables@, root, l4_index(q)) == entry_of(
                pre.tables@,
                root,
                l4_index(q),
            ));
            match entry_of(pre.tables@, root, l4_index(q)) {
                PageTableEntry::Table(g3) => {
                    if g3 == parent && l3_index(q) == idx {
                        assert(entry_of(post.tables@, f, l2_index(q))
                            == PageTableEntry::Unused);
                    } else {
                        assert(entry_of(post.tables@, g3, l3_index(q)) == entry_of(
                            pre.tables@,
                            g3,
                            l3_index(q),
                        ));
                        match entry_of(pre.tables@, g3, l3_index(q)) {
                            PageTableEntry::Table(g2) => {
                                if g2 == parent && l2_index(q) == idx {
                                    assert(entry_of(post.tables@, f, l1_index(q))
                                        == PageTableEntry::Unused);
                                } else {
                                    assert(entry_of(post.tables@, g2, l2_index(q)) == entry_of(
                                        pre.tables@,
                                        g2,
                                        l2_index(q),
                                    ));
                                    match entry_of(pre.tables@, g2, l2_index(q)) {
                                        PageTableEntry::Table(g1) => {
                                            if g1 == parent && l1_index(q) == idx {
                                            } else {
                                                assert(entry_of(post.tables@, g1, l1_index(q))
                                                    == entry_of(pre.tables@, g1, l1_index(q)));
                                            }
                                        },
                                        _ => {},
                                    }
                                }
                            },
                            _ => {},
                        }
                    }
                },
                _ => {},
            }
        }
    }

    /// Writing the final mapping for `page` leaves the translation of every
    /// other page of the decoded address space unchanged.
    #[verifier::rlimit(100)]
    proof fn lemma_leaf_preserves_translate(
        pre: OffsetPageTable,
        post: OffsetPageTable,
        page: u64,
        f3: u64,
        f2: u64,
        f1: u64,
        q: u64,
    )
        requires
            post.wf(),
            pre.root == post.root,
            page % 4096 == 0,
            page < ADDRESS_SPACE_SIZE,
            q % 4096 == 0,
            q < ADDRESS_SPACE_SIZE,
            q != page,
            entry_of(post.tables@, post.root, l4_index(page)) == PageTableEntry::Table(f3),
            entry_of(post.tables@, f3, l3_index(page)) == PageTableEntry::Table(f2),
            entry_of(post.tables@, f2, l2_index(page)) == PageTableEntry::Table(f1),
            forall|g: u64, k: int|
                0 <= k < 512 && (g != f1 || k != l1_index(page)) ==> #[trigger] entry_of(
                    post.tables@,
                    g,
                    k,
                ) == entry_of(pre.tables@, g, k),
        ensures
            post.spec_translate_page(q) == pre.spec_translate_page(q),
    {
        lemma_index_bounds(q);
        lemma_index_bounds(page);
        let ts = post.tables@;
        let root = post.root;
        lemma_link_facts(ts, root, root, l4_index(page), f3);
        lemma_link_facts(ts, root, f3, l3_index(page), f2);
        lemma_link_facts(ts, root, f2, l2_index(page), f1);
        assert(entry_of(post.tables@, root, l4_index(q)) == entry_of(
            pre.tables@,
            root,
            l4_index(q),
        ));
        match entry_of(post.tables@, root, l4_index(q)) {
            PageTableEntry::Table(g3) => {
                if g3 == f1 {
                    lemma_link_unique(ts, root, root, l4_index(q), f2, l2_index(page), f1);
                    assert(false);
                }
                assert(entry_of(post.tables@, g3, l3_index(q)) == entry_of(
                    pre.tables@,
                    g3,
                    l3_index(q),
                ));
                match entry_of(post.tables@, g3, l3_index(q)) {
                    PageTableEntry::Table(g2) => {
                        if g2 == f1 {
                            lemma_link_unique(ts, root, g3, l3_index(q), f2, l2_index(page), f1);
                            lemma_link_unique(ts, root, root, l4_index(q), f3, l3_index(page), f2);
                            assert(false);
                        }
                        assert(entry_of(post.tables@, g2, l2_index(q)) == entry_of(
                            pre.tables@,
                            g2,
                            l2_index(q),
                        ));
                        match entry_of(post.tables@, g2, l2_index(q)) {
                            PageTableEntry::Table(g1) => {
                                if g1 == f1 && l1_index(q) == l1_index(page) {
                                    lemma_link_unique(
                                        ts,
                                        root,
                                        g2,
                                        l2_index(q),
                                        f2,
                                        l2_index(page),
                                        f1,
                                    );
                                    lemma_link_unique(
                                        ts,
                                        root,
                                        g3,
                                        l3_index(q),
                                        f3,
                                        l3_index(page),
                                        f2,
                                    );
                                    lemma_link_unique(
                                        ts,
                                        root,
                                        root,
                                        l4_index(q),
                                        root,
                                        l4_index(page),
                                        f3,
                                    );
                                    lemma_page_of_indices(q, page);
                                    assert(false);
                                }
                                assert(entry_of(post.tables@, g1, l1_index(q)) == entry_of(
                                    pre.tables@,
                                    g1,
                                    l1_index(q),
                                ));
                            },
                            _ => {},
                        }
                    },
                    _ => {},
                }
            },
            _ => {},
        }
    }

    /// After overwriting one unused entry with a non-link value, the forest
    /// is still well formed and every other entry reads as before.
    #[verifier::rlimit(100)]
    proof fn lemma_after_set(
        &self,
        pre: Seq<TableNode>,
        fidx: int,
        fframe: u64,
        idx: int,
        e: PageTableEntry,
    )
        requires
            tables_wf(pre, self.root),
            spec_find(pre, fframe) == Some(fidx),
            0 <= fidx < pre.len(),
            pre[fidx].frame == fframe,
            0 <= idx < 512,
            pre[fidx].entries@[idx] == PageTableEntry::Unused,
            !(e is Table),
            self.tables@.len() == pre.len(),
            self.tables@[fidx].frame == pre[fidx].frame,
            self.tables@[fidx].entries@ == pre[fidx].entries@.update(idx, e),
            forall|j: int| 0 <= j < pre.len() && j != fidx ==> #[trigger] self.tables@[j] == pre[j],
        ensures
            tables_wf(self.tables@, self.root),
            entry_of(self.tables@, fframe, idx) == e,
            forall|g: u64, k: int|
                0 <= k < 512 && (g != fframe || k != idx) ==> #[trigger] entry_of(
                    self.tables@,
                    g,
                    k,
                ) == entry_of(pre, g, k),
            forall|g: u64| #[trigger] contains_frame(self.tables@, g) <==> contains_frame(pre, g),
    {
        let ts2 = self.tables@;
        let root = self.root;
        assert(ts2 =~= pre.update(fidx, ts2[fidx]));
        assert forall|g: u64| #[trigger] spec_find(ts2, g) == spec_find(pre, g) by {
            lemma_find_update(pre, fidx, ts2[fidx], g);
        }
        assert(entry_of(ts2, fframe, idx) == e);
        assert forall|g: u64, k: int|
            0 <= k < 512 && (g != fframe || k != idx) implies #[trigger] entry_of(ts2, g, k)
            == entry_of(pre, g, k) by {
            match spec_find(pre, g) {
                Some(i) => {
                    lemma_spec_find(pre, g);
                    if i == fidx {
                        assert(g == fframe);
                        assert(ts2[fidx].entries@[k] == pre[fidx].entries@[k]);
                    } else {
                        assert(ts2[i] == pre[i]);
                    }
                },
                None => {},
            }
        }
        assert forall|i: int| 0 <= i < ts2.len() implies (#[trigger] ts2[i]).entries@.len()
            == ENTRY_COUNT by {
            if i != fidx {
                assert(ts2[i] == pre[i]);
            }
        }
        assert forall|i: int, j: int|
            0 <= i < j < ts2.len() implies (#[trigger] ts2[i]).frame != (#[trigger] ts2[j]).frame
            by {
            assert(ts2[i].frame == pre[i].frame);
            assert(ts2[j].frame == pre[j].frame);
        }
        assert forall|i: int, k: int|
            0 <= i < ts2.len() && 0 <= k < ENTRY_COUNT && (#[trigger] ts2[i].entries@[k]) is Table
            implies contains_frame(ts2, ts2[i].entries@[k]->Table_0) && ts2[i].entries@[k]->Table_0
            != root by {
            if i == fidx && k == idx {
                assert(false);
            } else if i == fidx {
                assert(ts2[i].entries@[k] == pre[i].entries@[k]);
            } else {
                assert(ts2[i] == pre[i]);
            }
        }
        assert forall|i: int, k: int, i2: int, k2: int|
            0 <= i < ts2.len() && 0 <= k < ENTRY_COUNT && 0 <= i2 < ts2.len() && 0 <= k2
                < ENTRY_COUNT && (#[trigger] ts2[i].entries@[k]) is Table && (#[trigger] ts2[i2].entries@[k2]) is Table
                && ts2[i].entries@[k]->Table_0 == ts2[i2].entries@[k2]->Table_0 implies i == i2 && k
            == k2 by {
            if i == fidx && k == idx {
                assert(false);
            }
            if i2 == fidx && k2 == idx {
                assert(false);
            }
            if i == fidx {
                assert(ts2[i].entries@[k] == pre[i].entries@[k]);
            } else {
                assert(ts2[i] == pre[i]);
            }
            if i2 == fidx {
                assert(ts2[i2].entries@[k2] == pre[i2].entries@[k2]);
            } else {
                assert(ts2[i2] == pre[i2]);
            }
        }
    }
}


/// Whether two addresses share all three upper walk indices, and so walk
/// through the same chain of tables down to the last level.
pub open spec fn same_l2_window(p: u64, q: u64) -> bool {
    l4_index(p) == l4_index(q) && l3_index(p) == l3_index(q) && l2_index(p) == l2_index(q)
}

impl OffsetPageTable {
    /// Whether the walk for `page` runs into a large-page mapping before the
    /// last level.
    pub open spec fn walk_blocked_by_huge(self, page: u64) -> bool {
        let ts = self.tables@;
        let e4 = entry_of(ts, self.root, l4_index(page));
        e4 is Mapped || (e4 is Table && {
            let e3 = entry_of(ts, e4->Table_0, l3_index(page));
            e3 is Mapped || (e3 is Table && entry_of(ts, e3->Table_0, l2_index(page)) is Mapped)
        })
    }

    /// Whether the whole walk for `page` exists and its last entry is taken.
    pub open spec fn leaf_occupied(self, page: u64) -> bool {
        let ts = self.tables@;
        let e4 = entry_of(ts, self.root, l4_index(page));
        e4 is Table && {
            let e3 = entry_of(ts, e4->Table_0, l3_index(page));
            e3 is Table && {
                let e2 = entry_of(ts, e3->Table_0, l2_index(page));
                e2 is Table && !(entry_of(ts, e2->Table_0, l1_index(page)) is Unused)
            }
        }
    }

    /// How many intermediate tables the walk for `page` still lacks.
    pub open spec fn tables_needed(self, page: u64) -> int {
        let ts = self.tables@;
        let e4 = entry_of(ts, self.root, l4_index(page));
        if e4 is Unused {
            3
        } else if e4 is Table {
            let e3 = entry_of(ts, e4->Table_0, l3_index(page));
            if e3 is Unused {
                2
            } else if e3 is Table {
                if entry_of(ts, e3->Table_0, l2_index(page)) is Unused {
                    1
                } else {
                    0
                }
            } else {
                0
            }
        } else {
            0
        }
    }

    /// Map `page` to `frame` with the given writability, creating missing
    /// intermediate tables from the frame allocator.  Fails on a large-page
    /// entry, an already-mapped page, or allocator depletion; every other
    /// page of the decoded address space keeps its translation.
    #[verifier::rlimit(100)]
    pub fn map_to<A: FrameSource>(
        &mut self,
        page: u64,
        frame: u64,
        writable: bool,
        fa: &mut A,
    ) -> (r: Result<(), MapToError>)
        requires
            old(self).wf(),
            page % 4096 == 0,
            page < ADDRESS_SPACE_SIZE,
            frame % 4096 == 0,
            old(fa).inv(),
            forall|k: int|
                0 <= k < old(fa).remaining().len() ==> !contains_frame(
                    old(self).tables@,
                    #[trigger] old(fa).remaining()[k],
                ),
            forall|k1: int, k2: int|
                0 <= k1 < k2 < old(fa).remaining().len() ==> old(fa).remaining()[k1] != old(fa).remaining()[k2],
        ensures
            final(self).wf(),
            final(fa).inv(),
            final(self).root == old(self).root,
            final(self).phys_offset == old(self).phys_offset,
            ({
                let used = old(fa).remaining().len() - final(fa).remaining().len();
                &&& 0 <= used <= 3
                &&& final(fa).remaining() == old(fa).remaining().skip(used as int)
                &&& forall|g: u64|
                    #[trigger] contains_frame(final(self).tables@, g) <==> contains_frame(
                        old(self).tables@,
                        g,
                    ) || old(fa).remaining().take(used as int).contains(g)
            }),
            r is Ok ==> final(self).spec_translate_page(page) == Some((frame, writable)),
            r is Ok ==> old(fa).remaining().len() - final(fa).remaining().len() == old(self).tables_needed(page),
            r is Ok ==> final(self).leaf_occupied(page),
            r is Ok ==> forall|q: u64|
                #[trigger] same_l2_window(page, q) ==> final(self).tables_needed(q) == 0 && !final(self).walk_blocked_by_huge(q),
            r is Ok ==> forall|q: u64|
                same_l2_window(page, q) && l1_index(q) != l1_index(page) ==> (#[trigger] final(self).leaf_occupied(q)) == old(self).leaf_occupied(q),
            r is Err ==> final(self).spec_translate_page(page) == old(self).spec_translate_page(
                page,
            ),
            forall|q: u64|
                q % 4096 == 0 && q < ADDRESS_SPACE_SIZE && q != page
                    ==> #[trigger] final(self).spec_translate_page(q) == old(self).spec_translate_page(q),
            r == Err::<(), MapToError>(MapToError::ParentEntryHugePage) <==> old(self).walk_blocked_by_huge(page),
            r == Err::<(), MapToError>(MapToError::PageAlreadyMapped) <==> (!old(self).walk_blocked_by_huge(page) && old(self).leaf_occupied(page)),
            r == Err::<(), MapToError>(MapToError::FrameAllocationFailed) <==> (!old(self).walk_blocked_by_huge(page) && !old(self).leaf_occupied(page) && old(fa).remaining().len() < old(self).tables_needed(page)),
    {
        proof {
            lemma_index_bounds(page);
        }
        let ghost s0 = *self;
        let ghost fa0 = old(fa).remaining();
        let root = self.root;
        let i4 = p4_index(page);
        let i3 = p3_index(page);
        let i2 = p2_index(page);
        let i1 = p1_index(page);
        let ghost e4 = entry_of(s0.tables@, s0.root, l4_index(page));

        let r3 = self.ensure_table(root, i4, fa);
        let f3 = match r3 {
            Ok(f) => f,
            Err(e) => {
                proof {
                    assert(fa0.skip(0) =~= fa0);
                    assert(fa0.take(0) =~= Seq::<u64>::empty());
                }
                return Err(e);
            },
        };
        let ghost s1 = *self;
        let ghost fa1 = fa.remaining();
        let ghost created3 = e4 is Unused;
        proof {
            if created3 {
                assert(f3 != root);
                assert forall|q: u64|
                    #[trigger] s1.spec_translate_page(q) == s0.spec_translate_page(q) by {
                    Self::lemma_step_preserves_translate(s0, s1, root, l4_index(page), f3, q);
                }
            } else {
                assert(e4 == PageTableEntry::Table(f3));
                assert(s1.tables@ == s0.tables@ && s1.root == s0.root);
                assert forall|q: u64|
                    #[trigger] s1.spec_translate_page(q) == s0.spec_translate_page(q) by {}
            }
            // the frames still to come are fresh for the grown forest too
            assert forall|k: int|
                0 <= k < fa1.len() implies !contains_frame(
                s1.tables@,
                #[trigger] fa1[k],
            ) by {
                if created3 {
                    assert(fa1[k] == fa0[k + 1]);
                } else {
                    assert(fa1[k] == fa0[k]);
                }
            }
            assert forall|k1: int, k2: int|
                0 <= k1 < k2 < fa1.len() implies fa1[k1] != fa1[k2] by {
                if created3 {
                    assert(fa1[k1] == fa0[k1 + 1] && fa1[k2] == fa0[k2 + 1]);
                } else {
                    assert(fa1[k1] == fa0[k1] && fa1[k2] == fa0[k2]);
                }
            }
        }
        let ghost e3 = entry_of(s1.tables@, f3, l3_index(page));

        let r2 = self.ensure_table(f3, i3, fa);
        let f2 = match r2 {
            Ok(f) => f,
            Err(e) => {
                proof {
                    let usedt = fa0.len() - fa.remaining().len();
                    assert(fa.remaining() == fa1);
                    if created3 {
                        assert(usedt == 1);
                        assert(fa.remaining() =~= fa0.skip(1));
                        assert(e3 == PageTableEntry::Unused);
                        assert(e == MapToError::FrameAllocationFailed);
                        assert(s0.tables_needed(page) == 3);
                        assert(fa0.len() == 1);
                        assert forall|g: u64|
                            #[trigger] contains_frame(self.tables@, g) <==> contains_frame(
                            s0.tables@,
                            g,
                        ) || fa0.take(1).contains(g) by {
                            assert(fa0.take(1)[0] == fa0[0]);
                            if g == fa0[0] {
                                assert(fa0.take(1).contains(g));
                            }
                            if fa0.take(1).contains(g) {
                                assert(g == fa0[0]);
                            }
                        }
                    } else {
                        assert(usedt == 0);
                        assert(fa.remaining() =~= fa0.skip(0));
                        assert(fa0.take(0) =~= Seq::<u64>::empty());
                        assert(s1.tables@ == s0.tables@ && s1.root == s0.root);
                        assert(e3 == entry_of(s0.tables@, f3, l3_index(page)));
                        if e == MapToError::ParentEntryHugePage {
                            assert(e3 is Mapped);
                            assert(s0.walk_blocked_by_huge(page));
                        } else {
                            assert(e3 is Unused && fa1.len() == 0);
                            assert(s0.tables_needed(page) == 2);
                            assert(!s0.walk_blocked_by_huge(page));
                            assert(!s0.leaf_occupied(page));
                        }
                    }
                    assert(self.tables@ == s1.tables@ && self.root == s1.root);
                    assert forall|q: u64|
                        #[trigger] self.spec_translate_page(q) == s0.spec_translate_page(q) by {
                        assert(s1.spec_translate_page(q) == s0.spec_translate_page(q));
                    }
                }
                return Err(e);
            },
        };
        let ghost s2 = *self;
        let ghost fa2 = fa.remaining();
        let ghost created2 = e3 is Unused;
        proof {
            assert(f2 != root);
            if created2 {
                assert forall|q: u64|
                    #[trigger] s2.spec_translate_page(q) == s1.spec_translate_page(q) by {
                    Self::lemma_step_preserves_translate(s1, s2, f3, l3_index(page), f2, q);
                }
            } else {
                assert(e3 == PageTableEntry::Table(f2));
                assert(s2.tables@ == s1.tables@ && s2.root == s1.root);
                assert forall|q: u64|
                    #[trigger] s2.spec_translate_page(q) == s1.spec_translate_page(q) by {}
            }
            // entry facts carried over: the level-4 link still stands
            assert(entry_of(s2.tables@, root, l4_index(page)) == PageTableEntry::Table(f3));
            assert(f2 != f3) by {
                if f2 == f3 {
                    lemma_link_unique(
                        s2.tables@,
                        root,
                        root,
                        l4_index(page),
                        f3,
                        l3_index(page),
                        f3,
                    );
                }
            }
            assert forall|k: int|
                0 <= k < fa2.len() implies !contains_frame(
                s2.tables@,
                #[trigger] fa2[k],
            ) by {
                let u = fa1.len() - fa2.len();
                assert(fa2[k] == fa1[k + u]);
            }
            assert forall|k1: int, k2: int|
                0 <= k1 < k2 < fa2.len() implies fa2[k1] != fa2[k2] by {
                let u = fa1.len() - fa2.len();
                assert(fa2[k1] == fa1[k1 + u] && fa2[k2] == fa1[k2 + u]);
            }
        }
        let ghost e2 = entry_of(s2.tables@, f2, l2_index(page));

        let r1 = self.ensure_table(f2, i2, fa);
        let f1 = match r1 {
            Ok(f) => f,
            Err(e) => {
                proof {
                    assert(fa.remaining() == fa2);
                    let used1 = fa0.len() - fa1.len();
                    let used2 = fa1.len() - fa2.len();
                    let used = used1 + used2;
                    assert(fa2 =~= fa0.skip(used));
                    assert forall|g: u64|
                        #[trigger] contains_frame(self.tables@, g) <==> contains_frame(
                        s0.tables@,
                        g,
                    ) || fa0.take(used).contains(g) by {
                        if used1 == 1 && g == fa0[0] {
                            assert(fa0.take(used)[0] == g);
                        }
                        if used2 == 1 && g == fa1[0] {
                            assert(fa1[0] == fa0[used1]);
                            assert(fa0.take(used)[used1] == g);
                        }
                        if fa0.take(used).contains(g) {
                            let j = choose|j: int| 0 <= j < used && fa0.take(used)[j] == g;
                            assert(fa0[j] == g);
                        }
                    }
                    if created3 {
                        // level 3 was fresh, so its entry could not be huge
                        assert(!(e2 is Mapped));
                        assert(e == MapToError::FrameAllocationFailed);
                        assert(e2 is Unused && fa2.len() == 0);
                        assert(s0.tables_needed(page) == 3);
                        assert(!s0.walk_blocked_by_huge(page));
                        assert(!s0.leaf_occupied(page));
                        assert(fa0.len() < 3);
                    } else {
                        assert(e3 == entry_of(s0.tables@, f3, l3_index(page)));
                        if created2 {
                            assert(!(e2 is Mapped));
                            assert(e == MapToError::FrameAllocationFailed);
                            assert(s0.tables_needed(page) == 2);
                            assert(!s0.walk_blocked_by_huge(page));
                            assert(!s0.leaf_occupied(page));
                            assert(fa0.len() < 2);
                        } else {
                            assert(s2.tables@ == s0.tables@ && s2.root == s0.root);
                            assert(e2 == entry_of(s0.tables@, f2, l2_index(page)));
                            if e == MapToError::ParentEntryHugePage {
                                assert(e2 is Mapped);
                                assert(s0.walk_blocked_by_huge(page));
                            } else {
                                assert(e2 is Unused && fa2.len() == 0);
                                assert(s0.tables_needed(page) == 1);
                                assert(!s0.walk_blocked_by_huge(page));
                                assert(!s0.leaf_occupied(page));
                            }
                        }
                    }
                    assert(self.tables@ == s2.tables@ && self.root == s2.root);
                    assert forall|q: u64|
                        #[trigger] self.spec_translate_page(q) == s0.spec_translate_page(q) by {
                        assert(s2.spec_translate_page(q) == s1.spec_translate_page(q));
                        assert(s1.spec_translate_page(q) == s0.spec_translate_page(q));
                    }
                }
                return Err(e);
            },
        };
        let ghost s3 = *self;
        let ghost fa3 = fa.remaining();
        let ghost created1 = e2 is Unused;
        proof {
            assert(f1 != root);
            if created1 {
                assert forall|q: u64|
                    #[trigger] s3.spec_translate_page(q) == s2.spec_translate_page(q) by {
                    Self::lemma_step_preserves_translate(s2, s3, f2, l2_index(page), f1, q);
                }
            } else {
                assert(e2 == PageTableEntry::Table(f1));
                assert(s3.tables@ == s2.tables@ && s3.root == s2.root);
                assert forall|q: u64|
                    #[trigger] s3.spec_translate_page(q) == s2.spec_translate_page(q) by {}
            }
            assert(entry_of(s3.tables@, f2, l2_index(page)) == PageTableEntry::Table(f1));
            assert(f1 != f3 && f1 != f2) by {
                if f1 == f2 {
                    lemma_link_unique(s3.tables@, root, f3, l3_index(page), f2, l2_index(page), f2);
                }
                if f1 == f3 {
                    lemma_link_unique(
                        s3.tables@,
                        root,
                        root,
                        l4_index(page),
                        f2,
                        l2_index(page),
                        f3,
                    );
                }
            }
            assert(entry_of(s3.tables@, f3, l3_index(page)) == PageTableEntry::Table(f2));
            assert(entry_of(s3.tables@, root, l4_index(page)) == PageTableEntry::Table(f3));
        }
        // last level: write the mapping itself
        proof {
            lemma_spec_find(self.tables@, f1);
        }
        let f1_i = match self.find_node(f1) {
            Some(i) => i,
            None => {
                proof {
                    assert(false);
                }
                return Err(MapToError::FrameAllocationFailed);
            },
        };
        let leaf = self.tables[f1_i].entries[i1];
        proof {
            assert(leaf == entry_of(s3.tables@, f1, l1_index(page)));
        }
        match leaf {
            PageTableEntry::Unused => {
                let ghost pre_leaf = self.tables@;
                self.set_entry(f1_i, i1, PageTableEntry::Mapped { frame, writable, huge: false });
                proof {
                    self.lemma_after_set(
                        pre_leaf,
                        f1_i as int,
                        f1,
                        l1_index(page),
                        PageTableEntry::Mapped { frame, writable, huge: false },
                    );
                    let sf = *self;
                    // the walk of `page` now ends at the new mapping
                    assert(entry_of(sf.tables@, root, l4_index(page)) == PageTableEntry::Table(f3));
                    assert(entry_of(sf.tables@, f3, l3_index(page)) == PageTableEntry::Table(f2));
                    assert(entry_of(sf.tables@, f2, l2_index(page)) == PageTableEntry::Table(f1));
                    assert(sf.spec_translate_page(page) == Some((frame, writable)));
                    // every other page keeps its translation
                    assert forall|q: u64|
                        q % 4096 == 0 && q < ADDRESS_SPACE_SIZE && q != page
                            implies #[trigger] sf.spec_translate_page(q) == s0.spec_translate_page(
                        q,
                    ) by {
                        Self::lemma_leaf_preserves_translate(s3, sf, page, f3, f2, f1, q);
                    }
                    // bookkeeping of consumed frames
                    let used1 = fa0.len() - fa1.len();
                    let used2 = fa1.len() - fa2.len();
                    let used3 = fa2.len() - fa3.len();
                    let used = used1 + used2 + used3;
                    assert(fa3 =~= fa0.skip(used));
                    assert forall|g: u64|
                        #[trigger] contains_frame(sf.tables@, g) <==> contains_frame(
                        s0.tables@,
                        g,
                    ) || fa0.take(used).contains(g) by {
                        if used1 == 1 && g == fa0[0] {
                            assert(fa0.take(used)[0] == g);
                        }
                        if used2 == 1 && g == fa1[0] {
                            assert(fa1[0] == fa0[used1]);
                            assert(fa0.take(used)[used1] == g);
                        }
                        if used3 == 1 && g == fa2[0] {
                            assert(fa2[0] == fa0[used1 + used2]);
                            assert(fa0.take(used)[used1 + used2] == g);
                        }
                        if fa0.take(used).contains(g) {
                            let j = choose|j: int| 0 <= j < used && fa0.take(used)[j] == g;
                            assert(fa0[j] == g);
                            if j >= used1 + used2 {
                                assert(fa2[j - used1 - used2] == g);
                            } else if j >= used1 {
                                assert(fa1[j - used1] == g);
                            }
                        }
                    }
                    // the request could not have been blocked or redundant
                    assert(!s0.walk_blocked_by_huge(page));
                    assert(!s0.leaf_occupied(page));
                    assert(fa0.len() >= s0.tables_needed(page));
                    // exactly the missing tables were taken from the source
                    assert(used1 == (if created3 {
                        1int
                    } else {
                        0int
                    }));
                    if created3 {
                        assert(created2) by {
                            assert(entry_of(s1.tables@, f3, l3_index(page))
                                == PageTableEntry::Unused);
                        }
                        assert(created1) by {
                            assert(entry_of(s2.tables@, f2, l2_index(page))
                                == PageTableEntry::Unused);
                        }
                        assert(s0.tables_needed(page) == 3);
                    } else if created2 {
                        assert(created1) by {
                            assert(entry_of(s2.tables@, f2, l2_index(page))
                                == PageTableEntry::Unused);
                        }
                        assert(e3 == entry_of(s0.tables@, f3, l3_index(page)));
                        assert(s0.tables_needed(page) == 2);
                    } else if created1 {
                        assert(e3 == entry_of(s0.tables@, f3, l3_index(page)));
                        assert(e2 == entry_of(s0.tables@, f2, l2_index(page)));
                        assert(s0.tables_needed(page) == 1);
                    } else {
                        assert(e3 == entry_of(s0.tables@, f3, l3_index(page)));
                        assert(e2 == entry_of(s0.tables@, f2, l2_index(page)));
                        assert(s0.tables_needed(page) == 0);
                    }
                    assert(used == s0.tables_needed(page));
                    // the whole last-level window now walks through the
                    // same complete chain of tables
                    assert(entry_of(sf.tables@, f1, l1_index(page)) == PageTableEntry::Mapped {
                        frame,
                        writable,
                        huge: false,
                    });
                    assert(sf.leaf_occupied(page));
                    assert forall|q: u64| #[trigger] same_l2_window(page, q) implies sf.tables_needed(
                        q,
                    ) == 0 && !sf.walk_blocked_by_huge(q) by {
                        assert(entry_of(sf.tables@, root, l4_index(q))
                            == PageTableEntry::Table(f3));
                        assert(entry_of(sf.tables@, f3, l3_index(q)) == PageTableEntry::Table(f2));
                        assert(entry_of(sf.tables@, f2, l2_index(q)) == PageTableEntry::Table(f1));
                    }
                    // sibling pages of the window keep their occupancy
                    assert forall|q: u64|
                        same_l2_window(page, q) && l1_index(q) != l1_index(page) implies (
                    #[trigger] sf.leaf_occupied(q)) == s0.leaf_occupied(q) by {
                        lemma_index_bounds(q);
                        assert(entry_of(sf.tables@, f1, l1_index(q)) == entry_of(
                            s3.tables@,
                            f1,
                            l1_index(q),
                        ));
                        if created1 {
                            assert(entry_of(s3.tables@, f1, l1_index(q))
                                == PageTableEntry::Unused);
                            assert(!sf.leaf_occupied(q));
                            if created3 {
                                assert(e4 == PageTableEntry::Unused);
                                assert(!s0.leaf_occupied(q));
                            } else if created2 {
                                assert(e3 == entry_of(s0.tables@, f3, l3_index(page)));
                                assert(!s0.leaf_occupied(q));
                            } else {
                                assert(e2 == entry_of(s0.tables@, f2, l2_index(page)));
                                assert(!s0.leaf_occupied(q));
                            }
                        } else {
                            assert(s3.tables@ == s0.tables@);
                            assert(e3 == entry_of(s0.tables@, f3, l3_index(page)));
                            assert(e2 == entry_of(s0.tables@, f2, l2_index(page)));
                        }
                    }
                }
                Ok(())
            },
            _ => {
                proof {
                    // an occupied last entry means no table was created on
                    // the way down, so the forest is exactly as it started
                    assert(!created1);
                    assert(!created2) by {
                        if created2 {
                            assert(entry_of(s2.tables@, f2, l2_index(page))
                                == PageTableEntry::Unused);
                        }
                    }
                    assert(!created3) by {
                        if created3 {
                            assert(entry_of(s1.tables@, f3, l3_index(page))
                                == PageTableEntry::Unused);
                        }
                    }
                    assert(s3.tables@ == s0.tables@ && s3.root == s0.root);
                    assert(fa3 == fa0);
                    assert(fa0.skip(0) =~= fa0);
                    assert(fa0.take(0) =~= Seq::<u64>::empty());
                    assert(s0.leaf_occupied(page));
                    assert(!s0.walk_blocked_by_huge(page));
                }
                Err(MapToError::PageAlreadyMapped)
            },
        }
    }
}


impl OffsetPageTable {
    /// Translate a virtual address by a read-only walk; `None` when any
    /// level is absent or the entry is a large-page mapping.
    pub fn translate_addr(&self, addr: u64) -> (r: Option<u64>)
        requires
            self.wf(),
        ensures
            r == self.spec_translate(addr),
    {
        proof {
            lemma_index_bounds(addr);
            assert((addr & 0xfff) < 4096) by (bit_vector);
        }
        let off = addr & 0xfff;
        let root = self.root;
        match self.read_entry(root, p4_index(addr)) {
            PageTableEntry::Table(f3) => match self.read_entry(f3, p3_index(addr)) {
                PageTableEntry::Table(f2) => match self.read_entry(f2, p2_index(addr)) {
                    PageTableEntry::Table(f1) => match self.read_entry(f1, p1_index(addr)) {
                        PageTableEntry::Mapped { frame, writable: _, huge } => if !huge {
                            let sum: u128 = frame as u128 + off as u128;
                            let phys: u64 = #[verifier::truncate] (sum as u64);
                            proof {
                                assert(phys == (frame + page_offset(addr)) as u64);
                            }
                            Some(phys)
                        } else {
                            None
                        },
                        _ => None,
                    },
                    _ => None,
                },
                _ => None,
            },
            _ => None,
        }
    }
}

/// Map `page` to the frame that holds the text-mode display buffer,
/// present and writable.
pub fn example_mapping<A: FrameSource>(
    page: u64,
    mapper: &mut OffsetPageTable,
    frame_allocator: &mut A,
) -> (r: Result<(), MapToError>)
    requires
        old(mapper).wf(),
        page % 4096 == 0,
        page < ADDRESS_SPACE_SIZE,
        old(frame_allocator).inv(),
        forall|k: int|
            0 <= k < old(frame_allocator).remaining().len() ==> !contains_frame(
                old(mapper).tables@,
                #[trigger] old(frame_allocator).remaining()[k],
            ),
        forall|k1: int, k2: int|
            0 <= k1 < k2 < old(frame_allocator).remaining().len() ==> old(
                frame_allocator,
            ).remaining()[k1] != old(frame_allocator).remaining()[k2],
    ensures
        final(mapper).wf(),
        final(frame_allocator).inv(),
        final(mapper).root == old(mapper).root,
        r is Ok ==> final(mapper).spec_translate_page(page) == Some((0xb8000u64, true)),
        r is Err ==> final(mapper).spec_translate_page(page) == old(mapper).spec_translate_page(
            page,
        ),
        forall|q: u64|
            q % 4096 == 0 && q < ADDRESS_SPACE_SIZE && q != page
                ==> #[trigger] final(mapper).spec_translate_page(q) == old(
                mapper,
            ).spec_translate_page(q),
        r == Err::<(), MapToError>(MapToError::ParentEntryHugePage) <==> old(
            mapper,
        ).walk_blocked_by_huge(page),
        r == Err::<(), MapToError>(MapToError::PageAlreadyMapped) <==> (!old(
            mapper,
        ).walk_blocked_by_huge(page) && old(mapper).leaf_occupied(page)),
        r == Err::<(), MapToError>(MapToError::FrameAllocationFailed) <==> (!old(
            mapper,
        ).walk_blocked_by_huge(page) && !old(mapper).leaf_occupied(page) && old(
            frame_allocator,
        ).remaining().len() < old(mapper).tables_needed(page)),
{
    mapper.map_to(page, 0xb8000, true, frame_allocator)
}

/// Mapping round-trip: once a page is mapped, every address inside the page
/// translates to the mapped frame plus the address's offset in the page.
pub proof fn lemma_mapping_round_trip(
    pt: OffsetPageTable,
    page: u64,
    frame: u64,
    writable: bool,
    v: u64,
)
    requires
        pt.spec_translate_page(page) == Some((frame, writable)),
        page % 4096 == 0,
        frame % 4096 == 0,
        v >> 12 == page >> 12,
    ensures
        pt.spec_translate(v) == Some((frame + page_offset(v)) as u64),
        0 <= page_offset(v) < 4096,
        frame + page_offset(v) <= u64::MAX,
{
    assert(((v >> 39) & 0x1ff) == ((page >> 39) & 0x1ff) && ((v >> 30) & 0x1ff) == ((page >> 30)
        & 0x1ff) && ((v >> 21) & 0x1ff) == ((page >> 21) & 0x1ff) && ((v >> 12) & 0x1ff) == ((page
        >> 12) & 0x1ff)) by (bit_vector)
        requires
            v >> 12 == page >> 12,
    ;
    assert((v & 0xfff) < 4096) by (bit_vector);
    assert(frame <= 0xffff_ffff_ffff_f000u64) by (bit_vector)
        requires
            frame % 4096 == 0,
    ;
}

} // verus!
