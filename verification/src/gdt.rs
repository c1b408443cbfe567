//! Model of the boot-time descriptor tables.
//!
//! The global descriptor table carries one kernel code segment and one
//! task-state segment; the task-state segment's interrupt stack table holds
//! the dedicated stack on which the double-fault handler runs, so that a
//! stack overflow cannot corrupt the very stack its fault is handled on.
use vstd::prelude::*;

verus! {

/// Index of the double-fault stack in the interrupt stack table.
pub const DOUBLE_FAULT_IST_INDEX: usize = 0;

/// Number of slots in the interrupt stack table.
pub const IST_ENTRIES: usize = 7;

/// A stack region: its lowest address and its size in bytes.
#[derive(Debug, Clone, Copy, PartialEq, Eq, Structural)]
pub struct StackRange {
    pub start: u64,
    pub size: u64,
}

impl StackRange {
    /// A usable stack has room and does not wrap the address space.
    pub open spec fn wf(self) -> bool {
        self.size > 0 && self.start + self.size <= u64::MAX
    }

    /// One past the top of the stack, where the stack pointer starts.
    pub open spec fn spec_top(self) -> u64 {
        (self.start + self.size) as u64
    }

    /// Whether two stacks share any byte.
    pub open spec fn overlaps(self, other: StackRange) -> bool {
        self.start < other.start + other.size && other.start < self.start + self.size
    }
}

/// The task-state segment: the interrupt stack table.
pub struct TaskStateSegment {
    pub interrupt_stack_table: Vec<Option<StackRange>>,
}

impl TaskStateSegment {
    /// The table has its fixed width.
    pub open spec fn wf(self) -> bool {
        self.interrupt_stack_table@.len() == IST_ENTRIES
    }

    /// A task-state segment whose only populated slot is the dedicated
    /// double-fault stack.
    pub fn new(fault_stack: StackRange) -> (t: TaskStateSegment)
        requires
            fault_stack.wf(),
        ensures
            t.wf(),
            t.interrupt_stack_table@[DOUBLE_FAULT_IST_INDEX as int] == Some(fault_stack),
            forall|i: int|
                0 <= i < IST_ENTRIES && i != DOUBLE_FAULT_IST_INDEX
                    ==> #[trigger] t.interrupt_stack_table@[i] is None,
    {
        let mut interrupt_stack_table: Vec<Option<StackRange>> = Vec::new();
        let mut i: usize = 0;
        while i < IST_ENTRIES
            invariant
                i <= IST_ENTRIES,
                interrupt_stack_table@.len() == i,
                forall|k: int| 0 <= k < i ==> #[trigger] interrupt_stack_table@[k] is None,
            decreases IST_ENTRIES - i,
        {
            interrupt_stack_table.push(None);
            i = i + 1;
        }
        interrupt_stack_table.set(DOUBLE_FAULT_IST_INDEX, Some(fault_stack));
        TaskStateSegment { interrupt_stack_table }
    }
}

/// One descriptor of the global descriptor table.
pub enum Descriptor {
    /// The unused first slot the hardware requires.
    Null,
    /// The kernel's code segment.
    KernelCode,
    /// The task-state segment, carrying the fault stack table.
    TssSegment(TaskStateSegment),
}

/// The global descriptor table and the selectors of its two live entries.
pub struct GlobalDescriptorTable {
    pub entries: Vec<Descriptor>,
}

/// The selectors `init` loads: indices into the descriptor table.
#[derive(Debug, Clone, Copy, PartialEq, Eq, Structural)]
pub struct Selectors {
    pub code: usize,
    pub tss: usize,
}

/// Build the boot descriptor tables: a null entry, the kernel code
/// segment, and a task-state segment whose double-fault slot holds the
/// dedicated `fault_stack`.  The fault stack must not alias the normal
/// interrupt stack, or a second fault while one is being handled would
/// corrupt memory undetected.  The hardware glue loads the result exactly
/// once, before interrupts are enabled.
pub fn init(fault_stack: StackRange, interrupt_stack: StackRange) -> (r: (
    GlobalDescriptorTable,
    Selectors,
))
    requires
        fault_stack.wf(),
        interrupt_stack.wf(),
        !fault_stack.overlaps(interrupt_stack),
    ensures
        r.0.entries@.len() == 3,
        r.0.entries@[0] is Null,
        r.0.entries@[1] is KernelCode,
        r.0.entries@[2] is TssSegment,
        r.0.entries@[2]->TssSegment_0.wf(),
        r.0.entries@[2]->TssSegment_0.interrupt_stack_table@[DOUBLE_FAULT_IST_INDEX as int]
            == Some(fault_stack),
        r.1.code == 1,
        r.1.tss == 2,
        r.1.code != r.1.tss,
{
    let tss = TaskStateSegment::new(fault_stack);
    let mut entries: Vec<Descriptor> = Vec::new();
    entries.push(Descriptor::Null);
    entries.push(Descriptor::KernelCode);
    entries.push(Descriptor::TssSegment(tss));
    (GlobalDescriptorTable { entries }, Selectors { code: 1, tss: 2 })
}

} // verus!
