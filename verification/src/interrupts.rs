//! Interrupt dispatch: the vector table and the handler decisions.
//!
//! The CPU-raised exceptions sit at their architectural vectors; the two
//! hardware lines, timer and keyboard, are remapped to the first vectors
//! past the CPU-reserved range.  Every hardware interrupt must signal
//! end-of-interrupt before returning, even on a degraded path, or the
//! controller starves all later interrupts of that class.
use vstd::prelude::*;
use crate::gdt::DOUBLE_FAULT_IST_INDEX;
use crate::task::keyboard::ScancodeStream;
use crate::task::keyboard::add_scancode;

verus! {

/// First vector of the primary interrupt controller, just past the
/// CPU-reserved range 0-31.
pub const PIC_1_OFFSET: u8 = 32;

/// First vector of the secondary interrupt controller.
pub const PIC_2_OFFSET: u8 = PIC_1_OFFSET + 8;

/// Vector of the breakpoint exception.
pub const BREAKPOINT_VECTOR: usize = 3;

/// Vector of the double fault.
pub const DOUBLE_FAULT_VECTOR: usize = 8;

/// Vector of the page fault.
pub const PAGE_FAULT_VECTOR: usize = 14;

/// Number of entries in the interrupt descriptor table.
pub const VECTOR_COUNT: usize = 256;

/// The two hardware interrupt lines this kernel unmasks.
#[derive(Debug, Clone, Copy, PartialEq, Eq, Structural)]
pub enum InterruptIndex {
    Timer,
    Keyboard,
}

impl InterruptIndex {
    /// The vector the line is remapped to.
    pub open spec fn spec_as_u8(self) -> u8 {
        match self {
            InterruptIndex::Timer => PIC_1_OFFSET,
            InterruptIndex::Keyboard => (PIC_1_OFFSET + 1) as u8,
        }
    }

    /// The vector as a byte.
    pub fn as_u8(self) -> (r: u8)
        ensures
            r == self.spec_as_u8(),
            32 <= r < 48,
    {
        match self {
            InterruptIndex::Timer => PIC_1_OFFSET,
            InterruptIndex::Keyboard => PIC_1_OFFSET + 1,
        }
    }

    /// The vector as a table index.
    pub fn as_usize(self) -> (r: usize)
        ensures
            r == self.spec_as_u8(),
    {
        self.as_u8() as usize
    }
}

/// The handler installed at a vector.
#[derive(Debug, Clone, Copy, PartialEq, Eq, Structural)]
pub enum HandlerKind {
    /// Reports context and resumes.
    Breakpoint,
    /// Unrecoverable; runs on the dedicated fault stack.
    DoubleFault,
    /// Reports the faulting address and halts.
    PageFault,
    /// Acknowledges the timer line and returns.
    Timer,
    /// Queues the scancode, wakes the consumer, acknowledges, returns.
    Keyboard,
}

/// Whether the handler returns control to the interrupted code.
pub open spec fn spec_resumes(h: HandlerKind) -> bool {
    match h {
        HandlerKind::Breakpoint => true,
        HandlerKind::DoubleFault => false,
        HandlerKind::PageFault => false,
        HandlerKind::Timer => true,
        HandlerKind::Keyboard => true,
    }
}

/// Decide whether a handler resumes the interrupted code: the breakpoint
/// path always does, the fault paths never do.
pub fn handler_resumes(h: HandlerKind) -> (r: bool)
    ensures
        r == spec_resumes(h),
{
    match h {
        HandlerKind::Breakpoint => true,
        HandlerKind::DoubleFault => false,
        HandlerKind::PageFault => false,
        HandlerKind::Timer => true,
        HandlerKind::Keyboard => true,
    }
}

/// One populated vector: its handler and, for the double fault, the index
/// of the dedicated stack it runs on.
#[derive(Debug, Clone, Copy, PartialEq, Eq, Structural)]
pub struct IdtEntry {
    pub handler: HandlerKind,
    pub ist_index: Option<u16>,
}

/// The interrupt descriptor table, one slot per vector.
pub struct InterruptDescriptorTable {
    pub entries: Vec<Option<IdtEntry>>,
}

impl InterruptDescriptorTable {
    /// The table covers every vector.
    pub open spec fn wf(self) -> bool {
        self.entries@.len() == VECTOR_COUNT
    }
}

/// Populate the vector table: breakpoint, double fault on the dedicated
/// stack, page fault, and the two remapped hardware lines, which sit
/// outside the CPU-reserved vectors 0-31.  The hardware glue loads the
/// result.
pub fn init_idt() -> (idt: InterruptDescriptorTable)
    ensures
        idt.wf(),
        idt.entries@[BREAKPOINT_VECTOR as int] == Some(
            IdtEntry { handler: HandlerKind::Breakpoint, ist_index: None },
        ),
        idt.entries@[DOUBLE_FAULT_VECTOR as int] == Some(
            IdtEntry {
                handler: HandlerKind::DoubleFault,
                ist_index: Some(DOUBLE_FAULT_IST_INDEX as u16),
            },
        ),
        idt.entries@[PAGE_FAULT_VECTOR as int] == Some(
            IdtEntry { handler: HandlerKind::PageFault, ist_index: None },
        ),
        idt.entries@[InterruptIndex::Timer.spec_as_u8() as int] == Some(
            IdtEntry { handler: HandlerKind::Timer, ist_index: None },
        ),
        idt.entries@[InterruptIndex::Keyboard.spec_as_u8() as int] == Some(
            IdtEntry { handler: HandlerKind::Keyboard, ist_index: None },
        ),
        InterruptIndex::Timer.spec_as_u8() >= 32,
        InterruptIndex::Keyboard.spec_as_u8() >= 32,
        forall|v: int|
            0 <= v < VECTOR_COUNT && v != BREAKPOINT_VECTOR && v != DOUBLE_FAULT_VECTOR && v
                != PAGE_FAULT_VECTOR && v != InterruptIndex::Timer.spec_as_u8() && v
                != InterruptIndex::Keyboard.spec_as_u8() ==> (#[trigger] idt.entries@[v]) is None,
{
    let mut entries: Vec<Option<IdtEntry>> = Vec::new();
    let mut i: usize = 0;
    while i < VECTOR_COUNT
        invariant
            i <= VECTOR_COUNT,
            entries@.len() == i,
            forall|k: int| 0 <= k < i ==> #[trigger] entries@[k] is None,
        decreases VECTOR_COUNT - i,
    {
        entries.push(None);
        i = i + 1;
    }
    entries.set(
        BREAKPOINT_VECTOR,
        Some(IdtEntry { handler: HandlerKind::Breakpoint, ist_index: None }),
    );
    entries.set(
        DOUBLE_FAULT_VECTOR,
        Some(
            IdtEntry {
                handler: HandlerKind::DoubleFault,
                ist_index: Some(DOUBLE_FAULT_IST_INDEX as u16),
            },
        ),
    );
    entries.set(
        PAGE_FAULT_VECTOR,
        Some(IdtEntry { handler: HandlerKind::PageFault, ist_index: None }),
    );
    entries.set(
        InterruptIndex::Timer.as_usize(),
        Some(IdtEntry { handler: HandlerKind::Timer, ist_index: None }),
    );
    entries.set(
        InterruptIndex::Keyboard.as_usize(),
        Some(IdtEntry { handler: HandlerKind::Keyboard, ist_index: None }),
    );
    InterruptDescriptorTable { entries }
}

/// Route a raised vector to the handler installed for it.
pub fn dispatch(idt: &InterruptDescriptorTable, vector: usize) -> (r: Option<HandlerKind>)
    requires
        idt.wf(),
        vector < VECTOR_COUNT,
    ensures
        r == (match idt.entries@[vector as int] {
            Some(e) => Some(e.handler),
            None => None::<HandlerKind>,
        }),
{
    match idt.entries[vector] {
        Some(e) => Some(e.handler),
        None => None,
    }
}

/// The keyboard interrupt's work between the port read and the return:
/// queue the byte, collect the wake to deliver, and name the line to
/// acknowledge.  The line is acknowledged even when the queue is full and
/// the byte is dropped: a swallowed end-of-interrupt would starve every
/// later hardware interrupt of the class.
pub fn keyboard_interrupt(stream: &mut ScancodeStream, scancode: u8) -> (r: (Option<u64>, u8))
    ensures
        r.1 == InterruptIndex::Keyboard.spec_as_u8(),
        ({
            let (s1, pushed) = old(stream)@.push_byte(scancode);
            if pushed {
                let (s2, w) = s1.take_waker();
                final(stream)@ == s2 && r.0 == w
            } else {
                final(stream)@ == s1 && r.0 == None::<u64>
            }
        }),
{
    let woken = add_scancode(stream, scancode);
    (woken, InterruptIndex::Keyboard.as_u8())
}

/// The timer interrupt does nothing but acknowledge its line.
pub fn timer_interrupt() -> (r: u8)
    ensures
        r == InterruptIndex::Timer.spec_as_u8(),
{
    InterruptIndex::Timer.as_u8()
}


/// Which controllers must be told end-of-interrupt for a vector: a vector
/// in the secondary controller's range needs the signal on both chained
/// controllers, one in the primary's range needs it on the primary alone,
/// and vectors outside the remapped range get none.
pub fn end_of_interrupt_targets(vector: u8) -> (r: (bool, bool))
    ensures
        r.0 <==> PIC_1_OFFSET <= vector < PIC_2_OFFSET + 8,
        r.1 <==> PIC_2_OFFSET <= vector < PIC_2_OFFSET + 8,
{
    let primary = PIC_1_OFFSET <= vector && vector < PIC_2_OFFSET + 8;
    let secondary = PIC_2_OFFSET <= vector && vector < PIC_2_OFFSET + 8;
    (primary, secondary)
}

} // verus!
