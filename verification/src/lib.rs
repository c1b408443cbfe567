//! Runtime core of a small bare-metal kernel, modelled on plain values so
//! that its logic can be verified: interrupt dispatch tables, a physical
//! frame allocator and page-table mapper, a size-classed heap allocator,
//! and a cooperative, wake-driven task executor.
//!
//! Hardware access (port I/O, privileged registers, the volatile text
//! buffer) lives outside this crate; the functions here compute what the
//! hardware glue then carries out.
use vstd::prelude::*;

pub mod gdt;
pub mod interrupts;
pub mod memory;
pub mod qemu;
pub mod task;
pub mod vga;

verus! {

/// A 3 x 3 tic-tac-toe board; `Some(true)` is an `X`, `Some(false)` an `O`,
/// `None` an empty cell.
pub type Board = Vec<Vec<Option<bool>>>;

/// A well-formed board has exactly three rows of three cells each.
pub open spec fn board_wf(b: Board) -> bool {
    b@.len() == 3 && forall|i: int| 0 <= i < 3 ==> (#[trigger] b@[i])@.len() == 3
}

/// The cell of `b` at row `i`, column `j`.
pub open spec fn cell(b: Board, i: int, j: int) -> Option<bool> {
    b@[i]@[j]
}

/// Reset `board` to an empty 3 x 3 grid.
pub fn clear_board(board: &mut Board)
    ensures
        board_wf(*final(board)),
        forall|i: int, j: int|
            0 <= i < 3 && 0 <= j < 3 ==> #[trigger] cell(*final(board), i, j) is None,
{
    board.clear();
    let mut row0: Vec<Option<bool>> = Vec::new();
    row0.push(None);
    row0.push(None);
    row0.push(None);
    let mut row1: Vec<Option<bool>> = Vec::new();
    row1.push(None);
    row1.push(None);
    row1.push(None);
    let mut row2: Vec<Option<bool>> = Vec::new();
    row2.push(None);
    row2.push(None);
    row2.push(None);
    board.push(row0);
    board.push(row1);
    board.push(row2);
}

/// The byte shown for one board cell.
pub open spec fn cell_char(c: Option<bool>) -> u8 {
    match c {
        Some(true) => 88,
        Some(false) => 79,
        None => 95,
    }
}

/// Render the board for display: a blank line, then each row's three cell
/// marks (`X`, `O`, or `_`) on a line of its own.
pub fn render_board(board: &Board) -> (r: Vec<u8>)
    requires
        board_wf(*board),
    ensures
        r@.len() == 13,
        r@[0] == 10,
        forall|i: int, j: int|
            0 <= i < 3 && 0 <= j < 3 ==> r@[1 + 4 * i + j] == cell_char(
                #[trigger] cell(*board, i, j),
            ),
        forall|i: int| 0 <= i < 3 ==> #[trigger] r@[4 * i + 4] == 10,
{
    let mut out: Vec<u8> = Vec::new();
    out.push(10);
    let mut i: usize = 0;
    while i < 3
        invariant
            board_wf(*board),
            i <= 3,
            out@.len() == 1 + 4 * i,
            out@[0] == 10,
            forall|i2: int, j: int|
                0 <= i2 < i && 0 <= j < 3 ==> out@[1 + 4 * i2 + j] == cell_char(
                    #[trigger] cell(*board, i2, j),
                ),
            forall|i2: int| 0 <= i2 < i ==> #[trigger] out@[4 * i2 + 4] == 10,
        decreases 3 - i,
    {
        let mut j: usize = 0;
        while j < 3
            invariant
                board_wf(*board),
                i < 3,
                j <= 3,
                out@.len() == 1 + 4 * i + j,
                out@[0] == 10,
                forall|i2: int, j2: int|
                    0 <= i2 < i && 0 <= j2 < 3 ==> out@[1 + 4 * i2 + j2] == cell_char(
                        #[trigger] cell(*board, i2, j2),
                    ),
                forall|i2: int| 0 <= i2 < i ==> #[trigger] out@[4 * i2 + 4] == 10,
                forall|j2: int|
                    0 <= j2 < j ==> out@[1 + 4 * i + j2] == cell_char(
                        #[trigger] cell(*board, i as int, j2),
                    ),
            decreases 3 - j,
        {
            let mark: u8 = match board[i][j] {
                Some(true) => 88,
                Some(false) => 79,
                None => 95,
            };
            out.push(mark);
            j = j + 1;
        }
        out.push(10);
        i = i + 1;
    }
    out
}

/// Something the diagnostic runner can execute.
pub trait Testable {
    /// Execute the check.
    fn run(&self);
}

/// Run every check in order and report how many ran; the caller then
/// signals the exit code to the host.
pub fn runner<T: Testable>(tests: &Vec<T>) -> (n: usize)
    ensures
        n == tests@.len(),
{
    let mut i: usize = 0;
    while i < tests.len()
        invariant
            i <= tests@.len(),
        decreases tests@.len() - i,
    {
        tests[i].run();
        i = i + 1;
    }
    i
}

/// The boot sequence: each stage must be reached in this order, and
/// interrupts may be enabled only once the controllers are remapped.
#[derive(Debug, Clone, Copy, PartialEq, Eq, Structural)]
pub enum BootStage {
    /// Nothing installed yet.
    Start,
    /// The descriptor tables are loaded.
    DescriptorTablesLoaded,
    /// The interrupt table is loaded.
    InterruptTableLoaded,
    /// The hardware interrupt controllers are remapped.
    ControllersRemapped,
    /// Interrupts are enabled; the kernel is live.
    InterruptsEnabled,
}

impl BootStage {
    /// Position of the stage in the boot order.
    pub open spec fn spec_rank(self) -> int {
        match self {
            BootStage::Start => 0,
            BootStage::DescriptorTablesLoaded => 1,
            BootStage::InterruptTableLoaded => 2,
            BootStage::ControllersRemapped => 3,
            BootStage::InterruptsEnabled => 4,
        }
    }

    /// Advance to the next stage; the order admits no skipping.
    pub fn advance(self) -> (r: BootStage)
        requires
            self.spec_rank() < 4,
        ensures
            r.spec_rank() == self.spec_rank() + 1,
    {
        match self {
            BootStage::Start => BootStage::DescriptorTablesLoaded,
            BootStage::DescriptorTablesLoaded => BootStage::InterruptTableLoaded,
            BootStage::InterruptTableLoaded => BootStage::ControllersRemapped,
            BootStage::ControllersRemapped => BootStage::InterruptsEnabled,
            BootStage::InterruptsEnabled => BootStage::InterruptsEnabled,
        }
    }

    /// Interrupts may be enabled only from the remapped-controllers stage.
    pub fn may_enable_interrupts(self) -> (r: bool)
        ensures
            r <==> self == BootStage::ControllersRemapped,
    {
        match self {
            BootStage::ControllersRemapped => true,
            _ => false,
        }
    }
}

} // verus!
