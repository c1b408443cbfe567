//! The screen writer, the logger, the vector table, and the boot order.
use osos::vga::{
    init_logger, level_color, Buffer, Color, ColorCode, Level, LevelFilter, Logger, ScreenChar,
    Writer, BUFFER_HEIGHT, BUFFER_WIDTH,
};
use osos::interrupts::{
    dispatch, end_of_interrupt_targets, handler_resumes, init_idt, HandlerKind, InterruptIndex,
    BREAKPOINT_VECTOR, DOUBLE_FAULT_VECTOR, PAGE_FAULT_VECTOR,
};
use osos::gdt::{init, StackRange, DOUBLE_FAULT_IST_INDEX};
use osos::qemu::ExitCode;
use osos::{clear_board, render_board, runner, Board, BootStage, Testable};

fn fresh_writer() -> Writer {
    let blank = ScreenChar { ascii_char: 32, color_code: ColorCode::new(Color::Green, Color::Black) };
    let chars = vec![vec![blank; BUFFER_WIDTH]; BUFFER_HEIGHT];
    Writer::new(ColorCode::new(Color::Green, Color::Black), Buffer { chars })
}

#[test]
fn println_output_lands_on_screen() {
    let mut w = fresh_writer();
    let line = "Hello, World!";
    w.write_str("\n");
    w.write_str(line);
    w.write_str("\n");
    for (i, c) in line.chars().enumerate() {
        let cell = w.buffer.chars[BUFFER_HEIGHT - 2][i];
        assert_eq!(char::from(cell.ascii_char), c);
    }
    assert_eq!(w.column_pos, 0);
}

#[test]
fn println_many_keeps_screen_well_formed() {
    let mut w = fresh_writer();
    for _n in 0..200 {
        w.write_str("hi\n");
    }
    assert!(w.wf_check());
    assert_eq!(w.buffer.chars[BUFFER_HEIGHT - 2][0].ascii_char, b'h');
    assert_eq!(w.buffer.chars[BUFFER_HEIGHT - 2][1].ascii_char, b'i');
}

#[test]
fn long_line_wraps_to_a_new_row() {
    let mut w = fresh_writer();
    for _n in 0..BUFFER_WIDTH {
        w.write_byte(b'x', None);
    }
    assert_eq!(w.column_pos, BUFFER_WIDTH);
    w.write_byte(b'y', None);
    // the full row scrolled up, the new byte starts the bottom row
    assert_eq!(w.buffer.chars[BUFFER_HEIGHT - 2][0].ascii_char, b'x');
    assert_eq!(w.buffer.chars[BUFFER_HEIGHT - 1][0].ascii_char, b'y');
    assert_eq!(w.column_pos, 1);
}

#[test]
fn non_ascii_bytes_show_the_fallback_glyph() {
    let mut w = fresh_writer();
    w.write_str("é");
    assert_eq!(w.buffer.chars[BUFFER_HEIGHT - 1][0].ascii_char, 0xfe);
    assert_eq!(w.buffer.chars[BUFFER_HEIGHT - 1][1].ascii_char, 0xfe);
}

#[test]
fn backspace_erases_and_stops_at_the_edge() {
    let mut w = fresh_writer();
    w.write_byte(b'a', None);
    w.write_byte(b'b', None);
    w.backspace();
    assert_eq!(w.column_pos, 1);
    assert_eq!(w.buffer.chars[BUFFER_HEIGHT - 1][1].ascii_char, 0);
    assert_eq!(w.buffer.chars[BUFFER_HEIGHT - 1][0].ascii_char, b'a');
    w.backspace();
    w.backspace();
    assert_eq!(w.column_pos, 0);
}

#[test]
fn color_codes_pack_as_documented() {
    assert_eq!(ColorCode::new(Color::Green, Color::Black).value(), 0x02);
    assert_eq!(ColorCode::new(Color::Green, Color::LightGreen).value(), 0xa2);
    assert_eq!(ColorCode::new(Color::White, Color::Blue).value(), 0x1f);
}

#[test]
fn logger_filters_by_level() {
    let logger = Logger::new(LevelFilter::Info);
    assert!(logger.enabled(Level::Error));
    assert!(logger.enabled(Level::Warn));
    assert!(logger.enabled(Level::Info));
    assert!(!logger.enabled(Level::Debug));
    assert!(!logger.enabled(Level::Trace));
    let silent = Logger::new(LevelFilter::Off);
    assert!(!silent.enabled(Level::Error));
    assert_eq!(init_logger(&logger), LevelFilter::Info);
}

#[test]
fn level_colors_match_the_palette() {
    assert_eq!(level_color(Level::Debug), Color::White);
    assert_eq!(level_color(Level::Info), Color::LightBlue);
    assert_eq!(level_color(Level::Error), Color::Red);
    assert_eq!(level_color(Level::Trace), Color::Blue);
    assert_eq!(level_color(Level::Warn), Color::Yellow);
}

#[test]
fn breakpoint_is_resumable_end_to_end() {
    let idt = init_idt();
    // raising the breakpoint vector reaches a handler that returns
    let handler = dispatch(&idt, BREAKPOINT_VECTOR).expect("breakpoint vector must be populated");
    assert_eq!(handler, HandlerKind::Breakpoint);
    assert!(handler_resumes(handler));
    // execution would continue past the trigger point; the fatal paths differ
    assert!(!handler_resumes(dispatch(&idt, DOUBLE_FAULT_VECTOR).unwrap()));
    assert!(!handler_resumes(dispatch(&idt, PAGE_FAULT_VECTOR).unwrap()));
}

#[test]
fn hardware_vectors_avoid_reserved_range() {
    let idt = init_idt();
    assert_eq!(InterruptIndex::Timer.as_u8(), 32);
    assert_eq!(InterruptIndex::Keyboard.as_u8(), 33);
    assert_eq!(dispatch(&idt, 32), Some(HandlerKind::Timer));
    assert_eq!(dispatch(&idt, 33), Some(HandlerKind::Keyboard));
    assert_eq!(dispatch(&idt, 200), None);
}

#[test]
fn double_fault_runs_on_its_own_stack() {
    let idt = init_idt();
    let entry_handler = dispatch(&idt, DOUBLE_FAULT_VECTOR);
    assert_eq!(entry_handler, Some(HandlerKind::DoubleFault));
    let fault_stack = StackRange { start: 0x10000, size: 0x5000 };
    let interrupt_stack = StackRange { start: 0x20000, size: 0x5000 };
    let (gdt_table, selectors) = init(fault_stack, interrupt_stack);
    assert_eq!(gdt_table.entries.len(), 3);
    assert_ne!(selectors.code, selectors.tss);
    assert_eq!(DOUBLE_FAULT_IST_INDEX, 0);
}

#[test]
fn board_renders_as_three_lines() {
    let mut board: Board = Vec::new();
    clear_board(&mut board);
    let bytes = render_board(&board);
    assert_eq!(bytes, b"\n___\n___\n___\n".to_vec());
}

struct Noop;

impl Testable for Noop {
    fn run(&self) {
    }
}

#[test]
fn runner_runs_every_test() {
    let tests = vec![Noop, Noop, Noop];
    assert_eq!(runner(&tests), 3);
}

#[test]
fn exit_codes_are_fixed_and_distinct() {
    assert_eq!(ExitCode::Success.code(), 0x10);
    assert_eq!(ExitCode::Failed.code(), 0x11);
}

#[test]
fn boot_order_is_enforced() {
    let s0 = BootStage::Start;
    assert!(!s0.may_enable_interrupts());
    let s1 = s0.advance();
    assert_eq!(s1, BootStage::DescriptorTablesLoaded);
    let s2 = s1.advance();
    assert_eq!(s2, BootStage::InterruptTableLoaded);
    let s3 = s2.advance();
    assert_eq!(s3, BootStage::ControllersRemapped);
    assert!(s3.may_enable_interrupts());
    let s4 = s3.advance();
    assert_eq!(s4, BootStage::InterruptsEnabled);
    assert!(!s4.may_enable_interrupts());
}

#[test]
fn end_of_interrupt_reaches_the_right_controllers() {
    assert_eq!(end_of_interrupt_targets(32), (true, false));
    assert_eq!(end_of_interrupt_targets(33), (true, false));
    assert_eq!(end_of_interrupt_targets(40), (true, true));
    assert_eq!(end_of_interrupt_targets(47), (true, true));
    assert_eq!(end_of_interrupt_targets(3), (false, false));
    assert_eq!(end_of_interrupt_targets(48), (false, false));
}
