//! The executor, the scancode bridge, and the keyboard decode path.
use osos::task::{CountdownTask, Pollable, Task, TaskIdGen, TaskPoll, Waker};
use osos::task::executor::{Executor, SpawnError, TASK_QUEUE_CAPACITY};
use osos::task::keyboard::{
    add_scancode, apply_digit, key_action, DecodedKey, KeyAction, KeyDecoder, KeypressTask,
    PollNext, ScancodeStream,
};
use osos::interrupts::{keyboard_interrupt, timer_interrupt, InterruptIndex};
use osos::vga::{Buffer, Color, ColorCode, ScreenChar, Writer};
use osos::clear_board;
use osos::Board;

fn fresh_writer() -> Writer {
    let blank = ScreenChar { ascii_char: 32, color_code: ColorCode::new(Color::Green, Color::Black) };
    let chars = vec![vec![blank; 80]; 25];
    Writer::new(ColorCode::new(Color::Green, Color::Black), Buffer { chars })
}

#[test]
fn executor_drains_one_poll_tasks() {
    let mut executor: Executor<CountdownTask> = Executor::new();
    let mut ids = TaskIdGen::new();
    for _n in 0..5 {
        let id = ids.fresh();
        assert!(executor.spawn(Task::new(id, CountdownTask { remaining: 0 })).is_ok());
    }
    assert_eq!(executor.task_count(), 5);
    executor.run_ready_tasks();
    assert_eq!(executor.task_count(), 0);
    assert!(executor.sleep_if_idle());
}

#[test]
fn executor_keeps_suspended_tasks() {
    let mut executor: Executor<CountdownTask> = Executor::new();
    assert!(executor.spawn(Task::new(1, CountdownTask { remaining: 2 })).is_ok());
    executor.run_ready_tasks();
    assert_eq!(executor.task_count(), 1);
    assert!(executor.wake(&Waker { task_id: 1 }));
    executor.run_ready_tasks();
    assert_eq!(executor.task_count(), 1);
    assert!(executor.wake(&Waker { task_id: 1 }));
    executor.run_ready_tasks();
    assert_eq!(executor.task_count(), 0);
}

#[test]
fn duplicate_spawn_is_dropped() {
    let mut executor: Executor<CountdownTask> = Executor::new();
    assert!(executor.spawn(Task::new(7, CountdownTask { remaining: 3 })).is_ok());
    assert_eq!(
        executor.spawn(Task::new(7, CountdownTask { remaining: 0 })),
        Err(SpawnError::DuplicateId)
    );
    assert_eq!(executor.task_count(), 1);
    // the stored task is the first one: it needs more than one pass
    executor.run_ready_tasks();
    assert_eq!(executor.task_count(), 1);
}

#[test]
fn wake_overflow_is_reported_and_survived() {
    let mut executor: Executor<CountdownTask> = Executor::new();
    for n in 0..TASK_QUEUE_CAPACITY as u64 {
        assert!(executor.wake(&Waker { task_id: n }));
    }
    assert!(!executor.wake(&Waker { task_id: 0 }));
    executor.run_ready_tasks();
    assert!(executor.sleep_if_idle());
}

#[test]
fn no_lost_wake_scenario() {
    let mut stream = ScancodeStream::new();
    // the consumer checks, finds nothing, and suspends registered
    assert_eq!(stream.poll_next(9), PollNext::Pending);
    // a byte arrives from interrupt context: the wake comes out
    let woken = add_scancode(&mut stream, 0x1e);
    assert_eq!(woken, Some(9));
    // the woken consumer finds the byte
    assert_eq!(stream.poll_next(9), PollNext::Ready(0x1e));
    // no byte, suspend again
    assert_eq!(stream.poll_next(9), PollNext::Pending);
}

#[test]
fn scancode_overflow_drops_and_keeps_order() {
    let mut stream = ScancodeStream::new();
    for n in 0..100u32 {
        let woken = add_scancode(&mut stream, (n % 256) as u8);
        assert_eq!(woken, None);
    }
    // the queue is full: the byte is dropped, nobody woken
    assert_eq!(add_scancode(&mut stream, 0xff), None);
    // what was queued first comes out first
    assert_eq!(stream.poll_next(1), PollNext::Ready(0));
    assert_eq!(stream.poll_next(1), PollNext::Ready(1));
}

#[test]
fn decoded_keypress_matches_keymap() {
    let mut decoder = KeyDecoder::new();
    // scancode 0x1e is the make code of the A key in scancode set 1
    let key = decoder.decode(0x1e);
    assert!(matches!(key, Some(DecodedKey::Unicode('a'))));
    // the break code releases the key without a second character
    assert!(decoder.decode(0x9e).is_none());
}

#[test]
fn key_actions_are_decided_exactly() {
    assert_eq!(key_action(DecodedKey::Unicode('a')), KeyAction::Print('a'));
    assert_eq!(key_action(DecodedKey::Unicode('\u{8}')), KeyAction::Backspace);
    assert!(matches!(
        key_action(DecodedKey::Unicode('Z')),
        KeyAction::Print('Z')
    ));
}

#[test]
fn keypress_task_prints_queued_bytes() {
    let mut stream = ScancodeStream::new();
    add_scancode(&mut stream, 0x1e);
    let mut task = KeypressTask::new(stream, fresh_writer());
    let outcome = task.poll(&Waker { task_id: 3 });
    assert_eq!(outcome, TaskPoll::Pending);
    // the decoded character landed on the bottom row
    assert_eq!(task.writer.buffer.chars[24][0].ascii_char, b'a');
    assert_eq!(task.writer.column_pos, 1);
}

#[test]
fn keyboard_interrupt_always_acknowledges() {
    let mut stream = ScancodeStream::new();
    let (woken, ack) = keyboard_interrupt(&mut stream, 0x1e);
    assert_eq!(ack, InterruptIndex::Keyboard.as_u8());
    assert_eq!(woken, None);
    for n in 0..99u32 {
        add_scancode(&mut stream, (n % 256) as u8);
    }
    // queue full: the byte is dropped but the line is still acknowledged
    let (woken2, ack2) = keyboard_interrupt(&mut stream, 0x55);
    assert_eq!(woken2, None);
    assert_eq!(ack2, 33);
    assert_eq!(timer_interrupt(), 32);
}

#[test]
fn game_moves_follow_the_rules() {
    let mut board: Board = Vec::new();
    clear_board(&mut board);
    let mut state = true;
    apply_digit(&mut board, &mut state, 1);
    assert_eq!(board[0][0], Some(true));
    assert!(!state);
    // a taken cell is left alone and the turn does not pass
    apply_digit(&mut board, &mut state, 1);
    assert_eq!(board[0][0], Some(true));
    assert!(!state);
    apply_digit(&mut board, &mut state, 5);
    assert_eq!(board[1][1], Some(false));
    assert!(state);
    apply_digit(&mut board, &mut state, 9);
    assert_eq!(board[2][2], Some(true));
    // zero resets the game
    apply_digit(&mut board, &mut state, 0);
    assert!(state);
    for i in 0..3 {
        for j in 0..3 {
            assert_eq!(board[i][j], None);
        }
    }
}
