//! The keyboard path: scancode queue, wake bridge, and decode task.
//!
//! Interrupt context pushes raw scancode bytes into a bounded queue and
//! wakes the registered consumer; the decode task pulls bytes, turns them
//! into keys, and applies each key to the screen.  The single-slot wake
//! cell closes the race between the consumer's emptiness check and its
//! suspension: the consumer re-checks the queue after registering, so a
//! byte can never sit in the queue while the consumer sleeps unwoken.
use vstd::prelude::*;
use crossbeam_queue::ArrayQueue;
use pc_keyboard::{PS2Keyboard, ScancodeSet1, KeyCode};
use pc_keyboard::layouts::Us104Key;
use crate::task::{Pollable, TaskPoll, Waker};
use crate::vga::{Color, ScreenState, Writer};
use crate::{Board, board_wf, cell};

verus! {

/// Capacity of the scancode queue.
pub const SCANCODE_QUEUE_CAPACITY: usize = 100;

/// The scancode bytes in the queue, oldest first.
pub uninterp spec fn scan_queue_view(q: ArrayQueue<u8>) -> Seq<u8>;

/// The fixed capacity the scancode queue was created with.
pub uninterp spec fn scan_queue_cap(q: ArrayQueue<u8>) -> nat;

/// Relies on crossbeam_queue::ArrayQueue::new: an empty bounded queue of
/// the given capacity; it panics only on capacity zero.
#[verifier::external_body]
fn sq_new(cap: usize) -> (q: ArrayQueue<u8>)
    requires
        cap >= 1,
    ensures
        scan_queue_view(q) == Seq::<u8>::empty(),
        scan_queue_cap(q) == cap,
{
    ArrayQueue::new(cap)
}

/// Relies on crossbeam_queue::ArrayQueue::push_mut: appends at the tail
/// when there is room, otherwise hands the value back unchanged.
#[verifier::external_body]
fn sq_push(q: &mut ArrayQueue<u8>, v: u8) -> (r: Result<(), u8>)
    ensures
        scan_queue_cap(*final(q)) == scan_queue_cap(*old(q)) && (scan_queue_view(*old(q)).len()
            < scan_queue_cap(*old(q)) ==> r == Ok::<(), u8>(()) && scan_queue_view(*final(q))
            == scan_queue_view(*old(q)).push(v)) && (scan_queue_view(*old(q)).len()
            >= scan_queue_cap(*old(q)) ==> r == Err::<(), u8>(v) && scan_queue_view(*final(q))
            == scan_queue_view(*old(q))),
{
    q.push_mut(v)
}

/// Relies on crossbeam_queue::ArrayQueue::pop_mut: removes and returns the
/// head, or nothing when the queue is empty.
#[verifier::external_body]
fn sq_pop(q: &mut ArrayQueue<u8>) -> (r: Option<u8>)
    ensures
        scan_queue_cap(*final(q)) == scan_queue_cap(*old(q)) && (scan_queue_view(*old(q)).len()
            == 0 ==> r is None && scan_queue_view(*final(q)) == scan_queue_view(*old(q))) && (
        scan_queue_view(*old(q)).len() > 0 ==> r == Some(scan_queue_view(*old(q))[0])
            && scan_queue_view(*final(q)) == scan_queue_view(*old(q)).drop_first()),
{
    q.pop_mut()
}

/// Mathematical state of the scancode bridge: the queued bytes, the queue
/// capacity, and the registered consumer's wake handle, if any.
#[verifier::ext_equal]
pub struct ScanState {
    pub queue: Seq<u8>,
    pub cap: nat,
    pub waker: Option<u64>,
}

impl ScanState {
    /// A producer's push: the byte is queued when there is room, else
    /// dropped.
    pub open spec fn push_byte(self, b: u8) -> (ScanState, bool) {
        if self.queue.len() < self.cap {
            (ScanState { queue: self.queue.push(b), ..self }, true)
        } else {
            (self, false)
        }
    }

    /// The consumer's check: take the oldest byte if one is queued.
    pub open spec fn pop_byte(self) -> (ScanState, Option<u8>) {
        if self.queue.len() > 0 {
            (ScanState { queue: self.queue.drop_first(), ..self }, Some(self.queue[0]))
        } else {
            (self, None)
        }
    }

    /// The consumer registers its wake handle before suspending.
    pub open spec fn register(self, task_id: u64) -> ScanState {
        ScanState { waker: Some(task_id), ..self }
    }

    /// A wake consumes the registered handle.
    pub open spec fn take_waker(self) -> (ScanState, Option<u64>) {
        (ScanState { waker: None, ..self }, self.waker)
    }
}

/// The scancode stream: the bounded byte queue and the single-slot wake
/// cell of its sole consumer.
pub struct ScancodeStream {
    pub queue: ArrayQueue<u8>,
    pub waker: Option<u64>,
}

impl View for ScancodeStream {
    type V = ScanState;

    open spec fn view(&self) -> ScanState {
        ScanState {
            queue: scan_queue_view(self.queue),
            cap: scan_queue_cap(self.queue),
            waker: self.waker,
        }
    }
}

/// Outcome of polling the stream.
#[derive(Debug, Clone, Copy, PartialEq, Eq, Structural)]
pub enum PollNext {
    /// The next queued scancode byte.
    Ready(u8),
    /// Nothing queued; the caller's wake handle is registered.
    Pending,
}

impl ScancodeStream {
    /// A fresh stream: empty queue, nobody registered.
    pub fn new() -> (r: ScancodeStream)
        ensures
            r@.queue.len() == 0,
            r@.cap == SCANCODE_QUEUE_CAPACITY,
            r@.waker is None,
    {
        ScancodeStream { queue: sq_new(SCANCODE_QUEUE_CAPACITY), waker: None }
    }

    /// Pull the next scancode byte, or register the caller's wake handle
    /// and suspend.  After seeing an empty queue the stream registers the
    /// handle and checks the queue once more before truly suspending,
    /// closing the race with a concurrent producer.
    pub fn poll_next(&mut self, task_id: u64) -> (r: PollNext)
        ensures
            ({
                let (s1, got) = old(self)@.pop_byte();
                match got {
                    Some(b) => r == PollNext::Ready(b) && final(self)@ == s1,
                    None => {
                        let s2 = s1.register(task_id);
                        let (s3, got2) = s2.pop_byte();
                        r == PollNext::Pending && final(self)@ == s2 && got2 is None
                    },
                }
            }),
    {
        if let Some(scancode) = sq_pop(&mut self.queue) {
            proof {
                assert(final(self)@ =~= old(self)@.pop_byte().0);
            }
            return PollNext::Ready(scancode);
        }
        self.waker = Some(task_id);
        if let Some(scancode) = sq_pop(&mut self.queue) {
            self.waker = None;
            return PollNext::Ready(scancode);
        }
        proof {
            assert(final(self)@ =~= old(self)@.pop_byte().0.register(task_id));
        }
        PollNext::Pending
    }

    /// The stream never ends; at most the queue's capacity is buffered.
    pub fn size_hint(&self) -> (r: (usize, Option<usize>))
        ensures
            r.0 == 0,
            r.1 == Some(SCANCODE_QUEUE_CAPACITY),
    {
        (0, Some(SCANCODE_QUEUE_CAPACITY))
    }
}

impl Default for ScancodeStream {
    /// Same as `new`.
    fn default() -> (r: ScancodeStream)
        ensures
            r@.queue.len() == 0,
            r@.cap == SCANCODE_QUEUE_CAPACITY,
            r@.waker is None,
    {
        ScancodeStream::new()
    }
}

/// The producer's entry point, called from interrupt context with a byte
/// read from the keyboard port.  The byte is queued if there is room —
/// a full queue drops it, a reportable degraded condition — and a
/// successful push takes and returns the registered wake handle so the
/// caller can wake the consumer.
pub fn add_scancode(stream: &mut ScancodeStream, scancode: u8) -> (woken: Option<u64>)
    ensures
        ({
            let (s1, pushed) = old(stream)@.push_byte(scancode);
            if pushed {
                let (s2, w) = s1.take_waker();
                final(stream)@ == s2 && woken == w
            } else {
                final(stream)@ == s1 && woken == None::<u64>
            }
        }),
{
    match sq_push(&mut stream.queue, scancode) {
        Ok(()) => {
            let woken = stream.waker;
            stream.waker = None;
            proof {
                assert(final(stream)@ =~= old(stream)@.push_byte(scancode).0.take_waker().0);
            }
            woken
        },
        Err(_) => {
            proof {
                assert(final(stream)@ =~= old(stream)@.push_byte(scancode).0);
            }
            None
        },
    }
}

/// No lost wake.
///
/// First: a byte pushed strictly between the consumer's emptiness check
/// and its registration is found by the consumer's re-check, so the
/// consumer does not suspend over a non-empty queue.  Second: a byte
/// pushed after registration carries the consumer's wake handle out to
/// the producer.  Either way, a byte in the queue and a sleeping,
/// unwoken consumer cannot coexist.
pub proof fn lemma_no_lost_wake(s: ScanState, b: u8, tid: u64)
    requires
        s.queue.len() == 0,
        s.queue.len() < s.cap,
    ensures
        ({
            let (s1, pushed) = s.push_byte(b);
            let s2 = s1.register(tid);
            let (s3, got) = s2.pop_byte();
            pushed && got == Some(b)
        }),
        ({
            let s1 = s.register(tid);
            let (s2, pushed) = s1.push_byte(b);
            let (s3, woken) = s2.take_waker();
            pushed && woken == Some(tid)
        }),
{
    assert(s.push_byte(b).0.queue[0] == b);
}


#[verifier::external_type_specification]
#[verifier::external_body]
pub struct ExKeyCode(KeyCode);

/// A decoded key: a printable character, or a key with no character.
#[derive(Debug, Clone, Copy)]
pub enum DecodedKey {
    RawKey(KeyCode),
    Unicode(char),
}

/// The stateful scancode-to-key decoder.  The outside keyboard type's
/// generic bounds keep it from being declared to the verifier directly, so
/// it is held opaquely here and reached only through the trusted wrappers
/// below.
#[verifier::external_body]
pub struct KeyDecoder {
    keyboard: PS2Keyboard<Us104Key, ScancodeSet1>,
}

/// The scancode bytes fed to a decoder since it was created.
pub uninterp spec fn decoder_fed(kd: KeyDecoder) -> Seq<u8>;

/// The key produced when the last byte of `fed` reaches a decoder that was
/// given the earlier bytes in order, every completed key event processed as
/// it completed.  The key-map translation depends on the fed bytes alone,
/// so the name is sound on every machine and in every process.
pub uninterp spec fn spec_decode(fed: Seq<u8>) -> Option<DecodedKey>;

/// Relies on pc_keyboard::PS2Keyboard::new: a fresh stateful decoder for
/// scancode set 1 and the US 104-key layout, control characters passed
/// through unchanged.
#[verifier::external_body]
fn decoder_new() -> (kd: KeyDecoder)
    ensures
        decoder_fed(kd) == Seq::<u8>::empty(),
{
    KeyDecoder {
        keyboard: PS2Keyboard::new(ScancodeSet1::new(), Us104Key, pc_keyboard::HandleControl::Ignore),
    }
}

/// Relies on pc_keyboard::PS2Keyboard::add_byte and
/// PS2Keyboard::process_keyevent, the crate's documented decode step: the
/// byte advances the scancode state machine, and a completed key event is
/// translated under the current modifier state; an incomplete sequence or
/// a decode error yields no key.  The two calls stand in one wrapper
/// because the modifier state the second call reads and updates is
/// reachable only through this pairing; under it the decoded key is a
/// function of the bytes fed alone, which `spec_decode` names.
#[verifier::external_body]
fn kd_decode(kd: &mut KeyDecoder, scancode: u8) -> (k: Option<DecodedKey>)
    ensures
        decoder_fed(*final(kd)) == decoder_fed(*old(kd)).push(scancode),
        k == spec_decode(decoder_fed(*old(kd)).push(scancode)),
{
    match kd.keyboard.add_byte(scancode) {
        Ok(Some(ev)) => match kd.keyboard.process_keyevent(ev) {
            Some(pc_keyboard::DecodedKey::RawKey(code)) => Some(DecodedKey::RawKey(code)),
            Some(pc_keyboard::DecodedKey::Unicode(c)) => Some(DecodedKey::Unicode(c)),
            None => None,
        },
        _ => None,
    }
}

impl KeyDecoder {
    /// A fresh decoder: nothing fed yet.
    pub fn new() -> (r: KeyDecoder)
        ensures
            decoder_fed(r) == Seq::<u8>::empty(),
    {
        decoder_new()
    }

    /// Feed one raw scancode byte; a byte that completes a key press under
    /// the decoder's current state yields the decoded key, which is a
    /// function of everything fed so far.
    pub fn decode(&mut self, scancode: u8) -> (k: Option<DecodedKey>)
        ensures
            decoder_fed(*final(self)) == decoder_fed(*old(self)).push(scancode),
            k == spec_decode(decoder_fed(*old(self)).push(scancode)),
    {
        kd_decode(self, scancode)
    }
}

/// What the keypress consumer does with a decoded key.
#[derive(Debug, Clone, Copy, PartialEq, Eq, Structural)]
pub enum KeyAction {
    /// Erase the character before the cursor.
    Backspace,
    /// Print the character.
    Print(char),
    /// Keys without a character are ignored.
    Ignore,
}

/// The action taken for each decoded key: the backspace character erases,
/// every other character prints, raw keys do nothing.
pub open spec fn spec_key_action(key: DecodedKey) -> KeyAction {
    match key {
        DecodedKey::Unicode(character) => if character == '\u{8}' {
            KeyAction::Backspace
        } else {
            KeyAction::Print(character)
        },
        DecodedKey::RawKey(_) => KeyAction::Ignore,
    }
}

/// Decide the consumer's action for a decoded key.
pub fn key_action(key: DecodedKey) -> (r: KeyAction)
    ensures
        r == spec_key_action(key),
{
    match key {
        DecodedKey::Unicode(character) => if character == '\u{8}' {
            KeyAction::Backspace
        } else {
            KeyAction::Print(character)
        },
        DecodedKey::RawKey(_) => KeyAction::Ignore,
    }
}

/// The byte a printed character puts on screen: its code point when it is
/// ASCII, else the fallback glyph.
pub open spec fn char_byte(c: char) -> u8 {
    if (c as u32) < 128 {
        (c as u32) as u8
    } else {
        0xfe
    }
}

/// Effect of one key action on the screen: erase, print on the default
/// background, or nothing.
pub open spec fn spec_apply_action(st: ScreenState, a: KeyAction) -> ScreenState {
    match a {
        KeyAction::Backspace => st.spec_backspace(),
        KeyAction::Print(c) => st.spec_write_byte(char_byte(c), Some(crate::vga::spec_bg())),
        KeyAction::Ignore => st,
    }
}

/// The screen after feeding `bytes` one by one to a decoder that already
/// consumed `fed0`, each decoded key's action applied in order.
pub open spec fn spec_apply_keys(st: ScreenState, fed0: Seq<u8>, bytes: Seq<u8>) -> ScreenState
    decreases bytes.len(),
{
    if bytes.len() == 0 {
        st
    } else {
        let st1 = match spec_decode(fed0.push(bytes[0])) {
            Some(key) => spec_apply_action(st, spec_key_action(key)),
            None => st,
        };
        spec_apply_keys(st1, fed0.push(bytes[0]), bytes.drop_first())
    }
}

/// Feeding `bytes.push(b)` is feeding `bytes`, then `b`.
pub proof fn lemma_apply_keys_snoc(st: ScreenState, fed0: Seq<u8>, bytes: Seq<u8>, b: u8)
    ensures
        spec_apply_keys(st, fed0, bytes.push(b)) == ({
            let st1 = spec_apply_keys(st, fed0, bytes);
            match spec_decode((fed0 + bytes).push(b)) {
                Some(key) => spec_apply_action(st1, spec_key_action(key)),
                None => st1,
            }
        }),
    decreases bytes.len(),
{
    if bytes.len() == 0 {
        assert(bytes.push(b)[0] == b);
        assert(bytes.push(b).drop_first() =~= bytes);
        assert(fed0 + bytes =~= fed0);
        let st1 = match spec_decode(fed0.push(b)) {
            Some(key) => spec_apply_action(st, spec_key_action(key)),
            None => st,
        };
        assert(spec_apply_keys(st1, fed0.push(b), bytes.push(b).drop_first()) == st1);
    } else {
        assert(bytes.push(b)[0] == bytes[0]);
        assert(bytes.push(b).drop_first() =~= bytes.drop_first().push(b));
        let st1 = match spec_decode(fed0.push(bytes[0])) {
            Some(key) => spec_apply_action(st, spec_key_action(key)),
            None => st,
        };
        assert(spec_apply_keys(st, fed0, bytes.push(b)) == spec_apply_keys(
            st1,
            fed0.push(bytes[0]),
            bytes.drop_first().push(b),
        ));
        assert(spec_apply_keys(st, fed0, bytes) == spec_apply_keys(
            st1,
            fed0.push(bytes[0]),
            bytes.drop_first(),
        ));
        lemma_apply_keys_snoc(st1, fed0.push(bytes[0]), bytes.drop_first(), b);
        assert(fed0.push(bytes[0]) + bytes.drop_first() =~= fed0 + bytes);
    }
}

/// The task that prints keypresses: it drains the scancode stream, decodes
/// each byte, and applies the resulting key to the screen.
pub struct KeypressTask {
    pub scancodes: ScancodeStream,
    pub keyboard: KeyDecoder,
    pub writer: Writer,
}

impl KeypressTask {
    /// Build the task around a stream and a writer.
    pub fn new(scancodes: ScancodeStream, writer: Writer) -> (r: KeypressTask)
        ensures
            r.scancodes == scancodes,
            r.writer == writer,
            decoder_fed(r.keyboard) == Seq::<u8>::empty(),
    {
        KeypressTask { scancodes, keyboard: KeyDecoder::new(), writer }
    }
}

impl Pollable for KeypressTask {
    /// One poll drains the queue, feeds every byte to the decoder, applies
    /// each decoded key's action to the screen in order, and suspends with
    /// the wake handle registered; the task never completes.
    open spec fn poll_rel(pre: Self, waker: Waker, r: TaskPoll, post: Self) -> bool {
        &&& r == TaskPoll::Pending
        &&& pre.writer@.wf() ==> {
            &&& post.writer@.wf()
            &&& post.scancodes@.queue.len() == 0
            &&& post.scancodes@.cap == pre.scancodes@.cap
            &&& post.scancodes@.waker == Some(waker.task_id)
            &&& decoder_fed(post.keyboard) == decoder_fed(pre.keyboard) + pre.scancodes@.queue
            &&& post.writer@ == spec_apply_keys(
                pre.writer@,
                decoder_fed(pre.keyboard),
                pre.scancodes@.queue,
            )
        }
    }

    fn poll(&mut self, waker: &Waker) -> (r: TaskPoll) {
        if !self.writer.wf_check() {
            return TaskPoll::Pending;
        }
        let ghost pre_writer = self.writer@;
        let ghost fed0 = decoder_fed(self.keyboard);
        let ghost queue0 = self.scancodes@.queue;
        let ghost cap0 = self.scancodes@.cap;
        let ghost mut consumed: Seq<u8> = Seq::empty();
        proof {
            assert(queue0 =~= consumed + self.scancodes@.queue);
            assert(decoder_fed(self.keyboard) =~= fed0 + consumed);
            assert(self.writer@ =~~= spec_apply_keys(pre_writer, fed0, consumed));
        }
        loop
            invariant_except_break
                self.writer@.wf(),
                self.scancodes@.cap == cap0,
                queue0 == consumed + self.scancodes@.queue,
                decoder_fed(self.keyboard) == fed0 + consumed,
                self.writer@ == spec_apply_keys(pre_writer, fed0, consumed),
            ensures
                self.writer@.wf(),
                self.scancodes@.cap == cap0,
                self.scancodes@.queue.len() == 0,
                self.scancodes@.waker == Some(waker.task_id),
                decoder_fed(self.keyboard) == fed0 + queue0,
                self.writer@ == spec_apply_keys(pre_writer, fed0, queue0),
            decreases self.scancodes@.queue.len(),
        {
            match self.scancodes.poll_next(waker.task_id) {
                PollNext::Ready(scancode) => {
                    proof {
                        assert(scancode == queue0[consumed.len() as int]);
                    }
                    let decoded = self.keyboard.decode(scancode);
                    if let Some(key) = decoded {
                        match key_action(key) {
                            KeyAction::Backspace => {
                                self.writer.backspace();
                            },
                            KeyAction::Print(character) => {
                                if (character as u32) < 128 {
                                    self.writer.write_byte(character as u8, Some(Color::Black));
                                } else {
                                    self.writer.write_byte(0xfe, Some(Color::Black));
                                }
                            },
                            KeyAction::Ignore => {
                            },
                        }
                    }
                    proof {
                        lemma_apply_keys_snoc(pre_writer, fed0, consumed, scancode);
                        consumed = consumed.push(scancode);
                        assert(queue0 =~= consumed + self.scancodes@.queue);
                        assert(decoder_fed(self.keyboard) =~= fed0 + consumed);
                        assert(self.writer@ =~~= spec_apply_keys(pre_writer, fed0, consumed));
                    }
                },
                PollNext::Pending => {
                    proof {
                        assert(consumed =~= queue0);
                    }
                    break ;
                },
            }
        }
        TaskPoll::Pending
    }
}

/// One move of the keyboard game, from a decoded digit.
///
/// Digit 0 resets the game: the first player is to move and the board is
/// cleared.  Digits 1 to 9 address the cells left to right, top to
/// bottom; a move on an empty cell places the mover's mark there and
/// passes the turn, a move on a taken cell changes nothing.
pub fn apply_digit(board: &mut Board, state: &mut bool, d: u32)
    requires
        board_wf(*old(board)),
        d <= 9,
    ensures
        board_wf(*final(board)),
        d == 0 ==> *final(state) && forall|i: int, j: int|
            0 <= i < 3 && 0 <= j < 3 ==> #[trigger] cell(*final(board), i, j) is None,
        1 <= d <= 9 ==> ({
            let row = ((d - 1) / 3) as int;
            let col = ((d - 1) % 3) as int;
            if cell(*old(board), row, col) is None {
                &&& cell(*final(board), row, col) == Some(*old(state))
                &&& *final(state) == !*old(state)
                &&& forall|i: int, j: int|
                    0 <= i < 3 && 0 <= j < 3 && (i != row || j != col) ==> #[trigger] cell(
                        *final(board),
                        i,
                        j,
                    ) == cell(*old(board), i, j)
            } else {
                *final(board) == *old(board) && *final(state) == *old(state)
            }
        }),
{
    if d == 0 {
        *state = true;
        crate::clear_board(board);
    } else {
        let row = ((d - 1) / 3) as usize;
        let col = ((d - 1) % 3) as usize;
        let taken = board[row][col].is_some();
        if !taken {
            let mark = *state;
            let mut new_row: Vec<Option<bool>> = Vec::new();
            let mut c: usize = 0;
            while c < 3
                invariant
                    board_wf(*board),
                    row < 3,
                    col < 3,
                    c <= 3,
                    new_row@.len() == c,
                    forall|k: int|
                        0 <= k < c ==> new_row@[k] == (if k == col {
                            Some(mark)
                        } else {
                            board@[row as int]@[k]
                        }),
                decreases 3 - c,
            {
                if c == col {
                    new_row.push(Some(mark));
                } else {
                    let v = board[row][c];
                    new_row.push(v);
                }
                c = c + 1;
            }
            board.set(row, new_row);
            *state = !*state;
        }
    }
}

} // verus!
