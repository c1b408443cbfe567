//! Model of the text-mode display writer and the kernel logger.
//!
//! The real screen is a volatile 25 x 80 buffer of character/colour pairs at
//! a fixed physical address; here the buffer is held as plain data, and every
//! write is specified exactly.  The hardware glue copies the rows out.
use vstd::prelude::*;
use vstd::string::StringSliceAdditionalSpecFns;

verus! {

/// Number of character rows on the screen.
pub const BUFFER_HEIGHT: usize = 25;

/// Number of character columns on the screen.
pub const BUFFER_WIDTH: usize = 80;

/// The sixteen VGA colours.
#[derive(Debug, Clone, Copy, PartialEq, Eq, Structural)]
pub enum Color {
    Black,
    Blue,
    Green,
    Cyan,
    Red,
    Magenta,
    Brown,
    LightGray,
    DarkGray,
    LightBlue,
    LightGreen,
    LightCyan,
    LightRed,
    Pink,
    Yellow,
    White,
}

impl Color {
    /// The 4-bit value the hardware uses for this colour.
    pub open spec fn spec_code(self) -> u8 {
        match self {
            Color::Black => 0,
            Color::Blue => 1,
            Color::Green => 2,
            Color::Cyan => 3,
            Color::Red => 4,
            Color::Magenta => 5,
            Color::Brown => 6,
            Color::LightGray => 7,
            Color::DarkGray => 8,
            Color::LightBlue => 9,
            Color::LightGreen => 10,
            Color::LightCyan => 11,
            Color::LightRed => 12,
            Color::Pink => 13,
            Color::Yellow => 14,
            Color::White => 15,
        }
    }

    /// Return the 4-bit colour number.
    pub fn code(self) -> (r: u8)
        ensures
            r == self.spec_code(),
            r < 16,
    {
        match self {
            Color::Black => 0,
            Color::Blue => 1,
            Color::Green => 2,
            Color::Cyan => 3,
            Color::Red => 4,
            Color::Magenta => 5,
            Color::Brown => 6,
            Color::LightGray => 7,
            Color::DarkGray => 8,
            Color::LightBlue => 9,
            Color::LightGreen => 10,
            Color::LightCyan => 11,
            Color::LightRed => 12,
            Color::Pink => 13,
            Color::Yellow => 14,
            Color::White => 15,
        }
    }
}

/// A packed foreground/background colour byte: the high four bits are the
/// background, the low four the foreground.
#[derive(Debug, Clone, Copy, PartialEq, Eq, Structural)]
pub struct ColorCode(pub u8);

impl ColorCode {
    /// The packed byte for a foreground/background pair.
    pub open spec fn spec_new(foreground: Color, background: Color) -> ColorCode {
        ColorCode((background.spec_code() * 16 + foreground.spec_code()) as u8)
    }

    /// Pack a foreground and a background colour into one byte.
    pub fn new(foreground: Color, background: Color) -> (r: ColorCode)
        ensures
            r == ColorCode::spec_new(foreground, background),
    {
        ColorCode(background.code() * 16 + foreground.code())
    }

    /// The raw byte value.
    pub fn value(self) -> (r: u8)
        ensures
            r == self.0,
    {
        self.0
    }
}

/// One character cell: an ASCII byte and its colour.
#[derive(Debug, Clone, Copy, PartialEq, Eq, Structural)]
pub struct ScreenChar {
    pub ascii_char: u8,
    pub color_code: ColorCode,
}

/// The modelled screen contents: a grid of character cells.
pub struct Buffer {
    pub chars: Vec<Vec<ScreenChar>>,
}

/// Mathematical state of a writer: the rows of the screen, the cursor
/// column, and the colour used for cleared cells.
#[verifier::ext_equal]
pub struct ScreenState {
    pub rows: Seq<Seq<ScreenChar>>,
    pub col: int,
    pub color: ColorCode,
}

/// The foreground colour every printed character uses.
pub open spec fn spec_fg() -> Color {
    Color::Green
}

/// The default background colour.
pub open spec fn spec_bg() -> Color {
    Color::Black
}

/// The blank cell a cleared row is filled with.
pub open spec fn blank_char(color: ColorCode) -> ScreenChar {
    ScreenChar { ascii_char: 32, color_code: color }
}

/// A whole row of blank cells.
pub open spec fn blank_row(color: ColorCode) -> Seq<ScreenChar> {
    Seq::new(BUFFER_WIDTH as nat, |c: int| blank_char(color))
}

impl ScreenState {
    /// A well-formed screen has the fixed number of rows and columns and a
    /// cursor that sits at or before the right edge.
    pub open spec fn wf(self) -> bool {
        &&& self.rows.len() == BUFFER_HEIGHT
        &&& forall|r: int|
            0 <= r < BUFFER_HEIGHT ==> (#[trigger] self.rows[r]).len() == BUFFER_WIDTH
        &&& 0 <= self.col <= BUFFER_WIDTH
    }

    /// Effect of scrolling: every row moves up one place, the bottom row is
    /// cleared, and the cursor returns to the left edge.
    pub open spec fn spec_new_line(self) -> ScreenState {
        ScreenState {
            rows: Seq::new(
                BUFFER_HEIGHT as nat,
                |r: int|
                    if r < BUFFER_HEIGHT - 1 {
                        self.rows[r + 1]
                    } else {
                        blank_row(self.color)
                    },
            ),
            col: 0,
            color: self.color,
        }
    }

    /// Effect of clearing row `row`.
    pub open spec fn spec_clear_row(self, row: int) -> ScreenState {
        ScreenState { rows: self.rows.update(row, blank_row(self.color)), ..self }
    }

    /// Effect of writing one byte: a newline scrolls; any other byte lands
    /// on the bottom row at the cursor (scrolling first if the row is full),
    /// painted green on the given background.
    pub open spec fn spec_write_byte(self, byte: u8, background: Option<Color>) -> ScreenState {
        if byte == 10 {
            self.spec_new_line()
        } else {
            let s = if self.col >= BUFFER_WIDTH {
                self.spec_new_line()
            } else {
                self
            };
            let bg = match background {
                Some(c) => c,
                None => spec_bg(),
            };
            let cell = ScreenChar {
                ascii_char: byte,
                color_code: ColorCode::spec_new(spec_fg(), bg),
            };
            ScreenState {
                rows: s.rows.update(
                    BUFFER_HEIGHT - 1,
                    s.rows[BUFFER_HEIGHT - 1].update(s.col, cell),
                ),
                col: s.col + 1,
                color: s.color,
            }
        }
    }

    /// Effect of erasing the character before the cursor on the bottom
    /// row; at the left edge nothing happens.
    pub open spec fn spec_backspace(self) -> ScreenState {
        if self.col == 0 {
            self
        } else {
            let erased = ScreenChar {
                ascii_char: 0,
                color_code: ColorCode::spec_new(spec_bg(), spec_bg()),
            };
            ScreenState {
                rows: self.rows.update(
                    BUFFER_HEIGHT - 1,
                    self.rows[BUFFER_HEIGHT - 1].update(self.col - 1, erased),
                ),
                col: self.col - 1,
                color: self.color,
            }
        }
    }

    /// Effect of writing a sequence of bytes in order.
    pub open spec fn spec_write_bytes(self, s: Seq<u8>, background: Option<Color>) -> ScreenState
        decreases s.len(),
    {
        if s.len() == 0 {
            self
        } else {
            self.spec_write_byte(s[0], background).spec_write_bytes(s.drop_first(), background)
        }
    }
}

/// Writes characters to the modelled screen, always on the bottom row.
pub struct Writer {
    pub column_pos: usize,
    pub color_code: ColorCode,
    pub buffer: Buffer,
}

impl View for Writer {
    type V = ScreenState;

    open spec fn view(&self) -> ScreenState {
        ScreenState {
            rows: Seq::new(self.buffer.chars@.len(), |r: int| self.buffer.chars@[r]@),
            col: self.column_pos as int,
            color: self.color_code,
        }
    }
}

impl Writer {
    /// Make a writer over the given buffer, with the cursor at the left edge.
    pub fn new(color_code: ColorCode, buffer: Buffer) -> (w: Writer)
        requires
            buffer.chars@.len() == BUFFER_HEIGHT,
            forall|r: int|
                0 <= r < BUFFER_HEIGHT ==> (#[trigger] buffer.chars@[r])@.len() == BUFFER_WIDTH,
        ensures
            w@.wf(),
            w@.col == 0,
            w@.color == color_code,
            w@.rows == Seq::new(buffer.chars@.len(), |r: int| buffer.chars@[r]@),
    {
        Writer { column_pos: 0, color_code, buffer }
    }

    /// Copy out the cells of row `row`.
    fn copy_row(&self, row: usize) -> (r: Vec<ScreenChar>)
        requires
            self@.wf(),
            row < BUFFER_HEIGHT,
        ensures
            r@ =~= self@.rows[row as int],
    {
        let mut cells: Vec<ScreenChar> = Vec::new();
        let mut col: usize = 0;
        while col < BUFFER_WIDTH
            invariant
                self@.wf(),
                row < BUFFER_HEIGHT,
                col <= BUFFER_WIDTH,
                cells@.len() == col,
                forall|k: int| 0 <= k < col ==> cells@[k] == self@.rows[row as int][k],
            decreases BUFFER_WIDTH - col,
        {
            assert(self.buffer.chars@.len() == BUFFER_HEIGHT);
            assert(self@.rows[row as int].len() == BUFFER_WIDTH);
            assert(self.buffer.chars@[row as int]@ == self@.rows[row as int]);
            let c = self.buffer.chars[row][col];
            cells.push(c);
            col = col + 1;
        }
        cells
    }

    /// Replace the cell at `row`, `col`.
    fn set_cell(&mut self, row: usize, col: usize, cell: ScreenChar)
        requires
            old(self)@.wf(),
            row < BUFFER_HEIGHT,
            col < BUFFER_WIDTH,
        ensures
            final(self)@.wf(),
            final(self)@ =~~= (ScreenState {
                rows: old(self)@.rows.update(
                    row as int,
                    old(self)@.rows[row as int].update(col as int, cell),
                ),
                ..old(self)@
            }),
    {
        let ghost pre = self@;
        let mut cells = self.copy_row(row);
        cells.set(col, cell);
        self.buffer.chars.set(row, cells);
        assert(self@.rows =~~= pre.rows.update(
            row as int,
            pre.rows[row as int].update(col as int, cell),
        ));
    }

    /// Fill row `row` with blank cells in the writer's colour.
    fn clear_row(&mut self, row: usize)
        requires
            old(self)@.wf(),
            row < BUFFER_HEIGHT,
        ensures
            final(self)@.wf(),
            final(self)@ =~~= old(self)@.spec_clear_row(row as int),
    {
        let ghost pre = self@;
        let mut blank_cells: Vec<ScreenChar> = Vec::new();
        let blank = ScreenChar { ascii_char: 32u8, color_code: self.color_code };
        for _c in 0..BUFFER_WIDTH
            invariant
                blank_cells@.len() == _c,
                forall|k: int| 0 <= k < _c ==> blank_cells@[k] == blank,
                blank == blank_char(self.color_code),
        {
            blank_cells.push(blank);
        }
        assert(blank_cells@ =~= blank_row(self.color_code));
        self.buffer.chars.set(row, blank_cells);
        assert(self@.rows =~~= pre.rows.update(row as int, blank_row(pre.color)));
    }

    /// Scroll the screen one row and return the cursor to the left edge.
    fn new_line(&mut self)
        requires
            old(self)@.wf(),
        ensures
            final(self)@.wf(),
            final(self)@ =~~= old(self)@.spec_new_line(),
    {
        let ghost pre = self@;
        let mut row: usize = 1;
        while row < BUFFER_HEIGHT
            invariant
                1 <= row <= BUFFER_HEIGHT,
                self@.col == pre.col,
                self@.color == pre.color,
                self@.wf(),
                forall|r: int| 0 <= r < row - 1 ==> self@.rows[r] == pre.rows[r + 1],
                forall|r: int| row - 1 <= r < BUFFER_HEIGHT ==> self@.rows[r] == pre.rows[r],
            decreases BUFFER_HEIGHT - row,
        {
            let ghost before = self@;
            let moved = self.copy_row(row);
            self.buffer.chars.set(row - 1, moved);
            assert(self@.rows =~~= before.rows.update(row - 1, before.rows[row as int]));
            row = row + 1;
        }
        self.clear_row(BUFFER_HEIGHT - 1);
        self.column_pos = 0;
        assert(self@ =~~= pre.spec_new_line());
    }

    /// Write one byte to the screen.
    pub fn write_byte(&mut self, byte: u8, background: Option<Color>)
        requires
            old(self)@.wf(),
        ensures
            final(self)@.wf(),
            final(self)@ =~~= old(self)@.spec_write_byte(byte, background),
    {
        if byte == 10u8 {
            self.new_line();
        } else {
            if self.column_pos >= BUFFER_WIDTH {
                self.new_line();
            }
            let ghost mid = self@;
            let row = BUFFER_HEIGHT - 1;
            let col = self.column_pos;
            let bg = match background {
                Some(c) => c,
                None => Color::Black,
            };
            let cell = ScreenChar { ascii_char: byte, color_code: ColorCode::new(Color::Green, bg) };
            self.set_cell(row, col, cell);
            self.column_pos = self.column_pos + 1;
            assert(self@ =~~= mid.spec_write_byte(byte, background));
        }
    }

    /// Write a string: ASCII bytes go through unchanged, any other byte is
    /// shown as the fallback glyph 0xfe, all on the default background.
    pub fn write_str(&mut self, s: &str)
        requires
            old(self)@.wf(),
        ensures
            final(self)@.wf(),
            final(self)@ =~~= old(self)@.spec_write_bytes(
                Seq::new(s.spec_bytes().len(), |i: int| printable_byte(s.spec_bytes()[i])),
                Some(spec_bg()),
            ),
    {
        let bytes = s.as_bytes();
        let ghost shown = Seq::new(s.spec_bytes().len(), |i: int| printable_byte(s.spec_bytes()[i]));
        let ghost pre = self@;
        let mut i: usize = 0;
        while i < bytes.len()
            invariant
                0 <= i <= bytes@.len(),
                bytes@ == s.spec_bytes(),
                shown == Seq::new(s.spec_bytes().len(), |k: int| printable_byte(s.spec_bytes()[k])),
                self@.wf(),
                self@ =~~= pre.spec_write_bytes(shown.take(i as int), Some(spec_bg())),
            decreases bytes@.len() - i,
        {
            let byte = bytes[i];
            if byte < 128 {
                self.write_byte(byte, Some(Color::Black));
            } else {
                self.write_byte(0xfe, Some(Color::Black));
            }
            proof {
                lemma_write_bytes_snoc(pre, shown.take(i as int), printable_byte(byte), Some(spec_bg()));
                assert(shown.take(i + 1 as int) =~= shown.take(i as int).push(printable_byte(byte)));
            }
            i = i + 1;
        }
        proof {
            assert(shown.take(shown.len() as int) =~= shown);
        }
    }

    /// Write a message made of coloured parts, each part a string with an
    /// optional background colour.
    pub fn write_log(&mut self, message: &Vec<(String, Option<Color>)>)
        requires
            old(self)@.wf(),
        ensures
            final(self)@.wf(),
            final(self)@ =~~= spec_write_parts(old(self)@, message@),
    {
        let ghost pre = self@;
        let mut p: usize = 0;
        while p < message.len()
            invariant
                self@.wf(),
                p <= message@.len(),
                self@ =~~= spec_write_parts(pre, message@.take(p as int)),
            decreases message@.len() - p,
        {
            let ghost mid = self@;
            let part: &String = &message[p].0;
            let bg = message[p].1;
            let bytes = part.as_str().as_bytes();
            let ghost shown = shown_bytes(vstd::utf8::encode_utf8(part@));
            let mut i: usize = 0;
            while i < bytes.len()
                invariant
                    self@.wf(),
                    0 <= i <= bytes@.len(),
                    bytes@ == vstd::utf8::encode_utf8(part@),
                    shown == shown_bytes(vstd::utf8::encode_utf8(part@)),
                    self@ =~~= mid.spec_write_bytes(shown.take(i as int), bg),
                decreases bytes@.len() - i,
            {
                let byte = bytes[i];
                if byte < 128 {
                    self.write_byte(byte, bg);
                } else {
                    self.write_byte(0xfe, bg);
                }
                proof {
                    lemma_write_bytes_snoc(mid, shown.take(i as int), printable_byte(byte), bg);
                    assert(shown.take(i + 1 as int) =~= shown.take(i as int).push(
                        printable_byte(byte),
                    ));
                }
                i = i + 1;
            }
            proof {
                assert(shown.take(shown.len() as int) =~= shown);
                assert(message@.take(p + 1 as int) =~= message@.take(p as int).push(
                    message@[p as int],
                ));
                lemma_write_parts_snoc(pre, message@.take(p as int), message@[p as int]);
            }
            p = p + 1;
        }
        proof {
            assert(message@.take(message@.len() as int) =~= message@);
        }
    }

    /// Decide at run time whether the writer's screen is well formed.
    pub fn wf_check(&self) -> (r: bool)
        ensures
            r == self@.wf(),
    {
        if self.buffer.chars.len() != BUFFER_HEIGHT {
            return false;
        }
        if self.column_pos > BUFFER_WIDTH {
            return false;
        }
        let mut row: usize = 0;
        while row < BUFFER_HEIGHT
            invariant
                row <= BUFFER_HEIGHT,
                self.buffer.chars@.len() == BUFFER_HEIGHT,
                self.column_pos <= BUFFER_WIDTH,
                forall|r2: int| 0 <= r2 < row ==> (#[trigger] self@.rows[r2]).len() == BUFFER_WIDTH,
            decreases BUFFER_HEIGHT - row,
        {
            if self.buffer.chars[row].len() != BUFFER_WIDTH {
                proof {
                    assert(self@.rows[row as int].len() != BUFFER_WIDTH);
                }
                return false;
            }
            proof {
                assert(self@.rows[row as int].len() == BUFFER_WIDTH);
            }
            row = row + 1;
        }
        true
    }

    /// Erase the character before the cursor on the bottom row; at the left
    /// edge nothing happens.
    pub fn backspace(&mut self)
        requires
            old(self)@.wf(),
        ensures
            final(self)@.wf(),
            final(self)@ =~~= old(self)@.spec_backspace(),
    {
        if self.column_pos == 0 {
            return ;
        }
        self.column_pos = self.column_pos - 1;
        let cell = ScreenChar {
            ascii_char: 0x0,
            color_code: ColorCode::new(Color::Black, Color::Black),
        };
        self.set_cell(BUFFER_HEIGHT - 1, self.column_pos, cell);
    }
}

/// The byte shown on screen for an input byte.
pub open spec fn printable_byte(b: u8) -> u8 {
    if b < 128 {
        b
    } else {
        0xfe
    }
}

/// Writing `s.push(b)` is writing `s`, then `b`.
pub proof fn lemma_write_bytes_snoc(
    st: ScreenState,
    s: Seq<u8>,
    b: u8,
    background: Option<Color>,
)
    ensures
        st.spec_write_bytes(s.push(b), background) == st.spec_write_bytes(
            s,
            background,
        ).spec_write_byte(b, background),
    decreases s.len(),
{
    if s.len() == 0 {
        assert(s.push(b)[0] == b);
        assert(s.push(b).drop_first() =~= Seq::<u8>::empty());
        assert(st.spec_write_bytes(s, background) == st);
        let st1 = st.spec_write_byte(b, background);
        assert(st1.spec_write_bytes(s.push(b).drop_first(), background) == st1);
        assert(st.spec_write_bytes(s.push(b), background) == st1.spec_write_bytes(
            s.push(b).drop_first(),
            background,
        ));
    } else {
        assert(s.push(b)[0] == s[0]);
        assert(s.push(b).drop_first() =~= s.drop_first().push(b));
        let st1 = st.spec_write_byte(s[0], background);
        assert(st.spec_write_bytes(s.push(b), background) == st1.spec_write_bytes(
            s.drop_first().push(b),
            background,
        ));
        assert(st.spec_write_bytes(s, background) == st1.spec_write_bytes(
            s.drop_first(),
            background,
        ));
        lemma_write_bytes_snoc(st1, s.drop_first(), b, background);
    }
}


/// Log severity, most severe first.
#[derive(Debug, Clone, Copy, PartialEq, Eq, Structural)]
pub enum Level {
    Error,
    Warn,
    Info,
    Debug,
    Trace,
}

impl Level {
    /// Numeric severity rank; smaller is more severe.
    pub open spec fn spec_rank(self) -> int {
        match self {
            Level::Error => 1,
            Level::Warn => 2,
            Level::Info => 3,
            Level::Debug => 4,
            Level::Trace => 5,
        }
    }
}

/// A verbosity ceiling: the most verbose level still shown.
#[derive(Debug, Clone, Copy, PartialEq, Eq, Structural)]
pub enum LevelFilter {
    Off,
    Error,
    Warn,
    Info,
    Debug,
    Trace,
}

impl LevelFilter {
    /// The rank of the most verbose level still shown; zero shows nothing.
    pub open spec fn spec_ceiling(self) -> int {
        match self {
            LevelFilter::Off => 0,
            LevelFilter::Error => 1,
            LevelFilter::Warn => 2,
            LevelFilter::Info => 3,
            LevelFilter::Debug => 4,
            LevelFilter::Trace => 5,
        }
    }
}

/// The screen logger: it paints each record on the display in the colour
/// of its level, provided the level passes the verbosity ceiling.
pub struct Logger {
    pub verbosity: LevelFilter,
}

impl Logger {
    /// A logger with the given verbosity ceiling.
    pub fn new(verbosity: LevelFilter) -> (r: Logger)
        ensures
            r.verbosity == verbosity,
    {
        Logger { verbosity }
    }

    /// Whether a record of this level is shown: exactly the levels at or
    /// above the ceiling's severity.
    pub fn enabled(&self, level: Level) -> (r: bool)
        ensures
            r <==> level.spec_rank() <= self.verbosity.spec_ceiling(),
    {
        let rank: u32 = match level {
            Level::Error => 1,
            Level::Warn => 2,
            Level::Info => 3,
            Level::Debug => 4,
            Level::Trace => 5,
        };
        let ceiling: u32 = match self.verbosity {
            LevelFilter::Off => 0,
            LevelFilter::Error => 1,
            LevelFilter::Warn => 2,
            LevelFilter::Info => 3,
            LevelFilter::Debug => 4,
            LevelFilter::Trace => 5,
        };
        rank <= ceiling
    }
}

/// The colour each level's tag is painted in.
pub open spec fn spec_level_color(level: Level) -> Color {
    match level {
        Level::Debug => Color::White,
        Level::Info => Color::LightBlue,
        Level::Error => Color::Red,
        Level::Trace => Color::Blue,
        Level::Warn => Color::Yellow,
    }
}

/// Pick the tag colour for a level.
pub fn level_color(level: Level) -> (r: Color)
    ensures
        r == spec_level_color(level),
{
    match level {
        Level::Debug => Color::White,
        Level::Info => Color::LightBlue,
        Level::Error => Color::Red,
        Level::Trace => Color::Blue,
        Level::Warn => Color::Yellow,
    }
}

/// Relies on log::set_max_level: fixes the log facade's global verbosity
/// ceiling; it reports nothing back.
#[verifier::external_body]
fn log_set_max_level(verbosity: LevelFilter) {
    log::set_max_level(
        match verbosity {
            LevelFilter::Off => log::LevelFilter::Off,
            LevelFilter::Error => log::LevelFilter::Error,
            LevelFilter::Warn => log::LevelFilter::Warn,
            LevelFilter::Info => log::LevelFilter::Info,
            LevelFilter::Debug => log::LevelFilter::Debug,
            LevelFilter::Trace => log::LevelFilter::Trace,
        },
    );
}

/// Install the logger's verbosity as the log facade's global ceiling.
/// Registering the logger itself with the facade is the hardware glue's
/// step, done once at boot.
pub fn init_logger(logger: &Logger) -> (v: LevelFilter)
    ensures
        v == logger.verbosity,
{
    log_set_max_level(logger.verbosity);
    logger.verbosity
}


/// What each input byte puts on screen: ASCII unchanged, anything else the
/// fallback glyph.
pub open spec fn shown_bytes(s: Seq<u8>) -> Seq<u8> {
    Seq::new(s.len(), |i: int| printable_byte(s[i]))
}

/// Effect of writing a list of coloured parts in order: each part's bytes,
/// as shown, on that part's background.
pub open spec fn spec_write_parts(
    st: ScreenState,
    parts: Seq<(String, Option<Color>)>,
) -> ScreenState
    decreases parts.len(),
{
    if parts.len() == 0 {
        st
    } else {
        spec_write_parts(
            st.spec_write_bytes(
                shown_bytes(vstd::utf8::encode_utf8(parts[0].0@)),
                parts[0].1,
            ),
            parts.drop_first(),
        )
    }
}

/// Writing `parts.push(q)` is writing `parts`, then `q`.
pub proof fn lemma_write_parts_snoc(
    st: ScreenState,
    parts: Seq<(String, Option<Color>)>,
    q: (String, Option<Color>),
)
    ensures
        spec_write_parts(st, parts.push(q)) == spec_write_parts(st, parts).spec_write_bytes(
            shown_bytes(vstd::utf8::encode_utf8(q.0@)),
            q.1,
        ),
    decreases parts.len(),
{
    if parts.len() == 0 {
        assert(parts.push(q)[0] == q);
        assert(parts.push(q).drop_first() =~= parts);
        assert(spec_write_parts(st, parts) == st);
        let st1 = st.spec_write_bytes(shown_bytes(vstd::utf8::encode_utf8(q.0@)), q.1);
        assert(spec_write_parts(st1, parts.push(q).drop_first()) == st1);
    } else {
        assert(parts.push(q)[0] == parts[0]);
        assert(parts.push(q).drop_first() =~= parts.drop_first().push(q));
        let st1 = st.spec_write_bytes(
            shown_bytes(vstd::utf8::encode_utf8(parts[0].0@)),
            parts[0].1,
        );
        assert(spec_write_parts(st, parts.push(q)) == spec_write_parts(
            st1,
            parts.drop_first().push(q),
        ));
        assert(spec_write_parts(st, parts) == spec_write_parts(st1, parts.drop_first()));
        lemma_write_parts_snoc(st1, parts.drop_first(), q);
    }
}

} // verus!
