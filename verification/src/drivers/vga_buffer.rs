//! The VGA text buffer: a screen of 25 rows by 80 columns of coloured
//! characters, written like a teletype. Text goes to the bottom row; a line
//! feed moves every row up by one and clears the bottom row.
//!
//! The writer keeps the screen in memory of its own. Whoever owns the
//! hardware copies the cells out to the memory-mapped buffer.

use vstd::prelude::*;
use vstd::string::StringSliceAdditionalSpecFns;

verus! {

/// Represents each VGA colour. Normally it is used with
/// [`Writer::set_colour_code`].
#[allow(dead_code)]
#[derive(Debug, Clone, Copy, PartialEq, Eq, Structural)]
pub enum Colour {
    Black,
    Blue,
    Green,
    Cyan,
    Red,
    Magenta,
    Brown,
    LightGray,
    DarkGray,
    LightBlue,
    LightGreen,
    LightCyan,
    LightRed,
    Pink,
    Yellow,
    White,
}

/// The number by which the hardware knows a colour.
pub open spec fn colour_number(colour: Colour) -> u8 {
    match colour {
        Colour::Black => 0,
        Colour::Blue => 1,
        Colour::Green => 2,
        Colour::Cyan => 3,
        Colour::Red => 4,
        Colour::Magenta => 5,
        Colour::Brown => 6,
        Colour::LightGray => 7,
        Colour::DarkGray => 8,
        Colour::LightBlue => 9,
        Colour::LightGreen => 10,
        Colour::LightCyan => 11,
        Colour::LightRed => 12,
        Colour::Pink => 13,
        Colour::Yellow => 14,
        Colour::White => 15,
    }
}

impl Colour {
    /// The number by which the hardware knows this colour.
    pub fn number(self) -> (n: u8)
        ensures
            n == colour_number(self),
            n < 16,
    {
        match self {
            Colour::Black => 0,
            Colour::Blue => 1,
            Colour::Green => 2,
            Colour::Cyan => 3,
            Colour::Red => 4,
            Colour::Magenta => 5,
            Colour::Brown => 6,
            Colour::LightGray => 7,
            Colour::DarkGray => 8,
            Colour::LightBlue => 9,
            Colour::LightGreen => 10,
            Colour::LightCyan => 11,
            Colour::LightRed => 12,
            Colour::Pink => 13,
            Colour::Yellow => 14,
            Colour::White => 15,
        }
    }
}

/// ColourCode represents a combination of foreground and background
/// [`Colour`]s: the background in the high four bits, the foreground in the
/// low four.
#[derive(Debug, Clone, Copy, PartialEq, Eq, Structural)]
pub struct ColourCode(pub u8);

/// The code of `foreground` on `background`.
pub open spec fn colour_code(foreground: Colour, background: Colour) -> ColourCode {
    ColourCode((16 * colour_number(background) + colour_number(foreground)) as u8)
}

impl ColourCode {
    pub fn new(foreground: Colour, background: Colour) -> (code: ColourCode)
        ensures
            code == colour_code(foreground, background),
    {
        let high = background.number();
        let low = foreground.number();
        assert((high << 4 | low) == 16 * high + low) by (bit_vector)
            requires
                high < 16,
                low < 16,
        ;
        ColourCode(high << 4 | low)
    }
}

/// Represents a character on the screen with a [`ColourCode`].
#[derive(Debug, Clone, Copy, PartialEq, Eq, Structural)]
pub struct ScreenChar {
    pub ascii_character: u8,
    pub colour_code: ColourCode,
}

/// 25 rows
pub const BUFFER_HEIGHT: usize = 25;

/// 80 columns
pub const BUFFER_WIDTH: usize = 80;

/// The space character.
pub const SPACE: u8 = 0x20;

/// The line feed character, `'\n'`.
pub const LINE_FEED: u8 = 0x0a;

/// The byte that stands for a character that cannot be shown.
pub const UNPRINTABLE: u8 = 0xfe;

/// A space in the given colours.
pub open spec fn blank(colour: ColourCode) -> ScreenChar {
    ScreenChar { ascii_character: SPACE, colour_code: colour }
}

/// Whether the screen can show `byte` as it is: printable ASCII or a line
/// feed.
pub open spec fn printable(byte: u8) -> bool {
    0x20 <= byte <= 0x7e || byte == LINE_FEED
}

/// The mathematical model of the writer: the column where the next character
/// goes, the colours it will have, and the cells of the screen row by row.
pub struct Screen {
    pub column: int,
    pub colour: ColourCode,
    pub cells: Seq<ScreenChar>,
}

impl Screen {
    pub open spec fn wf(self) -> bool {
        &&& self.cells.len() == BUFFER_HEIGHT * BUFFER_WIDTH
        &&& 0 <= self.column <= usize::MAX
    }

    /// The cell at `(row, col)`.
    pub open spec fn cell(self, row: int, col: int) -> ScreenChar {
        self.cells[row * BUFFER_WIDTH + col]
    }

    /// The screen after a line feed: every row has moved up by one, the top
    /// row is lost, the bottom row is blank in the current colours, and the
    /// next character goes to the first column.
    pub open spec fn new_line(self) -> Screen {
        Screen {
            column: 0,
            cells: Seq::new(
                self.cells.len(),
                |i: int|
                    if i < (BUFFER_HEIGHT - 1) * BUFFER_WIDTH {
                        self.cells[i + BUFFER_WIDTH]
                    } else {
                        blank(self.colour)
                    },
            ),
            ..self
        }
    }

    /// The screen after one byte: a line feed for `'\n'`; any other byte is
    /// put on the bottom row at the current column, after a line feed if the
    /// row is full.
    pub open spec fn write_byte(self, byte: u8) -> Screen {
        if byte == LINE_FEED {
            self.new_line()
        } else {
            let line = if self.column >= BUFFER_WIDTH {
                self.new_line()
            } else {
                self
            };
            Screen {
                column: line.column + 1,
                cells: line.cells.update(
                    (BUFFER_HEIGHT - 1) * BUFFER_WIDTH + line.column,
                    ScreenChar { ascii_character: byte, colour_code: self.colour },
                ),
                ..line
            }
        }
    }

    /// The screen after the bytes of a string, first to last. A byte that
    /// cannot be shown is replaced by [`UNPRINTABLE`].
    pub open spec fn write_string(self, bytes: Seq<u8>) -> Screen
        decreases bytes.len(),
    {
        if bytes.len() == 0 {
            self
        } else {
            self.write_string(bytes.drop_last()).write_byte(
                if printable(bytes.last()) {
                    bytes.last()
                } else {
                    UNPRINTABLE
                },
            )
        }
    }
}

/// Writer keeps track of the current foreground / background [`Colour`]s and
/// the last row's column position, and holds the cells of the screen.
#[derive(Debug)]
pub struct Writer {
    column_position: usize,
    colour_code: ColourCode,
    buffer: Vec<ScreenChar>,
}

impl View for Writer {
    type V = Screen;

    closed spec fn view(&self) -> Screen {
        Screen {
            column: self.column_position as int,
            colour: self.colour_code,
            cells: self.buffer@,
        }
    }
}

impl Writer {
    /// Every writer holds a full screen of cells.
    #[verifier::type_invariant]
    pub open spec fn inv(&self) -> bool {
        self@.wf()
    }

    /// A writer on a blank screen, in yellow on black.
    pub fn new() -> (writer: Writer)
        ensures
            writer@.wf(),
            writer@.column == 0,
            writer@.colour == colour_code(Colour::Yellow, Colour::Black),
            forall|i: int|
                0 <= i < writer@.cells.len() ==> writer@.cells[i] == blank(writer@.colour),
    {
        let colour_code = ColourCode::new(Colour::Yellow, Colour::Black);
        let cell = ScreenChar { ascii_character: SPACE, colour_code };
        let mut buffer: Vec<ScreenChar> = Vec::new();
        let mut i: usize = 0;
        while i < BUFFER_HEIGHT * BUFFER_WIDTH
            invariant
                i <= BUFFER_HEIGHT * BUFFER_WIDTH,
                buffer@.len() == i,
                cell == blank(colour_code),
                forall|j: int| 0 <= j < i ==> buffer@[j] == cell,
            decreases BUFFER_HEIGHT * BUFFER_WIDTH - i,
        {
            buffer.push(cell);
            i += 1;
        }
        Writer { column_position: 0, colour_code, buffer }
    }

    /// The column where the next character goes.
    pub fn column_position(&self) -> (column: usize)
        ensures
            column == self@.column,
    {
        self.column_position
    }

    /// The colours of the next character.
    pub fn colour_code(&self) -> (code: ColourCode)
        ensures
            code == self@.colour,
    {
        self.colour_code
    }

    /// The cells of the screen, row by row.
    pub fn cells(&self) -> (cells: &[ScreenChar])
        ensures
            cells@ == self@.cells,
            self@.wf(),
    {
        proof {
            use_type_invariant(self);
        }
        self.buffer.as_slice()
    }

    /// The cell at `(row, col)`, or `None` where there is no such cell.
    pub fn char_at(&self, row: usize, col: usize) -> (cell: Option<ScreenChar>)
        ensures
            cell == if row < BUFFER_HEIGHT && col < BUFFER_WIDTH {
                Some(self@.cell(row as int, col as int))
            } else {
                None
            },
    {
        proof {
            use_type_invariant(self);
        }
        if row < BUFFER_HEIGHT && col < BUFFER_WIDTH {
            Some(self.buffer[row * BUFFER_WIDTH + col])
        } else {
            None
        }
    }

    /// Writes a single byte to the screen, in the current colours. A line
    /// feed starts a new line; any other byte is shown as it is.
    pub fn write_byte(&mut self, byte: u8)
        ensures
            final(self)@ == old(self)@.write_byte(byte),
            final(self)@.wf(),
    {
        proof {
            use_type_invariant(&*self);
        }
        if byte == LINE_FEED {
            self.new_line();
        } else {
            if self.column_position >= BUFFER_WIDTH {
                self.new_line();
            }
            let row = BUFFER_HEIGHT - 1;
            let col = self.column_position;
            let colour_code = self.colour_code;
            self.buffer[row * BUFFER_WIDTH + col] = ScreenChar { ascii_character: byte, colour_code };
            self.column_position += 1;
        }
    }

    /// Writes a string to the screen, in the current colours. Printable
    /// ASCII and line feeds are written as they are; every other byte of the
    /// string is shown as [`UNPRINTABLE`].
    pub fn write_string(&mut self, s: &str)
        ensures
            final(self)@ == old(self)@.write_string(s.spec_bytes()),
            final(self)@.wf(),
    {
        proof {
            use_type_invariant(&*self);
        }
        let bytes = s.as_bytes();
        let mut i: usize = 0;
        while i < bytes.len()
            invariant
                i <= bytes@.len(),
                bytes@ == s.spec_bytes(),
                self@.wf(),
                self@ == old(self)@.write_string(bytes@.take(i as int)),
            decreases bytes@.len() - i,
        {
            let byte = bytes[i];
            proof {
                assert(bytes@.take(i + 1).drop_last() =~= bytes@.take(i as int));
            }
            if (0x20 <= byte && byte <= 0x7e) || byte == LINE_FEED {
                self.write_byte(byte);
            } else {
                self.write_byte(UNPRINTABLE);
            }
            i += 1;
        }
        proof {
            assert(bytes@.take(i as int) =~= bytes@);
        }
    }

    /// Sets the foreground and background [`Colour`]s of this [`Writer`]
    /// instance. The [`Colour`]s will be used for the next character written.
    pub fn set_colour_code(&mut self, foreground: Colour, background: Colour)
        ensures
            final(self)@ == (Screen {
                colour: colour_code(foreground, background),
                ..old(self)@
            }),
    {
        proof {
            use_type_invariant(&*self);
        }
        self.colour_code = ColourCode::new(foreground, background);
    }

    /// Moves every row up by one, clears the bottom row and goes back to the
    /// first column.
    pub fn new_line(&mut self)
        ensures
            final(self)@ == old(self)@.new_line(),
            final(self)@.wf(),
    {
        proof {
            use_type_invariant(&*self);
        }
        let mut row: usize = 1;
        while row < BUFFER_HEIGHT
            invariant
                1 <= row <= BUFFER_HEIGHT,
                self@.wf(),
                self.column_position == old(self).column_position,
                self.colour_code == old(self).colour_code,
                forall|i: int|
                    0 <= i < (row - 1) * BUFFER_WIDTH ==> #[trigger] self.buffer@[i] == old(
                        self,
                    ).buffer@[i + BUFFER_WIDTH],
                forall|i: int|
                    (row - 1) * BUFFER_WIDTH <= i < BUFFER_HEIGHT * BUFFER_WIDTH
                        ==> #[trigger] self.buffer@[i] == old(self).buffer@[i],
            decreases BUFFER_HEIGHT - row,
        {
            let mut col: usize = 0;
            while col < BUFFER_WIDTH
                invariant
                    1 <= row < BUFFER_HEIGHT,
                    col <= BUFFER_WIDTH,
                    self@.wf(),
                    self.column_position == old(self).column_position,
                    self.colour_code == old(self).colour_code,
                    forall|i: int|
                        0 <= i < (row - 1) * BUFFER_WIDTH + col ==> #[trigger] self.buffer@[i]
                            == old(self).buffer@[i + BUFFER_WIDTH],
                    forall|i: int|
                        (row - 1) * BUFFER_WIDTH + col <= i < BUFFER_HEIGHT * BUFFER_WIDTH
                            ==> #[trigger] self.buffer@[i] == old(self).buffer@[i],
                decreases BUFFER_WIDTH - col,
            {
                let character = self.buffer[row * BUFFER_WIDTH + col];
                self.buffer[(row - 1) * BUFFER_WIDTH + col] = character;
                col += 1;
            }
            row += 1;
        }
        self.clear_row(BUFFER_HEIGHT - 1);
        self.column_position = 0;
        proof {
            assert(self.buffer@ =~= old(self)@.new_line().cells);
        }
    }

    /// Fills a row with spaces in the current colours. A row that the screen
    /// does not have is left alone.
    pub fn clear_row(&mut self, row: usize)
        ensures
            final(self)@ == (Screen {
                cells: Seq::new(
                    old(self)@.cells.len(),
                    |i: int|
                        if row < BUFFER_HEIGHT && row * BUFFER_WIDTH <= i < (row + 1)
                            * BUFFER_WIDTH {
                            blank(old(self)@.colour)
                        } else {
                            old(self)@.cells[i]
                        },
                ),
                ..old(self)@
            }),
            final(self)@.wf(),
    {
        proof {
            use_type_invariant(&*self);
        }
        if row >= BUFFER_HEIGHT {
            proof {
                assert(self.buffer@ =~= Seq::new(
                    old(self)@.cells.len(),
                    |i: int|
                        if row < BUFFER_HEIGHT && row * BUFFER_WIDTH <= i < (row + 1)
                            * BUFFER_WIDTH {
                            blank(old(self)@.colour)
                        } else {
                            old(self)@.cells[i]
                        },
                ));
            }
            return ;
        }
        let blank = ScreenChar { ascii_character: SPACE, colour_code: self.colour_code };
        let mut col: usize = 0;
        while col < BUFFER_WIDTH
            invariant
                row < BUFFER_HEIGHT,
                col <= BUFFER_WIDTH,
                self@.wf(),
                self.column_position == old(self).column_position,
                self.colour_code == old(self).colour_code,
                blank == self::blank(self.colour_code),
                forall|i: int|
                    row * BUFFER_WIDTH <= i < row * BUFFER_WIDTH + col
                        ==> #[trigger] self.buffer@[i] == blank,
                forall|i: int|
                    0 <= i < BUFFER_HEIGHT * BUFFER_WIDTH && !(row * BUFFER_WIDTH <= i < row
                        * BUFFER_WIDTH + col) ==> #[trigger] self.buffer@[i] == old(
                        self,
                    ).buffer@[i],
            decreases BUFFER_WIDTH - col,
        {
            self.buffer[row * BUFFER_WIDTH + col] = blank;
            col += 1;
        }
        proof {
            assert(self.buffer@ =~= Seq::new(
                old(self)@.cells.len(),
                |i: int|
                    if row < BUFFER_HEIGHT && row * BUFFER_WIDTH <= i < (row + 1) * BUFFER_WIDTH {
                        self::blank(old(self)@.colour)
                    } else {
                        old(self)@.cells[i]
                    },
            ));
        }
    }
}

/// What is on the bottom row after a line feed was the row above it after a
/// line of text: writing a line and a line feed shows the line on the last
/// row but one.
pub proof fn lemma_new_line_moves_rows(screen: Screen, row: int, col: int)
    requires
        screen.wf(),
        0 <= row < BUFFER_HEIGHT,
        0 <= col < BUFFER_WIDTH,
    ensures
        screen.new_line().cell(row, col) == if row < BUFFER_HEIGHT - 1 {
            screen.cell(row + 1, col)
        } else {
            blank(screen.colour)
        },
        screen.new_line().wf(),
{
}

/// Writing a text in two parts is writing it in one.
pub proof fn lemma_write_in_parts(screen: Screen, first: Seq<u8>, second: Seq<u8>)
    ensures
        screen.write_string(first).write_string(second) == screen.write_string(first + second),
    decreases second.len(),
{
    if second.len() == 0 {
        assert(first + second =~= first);
    } else {
        assert((first + second).drop_last() =~= first + second.drop_last());
        lemma_write_in_parts(screen, first, second.drop_last());
    }
}

/// A byte that is written shows on the bottom row, in the column where the
/// writer stood, or in the first column if the row was full.
pub proof fn lemma_written_byte_shows(screen: Screen, byte: u8)
    requires
        screen.wf(),
        byte != LINE_FEED,
    ensures
        screen.write_byte(byte).wf(),
        screen.write_byte(byte).cell(
            BUFFER_HEIGHT - 1,
            if screen.column >= BUFFER_WIDTH {
                0
            } else {
                screen.column
            },
        ) == (ScreenChar { ascii_character: byte, colour_code: screen.colour }),
        screen.write_byte(byte).column == if screen.column >= BUFFER_WIDTH {
            1
        } else {
            screen.column + 1
        },
{
}

} // verus!
