//! The text shown on a legacy VGA display.
//!
//! The writer keeps the characters of the screen, row by row; the
//! architecture code copies them to the VGA buffer at 0xb8000.

use vstd::prelude::*;
use vstd::string::StringSliceAdditionalSpecFns;

verus! {

/// Represents a color in the buffer.
#[derive(Clone, Copy, Debug, PartialEq, Eq, Structural)]
pub enum Color {
    Black,
    Blue,
    Green,
    Cyan,
    Red,
    Magenta,
    Brown,
    LightGray,
    DarkGray,
    LightBlue,
    LightGreen,
    LightCyan,
    LightRed,
    Pink,
    Yellow,
    White,
}

/// The number a color has in the VGA buffer.
pub open spec fn color_number(color: Color) -> u8 {
    match color {
        Color::Black => 0,
        Color::Blue => 1,
        Color::Green => 2,
        Color::Cyan => 3,
        Color::Red => 4,
        Color::Magenta => 5,
        Color::Brown => 6,
        Color::LightGray => 7,
        Color::DarkGray => 8,
        Color::LightBlue => 9,
        Color::LightGreen => 10,
        Color::LightCyan => 11,
        Color::LightRed => 12,
        Color::Pink => 13,
        Color::Yellow => 14,
        Color::White => 15,
    }
}

impl Color {
    /// Returns the number of the color in the VGA buffer.
    pub fn number(self) -> (r: u8)
        ensures
            r == color_number(self),
            r < 16,
    {
        match self {
            Color::Black => 0,
            Color::Blue => 1,
            Color::Green => 2,
            Color::Cyan => 3,
            Color::Red => 4,
            Color::Magenta => 5,
            Color::Brown => 6,
            Color::LightGray => 7,
            Color::DarkGray => 8,
            Color::LightBlue => 9,
            Color::LightGreen => 10,
            Color::LightCyan => 11,
            Color::LightRed => 12,
            Color::Pink => 13,
            Color::Yellow => 14,
            Color::White => 15,
        }
    }
}

/// The VGA text mode palette: each color has its fixed number, from black
/// at 0 to white at 15; the light variant of each of the first eight colors
/// is that color's number plus 8; and a color code holds the background's
/// number in its high four bits and the foreground's in its low four bits.
pub proof fn lemma_vga_palette(foreground: Color, background: Color)
    ensures
        color_number(Color::Black) == 0,
        color_number(Color::Blue) == 1,
        color_number(Color::Green) == 2,
        color_number(Color::Cyan) == 3,
        color_number(Color::Red) == 4,
        color_number(Color::Magenta) == 5,
        color_number(Color::Brown) == 6,
        color_number(Color::LightGray) == 7,
        color_number(Color::DarkGray) == 8,
        color_number(Color::LightBlue) == 9,
        color_number(Color::LightGreen) == 10,
        color_number(Color::LightCyan) == 11,
        color_number(Color::LightRed) == 12,
        color_number(Color::Pink) == 13,
        color_number(Color::Yellow) == 14,
        color_number(Color::White) == 15,
        color_number(foreground) < 16,
        color_number(background) < 16,
        (color_number(background) * 16 + color_number(foreground)) / 16 == color_number(background),
        (color_number(background) * 16 + color_number(foreground)) % 16 == color_number(foreground),
{
}

/// A color code: the background color in the high four bits, the
/// foreground color in the low four bits.
#[derive(Clone, Copy, Debug, PartialEq, Eq, Structural)]
pub struct ColorCode(pub u8);

impl ColorCode {
    /// Creates a color code.
    pub fn new(foreground: Color, background: Color) -> (r: ColorCode)
        ensures
            r.0 == color_number(background) * 16 + color_number(foreground),
    {
        let b = background.number();
        let f = foreground.number();
        assert((b << 4u8) | f == b * 16 + f) by (bit_vector)
            requires
                b < 16,
                f < 16,
        ;
        ColorCode((b << 4u8) | f)
    }
}

/// Represents a character in the buffer.
#[derive(Clone, Copy, Debug, PartialEq, Eq, Structural)]
pub struct ScreenChar {
    /// The ASCII character represented.
    pub character: u8,
    /// The color code of the character represented.
    pub color_code: ColorCode,
}

/// Contains basic buffer information, as the boot loader tells it.
#[derive(Clone, Copy, Debug)]
pub struct Info {
    /// The number of rows.
    pub height: u64,
    /// The number of columns.
    pub width: u64,
    /// The address of the buffer.
    pub address: u64,
}

/// A space in the given colors.
pub open spec fn blank(color_code: ColorCode) -> ScreenChar {
    ScreenChar { character: 32, color_code }
}

/// The screen with every line moved up by one and the last line cleared.
pub open spec fn scrolled(cells: Seq<ScreenChar>, width: int, height: int, color_code: ColorCode) -> Seq<ScreenChar> {
    Seq::new(
        (width * height) as nat,
        |i: int|
            if i < (height - 1) * width {
                cells[i + width]
            } else {
                blank(color_code)
            },
    )
}

/// The state of a screen as plain values: its characters, the position,
/// its size and the colors written with.
pub struct ScreenModel {
    /// The characters, row by row.
    pub cells: Seq<ScreenChar>,
    /// The current row.
    pub row: u64,
    /// The current column.
    pub column: u64,
    /// The number of columns.
    pub width: u64,
    /// The number of rows.
    pub height: u64,
    /// The colors written with.
    pub color_code: ColorCode,
}

/// The screen after a new line: the position moves to the start of the
/// next row; on the last row the screen first scrolls up by one line.
pub open spec fn after_new_line(m: ScreenModel) -> ScreenModel {
    if m.row >= m.height - 1 {
        ScreenModel {
            cells: scrolled(m.cells, m.width as int, m.height as int, m.color_code),
            row: (m.height - 1) as u64,
            column: 0,
            ..m
        }
    } else {
        ScreenModel { row: (m.row + 1) as u64, column: 0, ..m }
    }
}

/// The screen after writing a byte: a newline starts a new line; another
/// byte goes at the position, on a new line if the row is full, and the
/// position moves one column on.
pub open spec fn after_char(m: ScreenModel, byte: u8) -> ScreenModel {
    if byte == 10 {
        after_new_line(m)
    } else {
        let n = if m.column >= m.width { after_new_line(m) } else { m };
        ScreenModel {
            cells: n.cells.update(n.row * n.width + n.column, ScreenChar { character: byte, color_code: m.color_code }),
            column: (n.column + 1) as u64,
            ..n
        }
    }
}

/// The screen after writing the bytes one by one.
pub open spec fn after_bytes(m: ScreenModel, bytes: Seq<u8>) -> ScreenModel
    decreases bytes.len(),
{
    if bytes.len() == 0 {
        m
    } else {
        after_char(after_bytes(m, bytes.drop_last()), bytes.last())
    }
}

/// The writer is used to write to a legacy VGA display buffer.
pub struct Writer {
    /// The current column position.
    pub column_position: u64,
    /// The current row position.
    pub row_position: u64,
    /// The color code used throughout the buffer.
    pub color_code: ColorCode,
    /// The number of columns.
    pub width: u64,
    /// The number of rows.
    pub height: u64,
    /// The characters on the screen, row by row.
    pub cells: Vec<ScreenChar>,
}

proof fn lemma_cell_index(row: int, column: int, width: int, height: int)
    requires
        0 <= row < height,
        0 <= column < width,
    ensures
        0 <= row * width,
        row * width + width == (row + 1) * width,
        (row + 1) * width <= width * height,
        0 <= row * width + column < width * height,
{
    lemma_row_bounds(row, width, height);
    lemma_row_bounds(row + 1, width, height);
}

/// Facts on the start of row `row` of a screen `width` cells wide and
/// `height` rows high.
proof fn lemma_row_bounds(row: int, width: int, height: int)
    requires
        0 <= row <= height,
        0 <= width,
    ensures
        0 <= row * width <= width * height,
        row * width + width == (row + 1) * width,
        row > 0 ==> (row - 1) * width + width == row * width,
        height * width == width * height,
{
    assert(0 <= row * width) by (nonlinear_arith)
        requires
            0 <= row,
            0 <= width,
    ;
    assert(row * width <= height * width) by (nonlinear_arith)
        requires
            row <= height,
            0 <= width,
    ;
    assert(height * width == width * height) by (nonlinear_arith);
    assert(row * width + width == (row + 1) * width) by (nonlinear_arith);
    assert((row - 1) * width + width == row * width) by (nonlinear_arith);
}

impl Writer {
    /// The screen has at least two rows, its cells fit in memory, and the
    /// position lies on it.
    pub open spec fn wf(&self) -> bool {
        &&& self.height >= 2
        &&& self.width >= 1
        &&& self.width * self.height <= usize::MAX
        &&& self.cells@.len() == self.width * self.height
        &&& self.row_position < self.height
        &&& self.column_position <= self.width
    }

    /// The state of the screen as plain values.
    pub open spec fn model(&self) -> ScreenModel {
        ScreenModel {
            cells: self.cells@,
            row: self.row_position,
            column: self.column_position,
            width: self.width,
            height: self.height,
            color_code: self.color_code,
        }
    }

    /// The index of the cell at the given row and column.
    pub open spec fn index(&self, row: int, column: int) -> int {
        row * self.width + column
    }

    /// Creates a writer for a screen of the given size, cleared.
    pub fn new(width: u64, height: u64, color_code: ColorCode) -> (r: Writer)
        requires
            height >= 2,
            width >= 1,
            width * height <= usize::MAX,
        ensures
            r.wf(),
            r.width == width,
            r.height == height,
            r.color_code == color_code,
            r.row_position == 0,
            r.column_position == 0,
            r.cells@ == Seq::new((width * height) as nat, |i: int| blank(color_code)),
    {
        assert(width * height <= u64::MAX) by (nonlinear_arith)
            requires
                width * height <= usize::MAX,
        ;
        let size = (width * height) as usize;
        let cells = vec![ScreenChar { character: 32, color_code }; size];
        let r = Writer { column_position: 0, row_position: 0, color_code, width, height, cells };
        assert(r.cells@ =~= Seq::new((width * height) as nat, |i: int| blank(color_code)));
        r
    }

    /// Writes a character at the given row and column.
    fn put(&mut self, row: u64, column: u64, character: ScreenChar)
        requires
            old(self).wf(),
            row < old(self).height,
            column < old(self).width,
        ensures
            final(self).wf(),
            *final(self) == (Writer { cells: final(self).cells, ..*old(self) }),
            final(self).cells@ == old(self).cells@.update(old(self).index(row as int, column as int), character),
    {
        proof {
            lemma_cell_index(row as int, column as int, self.width as int, self.height as int);
        }
        let index = (row * self.width + column) as usize;
        self.cells.set(index, character);
    }

    /// Writes the given character to the buffer: a newline starts a new
    /// line; another character goes at the current position, on a new line
    /// if the current one is full.
    pub fn write_char(&mut self, byte: u8)
        requires
            old(self).wf(),
        ensures
            final(self).wf(),
            final(self).model() == after_char(old(self).model(), byte),
            final(self).width == old(self).width,
            final(self).height == old(self).height,
            final(self).color_code == old(self).color_code,
            byte == 10 ==> {
                &&& final(self).cells@ == old(self).new_line_cells()
                &&& final(self).row_position == old(self).new_line_row()
                &&& final(self).column_position == 0
            },
            byte != 10 && old(self).column_position >= old(self).width ==> {
                &&& final(self).cells@ == old(self).new_line_cells().update(
                    old(self).new_line_row() * old(self).width,
                    ScreenChar { character: byte, color_code: old(self).color_code },
                )
                &&& final(self).row_position == old(self).new_line_row()
                &&& final(self).column_position == 1
            },
            byte != 10 && old(self).column_position < old(self).width ==> {
                &&& final(self).cells@ == old(self).cells@.update(
                    old(self).index(old(self).row_position as int, old(self).column_position as int),
                    ScreenChar { character: byte, color_code: old(self).color_code },
                )
                &&& final(self).row_position == old(self).row_position
                &&& final(self).column_position == old(self).column_position + 1
            },
    {
        if byte == 10 {
            self.new_line();
        } else {
            if self.column_position >= self.width {
                self.new_line();
            }
            let column_position = self.column_position;
            let row_position = self.row_position;
            let color_code = self.color_code;
            self.put(row_position, column_position, ScreenChar { character: byte, color_code });
            self.column_position = self.column_position + 1;
        }
    }

    /// Writes the bytes of the given string to the buffer, one by one.
    pub fn write_string(&mut self, string: &str)
        requires
            old(self).wf(),
        ensures
            final(self).wf(),
            final(self).model() == after_bytes(old(self).model(), string.spec_bytes()),
            final(self).width == old(self).width,
            final(self).height == old(self).height,
            final(self).color_code == old(self).color_code,
    {
        let bytes = string.as_bytes();
        let n = bytes.len();
        let mut i: usize = 0;
        while i < n
            invariant
                n == bytes@.len(),
                0 <= i <= n,
                self.wf(),
                self.width == old(self).width,
                self.height == old(self).height,
                self.color_code == old(self).color_code,
                bytes@ == string.spec_bytes(),
                self.model() == after_bytes(old(self).model(), bytes@.take(i as int)),
            decreases n - i,
        {
            proof {
                assert(bytes@.take(i + 1).drop_last() =~= bytes@.take(i as int));
            }
            self.write_char(bytes[i]);
            i = i + 1;
        }
        assert(bytes@.take(n as int) =~= bytes@);
    }

    /// The cells after a new line: on the last line the screen scrolls up
    /// by one line.
    pub open spec fn new_line_cells(&self) -> Seq<ScreenChar> {
        if self.row_position >= self.height - 1 {
            scrolled(self.cells@, self.width as int, self.height as int, self.color_code)
        } else {
            self.cells@
        }
    }

    /// The row after a new line: the next one, or the last one again after
    /// scrolling.
    pub open spec fn new_line_row(&self) -> u64 {
        if self.row_position >= self.height - 1 {
            (self.height - 1) as u64
        } else {
            (self.row_position + 1) as u64
        }
    }

    /// Starts a new line.
    fn new_line(&mut self)
        requires
            old(self).wf(),
        ensures
            final(self).wf(),
            final(self).width == old(self).width,
            final(self).height == old(self).height,
            final(self).color_code == old(self).color_code,
            final(self).row_position == old(self).new_line_row(),
            final(self).column_position == 0,
            final(self).cells@ == old(self).new_line_cells(),
    {
        let height = self.height;
        if self.row_position >= height - 1 {
            let ghost before = self.cells@;
            let mut i: u64 = 1;
            while i < height
                invariant
                    self.wf(),
                    height == self.height,
                    self.width == old(self).width,
                    self.height == old(self).height,
                    self.color_code == old(self).color_code,
                    self.row_position == old(self).row_position,
                    self.column_position == old(self).column_position,
                    before == old(self).cells@,
                    1 <= i <= height,
                    forall|j: int| 0 <= j < (i - 1) * self.width ==> #[trigger] self.cells@[j] == before[j + self.width],
                    forall|j: int| (i - 1) * self.width <= j < self.width * self.height ==> #[trigger] self.cells@[j]
                        == before[j],
                decreases height - i,
            {
                proof {
                    lemma_row_bounds(i as int, self.width as int, self.height as int);
                    lemma_row_bounds(i - 1, self.width as int, self.height as int);
                    lemma_row_bounds(i + 1, self.width as int, self.height as int);
                }
                let ghost mid = self.cells@;
                self.shift_line(i);
                proof {
                    assert forall|j: int| 0 <= j < i * self.width implies #[trigger] self.cells@[j] == before[j
                        + self.width] by {
                        if j >= (i - 1) * self.width {
                            assert(self.cells@[j] == mid[j + self.width]);
                            assert(mid[j + self.width] == before[j + self.width]);
                        }
                    }
                }
                i = i + 1;
            }
            proof {
                lemma_row_bounds((height - 1) as int, self.width as int, self.height as int);
            }
            self.row_position = height - 2;
            let ghost shifted = self.cells@;
            self.clear_line(height - 1);
            proof {
                let w = self.width as int;
                let h = self.height as int;
                assert forall|j: int| 0 <= j < w * h implies #[trigger] self.cells@[j] == scrolled(
                    before,
                    w,
                    h,
                    self.color_code,
                )[j] by {
                    if j < (h - 1) * w {
                        assert(self.cells@[j] == shifted[j]);
                        assert(shifted[j] == before[j + w]);
                    }
                }
                assert(self.cells@ =~= scrolled(before, w, h, self.color_code));
            }
        }
        self.row_position = self.row_position + 1;
        self.column_position = 0;
    }

    /// Copies the given line one line up.
    fn shift_line(&mut self, line: u64)
        requires
            old(self).wf(),
            1 <= line < old(self).height,
        ensures
            final(self).wf(),
            *final(self) == (Writer { cells: final(self).cells, ..*old(self) }),
            forall|j: int| 0 <= j < old(self).width * old(self).height ==> #[trigger] final(self).cells@[j] == if (
            line - 1) * old(self).width <= j < line * old(self).width {
                old(self).cells@[j + old(self).width]
            } else {
                old(self).cells@[j]
            },
    {
        let width = self.width;
        let mut i: u64 = 0;
        proof {
            lemma_cell_index(line as int, 0, width as int, self.height as int);
            assert((line - 1) * width + width == line * width) by (nonlinear_arith);
        }
        while i < width
            invariant
                self.wf(),
                width == self.width,
                1 <= line < self.height,
                *self == (Writer { cells: self.cells, ..*old(self) }),
                0 <= i <= width,
                (line - 1) * width + width == line * width,
                line * width + width <= width * self.height,
                forall|j: int| 0 <= j < width * self.height ==> #[trigger] self.cells@[j] == if (line - 1) * width <= j
                    < (line - 1) * width + i {
                    old(self).cells@[j + width]
                } else {
                    old(self).cells@[j]
                },
            decreases width - i,
        {
            let index = (line * width + i) as usize;
            let char_below = self.cells[index];
            assert(char_below == old(self).cells@[(line - 1) * width + i + width]);
            self.put(line - 1, i, char_below);
            i = i + 1;
        }
    }

    /// Clears the given line.
    fn clear_line(&mut self, line: u64)
        requires
            old(self).wf(),
            line < old(self).height,
        ensures
            final(self).wf(),
            *final(self) == (Writer { cells: final(self).cells, ..*old(self) }),
            forall|j: int| 0 <= j < old(self).width * old(self).height ==> #[trigger] final(self).cells@[j] == if line
                * old(self).width <= j < line * old(self).width + old(self).width {
                blank(old(self).color_code)
            } else {
                old(self).cells@[j]
            },
    {
        let width = self.width;
        let space = ScreenChar { character: 32, color_code: self.color_code };
        proof {
            lemma_cell_index(line as int, 0, width as int, self.height as int);
        }
        let mut i: u64 = 0;
        while i < width
            invariant
                self.wf(),
                width == self.width,
                line < self.height,
                space == blank(self.color_code),
                *self == (Writer { cells: self.cells, ..*old(self) }),
                0 <= i <= width,
                forall|j: int| 0 <= j < width * self.height ==> #[trigger] self.cells@[j] == if line * width <= j < line
                    * width + i {
                    space
                } else {
                    old(self).cells@[j]
                },
            decreases width - i,
        {
            proof {
                lemma_cell_index(line as int, i as int, width as int, self.height as int);
            }
            self.put(line, i, space);
            i = i + 1;
        }
    }

    /// Clears the whole screen and moves to its start.
    pub fn clear_screen(&mut self)
        requires
            old(self).wf(),
        ensures
            final(self).wf(),
            final(self).width == old(self).width,
            final(self).height == old(self).height,
            final(self).color_code == old(self).color_code,
            final(self).row_position == 0,
            final(self).column_position == 0,
            final(self).cells@ == Seq::new((old(self).width * old(self).height) as nat, |i: int| blank(old(self).color_code)),
    {
        let height = self.height;
        let mut i: u64 = 0;
        while i < height
            invariant
                self.wf(),
                height == self.height,
                self.width == old(self).width,
                self.color_code == old(self).color_code,
                self.row_position == old(self).row_position,
                self.column_position == old(self).column_position,
                0 <= i <= height,
                forall|j: int| 0 <= j < i * self.width ==> #[trigger] self.cells@[j] == blank(self.color_code),
            decreases height - i,
        {
            proof {
                lemma_row_bounds(i as int, self.width as int, self.height as int);
                lemma_row_bounds(i + 1, self.width as int, self.height as int);
            }
            let ghost mid = self.cells@;
            self.clear_line(i);
            proof {
                assert forall|j: int| 0 <= j < (i + 1) * self.width implies #[trigger] self.cells@[j] == blank(
                    self.color_code,
                ) by {
                    if j < i * self.width {
                        assert(self.cells@[j] == mid[j]);
                    }
                }
            }
            i = i + 1;
        }
        proof {
            lemma_row_bounds(height as int, self.width as int, self.height as int);
        }
        self.column_position = 0;
        self.row_position = 0;
        proof {
            assert(self.cells@ =~= Seq::new((self.width * self.height) as nat, |i: int| blank(self.color_code)));
        }
    }

    /// Takes the size of the screen from the boot information; the screen
    /// is blank afterwards until something is written.
    pub fn init(&mut self, info: Info)
        requires
            info.height >= 2,
            info.width >= 1,
            info.width * info.height <= usize::MAX,
            old(self).row_position < info.height,
            old(self).column_position <= info.width,
        ensures
            final(self).wf(),
            final(self).width == info.width,
            final(self).height == info.height,
            final(self).color_code == old(self).color_code,
            final(self).row_position == old(self).row_position,
            final(self).column_position == old(self).column_position,
            final(self).cells@ == Seq::new((info.width * info.height) as nat, |i: int| blank(old(self).color_code)),
    {
        let fresh = Writer::new(info.width, info.height, self.color_code);
        self.width = fresh.width;
        self.height = fresh.height;
        self.cells = fresh.cells;
    }
}

} // verus!
