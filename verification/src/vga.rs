//! The character-cell text console: colored ASCII cells in a rectangular
//! buffer, and a terminal that teletypes onto it. The cell grid models the
//! memory-mapped video buffer it is written through; mapping the grid onto
//! that memory is the platform's job.

use vstd::prelude::*;

verus! {

/// The sixteen text-mode colors.
#[derive(Clone, Copy, Debug)]
pub enum Color {
    Black,
    Blue,
    Green,
    Cyan,
    Red,
    Magenta,
    Brown,
    LightGray,
    DarkGray,
    LightBlue,
    LightGreen,
    LightCyan,
    LightRed,
    Pink,
    Yellow,
    White,
}

impl Color {
    /// The color's four-bit hardware code.
    pub open spec fn spec_code(self) -> u8 {
        match self {
            Color::Black => 0,
            Color::Blue => 1,
            Color::Green => 2,
            Color::Cyan => 3,
            Color::Red => 4,
            Color::Magenta => 5,
            Color::Brown => 6,
            Color::LightGray => 7,
            Color::DarkGray => 8,
            Color::LightBlue => 9,
            Color::LightGreen => 10,
            Color::LightCyan => 11,
            Color::LightRed => 12,
            Color::Pink => 13,
            Color::Yellow => 14,
            Color::White => 15,
        }
    }

    /// Returns the color's four-bit hardware code.
    pub fn code(&self) -> (r: u8)
        ensures
            r == self.spec_code(),
    {
        match self {
            Color::Black => 0,
            Color::Blue => 1,
            Color::Green => 2,
            Color::Cyan => 3,
            Color::Red => 4,
            Color::Magenta => 5,
            Color::Brown => 6,
            Color::LightGray => 7,
            Color::DarkGray => 8,
            Color::LightBlue => 9,
            Color::LightGreen => 10,
            Color::LightCyan => 11,
            Color::LightRed => 12,
            Color::Pink => 13,
            Color::Yellow => 14,
            Color::White => 15,
        }
    }
}

/// The packed color attribute: background code in the high four bits,
/// foreground code in the low four.
pub open spec fn spec_pack_color(fg_color: Color, bg_color: Color) -> u8 {
    (bg_color.spec_code() * 16 + fg_color.spec_code()) as u8
}

/// One character cell: an ASCII byte with its packed color attribute.
#[derive(Clone, Copy, Debug, PartialEq, Eq, Structural)]
pub struct CharWithColor {
    pub ascii: u8,
    pub color: u8,
}

impl CharWithColor {
    /// Packs a character with its foreground and background colors.
    pub fn new(ascii: u8, fg_color: Color, bg_color: Color) -> (r: CharWithColor)
        ensures
            r == (CharWithColor { ascii, color: spec_pack_color(fg_color, bg_color) }),
    {
        let bg = bg_color.code();
        let fg = fg_color.code();
        proof {
            assert(bg <= 15 && fg <= 15 ==> ((bg << 4u8) | fg) == bg * 16 + fg) by (bit_vector);
        }
        CharWithColor { ascii, color: (bg << 4u8) | fg }
    }
}

/// The blank cell that scrolling reveals on the last row.
pub open spec fn spec_blank_cell() -> CharWithColor {
    CharWithColor { ascii: 32, color: 0 }
}

/// The cell grid after scrolling up one row: every row takes the one below
/// it, and the last row is blanked.
pub open spec fn spec_scrolled(cells: Seq<CharWithColor>, width: int, height: int) -> Seq<
    CharWithColor,
> {
    Seq::new(
        cells.len(),
        |i: int|
            if i < (height - 1) * width {
                cells[i + width]
            } else {
                spec_blank_cell()
            },
    )
}

/// A rectangular text buffer which keeps colored ASCII characters. Written
/// through a memory-mapped window, it draws to the screen directly.
pub struct TextBuffer {
    width: u8,
    height: u8,
    cells: Vec<CharWithColor>,
}

impl TextBuffer {
    /// Columns per row.
    pub closed spec fn spec_width(self) -> int {
        self.width as int
    }

    /// Number of rows.
    pub closed spec fn spec_height(self) -> int {
        self.height as int
    }

    /// The cells, row by row.
    pub closed spec fn cells(self) -> Seq<CharWithColor> {
        self.cells@
    }

    /// The cell at a given column and row.
    pub open spec fn cell_at(self, column: int, row: int) -> CharWithColor {
        self.cells()[row * self.spec_width() + column]
    }

    /// The cell grid is exactly `height` rows of `width` cells.
    pub open spec fn wf(self) -> bool {
        self.cells().len() == self.spec_width() * self.spec_height()
    }

    /// Builds a buffer of the given dimensions with every cell set to `fill`.
    pub fn new(width: u8, height: u8, fill: CharWithColor) -> (r: TextBuffer)
        ensures
            r.wf(),
            r.spec_width() == width,
            r.spec_height() == height,
            forall|i: int| 0 <= i < r.cells().len() ==> r.cells()[i] == fill,
    {
        proof {
            lemma_u8_product_bound(width as int, height as int);
        }
        let count = (width as usize) * (height as usize);
        let mut cells: Vec<CharWithColor> = Vec::new();
        while cells.len() < count
            invariant
                cells@.len() <= count,
                forall|i: int| 0 <= i < cells@.len() ==> cells@[i] == fill,
            decreases count - cells@.len(),
        {
            cells.push(fill);
        }
        TextBuffer { width, height, cells }
    }

    /// Writes one colored character at the given position.
    pub fn set_char_and_color(&mut self, ascii: u8, column: u8, row: u8, fg_color: Color, bg_color: Color)
        requires
            old(self).wf(),
            column < old(self).spec_width(),
            row < old(self).spec_height(),
        ensures
            final(self).wf(),
            final(self).spec_width() == old(self).spec_width(),
            final(self).spec_height() == old(self).spec_height(),
            final(self).cells() == old(self).cells().update(
                row * old(self).spec_width() + column,
                (CharWithColor { ascii, color: spec_pack_color(fg_color, bg_color) }),
            ),
    {
        if !self.check_bounds(column, row) {
            return ;
        }
        let offset = self.get_offset(column, row);
        let cell = CharWithColor::new(ascii, fg_color, bg_color);
        self.cells[offset] = cell;
    }

    /// Moves every row one up; the top row is lost and the freed last row is
    /// cleared to blanks.
    pub fn scroll_up(&mut self)
        requires
            old(self).wf(),
            old(self).spec_width() >= 1,
            old(self).spec_height() >= 1,
        ensures
            final(self).wf(),
            final(self).spec_width() == old(self).spec_width(),
            final(self).spec_height() == old(self).spec_height(),
            final(self).cells() == spec_scrolled(
                old(self).cells(),
                old(self).spec_width(),
                old(self).spec_height(),
            ),
    {
        let w = self.width as usize;
        let total_cells = self.cells.len();
        let ghost wi = w as int;
        let ghost orig = self.cells@;
        let mut row: u8 = 0;
        while row < self.height - 1
            invariant
                self.wf(),
                self.width == old(self).width,
                self.height == old(self).height,
                self.height >= 1,
                self.width >= 1,
                self.cells@.len() == total_cells,
                w == self.width as int,
                wi == w as int,
                orig == old(self).cells@,
                row <= self.height - 1,
                forall|i: int|
                    0 <= i < self.cells@.len() ==> self.cells@[i] == if i < row * wi {
                        orig[i + wi]
                    } else {
                        orig[i]
                    },
            decreases self.height - 1 - row,
        {
            let mut column: u8 = 0;
            while column < self.width
                invariant
                    self.wf(),
                    self.width == old(self).width,
                    self.height == old(self).height,
                    self.height >= 1,
                    w == self.width as int,
                    wi == w as int,
                    orig == old(self).cells@,
                    row < self.height - 1,
                    column <= self.width,
                    forall|i: int|
                        0 <= i < self.cells@.len() ==> self.cells@[i] == if i < row * wi + column {
                            orig[i + wi]
                        } else {
                            orig[i]
                        },
                decreases self.width - column,
            {
                proof {
                    lemma_row_offset_bounds(row as int, column as int, wi, self.height as int);
                    lemma_row_offset_bounds(
                        row as int + 1,
                        column as int,
                        wi,
                        self.height as int,
                    );
                    lemma_u8_product_bound(wi, row as int);
                }
                let dst = w * (row as usize) + (column as usize);
                let moved = self.cells[dst + w];
                self.cells[dst] = moved;
                column += 1;
            }
            proof {
                assert((row + 1) * wi == row * wi + wi) by (nonlinear_arith);
            }
            row += 1;
        }

        /* Clear the last row. */
        let last_row = self.height - 1;
        let mut column: u8 = 0;
        while column < self.width
            invariant
                self.wf(),
                self.width == old(self).width,
                self.height == old(self).height,
                self.height >= 1,
                self.width >= 1,
                self.cells@.len() == total_cells,
                w == self.width as int,
                wi == w as int,
                orig == old(self).cells@,
                last_row == self.height - 1,
                column <= self.width,
                forall|i: int|
                    0 <= i < self.cells@.len() ==> self.cells@[i] == if i < last_row * wi {
                        orig[i + wi]
                    } else if i < last_row * wi + column {
                        spec_blank_cell()
                    } else {
                        orig[i]
                    },
            decreases self.width - column,
        {
            proof {
                lemma_row_offset_bounds(last_row as int, column as int, wi, self.height as int);
                lemma_u8_product_bound(wi, last_row as int);
            }
            let dst = w * (last_row as usize) + (column as usize);
            self.cells[dst] = CharWithColor::new(32, Color::Black, Color::Black);
            column += 1;
        }
        proof {
            assert(spec_pack_color(Color::Black, Color::Black) == 0);
            assert forall|i: int| 0 <= i < self.cells@.len() implies self.cells@[i]
                == spec_scrolled(orig, wi, self.height as int)[i] by {
                lemma_row_offset_bounds(
                    self.height as int - 1,
                    0,
                    wi,
                    self.height as int,
                );
            }
            assert(self.cells@ =~= spec_scrolled(orig, wi, self.height as int));
        }
    }

    /// Reads the cell at a position.
    pub fn char_at(&self, column: u8, row: u8) -> (r: CharWithColor)
        requires
            self.wf(),
            column < self.spec_width(),
            row < self.spec_height(),
        ensures
            r == self.cell_at(column as int, row as int),
    {
        let offset = self.get_offset(column, row);
        self.cells[offset]
    }

    /// Columns per row.
    pub fn width(&self) -> (r: u8)
        ensures
            r == self.spec_width(),
    {
        self.width
    }

    /// Number of rows.
    pub fn height(&self) -> (r: u8)
        ensures
            r == self.spec_height(),
    {
        self.height
    }

    /// Whether the position lies inside the buffer.
    fn check_bounds(&self, column: u8, row: u8) -> (r: bool)
        ensures
            r == (column < self.spec_width() && row < self.spec_height()),
    {
        column < self.width && row < self.height
    }

    /// The flat cell index of a position.
    fn get_offset(&self, column: u8, row: u8) -> (r: usize)
        requires
            self.wf(),
            column < self.spec_width(),
            row < self.spec_height(),
        ensures
            r == row * self.spec_width() + column,
            r < self.cells().len(),
    {
        proof {
            lemma_row_offset_bounds(
                row as int,
                column as int,
                self.spec_width(),
                self.spec_height(),
            );
            lemma_u8_product_bound(self.spec_width(), row as int);
        }
        (self.width as usize) * (row as usize) + (column as usize)
    }
}

/// Products of byte-sized dimensions stay far below the address-space limit.
proof fn lemma_u8_product_bound(a: int, b: int)
    requires
        0 <= a < 256,
        0 <= b < 256,
    ensures
        0 <= a * b <= 65025,
        a * b == b * a,
    {
    assert(0 <= a * b <= 65025 && a * b == b * a) by (nonlinear_arith)
        requires
            0 <= a < 256,
            0 <= b < 256,
    ;
}

/// A cell's flat index lies inside the grid, and one row further down starts
/// one width later.
proof fn lemma_row_offset_bounds(row: int, column: int, width: int, height: int)
    requires
        0 <= column < width,
        0 <= row < height,
    ensures
        0 <= row * width + column,
        row * width + column < height * width,
        row * width + column + width == (row + 1) * width + column,
        height * width == width * height,
        width * row == row * width,
    {
    assert(0 <= row * width + column && row * width + column < height * width)
        by (nonlinear_arith)
        requires
            0 <= column < width,
            0 <= row < height,
    ;
    assert(row * width + column + width == (row + 1) * width + column) by (nonlinear_arith);
    assert(height * width == width * height) by (nonlinear_arith);
    assert(width * row == row * width) by (nonlinear_arith);
}

/// Converts a text buffer into a terminal allowing teletyping on it.
pub struct Terminal {
    column: u8,
    row: u8,
    fg_color: Color,
    bg_color: Color,
    buffer: TextBuffer,
}

impl Terminal {
    /// Cursor column.
    pub closed spec fn spec_column(self) -> int {
        self.column as int
    }

    /// Cursor row.
    pub closed spec fn spec_row(self) -> int {
        self.row as int
    }

    /// Current foreground color.
    pub closed spec fn spec_fg_color(self) -> Color {
        self.fg_color
    }

    /// Current background color.
    pub closed spec fn spec_bg_color(self) -> Color {
        self.bg_color
    }

    /// The underlying buffer.
    pub closed spec fn spec_buffer(self) -> TextBuffer {
        self.buffer
    }

    /// The cursor stays strictly left of the last column and inside the rows;
    /// the buffer is at least two columns wide so a character always fits.
    pub open spec fn wf(self) -> bool {
        &&& self.spec_buffer().wf()
        &&& self.spec_buffer().spec_width() >= 2
        &&& self.spec_buffer().spec_height() >= 1
        &&& self.spec_column() < self.spec_buffer().spec_width() - 1
        &&& self.spec_row() < self.spec_buffer().spec_height()
    }

    /// Starts a terminal at the top left corner of the given buffer.
    pub fn new(buffer: TextBuffer, fg_color: Color, bg_color: Color) -> (r: Terminal)
        requires
            buffer.wf(),
            buffer.spec_width() >= 2,
            buffer.spec_height() >= 1,
        ensures
            r.wf(),
            r.spec_column() == 0,
            r.spec_row() == 0,
            r.spec_fg_color() == fg_color,
            r.spec_bg_color() == bg_color,
            r.spec_buffer() == buffer,
    {
        Terminal { column: 0, row: 0, fg_color, bg_color, buffer }
    }

    /// Hands out the underlying buffer for direct drawing.
    pub fn buffer(&mut self) -> (r: &mut TextBuffer)
        ensures
            *r == old(self).spec_buffer(),
            final(self).spec_buffer() == *final(r),
            final(self).spec_column() == old(self).spec_column(),
            final(self).spec_row() == old(self).spec_row(),
            final(self).spec_fg_color() == old(self).spec_fg_color(),
            final(self).spec_bg_color() == old(self).spec_bg_color(),
    {
        &mut self.buffer
    }

    /// Teletypes one byte: a newline moves to the next line (scrolling on the
    /// last row), any other byte is drawn at the cursor in the current colors
    /// and the cursor advances, wrapping before the last column.
    pub fn write_ascii(&mut self, ascii: u8)
        requires
            old(self).wf(),
        ensures
            final(self).wf(),
            final(self).spec_fg_color() == old(self).spec_fg_color(),
            final(self).spec_bg_color() == old(self).spec_bg_color(),
            final(self).spec_buffer().spec_width() == old(self).spec_buffer().spec_width(),
            final(self).spec_buffer().spec_height() == old(self).spec_buffer().spec_height(),
            ascii == 10 ==> final(self).spec_column() == 0 && final(self).spec_buffer().cells()
                == spec_after_line_feed(*old(self)) && final(self).spec_row()
                == spec_row_after_line_feed(*old(self)),
            ascii != 10 ==> {
                let written = old(self).spec_buffer().cells().update(
                    old(self).spec_row() * old(self).spec_buffer().spec_width() + old(
                        self,
                    ).spec_column(),
                    (CharWithColor {
                        ascii,
                        color: spec_pack_color(
                            old(self).spec_fg_color(),
                            old(self).spec_bg_color(),
                        ),
                    }),
                );
                if old(self).spec_column() + 2 < old(self).spec_buffer().spec_width() {
                    &&& final(self).spec_column() == old(self).spec_column() + 1
                    &&& final(self).spec_row() == old(self).spec_row()
                    &&& final(self).spec_buffer().cells() == written
                } else if old(self).spec_row() + 1 < old(self).spec_buffer().spec_height() {
                    &&& final(self).spec_column() == 0
                    &&& final(self).spec_row() == old(self).spec_row() + 1
                    &&& final(self).spec_buffer().cells() == written
                } else {
                    &&& final(self).spec_column() == 0
                    &&& final(self).spec_row() == old(self).spec_row()
                    &&& final(self).spec_buffer().cells() == spec_scrolled(
                        written,
                        old(self).spec_buffer().spec_width(),
                        old(self).spec_buffer().spec_height(),
                    )
                }
            },
    {
        if ascii == 10 {
            self.cr_lf();
        } else {
            let column = self.column;
            let row = self.row;
            let fg_color = self.fg_color;
            let bg_color = self.bg_color;
            self.buffer.set_char_and_color(ascii, column, row, fg_color, bg_color);
            self.advance_cursor();
        }
    }

    /// Moves the cursor to the start of the next line, scrolling the buffer
    /// when the cursor already sits on the last row.
    pub fn cr_lf(&mut self)
        requires
            old(self).spec_buffer().wf(),
            old(self).spec_buffer().spec_width() >= 2,
            old(self).spec_buffer().spec_height() >= 1,
            old(self).spec_row() < old(self).spec_buffer().spec_height(),
        ensures
            final(self).wf(),
            final(self).spec_fg_color() == old(self).spec_fg_color(),
            final(self).spec_bg_color() == old(self).spec_bg_color(),
            final(self).spec_buffer().spec_width() == old(self).spec_buffer().spec_width(),
            final(self).spec_buffer().spec_height() == old(self).spec_buffer().spec_height(),
            final(self).spec_column() == 0,
            final(self).spec_row() == spec_row_after_line_feed(*old(self)),
            final(self).spec_buffer().cells() == spec_after_line_feed(*old(self)),
    {
        self.column = 0;
        if self.row >= self.buffer.height() - 1 {
            self.buffer.scroll_up();
        } else {
            self.row = self.row + 1;
        }
    }

    /// Moves the cursor one cell right, wrapping to a fresh line before the
    /// last column.
    fn advance_cursor(&mut self)
        requires
            old(self).spec_buffer().wf(),
            old(self).spec_buffer().spec_width() >= 2,
            old(self).spec_buffer().spec_height() >= 1,
            old(self).spec_column() < old(self).spec_buffer().spec_width() - 1,
            old(self).spec_row() < old(self).spec_buffer().spec_height(),
        ensures
            final(self).wf(),
            final(self).spec_fg_color() == old(self).spec_fg_color(),
            final(self).spec_bg_color() == old(self).spec_bg_color(),
            final(self).spec_buffer().spec_width() == old(self).spec_buffer().spec_width(),
            final(self).spec_buffer().spec_height() == old(self).spec_buffer().spec_height(),
            if old(self).spec_column() + 2 < old(self).spec_buffer().spec_width() {
                &&& final(self).spec_column() == old(self).spec_column() + 1
                &&& final(self).spec_row() == old(self).spec_row()
                &&& final(self).spec_buffer() == old(self).spec_buffer()
            } else {
                &&& final(self).spec_column() == 0
                &&& final(self).spec_row() == spec_row_after_line_feed(*old(self))
                &&& final(self).spec_buffer().cells() == spec_after_line_feed(*old(self))
            },
    {
        self.column = self.column + 1;
        if self.column >= self.buffer.width() - 1 {
            self.cr_lf();
        }
    }
}

/// The cursor row after a line feed: one further down, or unchanged on the
/// last row (where the buffer scrolls instead).
pub open spec fn spec_row_after_line_feed(t: Terminal) -> int {
    if t.spec_row() + 1 < t.spec_buffer().spec_height() {
        t.spec_row() + 1
    } else {
        t.spec_row()
    }
}

/// The buffer's cells after a line feed: unchanged, except on the last row,
/// where the buffer scrolls up.
pub open spec fn spec_after_line_feed(t: Terminal) -> Seq<CharWithColor> {
    if t.spec_row() + 1 < t.spec_buffer().spec_height() {
        t.spec_buffer().cells()
    } else {
        spec_scrolled(
            t.spec_buffer().cells(),
            t.spec_buffer().spec_width(),
            t.spec_buffer().spec_height(),
        )
    }
}

} // verus!
