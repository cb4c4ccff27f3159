use vstd::prelude::*;
use vstd::string::StringSliceAdditionalSpecFns;
use vstd::utf8::encode_utf8;

verus! {

/// The sixteen colours of the VGA text mode.
#[derive(Debug, Clone, Copy, PartialEq, Eq, Structural)]
pub enum Color {
    Black,
    Blue,
    Green,
    Cyan,
    Red,
    Magenta,
    Brown,
    LightGray,
    DarkGray,
    LightBlue,
    LightGreen,
    LightCyan,
    LightRed,
    Pink,
    Yellow,
    White,
}

/// The 4-bit VGA code of a colour.
pub open spec fn color_value(c: Color) -> u8 {
    match c {
        Color::Black => 0,
        Color::Blue => 1,
        Color::Green => 2,
        Color::Cyan => 3,
        Color::Red => 4,
        Color::Magenta => 5,
        Color::Brown => 6,
        Color::LightGray => 7,
        Color::DarkGray => 8,
        Color::LightBlue => 9,
        Color::LightGreen => 10,
        Color::LightCyan => 11,
        Color::LightRed => 12,
        Color::Pink => 13,
        Color::Yellow => 14,
        Color::White => 15,
    }
}

impl Color {
    /// The 4-bit VGA code of the colour.
    pub fn value(self) -> (v: u8)
        ensures
            v == color_value(self),
            v < 16,
    {
        match self {
            Color::Black => 0,
            Color::Blue => 1,
            Color::Green => 2,
            Color::Cyan => 3,
            Color::Red => 4,
            Color::Magenta => 5,
            Color::Brown => 6,
            Color::LightGray => 7,
            Color::DarkGray => 8,
            Color::LightBlue => 9,
            Color::LightGreen => 10,
            Color::LightCyan => 11,
            Color::LightRed => 12,
            Color::Pink => 13,
            Color::Yellow => 14,
            Color::White => 15,
        }
    }
}

/// A foreground and a background colour in one attribute byte.
#[derive(Debug, Clone, Copy, PartialEq, Eq, Structural)]
pub struct ColorCode(pub u8);

impl ColorCode {
    /// The attribute byte: background in the high four bits, foreground in
    /// the low four.
    pub fn new(foreground: Color, background: Color) -> (c: ColorCode)
        ensures
            c.0 == (color_value(background) << 4u8) | color_value(foreground),
            c.0 == color_value(background) * 16 + color_value(foreground),
    {
        let fg = foreground.value();
        let bg = background.value();
        assert((bg << 4u8) | fg == bg * 16 + fg) by (bit_vector)
            requires
                fg < 16u8,
                bg < 16u8,
        ;
        ColorCode(bg << 4 | fg)
    }
}

/// A character cell of the screen: a code page 437 byte and its colours.
#[derive(Debug, Clone, Copy, PartialEq, Eq, Structural)]
pub struct ScreenChar {
    pub ascii_character: u8,
    pub color_code: ColorCode,
}

/// Rows of the screen.
pub const BUFFER_HEIGHT: usize = 25;

/// Columns of the screen.
pub const BUFFER_WIDTH: usize = 80;

/// A write of `ch` to the cell at `row`, `col` of the screen buffer.
#[derive(Debug, Clone, Copy, PartialEq, Eq, Structural)]
pub struct CellWrite {
    pub row: usize,
    pub col: usize,
    pub ch: ScreenChar,
}

/// The byte the writer shows for `b`: printable ASCII and newline as they
/// are, anything else as the block character 0xfe.
pub open spec fn shown_byte(b: u8) -> u8 {
    if (0x20 <= b && b <= 0x7e) || b == 0x0a {
        b
    } else {
        0xfe
    }
}

/// How many of the bytes are shown as a character (not newlines).
pub open spec fn non_newline_count(bs: Seq<u8>) -> nat
    decreases bs.len(),
{
    if bs.len() == 0 {
        0
    } else {
        non_newline_count(bs.drop_last()) + if bs.last() == 0x0a {
            0nat
        } else {
            1nat
        }
    }
}

/// The cell writes for the bytes `bs`, starting at column `col`: each
/// shown byte other than a newline goes to the last row, one column further
/// each time.
pub open spec fn string_cells(col: int, color: ColorCode, bs: Seq<u8>) -> Seq<CellWrite>
    decreases bs.len(),
{
    if bs.len() == 0 {
        Seq::empty()
    } else {
        let prev = string_cells(col, color, bs.drop_last());
        if bs.last() == 0x0a {
            prev
        } else {
            prev.push(
                CellWrite {
                    row: (BUFFER_HEIGHT - 1) as usize,
                    col: (col + non_newline_count(bs.drop_last())) as usize,
                    ch: ScreenChar { ascii_character: shown_byte(bs.last()), color_code: color },
                },
            )
        }
    }
}

/// Writes text on the last row of the screen: it tracks the cursor column
/// and the colours and says which screen cell each byte goes to.
pub struct Writer {
    column_position: usize,
    color_code: ColorCode,
}

impl Writer {
    /// Column of the cursor on the last row.
    pub closed spec fn column(&self) -> int {
        self.column_position as int
    }

    /// Colours of the text.
    pub closed spec fn color(&self) -> ColorCode {
        self.color_code
    }

    /// A writer at column 0 writing in `color_code`.
    pub fn new(color_code: ColorCode) -> (w: Writer)
        ensures
            w.column() == 0,
            w.color() == color_code,
    {
        Writer { column_position: 0, color_code }
    }

    /// Column of the cursor on the last row.
    pub fn column_position(&self) -> (c: usize)
        ensures
            c == self.column(),
    {
        self.column_position
    }

    /// Starts a new line. Nothing is done: the screen does not scroll and the
    /// cursor stays where it is.
    fn new_line(&mut self)
        ensures
            *final(self) == *old(self),
    {
    }

    /// Writes one byte: a newline writes nothing; any other byte goes to the
    /// cursor's cell on the last row, and the cursor moves right. There must
    /// be room on the row for it.
    pub fn write_byte(&mut self, byte: u8) -> (w: Option<CellWrite>)
        requires
            byte == 0x0a || old(self).column() < BUFFER_WIDTH,
        ensures
            final(self).color() == old(self).color(),
            byte == 0x0a ==> w is None && final(self).column() == old(self).column(),
            byte != 0x0a ==> w == Some(
                CellWrite {
                    row: (BUFFER_HEIGHT - 1) as usize,
                    col: old(self).column() as usize,
                    ch: ScreenChar { ascii_character: byte, color_code: old(self).color() },
                },
            ) && final(self).column() == old(self).column() + 1,
    {
        if byte == 0x0a {
            self.new_line();
            None
        } else {
            if self.column_position > BUFFER_WIDTH {
                self.new_line();
            }
            let row = BUFFER_HEIGHT - 1;
            let col = self.column_position;
            let color_code = self.color_code;
            self.column_position = self.column_position + 1;
            Some(CellWrite { row, col, ch: ScreenChar { ascii_character: byte, color_code } })
        }
    }

    /// Writes a string byte by byte, showing bytes other than printable
    /// ASCII and newline as 0xfe; returns the cell writes in order. The
    /// characters must fit on the rest of the row.
    pub fn write_string(&mut self, s: &str) -> (ws: Vec<CellWrite>)
        requires
            old(self).column() + non_newline_count(s.spec_bytes()) <= BUFFER_WIDTH,
        ensures
            final(self).color() == old(self).color(),
            final(self).column() == old(self).column() + non_newline_count(s.spec_bytes()),
            ws@ == string_cells(old(self).column(), old(self).color(), s.spec_bytes()),
    {
        let bytes = s.as_bytes();
        let ghost col0 = self.column();
        let mut ws: Vec<CellWrite> = Vec::new();
        let mut i: usize = 0;
        while i < bytes.len()
            invariant
                bytes@ == s.spec_bytes(),
                i <= bytes@.len(),
                col0 + non_newline_count(bytes@) <= BUFFER_WIDTH,
                self.color() == old(self).color(),
                col0 == old(self).column(),
                self.column() == col0 + non_newline_count(bytes@.take(i as int)),
                ws@ == string_cells(col0, self.color(), bytes@.take(i as int)),
            decreases bytes@.len() - i,
        {
            let byte = bytes[i];
            let shown = if (0x20 <= byte && byte <= 0x7e) || byte == 0x0a {
                byte
            } else {
                0xfe
            };
            proof {
                let pre = bytes@.take(i as int);
                let post = bytes@.take(i + 1);
                assert(post.drop_last() =~= pre);
                assert(post.last() == byte);
                lemma_non_newline_count_prefix(bytes@, i + 1);
            }
            match self.write_byte(shown) {
                Some(w) => ws.push(w),
                None => {},
            }
            i = i + 1;
        }
        proof {
            assert(bytes@.take(i as int) =~= bytes@);
        }
        ws
    }
}

/// A prefix never has more shown characters than the whole.
pub proof fn lemma_non_newline_count_prefix(bs: Seq<u8>, n: int)
    requires
        0 <= n <= bs.len(),
    ensures
        non_newline_count(bs.take(n)) <= non_newline_count(bs),
    decreases bs.len() - n,
{
    if n < bs.len() {
        lemma_non_newline_count_prefix(bs, n + 1);
        assert(bs.take(n + 1).drop_last() =~= bs.take(n));
    } else {
        assert(bs.take(n) =~= bs);
    }
}

/// Counting shown characters and laying out cells both split over a
/// concatenation: the bytes of `b` go on where those of `a` stopped.
pub proof fn lemma_string_cells_concat(col: int, color: ColorCode, a: Seq<u8>, b: Seq<u8>)
    ensures
        non_newline_count(a + b) == non_newline_count(a) + non_newline_count(b),
        string_cells(col, color, a + b) == string_cells(col, color, a) + string_cells(
            col + non_newline_count(a),
            color,
            b,
        ),
    decreases b.len(),
{
    if b.len() == 0 {
        assert(a + b =~= a);
        assert(string_cells(col, color, a) + string_cells(col + non_newline_count(a), color, b)
            =~= string_cells(col, color, a));
    } else {
        lemma_string_cells_concat(col, color, a, b.drop_last());
        assert((a + b).drop_last() =~= a + b.drop_last());
        assert((a + b).last() == b.last());
        let x = string_cells(col, color, a);
        let y = string_cells(col + non_newline_count(a), color, b.drop_last());
        if b.last() != 0x0a {
            let c = CellWrite {
                row: (BUFFER_HEIGHT - 1) as usize,
                col: (col + non_newline_count(a + b.drop_last())) as usize,
                ch: ScreenChar { ascii_character: shown_byte(b.last()), color_code: color },
            };
            assert((x + y).push(c) =~= x + y.push(c));
        }
    }
}

/// The UTF-8 encoding of two strings one after the other is the encoding
/// of the first followed by that of the second.
pub proof fn lemma_encode_utf8_concat(c1: Seq<char>, c2: Seq<char>)
    ensures
        encode_utf8(c1 + c2) == encode_utf8(c1) + encode_utf8(c2),
    decreases c1.len(),
{
    if c1.len() == 0 {
        assert(c1 + c2 =~= c2);
        assert(encode_utf8(c1) + encode_utf8(c2) =~= encode_utf8(c2));
    } else {
        lemma_encode_utf8_concat(c1.drop_first(), c2);
        assert((c1 + c2).drop_first() =~= c1.drop_first() + c2);
        assert((c1 + c2)[0] == c1[0]);
        let e = vstd::utf8::encode_scalar(c1[0] as u32);
        assert(e + (encode_utf8(c1.drop_first()) + encode_utf8(c2)) =~= (e + encode_utf8(
            c1.drop_first(),
        )) + encode_utf8(c2));
    }
}

/// Writing `a` and then `b` is writing their concatenation `ab`: the same
/// cell writes, in the same order, and the cursor ends in the same column.
pub proof fn lemma_write_string_concat(col: int, color: ColorCode, a: &str, b: &str, ab: &str)
    requires
        ab@ == a@ + b@,
    ensures
        non_newline_count(ab.spec_bytes()) == non_newline_count(a.spec_bytes()) + non_newline_count(
            b.spec_bytes(),
        ),
        string_cells(col, color, ab.spec_bytes()) == string_cells(col, color, a.spec_bytes())
            + string_cells(col + non_newline_count(a.spec_bytes()), color, b.spec_bytes()),
{
    lemma_encode_utf8_concat(a@, b@);
    lemma_string_cells_concat(col, color, a.spec_bytes(), b.spec_bytes());
}

/// The VGA codes of the colours, as the hardware fixes them.
pub proof fn lemma_color_codes()
    ensures
        color_value(Color::Black) == 0,
        color_value(Color::Blue) == 1,
        color_value(Color::Green) == 2,
        color_value(Color::Cyan) == 3,
        color_value(Color::Red) == 4,
        color_value(Color::Magenta) == 5,
        color_value(Color::Brown) == 6,
        color_value(Color::LightGray) == 7,
        color_value(Color::DarkGray) == 8,
        color_value(Color::LightBlue) == 9,
        color_value(Color::LightGreen) == 10,
        color_value(Color::LightCyan) == 11,
        color_value(Color::LightRed) == 12,
        color_value(Color::Pink) == 13,
        color_value(Color::Yellow) == 14,
        color_value(Color::White) == 15,
{
}

/// A line without newlines is written cell by cell: byte `k` goes to the
/// last row, `k` columns after the start, as itself when it is printable
/// ASCII (0x20 to 0x7e) and as 0xfe otherwise.
pub proof fn lemma_line_written_cell_by_cell(col: int, color: ColorCode, bs: Seq<u8>)
    requires
        0 <= col,
        col + bs.len() <= usize::MAX,
        forall|k: int| 0 <= k < bs.len() ==> bs[k] != 0x0a,
    ensures
        non_newline_count(bs) == bs.len(),
        string_cells(col, color, bs).len() == bs.len(),
        forall|k: int|
            0 <= k < bs.len() ==> #[trigger] string_cells(col, color, bs)[k] == (CellWrite {
                row: 24usize,
                col: (col + k) as usize,
                ch: ScreenChar {
                    ascii_character: if 0x20 <= bs[k] && bs[k] <= 0x7e {
                        bs[k]
                    } else {
                        0xfeu8
                    },
                    color_code: color,
                },
            }),
    decreases bs.len(),
{
    if bs.len() > 0 {
        let p = bs.drop_last();
        lemma_line_written_cell_by_cell(col, color, p);
        assert forall|k: int| 0 <= k < bs.len() implies #[trigger] string_cells(col, color, bs)[k]
            == (CellWrite {
            row: 24usize,
            col: (col + k) as usize,
            ch: ScreenChar {
                ascii_character: if 0x20 <= bs[k] && bs[k] <= 0x7e {
                    bs[k]
                } else {
                    0xfeu8
                },
                color_code: color,
            },
        }) by {
            if k < p.len() {
                assert(bs[k] == p[k]);
                assert(string_cells(col, color, p)[k] == string_cells(col, color, bs)[k]);
            }
        }
    }
}

} // verus!
