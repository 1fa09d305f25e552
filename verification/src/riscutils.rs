use vstd::prelude::*;
use vstd::string::StringSliceAdditionalSpecFns;

pub mod colours;

verus! {

/// Where the text buffer of the display starts.
pub const TEXT_BUFFER: u32 = 0xb8000;

/// The half word that shows `chr` in foreground `attr.0` on background `attr.1`.
pub open spec fn cell_value(chr: char, attr: (u8, u8)) -> u16 {
    (((((attr.1 << 4u8) | attr.0) as u16) << 8u16) | (chr as u16)) as u16
}

/// The address of the text cell in column `to.0` of line `to.1`.
pub open spec fn cell_address(to: (u16, u16)) -> u32 {
    (TEXT_BUFFER + 80 * to.1 * 2 + to.0 * 2) as u32
}

/// A text cell's half word holds the character in its low byte and the
/// colours in its high byte: the foreground in the low nibble, the
/// background above it.
pub proof fn lemma_cell_value(chr: char, fore: u8, back: u8)
    requires
        fore < 16,
        back < 8,
        (chr as u32) < 256,
    ensures
        cell_value(chr, (fore, back)) as int == (back as int * 16 + fore as int) * 256 + (chr as u32) as int,
{
    let c: u16 = chr as u16;
    assert(c as int == (chr as u32) as int);
    assert(((((((back << 4u8) | fore) as u16) << 8u16) | c) as u16) as int == (back as int * 16
        + fore as int) * 256 + c as int) by (bit_vector)
        requires
            fore < 16,
            back < 8,
            c < 256,
    ;
}

/// The text cells lie line by line from `TEXT_BUFFER`, two bytes each, 80
/// to a line: cell (0, 0) is at `TEXT_BUFFER`, the next column two bytes
/// on, the next line 160 bytes on.
pub proof fn lemma_cell_layout(col: u16, line: u16)
    ensures
        cell_address((0, 0)) == TEXT_BUFFER,
        col < u16::MAX ==> cell_address(((col + 1) as u16, line)) == cell_address((col, line)) + 2,
        line < u16::MAX ==> cell_address((col, (line + 1) as u16)) == cell_address((col, line)) + 160,
{
}

/// Draws `chr` at cell `to` (column, line) in colours `attr` (foreground,
/// background), given as the store that does it: the cell's address in the
/// text buffer and the half word written there.
pub fn draw_char(to: (u16, u16), chr: char, attr: (u8, u8)) -> (w: (u32, u16))
    ensures
        w.0 == cell_address(to),
        w.1 == cell_value(chr, attr),
{
    let addr: u32 = 0xb8000u32 + ((80 * to.1 as u32 * 2) + to.0 as u32 * 2u32);
    let value: u16 = ((((attr.1 << 4) | attr.0) as u16) << 8) | chr as u16;
    (addr, value)
}

/// How many line wraps printing from column `col` has made by the `i`-th
/// character: one at each character after the first that lands in column 0.
pub open spec fn wraps(col: u16, i: int) -> int
    decreases i,
{
    if i <= 0 {
        0
    } else {
        wraps(col, i - 1) + if (i + col) % 80 == 0 {
            1int
        } else {
            0int
        }
    }
}

/// The wraps made by the `i`-th character printed from column `col` are the
/// lines the text has crossed: the multiples of 80 in `col + 1 ..= col + i`.
/// So the first character (`i == 0`) is on the starting line, and with
/// [`print`]'s contract character `i` goes to column `(col + i) % 80` of line
/// `row + (col + i) / 80 - col / 80`.
pub proof fn lemma_wraps_lines(col: u16, i: int)
    requires
        i >= 0,
    ensures
        wraps(col, i) == (col + i) / 80 - col / 80,
    decreases i,
{
    if i > 0 {
        lemma_wraps_lines(col, i - 1);
        let k = col + i;
        assert(k / 80 - (k - 1) / 80 == if k % 80 == 0 { 1int } else { 0int });
    }
}

proof fn lemma_wraps_monotone(col: u16, i: int, j: int)
    requires
        0 <= i <= j,
    ensures
        wraps(col, i) <= wraps(col, j),
        wraps(col, i) >= 0,
    decreases j,
{
    if i < j {
        lemma_wraps_monotone(col, i, j - 1);
    } else if i > 0 {
        lemma_wraps_monotone(col, i - 1, i - 1);
    }
}

/// The number of characters printed: the byte length, cut to 16 bits.
pub open spec fn printed_len(s: &str) -> int {
    (s.spec_bytes().len() as u16) as int
}

/// Whether printing `s` from line `row`, column `col` stays inside 16-bit
/// positions and 255 wraps.
pub open spec fn printable(s: &str, row: u16, col: u16) -> bool {
    let n = printed_len(s);
    n == 0 || {
        &&& col + n - 1 <= u16::MAX
        &&& wraps(col, n - 1) <= 255
        &&& row + wraps(col, n - 1) <= u16::MAX
    }
}

/// The stores that print `string` from line `row`, column `col`: character
/// `i` goes to column `(col + i) % 80` of line `row` plus the wraps so far.
pub fn print(string: &str, row: u16, col: u16, attr: (u8, u8)) -> (ws: Vec<(u32, u16)>)
    requires
        printable(string, row, col),
    ensures
        ws@.len() == printed_len(string),
        forall|i: int|
            0 <= i < ws@.len() ==> #[trigger] ws@[i] == (
                cell_address((((col + i) % 80) as u16, (row + wraps(col, i)) as u16)),
                cell_value(string.spec_bytes()[i] as char, attr),
            ),
{
    let bytes = string.as_bytes();
    let n: u16 = bytes.len() as u16;
    let mut ws: Vec<(u32, u16)> = Vec::new();
    let mut wrap: u8 = 0;
    let mut i: u16 = 0;
    while i < n
        invariant
            n == printed_len(string),
            bytes@ == string.spec_bytes(),
            i <= n,
            n > 0 ==> col + n - 1 <= u16::MAX,
            n > 0 ==> wraps(col, n - 1) <= 255,
            n > 0 ==> row + wraps(col, n - 1) <= u16::MAX,
            i > 0 ==> wrap == wraps(col, i - 1),
            i == 0 ==> wrap == 0,
            ws@.len() == i,
            forall|j: int|
                0 <= j < i ==> #[trigger] ws@[j] == (
                    cell_address((((col + j) % 80) as u16, (row + wraps(col, j)) as u16)),
                    cell_value(bytes@[j] as char, attr),
                ),
        decreases n - i,
    {
        proof {
            lemma_wraps_monotone(col, i as int, n - 1);
        }
        if (i + col) % 80 == 0 && i != 0 {
            wrap += 1;
        }
        let w = draw_char(((col + i) % 80, row + wrap as u16), bytes[i as usize] as char, attr);
        ws.push(w);
        i = i + 1;
    }
    ws
}

} // verus!
