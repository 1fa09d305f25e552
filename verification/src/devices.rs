use vstd::prelude::*;
use vstd::arithmetic::div_mod::lemma_fundamental_div_mod_converse;

use crate::memory::le16;
pub use crate::memory::{DataEnsuredMemory, Page, Random, StandardAccess, StdMemory};
use crate::risclib::Trap;

verus! {

/// Width of the frame, in pixels.
pub const WIDTH: usize = 640;

/// Height of the frame, in pixels.
pub const HEIGHT: usize = 400;

/// Bits of the machine word.
pub const XLEN: u32 = 32;

/// A half-open address range `lo..hi` that a device answers to.
pub struct Region {
    lo: u32,
    hi: u32,
}

impl Region {
    pub closed spec fn spec_lo(&self) -> u32 {
        self.lo
    }

    pub closed spec fn spec_hi(&self) -> u32 {
        self.hi
    }

    /// The range `lo..hi`; `hi` below `lo` is refused.
    pub fn new(lo: u32, hi: u32) -> (r: Region)
        requires
            lo <= hi,
        ensures
            r.spec_lo() == lo,
            r.spec_hi() == hi,
    {
        Region { lo, hi }
    }
}

/// What a device on the bus is.
pub enum DeviceOption {
    StdMem(StdMemory),
    Memory(DataEnsuredMemory),
    VGATextBuffer(VGATextBuffer),
    Random(Random),
}

/// The name under which each kind of device is reported.
pub open spec fn device_kind_name(d: &DeviceOption) -> Seq<char> {
    match d {
        DeviceOption::Memory(_) => "Memory"@,
        DeviceOption::StdMem(_) => "Memory (virtual)"@,
        DeviceOption::VGATextBuffer(_) => "VGAtext"@,
        DeviceOption::Random(_) => "Random"@,
    }
}

impl DeviceOption {
    /// The name of the kind of device.
    pub fn expose(&self) -> (s: &'static str)
        ensures
            s@ == device_kind_name(self),
    {
        match self {
            DeviceOption::Memory(_) => "Memory",
            DeviceOption::StdMem(_) => "Memory (virtual)",
            DeviceOption::VGATextBuffer(_) => "VGAtext",
            DeviceOption::Random(_) => "Random",
        }
    }
}

/// A device and the addresses it answers to.
pub struct Device {
    region: Region,
    connect: DeviceOption,
}

impl Device {
    pub closed spec fn lo(&self) -> u32 {
        self.region.lo
    }

    pub closed spec fn hi(&self) -> u32 {
        self.region.hi
    }

    pub closed spec fn connected(&self) -> &DeviceOption {
        &self.connect
    }

    /// Whether the device answers to `addr`.
    pub open spec fn answers(&self, addr: u32) -> bool {
        self.lo() <= addr < self.hi()
    }

    /// A device answering to `lo..hi`; `hi` below `lo` is refused.
    pub fn new(lo: u32, hi: u32, connected: DeviceOption) -> (d: Device)
        requires
            lo <= hi,
        ensures
            d.lo() == lo,
            d.hi() == hi,
            *d.connected() == connected,
    {
        Device { region: Region::new(lo, hi), connect: connected }
    }
}

/// A device is well formed where it is a well-formed display or not a display.
pub open spec fn device_wf(d: Device) -> bool {
    match *d.connected() {
        DeviceOption::VGATextBuffer(v) => v.wf(),
        _ => true,
    }
}

/// The first display of `devs[from..]`, or -1.
pub open spec fn first_display(devs: Seq<Device>, from: int) -> int
    decreases devs.len() - from,
{
    if from < 0 || from >= devs.len() {
        -1
    } else if devs[from].connected() is VGATextBuffer {
        from
    } else {
        first_display(devs, from + 1)
    }
}

/// The first of `devs[from..]` that answers to `addr`, or -1.
pub open spec fn first_device(devs: Seq<Device>, addr: u32, from: int) -> int
    decreases devs.len() - from,
{
    if from < 0 || from >= devs.len() {
        -1
    } else if devs[from].answers(addr) {
        from
    } else {
        first_device(devs, addr, from + 1)
    }
}

proof fn lemma_first_device_answers(devs: Seq<Device>, addr: u32, from: int)
    requires
        0 <= from,
        first_device(devs, addr, from) >= 0,
    ensures
        first_device(devs, addr, from) < devs.len(),
        devs[first_device(devs, addr, from)].answers(addr),
    decreases devs.len() - from,
{
    if from < devs.len() && !devs[from].answers(addr) {
        lemma_first_device_answers(devs, addr, from + 1);
    }
}

proof fn lemma_first_device_update(devs: Seq<Device>, i: int, nd: Device, addr: u32, from: int)
    requires
        0 <= i < devs.len(),
        0 <= from,
        nd.lo() == devs[i].lo(),
        nd.hi() == devs[i].hi(),
    ensures
        first_device(devs.update(i, nd), addr, from) == first_device(devs, addr, from),
    decreases devs.len() - from,
{
    if from < devs.len() {
        lemma_first_device_update(devs, i, nd, addr, from + 1);
    }
}

/// The devices of the machine, each reached through its address range; where
/// ranges overlap the first device listed answers.
pub struct Bus {
    devices: Vec<Device>,
}

impl Bus {
    /// The devices, in order.
    pub closed spec fn devs(&self) -> Seq<Device> {
        self.devices@
    }

    /// The index of the device that answers to `addr`, or -1.
    pub open spec fn device_at(&self, addr: u32) -> int {
        first_device(self.devs(), addr, 0)
    }

    /// Every display on the bus is well formed.
    pub open spec fn wf(&self) -> bool {
        forall|i: int| 0 <= i < self.devs().len() ==> device_wf(#[trigger] self.devs()[i])
    }

    /// A bus over the given devices.
    pub fn new(devices: Vec<Device>) -> (b: Bus)
        requires
            forall|i: int| 0 <= i < devices@.len() ==> device_wf(#[trigger] devices@[i]),
        ensures
            b.devs() == devices@,
            b.wf(),
    {
        Bus { devices }
    }

    /// The index of the device that answers to `addr`.
    fn find_index(&self, addr: u32) -> (r: Option<usize>)
        ensures
            match r {
                Some(i) => i == self.device_at(addr) && 0 <= i < self.devs().len()
                    && self.devs()[i as int].answers(addr),
                None => self.device_at(addr) == -1,
            },
    {
        let mut i: usize = 0;
        while i < self.devices.len()
            invariant
                i <= self.devices@.len(),
                first_device(self.devices@, addr, 0) == first_device(self.devices@, addr, i as int),
            decreases self.devices@.len() - i,
        {
            let d = &self.devices[i];
            if addr >= d.region.lo && addr < d.region.hi {
                return Some(i);
            }
            i = i + 1;
        }
        None
    }

    /// The device that answers to `addr`; a load access fault where none does.
    pub fn find_devr_from_addr(&self, addr: u32) -> (r: Result<&Device, Trap>)
        ensures
            match r {
                Ok(d) => 0 <= self.device_at(addr) < self.devs().len() && *d == self.devs()[self.device_at(addr)]
                    && d.answers(addr),
                Err(t) => self.device_at(addr) == -1 && t == Trap::LOAD_ACCESS_FAULT,
            },
    {
        match self.find_index(addr) {
            Some(i) => Ok(&self.devices[i]),
            None => Err(Trap::LOAD_ACCESS_FAULT),
        }
    }
}

/// Foreground colour of an attribute nibble (0..16), as 0xRRGGBB.
pub open spec fn fore_colour(c: u8) -> u32 {
    if c == 0x0 {
        0x000000
    } else if c == 0x1 {
        0x0000ff
    } else if c == 0x2 {
        0x00ff00
    } else if c == 0x3 {
        0x00ffff
    } else if c == 0x4 {
        0xff0000
    } else if c == 0x5 {
        0xff00ff
    } else if c == 0x6 {
        0xff5500
    } else if c == 0x7 {
        0x808080
    } else if c == 0x8 {
        0x404040
    } else if c == 0x9 {
        0x5555ff
    } else if c == 0xa {
        0x55ff55
    } else if c == 0xb {
        0x55ffff
    } else if c == 0xc {
        0xff5555
    } else if c == 0xd {
        0xff55ff
    } else if c == 0xe {
        0xffff00
    } else {
        0xffffff
    }
}

/// Background colour of an attribute's three background bits (0..8).
pub open spec fn back_colour(c: u8) -> u32 {
    fore_colour(c)
}

/// The red, green and blue channels of a colour.
pub open spec fn red(x: u32) -> int {
    (x / 0x10000) as int
}

pub open spec fn green(x: u32) -> int {
    ((x / 0x100) % 0x100) as int
}

pub open spec fn blue(x: u32) -> int {
    (x % 0x100) as int
}

/// The display's palette. The colours 1 to 5 light fully the channels of
/// their bits: blue for bit 0, green for bit 1, red for bit 2, the others
/// off; their bright counterparts 9 to 13 keep a full channel full and
/// raise an unlit one to 0x55. Black (0), brown (6), light grey (7), dark
/// grey (8), yellow (14) and white (15) are 0x000000, 0xff5500, 0x808080,
/// 0x404040, 0xffff00 and 0xffffff. A background colour is the foreground
/// colour of the same number.
pub proof fn lemma_palette(c: u8)
    ensures
        1 <= c <= 5 ==> red(fore_colour(c)) == 0xff * ((c / 4) % 2) && green(fore_colour(c)) == 0xff * ((
        c / 2) % 2) && blue(fore_colour(c)) == 0xff * (c % 2),
        1 <= c <= 5 ==> {
            let lit = fore_colour(c);
            let bright = fore_colour((c + 8) as u8);
            &&& red(bright) == if red(lit) == 0xff { 0xffint } else { 0x55int }
            &&& green(bright) == if green(lit) == 0xff { 0xffint } else { 0x55int }
            &&& blue(bright) == if blue(lit) == 0xff { 0xffint } else { 0x55int }
            &&& bright < 0x1000000
        },
        fore_colour(0) == 0x000000,
        fore_colour(6) == 0xff5500,
        fore_colour(7) == 0x808080,
        fore_colour(8) == 0x404040,
        fore_colour(0xe) == 0xffff00,
        fore_colour(0xf) == 0xffffff,
        c < 8 ==> back_colour(c) == fore_colour(c),
{
}

/// Whether bit `b` (from the left) of row `r` of the glyph of `ch` is set.
pub open spec fn glyph_on(glyphs: Seq<u8>, ch: u8, r: int, b: int) -> bool {
    (glyphs[ch * 16 + r] >> ((7 - b) as u8)) & 1u8 == 1u8
}

/// Pixel `(r, b)` of a character cell drawn in the given colours.
pub open spec fn cell_pixel(glyphs: Seq<u8>, ch: u8, fore: u8, back: u8, r: int, b: int) -> u32 {
    if glyph_on(glyphs, ch, r, b) {
        fore_colour(fore)
    } else {
        back_colour(back)
    }
}

/// A frame with the first `n` pixels (row by row) of a character cell drawn at
/// pixel `(x, y)`.
pub open spec fn cell_drawn(
    frame: Seq<u32>,
    glyphs: Seq<u8>,
    ch: u8,
    fore: u8,
    back: u8,
    x: int,
    y: int,
    n: int,
) -> Seq<u32> {
    Seq::new(
        frame.len(),
        |p: int|
            {
                let r = p / 640 - y;
                let b = p % 640 - x;
                if 0 <= r < 16 && 0 <= b < 8 && r * 8 + b < n {
                    cell_pixel(glyphs, ch, fore, back, r, b)
                } else {
                    frame[p]
                }
            },
    )
}

/// A frame with the first `k` cells of text row `row` drawn from the text
/// memory: cell `c` shows character byte `mem[2 * (80 * row + c)]` in the
/// attribute byte after it (low nibble foreground, next three bits
/// background); cells whose character byte is zero are left as they were.
pub open spec fn text_row_drawn(frame: Seq<u32>, mem: Seq<u8>, glyphs: Seq<u8>, row: int, k: int) -> Seq<u32> {
    Seq::new(
        frame.len(),
        |p: int|
            {
                let r = p / 640 - 16 * row;
                let c = (p % 640) / 8;
                let at = 2 * (80 * row + c);
                if 0 <= r < 16 && c < k && mem[at] != 0 {
                    cell_pixel(
                        glyphs,
                        mem[at],
                        mem[at + 1] & 0xf,
                        (mem[at + 1] >> 4u8) & 0x7,
                        r,
                        p % 640 - 8 * c,
                    )
                } else {
                    frame[p]
                }
            },
    )
}

/// Drawing a text row puts each drawn cell's glyph in its place: pixel
/// `(r, b)` of cell `c` (16 rows of 8 pixels, from pixel row `16 * row`,
/// column `8 * c`) is the foreground colour of the low four bits of the
/// cell's attribute byte where the glyph has that bit set, and the
/// background colour of the three bits above them elsewhere.
pub proof fn lemma_text_row_pixel(
    frame: Seq<u32>,
    mem: Seq<u8>,
    glyphs: Seq<u8>,
    row: int,
    k: int,
    c: int,
    r: int,
    b: int,
)
    requires
        0 <= row,
        0 <= c < k,
        c < 80,
        0 <= r < 16,
        0 <= b < 8,
        (16 * row + r + 1) * 640 <= frame.len(),
        mem[2 * (80 * row + c)] != 0,
    ensures
        ({
            let at = 2 * (80 * row + c);
            let attr = mem[at + 1];
            text_row_drawn(frame, mem, glyphs, row, k)[(16 * row + r) * 640 + 8 * c + b] == if glyph_on(
                glyphs,
                mem[at],
                r,
                b,
            ) {
                fore_colour(attr % 16)
            } else {
                back_colour((attr / 16) % 8)
            }
        }),
{
    let p = (16 * row + r) * 640 + 8 * c + b;
    vstd::arithmetic::div_mod::lemma_fundamental_div_mod_converse(p, 640, 16 * row + r, 8 * c + b);
    vstd::arithmetic::div_mod::lemma_fundamental_div_mod_converse(8 * c + b, 8, c, b);
    assert(0 <= p < frame.len()) by (nonlinear_arith)
        requires
            p == (16 * row + r) * 640 + 8 * c + b,
            0 <= row,
            0 <= r < 16,
            0 <= c < 80,
            0 <= b < 8,
            (16 * row + r + 1) * 640 <= frame.len(),
    ;
    let a = mem[2 * (80 * row + c) + 1];
    assert(a & 0xf == a % 16 && (a >> 4u8) & 0x7 == (a / 16) % 8) by (bit_vector);
}

/// The two bytes of a little-endian half word.
proof fn lemma_split_half(b0: u8, b1: u8)
    ensures
        ((le16(b0, b1) as i32) & 0xff) as u8 == b0,
        (((le16(b0, b1) as i32) >> 8) & 0xff) as u8 == b1,
{
    let h: i32 = (b0 + 256 * b1) as i32;
    assert((h & 0xff) as u8 == b0 && ((h >> 8) & 0xff) as u8 == b1) by (bit_vector)
        requires h == (b0 + 256 * b1) as i32;
}

proof fn lemma_pixel_split(p: int, q: int, r: int)
    requires
        p == q * 640 + r,
        0 <= r < 640,
    ensures
        p / 640 == q,
        p % 640 == r,
{
    lemma_fundamental_div_mod_converse(p, 640, q, r);
}

/// The colour of a foreground attribute nibble.
fn fore_colour_of(c: u8) -> (v: u32)
    requires
        c <= 0xf,
    ensures
        v == fore_colour(c),
{
    match c {
        0x0 => 0x000000,
        0x1 => 0x0000ff,
        0x2 => 0x00ff00,
        0x3 => 0x00ffff,
        0x4 => 0xff0000,
        0x5 => 0xff00ff,
        0x6 => 0xff5500,
        0x7 => 0x808080,
        0x8 => 0x404040,
        0x9 => 0x5555ff,
        0xa => 0x55ff55,
        0xb => 0x55ffff,
        0xc => 0xff5555,
        0xd => 0xff55ff,
        0xe => 0xffff00,
        _ => 0xffffff,
    }
}

/// The colour of a background attribute (three bits).
fn back_colour_of(c: u8) -> (v: u32)
    requires
        c <= 0x7,
    ensures
        v == back_colour(c),
{
    match c {
        0x0 => 0x000000,
        0x1 => 0x0000ff,
        0x2 => 0x00ff00,
        0x3 => 0x00ffff,
        0x4 => 0xff0000,
        0x5 => 0xff00ff,
        0x6 => 0xff5500,
        _ => 0x808080,
    }
}

/// A text-mode display: 80 by 25 cells of a character byte and an attribute
/// byte, drawn one text row per tick into a frame of `WIDTH` by `HEIGHT` pixels
/// with a 16-row, 8-column glyph per character.
pub struct VGATextBuffer {
    owning: DataEnsuredMemory,
    assocb: Vec<u32>,
    glyphs: Vec<u8>,
    pub row: u32,
}

impl VGATextBuffer {
    /// The memory behind the text cells.
    pub closed spec fn text_memory(&self) -> DataEnsuredMemory {
        self.owning
    }

    /// The text memory: 2000 cells of two bytes.
    pub open spec fn text(&self) -> Seq<u8> {
        self.text_memory()@
    }

    /// The frame, row by row, 0xRRGGBB.
    pub closed spec fn frame(&self) -> Seq<u32> {
        self.assocb@
    }

    /// The font: 16 row bytes per character, most significant bit leftmost.
    pub closed spec fn font(&self) -> Seq<u8> {
        self.glyphs@
    }

    /// The current text row: the public field `row`.
    pub closed spec fn text_row(&self) -> u32 {
        self.row
    }

    pub open spec fn wf(&self) -> bool {
        &&& self.text().len() == 4000
        &&& self.frame().len() == WIDTH * HEIGHT
        &&& self.font().len() == 4096
        &&& self.text_row() < 25
    }

    /// The display after a tick and its result: the current text row is drawn,
    /// the row advances, and the frame is handed out when the row wraps to 0.
    pub open spec fn ticked(&self, after: Self, r: Result<Option<Vec<u32>>, Trap>) -> bool {
        &&& after.frame() == text_row_drawn(
            self.frame(),
            self.text(),
            self.font(),
            self.text_row() as int,
            80,
        )
        &&& after.text_row() == (self.text_row() + 1) % 25
        &&& after.text() == self.text()
        &&& after.font() == self.font()
        &&& match r {
            Ok(Some(v)) => after.text_row() == 0 && v@ == after.frame(),
            Ok(None) => after.text_row() != 0,
            Err(_) => false,
        }
    }

    /// A blank display with the given font of 256 glyphs of 16 row bytes.
    pub fn new(glyphs: Vec<u8>) -> (v: VGATextBuffer)
        requires
            glyphs@.len() == 4096,
        ensures
            v.wf(),
            v.text() == Seq::new(4000, |i: int| 0u8),
            v.frame() == Seq::new((WIDTH * HEIGHT) as nat, |i: int| 0u32),
            v.font() == glyphs@,
            v.text_row() == 0,
    {
        let mut buffer: Vec<u32> = Vec::new();
        let mut i: usize = 0;
        while i < WIDTH * HEIGHT
            invariant
                i <= WIDTH * HEIGHT,
                buffer@ == Seq::new(i as nat, |j: int| 0u32),
            decreases WIDTH * HEIGHT - i,
        {
            buffer.push(0u32);
            i = i + 1;
            assert(buffer@ =~= Seq::new(i as nat, |j: int| 0u32));
        }
        VGATextBuffer { owning: DataEnsuredMemory::new(4000), assocb: buffer, glyphs, row: 0 }
    }

    /// Draws character `ch` with its top-left pixel at `(x, y)`.
    fn setchar(&mut self, x: usize, y: usize, ch: u8, ffore: u8, fback: u8)
        requires
            old(self).wf(),
            x + 8 <= WIDTH,
            y + 16 <= HEIGHT,
            ffore <= 0xf,
            fback <= 0x7,
        ensures
            final(self).wf(),
            final(self).frame() == cell_drawn(
                old(self).frame(),
                old(self).font(),
                ch,
                ffore,
                fback,
                x as int,
                y as int,
                128,
            ),
            final(self).text() == old(self).text(),
            final(self).font() == old(self).font(),
            final(self).text_row() == old(self).text_row(),
    {
        let chi: usize = (ch as usize) * 16;
        let ghost f0 = self.assocb@;
        let mut row: usize = 0;
        while row < 16
            invariant
                row <= 16,
                self.wf(),
                self.text() == old(self).text(),
                self.font() == old(self).font(),
                self.row == old(self).row,
                chi == ch * 16,
                x + 8 <= WIDTH,
                y + 16 <= HEIGHT,
                ffore <= 0xf,
                fback <= 0x7,
                f0 == old(self).frame(),
                self.assocb@ == cell_drawn(f0, self.glyphs@, ch, ffore, fback, x as int, y as int, (row * 8) as int),
            decreases 16 - row,
        {
            let byte = self.glyphs[chi + row];
            let mut bitn: usize = 0;
            while bitn < 8
                invariant
                    row < 16,
                    bitn <= 8,
                    self.wf(),
                    self.text() == old(self).text(),
                    self.font() == old(self).font(),
                    self.row == old(self).row,
                    chi == ch * 16,
                    byte == self.glyphs@[chi + row],
                    x + 8 <= WIDTH,
                    y + 16 <= HEIGHT,
                    ffore <= 0xf,
                    fback <= 0x7,
                    f0 == old(self).frame(),
                    self.assocb@ == cell_drawn(f0, self.glyphs@, ch, ffore, fback, x as int, y as int, (row * 8 + bitn) as int),
                decreases 8 - bitn,
            {
                let on: bool = (byte >> (7 - bitn as u8)) & 1 == 1;
                let colour: u32 = if on {
                    fore_colour_of(ffore)
                } else {
                    back_colour_of(fback)
                };
                let idx: usize = row * WIDTH + y * WIDTH + bitn + x;
                let ghost before = self.assocb@;
                self.assocb.set(idx, colour);
                proof {
                    lemma_pixel_split(idx as int, (y + row) as int, (x + bitn) as int);
                    let n = (row * 8 + bitn) as int;
                    assert forall|p: int| 0 <= p < f0.len() implies self.assocb@[p] == cell_drawn(
                        f0, self.glyphs@, ch, ffore, fback, x as int, y as int, n + 1)[p] by {
                        let r = p / 640 - y;
                        let b = p % 640 - x;
                        if p != idx {
                            if r == row && b == bitn {
                                lemma_fundamental_div_mod_converse(p, 640, p / 640, p % 640);
                            }
                        }
                    }
                    assert(self.assocb@ =~= cell_drawn(f0, self.glyphs@, ch, ffore, fback, x as int, y as int, n + 1));
                }
                bitn = bitn + 1;
            }
            row = row + 1;
        }
    }

    /// Draws the current text row into the frame and moves to the next row;
    /// after the last row the whole frame is handed out.
    pub fn tick(&mut self) -> (r: Result<Option<Vec<u32>>, Trap>)
        requires
            old(self).wf(),
        ensures
            final(self).wf(),
            old(self).ticked(*final(self), r),
    {
        let ghost f0 = self.assocb@;
        let ghost mem = self.owning@;
        let ghost font = self.glyphs@;
        let row = self.row;
        let mut halfi: u32 = row * 80;
        assert(text_row_drawn(f0, mem, font, row as int, 0) =~= f0);
        while halfi < row * 80 + 80
            invariant
                row == old(self).text_row(),
                row < 25,
                row * 80 <= halfi <= row * 80 + 80,
                self.wf(),
                self.text_row() == row,
                self.owning@ == mem,
                self.glyphs@ == font,
                mem == old(self).text(),
                font == old(self).font(),
                f0 == old(self).frame(),
                self.assocb@ == text_row_drawn(f0, mem, font, row as int, (halfi - row * 80) as int),
            decreases row * 80 + 80 - halfi,
        {
            let half = match self.owning.load_half(halfi * 2) {
                Ok(h) => h,
                Err(t) => return Err(t),
            };
            let ghost at = 2 * halfi as int;
            proof {
                lemma_split_half(mem[at], mem[at + 1]);
            }
            let ch: u8 = (half & 0xff) as u8;
            let flags: u8 = ((half >> 8) & 0xff) as u8;
            let ffore: u8 = flags & 0xf;
            let fback: u8 = (flags >> 4) & 0x7;
            assert(ffore <= 0xf && fback <= 0x7) by (bit_vector)
                requires ffore == flags & 0xf, fback == (flags >> 4) & 0x7;
            let ghost k = (halfi - row * 80) as int;
            let ghost fk = self.assocb@;
            if ch != 0 {
                proof {
                    lemma_fundamental_div_mod_converse(halfi as int, 80, row as int, k);
                }
                self.setchar(((halfi % 80) * 8) as usize, ((halfi / 80) * 16) as usize, ch, ffore, fback);
                proof {
                    assert forall|p: int| 0 <= p < f0.len() implies self.assocb@[p] == text_row_drawn(
                        f0, mem, font, row as int, k + 1)[p] by {
                        let c = (p % 640) / 8;
                        let b = p % 640 - 8 * k;
                        if 0 <= b < 8 {
                            lemma_fundamental_div_mod_converse(p % 640, 8, k, b);
                        } else if c == k {
                            lemma_fundamental_div_mod_converse(p % 640, 8, c, p % 640 % 8);
                        }
                    }
                    assert(self.assocb@ =~= text_row_drawn(f0, mem, font, row as int, k + 1));
                }
            } else {
                proof {
                    assert forall|p: int| 0 <= p < f0.len() implies fk[p] == text_row_drawn(
                        f0, mem, font, row as int, k + 1)[p] by {
                        let c = (p % 640) / 8;
                        if c == k {
                            lemma_fundamental_div_mod_converse(halfi as int, 80, row as int, k);
                        }
                    }
                    assert(fk =~= text_row_drawn(f0, mem, font, row as int, k + 1));
                }
            }
            halfi = halfi + 1;
        }
        self.row = (self.row + 1) % 25;
        if self.row == 0 {
            Ok(Some(self.assocb.clone()))
        } else {
            Ok(None)
        }
    }
}

/// Whether a load of `ltype` completes on a memory, given the address used for
/// the signed and word forms and the one used for the unsigned forms.
pub open spec fn mem_load_ok<M: StandardAccess>(m: M, addr: u32, addr_us: u32, ltype: u8) -> bool {
    if ltype == 0 {
        m.loads_ok(addr, 0)
    } else if ltype == 1 {
        m.loads_ok(addr, 1)
    } else if ltype == 2 {
        m.loads_ok(addr, 2)
    } else if ltype == 4 {
        m.loads_ok(addr_us, 0)
    } else if ltype == 5 {
        m.loads_ok(addr_us, 1)
    } else {
        true
    }
}

/// The possible results of a load of `ltype` on a memory; `funct3` values that
/// name no load are illegal instructions.
pub open spec fn mem_loaded<M: StandardAccess>(
    m: M,
    addr: u32,
    addr_us: u32,
    ltype: u8,
    r: Result<i32, Trap>,
) -> bool {
    if ltype == 0 {
        m.loaded(addr, 0, false, r)
    } else if ltype == 1 {
        m.loaded(addr, 1, false, r)
    } else if ltype == 2 {
        m.loaded(addr, 2, false, r)
    } else if ltype == 4 {
        m.loaded(addr_us, 0, true, r)
    } else if ltype == 5 {
        m.loaded(addr_us, 1, true, r)
    } else {
        r == Err::<i32, Trap>(Trap::ILLEGAL_INSTRUCTION)
    }
}

/// A memory after a store of `stype` (0 byte, 1 half, 2 word); other types are
/// illegal instructions and change nothing.
pub open spec fn mem_stored<M: StandardAccess>(
    m: M,
    after: M,
    addr: u32,
    value: i32,
    stype: u8,
    r: Result<(), Trap>,
) -> bool {
    if stype <= 2 {
        m.stored(after, addr, stype as u32, value, r)
    } else {
        r == Err::<(), Trap>(Trap::ILLEGAL_INSTRUCTION) && after == m
    }
}

impl Bus {
    /// Whether a load of `ltype` at `addr` completes.
    pub open spec fn can_load(&self, addr: u32, ltype: u8) -> bool {
        let i = self.device_at(addr);
        i < 0 || {
            let d = self.devs()[i];
            let off = (addr - d.lo()) as u32;
            match *d.connected() {
                DeviceOption::Memory(m) => mem_load_ok(m, off, off, ltype),
                DeviceOption::StdMem(m) => mem_load_ok(m, off, off, ltype),
                DeviceOption::VGATextBuffer(_) => true,
                DeviceOption::Random(m) => mem_load_ok(m, addr, addr, ltype),
            }
        }
    }

    /// The possible results of a load of `ltype` at `addr`: the device that
    /// answers is given the address relative to its range (a `Random` device,
    /// which ignores it, the bus address); no device is a load access fault,
    /// and the display cannot be read.
    pub open spec fn load_outcome(&self, addr: u32, ltype: u8, r: Result<i32, Trap>) -> bool {
        let i = self.device_at(addr);
        if i < 0 {
            r == Err::<i32, Trap>(Trap::LOAD_ACCESS_FAULT)
        } else {
            let d = self.devs()[i];
            let off = (addr - d.lo()) as u32;
            match *d.connected() {
                DeviceOption::Memory(m) => mem_loaded(m, off, off, ltype, r),
                DeviceOption::StdMem(m) => mem_loaded(m, off, off, ltype, r),
                DeviceOption::VGATextBuffer(_) => r == Err::<i32, Trap>(Trap::LOAD_ACCESS_FAULT),
                DeviceOption::Random(m) => mem_loaded(m, addr, addr, ltype, r),
            }
        }
    }

    /// Whether a store of `stype` at `addr` completes.
    pub open spec fn can_store(&self, addr: u32, stype: u8) -> bool {
        let i = self.device_at(addr);
        i < 0 || stype > 2 || {
            let d = self.devs()[i];
            match *d.connected() {
                DeviceOption::StdMem(m) => m.stores_ok((addr - d.lo()) as u32, stype as u32),
                _ => true,
            }
        }
    }

    /// The bus after a store of `stype` at `addr`, and its result: the device
    /// that answers changes as its store says and no other device changes. The
    /// device is given the address relative to its range (a `Random` device,
    /// which refuses every store, the bus address).
    pub open spec fn store_outcome(
        &self,
        after: Bus,
        addr: u32,
        value: i32,
        stype: u8,
        r: Result<(), Trap>,
    ) -> bool {
        let i = self.device_at(addr);
        if i < 0 {
            r == Err::<(), Trap>(Trap::STORE_ACCESS_FAULT) && after.devs() == self.devs()
        } else {
            let d = self.devs()[i];
            let nd = after.devs()[i];
            &&& after.devs() == self.devs().update(i, nd)
            &&& nd.lo() == d.lo()
            &&& nd.hi() == d.hi()
            &&& match (*d.connected(), *nd.connected()) {
                (DeviceOption::Memory(m), DeviceOption::Memory(m2)) => mem_stored(
                    m,
                    m2,
                    (addr - d.lo()) as u32,
                    value,
                    stype,
                    r,
                ),
                (DeviceOption::StdMem(m), DeviceOption::StdMem(m2)) => mem_stored(
                    m,
                    m2,
                    (addr - d.lo()) as u32,
                    value,
                    stype,
                    r,
                ),
                (DeviceOption::VGATextBuffer(v), DeviceOption::VGATextBuffer(v2)) => {
                    &&& mem_stored(
                        v.text_memory(),
                        v2.text_memory(),
                        (addr - d.lo()) as u32,
                        value,
                        stype,
                        r,
                    )
                    &&& v2.frame() == v.frame()
                    &&& v2.font() == v.font()
                    &&& v2.text_row() == v.text_row()
                },
                (DeviceOption::Random(m), DeviceOption::Random(m2)) => mem_stored(
                    m,
                    m2,
                    addr,
                    value,
                    stype,
                    r,
                ),
                _ => false,
            }
        }
    }

    /// Loads through the device that answers to `addr`; `ltype` is the
    /// `funct3` field of a load instruction.
    pub fn load(&self, addr: u32, ltype: u8) -> (r: Result<i32, Trap>)
        requires
            self.can_load(addr, ltype),
        ensures
            self.load_outcome(addr, ltype, r),
    {
        let select = self.find_devr_from_addr(addr)?;
        let off = addr - select.region.lo;
        match &select.connect {
            DeviceOption::Memory(memory) => {
                if ltype == 0 {
                    memory.load_byte(off)
                } else if ltype == 1 {
                    memory.load_half(off)
                } else if ltype == 2 {
                    memory.load_word(off)
                } else if ltype == 4 {
                    memory.load_byte_us(off)
                } else if ltype == 5 {
                    memory.load_half_us(off)
                } else {
                    Err(Trap::ILLEGAL_INSTRUCTION)
                }
            },
            DeviceOption::VGATextBuffer(_) => Err(Trap::LOAD_ACCESS_FAULT),
            DeviceOption::StdMem(memory) => {
                if ltype == 0 {
                    memory.load_byte(off)
                } else if ltype == 1 {
                    memory.load_half(off)
                } else if ltype == 2 {
                    memory.load_word(off)
                } else if ltype == 4 {
                    memory.load_byte_us(off)
                } else if ltype == 5 {
                    memory.load_half_us(off)
                } else {
                    Err(Trap::ILLEGAL_INSTRUCTION)
                }
            },
            DeviceOption::Random(device) => device.load_thru_type(addr, ltype as u32),
        }
    }

    /// The device that answers to `addr`, for writing; a store access fault
    /// where none does.
    pub fn mut_find_devr_from_addr(&mut self, addr: u32) -> (r: Result<&mut Device, Trap>)
        ensures
            match r {
                Ok(d) => 0 <= old(self).device_at(addr) < old(self).devs().len() && *d == old(self).devs()[old(
                    self,
                ).device_at(addr)] && d.answers(addr) && final(self).devs() == old(self).devs().update(
                    old(self).device_at(addr),
                    *final(d),
                ),
                Err(t) => old(self).device_at(addr) == -1 && t == Trap::STORE_ACCESS_FAULT
                    && final(self).devs() == old(self).devs(),
            },
    {
        match self.find_index(addr) {
            Some(i) => Ok(&mut self.devices[i]),
            None => Err(Trap::STORE_ACCESS_FAULT),
        }
    }

    /// Stores through the device that answers to `addr`; `stype` is the
    /// `funct3` field of a store instruction.
    pub fn store(&mut self, addr: u32, value: i32, stype: u8) -> (r: Result<(), Trap>)
        requires
            old(self).can_store(addr, stype),
        ensures
            old(self).store_outcome(*final(self), addr, value, stype, r),
            old(self).wf() ==> final(self).wf(),
    {
        let ghost before = *self;
        let select: &mut Device = match self.mut_find_devr_from_addr(addr) {
            Ok(d) => d,
            Err(t) => return Err(t),
        };
        let ghost d0 = *select;
        let lo = select.region.lo;
        let r = store_connected(&mut select.connect, addr, lo, value, stype);
        proof {
            let i = before.device_at(addr);
            assert(has_resolved(select));
            if before.wf() {
                assert forall|j: int| 0 <= j < final(self).devs().len() implies device_wf(
                    #[trigger] final(self).devs()[j]) by {
                    assert(device_wf(before.devs()[j]));
                }
            }
        }
        r
    }
}

impl Bus {
    /// Ticks the first display on the bus; `None` where there is none.
    pub fn tick_display(&mut self) -> (r: Option<Result<Option<Vec<u32>>, Trap>>)
        requires
            old(self).wf(),
        ensures
            final(self).wf(),
            ({
                let j = first_display(old(self).devs(), 0);
                if j < 0 {
                    r is None && final(self).devs() == old(self).devs()
                } else {
                    let d = old(self).devs()[j];
                    let nd = final(self).devs()[j];
                    &&& r is Some
                    &&& final(self).devs() == old(self).devs().update(j, nd)
                    &&& nd.lo() == d.lo()
                    &&& nd.hi() == d.hi()
                    &&& match (*d.connected(), *nd.connected()) {
                        (DeviceOption::VGATextBuffer(v), DeviceOption::VGATextBuffer(v2)) => v.ticked(v2, r->0),
                        _ => false,
                    }
                }
            }),
    {
        let mut i: usize = 0;
        while i < self.devices.len()
            invariant
                i <= self.devices@.len(),
                first_display(self.devices@, 0) == first_display(self.devices@, i as int),
            ensures
                i <= self.devices@.len(),
                first_display(self.devices@, 0) == first_display(self.devices@, i as int),
                i < self.devices@.len() ==> self.devices@[i as int].connect is VGATextBuffer,
            decreases self.devices@.len() - i,
        {
            if let DeviceOption::VGATextBuffer(_) = &self.devices[i].connect {
                break;
            }
            i = i + 1;
        }
        if i == self.devices.len() {
            return None;
        }
        let ghost before = *self;
        let ghost j = i as int;
        assert(device_wf(before.devs()[j]));
        let dev: &mut Device = &mut self.devices[i];
        let out = match &mut dev.connect {
            DeviceOption::VGATextBuffer(v) => Some(v.tick()),
            _ => None,
        };
        proof {
            assert forall|k: int| 0 <= k < final(self).devs().len() implies device_wf(
                #[trigger] final(self).devs()[k]) by {
                assert(device_wf(before.devs()[k]));
            }
        }
        out
    }
}

/// A store into a device, given the start of its range.
fn store_connected(conn: &mut DeviceOption, addr: u32, lo: u32, value: i32, stype: u8) -> (r: Result<(), Trap>)
    requires
        lo <= addr,
        stype <= 2 ==> match *old(conn) {
            DeviceOption::StdMem(m) => m.stores_ok((addr - lo) as u32, stype as u32),
            _ => true,
        },
    ensures
        match (*old(conn), *final(conn)) {
            (DeviceOption::Memory(m), DeviceOption::Memory(m2)) => mem_stored(m, m2, (addr - lo) as u32, value, stype, r),
            (DeviceOption::StdMem(m), DeviceOption::StdMem(m2)) => mem_stored(m, m2, (addr - lo) as u32, value, stype, r),
            (DeviceOption::VGATextBuffer(v), DeviceOption::VGATextBuffer(v2)) => {
                &&& mem_stored(v.text_memory(), v2.text_memory(), (addr - lo) as u32, value, stype, r)
                &&& v2.frame() == v.frame()
                &&& v2.font() == v.font()
                &&& v2.text_row() == v.text_row()
            },
            (DeviceOption::Random(m), DeviceOption::Random(m2)) => mem_stored(m, m2, addr, value, stype, r),
            _ => false,
        },
{
    let off = addr - lo;
    match conn {
        DeviceOption::Memory(memory) => {
            if stype == 0 {
                memory.store_byte(off, value)
            } else if stype == 1 {
                memory.store_half(off, value)
            } else if stype == 2 {
                memory.store_word(off, value)
            } else {
                Err(Trap::ILLEGAL_INSTRUCTION)
            }
        },
        DeviceOption::VGATextBuffer(vgatb) => {
            if stype == 0 {
                vgatb.owning.store_byte(off, value)
            } else if stype == 1 {
                vgatb.owning.store_half(off, value)
            } else if stype == 2 {
                vgatb.owning.store_word(off, value)
            } else {
                Err(Trap::ILLEGAL_INSTRUCTION)
            }
        },
        DeviceOption::StdMem(memory) => {
            if stype == 0 {
                memory.store_byte(off, value)
            } else if stype == 1 {
                memory.store_half(off, value)
            } else if stype == 2 {
                memory.store_word(off, value)
            } else {
                Err(Trap::ILLEGAL_INSTRUCTION)
            }
        },
        DeviceOption::Random(device) => device.store_thru_type(addr, value, stype as u32),
    }
}


impl Bus {
    /// Whether the device that answers to `addr` is general-purpose memory
    /// (`StdMem`).
    pub open spec fn ram_at(&self, addr: u32) -> bool {
        let i = self.device_at(addr);
        &&& 0 <= i < self.devs().len()
        &&& self.devs()[i].connected() is StdMem
    }

    /// The address relative to the range of the device that answers to `addr`.
    pub open spec fn offset_at(&self, addr: u32) -> int {
        addr - self.devs()[self.device_at(addr)].lo()
    }
}

/// What a load gives back of a store: on general-purpose memory, wherever
/// it is mapped, a store completes, the memory stays where it was, and a
/// load of the same width at the same address gives back a word as it was
/// stored, a half word's low 16 bits, and a byte's low 8 bits sign-extended.
pub proof fn lemma_ram_store_load(
    b: Bus,
    after: Bus,
    addr: u32,
    value: i32,
    width: u8,
    r: Result<(), Trap>,
    lr: Result<i32, Trap>,
)
    requires
        b.ram_at(addr),
        width <= 2,
        b.offset_at(addr) + crate::memory::width_bytes(width as u32) - 1 <= u32::MAX,
        b.store_outcome(after, addr, value, width, r),
        after.load_outcome(addr, width, lr),
    ensures
        r == Ok::<(), Trap>(()),
        after.ram_at(addr),
        lr == Ok::<i32, Trap>(
            if width == 0 {
                crate::risclib::spec_sextend(value & 0xff, 8)
            } else if width == 1 {
                value & 0xffff
            } else {
                value
            },
        ),
{
    let i = b.device_at(addr);
    let d = b.devs()[i];
    let nd = after.devs()[i];
    lemma_first_device_update(b.devs(), i, nd, addr, 0);
    assert(after.devs() == b.devs().update(i, nd));
    assert(after.device_at(addr) == i);
    match (d.connect, nd.connect) {
        (DeviceOption::StdMem(m), DeviceOption::StdMem(m2)) => {
            m.lemma_well_formed();
            lemma_first_device_answers(b.devs(), addr, 0);
            let off = (addr - d.region.lo) as u32;
            assert(off as int == b.offset_at(addr));
            if width == 0 {
                crate::memory::lemma_std_byte_round_trip(m@, off, value);
            } else if width == 1 {
                crate::memory::lemma_std_half_round_trip(m@, off, value);
            } else {
                crate::memory::lemma_std_word_round_trip(m@, off, value);
            }
        },
        _ => {},
    }
}


/// What a store leaves alone: on general-purpose memory, a store of the
/// given width changes no byte it does not write and no other device, so an
/// unsigned byte load at any other address has the outcomes it had before.
pub proof fn lemma_ram_store_frame(
    b: Bus,
    after: Bus,
    addr: u32,
    value: i32,
    width: u8,
    r: Result<(), Trap>,
    a: u32,
    lr: Result<i32, Trap>,
)
    requires
        b.ram_at(addr),
        width <= 2,
        b.offset_at(addr) + crate::memory::width_bytes(width as u32) - 1 <= u32::MAX,
        b.store_outcome(after, addr, value, width, r),
        !(addr <= a < addr + crate::memory::width_bytes(width as u32)),
    ensures
        after.load_outcome(a, 4, lr) == b.load_outcome(a, 4, lr),
{
    let i = b.device_at(addr);
    let d = b.devs()[i];
    let nd = after.devs()[i];
    lemma_first_device_answers(b.devs(), addr, 0);
    lemma_first_device_update(b.devs(), i, nd, a, 0);
    assert(after.devs() == b.devs().update(i, nd));
    let j = b.device_at(a);
    assert(after.device_at(a) == j);
    if j == i {
        lemma_first_device_answers(b.devs(), a, 0);
        match (d.connect, nd.connect) {
            (DeviceOption::StdMem(m), DeviceOption::StdMem(m2)) => {
                m.lemma_well_formed();
                let off = (addr - d.region.lo) as u32;
                let off_a = (a - d.region.lo) as u32;
                crate::memory::lemma_std_store_frame(m@, off, width as u32, value, off_a);
                assert(m2@ == crate::memory::std_store(m@, off, width as u32, value));
            },
            _ => {},
        }
    } else if j >= 0 {
        lemma_first_device_answers(b.devs(), a, 0);
        assert(after.devs()[j] == b.devs()[j]);
    }
}

impl Bus {
    /// Whether every load of `ltype` at `addr` gives one and the same result:
    /// so it does on every device but a `Random` one.
    pub open spec fn load_determined(&self, addr: u32, ltype: u8) -> bool {
        forall|r1: Result<i32, Trap>, r2: Result<i32, Trap>|
            #![trigger self.load_outcome(addr, ltype, r1), self.load_outcome(addr, ltype, r2)]
            self.load_outcome(addr, ltype, r1) && self.load_outcome(addr, ltype, r2) ==> r1 == r2
    }

    /// Whether a load of `ltype` at `addr` completes.
    pub fn load_completes(&self, addr: u32, ltype: u8) -> (r: bool)
        ensures
            r == self.can_load(addr, ltype),
    {
        let i = match self.find_index(addr) {
            None => {
                return true;
            },
            Some(i) => i,
        };
        let d = &self.devices[i];
        let off = addr - d.region.lo;
        let (m_addr, us_addr): (u32, u32) = match &d.connect {
            DeviceOption::Memory(_) => (off, off),
            DeviceOption::StdMem(_) => (off, off),
            DeviceOption::VGATextBuffer(_) => {
                return true;
            },
            DeviceOption::Random(_) => (addr, addr),
        };
        let (at, width): (u32, u32) = if ltype == 0 || ltype == 1 || ltype == 2 {
            (m_addr, ltype as u32)
        } else if ltype == 4 || ltype == 5 {
            (us_addr, (ltype - 4) as u32)
        } else {
            return true;
        };
        match &d.connect {
            DeviceOption::Memory(m) => {
                let n = m.len();
                if width == 0 {
                    (at as usize) < n
                } else if width == 1 {
                    at % 2 != 0 || (at as usize) < n && (at as usize) + 1 < n
                } else {
                    at % 4 != 0 || (at as usize) < n && (at as usize) + 3 < n
                }
            },
            DeviceOption::StdMem(_) => {
                if width == 0 {
                    true
                } else if width == 1 {
                    at <= u32::MAX - 1
                } else {
                    at <= u32::MAX - 3
                }
            },
            DeviceOption::Random(_) => width != 2,
            DeviceOption::VGATextBuffer(_) => true,
        }
    }

    /// Whether a store of `stype` at `addr` completes.
    pub fn store_completes(&self, addr: u32, stype: u8) -> (r: bool)
        ensures
            r == self.can_store(addr, stype),
    {
        let i = match self.find_index(addr) {
            None => {
                return true;
            },
            Some(i) => i,
        };
        if stype > 2 {
            return true;
        }
        let off = addr - self.devices[i].region.lo;
        match &self.devices[i].connect {
            DeviceOption::StdMem(_) => {
                if stype == 0 {
                    true
                } else if stype == 1 {
                    off <= u32::MAX - 1
                } else {
                    off <= u32::MAX - 3
                }
            },
            _ => true,
        }
    }

    /// Whether the device that answers to `addr` is a `Random` one.
    pub open spec fn random_at(&self, addr: u32) -> bool {
        let i = self.device_at(addr);
        0 <= i < self.devs().len() && self.devs()[i].connected() is Random
    }

    /// Whether a load at `addr` reads a device whose answers are determined
    /// by its state: any device but a `Random` one, or none.
    pub fn answers_determined(&self, addr: u32, ltype: u8) -> (r: bool)
        ensures
            r == !self.random_at(addr),
            r ==> self.load_determined(addr, ltype),
    {
        match self.find_index(addr) {
            None => true,
            Some(i) => match &self.devices[i].connect {
                DeviceOption::Random(_) => false,
                _ => true,
            },
        }
    }
}

} // verus!
