use std::collections::HashMap;

use vstd::prelude::*;

use crate::random;
use crate::risclib::{spec_sextend, Trap};

verus! {

/// Bytes per page of a [`StdMemory`].
pub const PAGESZ: u32 = 4096;

/// Width codes of an access: 0 byte, 1 half word, 2 word.
pub open spec fn width_bytes(width: u32) -> int {
    if width == 0 {
        1
    } else if width == 1 {
        2
    } else {
        4
    }
}

/// The little-endian value of two bytes.
pub open spec fn le16(b0: u8, b1: u8) -> int {
    b0 + 256 * b1
}

/// The little-endian value of four bytes.
pub open spec fn le32(b0: u8, b1: u8, b2: u8, b3: u8) -> int {
    b0 + 256 * b1 + 65536 * b2 + 16777216 * b3
}

/// A device that answers loads and stores of bytes, half words and words.
///
/// Each implementor says, over its own state, which accesses complete
/// (`loads_ok`, `stores_ok`) and what an access may give (`loaded`, `stored`).
pub trait StandardAccess: Sized {
    /// Whether a load of the given width at `addr` completes.
    spec fn loads_ok(&self, addr: u32, width: u32) -> bool;

    /// Whether `r` is a possible result of a load of the given width at `addr`;
    /// `unsigned` selects the zero-extending forms.
    spec fn loaded(&self, addr: u32, width: u32, unsigned: bool, r: Result<i32, Trap>) -> bool;

    /// Whether a store of the given width at `addr` completes.
    spec fn stores_ok(&self, addr: u32, width: u32) -> bool;

    /// Whether `after` and `r` are a possible state and result of a store.
    spec fn stored(&self, after: Self, addr: u32, width: u32, value: i32, r: Result<(), Trap>) -> bool;

    fn load_byte(&self, addr: u32) -> (r: Result<i32, Trap>)
        requires
            self.loads_ok(addr, 0),
        ensures
            self.loaded(addr, 0, false, r),
    ;

    fn load_half(&self, addr: u32) -> (r: Result<i32, Trap>)
        requires
            self.loads_ok(addr, 1),
        ensures
            self.loaded(addr, 1, false, r),
    ;

    fn load_word(&self, addr: u32) -> (r: Result<i32, Trap>)
        requires
            self.loads_ok(addr, 2),
        ensures
            self.loaded(addr, 2, false, r),
    ;

    fn store_byte(&mut self, addr: u32, value: i32) -> (r: Result<(), Trap>)
        requires
            old(self).stores_ok(addr, 0),
        ensures
            old(self).stored(*final(self), addr, 0, value, r),
    ;

    fn store_half(&mut self, addr: u32, value: i32) -> (r: Result<(), Trap>)
        requires
            old(self).stores_ok(addr, 1),
        ensures
            old(self).stored(*final(self), addr, 1, value, r),
    ;

    fn store_word(&mut self, addr: u32, value: i32) -> (r: Result<(), Trap>)
        requires
            old(self).stores_ok(addr, 2),
        ensures
            old(self).stored(*final(self), addr, 2, value, r),
    ;

    fn load_byte_us(&self, addr: u32) -> (r: Result<i32, Trap>)
        requires
            self.loads_ok(addr, 0),
        ensures
            self.loaded(addr, 0, true, r),
    ;

    fn load_half_us(&self, addr: u32) -> (r: Result<i32, Trap>)
        requires
            self.loads_ok(addr, 1),
        ensures
            self.loaded(addr, 1, true, r),
    ;

    /// A load selected by the `funct3` field of a load instruction.
    fn load_thru_type(&self, addr: u32, load_type: u32) -> (r: Result<i32, Trap>)
        requires
            load_type == 0 ==> self.loads_ok(addr, 0),
            load_type == 1 ==> self.loads_ok(addr, 1),
            load_type == 2 ==> self.loads_ok(addr, 2),
            load_type == 4 ==> self.loads_ok(addr, 0),
            load_type == 5 ==> self.loads_ok(addr, 1),
        ensures
            load_type == 0 ==> self.loaded(addr, 0, false, r),
            load_type == 1 ==> self.loaded(addr, 1, false, r),
            load_type == 2 ==> self.loaded(addr, 2, false, r),
            load_type == 4 ==> self.loaded(addr, 0, true, r),
            load_type == 5 ==> self.loaded(addr, 1, true, r),
            load_type == 3 || load_type > 5 ==> r == Err::<i32, Trap>(Trap::ILLEGAL_INSTRUCTION),
    {
        if load_type == 0 {
            self.load_byte(addr)
        } else if load_type == 1 {
            self.load_half(addr)
        } else if load_type == 2 {
            self.load_word(addr)
        } else if load_type == 4 {
            self.load_byte_us(addr)
        } else if load_type == 5 {
            self.load_half_us(addr)
        } else {
            Err(Trap::ILLEGAL_INSTRUCTION)
        }
    }

    /// A store selected by the `funct3` field of a store instruction.
    fn store_thru_type(&mut self, addr: u32, value: i32, store_type: u32) -> (r: Result<(), Trap>)
        requires
            store_type <= 2 ==> old(self).stores_ok(addr, store_type),
        ensures
            store_type <= 2 ==> old(self).stored(*final(self), addr, store_type, value, r),
            store_type > 2 ==> r == Err::<(), Trap>(Trap::ILLEGAL_INSTRUCTION) && *final(self)
                == *old(self),
    {
        if store_type == 0 {
            self.store_byte(addr, value)
        } else if store_type == 1 {
            self.store_half(addr, value)
        } else if store_type == 2 {
            self.store_word(addr, value)
        } else {
            Err(Trap::ILLEGAL_INSTRUCTION)
        }
    }
}


/// A zero-filled page.
pub open spec fn zero_page() -> Seq<u8> {
    Seq::new(4096, |i: int| 0u8)
}

/// The byte at `addr` of a paged memory; a page that is not there reads as zeros.
pub open spec fn mem_byte(m: Map<u32, Seq<u8>>, addr: u32) -> u8 {
    if m.contains_key(addr / 4096) {
        m[addr / 4096][(addr % 4096) as int]
    } else {
        0
    }
}

/// A paged memory after the low byte of `value` is written at `addr`; the page
/// is created, zero-filled, where it was not there.
pub open spec fn mem_store_byte(m: Map<u32, Seq<u8>>, addr: u32, value: i32) -> Map<u32, Seq<u8>> {
    let pn = addr / 4096;
    let page = if m.contains_key(pn) {
        m[pn]
    } else {
        zero_page()
    };
    m.insert(pn, page.update((addr % 4096) as int, (value & 0xff) as u8))
}

/// Signed byte load of a paged memory.
pub open spec fn std_load_byte(m: Map<u32, Seq<u8>>, addr: u32) -> i32 {
    spec_sextend(mem_byte(m, addr) as i32, 8)
}

/// Unsigned byte load of a paged memory.
pub open spec fn std_load_byte_us(m: Map<u32, Seq<u8>>, addr: u32) -> i32 {
    mem_byte(m, addr) as i32
}

/// Half-word load of a paged memory: two bytes, little-endian, zero-extended.
pub open spec fn std_load_half(m: Map<u32, Seq<u8>>, addr: u32) -> i32 {
    le16(mem_byte(m, addr), mem_byte(m, (addr + 1) as u32)) as i32
}

/// Word load of a paged memory: four bytes, little-endian.
pub open spec fn std_load_word(m: Map<u32, Seq<u8>>, addr: u32) -> i32 {
    le32(
        mem_byte(m, addr),
        mem_byte(m, (addr + 1) as u32),
        mem_byte(m, (addr + 2) as u32),
        mem_byte(m, (addr + 3) as u32),
    ) as i32
}

/// Half-word store: the byte `value >> 8` at `addr + 1`, then the low byte at `addr`.
pub open spec fn std_store_half(m: Map<u32, Seq<u8>>, addr: u32, value: i32) -> Map<u32, Seq<u8>> {
    mem_store_byte(mem_store_byte(m, (addr + 1) as u32, value >> 8), addr, value & 0xff)
}

/// Word store: the half word `value >> 16` at `addr + 2`, then the low half at `addr`.
pub open spec fn std_store_word(m: Map<u32, Seq<u8>>, addr: u32, value: i32) -> Map<u32, Seq<u8>> {
    std_store_half(std_store_half(m, (addr + 2) as u32, value >> 16), addr, value & 0xffff)
}

/// The low byte of a sign-extended byte is the byte.
pub proof fn lemma_sextend_byte(b: u8)
    ensures
        spec_sextend(b as i32, 8) & 0xff == b as i32,
        -128 <= spec_sextend(b as i32, 8) < 128,
        spec_sextend(b as i32, 8) == if b < 128 {
            b as int
        } else {
            b as int - 256
        },
{
    let x: i32 = b as i32;
    assert(((((x as u32) << 24u32) as i32) >> 24u32) == if x < 128 { x as int } else { x - 256 }) by (bit_vector)
        requires 0 <= x < 256;
    assert(((((x as u32) << 24u32) as i32) >> 24u32) & 0xff == x) by (bit_vector)
        requires 0 <= x < 256;
    assert(-128 <= ((((x as u32) << 24u32) as i32) >> 24u32) < 128) by (bit_vector);
}

/// Shifts and masks of an address that select its page and offset.
pub proof fn lemma_page_split(addr: u32)
    ensures
        addr >> 12 == addr / 4096,
        addr & 0xfff == addr % 4096,
{
    assert(addr >> 12 == addr / 4096) by (bit_vector);
    assert(addr & 0xfff == addr % 4096) by (bit_vector);
}

/// One page of a [`StdMemory`].
pub struct Page {
    data: [u8; 4096],
}

impl View for Page {
    type V = Seq<u8>;

    closed spec fn view(&self) -> Seq<u8> {
        self.data@
    }
}

impl Page {
    /// A zero-filled page.
    pub fn new() -> (p: Page)
        ensures
            p@ == zero_page(),
            p@.len() == 4096,
    {
        broadcast use vstd::array::group_array_axioms;
        let data: [u8; 4096] = vstd::array::array_fill_for_copy_types::<u8, 4096>(0u8);
        let p = Page { data };
        assert(p.data@.len() == 4096);
        assert(forall|i: int| 0 <= i < 4096 ==> p.data@[i] == 0u8);
        assert(p@ =~= zero_page());
        p
    }

    /// Every page holds `PAGESZ` bytes.
    pub proof fn lemma_len(&self)
        ensures
            self@.len() == 4096,
    {
    }

    /// The byte at a page-relative address, zero-extended.
    pub fn read_byte(&self, addr: u32) -> (r: Result<i32, Trap>)
        ensures
            addr < 4096 ==> r == Ok::<i32, Trap>(self@[addr as int] as i32),
            addr >= 4096 ==> r == Err::<i32, Trap>(Trap::LOAD_ACCESS_FAULT),
    {
        if addr < 4096 {
            Ok(self.data[addr as usize] as i32)
        } else {
            Err(Trap::LOAD_ACCESS_FAULT)
        }
    }

    /// Writes the low byte of `val` at a page-relative address.
    pub fn write_byte(&mut self, addr: u32, val: i32) -> (r: Result<(), Trap>)
        ensures
            addr < 4096 ==> r == Ok::<(), Trap>(()) && final(self)@ == old(self)@.update(
                addr as int,
                (val & 0xff) as u8,
            ),
            addr >= 4096 ==> r == Err::<(), Trap>(Trap::STORE_ACCESS_FAULT) && final(self)@ == old(
                self,
            )@,
    {
        if addr < 4096 {
            let b: i32 = val & 0xff;
            assert(0 <= b < 256) by (bit_vector)
                requires b == val & 0xff;
            self.data[addr as usize] = b as u8;
            Ok(())
        } else {
            Err(Trap::STORE_ACCESS_FAULT)
        }
    }
}

/// The slot of `key` in a page table (`HashMap::get_mut`).
///
/// The contract claims what the documentation of `get_mut` says: a reference
/// to the page that the key maps to, through which the map's entry is
/// changed, and `None` with the map unchanged where the key is absent.
#[verifier::external_body]
fn page_slot(pages: &mut HashMap<u32, Page>, key: u32) -> (r: Option<&mut Page>)
    ensures
        match r {
            Some(p) => old(pages)@.contains_key(key) && *p == old(pages)@[key] && final(pages)@
                == old(pages)@.insert(key, *final(p)),
            None => !old(pages)@.contains_key(key) && final(pages)@ == old(pages)@,
        },
{
    pages.get_mut(&key)
}

/// A sparse memory over the whole 32-bit address space, made of pages that
/// are created by the first store into them; unwritten memory reads as zero.
pub struct StdMemory {
    pages: HashMap<u32, Page>,
}

impl View for StdMemory {
    type V = Map<u32, Seq<u8>>;

    /// Page number to page contents.
    closed spec fn view(&self) -> Map<u32, Seq<u8>> {
        self.pages@.map_values(|p: Page| p@)
    }
}

impl StdMemory {
    /// An empty memory.
    pub fn new() -> (m: StdMemory)
        ensures
            m@ == Map::<u32, Seq<u8>>::empty(),
    {
        let m = StdMemory { pages: HashMap::new() };
        assert(m@ =~= Map::<u32, Seq<u8>>::empty());
        m
    }

    /// Every page present holds `PAGESZ` bytes.
    pub proof fn lemma_pages_len(&self, pn: u32)
        requires
            self@.contains_key(pn),
        ensures
            self@[pn].len() == 4096,
    {
        self.pages@[pn].lemma_len();
    }

    /// The page that holds `addr`.
    pub fn getpage(&self, addr: u32) -> (r: Result<&Page, Trap>)
        ensures
            match r {
                Ok(p) => self@.contains_key(addr / 4096) && p@ == self@[addr / 4096],
                Err(t) => !self@.contains_key(addr / 4096) && t == Trap::LOAD_PAGE_FAULT,
            },
    {
        broadcast use vstd::std_specs::hash::group_hash_axioms;
        proof { lemma_page_split(addr); }
        match self.pages.get(&(addr >> 12)) {
            Some(page) => Ok(page),
            None => Err(Trap::LOAD_PAGE_FAULT),
        }
    }

    /// The page that holds `addr`, for writing.
    pub fn getpage_mut(&mut self, addr: u32) -> (r: Result<&mut Page, Trap>)
        ensures
            match r {
                Ok(p) => old(self)@.contains_key(addr / 4096) && p@ == old(self)@[addr / 4096]
                    && final(self)@ == old(self)@.insert(addr / 4096, final(p)@),
                Err(t) => !old(self)@.contains_key(addr / 4096) && t == Trap::STORE_PAGE_FAULT
                    && final(self)@ == old(self)@,
            },
    {
        proof { lemma_page_split(addr); }
        match page_slot(&mut self.pages, addr >> 12) {
            Some(page) => Ok(page),
            None => Err(Trap::STORE_PAGE_FAULT),
        }
    }
}


/// Two bytes combined little-endian.
proof fn lemma_combine_half(b0: i32, b1: i32)
    requires
        0 <= b0 < 256,
        0 <= b1 < 256,
    ensures
        ((b1 << 8) | b0) == b0 + 256 * b1,
{
    assert(((b1 << 8) | b0) == b0 + 256 * b1) by (bit_vector)
        requires 0 <= b0 < 256, 0 <= b1 < 256;
}

/// Two half words combined little-endian, as a 32-bit pattern.
proof fn lemma_combine_word(h0: i32, h2: i32)
    requires
        0 <= h0 < 65536,
        0 <= h2 < 65536,
    ensures
        ((h2 << 16) | h0) == (h0 + 65536 * h2) as i32,
{
    assert(((h2 << 16) | h0) == (h0 + 65536 * h2) as i32) by (bit_vector)
        requires 0 <= h0 < 65536, 0 <= h2 < 65536;
}

impl StandardAccess for StdMemory {
    open spec fn loads_ok(&self, addr: u32, width: u32) -> bool {
        addr + width_bytes(width) - 1 <= u32::MAX
    }

    open spec fn loaded(&self, addr: u32, width: u32, unsigned: bool, r: Result<i32, Trap>) -> bool {
        r == Ok::<i32, Trap>(
            if width == 0 {
                if unsigned {
                    std_load_byte_us(self@, addr)
                } else {
                    std_load_byte(self@, addr)
                }
            } else if width == 1 {
                std_load_half(self@, addr)
            } else {
                std_load_word(self@, addr)
            },
        )
    }

    open spec fn stores_ok(&self, addr: u32, width: u32) -> bool {
        addr + width_bytes(width) - 1 <= u32::MAX
    }

    open spec fn stored(&self, after: Self, addr: u32, width: u32, value: i32, r: Result<(), Trap>) -> bool {
        &&& r == Ok::<(), Trap>(())
        &&& after@ == if width == 0 {
            mem_store_byte(self@, addr, value)
        } else if width == 1 {
            std_store_half(self@, addr, value)
        } else {
            std_store_word(self@, addr, value)
        }
    }

    fn load_byte(&self, addr: u32) -> (r: Result<i32, Trap>) {
        let page = self.getpage(addr);
        match page {
            Err(_) => {
                proof { lemma_sextend_byte(0); }
                Ok(0)
            },
            Ok(p) => {
                proof {
                    lemma_page_split(addr);
                    self.lemma_pages_len(addr / 4096);
                }
                let b = p.read_byte(addr & 0xfff)?;
                Ok(crate::risclib::sextend(b, 8))
            },
        }
    }

    fn load_half(&self, addr: u32) -> (r: Result<i32, Trap>) {
        let hi = self.load_byte(addr + 1)?;
        let lo = self.load_byte(addr)?;
        assert(hi == std_load_byte(self@, (addr + 1) as u32));
        assert(lo == std_load_byte(self@, addr));
        proof {
            lemma_sextend_byte(mem_byte(self@, (addr + 1) as u32));
            lemma_sextend_byte(mem_byte(self@, addr));
            lemma_combine_half(lo & 0xff, hi & 0xff);
        }
        Ok(((hi & 0xff) << 8) | (lo & 0xff))
    }

    fn load_word(&self, addr: u32) -> (r: Result<i32, Trap>) {
        let hi = self.load_half(addr + 2)?;
        let lo = self.load_half(addr)?;
        proof {
            lemma_combine_word(lo, hi);
        }
        Ok((hi << 16) | lo)
    }

    fn load_byte_us(&self, addr: u32) -> (r: Result<i32, Trap>) {
        let page = self.getpage(addr);
        match page {
            Err(_) => Ok(0),
            Ok(p) => {
                proof {
                    lemma_page_split(addr);
                    self.lemma_pages_len(addr / 4096);
                }
                p.read_byte(addr & 0xfff)
            },
        }
    }

    fn load_half_us(&self, addr: u32) -> (r: Result<i32, Trap>) {
        self.load_half(addr)
    }

    fn store_byte(&mut self, addr: u32, value: i32) -> (r: Result<(), Trap>) {
        proof { lemma_page_split(addr); }
        let ghost before = self@;
        let page = self.getpage_mut(addr);
        match page {
            Err(_) => {
                let mut newpage = Page::new();
                let _ = newpage.write_byte(addr & 0xfff, value);
                self.pages.insert(addr >> 12, newpage);
                assert(self@ =~= mem_store_byte(before, addr, value));
                Ok(())
            },
            Ok(p) => {
                proof { p.lemma_len(); }
                let r = p.write_byte(addr & 0xfff, value);
                r
            },
        }
    }

    fn store_half(&mut self, addr: u32, value: i32) -> (r: Result<(), Trap>) {
        self.store_byte(addr + 1, value >> 8)?;
        self.store_byte(addr, value & 0xff)
    }

    fn store_word(&mut self, addr: u32, value: i32) -> (r: Result<(), Trap>) {
        self.store_half(addr + 2, value >> 16)?;
        self.store_half(addr, value & 0xffff)
    }
}


/// A flat memory after the low byte of `value` is written at `addr`; a store
/// past the end is dropped.
pub open spec fn flat_store_byte(d: Seq<u8>, addr: u32, value: i32) -> Seq<u8> {
    if addr < d.len() {
        d.update(addr as int, (value & 0xff) as u8)
    } else {
        d
    }
}

/// A flat memory after a half-word store at an aligned `addr`: low byte first.
pub open spec fn flat_store_half(d: Seq<u8>, addr: u32, value: i32) -> Seq<u8> {
    flat_store_byte(flat_store_byte(d, addr, value & 0xff), (addr + 1) as u32, (value >> 8) & 0xff)
}

/// A flat memory after a word store at an aligned `addr`: low half first.
pub open spec fn flat_store_word(d: Seq<u8>, addr: u32, value: i32) -> Seq<u8> {
    flat_store_half(
        flat_store_half(d, addr, value & 0xffff),
        (addr + 2) as u32,
        (value >> 16) & 0xffff,
    )
}

/// A fixed-size memory whose every address below its size holds a byte;
/// half-word and word accesses must be aligned.
pub struct DataEnsuredMemory {
    data: Vec<u8>,
}

impl View for DataEnsuredMemory {
    type V = Seq<u8>;

    closed spec fn view(&self) -> Seq<u8> {
        self.data@
    }
}

impl DataEnsuredMemory {
    /// A zero-filled memory of `size` bytes.
    pub fn new(size: u32) -> (m: DataEnsuredMemory)
        ensures
            m@ == Seq::new(size as nat, |i: int| 0u8),
    {
        let mut data: Vec<u8> = Vec::new();
        let mut i: u32 = 0;
        while i < size
            invariant
                i <= size,
                data@ == Seq::new(i as nat, |j: int| 0u8),
            decreases size - i,
        {
            data.push(0u8);
            i = i + 1;
            assert(data@ =~= Seq::new(i as nat, |j: int| 0u8));
        }
        DataEnsuredMemory { data }
    }

    /// The number of bytes.
    pub fn len(&self) -> (n: usize)
        ensures
            n == self@.len(),
    {
        self.data.len()
    }
}

impl StandardAccess for DataEnsuredMemory {
    open spec fn loads_ok(&self, addr: u32, width: u32) -> bool {
        if width == 0 {
            addr < self@.len()
        } else if width == 1 {
            addr % 2 != 0 || addr + 1 < self@.len()
        } else {
            addr % 4 != 0 || addr + 3 < self@.len()
        }
    }

    open spec fn loaded(&self, addr: u32, width: u32, unsigned: bool, r: Result<i32, Trap>) -> bool {
        let d = self@;
        if width == 0 {
            r == Ok::<i32, Trap>(d[addr as int] as i32)
        } else if width == 1 {
            if addr % 2 != 0 {
                r == Err::<i32, Trap>(Trap::LOAD_ADDRESS_MISALIGNED)
            } else {
                r == Ok::<i32, Trap>(le16(d[addr as int], d[addr + 1]) as i32)
            }
        } else {
            if addr % 4 != 0 {
                r == Err::<i32, Trap>(Trap::LOAD_ADDRESS_MISALIGNED)
            } else {
                r == Ok::<i32, Trap>(
                    le32(d[addr as int], d[addr + 1], d[addr + 2], d[addr + 3]) as i32,
                )
            }
        }
    }

    open spec fn stores_ok(&self, addr: u32, width: u32) -> bool {
        true
    }

    open spec fn stored(&self, after: Self, addr: u32, width: u32, value: i32, r: Result<(), Trap>) -> bool {
        let d = self@;
        if width == 0 {
            r == Ok::<(), Trap>(()) && after@ == flat_store_byte(d, addr, value)
        } else if width == 1 {
            if addr % 2 != 0 {
                r == Err::<(), Trap>(Trap::STORE_ADDRESS_MISALIGNED) && after@ == d
            } else {
                r == Ok::<(), Trap>(()) && after@ == flat_store_half(d, addr, value)
            }
        } else {
            if addr % 4 != 0 {
                r == Err::<(), Trap>(Trap::STORE_ADDRESS_MISALIGNED) && after@ == d
            } else {
                r == Ok::<(), Trap>(()) && after@ == flat_store_word(d, addr, value)
            }
        }
    }

    fn load_byte(&self, addr: u32) -> (r: Result<i32, Trap>) {
        Ok(self.data[addr as usize] as i32)
    }

    fn load_half(&self, addr: u32) -> (r: Result<i32, Trap>) {
        if addr % 2 != 0 {
            return Err(Trap::LOAD_ADDRESS_MISALIGNED);
        }
        let hi = self.load_byte(addr + 1)?;
        let lo = self.load_byte(addr)?;
        proof {
            lemma_combine_half(lo, hi);
        }
        Ok((hi << 8) | lo)
    }

    fn load_word(&self, addr: u32) -> (r: Result<i32, Trap>) {
        if addr % 4 != 0 {
            return Err(Trap::LOAD_ADDRESS_MISALIGNED);
        }
        let hi = self.load_half(addr + 2)?;
        let lo = self.load_half(addr)?;
        proof {
            lemma_combine_word(lo, hi);
        }
        Ok((hi << 16) | lo)
    }

    fn load_byte_us(&self, addr: u32) -> (r: Result<i32, Trap>) {
        self.load_byte(addr)
    }

    fn load_half_us(&self, addr: u32) -> (r: Result<i32, Trap>) {
        self.load_half(addr)
    }

    fn store_byte(&mut self, addr: u32, value: i32) -> (r: Result<(), Trap>) {
        if (addr as usize) < self.data.len() {
            let b: i32 = value & 0xff;
            assert(0 <= b < 256) by (bit_vector)
                requires b == value & 0xff;
            self.data[addr as usize] = b as u8;
        }
        Ok(())
    }

    fn store_half(&mut self, addr: u32, value: i32) -> (r: Result<(), Trap>) {
        if addr % 2 != 0 {
            return Err(Trap::STORE_ADDRESS_MISALIGNED);
        }
        self.store_byte(addr, value & 0xff)?;
        self.store_byte(addr + 1, (value >> 8) & 0xff)?;
        Ok(())
    }

    fn store_word(&mut self, addr: u32, value: i32) -> (r: Result<(), Trap>) {
        if addr % 4 != 0 {
            return Err(Trap::STORE_ADDRESS_MISALIGNED);
        }
        self.store_half(addr, value & 0xffff)?;
        self.store_half(addr + 2, (value >> 16) & 0xffff)?;
        Ok(())
    }
}

/// A device whose every load reads fresh random bits and which accepts no store.
pub struct Random {}

impl Random {
    pub fn new() -> (r: Random) {
        Random {  }
    }
}

impl StandardAccess for Random {
    /// A word load draws from `0..=u32::MAX as i32`, an empty range, and
    /// never completes.
    open spec fn loads_ok(&self, addr: u32, width: u32) -> bool {
        width != 2
    }

    open spec fn loaded(&self, addr: u32, width: u32, unsigned: bool, r: Result<i32, Trap>) -> bool {
        match r {
            Ok(v) => if width == 0 {
                0 <= v <= 255
            } else {
                0 <= v <= 65535
            },
            Err(_) => false,
        }
    }

    open spec fn stores_ok(&self, addr: u32, width: u32) -> bool {
        true
    }

    open spec fn stored(&self, after: Self, addr: u32, width: u32, value: i32, r: Result<(), Trap>) -> bool {
        r == Err::<(), Trap>(Trap::STORE_ACCESS_FAULT) && after == *self
    }

    fn load_byte(&self, _addr: u32) -> (r: Result<i32, Trap>) {
        Ok(random::rri(0, 255))
    }

    fn load_half(&self, _addr: u32) -> (r: Result<i32, Trap>) {
        Ok(random::rri(0, 65535))
    }

    fn load_word(&self, _addr: u32) -> (r: Result<i32, Trap>) {
        Ok(random::rri(0, -1))
    }

    fn load_byte_us(&self, addr: u32) -> (r: Result<i32, Trap>) {
        self.load_byte(addr)
    }

    fn load_half_us(&self, addr: u32) -> (r: Result<i32, Trap>) {
        self.load_half(addr)
    }

    fn store_byte(&mut self, _addr: u32, _value: i32) -> (r: Result<(), Trap>) {
        Err(Trap::STORE_ACCESS_FAULT)
    }

    fn store_half(&mut self, _addr: u32, _value: i32) -> (r: Result<(), Trap>) {
        Err(Trap::STORE_ACCESS_FAULT)
    }

    fn store_word(&mut self, _addr: u32, _value: i32) -> (r: Result<(), Trap>) {
        Err(Trap::STORE_ACCESS_FAULT)
    }
}


/// Every page of a paged memory holds `PAGESZ` bytes.
pub open spec fn pages_well_formed(m: Map<u32, Seq<u8>>) -> bool {
    forall|pn: u32| #[trigger] m.contains_key(pn) ==> m[pn].len() == 4096
}

impl StdMemory {
    /// The contents of a memory are always well formed.
    pub proof fn lemma_well_formed(&self)
        ensures
            pages_well_formed(self@),
    {
        assert forall|pn: u32| #[trigger] self@.contains_key(pn) implies self@[pn].len() == 4096 by {
            self.lemma_pages_len(pn);
        }
    }
}

/// A byte store changes the byte at its address, to the low byte of the value,
/// and no other byte; the memory stays well formed.
pub proof fn lemma_mem_store_byte(m: Map<u32, Seq<u8>>, addr: u32, value: i32, x: u32)
    requires
        pages_well_formed(m),
    ensures
        pages_well_formed(mem_store_byte(m, addr, value)),
        mem_byte(mem_store_byte(m, addr, value), x) == if x == addr {
            (value & 0xff) as u8
        } else {
            mem_byte(m, x)
        },
{
    let m2 = mem_store_byte(m, addr, value);
    assert forall|pn: u32| #[trigger] m2.contains_key(pn) implies m2[pn].len() == 4096 by {
        if pn != addr / 4096 {
            assert(m.contains_key(pn));
        }
    }
    if x != addr && x / 4096 == addr / 4096 {
        assert(x % 4096 != addr % 4096);
    }
}

/// The bytes of a word, low byte first, put back together.
proof fn lemma_word_bytes(v: i32)
    ensures
        le32(
            (v & 0xff & 0xff) as u8,
            ((v & 0xffff) >> 8 & 0xff) as u8,
            ((v >> 16) & 0xff) as u8,
            ((v >> 16) >> 8 & 0xff) as u8,
        ) as i32 == v,
{
    let b0: i32 = v & 0xff & 0xff;
    let b1: i32 = (v & 0xffff) >> 8 & 0xff;
    let b2: i32 = (v >> 16) & 0xff;
    let b3: i32 = (v >> 16) >> 8 & 0xff;
    assert(0 <= b0 < 256 && 0 <= b1 < 256 && 0 <= b2 < 256 && 0 <= b3 < 256) by (bit_vector)
        requires b0 == v & 0xff & 0xff, b1 == (v & 0xffff) >> 8 & 0xff, b2 == (v >> 16) & 0xff,
            b3 == (v >> 16) >> 8 & 0xff;
    assert((b0 + 256 * b1 + 65536 * b2 + 16777216 * b3) as i32 == v) by (bit_vector)
        requires b0 == v & 0xff & 0xff, b1 == (v & 0xffff) >> 8 & 0xff, b2 == (v >> 16) & 0xff,
            b3 == (v >> 16) >> 8 & 0xff;
}

/// A word load at the address of a word store reads back the stored word.
pub proof fn lemma_std_word_round_trip(m: Map<u32, Seq<u8>>, addr: u32, value: i32)
    requires
        pages_well_formed(m),
        addr <= u32::MAX - 3,
    ensures
        std_load_word(std_store_word(m, addr, value), addr) == value,
{
    let m1 = mem_store_byte(m, (addr + 3) as u32, (value >> 16) >> 8);
    let m2 = mem_store_byte(m1, (addr + 2) as u32, (value >> 16) & 0xff);
    let m3 = mem_store_byte(m2, (addr + 1) as u32, (value & 0xffff) >> 8);
    let m4 = mem_store_byte(m3, addr, value & 0xffff & 0xff);
    assert(std_store_word(m, addr, value) == m4);
    assert(value & 0xffff & 0xff & 0xff == value & 0xff & 0xff) by (bit_vector);
    assert((value >> 16) & 0xff & 0xff == (value >> 16) & 0xff) by (bit_vector);
    let a1 = (addr + 1) as u32;
    let a2 = (addr + 2) as u32;
    let a3 = (addr + 3) as u32;
    lemma_mem_store_byte(m, a3, (value >> 16) >> 8, addr);
    lemma_mem_store_byte(m1, a2, (value >> 16) & 0xff, addr);
    lemma_mem_store_byte(m2, a1, (value & 0xffff) >> 8, addr);
    lemma_mem_store_byte(m3, addr, value & 0xffff & 0xff, addr);
    lemma_mem_store_byte(m, a3, (value >> 16) >> 8, a1);
    lemma_mem_store_byte(m1, a2, (value >> 16) & 0xff, a1);
    lemma_mem_store_byte(m2, a1, (value & 0xffff) >> 8, a1);
    lemma_mem_store_byte(m3, addr, value & 0xffff & 0xff, a1);
    lemma_mem_store_byte(m, a3, (value >> 16) >> 8, a2);
    lemma_mem_store_byte(m1, a2, (value >> 16) & 0xff, a2);
    lemma_mem_store_byte(m2, a1, (value & 0xffff) >> 8, a2);
    lemma_mem_store_byte(m3, addr, value & 0xffff & 0xff, a2);
    lemma_mem_store_byte(m, a3, (value >> 16) >> 8, a3);
    lemma_mem_store_byte(m1, a2, (value >> 16) & 0xff, a3);
    lemma_mem_store_byte(m2, a1, (value & 0xffff) >> 8, a3);
    lemma_mem_store_byte(m3, addr, value & 0xffff & 0xff, a3);
    lemma_word_bytes(value);
}


/// A byte load at the address of a byte store reads back the stored byte,
/// sign-extended.
pub proof fn lemma_std_byte_round_trip(m: Map<u32, Seq<u8>>, addr: u32, value: i32)
    requires
        pages_well_formed(m),
    ensures
        std_load_byte(mem_store_byte(m, addr, value), addr) == spec_sextend(value & 0xff, 8),
{
    lemma_mem_store_byte(m, addr, value, addr);
    let b: u8 = (value & 0xff) as u8;
    assert(b as i32 == value & 0xff) by (bit_vector)
        requires b == (value & 0xff) as u8;
}

/// A half-word load at the address of a half-word store reads back the low
/// 16 bits of the stored value.
pub proof fn lemma_std_half_round_trip(m: Map<u32, Seq<u8>>, addr: u32, value: i32)
    requires
        pages_well_formed(m),
        addr <= u32::MAX - 1,
    ensures
        std_load_half(std_store_half(m, addr, value), addr) == value & 0xffff,
{
    let a1 = (addr + 1) as u32;
    let m1 = mem_store_byte(m, a1, value >> 8);
    lemma_mem_store_byte(m, a1, value >> 8, addr);
    lemma_mem_store_byte(m, a1, value >> 8, a1);
    lemma_mem_store_byte(m1, addr, value & 0xff, addr);
    lemma_mem_store_byte(m1, addr, value & 0xff, a1);
    let b0: u8 = (value & 0xff & 0xff) as u8;
    let b1: u8 = ((value >> 8) & 0xff) as u8;
    assert((b0 as int + 256 * (b1 as int)) as i32 == value & 0xffff) by (bit_vector)
        requires
            b0 == (value & 0xff & 0xff) as u8,
            b1 == ((value >> 8) & 0xff) as u8,
    ;
}


/// What a load gives back of a store on a flat memory: an aligned store that
/// lies inside the memory completes, and a load of the same width at the same
/// address reads back a word as it was stored, a half word's low 16 bits and
/// a byte's low 8 bits.
pub proof fn lemma_flat_round_trip(
    m: DataEnsuredMemory,
    after: DataEnsuredMemory,
    addr: u32,
    width: u32,
    value: i32,
    r: Result<(), Trap>,
    lr: Result<i32, Trap>,
)
    requires
        width <= 2,
        addr % (width_bytes(width) as u32) == 0,
        addr + width_bytes(width) <= m@.len(),
        m.stored(after, addr, width, value, r),
        after.loaded(addr, width, false, lr),
    ensures
        r == Ok::<(), Trap>(()),
        lr == Ok::<i32, Trap>(
            if width == 0 {
                value & 0xff
            } else if width == 1 {
                value & 0xffff
            } else {
                value
            },
        ),
{
    let d = m@;
    if width == 0 {
        let b: u8 = (value & 0xff) as u8;
        assert(b as i32 == value & 0xff) by (bit_vector)
            requires b == (value & 0xff) as u8;
    } else if width == 1 {
        let b0: u8 = (value & 0xff & 0xff) as u8;
        let b1: u8 = ((value >> 8) & 0xff & 0xff) as u8;
        assert((b0 as int + 256 * (b1 as int)) as i32 == value & 0xffff) by (bit_vector)
            requires
                b0 == (value & 0xff & 0xff) as u8,
                b1 == ((value >> 8) & 0xff & 0xff) as u8,
        ;
    } else {
        let lo: i32 = value & 0xffff;
        let hi: i32 = (value >> 16) & 0xffff;
        let b0: u8 = (lo & 0xff & 0xff) as u8;
        let b1: u8 = ((lo >> 8) & 0xff & 0xff) as u8;
        let b2: u8 = (hi & 0xff & 0xff) as u8;
        let b3: u8 = ((hi >> 8) & 0xff & 0xff) as u8;
        assert((b0 as int + 256 * (b1 as int) + 65536 * (b2 as int) + 16777216 * (b3 as int)) as i32
            == value) by (bit_vector)
            requires
                lo == value & 0xffff,
                hi == (value >> 16) & 0xffff,
                b0 == (lo & 0xff & 0xff) as u8,
                b1 == ((lo >> 8) & 0xff & 0xff) as u8,
                b2 == (hi & 0xff & 0xff) as u8,
                b3 == ((hi >> 8) & 0xff & 0xff) as u8,
        ;
        let d1 = flat_store_half(d, addr, lo);
        assert(d1[addr as int] == b0 && d1[addr + 1] == b1);
        let d2 = flat_store_half(d1, (addr + 2) as u32, hi);
        assert(d2[addr as int] == b0 && d2[addr + 1] == b1 && d2[addr + 2] == b2 && d2[addr + 3] == b3);
    }
}


/// A store of the given width (0 byte, 1 half, 2 word) to a paged memory.
pub open spec fn std_store(m: Map<u32, Seq<u8>>, addr: u32, width: u32, value: i32) -> Map<u32, Seq<u8>> {
    if width == 0 {
        mem_store_byte(m, addr, value)
    } else if width == 1 {
        std_store_half(m, addr, value)
    } else {
        std_store_word(m, addr, value)
    }
}

/// A store changes no byte outside the ones it writes.
pub proof fn lemma_std_store_frame(m: Map<u32, Seq<u8>>, addr: u32, width: u32, value: i32, x: u32)
    requires
        pages_well_formed(m),
        width <= 2,
        addr + width_bytes(width) - 1 <= u32::MAX,
        !(addr <= x < addr + width_bytes(width)),
    ensures
        mem_byte(std_store(m, addr, width, value), x) == mem_byte(m, x),
        pages_well_formed(std_store(m, addr, width, value)),
{
    if width == 0 {
        lemma_mem_store_byte(m, addr, value, x);
    } else if width == 1 {
        let m1 = mem_store_byte(m, (addr + 1) as u32, value >> 8);
        lemma_mem_store_byte(m, (addr + 1) as u32, value >> 8, x);
        lemma_mem_store_byte(m1, addr, value & 0xff, x);
    } else {
        let h = value >> 16;
        let a2 = (addr + 2) as u32;
        let m1 = mem_store_byte(m, (a2 + 1) as u32, h >> 8);
        let m2 = mem_store_byte(m1, a2, h & 0xff);
        let l = value & 0xffff;
        let m3 = mem_store_byte(m2, (addr + 1) as u32, l >> 8);
        lemma_mem_store_byte(m, (a2 + 1) as u32, h >> 8, x);
        lemma_mem_store_byte(m1, a2, h & 0xff, x);
        lemma_mem_store_byte(m2, (addr + 1) as u32, l >> 8, x);
        lemma_mem_store_byte(m3, addr, l & 0xff, x);
    }
}

} // verus!
