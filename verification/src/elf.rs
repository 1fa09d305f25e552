use vstd::prelude::*;

use crate::memory::{
    le16, le32, lemma_mem_store_byte, mem_byte, mem_store_byte, pages_well_formed, StandardAccess,
    StdMemory,
};
use crate::risclib::Trap;

verus! {

/// `p_type` of a segment to be loaded.
pub const P_LOAD: u32 = 0x0000_0001;

/// Why an ELF image is refused.
#[derive(Clone, Copy, Debug, PartialEq, Eq, Structural)]
pub enum ElfErr {
    NoMagic,
    NoELF,
    InvalidArch,
    NotExecutable,
}

/// The message reported for each refusal.
pub open spec fn elf_err_message(e: ElfErr) -> Seq<char> {
    match e {
        ElfErr::NoELF => "No ELF header in file (expecting b\"ELF\" in address 1 -> 4)"@,
        ElfErr::NoMagic => "No magic number in file (expecting 0x7f in address 0)"@,
        ElfErr::InvalidArch => "Invalid architecture! expected riscv (0xf3) but got something else!"@,
        ElfErr::NotExecutable => "File type is not executable! expected 0x02 (ET_EXEC) but got something else!"@,
    }
}

impl ElfErr {
    /// The message reported for a refusal.
    pub fn expose(err: &ElfErr) -> (s: &'static str)
        ensures
            s@ == elf_err_message(*err),
    {
        match err {
            ElfErr::NoELF => "No ELF header in file (expecting b\"ELF\" in address 1 -> 4)",
            ElfErr::NoMagic => "No magic number in file (expecting 0x7f in address 0)",
            ElfErr::InvalidArch => {
                "Invalid architecture! expected riscv (0xf3) but got something else!"
            },
            ElfErr::NotExecutable => {
                "File type is not executable! expected 0x02 (ET_EXEC) but got something else!"
            },
        }
    }
}

/// A little-endian half word of `obj` at `at`.
pub open spec fn obj_u16(obj: Seq<u8>, at: int) -> u16 {
    le16(obj[at], obj[at + 1]) as u16
}

/// A little-endian word of `obj` at `at`.
pub open spec fn obj_u32(obj: Seq<u8>, at: int) -> u32 {
    le32(obj[at], obj[at + 1], obj[at + 2], obj[at + 3]) as u32
}

/// The ELF file header (the section-header fields are not read).
pub struct Ehdr {
    pub ident: [u8; 16],
    pub etype: u16,
    pub machine: u16,
    pub version: u32,
    pub entry: u32,
    pub phoff: u32,
    pub shoff: u32,
    pub flags: u32,
    pub ehsize: u16,
    pub phentsize: u16,
    pub phnum: u16,
    pub shentsize: u16,
    pub shnum: u16,
    pub shstrndx: u16,
}

impl Ehdr {
    pub fn new(
        ident: [u8; 16],
        etype: u16,
        machine: u16,
        version: u32,
        entry: u32,
        phoff: u32,
        shoff: u32,
        flags: u32,
        ehsize: u16,
        phentsize: u16,
        phnum: u16,
        shentsize: u16,
        shnum: u16,
        shstrndx: u16,
    ) -> (h: Ehdr)
        ensures
            h.ident == ident,
            h.etype == etype,
            h.machine == machine,
            h.version == version,
            h.entry == entry,
            h.phoff == phoff,
            h.shoff == shoff,
            h.flags == flags,
            h.ehsize == ehsize,
            h.phentsize == phentsize,
            h.phnum == phnum,
            h.shentsize == shentsize,
            h.shnum == shnum,
            h.shstrndx == shstrndx,
    {
        Ehdr {
            ident,
            etype,
            machine,
            version,
            entry,
            phoff,
            shoff,
            flags,
            ehsize,
            phentsize,
            phnum,
            shentsize,
            shnum,
            shstrndx,
        }
    }
}

/// A program header.
pub struct Phdr {
    pub ptype: u32,
    pub offset: u32,
    pub vaddr: u32,
    pub paddr: u32,
    pub filesz: u32,
    pub memsz: u32,
    pub flags: u32,
    pub align: u32,
}

/// The verdict on an image's file header: the magic byte, the "ELF" tag, the
/// executable type and the RISC-V machine are checked in that order.
pub open spec fn header_verdict(obj: Seq<u8>) -> Result<(), ElfErr> {
    if obj[0] != 0x7f {
        Err(ElfErr::NoMagic)
    } else if obj[1] != 0x45 || obj[2] != 0x4c || obj[3] != 0x46 {
        Err(ElfErr::NoELF)
    } else if obj_u16(obj, 0x10) != 0x02 {
        Err(ElfErr::NotExecutable)
    } else if obj_u16(obj, 0x12) != 0xf3 {
        Err(ElfErr::InvalidArch)
    } else {
        Ok(())
    }
}

/// Where program header `k` starts.
pub open spec fn ph_start(obj: Seq<u8>, k: int) -> int {
    obj_u32(obj, 0x1c) + k * obj_u16(obj, 0x2a)
}

pub open spec fn ph_type(obj: Seq<u8>, k: int) -> u32 {
    obj_u32(obj, ph_start(obj, k))
}

pub open spec fn ph_offset(obj: Seq<u8>, k: int) -> u32 {
    obj_u32(obj, ph_start(obj, k) + 0x04)
}

pub open spec fn ph_vaddr(obj: Seq<u8>, k: int) -> u32 {
    obj_u32(obj, ph_start(obj, k) + 0x08)
}

pub open spec fn ph_filesz(obj: Seq<u8>, k: int) -> u32 {
    obj_u32(obj, ph_start(obj, k) + 0x10)
}

/// Whether program header `k` and, where it is a loadable segment, the
/// segment's bytes lie inside the image and its addresses inside the address
/// space.
pub open spec fn ph_in_bounds(obj: Seq<u8>, k: int) -> bool {
    &&& ph_start(obj, k) + 0x20 <= obj.len()
    &&& ph_start(obj, k) + 0x20 <= usize::MAX
    &&& ph_type(obj, k) == P_LOAD ==> {
        &&& ph_offset(obj, k) + ph_filesz(obj, k) <= obj.len()
        &&& ph_vaddr(obj, k) + ph_filesz(obj, k) <= u32::MAX + 1
    }
}

/// Whether loading `obj` reads only inside it: the file header is there, and
/// where the header is accepted so is every program header and loadable segment.
pub open spec fn loadable(obj: Seq<u8>) -> bool {
    &&& obj.len() >= 0x2e
    &&& header_verdict(obj) is Ok ==> forall|k: int|
        0 <= k < obj_u16(obj, 0x2c) ==> #[trigger] ph_in_bounds(obj, k)
}

/// A paged memory after the bytes of `s` are stored from `addr` on, first to last.
pub open spec fn store_bytes(m: Map<u32, Seq<u8>>, addr: u32, s: Seq<u8>) -> Map<u32, Seq<u8>>
    decreases s.len(),
{
    if s.len() == 0 {
        m
    } else {
        mem_store_byte(store_bytes(m, addr, s.drop_last()), (addr + s.len() - 1) as u32, s.last() as i32)
    }
}

/// A paged memory after the loadable segments among the first `k` program
/// headers are stored, in order.
pub open spec fn segments_loaded(m: Map<u32, Seq<u8>>, obj: Seq<u8>, k: int) -> Map<u32, Seq<u8>>
    decreases k,
{
    if k <= 0 {
        m
    } else {
        let before = segments_loaded(m, obj, k - 1);
        if ph_type(obj, k - 1) == P_LOAD {
            let off = ph_offset(obj, k - 1) as int;
            store_bytes(before, ph_vaddr(obj, k - 1), obj.subrange(off, off + ph_filesz(obj, k - 1)))
        } else {
            before
        }
    }
}

/// Storing the bytes of `s` from `addr` on puts byte `j` of `s` at
/// `addr + j` and leaves every other byte as it was.
pub proof fn lemma_store_bytes(m: Map<u32, Seq<u8>>, addr: u32, s: Seq<u8>, x: u32)
    requires
        pages_well_formed(m),
        addr + s.len() <= u32::MAX + 1,
    ensures
        pages_well_formed(store_bytes(m, addr, s)),
        mem_byte(store_bytes(m, addr, s), x) == if addr <= x < addr + s.len() {
            s[x - addr]
        } else {
            mem_byte(m, x)
        },
    decreases s.len(),
{
    if s.len() > 0 {
        let before = store_bytes(m, addr, s.drop_last());
        lemma_store_bytes(m, addr, s.drop_last(), x);
        let at = (addr + s.len() - 1) as u32;
        lemma_mem_store_byte(before, at, s.last() as i32, x);
        let b = s.last();
        assert(((b as i32) & 0xff) as u8 == b) by (bit_vector);
        if addr <= x < addr + s.len() - 1 {
            assert(s.drop_last()[x - addr] == s[x - addr]);
        }
    }
}

/// Whether program header `k` is a loadable segment whose bytes cover
/// address `x`.
pub open spec fn segment_covers(obj: Seq<u8>, k: int, x: u32) -> bool {
    ph_type(obj, k) == P_LOAD && ph_vaddr(obj, k) <= x < ph_vaddr(obj, k) + ph_filesz(obj, k)
}

/// Loading the segments of the first `n` program headers puts each loadable
/// segment's file bytes at its virtual address: a byte that loadable
/// segments among them cover holds the file's byte of the last of them (the
/// segment's byte at its distance from the segment's virtual address), and a
/// byte that none covers keeps what it held.
pub proof fn lemma_segments_loaded(m: Map<u32, Seq<u8>>, obj: Seq<u8>, n: int, x: u32)
    requires
        pages_well_formed(m),
        forall|k: int| 0 <= k < n ==> #[trigger] ph_in_bounds(obj, k),
    ensures
        pages_well_formed(segments_loaded(m, obj, n)),
        forall|k: int|
            0 <= k < n && #[trigger] segment_covers(obj, k, x) && (forall|j: int|
                k < j < n ==> !segment_covers(obj, j, x)) ==> mem_byte(segments_loaded(m, obj, n), x)
                == obj[ph_offset(obj, k) + (x - ph_vaddr(obj, k))],
        (forall|k: int| 0 <= k < n ==> !#[trigger] segment_covers(obj, k, x)) ==> mem_byte(
            segments_loaded(m, obj, n),
            x,
        ) == mem_byte(m, x),
    decreases n,
{
    if n > 0 {
        lemma_segments_loaded(m, obj, n - 1, x);
        let before = segments_loaded(m, obj, n - 1);
        let last = n - 1;
        assert(ph_in_bounds(obj, last));
        if ph_type(obj, last) == P_LOAD {
            let off = ph_offset(obj, last) as int;
            let sub = obj.subrange(off, off + ph_filesz(obj, last));
            lemma_store_bytes(before, ph_vaddr(obj, last), sub, x);
        }
        assert forall|k: int|
            0 <= k < n && #[trigger] segment_covers(obj, k, x) && (forall|j: int|
                k < j < n ==> !segment_covers(obj, j, x)) implies mem_byte(segments_loaded(m, obj, n), x)
            == obj[ph_offset(obj, k) + (x - ph_vaddr(obj, k))] by {
            if k < last {
                assert(!segment_covers(obj, last, x));
                assert forall|j: int| k < j < last implies !segment_covers(obj, j, x) by {
                    assert(k < j < n);
                }
            }
        }
        assert((forall|k: int| 0 <= k < n ==> !#[trigger] segment_covers(obj, k, x)) ==> !segment_covers(
            obj,
            last,
            x,
        ));
    }
}

/// The bytes `from[start..end]`.
fn getbytes(from: &[u8], start: usize, end: usize) -> (v: Vec<u8>)
    requires
        start <= end <= from@.len(),
    ensures
        v@ == from@.subrange(start as int, end as int),
{
    let mut v: Vec<u8> = Vec::new();
    let mut i: usize = start;
    while i < end
        invariant
            start <= i <= end <= from@.len(),
            v@ == from@.subrange(start as int, i as int),
        decreases end - i,
    {
        v.push(from[i]);
        i = i + 1;
        assert(v@ =~= from@.subrange(start as int, i as int));
    }
    v
}

/// The little-endian half word at `at`.
fn getu16(from: &[u8], at: usize) -> (v: u16)
    requires
        at + 2 <= from@.len(),
    ensures
        v == obj_u16(from@, at as int),
{
    let b0 = from[at] as u16;
    let b1 = from[at + 1] as u16;
    assert(b0 | (b1 << 8) == b0 + 256 * b1) by (bit_vector)
        requires b0 < 256, b1 < 256;
    b0 | (b1 << 8)
}

/// The little-endian word at `at`.
fn getu32(from: &[u8], at: usize) -> (v: u32)
    requires
        at + 4 <= from@.len(),
    ensures
        v == obj_u32(from@, at as int),
{
    let b0 = from[at] as u32;
    let b1 = from[at + 1] as u32;
    let b2 = from[at + 2] as u32;
    let b3 = from[at + 3] as u32;
    assert(b0 | (b1 << 8) | (b2 << 16) | (b3 << 24) == b0 + 256 * b1 + 65536 * b2 + 16777216 * b3)
        by (bit_vector)
        requires b0 < 256, b1 < 256, b2 < 256, b3 < 256;
    b0 | (b1 << 8) | (b2 << 16) | (b3 << 24)
}


/// Reads the file header.
fn give_ehdr(obj: &[u8]) -> (h: Ehdr)
    requires
        obj@.len() >= 0x2e,
    ensures
        h.ident@ == obj@.subrange(0, 16),
        h.etype == obj_u16(obj@, 0x10),
        h.machine == obj_u16(obj@, 0x12),
        h.version == obj_u32(obj@, 0x14),
        h.entry == obj_u32(obj@, 0x18),
        h.phoff == obj_u32(obj@, 0x1c),
        h.shoff == obj_u32(obj@, 0x20),
        h.flags == obj_u32(obj@, 0x24),
        h.ehsize == obj_u16(obj@, 0x28),
        h.phentsize == obj_u16(obj@, 0x2a),
        h.phnum == obj_u16(obj@, 0x2c),
        h.shentsize == 0,
        h.shnum == 0,
        h.shstrndx == 0,
{
    broadcast use vstd::array::group_array_axioms;

    let head = getbytes(obj, 0x00, 0x10);
    let mut ident: [u8; 16] = vstd::array::array_fill_for_copy_types::<u8, 16>(0u8);
    let mut i: usize = 0;
    while i < 16
        invariant
            i <= 16,
            obj@.len() >= 0x2e,
            head@ == obj@.subrange(0, 16),
            forall|j: int| 0 <= j < i ==> ident@[j] == head@[j],
        decreases 16 - i,
    {
        ident[i] = head[i];
        i = i + 1;
    }
    assert(ident@ =~= obj@.subrange(0, 16));
    let etype: u16 = getu16(obj, 0x10);
    let machine: u16 = getu16(obj, 0x12);
    let version: u32 = getu32(obj, 0x14);
    let entry: u32 = getu32(obj, 0x18);
    let phoff: u32 = getu32(obj, 0x1c);
    let shoff: u32 = getu32(obj, 0x20);
    let flags: u32 = getu32(obj, 0x24);
    let ehsize: u16 = getu16(obj, 0x28);
    let phentsize: u16 = getu16(obj, 0x2a);
    let phnum: u16 = getu16(obj, 0x2c);
    let shentsize: u16 = 0;
    let shnum: u16 = 0;
    let shstrndx: u16 = 0;
    Ehdr::new(
        ident,
        etype,
        machine,
        version,
        entry,
        phoff,
        shoff,
        flags,
        ehsize,
        phentsize,
        phnum,
        shentsize,
        shnum,
        shstrndx,
    )
}

/// Checks the file header.
fn confirm(ehdr: &Ehdr) -> (r: Result<(), ElfErr>)
    ensures
        r == (if ehdr.ident@[0] != 0x7f {
            Err::<(), ElfErr>(ElfErr::NoMagic)
        } else if ehdr.ident@[1] != 0x45 || ehdr.ident@[2] != 0x4c || ehdr.ident@[3] != 0x46 {
            Err(ElfErr::NoELF)
        } else if ehdr.etype != 0x02 {
            Err(ElfErr::NotExecutable)
        } else if ehdr.machine != 0xf3 {
            Err(ElfErr::InvalidArch)
        } else {
            Ok(())
        }),
{
    broadcast use vstd::array::group_array_axioms;

    if ehdr.ident[0] != 0x7f {
        return Err(ElfErr::NoMagic);
    }
    if ehdr.ident[1] != 0x45 || ehdr.ident[2] != 0x4c || ehdr.ident[3] != 0x46 {
        return Err(ElfErr::NoELF);
    }
    if ehdr.etype != 0x02 {
        return Err(ElfErr::NotExecutable);
    }
    if ehdr.machine != 0xf3 {
        return Err(ElfErr::InvalidArch);
    }
    Ok(())
}

/// Reads the program header at `from`.
fn load_prog(obj: &[u8], from: usize) -> (p: Phdr)
    requires
        from + 0x20 <= obj@.len(),
        from + 0x20 <= usize::MAX,
    ensures
        p.ptype == obj_u32(obj@, from as int),
        p.offset == obj_u32(obj@, from + 0x04),
        p.vaddr == obj_u32(obj@, from + 0x08),
        p.paddr == obj_u32(obj@, from + 0x0c),
        p.filesz == obj_u32(obj@, from + 0x10),
        p.memsz == obj_u32(obj@, from + 0x14),
        p.flags == obj_u32(obj@, from + 0x18),
        p.align == obj_u32(obj@, from + 0x1c),
{
    let ptype: u32 = getu32(obj, from + 0x00);
    let offset: u32 = getu32(obj, from + 0x04);
    let vaddr: u32 = getu32(obj, from + 0x08);
    let paddr: u32 = getu32(obj, from + 0x0c);
    let filesz: u32 = getu32(obj, from + 0x10);
    let memsz: u32 = getu32(obj, from + 0x14);
    let flags: u32 = getu32(obj, from + 0x18);
    let align: u32 = getu32(obj, from + 0x1c);
    Phdr { ptype, offset, vaddr, paddr, filesz, memsz, flags, align }
}

/// Loads an executable ELF image into `mem`: each loadable segment's bytes
/// are stored at its virtual address, in the order of the program headers.
/// Gives the entry point, or why the image is refused (the memory is then
/// unchanged).
pub fn load(obj: &[u8], mem: &mut StdMemory) -> (r: Result<u32, ElfErr>)
    requires
        loadable(obj@),
    ensures
        match header_verdict(obj@) {
            Err(e) => r == Err::<u32, ElfErr>(e) && final(mem)@ == old(mem)@,
            Ok(_) => r == Ok::<u32, ElfErr>(obj_u32(obj@, 0x18)) && final(mem)@ == segments_loaded(
                old(mem)@,
                obj@,
                obj_u16(obj@, 0x2c) as int,
            ),
        },
{
    let ehdr = give_ehdr(obj);
    match confirm(&ehdr) {
        Ok(()) => {},
        Err(e) => return Err(e),
    }
    assert(header_verdict(obj@) is Ok);
    let mut pheaders: Vec<Phdr> = Vec::new();
    let mut ientry: u16 = 0;
    while ientry < ehdr.phnum
        invariant
            loadable(obj@),
            header_verdict(obj@) is Ok,
            ehdr.phoff == obj_u32(obj@, 0x1c),
            ehdr.phentsize == obj_u16(obj@, 0x2a),
            ehdr.phnum == obj_u16(obj@, 0x2c),
            ientry <= ehdr.phnum,
            pheaders@.len() == ientry,
            forall|k: int|
                0 <= k < ientry ==> {
                    &&& (#[trigger] pheaders@[k]).ptype == ph_type(obj@, k)
                    &&& pheaders@[k].offset == ph_offset(obj@, k)
                    &&& pheaders@[k].vaddr == ph_vaddr(obj@, k)
                    &&& pheaders@[k].filesz == ph_filesz(obj@, k)
                },
        decreases ehdr.phnum - ientry,
    {
        assert(ph_in_bounds(obj@, ientry as int));
        let at: usize = ehdr.phoff as usize + ientry as usize * ehdr.phentsize as usize;
        let phdr = load_prog(obj, at);
        pheaders.push(phdr);
        ientry = ientry + 1;
    }
    let ghost m0 = mem@;
    let obj_len = obj.len();
    let mut k: usize = 0;
    while k < pheaders.len()
        invariant
            loadable(obj@),
            obj_len == obj@.len(),
            header_verdict(obj@) is Ok,
            pheaders@.len() == obj_u16(obj@, 0x2c),
            k <= pheaders@.len(),
            forall|j: int|
                0 <= j < pheaders@.len() ==> {
                    &&& (#[trigger] pheaders@[j]).ptype == ph_type(obj@, j)
                    &&& pheaders@[j].offset == ph_offset(obj@, j)
                    &&& pheaders@[j].vaddr == ph_vaddr(obj@, j)
                    &&& pheaders@[j].filesz == ph_filesz(obj@, j)
                },
            mem@ == segments_loaded(m0, obj@, k as int),
        decreases pheaders@.len() - k,
    {
        let pheader = &pheaders[k];
        assert(ph_in_bounds(obj@, k as int));
        if pheader.ptype == P_LOAD {
            let off: usize = pheader.offset as usize;
            let ghost seg = obj@.subrange(off as int, off + pheader.filesz);
            let ghost before = mem@;
            let mut i: u32 = 0;
            while i < pheader.filesz
                invariant
                    obj_len == obj@.len(),
                    pheader.offset + pheader.filesz <= obj@.len(),
                    pheader.vaddr + pheader.filesz <= u32::MAX + 1,
                    off == pheader.offset,
                    seg == obj@.subrange(off as int, off + pheader.filesz),
                    i <= pheader.filesz,
                    mem@ == store_bytes(before, pheader.vaddr, seg.subrange(0, i as int)),
                decreases pheader.filesz - i,
            {
                let byte = obj[off + i as usize];
                let errorres = mem.store_byte(pheader.vaddr + i, byte as i32);
                if errorres.is_err() {
                    return Err(ElfErr::NotExecutable);
                }
                assert(seg.subrange(0, i + 1).drop_last() =~= seg.subrange(0, i as int));
                i = i + 1;
            }
            assert(seg.subrange(0, pheader.filesz as int) =~= seg);
        }
        k = k + 1;
    }
    Ok(ehdr.entry)
}


/// Whether loading `obj` reads only inside it (see [`loadable`]).
pub fn is_loadable(obj: &[u8]) -> (r: bool)
    ensures
        r == loadable(obj@),
{
    if obj.len() < 0x2e {
        return false;
    }
    let ehdr = give_ehdr(obj);
    if confirm(&ehdr).is_err() {
        return true;
    }
    let n: usize = obj.len();
    let len: u64 = n as u64;
    let mut k: u16 = 0;
    while k < ehdr.phnum
        invariant
            obj@.len() >= 0x2e,
            len == n,
            n == obj@.len(),
            header_verdict(obj@) is Ok,
            ehdr.phoff == obj_u32(obj@, 0x1c),
            ehdr.phentsize == obj_u16(obj@, 0x2a),
            ehdr.phnum == obj_u16(obj@, 0x2c),
            k <= ehdr.phnum,
            forall|j: int| 0 <= j < k ==> #[trigger] ph_in_bounds(obj@, j),
        decreases ehdr.phnum - k,
    {
        assert(k as u64 * ehdr.phentsize as u64 <= 0xffff * 0xffff) by (nonlinear_arith)
            requires
                k <= 0xffff,
                ehdr.phentsize <= 0xffff,
        ;
        let start: u64 = ehdr.phoff as u64 + k as u64 * ehdr.phentsize as u64;
        assert(start == ph_start(obj@, k as int));
        if start + 0x20 > len {
            assert(!ph_in_bounds(obj@, k as int));
            return false;
        }
        assert(start + 0x20 <= usize::MAX);
        let p = load_prog(obj, start as usize);
        if p.ptype == P_LOAD {
            if p.offset as u64 + p.filesz as u64 > len || p.vaddr as u64 + p.filesz as u64
                > 0x1_0000_0000 {
                assert(!ph_in_bounds(obj@, k as int));
                return false;
            }
        }
        assert(ph_in_bounds(obj@, k as int));
        k = k + 1;
    }
    true
}

} // verus!
