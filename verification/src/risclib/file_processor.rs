use vstd::prelude::*;

verus! {

/// Where the data region of an object file starts.
pub const DATA_START: u32 = 0x20;

/// Bytes the text region is aligned to.
pub const XLEN: u32 = 32;

/// The tag that opens an object file: `b"RV32I"`.
pub open spec fn file_header() -> Seq<u8> {
    seq![0x52u8, 0x56u8, 0x33u8, 0x32u8, 0x49u8]
}

/// The two bytes of a half word, little-endian.
pub open spec fn u16_bytes(x: u16) -> Seq<u8> {
    seq![(x % 256) as u8, (x / 256) as u8]
}

/// The four bytes of a word, little-endian.
pub open spec fn u32_bytes(x: u32) -> Seq<u8> {
    seq![(x % 256) as u8, ((x / 256) % 256) as u8, ((x / 65536) % 256) as u8, (x / 16777216) as u8]
}

/// Where the data region of an object file with `n` data bytes ends.
pub open spec fn data_end(n: nat) -> int {
    DATA_START + n
}

/// Where the text region starts: past the data, at the next multiple of 32
/// (a full 32 further on where the data ends on a multiple).
pub open spec fn text_start(n: nat) -> int {
    data_end(n) + (XLEN - data_end(n) % (XLEN as int))
}

/// The object file holding `data` and `text`: the tag, the start and end of
/// the data region and the start of the text region, zeros up to `DATA_START`,
/// the data, zeros up to the text start, and the text.
pub open spec fn object_file(data: Seq<u8>, text: Seq<u8>) -> Seq<u8> {
    file_header() + u16_bytes(DATA_START as u16) + u16_bytes(data_end(data.len()) as u16) + u32_bytes(
        text_start(data.len()) as u32,
    ) + Seq::new(19, |i: int| 0u8) + data + Seq::new(
        (text_start(data.len()) - data_end(data.len())) as nat,
        |i: int| 0u8,
    ) + text
}

/// The little-endian half word at `at`.
pub open spec fn read_u16(obj: Seq<u8>, at: int) -> int {
    obj[at] + 256 * obj[at + 1]
}

/// The little-endian word at `at`.
pub open spec fn read_u32(obj: Seq<u8>, at: int) -> int {
    obj[at] + 256 * obj[at + 1] + 65536 * obj[at + 2] + 16777216 * obj[at + 3]
}

/// Whether `obj` is an object file whose regions lie inside it.
pub open spec fn parsable(obj: Seq<u8>) -> bool {
    &&& obj.len() >= 13
    &&& obj.subrange(0, 5) == file_header()
    &&& read_u16(obj, 5) <= read_u16(obj, 7) <= obj.len()
    &&& read_u32(obj, 9) <= obj.len()
}

fn push_zeros(v: &mut Vec<u8>, n: usize)
    ensures
        final(v)@ == old(v)@ + Seq::new(n as nat, |i: int| 0u8),
{
    let ghost start = v@;
    let mut i: usize = 0;
    while i < n
        invariant
            i <= n,
            v@ == start + Seq::new(i as nat, |j: int| 0u8),
        decreases n - i,
    {
        v.push(0u8);
        i = i + 1;
        assert(v@ =~= start + Seq::new(i as nat, |j: int| 0u8));
    }
}

fn push_all(v: &mut Vec<u8>, s: &Vec<u8>)
    ensures
        final(v)@ == old(v)@ + s@,
{
    let ghost start = v@;
    let mut i: usize = 0;
    while i < s.len()
        invariant
            i <= s@.len(),
            v@ == start + s@.subrange(0, i as int),
        decreases s@.len() - i,
    {
        v.push(s[i]);
        i = i + 1;
        assert(v@ =~= start + s@.subrange(0, i as int));
    }
    assert(s@.subrange(0, s@.len() as int) =~= s@);
}

/// Builds the object file holding a data region and a text region; the data
/// region is limited to `0xffff - DATA_START` bytes.
pub fn newfile(data: Vec<u8>, text: Vec<u8>) -> (obj: Vec<u8>)
    requires
        data@.len() <= 0xffff - DATA_START,
    ensures
        obj@ == object_file(data@, text@),
{
    let mut obj: Vec<u8> = Vec::new();
    obj.push(0x52);
    obj.push(0x56);
    obj.push(0x33);
    obj.push(0x32);
    obj.push(0x49);
    let regionst: u16 = DATA_START as u16;
    let xlenbytes: u32 = XLEN;
    let dataend: u16 = regionst + data.len() as u16;
    let tsaligned: u32 = dataend as u32 + (xlenbytes - (dataend as u32 % xlenbytes));
    obj.push((regionst % 256) as u8);
    obj.push((regionst / 256) as u8);
    obj.push((dataend % 256) as u8);
    obj.push((dataend / 256) as u8);
    obj.push((tsaligned % 256) as u8);
    obj.push(((tsaligned / 256) % 256) as u8);
    obj.push(((tsaligned / 65536) % 256) as u8);
    obj.push((tsaligned / 16777216) as u8);
    let pad: usize = regionst as usize - obj.len();
    push_zeros(&mut obj, pad);
    push_all(&mut obj, &data);
    push_zeros(&mut obj, (tsaligned - dataend as u32) as usize);
    push_all(&mut obj, &text);
    assert(obj@ =~= object_file(data@, text@));
    obj
}

/// Splits an object file into its data region and its text region.
pub fn parsebin(obj: &[u8]) -> (r: (&[u8], &[u8]))
    requires
        parsable(obj@),
    ensures
        r.0@ == obj@.subrange(read_u16(obj@, 5), read_u16(obj@, 7)),
        r.1@ == obj@.subrange(read_u32(obj@, 9), obj@.len() as int),
{
    let data_start = (obj[5] as usize) + 256 * (obj[6] as usize);
    let data_end = (obj[7] as usize) + 256 * (obj[8] as usize);
    let text_start = (obj[9] as usize) + 256 * (obj[10] as usize) + 65536 * (obj[11] as usize)
        + 16777216 * (obj[12] as usize);
    (&obj[data_start..data_end], &obj[text_start..obj.len()])
}

/// Splitting the object file built from a data region and a text region gives
/// the two regions back.
pub proof fn lemma_parse_after_build(data: Seq<u8>, text: Seq<u8>)
    requires
        data.len() <= 0xffff - DATA_START,
    ensures
        parsable(object_file(data, text)),
        object_file(data, text).subrange(
            read_u16(object_file(data, text), 5),
            read_u16(object_file(data, text), 7),
        ) == data,
        object_file(data, text).subrange(
            read_u32(object_file(data, text), 9),
            object_file(data, text).len() as int,
        ) == text,
{
    let obj = object_file(data, text);
    let de = data_end(data.len());
    let ts = text_start(data.len());
    assert(obj.subrange(0, 5) =~= file_header());
    assert(read_u16(obj, 5) == 0x20);
    assert(read_u16(obj, 7) == de);
    assert(read_u32(obj, 9) == ts);
    assert(obj.subrange(0x20, de) =~= data);
    assert(obj.subrange(ts, obj.len() as int) =~= text);
}


/// Whether `obj` is an object file whose regions lie inside it (see
/// [`parsable`]).
pub fn is_parsable(obj: &[u8]) -> (r: bool)
    ensures
        r == parsable(obj@),
{
    if obj.len() < 13 {
        return false;
    }
    if !(obj[0] == 0x52 && obj[1] == 0x56 && obj[2] == 0x33 && obj[3] == 0x32 && obj[4] == 0x49) {
        assert(obj@.subrange(0, 5)[0] == obj@[0] && obj@.subrange(0, 5)[1] == obj@[1]
            && obj@.subrange(0, 5)[2] == obj@[2] && obj@.subrange(0, 5)[3] == obj@[3]
            && obj@.subrange(0, 5)[4] == obj@[4]);
        return false;
    }
    assert(obj@.subrange(0, 5) =~= file_header());
    let data_start = (obj[5] as usize) + 256 * (obj[6] as usize);
    let data_end = (obj[7] as usize) + 256 * (obj[8] as usize);
    let text_start: u64 = (obj[9] as u64) + 256 * (obj[10] as u64) + 65536 * (obj[11] as u64)
        + 16777216 * (obj[12] as u64);
    data_start <= data_end && data_end <= obj.len() && text_start <= obj.len() as u64
}

} // verus!
