use vstd::prelude::*;

use crate::risclib::file_processor::{newfile, object_file, u32_bytes, DATA_START};
use crate::text::{
    chars_eq, chars_eq_str, chars_of, decimal, decimal_chars, int_from_any, int_from_any_exec, remove_char, remove_chars,
    slice_chars, split, split_chars, tokenise_line, tokens, trim, trim_chars, IntErrorKind,
};
use crate::assembler::encode::{encode_tokens, encode_tokens_exec};
use crate::assembler::rewrite::{
    expand, expand_exec, li_size, li_size_exec, normalize, normalize_exec, resolve_labels,
    resolve_labels_exec, resolve_word, resolve_word_exec, substitute_exec, substitute_line,
};

pub mod encode;
pub mod rewrite;
pub mod semantics;

verus! {

// ---------------------------------------------------------------------------
// Name tables: later entries win.

/// The map that a list of entries makes when inserted in order.
pub open spec fn table_map(keys: Seq<Seq<char>>, vals: Seq<u32>) -> Map<Seq<char>, u32>
    decreases keys.len(),
{
    if keys.len() == 0 || vals.len() != keys.len() {
        Map::empty()
    } else {
        table_map(keys.drop_last(), vals.drop_last()).insert(keys.last(), vals.last())
    }
}

/// A map from names to numbers.
pub struct Table {
    keys: Vec<Vec<char>>,
    vals: Vec<u32>,
}

impl Table {
    pub closed spec fn key_seq(&self) -> Seq<Seq<char>> {
        self.keys@.map_values(|k: Vec<char>| k@)
    }

    pub closed spec fn view(&self) -> Map<Seq<char>, u32> {
        table_map(self.key_seq(), self.vals@)
    }

    pub closed spec fn wf(&self) -> bool {
        self.keys@.len() == self.vals@.len()
    }

    pub fn new() -> (t: Table)
        ensures
            t.wf(),
            t.view() == Map::<Seq<char>, u32>::empty(),
    {
        let t = Table { keys: Vec::new(), vals: Vec::new() };
        assert(t.key_seq() =~= Seq::<Seq<char>>::empty());
        t
    }

    /// Maps `key` to `val`, replacing what it mapped to.
    pub fn insert(&mut self, key: Vec<char>, val: u32)
        requires
            old(self).wf(),
        ensures
            final(self).wf(),
            final(self).view() == old(self).view().insert(key@, val),
    {
        let ghost ks = self.key_seq();
        let ghost k = key@;
        self.keys.push(key);
        self.vals.push(val);
        assert(self.key_seq() =~= ks.push(k));
        assert(self.key_seq().drop_last() =~= ks);
        assert(self.vals@.drop_last() =~= old(self).vals@);
    }

    /// Whether the table is empty.
    pub fn is_empty(&self) -> (r: bool)
        requires
            self.wf(),
        ensures
            r == (self.view().dom().len() == 0),
            r ==> self.view() == Map::<Seq<char>, u32>::empty(),
    {
        proof {
            lemma_table_map_finite(self.key_seq(), self.vals@);
        }
        if self.keys.len() == 0 {
            assert(self.view() =~= Map::<Seq<char>, u32>::empty());
            true
        } else {
            let ghost ks = self.key_seq();
            assert(self.view().contains_key(ks.last()));
            false
        }
    }

    /// What `key` maps to.
    pub fn get(&self, key: &Vec<char>) -> (r: Option<u32>)
        requires
            self.wf(),
        ensures
            r == (if self.view().contains_key(key@) {
                Some(self.view()[key@])
            } else {
                None::<u32>
            }),
    {
        let ghost ks = self.key_seq();
        let mut i: usize = self.keys.len();
        assert(ks.subrange(0, i as int) =~= ks);
        assert(self.vals@.subrange(0, i as int) =~= self.vals@);
        while i > 0
            invariant
                self.wf(),
                ks == self.key_seq(),
                i <= ks.len(),
                table_map(ks, self.vals@).contains_key(key@) == table_map(
                    ks.subrange(0, i as int),
                    self.vals@.subrange(0, i as int),
                ).contains_key(key@),
                table_map(ks, self.vals@).contains_key(key@) ==> table_map(ks, self.vals@)[key@]
                    == table_map(ks.subrange(0, i as int), self.vals@.subrange(0, i as int))[key@],
            decreases i,
        {
            let ghost pk = ks.subrange(0, i as int);
            let ghost pv = self.vals@.subrange(0, i as int);
            assert(pk.drop_last() =~= ks.subrange(0, i - 1));
            assert(pv.drop_last() =~= self.vals@.subrange(0, i - 1));
            if chars_eq(&self.keys[i - 1], key) {
                return Some(self.vals[i - 1]);
            }
            i = i - 1;
        }
        assert(table_map(ks.subrange(0, 0), self.vals@.subrange(0, 0)) =~= Map::empty());
        None
    }
}

proof fn lemma_table_map_finite(keys: Seq<Seq<char>>, vals: Seq<u32>)
    ensures
        table_map(keys, vals).dom().finite(),
    decreases keys.len(),
{
    if keys.len() > 0 && vals.len() == keys.len() {
        lemma_table_map_finite(keys.drop_last(), vals.drop_last());
    }
}


// ---------------------------------------------------------------------------
// The data section.

/// Zero bytes that bring `ptr` up to a multiple of `how`.
pub open spec fn pad_to(ptr: int, how: int) -> int {
    (how - ptr % how) % how
}

/// The type and the name of a data declaration: `name: type = value`, or
/// `type name = value`.
pub open spec fn declared(toks: Seq<Seq<char>>) -> (Seq<char>, Seq<char>) {
    if toks[0].len() > 0 && toks[0].last() == ':' {
        (toks[1], toks[0].drop_last())
    } else {
        (toks[0], toks[1])
    }
}

/// The data section from line `i` on, given the symbols so far, the bytes so
/// far and the current offset. Each non-blank line declares a name, a type
/// and a value (see [`declared`]): a `byte` (at most 0xff) takes one byte; a
/// `half` (at most 0xffff) is aligned to 2 and takes two little-endian bytes;
/// a `word` is aligned to 4 and takes four. The name maps to the offset.
/// `None` where a line is shorter than four tokens, its type is another, its
/// value does not parse or is too large, or offsets pass 32 bits.
pub open spec fn data_from(
    ls: Seq<Seq<char>>,
    i: int,
    syms: Map<Seq<char>, u32>,
    enc: Seq<u8>,
    ptr: int,
) -> Option<(Map<Seq<char>, u32>, Seq<u8>)>
    decreases ls.len() - i,
{
    if i < 0 || i >= ls.len() {
        Some((syms, enc))
    } else {
        let var = trim(ls[i]);
        if var.len() == 0 {
            data_from(ls, i + 1, syms, enc, ptr)
        } else {
            let toks = tokens(var);
            if toks.len() < 4 {
                None
            } else {
                let vtype = declared(toks).0;
                let name = declared(toks).1;
                let value = toks[3];
                if vtype == "byte"@ {
                    match int_from_any(value) {
                        None => None,
                        Some(v) => if v > 0xff || ptr + 1 > u32::MAX {
                            None
                        } else {
                            data_from(ls, i + 1, syms.insert(name, ptr as u32), enc.push(v as u8), ptr + 1)
                        },
                    }
                } else if vtype == "half"@ || vtype == "word"@ {
                    let size: int = if vtype == "half"@ {
                        2
                    } else {
                        4
                    };
                    let pad = pad_to(ptr, size);
                    let p = ptr + pad;
                    match int_from_any(value) {
                        None => None,
                        Some(v) => if (vtype == "half"@ && v > 0xffff) || p + size > u32::MAX {
                            None
                        } else {
                            data_from(
                                ls,
                                i + 1,
                                syms.insert(name, p as u32),
                                enc + Seq::new(pad as nat, |j: int| 0u8) + u32_bytes(v as u32).take(size),
                                p + size,
                            )
                        },
                    }
                } else {
                    None
                }
            }
        }
    }
}

/// The symbols and bytes of a data section; `None` where it is refused.
pub open spec fn data_section(ls: Seq<Seq<char>>) -> Option<(Map<Seq<char>, u32>, Seq<u8>)> {
    data_from(ls, 0, Map::empty(), seq![], 0)
}

/// Appends the low `size` (2 or 4) little-endian bytes of `v`.
fn push_le_bytes(enc: &mut Vec<u8>, v: i32, size: u32)
    requires
        size == 2 || size == 4,
    ensures
        final(enc)@ == old(enc)@ + u32_bytes(v as u32).take(size as int),
{
    let u: u32 = v as u32;
    let ghost e0 = enc@;
    enc.push((u % 256) as u8);
    enc.push(((u / 256) % 256) as u8);
    if size == 4 {
        enc.push(((u / 65536) % 256) as u8);
        enc.push((u / 16777216) as u8);
    }
    assert(enc@ =~= e0 + u32_bytes(v as u32).take(size as int));
}

/// Lays out the data section: the symbols it defines, with their offsets,
/// and its bytes; `None` where a line is refused.
fn process_data_section(lines: &Vec<Vec<char>>) -> (r: Option<(Table, Vec<u8>)>)
    ensures
        r matches Some((t, d)) ==> t.wf() && data_section(lines@.map_values(|l: Vec<char>| l@))
            == Some((t.view(), d@)),
        r is None ==> data_section(lines@.map_values(|l: Vec<char>| l@)) is None,
{
    let ghost ls = lines@.map_values(|l: Vec<char>| l@);
    let mut symbolmap = Table::new();
    let mut data_encoded: Vec<u8> = Vec::new();
    let mut data_ptr: u32 = 0;
    let mut i: usize = 0;
    while i < lines.len()
        invariant
            ls == lines@.map_values(|l: Vec<char>| l@),
            i <= lines@.len(),
            symbolmap.wf(),
            data_section(ls) == data_from(ls, i as int, symbolmap.view(), data_encoded@, data_ptr as int),
        decreases lines@.len() - i,
    {
        let var = trim_chars(&lines[i]);
        if var.len() == 0 {
            i = i + 1;
            continue;
        }
        let tokens_v = tokenise_line(&var);
        let ghost toks = tokens_v@.map_values(|t: Vec<char>| t@);
        if tokens_v.len() < 4 {
            return None;
        }
        let first = &tokens_v[0];
        let named_first = first.len() > 0 && first[first.len() - 1] == ':';
        let vtype = if named_first {
            &tokens_v[1]
        } else {
            &tokens_v[0]
        };
        let name = if named_first {
            slice_chars(first, 0, first.len() - 1)
        } else {
            slice_chars(&tokens_v[1], 0, tokens_v[1].len())
        };
        let value = &tokens_v[3];
        assert(vtype@ == declared(toks).0 && name@ =~= declared(toks).1 && value@ == toks[3]);
        let is_byte = chars_eq_str(vtype, "byte");
        let is_half = chars_eq_str(vtype, "half");
        let is_word = chars_eq_str(vtype, "word");
        if !(is_byte || is_half || is_word) {
            return None;
        }
        let v = match int_from_any_exec(value) {
            None => {
                return None;
            },
            Some(v) => v,
        };
        if is_byte {
            if v > 0xff || data_ptr == u32::MAX {
                return None;
            }
            symbolmap.insert(name, data_ptr);
            data_encoded.push(v as u8);
            data_ptr = data_ptr + 1;
        } else {
            let size: u32 = if is_half {
                2
            } else {
                4
            };
            let pad: u32 = (size - data_ptr % size) % size;
            if (is_half && v > 0xffff) || data_ptr as u64 + pad as u64 + size as u64 > u32::MAX as u64 {
                return None;
            }
            let mut k: u32 = 0;
            let ghost e0 = data_encoded@;
            while k < pad
                invariant
                    k <= pad,
                    data_encoded@ == e0 + Seq::new(k as nat, |j: int| 0u8),
                decreases pad - k,
            {
                data_encoded.push(0u8);
                k = k + 1;
                assert(data_encoded@ =~= e0 + Seq::new(k as nat, |j: int| 0u8));
            }
            data_ptr = data_ptr + pad;
            symbolmap.insert(name, data_ptr);
            push_le_bytes(&mut data_encoded, v, size);
            data_ptr = data_ptr + size;
        }
        i = i + 1;
    }
    Some((symbolmap, data_encoded))
}


// ---------------------------------------------------------------------------
// Reading the lines and the directives.

/// Lines cleaned of comments: trimmed, lines that start with `#` dropped, and
/// everything from the first `#` on cut.
pub open spec fn cleaned(lines: Seq<Seq<char>>) -> Seq<Seq<char>> {
    lines.map_values(|l: Seq<char>| trim(l)).filter(|t: Seq<char>| !(t.len() > 0 && t[0] == '#')).map_values(
        |t: Seq<char>| split(t, '#')[0],
    )
}

/// The directive pass from line `i` on: `.section NAME` opens a section and
/// empties it, `.org N` sets the origin, any other line starting with `.` is
/// refused, and other lines go to the open section. Only the `.data` and
/// `.text` sections are kept. Gives the origin and the two sections' lines
/// (`None` for a section never opened); `None` where a directive is refused.
pub open spec fn directives_from(
    ls: Seq<Seq<char>>,
    i: int,
    within: Seq<char>,
    origin: u32,
    data: Option<Seq<Seq<char>>>,
    text: Option<Seq<Seq<char>>>,
) -> Option<(u32, Option<Seq<Seq<char>>>, Option<Seq<Seq<char>>>)>
    decreases ls.len() - i,
{
    if i < 0 || i >= ls.len() {
        Some((origin, data, text))
    } else {
        let t = ls[i];
        if !(t.len() > 0 && t[0] == '.') {
            let data2 = if within == ".data"@ {
                match data {
                    Some(d) => Some(d.push(t)),
                    None => None,
                }
            } else {
                data
            };
            let text2 = if within == ".text"@ {
                match text {
                    Some(d) => Some(d.push(t)),
                    None => None,
                }
            } else {
                text
            };
            directives_from(ls, i + 1, within, origin, data2, text2)
        } else {
            let parts = split(t, ' ');
            let iden = parts[0];
            let other = parts.drop_first();
            if iden == ".section"@ {
                if other.len() == 0 {
                    None
                } else {
                    let name = other[0];
                    directives_from(
                        ls,
                        i + 1,
                        name,
                        origin,
                        if name == ".data"@ {
                            Some(seq![])
                        } else {
                            data
                        },
                        if name == ".text"@ {
                            Some(seq![])
                        } else {
                            text
                        },
                    )
                }
            } else if iden == ".org"@ {
                if other.len() == 0 {
                    None
                } else {
                    match int_from_any(other[0]) {
                        None => None,
                        Some(v) => directives_from(ls, i + 1, within, v as u32, data, text),
                    }
                }
            } else {
                None
            }
        }
    }
}

/// The instruction text of a `.text` line: trimmed, commas removed.
pub open spec fn line_text(t: Seq<char>) -> Seq<char> {
    remove_char(trim(t), ',')
}

/// The number the operand `w` of an `li` at `loc` stands for, as far as the
/// labels in `tab` (those met so far) and the data symbols tell it: the
/// word resolved as a label, then replaced by a data symbol's offset, then
/// read as a number.
pub open spec fn li_operand(w: Seq<char>, tab: Map<Seq<char>, u32>, syms: Map<Seq<char>, u32>, loc: u32) -> Option<i32> {
    match resolve_word(w, tab, loc) {
        None => None,
        Some(r) => int_from_any(
            if syms.contains_key(r) {
                decimal(syms[r] as int)
            } else {
                r
            },
        ),
    }
}

/// The bytes an instruction text at `loc` takes: four for any but `li`;
/// for `li`, the size of its number where the labels met so far and the
/// data symbols give it, eight (room for both words) where they do not.
pub open spec fn instr_size(a: Seq<char>, tab: Map<Seq<char>, u32>, syms: Map<Seq<char>, u32>, loc: int) -> int {
    let ws = split(a, ' ');
    if ws[0] == "li"@ {
        if ws.len() < 3 {
            8
        } else {
            match li_operand(ws[2], tab, syms, loc as u32) {
                Some(n) => li_size(n),
                None => 8,
            }
        }
    } else {
        4
    }
}

/// The addresses of `.text` labels from line `i` on, and the size of each
/// instruction: a line whose instruction text ends in `:` names the
/// current address, any other non-empty one takes its size.
pub open spec fn labels_from(
    ls: Seq<Seq<char>>,
    i: int,
    tab: Map<Seq<char>, u32>,
    syms: Map<Seq<char>, u32>,
    loc: int,
    sizes: Seq<u32>,
) -> Option<(Map<Seq<char>, u32>, Seq<u32>)>
    decreases ls.len() - i,
{
    if i < 0 || i >= ls.len() {
        Some((tab, sizes))
    } else {
        let a = line_text(ls[i]);
        if a.len() == 0 {
            labels_from(ls, i + 1, tab, syms, loc, sizes)
        } else if a.last() == ':' {
            labels_from(ls, i + 1, tab.insert(a.drop_last(), loc as u32), syms, loc, sizes)
        } else if loc + instr_size(a, tab, syms, loc) > u32::MAX {
            None
        } else {
            labels_from(
                ls,
                i + 1,
                tab,
                syms,
                loc + instr_size(a, tab, syms, loc),
                sizes.push(instr_size(a, tab, syms, loc) as u32),
            )
        }
    }
}

/// The instruction texts of the `.text` lines: trimmed, commas removed,
/// empty ones and labels dropped.
pub open spec fn instruction_texts(text: Seq<Seq<char>>) -> Seq<Seq<char>> {
    text.filter(|t: Seq<char>| t.len() != 0).map_values(|t: Seq<char>| remove_char(trim(t), ',')).filter(
        |a: Seq<char>| a.len() > 0 && a.last() != ':',
    )
}

/// The size of an instruction text at `loc`.
fn instr_size_exec(a: &Vec<char>, tab: &Table, syms: &Table, loc: u32) -> (r: u32)
    requires
        tab.wf(),
        syms.wf(),
    ensures
        r == instr_size(a@, tab.view(), syms.view(), loc as int),
        r == 4 || r == 8,
{
    let words = split_chars(a, ' ');
    let ghost ws = words@.map_values(|p: Vec<char>| p@);
    assert(words[0]@ == ws[0]);
    if !chars_eq_str(&words[0], "li") {
        return 4;
    }
    if words.len() < 3 {
        return 8;
    }
    assert(words[2]@ == ws[2]);
    let n = match resolve_word_exec(&words[2], tab, loc) {
        None => {
            return 8;
        },
        Some(r) => match syms.get(&r) {
            Some(at) => int_from_any_exec(&decimal_chars(at as i64)),
            None => int_from_any_exec(&r),
        },
    };
    match n {
        Some(n) => li_size_exec(n),
        None => 8,
    }
}

/// Cleans lines of comments.
fn clean_lines(lines: &Vec<Vec<char>>) -> (r: Vec<Vec<char>>)
    ensures
        r@.map_values(|l: Vec<char>| l@) == cleaned(lines@.map_values(|l: Vec<char>| l@)),
{
    let ghost ls = lines@.map_values(|l: Vec<char>| l@);
    let ghost trimmed = ls.map_values(|l: Seq<char>| trim(l));
    let ghost kept = |t: Seq<char>| !(t.len() > 0 && t[0] == '#');
    let ghost cut = |t: Seq<char>| split(t, '#')[0];
    let mut r: Vec<Vec<char>> = Vec::new();
    let mut i: usize = 0;
    assert(r@.map_values(|l: Vec<char>| l@) =~= trimmed.subrange(0, 0).filter(kept).map_values(cut));
    while i < lines.len()
        invariant
            ls == lines@.map_values(|l: Vec<char>| l@),
            trimmed == ls.map_values(|l: Seq<char>| trim(l)),
            kept == (|t: Seq<char>| !(t.len() > 0 && t[0] == '#')),
            cut == (|t: Seq<char>| split(t, '#')[0]),
            i <= lines@.len(),
            r@.map_values(|l: Vec<char>| l@) == trimmed.subrange(0, i as int).filter(kept).map_values(cut),
        decreases lines@.len() - i,
    {
        let t = trim_chars(&lines[i]);
        let ghost r0 = r@.map_values(|l: Vec<char>| l@);
        assert(trimmed.subrange(0, i + 1).drop_last() =~= trimmed.subrange(0, i as int));
        reveal_with_fuel(Seq::<_>::filter, 1);
        if !(t.len() > 0 && t[0] == '#') {
            let pieces = split_chars(&t, '#');
            let ghost ps = pieces@.map_values(|p: Vec<char>| p@);
            let first = slice_chars(&pieces[0], 0, pieces[0].len());
            assert(first@ =~= ps[0]);
            r.push(first);
            assert(r@.map_values(|l: Vec<char>| l@) =~= r0.push(cut(t@)));
            assert(trimmed.subrange(0, i + 1).filter(kept) == trimmed.subrange(0, i as int).filter(kept).push(t@));
            assert(trimmed.subrange(0, i + 1).filter(kept).map_values(cut) =~= trimmed.subrange(0, i as int).filter(kept).map_values(cut).push(cut(t@)));
        } else {
            assert(trimmed.subrange(0, i + 1).filter(kept) == trimmed.subrange(0, i as int).filter(kept));
        }
        i = i + 1;
    }
    assert(trimmed.subrange(0, lines@.len() as int) =~= trimmed);
    r
}


/// The view of an optional list of lines.
pub open spec fn lines_view(o: Option<Vec<Vec<char>>>) -> Option<Seq<Seq<char>>> {
    match o {
        Some(v) => Some(v@.map_values(|l: Vec<char>| l@)),
        None => None,
    }
}

/// Adds a copy of `line` to an open section.
fn push_line(sec: Option<Vec<Vec<char>>>, line: &Vec<char>) -> (r: Option<Vec<Vec<char>>>)
    ensures
        lines_view(r) == match lines_view(sec) {
            Some(d) => Some(d.push(line@)),
            None => None,
        },
{
    match sec {
        Some(mut d) => {
            let ghost d0 = d@.map_values(|l: Vec<char>| l@);
            let c = slice_chars(line, 0, line.len());
            assert(c@ =~= line@);
            d.push(c);
            assert(d@.map_values(|l: Vec<char>| l@) =~= d0.push(line@));
            Some(d)
        },
        None => None,
    }
}

/// Runs the directives over cleaned lines: the origin and the `.data` and
/// `.text` sections.
fn directives(ls: &Vec<Vec<char>>) -> (r: Option<(u32, Option<Vec<Vec<char>>>, Option<Vec<Vec<char>>>)>)
    ensures
        r matches Some((o, d, t)) ==> directives_from(
            ls@.map_values(|l: Vec<char>| l@),
            0,
            seq![],
            0,
            None,
            None,
        ) == Some((o, lines_view(d), lines_view(t))),
        r is None ==> directives_from(ls@.map_values(|l: Vec<char>| l@), 0, seq![], 0, None, None) is None,
{
    let ghost lsv = ls@.map_values(|l: Vec<char>| l@);
    let mut within: Vec<char> = Vec::new();
    let mut origin: u32 = 0;
    let mut data: Option<Vec<Vec<char>>> = None;
    let mut text: Option<Vec<Vec<char>>> = None;
    let mut i: usize = 0;
    assert(within@ =~= Seq::<char>::empty());
    while i < ls.len()
        invariant
            lsv == ls@.map_values(|l: Vec<char>| l@),
            i <= ls@.len(),
            directives_from(lsv, 0, seq![], 0, None, None) == directives_from(
                lsv,
                i as int,
                within@,
                origin,
                lines_view(data),
                lines_view(text),
            ),
        decreases ls@.len() - i,
    {
        let t = &ls[i];
        assert(t@ == lsv[i as int]);
        if !(t.len() > 0 && t[0] == '.') {
            if chars_eq_str(&within, ".data") {
                data = push_line(data, t);
            }
            if chars_eq_str(&within, ".text") {
                text = push_line(text, t);
            }
        } else {
            let parts = split_chars(t, ' ');
            let ghost ps = parts@.map_values(|p: Vec<char>| p@);
            assert(parts[0]@ == ps[0]);
            if chars_eq_str(&parts[0], ".section") {
                if parts.len() < 2 {
                    return None;
                }
                assert(parts[1]@ == ps.drop_first()[0]);
                let name = slice_chars(&parts[1], 0, parts[1].len());
                assert(name@ =~= parts[1]@);
                if chars_eq_str(&name, ".data") {
                    data = Some(Vec::new());
                    assert(lines_view(data) == Some(Seq::<Seq<char>>::empty()));
                }
                if chars_eq_str(&name, ".text") {
                    text = Some(Vec::new());
                    assert(lines_view(text) == Some(Seq::<Seq<char>>::empty()));
                }
                within = name;
            } else if chars_eq_str(&parts[0], ".org") {
                if parts.len() < 2 {
                    return None;
                }
                assert(parts[1]@ == ps.drop_first()[0]);
                match int_from_any_exec(&parts[1]) {
                    None => {
                        return None;
                    },
                    Some(v) => {
                        origin = v as u32;
                    },
                }
            } else {
                return None;
            }
        }
        i = i + 1;
    }
    Some((origin, data, text))
}

/// Collects the `.text` labels with their addresses, from `origin` on, and
/// the size of each instruction.
fn labels(ls: &Vec<Vec<char>>, syms: &Table, origin: u32) -> (r: Option<(Table, Vec<u32>)>)
    requires
        syms.wf(),
    ensures
        r matches Some((t, sz)) ==> t.wf() && labels_from(
            ls@.map_values(|l: Vec<char>| l@),
            0,
            Map::empty(),
            syms.view(),
            origin as int,
            seq![],
        ) == Some((t.view(), sz@)),
        r is None ==> labels_from(
            ls@.map_values(|l: Vec<char>| l@),
            0,
            Map::empty(),
            syms.view(),
            origin as int,
            seq![],
        ) is None,
{
    let ghost lsv = ls@.map_values(|l: Vec<char>| l@);
    let mut tab = Table::new();
    let mut sizes: Vec<u32> = Vec::new();
    let mut loc: u32 = origin;
    let mut i: usize = 0;
    while i < ls.len()
        invariant
            lsv == ls@.map_values(|l: Vec<char>| l@),
            i <= ls@.len(),
            tab.wf(),
            syms.wf(),
            labels_from(lsv, 0, Map::empty(), syms.view(), origin as int, seq![]) == labels_from(
                lsv,
                i as int,
                tab.view(),
                syms.view(),
                loc as int,
                sizes@,
            ),
        decreases ls@.len() - i,
    {
        let t = &ls[i];
        assert(t@ == lsv[i as int]);
        let a = remove_chars(&trim_chars(t), ',');
        if a.len() == 0 {
        } else if a[a.len() - 1] == ':' {
            let name = slice_chars(&a, 0, a.len() - 1);
            assert(name@ =~= a@.drop_last());
            tab.insert(name, loc);
        } else {
            let size = instr_size_exec(&a, &tab, syms, loc);
            if loc > u32::MAX - size {
                return None;
            }
            loc = loc + size;
            sizes.push(size);
        }
        i = i + 1;
    }
    Some((tab, sizes))
}

/// The instruction texts of `.text` lines.
fn instruction_lines(text: &Vec<Vec<char>>) -> (r: Vec<Vec<char>>)
    ensures
        r@.map_values(|l: Vec<char>| l@) == instruction_texts(text@.map_values(|l: Vec<char>| l@)),
{
    let ghost tv = text@.map_values(|l: Vec<char>| l@);
    let ghost f1 = |t: Seq<char>| t.len() != 0;
    let ghost g = |t: Seq<char>| remove_char(trim(t), ',');
    let ghost f2 = |a: Seq<char>| a.len() > 0 && a.last() != ':';
    let mut r: Vec<Vec<char>> = Vec::new();
    let mut i: usize = 0;
    assert(r@.map_values(|l: Vec<char>| l@) =~= tv.subrange(0, 0).filter(f1).map_values(g).filter(f2));
    while i < text.len()
        invariant
            tv == text@.map_values(|l: Vec<char>| l@),
            f1 == (|t: Seq<char>| t.len() != 0),
            g == (|t: Seq<char>| remove_char(trim(t), ',')),
            f2 == (|a: Seq<char>| a.len() > 0 && a.last() != ':'),
            i <= text@.len(),
            r@.map_values(|l: Vec<char>| l@) == tv.subrange(0, i as int).filter(f1).map_values(g).filter(f2),
        decreases text@.len() - i,
    {
        let t = &text[i];
        assert(t@ == tv[i as int]);
        let ghost pre = tv.subrange(0, i as int);
        assert(tv.subrange(0, i + 1) =~= pre.push(t@));
        reveal_with_fuel(Seq::<_>::filter, 1);
        assert(pre.push(t@).drop_last() =~= pre);
        if t.len() != 0 {
            assert(pre.push(t@).filter(f1) == pre.filter(f1).push(t@));
            assert(pre.filter(f1).push(t@).map_values(g) =~= pre.filter(f1).map_values(g).push(g(t@)));
            let a = remove_chars(&trim_chars(t), ',');
            assert(a@ == g(t@));
            let ghost m = pre.filter(f1).map_values(g);
            assert(m.push(a@).drop_last() =~= m);
            if a.len() > 0 && a[a.len() - 1] != ':' {
                assert(m.push(a@).filter(f2) == m.filter(f2).push(a@));
                let ghost r0 = r@.map_values(|l: Vec<char>| l@);
                let ghost av = a@;
                r.push(a);
                assert(r@.map_values(|l: Vec<char>| l@) =~= r0.push(av));
            } else {
                assert(m.push(a@).filter(f2) == m.filter(f2));
            }
        } else {
            assert(pre.push(t@).filter(f1) == pre.filter(f1));
        }
        i = i + 1;
    }
    assert(tv.subrange(0, text@.len() as int) =~= tv);
    r
}

// ---------------------------------------------------------------------------
// The whole assembler.

/// What the passes before encoding make of a source: the instructions in
/// normal form and the data section's bytes. Comments are cleaned, the
/// directives run (an origin of 0 becomes 0x1000), the data section is laid
/// out, labels are collected and put in, data symbols are replaced by their
/// offsets, `li` is expanded and registers and numbers are put in normal
/// form. `None` where a pass refuses the source or there is no `.text`
/// section.
pub open spec fn preprocessed(lines: Seq<Seq<char>>) -> Option<(Seq<Seq<char>>, Seq<u8>)> {
    match directives_from(cleaned(lines), 0, seq![], 0, None, None) {
        None => None,
        Some((org, data, text)) => {
            let origin: u32 = if org == 0 {
                0x1000
            } else {
                org
            };
            match text {
                None => None,
                Some(tx) => match data_section(
                    match data {
                        Some(d) => d,
                        None => seq![],
                    },
                ) {
                    None => None,
                    Some((syms, enc)) => match labels_from(tx, 0, Map::empty(), syms, origin as int, seq![]) {
                        None => None,
                        Some((tab, sizes)) => match resolve_labels(instruction_texts(tx), sizes, tab, origin) {
                            None => None,
                            Some(r1) => {
                                let r2 = if syms.dom().len() == 0 {
                                    r1
                                } else {
                                    r1.map_values(|s: Seq<char>| substitute_line(s, syms))
                                };
                                match expand(r2, sizes) {
                                    None => None,
                                    Some(r3) => match normalize(r3) {
                                        None => None,
                                        Some(r4) => Some((r4, enc)),
                                    },
                                }
                            },
                        },
                    },
                },
            }
        },
    }
}

/// The machine code of instructions in normal form from `i` on, onto `acc`:
/// empty lines and labels are skipped, each other line gives one little-endian
/// word. The first operand that does not parse gives its error.
pub open spec fn encode_from(ins: Seq<Seq<char>>, i: int, acc: Seq<u8>) -> Option<Result<Seq<u8>, IntErrorKind>>
    decreases ins.len() - i,
{
    if i < 0 || i >= ins.len() {
        Some(Ok(acc))
    } else {
        let s = ins[i];
        if s.len() == 0 || s.last() == ':' {
            encode_from(ins, i + 1, acc)
        } else {
            match encode_tokens(tokens(s)) {
                None => None,
                Some(Err(e)) => Some(Err(e)),
                Some(Ok(w)) => encode_from(ins, i + 1, acc + u32_bytes(w)),
            }
        }
    }
}

/// What the assembler makes of a source: its machine code and its data
/// section, or the error of the first operand that does not parse; `None`
/// where the source is refused before that.
pub open spec fn assembled(lines: Seq<Seq<char>>) -> Option<Result<(Seq<u8>, Seq<u8>), IntErrorKind>> {
    match preprocessed(lines) {
        None => None,
        Some((ins, data)) => match encode_from(ins, 0, seq![]) {
            None => None,
            Some(Err(e)) => Some(Err(e)),
            Some(Ok(code)) => Some(Ok((code, data))),
        },
    }
}

/// Runs the passes before encoding; `None` where one refuses the source.
fn preprocess(lines: &Vec<Vec<char>>) -> (r: Option<(Vec<Vec<char>>, Vec<u8>)>)
    ensures
        r matches Some((ins, data)) ==> preprocessed(lines@.map_values(|l: Vec<char>| l@)) == Some(
            (ins@.map_values(|l: Vec<char>| l@), data@),
        ),
        r is None ==> preprocessed(lines@.map_values(|l: Vec<char>| l@)) is None,
{
    let metalines = clean_lines(lines);
    let (org, data, text) = directives(&metalines)?;
    let origin: u32 = if org == 0 {
        0x1000
    } else {
        org
    };
    let text = text?;
    let data = match data {
        Some(d) => d,
        None => Vec::new(),
    };
    assert(data@.map_values(|l: Vec<char>| l@) == match lines_view(Some(data)) {
        Some(d) => d,
        None => seq![],
    });
    let (symboltable, encoded) = process_data_section(&data)?;
    let (labeltable, sizes) = labels(&text, &symboltable, origin)?;
    let ins = instruction_lines(&text);
    let r1 = resolve_labels_exec(&ins, &sizes, &labeltable, origin)?;
    let r2 = if symboltable.is_empty() {
        r1
    } else {
        substitute_exec(&r1, &symboltable)
    };
    let r3 = expand_exec(&r2, &sizes)?;
    let r4 = normalize_exec(&r3)?;
    Some((r4, encoded))
}

/// Encodes instructions in normal form; `None` where a line is refused
/// before one of its operands does not parse.
fn assemble_instructions(ins: &Vec<Vec<char>>) -> (r: Option<Result<Vec<u8>, IntErrorKind>>)
    ensures
        encode_from(ins@.map_values(|l: Vec<char>| l@), 0, seq![]) == match r {
            Some(Ok(v)) => Some(Ok(v@)),
            Some(Err(e)) => Some(Err(e)),
            None => None,
        },
{
    let ghost is = ins@.map_values(|l: Vec<char>| l@);
    let mut full: Vec<u8> = Vec::new();
    let mut i: usize = 0;
    while i < ins.len()
        invariant
            is == ins@.map_values(|l: Vec<char>| l@),
            i <= ins@.len(),
            encode_from(is, 0, seq![]) == encode_from(is, i as int, full@),
        decreases ins@.len() - i,
    {
        let s = &ins[i];
        assert(s@ == is[i as int]);
        if s.len() == 0 || s[s.len() - 1] == ':' {
            i = i + 1;
            continue;
        }
        let toks = tokenise_line(s);
        match encode_tokens_exec(&toks) {
            None => {
                return None;
            },
            Some(Err(e)) => {
                return Some(Err(e));
            },
            Some(Ok(w)) => {
                let ghost f0 = full@;
                full.push((w % 256) as u8);
                full.push(((w / 256) % 256) as u8);
                full.push(((w / 65536) % 256) as u8);
                full.push((w / 16777216) as u8);
                assert(full@ =~= f0 + u32_bytes(w));
            },
        }
        i = i + 1;
    }
    Some(Ok(full))
}

/// Assembles a source, given as its lines: its machine code and its data
/// section, or the error of the first operand that does not parse; `None`
/// where the source is refused before that (the sources that [`assemble`]
/// does not take).
pub fn assemble_checked(lines: Vec<String>) -> (r: Option<Result<(Vec<u8>, Vec<u8>), IntErrorKind>>)
    ensures
        assembled(lines@.map_values(|l: String| l@)) == match r {
            Some(Ok((code, data))) => Some(Ok((code@, data@))),
            Some(Err(e)) => Some(Err(e)),
            None => None,
        },
{
    let ghost lsv = lines@.map_values(|l: String| l@);
    let mut cs: Vec<Vec<char>> = Vec::new();
    let mut i: usize = 0;
    while i < lines.len()
        invariant
            lsv == lines@.map_values(|l: String| l@),
            i <= lines@.len(),
            cs@.map_values(|l: Vec<char>| l@) == lsv.subrange(0, i as int),
        decreases lines@.len() - i,
    {
        let ghost c0 = cs@.map_values(|l: Vec<char>| l@);
        let c = chars_of(lines[i].as_str());
        let ghost cv = c@;
        cs.push(c);
        assert(cs@.map_values(|l: Vec<char>| l@) =~= c0.push(cv));
        assert(lsv.subrange(0, i + 1) =~= lsv.subrange(0, i as int).push(lsv[i as int]));
        i = i + 1;
    }
    assert(lsv.subrange(0, lines@.len() as int) =~= lsv);
    let (ins, data) = preprocess(&cs)?;
    match assemble_instructions(&ins)? {
        Ok(code) => Some(Ok((code, data))),
        Err(e) => Some(Err(e)),
    }
}

/// Assembles a source, given as its lines, into its machine code and its
/// data section.
pub fn assemble(lines: Vec<String>) -> (r: Result<(Vec<u8>, Vec<u8>), IntErrorKind>)
    requires
        assembled(lines@.map_values(|l: String| l@)) is Some,
    ensures
        assembled(lines@.map_values(|l: String| l@)) == Some(
            match r {
                Ok((code, data)) => Ok((code@, data@)),
                Err(e) => Err(e),
            },
        ),
{
    match assemble_checked(lines) {
        Some(r) => r,
        None => vstd::pervasive::unreached(),
    }
}

/// Assembles a source into an object file: its machine code is the text
/// region and its data section the data region.
pub fn build(lines: Vec<String>) -> (r: Result<Vec<u8>, IntErrorKind>)
    requires
        assembled(lines@.map_values(|l: String| l@)) is Some,
        assembled(lines@.map_values(|l: String| l@)) matches Some(Ok((code, data))) ==> data.len()
            <= 0xffff - DATA_START,
    ensures
        match assembled(lines@.map_values(|l: String| l@)) {
            Some(Ok((code, data))) => r matches Ok(obj) && obj@ == object_file(data, code),
            Some(Err(e)) => r == Err::<Vec<u8>, IntErrorKind>(e),
            None => false,
        },
{
    match assemble(lines) {
        Ok((mcode, data)) => Ok(newfile(data, mcode)),
        Err(e) => Err(e),
    }
}

} // verus!
