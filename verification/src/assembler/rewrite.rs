use vstd::prelude::*;

use crate::assembler::encode::{
    encode_tokens, funct7, i_word, imm_operand, lemma_i_word_decodes, lemma_u_word_decodes, mnemonic,
    reg_operand, u_word,
};
use crate::assembler::Table;
use crate::machine::{imm_u, op_imm_value};
use crate::text::{
    lemma_decimal_parses, lemma_decimal_plain, lemma_tokens_four, lemma_tokens_three, plain_word,
    IntErrorKind, chars_eq_str, chars_of, decimal, digits_of, decimal_chars, int_from_any, int_from_any_exec, join,
    join_chars, slice_chars, split, split_chars, tokenise_line, tokens,
};

verus! {

/// Appends the characters of `src`.
pub fn append_chars(dst: &mut Vec<char>, src: &Vec<char>)
    ensures
        final(dst)@ == old(dst)@ + src@,
{
    let ghost d0 = dst@;
    let mut i: usize = 0;
    while i < src.len()
        invariant
            i <= src@.len(),
            dst@ == d0 + src@.subrange(0, i as int),
        decreases src@.len() - i,
    {
        dst.push(src[i]);
        i = i + 1;
        assert(dst@ =~= d0 + src@.subrange(0, i as int));
    }
    assert(src@.subrange(0, src@.len() as int) =~= src@);
}

// ---------------------------------------------------------------------------
// Labels.

/// A word of an instruction at address `loc` with labels put in: a word that
/// names a label becomes the label's distance from `loc` (`None` where that
/// leaves `i32`), and otherwise `*name` becomes the address of label `name`.
pub open spec fn resolve_word(w: Seq<char>, tab: Map<Seq<char>, u32>, loc: u32) -> Option<Seq<char>> {
    if tab.contains_key(w) {
        let rel = (tab[w] as i32) - (loc as i32);
        if rel < i32::MIN || rel > i32::MAX {
            None
        } else {
            Some(decimal(rel))
        }
    } else if w.len() > 0 && w[0] == '*' && tab.contains_key(w.drop_first()) {
        Some(decimal(tab[w.drop_first()] as int))
    } else {
        Some(w)
    }
}

/// The words from `j` on, resolved onto `acc`.
pub open spec fn resolve_words_from(
    ws: Seq<Seq<char>>,
    j: int,
    tab: Map<Seq<char>, u32>,
    loc: u32,
    acc: Seq<Seq<char>>,
) -> Option<Seq<Seq<char>>>
    decreases ws.len() - j,
{
    if j < 0 || j >= ws.len() {
        Some(acc)
    } else {
        match resolve_word(ws[j], tab, loc) {
            None => None,
            Some(w) => resolve_words_from(ws, j + 1, tab, loc, acc.push(w)),
        }
    }
}

/// The size of the instruction at `i`: its entry in `sizes`, four past
/// the end.
pub open spec fn slot_size(sizes: Seq<u32>, i: int) -> int {
    if 0 <= i < sizes.len() {
        sizes[i] as int
    } else {
        4
    }
}

/// The instructions from `i` on, the first at `loc`, each taking the size
/// that `sizes` gives it, with their space-separated words resolved; `None`
/// where a distance leaves `i32` or an address passes 32 bits.
pub open spec fn resolve_from(
    ins: Seq<Seq<char>>,
    sizes: Seq<u32>,
    i: int,
    tab: Map<Seq<char>, u32>,
    loc: int,
    acc: Seq<Seq<char>>,
) -> Option<Seq<Seq<char>>>
    decreases ins.len() - i,
{
    if i < 0 || i >= ins.len() {
        Some(acc)
    } else {
        match resolve_words_from(split(ins[i], ' '), 0, tab, loc as u32, seq![]) {
            None => None,
            Some(ws) => if loc + slot_size(sizes, i) > u32::MAX {
                None
            } else {
                resolve_from(ins, sizes, i + 1, tab, loc + slot_size(sizes, i), acc.push(join(ws, ' ')))
            },
        }
    }
}

/// The instructions, from `origin` on, with labels put in.
pub open spec fn resolve_labels(ins: Seq<Seq<char>>, sizes: Seq<u32>, tab: Map<Seq<char>, u32>, origin: u32) -> Option<
    Seq<Seq<char>>,
> {
    resolve_from(ins, sizes, 0, tab, origin as int, seq![])
}

pub(crate) fn resolve_word_exec(w: &Vec<char>, tab: &Table, loc: u32) -> (r: Option<Vec<char>>)
    requires
        tab.wf(),
    ensures
        r matches Some(v) ==> resolve_word(w@, tab.view(), loc) == Some(v@),
        r is None ==> resolve_word(w@, tab.view(), loc) is None,
{
    match tab.get(w) {
        Some(lab) => {
            match (lab as i32).checked_sub(loc as i32) {
                None => None,
                Some(rel) => Some(decimal_chars(rel as i64)),
            }
        },
        None => {
            if w.len() > 0 && w[0] == '*' {
                let rest = slice_chars(w, 1, w.len());
                assert(rest@ =~= w@.drop_first());
                match tab.get(&rest) {
                    Some(addr) => Some(decimal_chars(addr as i64)),
                    None => Some(slice_chars(w, 0, w.len())),
                }
            } else {
                let c = slice_chars(w, 0, w.len());
                assert(c@ =~= w@);
                Some(c)
            }
        },
    }
}

/// Puts labels into one instruction at `loc`.
fn resolve_line_exec(s: &Vec<char>, tab: &Table, loc: u32) -> (r: Option<Vec<char>>)
    requires
        tab.wf(),
    ensures
        r matches Some(v) ==> resolve_words_from(split(s@, ' '), 0, tab.view(), loc, seq![]) matches Some(
            ws,
        ) && v@ == join(ws, ' '),
        r is None ==> resolve_words_from(split(s@, ' '), 0, tab.view(), loc, seq![]) is None,
{
    let words = split_chars(s, ' ');
    let ghost ws = words@.map_values(|p: Vec<char>| p@);
    let mut out: Vec<Vec<char>> = Vec::new();
    let mut j: usize = 0;
    assert(out@.map_values(|p: Vec<char>| p@) =~= Seq::<Seq<char>>::empty());
    while j < words.len()
        invariant
            tab.wf(),
            ws == words@.map_values(|p: Vec<char>| p@),
            ws == split(s@, ' '),
            j <= words@.len(),
            resolve_words_from(ws, 0, tab.view(), loc, seq![]) == resolve_words_from(
                ws,
                j as int,
                tab.view(),
                loc,
                out@.map_values(|p: Vec<char>| p@),
            ),
        decreases words@.len() - j,
    {
        assert(words[j as int]@ == ws[j as int]);
        match resolve_word_exec(&words[j], tab, loc) {
            None => {
                return None;
            },
            Some(w) => {
                let ghost o0 = out@.map_values(|p: Vec<char>| p@);
                let ghost wv = w@;
                out.push(w);
                assert(out@.map_values(|p: Vec<char>| p@) =~= o0.push(wv));
            },
        }
        j = j + 1;
    }
    Some(join_chars(&out, ' '))
}

/// Puts labels into the instructions, the first at `origin`.
pub fn resolve_labels_exec(ins: &Vec<Vec<char>>, sizes: &Vec<u32>, tab: &Table, origin: u32) -> (r: Option<Vec<Vec<char>>>)
    requires
        tab.wf(),
    ensures
        r matches Some(v) ==> resolve_labels(ins@.map_values(|p: Vec<char>| p@), sizes@, tab.view(), origin)
            == Some(v@.map_values(|p: Vec<char>| p@)),
        r is None ==> resolve_labels(ins@.map_values(|p: Vec<char>| p@), sizes@, tab.view(), origin) is None,
{
    let ghost is = ins@.map_values(|p: Vec<char>| p@);
    let mut out: Vec<Vec<char>> = Vec::new();
    let mut loc: u32 = origin;
    let mut i: usize = 0;
    assert(out@.map_values(|p: Vec<char>| p@) =~= Seq::<Seq<char>>::empty());
    while i < ins.len()
        invariant
            tab.wf(),
            is == ins@.map_values(|p: Vec<char>| p@),
            i <= ins@.len(),
            resolve_labels(is, sizes@, tab.view(), origin) == resolve_from(
                is,
                sizes@,
                i as int,
                tab.view(),
                loc as int,
                out@.map_values(|p: Vec<char>| p@),
            ),
        decreases ins@.len() - i,
    {
        assert(ins[i as int]@ == is[i as int]);
        match resolve_line_exec(&ins[i], tab, loc) {
            None => {
                return None;
            },
            Some(line) => {
                let size: u32 = if i < sizes.len() {
                    sizes[i]
                } else {
                    4
                };
                if loc > u32::MAX - size {
                    return None;
                }
                let ghost o0 = out@.map_values(|p: Vec<char>| p@);
                let ghost lv = line@;
                out.push(line);
                assert(out@.map_values(|p: Vec<char>| p@) =~= o0.push(lv));
                loc = loc + size;
            },
        }
        i = i + 1;
    }
    Some(out)
}

// ---------------------------------------------------------------------------
// Data symbols.

/// One instruction with every word that names a data symbol replaced by the
/// symbol's offset.
pub open spec fn substitute_line(s: Seq<char>, syms: Map<Seq<char>, u32>) -> Seq<char> {
    join(
        split(s, ' ').map_values(
            |w: Seq<char>|
                if syms.contains_key(w) {
                    decimal(syms[w] as int)
                } else {
                    w
                },
        ),
        ' ',
    )
}

/// Replaces data symbols by their offsets in every instruction.
pub fn substitute_exec(ins: &Vec<Vec<char>>, syms: &Table) -> (r: Vec<Vec<char>>)
    requires
        syms.wf(),
    ensures
        r@.map_values(|p: Vec<char>| p@) == ins@.map_values(|p: Vec<char>| p@).map_values(
            |s: Seq<char>| substitute_line(s, syms.view()),
        ),
{
    let ghost is = ins@.map_values(|p: Vec<char>| p@);
    let ghost f = |s: Seq<char>| substitute_line(s, syms.view());
    let ghost g = |w: Seq<char>|
        if syms.view().contains_key(w) {
            decimal(syms.view()[w] as int)
        } else {
            w
        };
    let mut out: Vec<Vec<char>> = Vec::new();
    let mut i: usize = 0;
    assert(out@.map_values(|p: Vec<char>| p@) =~= is.subrange(0, 0).map_values(f));
    while i < ins.len()
        invariant
            syms.wf(),
            is == ins@.map_values(|p: Vec<char>| p@),
            f == (|s: Seq<char>| substitute_line(s, syms.view())),
            g == (|w: Seq<char>|
                if syms.view().contains_key(w) {
                    decimal(syms.view()[w] as int)
                } else {
                    w
                }),
            i <= ins@.len(),
            out@.map_values(|p: Vec<char>| p@) == is.subrange(0, i as int).map_values(f),
        decreases ins@.len() - i,
    {
        let words = split_chars(&ins[i], ' ');
        let ghost ws = words@.map_values(|p: Vec<char>| p@);
        let mut nw: Vec<Vec<char>> = Vec::new();
        let mut j: usize = 0;
        assert(nw@.map_values(|p: Vec<char>| p@) =~= ws.subrange(0, 0).map_values(g));
        while j < words.len()
            invariant
                syms.wf(),
                ws == words@.map_values(|p: Vec<char>| p@),
                g == (|w: Seq<char>|
                    if syms.view().contains_key(w) {
                        decimal(syms.view()[w] as int)
                    } else {
                        w
                    }),
                j <= words@.len(),
                nw@.map_values(|p: Vec<char>| p@) == ws.subrange(0, j as int).map_values(g),
            decreases words@.len() - j,
        {
            let ghost n0 = nw@.map_values(|p: Vec<char>| p@);
            let w = &words[j];
            assert(w@ == ws[j as int]);
            let nv = match syms.get(w) {
                Some(at) => decimal_chars(at as i64),
                None => slice_chars(w, 0, w.len()),
            };
            assert(nv@ == g(w@));
            let ghost nvv = nv@;
            nw.push(nv);
            assert(nw@.map_values(|p: Vec<char>| p@) =~= n0.push(nvv));
            assert(ws.subrange(0, j + 1).map_values(g) =~= ws.subrange(0, j as int).map_values(g).push(
                g(ws[j as int]),
            ));
            j = j + 1;
        }
        assert(ws.subrange(0, words@.len() as int) =~= ws);
        let line = join_chars(&nw, ' ');
        assert(line@ == f(is[i as int]));
        let ghost o0 = out@.map_values(|p: Vec<char>| p@);
        let ghost lv = line@;
        out.push(line);
        assert(out@.map_values(|p: Vec<char>| p@) =~= o0.push(lv));
        assert(is.subrange(0, i + 1).map_values(f) =~= is.subrange(0, i as int).map_values(f).push(
            f(is[i as int]),
        ));
        i = i + 1;
    }
    assert(is.subrange(0, ins@.len() as int) =~= is);
    out
}

// ---------------------------------------------------------------------------
// The `li` pseudo-instruction.

/// The rounded upper part of `li`'s number: `(n + 0x800) >> 12`.
pub open spec fn li_hi(n: i32) -> int {
    (n + 0x800) / 4096
}

/// The remainder below the rounded upper part, in -2048..2048.
pub open spec fn li_lo(n: i32) -> int {
    n - li_hi(n) * 4096
}

/// `li rd n` as two instructions: `lui rd` of the rounded upper part, then
/// `addi rd rd` of the remainder below it.
pub open spec fn li_pair(rd: Seq<char>, n: i32) -> Seq<Seq<char>> {
    seq!["lui "@ + rd + " "@ + decimal(li_hi(n)), "addi "@ + rd + " "@ + rd + " "@ + decimal(li_lo(n))]
}

/// The bytes `li` of `n` takes: four where the upper part or the remainder
/// is zero, eight where both are needed.
pub open spec fn li_size(n: i32) -> int {
    if li_hi(n) != 0 && li_lo(n) != 0 {
        8
    } else {
        4
    }
}

/// `li rd n` with the parts that are zero left out: `addi rd x0` of the
/// number where the upper part is zero (so `li rd 0` is one `addi`), `lui`
/// alone where the remainder is zero, both otherwise.
pub open spec fn li_lines(rd: Seq<char>, n: i32) -> Seq<Seq<char>> {
    if li_hi(n) != 0 && li_lo(n) != 0 {
        li_pair(rd, n)
    } else if li_hi(n) == 0 {
        seq!["addi "@ + rd + " x0 "@ + decimal(li_lo(n))]
    } else {
        seq!["lui "@ + rd + " "@ + decimal(li_hi(n))]
    }
}

/// What `rd` holds after the core runs the one instruction of a short `li rd
/// n`: the `addi` immediate added to `x0`, or the `lui` immediate in place.
pub open spec fn li_short_result(rd: u32, n: i32) -> i32 {
    if li_hi(n) == 0 {
        op_imm_value(0, i_word(0x13, rd, 0, 0, ((li_lo(n) as i32) as u32) & 0xfff))
    } else {
        imm_u(u_word(0x37, rd, ((li_hi(n) as i32) as u32) & 0xfffff))
    }
}

/// What `rd` holds after the core runs the two instructions of `li rd n`:
/// the `lui` immediate in place, plus the `addi` immediate read back
/// sign-extended.
pub open spec fn li_result(rd: u32, n: i32) -> i32 {
    let lui = u_word(0x37, rd, ((li_hi(n) as i32) as u32) & 0xfffff);
    let addi = i_word(0x13, rd, 0, rd, ((li_lo(n) as i32) as u32) & 0xfff);
    op_imm_value(imm_u(lui), addi)
}

proof fn lemma_li_split(n: i32)
    ensures
        -0x80000 <= li_hi(n) <= 0x80000,
        -2048 <= li_lo(n) < 2048,
{
    let m = n + 0x800 + 0x8000_0000;
    lemma_floor_div(n + 0x800, m);
    vstd::arithmetic::div_mod::lemma_fundamental_div_mod(m, 4096);
    assert(m / 4096 <= 0x100000) by (nonlinear_arith)
        requires 0 <= m <= 0x1_0000_07ff;
}

/// `li` loads its number: for every `n`, the two instructions of `li rd n`,
/// run by the core, leave `n` in a register other than `x0`.
pub proof fn lemma_li_loads(rd: u32, n: i32)
    requires
        0 < rd < 32,
    ensures
        li_result(rd, n) == n,
{
    lemma_li_split(n);
    let q: i32 = li_hi(n) as i32;
    let r: i32 = li_lo(n) as i32;
    lemma_u_word_decodes(0x37, rd, q);
    lemma_i_word_decodes(0x13, rd, 0, rd, r);
    let up: i32 = ((q as u32) << 12u32) as i32;
    assert(up as int + r as int == n as int || up as int + r as int == n as int - 0x1_0000_0000
        || up as int + r as int == n as int + 0x1_0000_0000) by (bit_vector)
        requires
            up == ((q as u32) << 12u32) as i32,
            n as int == q as int * 4096 + r as int,
            -2048 <= r < 2048,
            -0x80000 <= q <= 0x80000,
    ;
}

/// A short `li` loads its number: where the upper part or the remainder of
/// `n` is zero, the one instruction of `li rd n`, run by the core, leaves `n`
/// in a register other than `x0`.
pub proof fn lemma_li_short_loads(rd: u32, n: i32)
    requires
        0 < rd < 32,
        li_size(n) == 4,
    ensures
        li_short_result(rd, n) == n,
{
    lemma_li_split(n);
    let q: i32 = li_hi(n) as i32;
    let r: i32 = li_lo(n) as i32;
    if li_hi(n) == 0 {
        lemma_i_word_decodes(0x13, rd, 0, 0, r);
        assert(vstd::wrapping::i32_specs::wrapping_add(0, r) == r);
    } else {
        lemma_u_word_decodes(0x37, rd, q);
        assert(((q as u32) << 12u32) as i32 == n) by (bit_vector)
            requires
                n as int == q as int * 4096,
                -0x80000 <= q <= 0x80000,
        ;
    }
}

/// Register `rd` in the assembler's normal form: `x` and its number.
pub open spec fn reg_word(rd: u32) -> Seq<char> {
    "x"@ + decimal(rd as int)
}

proof fn lemma_reg_word(rd: u32)
    requires
        rd < 32,
    ensures
        plain_word(reg_word(rd)),
        reg_operand(reg_word(rd)) == Some(Ok::<u32, IntErrorKind>(rd)),
{
    reveal_strlit("x");
    lemma_decimal_plain(rd as int);
    lemma_decimal_parses(rd as int);
    let w = reg_word(rd);
    assert(w.drop_first() =~= decimal(rd as int));
    assert forall|k: int| 0 <= k < w.len() implies #[trigger] w[k] != ' ' && w[k] != '"' by {
        if k > 0 {
            assert(w[k] == decimal(rd as int)[k - 1]);
        }
    }
    assert(((rd as int) as u32) & 0x1f == rd) by (bit_vector)
        requires rd < 32;
}

proof fn lemma_imm_word(v: int, mask: u32)
    requires
        i32::MIN <= v <= i32::MAX,
    ensures
        plain_word(decimal(v)),
        decimal(v).len() > 0,
        imm_operand(decimal(v), mask) == Some(Ok::<u32, IntErrorKind>(((v as i32) as u32) & mask)),
{
    lemma_decimal_plain(v);
    lemma_decimal_parses(v);
}

/// `li` assembles to the words whose run [`lemma_li_loads`] and
/// [`lemma_li_short_loads`] describe: for a register other than `x0` in
/// normal form, the encoder turns the `lui` of `li rd n` into the `lui` word
/// of the upper part and its `addi` into the `addi` word of the remainder,
/// added to `rd` in the full expansion and to `x0` in the short one.
pub proof fn lemma_li_encodes(rd: u32, n: i32)
    requires
        0 < rd < 32,
    ensures
        encode_tokens(tokens(li_pair(reg_word(rd), n)[0])) == Some(
            Ok::<u32, IntErrorKind>(u_word(0x37, rd, ((li_hi(n) as i32) as u32) & 0xfffff)),
        ),
        encode_tokens(tokens(li_pair(reg_word(rd), n)[1])) == Some(
            Ok::<u32, IntErrorKind>(i_word(0x13, rd, 0, rd, ((li_lo(n) as i32) as u32) & 0xfff)),
        ),
        li_size(n) == 8 ==> li_lines(reg_word(rd), n) == li_pair(reg_word(rd), n),
        li_hi(n) == 0 ==> encode_tokens(tokens(li_lines(reg_word(rd), n)[0])) == Some(
            Ok::<u32, IntErrorKind>(i_word(0x13, rd, 0, 0, ((li_lo(n) as i32) as u32) & 0xfff)),
        ),
        li_hi(n) != 0 && li_lo(n) == 0 ==> encode_tokens(tokens(li_lines(reg_word(rd), n)[0])) == Some(
            Ok::<u32, IntErrorKind>(u_word(0x37, rd, ((li_hi(n) as i32) as u32) & 0xfffff)),
        ),
{
    lemma_li_split(n);
    lemma_reg_word(rd);
    lemma_reg_word(0);
    lemma_imm_word(li_hi(n), 0xfffff);
    lemma_imm_word(li_lo(n), 0xfff);
    reveal_strlit("lui");
    reveal_strlit("lui ");
    reveal_strlit("addi");
    reveal_strlit("addi ");
    reveal_strlit(" ");
    reveal_strlit(" x0 ");
    reveal_strlit("x");
    reveal_strlit("auipc");
    reveal_strlit("jal");
    reveal_strlit("jalr");
    reveal_strlit("beq");
    reveal_strlit("bne");
    reveal_strlit("blt");
    reveal_strlit("bge");
    reveal_strlit("bltu");
    reveal_strlit("bgeu");
    reveal_strlit("lb");
    reveal_strlit("lh");
    reveal_strlit("lw");
    reveal_strlit("lbu");
    reveal_strlit("lhu");
    reveal_strlit("sb");
    reveal_strlit("sh");
    reveal_strlit("sw");
    reveal_strlit("sra");
    reveal_strlit("sub");
    reveal_strlit("srai");
    reveal_strlit("mul");
    reveal_strlit("mulh");
    reveal_strlit("mulhsu");
    reveal_strlit("mulhu");
    reveal_strlit("div");
    reveal_strlit("divu");
    reveal_strlit("rem");
    reveal_strlit("remu");
    let r = reg_word(rd);
    let x0 = reg_word(0);
    let hi = decimal(li_hi(n));
    let lo = decimal(li_lo(n));
    assert(x0 =~= "x0"@) by {
        reveal_strlit("x0");
        assert(decimal(0) =~= seq!['0']);
    }
    assert(plain_word("lui"@));
    assert(plain_word("addi"@));
    assert(mnemonic("lui"@) == (0x37u32, 0u32));
    assert("lui"@[1] != "addi"@[1]);
    assert("auipc"@[1] != "addi"@[1]);
    assert("jal"@[1] != "addi"@[1]);
    assert("jalr"@[1] != "addi"@[1]);
    assert("beq"@[1] != "addi"@[1]);
    assert("bne"@[1] != "addi"@[1]);
    assert("blt"@[1] != "addi"@[1]);
    assert("bge"@[1] != "addi"@[1]);
    assert("bltu"@[1] != "addi"@[1]);
    assert("bgeu"@[1] != "addi"@[1]);
    assert("lb"@[1] != "addi"@[1]);
    assert("lh"@[1] != "addi"@[1]);
    assert("lw"@[1] != "addi"@[1]);
    assert("lbu"@[1] != "addi"@[1]);
    assert("lhu"@[1] != "addi"@[1]);
    assert("sb"@[1] != "addi"@[1]);
    assert("sh"@[1] != "addi"@[1]);
    assert("sw"@[1] != "addi"@[1]);
    assert("sra"@[1] != "addi"@[1]);
    assert("sub"@[1] != "addi"@[1]);
    assert("srai"@[1] != "addi"@[1]);
    assert("mul"@[1] != "addi"@[1]);
    assert("mulh"@[1] != "addi"@[1]);
    assert("mulhsu"@[1] != "addi"@[1]);
    assert("mulhu"@[1] != "addi"@[1]);
    assert("div"@[1] != "addi"@[1]);
    assert("divu"@[1] != "addi"@[1]);
    assert("rem"@[1] != "addi"@[1]);
    assert("remu"@[1] != "addi"@[1]);
    assert(mnemonic("addi"@) == (0x13u32, 0u32));
    assert(funct7("addi"@) == 0);
    // `lui rd hi`
    assert("lui "@ + r + " "@ + hi =~= "lui"@ + " "@ + r + " "@ + hi);
    lemma_tokens_three("lui"@, r, hi);
    // `addi rd rd lo`
    assert("addi "@ + r + " "@ + r + " "@ + lo =~= "addi"@ + " "@ + r + " "@ + r + " "@ + lo);
    lemma_tokens_four("addi"@, r, r, lo);
    // `addi rd x0 lo`
    assert("addi "@ + r + " x0 "@ + lo =~= "addi"@ + " "@ + r + " "@ + x0 + " "@ + lo);
    lemma_tokens_four("addi"@, r, x0, lo);
    let w1 = i_word(0x13, rd, 0, rd, ((li_lo(n) as i32) as u32) & 0xfff);
    let w2 = i_word(0x13, rd, 0, 0, ((li_lo(n) as i32) as u32) & 0xfff);
    assert(w1 | (0u32 << 25u32) == w1) by (bit_vector);
    assert(w2 | (0u32 << 25u32) == w2) by (bit_vector);
}

/// The instructions from `i` on with `li` expanded, onto `acc`, each `li`
/// in the size its slot in `sizes` gives: two words in a slot of eight,
/// the short form in a slot of four; `None` where an `li` lacks an operand,
/// its number does not parse or needs more room than its slot.
pub open spec fn expand_from(ins: Seq<Seq<char>>, sizes: Seq<u32>, i: int, acc: Seq<Seq<char>>) -> Option<Seq<Seq<char>>>
    decreases ins.len() - i,
{
    if i < 0 || i >= ins.len() {
        Some(acc)
    } else {
        let ws = split(ins[i], ' ');
        if ws[0] == "li"@ {
            if ws.len() < 3 {
                None
            } else {
                match int_from_any(ws[2]) {
                    None => None,
                    Some(n) => if i < sizes.len() && sizes[i] == 8 {
                        expand_from(ins, sizes, i + 1, acc + li_pair(ws[1], n))
                    } else if li_size(n) == 4 {
                        expand_from(ins, sizes, i + 1, acc + li_lines(ws[1], n))
                    } else {
                        None
                    },
                }
            }
        } else {
            expand_from(ins, sizes, i + 1, acc.push(ins[i]))
        }
    }
}

/// The instructions with `li` expanded.
pub open spec fn expand(ins: Seq<Seq<char>>, sizes: Seq<u32>) -> Option<Seq<Seq<char>>> {
    expand_from(ins, sizes, 0, seq![])
}

proof fn lemma_floor_div(n: int, m: int)
    requires
        m == n + 0x8000_0000,
        0 <= m,
    ensures
        n / 4096 == m / 4096 - 0x80000,
        n % 4096 == m % 4096,
{
    assert(0x8000_0000int == 4096 * 0x80000int);
    vstd::arithmetic::div_mod::lemma_fundamental_div_mod(m, 4096);
    vstd::arithmetic::div_mod::lemma_fundamental_div_mod(n, 4096);
    let q = m / 4096;
    let r = m % 4096;
    vstd::arithmetic::div_mod::lemma_fundamental_div_mod_converse(n, 4096, q - 0x80000, r);
}

/// The two instructions of a full `li` expansion.
fn lui_addi_words(rd: &Vec<char>, n: i32) -> (r: Vec<Vec<char>>)
    ensures
        r@.map_values(|p: Vec<char>| p@) == li_pair(rd@, n),
{
    let m1: u64 = (n as i64 + 0x800 + 0x8000_0000) as u64;
    proof {
        lemma_floor_div(n + 0x800, m1 as int);
        lemma_li_split(n);
    }
    let hi: i64 = (m1 / 4096) as i64 - 0x80000;
    let lo: i64 = n as i64 - hi * 4096;
    let mut w1 = chars_of("lui ");
    append_chars(&mut w1, rd);
    w1.push(' ');
    let d1 = decimal_chars(hi);
    append_chars(&mut w1, &d1);
    let mut w2 = chars_of("addi ");
    append_chars(&mut w2, rd);
    w2.push(' ');
    append_chars(&mut w2, rd);
    w2.push(' ');
    let d2 = decimal_chars(lo);
    append_chars(&mut w2, &d2);
    proof {
        reveal_strlit("lui ");
        reveal_strlit("addi ");
        reveal_strlit(" ");
    }
    assert(w1@ =~= "lui "@ + rd@ + " "@ + decimal(li_hi(n)));
    assert(w2@ =~= "addi "@ + rd@ + " "@ + rd@ + " "@ + decimal(li_lo(n)));
    let mut out: Vec<Vec<char>> = Vec::new();
    let ghost v1 = w1@;
    let ghost v2 = w2@;
    out.push(w1);
    out.push(w2);
    assert(out@.map_values(|p: Vec<char>| p@) =~= li_pair(rd@, n));
    out
}

/// The bytes `li` of `n` takes.
pub(crate) fn li_size_exec(n: i32) -> (r: u32)
    ensures
        r == li_size(n),
{
    let m1: u64 = (n as i64 + 0x800 + 0x8000_0000) as u64;
    proof {
        lemma_floor_div(n + 0x800, m1 as int);
        lemma_li_split(n);
    }
    let hi: i64 = (m1 / 4096) as i64 - 0x80000;
    let lo: i64 = n as i64 - hi * 4096;
    if hi != 0 && lo != 0 {
        8
    } else {
        4
    }
}

/// The instructions of `li rd n`, the parts that are zero left out.
fn int_to_lui_addi_pair(rd: &Vec<char>, n: i32) -> (r: Vec<Vec<char>>)
    ensures
        r@.map_values(|p: Vec<char>| p@) == li_lines(rd@, n),
{
    let m1: u64 = (n as i64 + 0x800 + 0x8000_0000) as u64;
    proof {
        lemma_floor_div(n + 0x800, m1 as int);
        lemma_li_split(n);
    }
    let hi: i64 = (m1 / 4096) as i64 - 0x80000;
    let lo: i64 = n as i64 - hi * 4096;
    if hi != 0 && lo != 0 {
        return lui_addi_words(rd, n);
    }
    let mut w = if hi == 0 {
        chars_of("addi ")
    } else {
        chars_of("lui ")
    };
    append_chars(&mut w, rd);
    if hi == 0 {
        let x0 = chars_of(" x0 ");
        append_chars(&mut w, &x0);
        let d = decimal_chars(lo);
        append_chars(&mut w, &d);
    } else {
        w.push(' ');
        let d = decimal_chars(hi);
        append_chars(&mut w, &d);
    }
    proof {
        reveal_strlit("lui ");
        reveal_strlit("addi ");
        reveal_strlit(" x0 ");
        reveal_strlit(" ");
    }
    if hi == 0 {
        assert(w@ =~= "addi "@ + rd@ + " x0 "@ + decimal(li_lo(n)));
    } else {
        assert(w@ =~= "lui "@ + rd@ + " "@ + decimal(li_hi(n)));
    }
    let mut out: Vec<Vec<char>> = Vec::new();
    let ghost wv = w@;
    out.push(w);
    assert(out@.map_values(|p: Vec<char>| p@) =~= li_lines(rd@, n));
    out
}

/// Expands `li` into `lui` and `addi`.
pub fn expand_exec(ins: &Vec<Vec<char>>, sizes: &Vec<u32>) -> (r: Option<Vec<Vec<char>>>)
    ensures
        r matches Some(v) ==> expand(ins@.map_values(|p: Vec<char>| p@), sizes@) == Some(
            v@.map_values(|p: Vec<char>| p@),
        ),
        r is None ==> expand(ins@.map_values(|p: Vec<char>| p@), sizes@) is None,
{
    let ghost is = ins@.map_values(|p: Vec<char>| p@);
    let mut out: Vec<Vec<char>> = Vec::new();
    let mut i: usize = 0;
    assert(out@.map_values(|p: Vec<char>| p@) =~= Seq::<Seq<char>>::empty());
    while i < ins.len()
        invariant
            is == ins@.map_values(|p: Vec<char>| p@),
            i <= ins@.len(),
            expand(is, sizes@) == expand_from(is, sizes@, i as int, out@.map_values(|p: Vec<char>| p@)),
        decreases ins@.len() - i,
    {
        let ghost o0 = out@.map_values(|p: Vec<char>| p@);
        let line = &ins[i];
        assert(line@ == is[i as int]);
        let words = split_chars(line, ' ');
        let ghost ws = words@.map_values(|p: Vec<char>| p@);
        assert(words[0]@ == ws[0]);
        if chars_eq_str(&words[0], "li") {
            if words.len() < 3 {
                return None;
            }
            assert(words[1]@ == ws[1] && words[2]@ == ws[2]);
            let n = match int_from_any_exec(&words[2]) {
                None => {
                    return None;
                },
                Some(n) => n,
            };
            let pair = if i < sizes.len() && sizes[i] == 8 {
                lui_addi_words(&words[1], n)
            } else {
                let short = int_to_lui_addi_pair(&words[1], n);
                if short.len() != 1 {
                    return None;
                }
                short
            };
            let ghost pv = pair@.map_values(|p: Vec<char>| p@);
            let mut k: usize = 0;
            while k < pair.len()
                invariant
                    k <= pair@.len(),
                    pv == pair@.map_values(|p: Vec<char>| p@),
                    out@.map_values(|p: Vec<char>| p@) == o0 + pv.subrange(0, k as int),
                decreases pair@.len() - k,
            {
                let ghost o1 = out@.map_values(|p: Vec<char>| p@);
                let w = slice_chars(&pair[k], 0, pair[k].len());
                assert(w@ =~= pv[k as int]);
                let ghost wv = w@;
                out.push(w);
                assert(out@.map_values(|p: Vec<char>| p@) =~= o1.push(wv));
                k = k + 1;
                assert(out@.map_values(|p: Vec<char>| p@) =~= o0 + pv.subrange(0, k as int));
            }
            assert(pv.subrange(0, pair@.len() as int) =~= pv);
        } else {
            let w = slice_chars(line, 0, line.len());
            assert(w@ =~= is[i as int]);
            let ghost wv = w@;
            out.push(w);
            assert(out@.map_values(|p: Vec<char>| p@) =~= o0.push(wv));
        }
        i = i + 1;
    }
    Some(out)
}

// ---------------------------------------------------------------------------
// Register names and numbers.

/// The number of a register by its ABI name (`s0` and `fp` both name 8).
pub open spec fn register_number(t: Seq<char>) -> Option<u32> {
    if t == "zero"@ { Some(0) }
    else if t == "ra"@ { Some(1) }
    else if t == "sp"@ { Some(2) }
    else if t == "gp"@ { Some(3) }
    else if t == "tp"@ { Some(4) }
    else if t == "t0"@ { Some(5) }
    else if t == "t1"@ { Some(6) }
    else if t == "t2"@ { Some(7) }
    else if t == "fp"@ { Some(8) }
    else if t == "s0"@ { Some(8) }
    else if t == "s1"@ { Some(9) }
    else if t == "a0"@ { Some(10) }
    else if t == "a1"@ { Some(11) }
    else if t == "a2"@ { Some(12) }
    else if t == "a3"@ { Some(13) }
    else if t == "a4"@ { Some(14) }
    else if t == "a5"@ { Some(15) }
    else if t == "a6"@ { Some(16) }
    else if t == "a7"@ { Some(17) }
    else if t == "s2"@ { Some(18) }
    else if t == "s3"@ { Some(19) }
    else if t == "s4"@ { Some(20) }
    else if t == "s5"@ { Some(21) }
    else if t == "s6"@ { Some(22) }
    else if t == "s7"@ { Some(23) }
    else if t == "s8"@ { Some(24) }
    else if t == "s9"@ { Some(25) }
    else if t == "s10"@ { Some(26) }
    else if t == "s11"@ { Some(27) }
    else if t == "t3"@ { Some(28) }
    else if t == "t4"@ { Some(29) }
    else if t == "t5"@ { Some(30) }
    else if t == "t6"@ { Some(31) }
    else { None }
}

/// The characters of the register names.
proof fn lemma_register_spelling()
    ensures
        "zero"@.len() == 4,
        "zero"@[0] == 'z',
        "zero"@[1] == 'e',
        "zero"@[2] == 'r',
        "zero"@[3] == 'o',
        "ra"@.len() == 2,
        "ra"@[0] == 'r',
        "ra"@[1] == 'a',
        "sp"@.len() == 2,
        "sp"@[0] == 's',
        "sp"@[1] == 'p',
        "gp"@.len() == 2,
        "gp"@[0] == 'g',
        "gp"@[1] == 'p',
        "tp"@.len() == 2,
        "tp"@[0] == 't',
        "tp"@[1] == 'p',
        "t0"@.len() == 2,
        "t0"@[0] == 't',
        "t0"@[1] == '0',
        "t1"@.len() == 2,
        "t1"@[0] == 't',
        "t1"@[1] == '1',
        "t2"@.len() == 2,
        "t2"@[0] == 't',
        "t2"@[1] == '2',
        "fp"@.len() == 2,
        "fp"@[0] == 'f',
        "fp"@[1] == 'p',
        "s0"@.len() == 2,
        "s0"@[0] == 's',
        "s0"@[1] == '0',
        "s1"@.len() == 2,
        "s1"@[0] == 's',
        "s1"@[1] == '1',
        "a0"@.len() == 2,
        "a0"@[0] == 'a',
        "a0"@[1] == '0',
        "a1"@.len() == 2,
        "a1"@[0] == 'a',
        "a1"@[1] == '1',
        "a2"@.len() == 2,
        "a2"@[0] == 'a',
        "a2"@[1] == '2',
        "a3"@.len() == 2,
        "a3"@[0] == 'a',
        "a3"@[1] == '3',
        "a4"@.len() == 2,
        "a4"@[0] == 'a',
        "a4"@[1] == '4',
        "a5"@.len() == 2,
        "a5"@[0] == 'a',
        "a5"@[1] == '5',
        "a6"@.len() == 2,
        "a6"@[0] == 'a',
        "a6"@[1] == '6',
        "a7"@.len() == 2,
        "a7"@[0] == 'a',
        "a7"@[1] == '7',
        "s2"@.len() == 2,
        "s2"@[0] == 's',
        "s2"@[1] == '2',
        "s3"@.len() == 2,
        "s3"@[0] == 's',
        "s3"@[1] == '3',
        "s4"@.len() == 2,
        "s4"@[0] == 's',
        "s4"@[1] == '4',
        "s5"@.len() == 2,
        "s5"@[0] == 's',
        "s5"@[1] == '5',
        "s6"@.len() == 2,
        "s6"@[0] == 's',
        "s6"@[1] == '6',
        "s7"@.len() == 2,
        "s7"@[0] == 's',
        "s7"@[1] == '7',
        "s8"@.len() == 2,
        "s8"@[0] == 's',
        "s8"@[1] == '8',
        "s9"@.len() == 2,
        "s9"@[0] == 's',
        "s9"@[1] == '9',
        "s10"@.len() == 3,
        "s10"@[0] == 's',
        "s10"@[1] == '1',
        "s10"@[2] == '0',
        "s11"@.len() == 3,
        "s11"@[0] == 's',
        "s11"@[1] == '1',
        "s11"@[2] == '1',
        "t3"@.len() == 2,
        "t3"@[0] == 't',
        "t3"@[1] == '3',
        "t4"@.len() == 2,
        "t4"@[0] == 't',
        "t4"@[1] == '4',
        "t5"@.len() == 2,
        "t5"@[0] == 't',
        "t5"@[1] == '5',
        "t6"@.len() == 2,
        "t6"@[0] == 't',
        "t6"@[1] == '6',
{
    reveal_strlit("zero");
    reveal_strlit("ra");
    reveal_strlit("sp");
    reveal_strlit("gp");
    reveal_strlit("tp");
    reveal_strlit("t0");
    reveal_strlit("t1");
    reveal_strlit("t2");
    reveal_strlit("fp");
    reveal_strlit("s0");
    reveal_strlit("s1");
    reveal_strlit("a0");
    reveal_strlit("a1");
    reveal_strlit("a2");
    reveal_strlit("a3");
    reveal_strlit("a4");
    reveal_strlit("a5");
    reveal_strlit("a6");
    reveal_strlit("a7");
    reveal_strlit("s2");
    reveal_strlit("s3");
    reveal_strlit("s4");
    reveal_strlit("s5");
    reveal_strlit("s6");
    reveal_strlit("s7");
    reveal_strlit("s8");
    reveal_strlit("s9");
    reveal_strlit("s10");
    reveal_strlit("s11");
    reveal_strlit("t3");
    reveal_strlit("t4");
    reveal_strlit("t5");
    reveal_strlit("t6");
}

/// The ABI register names number the registers as the RISC-V calling
/// convention does: `zero`, `ra`, `sp`, `gp` and `tp` are 0 to 4; `t0` to
/// `t2` are 5 to 7 and `t3` to `t6` 28 to 31; `s0` (also `fp`) and `s1` are 8
/// and 9 and `s2` to `s11` 18 to 27; `a0` to `a7` are 10 to 17.
pub proof fn lemma_abi_registers(k: int)
    ensures
        register_number("zero"@) == Some(0u32),
        register_number("ra"@) == Some(1u32),
        register_number("sp"@) == Some(2u32),
        register_number("gp"@) == Some(3u32),
        register_number("tp"@) == Some(4u32),
        register_number("fp"@) == Some(8u32),
        0 <= k < 3 ==> register_number(seq!['t'] + decimal(k)) == Some((5 + k) as u32),
        3 <= k < 7 ==> register_number(seq!['t'] + decimal(k)) == Some((25 + k) as u32),
        0 <= k < 2 ==> register_number(seq!['s'] + decimal(k)) == Some((8 + k) as u32),
        2 <= k < 12 ==> register_number(seq!['s'] + decimal(k)) == Some((16 + k) as u32),
        0 <= k < 8 ==> register_number(seq!['a'] + decimal(k)) == Some((10 + k) as u32),
{
    lemma_register_spelling();
    if 0 <= k < 12 {
            if k == 0 { assert(decimal(0) =~= seq!['0']); assert(seq!['t'] + decimal(0) =~= "t0"@); }
            if k == 1 { assert(decimal(1) =~= seq!['1']); assert(seq!['t'] + decimal(1) =~= "t1"@); }
            if k == 2 { assert(decimal(2) =~= seq!['2']); assert(seq!['t'] + decimal(2) =~= "t2"@); }
            if k == 3 { assert(decimal(3) =~= seq!['3']); assert(seq!['t'] + decimal(3) =~= "t3"@); }
            if k == 4 { assert(decimal(4) =~= seq!['4']); assert(seq!['t'] + decimal(4) =~= "t4"@); }
            if k == 5 { assert(decimal(5) =~= seq!['5']); assert(seq!['t'] + decimal(5) =~= "t5"@); }
            if k == 6 { assert(decimal(6) =~= seq!['6']); assert(seq!['t'] + decimal(6) =~= "t6"@); }
            if k == 0 { assert(decimal(0) =~= seq!['0']); assert(seq!['s'] + decimal(0) =~= "s0"@); }
            if k == 1 { assert(decimal(1) =~= seq!['1']); assert(seq!['s'] + decimal(1) =~= "s1"@); }
            if k == 2 { assert(decimal(2) =~= seq!['2']); assert(seq!['s'] + decimal(2) =~= "s2"@); }
            if k == 3 { assert(decimal(3) =~= seq!['3']); assert(seq!['s'] + decimal(3) =~= "s3"@); }
            if k == 4 { assert(decimal(4) =~= seq!['4']); assert(seq!['s'] + decimal(4) =~= "s4"@); }
            if k == 5 { assert(decimal(5) =~= seq!['5']); assert(seq!['s'] + decimal(5) =~= "s5"@); }
            if k == 6 { assert(decimal(6) =~= seq!['6']); assert(seq!['s'] + decimal(6) =~= "s6"@); }
            if k == 7 { assert(decimal(7) =~= seq!['7']); assert(seq!['s'] + decimal(7) =~= "s7"@); }
            if k == 8 { assert(decimal(8) =~= seq!['8']); assert(seq!['s'] + decimal(8) =~= "s8"@); }
            if k == 9 { assert(decimal(9) =~= seq!['9']); assert(seq!['s'] + decimal(9) =~= "s9"@); }
            if k == 10 { assert(digits_of(1) =~= seq!['1']); assert(decimal(10) =~= seq!['1', '0']); assert(seq!['s'] + decimal(10) =~= "s10"@); }
            if k == 11 { assert(digits_of(1) =~= seq!['1']); assert(decimal(11) =~= seq!['1', '1']); assert(seq!['s'] + decimal(11) =~= "s11"@); }
            if k == 0 { assert(decimal(0) =~= seq!['0']); assert(seq!['a'] + decimal(0) =~= "a0"@); }
            if k == 1 { assert(decimal(1) =~= seq!['1']); assert(seq!['a'] + decimal(1) =~= "a1"@); }
            if k == 2 { assert(decimal(2) =~= seq!['2']); assert(seq!['a'] + decimal(2) =~= "a2"@); }
            if k == 3 { assert(decimal(3) =~= seq!['3']); assert(seq!['a'] + decimal(3) =~= "a3"@); }
            if k == 4 { assert(decimal(4) =~= seq!['4']); assert(seq!['a'] + decimal(4) =~= "a4"@); }
            if k == 5 { assert(decimal(5) =~= seq!['5']); assert(seq!['a'] + decimal(5) =~= "a5"@); }
            if k == 6 { assert(decimal(6) =~= seq!['6']); assert(seq!['a'] + decimal(6) =~= "a6"@); }
            if k == 7 { assert(decimal(7) =~= seq!['7']); assert(seq!['a'] + decimal(7) =~= "a7"@); }
    }
}

fn register_number_exec(t: &Vec<char>) -> (r: Option<u32>)
    ensures
        r == register_number(t@),
{
    if chars_eq_str(t, "zero") { Some(0) }
    else if chars_eq_str(t, "ra") { Some(1) }
    else if chars_eq_str(t, "sp") { Some(2) }
    else if chars_eq_str(t, "gp") { Some(3) }
    else if chars_eq_str(t, "tp") { Some(4) }
    else if chars_eq_str(t, "t0") { Some(5) }
    else if chars_eq_str(t, "t1") { Some(6) }
    else if chars_eq_str(t, "t2") { Some(7) }
    else if chars_eq_str(t, "fp") { Some(8) }
    else if chars_eq_str(t, "s0") { Some(8) }
    else if chars_eq_str(t, "s1") { Some(9) }
    else if chars_eq_str(t, "a0") { Some(10) }
    else if chars_eq_str(t, "a1") { Some(11) }
    else if chars_eq_str(t, "a2") { Some(12) }
    else if chars_eq_str(t, "a3") { Some(13) }
    else if chars_eq_str(t, "a4") { Some(14) }
    else if chars_eq_str(t, "a5") { Some(15) }
    else if chars_eq_str(t, "a6") { Some(16) }
    else if chars_eq_str(t, "a7") { Some(17) }
    else if chars_eq_str(t, "s2") { Some(18) }
    else if chars_eq_str(t, "s3") { Some(19) }
    else if chars_eq_str(t, "s4") { Some(20) }
    else if chars_eq_str(t, "s5") { Some(21) }
    else if chars_eq_str(t, "s6") { Some(22) }
    else if chars_eq_str(t, "s7") { Some(23) }
    else if chars_eq_str(t, "s8") { Some(24) }
    else if chars_eq_str(t, "s9") { Some(25) }
    else if chars_eq_str(t, "s10") { Some(26) }
    else if chars_eq_str(t, "s11") { Some(27) }
    else if chars_eq_str(t, "t3") { Some(28) }
    else if chars_eq_str(t, "t4") { Some(29) }
    else if chars_eq_str(t, "t5") { Some(30) }
    else if chars_eq_str(t, "t6") { Some(31) }
    else { None }
}

/// Whether a character is a decimal digit.
pub open spec fn is_decimal_digit(c: char) -> bool {
    '0' <= c <= '9'
}

/// A token in normal form: a register name becomes `x` and its number, a
/// token that starts with a digit becomes its value in decimal, and any
/// other token stays. `None` for an empty token or a number that does not
/// parse.
pub open spec fn normal_token(t: Seq<char>) -> Option<Seq<char>> {
    match register_number(t) {
        Some(n) => Some("x"@ + decimal(n as int)),
        None => if t.len() == 0 {
            None
        } else if is_decimal_digit(t[0]) {
            match int_from_any(t) {
                Some(v) => Some(decimal(v as int)),
                None => None,
            }
        } else {
            Some(t)
        },
    }
}

/// Tokens from `j` on in normal form, each followed by a space, onto `acc`.
pub open spec fn normal_line_from(ts: Seq<Seq<char>>, j: int, acc: Seq<char>) -> Option<Seq<char>>
    decreases ts.len() - j,
{
    if j < 0 || j >= ts.len() {
        Some(acc)
    } else {
        match normal_token(ts[j]) {
            None => None,
            Some(t) => normal_line_from(ts, j + 1, acc + t.push(' ')),
        }
    }
}

/// One instruction in normal form.
pub open spec fn normal_line(s: Seq<char>) -> Option<Seq<char>> {
    normal_line_from(tokens(s), 0, seq![])
}

/// The instructions from `i` on in normal form, onto `acc`.
pub open spec fn normalize_from(ins: Seq<Seq<char>>, i: int, acc: Seq<Seq<char>>) -> Option<Seq<Seq<char>>>
    decreases ins.len() - i,
{
    if i < 0 || i >= ins.len() {
        Some(acc)
    } else {
        match normal_line(ins[i]) {
            None => None,
            Some(l) => normalize_from(ins, i + 1, acc.push(l)),
        }
    }
}

/// The instructions in normal form.
pub open spec fn normalize(ins: Seq<Seq<char>>) -> Option<Seq<Seq<char>>> {
    normalize_from(ins, 0, seq![])
}

fn normal_token_exec(t: &Vec<char>) -> (r: Option<Vec<char>>)
    ensures
        r matches Some(v) ==> normal_token(t@) == Some(v@),
        r is None ==> normal_token(t@) is None,
{
    match register_number_exec(t) {
        Some(n) => {
            let mut v = chars_of("x");
            let d = decimal_chars(n as i64);
            append_chars(&mut v, &d);
            Some(v)
        },
        None => {
            if t.len() == 0 {
                None
            } else if '0' <= t[0] && t[0] <= '9' {
                match int_from_any_exec(t) {
                    Some(v) => Some(decimal_chars(v as i64)),
                    None => None,
                }
            } else {
                let c = slice_chars(t, 0, t.len());
                assert(c@ =~= t@);
                Some(c)
            }
        },
    }
}

fn normal_line_exec(s: &Vec<char>) -> (r: Option<Vec<char>>)
    ensures
        r matches Some(v) ==> normal_line(s@) == Some(v@),
        r is None ==> normal_line(s@) is None,
{
    let toks = tokenise_line(s);
    let ghost ts = toks@.map_values(|t: Vec<char>| t@);
    let mut out: Vec<char> = Vec::new();
    let mut j: usize = 0;
    assert(out@ =~= Seq::<char>::empty());
    while j < toks.len()
        invariant
            ts == toks@.map_values(|t: Vec<char>| t@),
            ts == tokens(s@),
            j <= toks@.len(),
            normal_line(s@) == normal_line_from(ts, j as int, out@),
        decreases toks@.len() - j,
    {
        assert(toks[j as int]@ == ts[j as int]);
        match normal_token_exec(&toks[j]) {
            None => {
                return None;
            },
            Some(t) => {
                let ghost o0 = out@;
                append_chars(&mut out, &t);
                out.push(' ');
                assert(out@ =~= o0 + t@.push(' '));
            },
        }
        j = j + 1;
    }
    Some(out)
}

/// Puts every instruction in normal form.
pub fn normalize_exec(ins: &Vec<Vec<char>>) -> (r: Option<Vec<Vec<char>>>)
    ensures
        r matches Some(v) ==> normalize(ins@.map_values(|p: Vec<char>| p@)) == Some(
            v@.map_values(|p: Vec<char>| p@),
        ),
        r is None ==> normalize(ins@.map_values(|p: Vec<char>| p@)) is None,
{
    let ghost is = ins@.map_values(|p: Vec<char>| p@);
    let mut out: Vec<Vec<char>> = Vec::new();
    let mut i: usize = 0;
    assert(out@.map_values(|p: Vec<char>| p@) =~= Seq::<Seq<char>>::empty());
    while i < ins.len()
        invariant
            is == ins@.map_values(|p: Vec<char>| p@),
            i <= ins@.len(),
            normalize(is) == normalize_from(is, i as int, out@.map_values(|p: Vec<char>| p@)),
        decreases ins@.len() - i,
    {
        assert(ins[i as int]@ == is[i as int]);
        match normal_line_exec(&ins[i]) {
            None => {
                return None;
            },
            Some(l) => {
                let ghost o0 = out@.map_values(|p: Vec<char>| p@);
                let ghost lv = l@;
                out.push(l);
                assert(out@.map_values(|p: Vec<char>| p@) =~= o0.push(lv));
            },
        }
        i = i + 1;
    }
    Some(out)
}

} // verus!
