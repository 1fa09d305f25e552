use vstd::prelude::*;
use vstd::string::StrSliceExecFns;

verus! {

/// The characters of a string slice.
pub fn chars_of(s: &str) -> (v: Vec<char>)
    ensures
        v@ == s@,
{
    let n = s.unicode_len();
    let mut v: Vec<char> = Vec::new();
    let mut i: usize = 0;
    while i < n
        invariant
            n == s@.len(),
            i <= n,
            v@ == s@.subrange(0, i as int),
        decreases n - i,
    {
        v.push(s.get_char(i));
        i = i + 1;
        assert(v@ =~= s@.subrange(0, i as int));
    }
    assert(v@ =~= s@);
    v
}

/// Whether two character sequences are equal.
pub fn chars_eq(a: &Vec<char>, b: &Vec<char>) -> (r: bool)
    ensures
        r == (a@ == b@),
{
    if a.len() != b.len() {
        return false;
    }
    let mut i: usize = 0;
    while i < a.len()
        invariant
            a@.len() == b@.len(),
            i <= a@.len(),
            forall|j: int| 0 <= j < i ==> a@[j] == b@[j],
        decreases a@.len() - i,
    {
        if a[i] != b[i] {
            return false;
        }
        i = i + 1;
    }
    assert(a@ =~= b@);
    true
}

/// Whether a character sequence equals a string literal's characters.
pub fn chars_eq_str(a: &Vec<char>, s: &str) -> (r: bool)
    ensures
        r == (a@ == s@),
{
    let b = chars_of(s);
    chars_eq(a, &b)
}


/// Unicode `White_Space`, as `char::is_whitespace` has it.
pub open spec fn is_ws(c: char) -> bool {
    let u = c as u32;
    (0x09 <= u <= 0x0d) || u == 0x20 || u == 0x85 || u == 0xa0 || u == 0x1680 || (0x2000 <= u
        <= 0x200a) || u == 0x2028 || u == 0x2029 || u == 0x202f || u == 0x205f || u == 0x3000
}

fn is_ws_exec(c: char) -> (r: bool)
    ensures
        r == is_ws(c),
{
    let u = c as u32;
    (0x09 <= u && u <= 0x0d) || u == 0x20 || u == 0x85 || u == 0xa0 || u == 0x1680 || (0x2000 <= u
        && u <= 0x200a) || u == 0x2028 || u == 0x2029 || u == 0x202f || u == 0x205f || u == 0x3000
}

/// `s` without its leading white space.
pub open spec fn trim_start(s: Seq<char>) -> Seq<char>
    decreases s.len(),
{
    if s.len() > 0 && is_ws(s[0]) {
        trim_start(s.drop_first())
    } else {
        s
    }
}

/// `s` without its trailing white space.
pub open spec fn trim_end(s: Seq<char>) -> Seq<char>
    decreases s.len(),
{
    if s.len() > 0 && is_ws(s.last()) {
        trim_end(s.drop_last())
    } else {
        s
    }
}

/// `s` without leading and trailing white space (`str::trim`).
pub open spec fn trim(s: Seq<char>) -> Seq<char> {
    trim_end(trim_start(s))
}

/// The characters of `v[lo..hi]`.
pub fn slice_chars(v: &Vec<char>, lo: usize, hi: usize) -> (r: Vec<char>)
    requires
        lo <= hi <= v@.len(),
    ensures
        r@ == v@.subrange(lo as int, hi as int),
{
    let mut r: Vec<char> = Vec::new();
    let mut i: usize = lo;
    while i < hi
        invariant
            lo <= i <= hi <= v@.len(),
            r@ == v@.subrange(lo as int, i as int),
        decreases hi - i,
    {
        r.push(v[i]);
        i = i + 1;
        assert(r@ =~= v@.subrange(lo as int, i as int));
    }
    r
}

/// Trims white space from both ends.
pub fn trim_chars(s: &Vec<char>) -> (r: Vec<char>)
    ensures
        r@ == trim(s@),
{
    let n = s.len();
    let mut lo: usize = 0;
    assert(s@.subrange(0, n as int) =~= s@);
    while lo < n && is_ws_exec(s[lo])
        invariant
            n == s@.len(),
            lo <= n,
            trim_start(s@) == trim_start(s@.subrange(lo as int, n as int)),
        decreases n - lo,
    {
        assert(s@.subrange(lo as int, n as int).drop_first() =~= s@.subrange(lo + 1, n as int));
        lo = lo + 1;
    }
    assert(trim_start(s@) == s@.subrange(lo as int, n as int));
    let mut hi: usize = n;
    while hi > lo && is_ws_exec(s[hi - 1])
        invariant
            n == s@.len(),
            lo <= hi <= n,
            trim(s@) == trim_end(s@.subrange(lo as int, hi as int)),
        decreases hi - lo,
    {
        assert(s@.subrange(lo as int, hi as int).drop_last() =~= s@.subrange(lo as int, hi - 1));
        hi = hi - 1;
    }
    slice_chars(s, lo, hi)
}

/// `s` cut at each `sep` (`str::split` with a one-character pattern): the
/// pieces before, between and after the separators, empty ones included.
pub open spec fn split_from(s: Seq<char>, sep: char, i: int, cur: Seq<char>, acc: Seq<Seq<char>>) -> Seq<Seq<char>>
    decreases s.len() - i,
{
    if i < 0 || i >= s.len() {
        acc.push(cur)
    } else if s[i] == sep {
        split_from(s, sep, i + 1, seq![], acc.push(cur))
    } else {
        split_from(s, sep, i + 1, cur.push(s[i]), acc)
    }
}

pub open spec fn split(s: Seq<char>, sep: char) -> Seq<Seq<char>> {
    split_from(s, sep, 0, seq![], seq![])
}

/// Splits at each `sep`.
pub fn split_chars(s: &Vec<char>, sep: char) -> (r: Vec<Vec<char>>)
    ensures
        r@.len() >= 1,
        r@.map_values(|p: Vec<char>| p@) == split(s@, sep),
{
    let mut acc: Vec<Vec<char>> = Vec::new();
    let mut cur: Vec<char> = Vec::new();
    let mut i: usize = 0;
    assert(acc@.map_values(|p: Vec<char>| p@) =~= Seq::<Seq<char>>::empty());
    assert(cur@ =~= Seq::<char>::empty());
    while i < s.len()
        invariant
            i <= s@.len(),
            split(s@, sep) == split_from(s@, sep, i as int, cur@, acc@.map_values(|p: Vec<char>| p@)),
        decreases s@.len() - i,
    {
        if s[i] == sep {
            let ghost a0 = acc@.map_values(|p: Vec<char>| p@);
            let ghost c0 = cur@;
            let piece = cur;
            acc.push(piece);
            cur = Vec::new();
            assert(acc@.map_values(|p: Vec<char>| p@) =~= a0.push(c0));
            assert(cur@ =~= Seq::<char>::empty());
        } else {
            cur.push(s[i]);
        }
        i = i + 1;
    }
    let ghost a0 = acc@.map_values(|p: Vec<char>| p@);
    let ghost c0 = cur@;
    acc.push(cur);
    assert(acc@.map_values(|p: Vec<char>| p@) =~= a0.push(c0));
    acc
}

/// The pieces joined with `sep` between them (`[T]::join`).
pub open spec fn join(parts: Seq<Seq<char>>, sep: char) -> Seq<char>
    decreases parts.len(),
{
    if parts.len() == 0 {
        seq![]
    } else if parts.len() == 1 {
        parts[0]
    } else {
        join(parts.drop_last(), sep).push(sep) + parts.last()
    }
}

/// Joins pieces with `sep`.
pub fn join_chars(parts: &Vec<Vec<char>>, sep: char) -> (r: Vec<char>)
    ensures
        r@ == join(parts@.map_values(|p: Vec<char>| p@), sep),
{
    let ghost ps = parts@.map_values(|p: Vec<char>| p@);
    let mut r: Vec<char> = Vec::new();
    let mut i: usize = 0;
    while i < parts.len()
        invariant
            i <= parts@.len(),
            ps == parts@.map_values(|p: Vec<char>| p@),
            r@ == join(ps.subrange(0, i as int), sep),
        decreases parts@.len() - i,
    {
        let ghost r0 = r@;
        if i > 0 {
            r.push(sep);
        }
        let part = &parts[i];
        let mut j: usize = 0;
        let ghost r1 = r@;
        while j < part.len()
            invariant
                j <= part@.len(),
                r@ == r1 + part@.subrange(0, j as int),
            decreases part@.len() - j,
        {
            r.push(part[j]);
            j = j + 1;
            assert(r@ =~= r1 + part@.subrange(0, j as int));
        }
        assert(part@.subrange(0, part@.len() as int) =~= part@);
        assert(ps.subrange(0, i + 1).drop_last() =~= ps.subrange(0, i as int));
        if i == 0 {
            assert(r@ =~= join(ps.subrange(0, 1), sep));
        }
        i = i + 1;
    }
    assert(ps.subrange(0, parts@.len() as int) =~= ps);
    r
}

/// `s` with every `c` removed (`str::replace(c, "")`).
pub open spec fn remove_char(s: Seq<char>, c: char) -> Seq<char> {
    s.filter(|x: char| x != c)
}

/// Removes every `c`.
pub fn remove_chars(s: &Vec<char>, c: char) -> (r: Vec<char>)
    ensures
        r@ == remove_char(s@, c),
{
    let mut r: Vec<char> = Vec::new();
    let mut i: usize = 0;
    while i < s.len()
        invariant
            i <= s@.len(),
            r@ == remove_char(s@.subrange(0, i as int), c),
        decreases s@.len() - i,
    {
        assert(s@.subrange(0, i + 1).drop_last() =~= s@.subrange(0, i as int));
        reveal_with_fuel(Seq::<_>::filter, 1);
        if s[i] != c {
            r.push(s[i]);
        }
        i = i + 1;
    }
    assert(s@.subrange(0, s@.len() as int) =~= s@);
    r
}


/// The tokens of a line: pieces between spaces, where a double quote switches
/// a quoted stretch on and off, quotes are dropped, spaces inside quotes are
/// dropped too, and a piece is taken at every space outside quotes (empty ones
/// included) and at the end when it is not empty.
pub open spec fn tokens_from(s: Seq<char>, i: int, within: bool, token: Seq<char>, acc: Seq<Seq<char>>) -> Seq<Seq<char>>
    decreases s.len() - i,
{
    if i < 0 || i >= s.len() {
        if token.len() > 0 {
            acc.push(token)
        } else {
            acc
        }
    } else if s[i] == '"' {
        tokens_from(s, i + 1, !within, token, acc)
    } else if s[i] == ' ' {
        if !within {
            tokens_from(s, i + 1, within, seq![], acc.push(token))
        } else {
            tokens_from(s, i + 1, within, token, acc)
        }
    } else {
        tokens_from(s, i + 1, within, token.push(s[i]), acc)
    }
}

pub open spec fn tokens(s: Seq<char>) -> Seq<Seq<char>> {
    tokens_from(s, 0, false, seq![], seq![])
}

/// The line with one space at its end dropped.
pub open spec fn without_trailing_space(s: Seq<char>) -> Seq<char> {
    if s.len() > 0 && s.last() == ' ' {
        s.drop_last()
    } else {
        s
    }
}

proof fn lemma_join_push_char(acc: Seq<Seq<char>>, token: Seq<char>, c: char)
    ensures
        join(acc.push(token.push(c)), ' ') == join(acc.push(token), ' ').push(c),
{
    if acc.len() == 0 {
        assert(acc.push(token.push(c)) =~= seq![token.push(c)]);
        assert(acc.push(token) =~= seq![token]);
    } else {
        assert(acc.push(token.push(c)).drop_last() =~= acc);
        assert(acc.push(token).drop_last() =~= acc);
        assert(join(acc, ' ').push(' ') + token.push(c) =~= (join(acc, ' ').push(' ') + token).push(c));
    }
}

proof fn lemma_tokens_from_join(s: Seq<char>, i: int, token: Seq<char>, acc: Seq<Seq<char>>)
    requires
        !s.contains('"'),
        0 <= i <= s.len(),
        join(acc.push(token), ' ') == s.subrange(0, i),
        !token.contains(' '),
        forall|k: int| 0 <= k < acc.len() ==> !(#[trigger] acc[k]).contains(' '),
    ensures
        forall|k: int|
            0 <= k < tokens_from(s, i, false, token, acc).len() ==> !(#[trigger] tokens_from(
                s,
                i,
                false,
                token,
                acc,
            )[k]).contains(' '),
        join(tokens_from(s, i, false, token, acc), ' ') == without_trailing_space(s),
    decreases s.len() - i,
{
    if i >= s.len() {
        assert(s.subrange(0, i) =~= s);
        if token.len() > 0 {
            if acc.len() == 0 {
                assert(acc.push(token) =~= seq![token]);
            } else {
                assert(acc.push(token).drop_last() =~= acc);
            }
            assert(s.last() == token.last());
            assert(token.contains(token.last()));
        } else if acc.len() == 0 {
            assert(acc.push(token) =~= seq![token]);
        } else {
            assert(acc.push(token).drop_last() =~= acc);
            assert(join(acc, ' ').push(' ') + token =~= join(acc, ' ').push(' '));
            assert(s.drop_last() =~= join(acc, ' '));
        }
    } else if s[i] == '"' {
        assert(s.contains(s[i]));
    } else if s[i] == ' ' {
        let acc2 = acc.push(token);
        assert(acc2.push(seq![]).drop_last() =~= acc2);
        assert(join(acc2, ' ').push(' ') + Seq::<char>::empty() =~= s.subrange(0, i + 1));
        assert(!Seq::<char>::empty().contains(' '));
        lemma_tokens_from_join(s, i + 1, seq![], acc2);
    } else {
        lemma_join_push_char(acc, token, s[i]);
        assert(s.subrange(0, i).push(s[i]) =~= s.subrange(0, i + 1));
        assert forall|x: char| token.push(s[i]).contains(x) implies x != ' ' by {
            let j = choose|j: int| 0 <= j < token.push(s[i]).len() && token.push(s[i])[j] == x;
            if j < token.len() {
                assert(token.contains(token[j]));
            }
        }
        lemma_tokens_from_join(s, i + 1, token.push(s[i]), acc);
    }
}

/// Without quotes a line splits at every space, empty fields kept: no token
/// holds a space, and the tokens joined with single spaces give back the
/// line, less one space at its end.
pub proof fn lemma_tokens_join(s: Seq<char>)
    requires
        !s.contains('"'),
    ensures
        forall|k: int| 0 <= k < tokens(s).len() ==> !(#[trigger] tokens(s)[k]).contains(' '),
        join(tokens(s), ' ') == without_trailing_space(s),
{
    let e: Seq<Seq<char>> = seq![];
    assert(e.push(seq![]) =~= seq![Seq::<char>::empty()]);
    assert(s.subrange(0, 0) =~= Seq::<char>::empty());
    lemma_tokens_from_join(s, 0, seq![], e);
}

/// Splits a line into tokens.
pub fn tokenise_line(line: &Vec<char>) -> (r: Vec<Vec<char>>)
    ensures
        r@.map_values(|t: Vec<char>| t@) == tokens(line@),
{
    let mut tokens_v: Vec<Vec<char>> = Vec::new();
    let mut token: Vec<char> = Vec::new();
    let mut within_string: bool = false;
    let mut i: usize = 0;
    assert(tokens_v@.map_values(|t: Vec<char>| t@) =~= Seq::<Seq<char>>::empty());
    assert(token@ =~= Seq::<char>::empty());
    while i < line.len()
        invariant
            i <= line@.len(),
            tokens(line@) == tokens_from(
                line@,
                i as int,
                within_string,
                token@,
                tokens_v@.map_values(|t: Vec<char>| t@),
            ),
        decreases line@.len() - i,
    {
        let ch = line[i];
        if ch == '"' {
            within_string = !within_string;
        } else if ch == ' ' {
            if !within_string {
                let ghost a0 = tokens_v@.map_values(|t: Vec<char>| t@);
                let ghost t0 = token@;
                let piece = token;
                tokens_v.push(piece);
                token = Vec::new();
                assert(tokens_v@.map_values(|t: Vec<char>| t@) =~= a0.push(t0));
                assert(token@ =~= Seq::<char>::empty());
            }
        } else {
            token.push(ch);
        }
        i = i + 1;
    }
    if token.len() > 0 {
        let ghost a0 = tokens_v@.map_values(|t: Vec<char>| t@);
        let ghost t0 = token@;
        tokens_v.push(token);
        assert(tokens_v@.map_values(|t: Vec<char>| t@) =~= a0.push(t0));
    }
    tokens_v
}

/// The character of a decimal digit.
pub open spec fn digit_char(d: int) -> char {
    (48 + d) as char
}

/// The decimal digits of `n`, most significant first.
pub open spec fn digits_of(n: nat) -> Seq<char>
    decreases n,
{
    if n < 10 {
        seq![digit_char(n as int)]
    } else {
        digits_of(n / 10).push(digit_char((n % 10) as int))
    }
}

/// `n` in decimal, with a minus sign where negative (`to_string`).
pub open spec fn decimal(n: int) -> Seq<char> {
    if n < 0 {
        seq!['-'] + digits_of((-n) as nat)
    } else {
        digits_of(n as nat)
    }
}

fn digits_exec(m: u64) -> (v: Vec<char>)
    ensures
        v@ == digits_of(m as nat),
    decreases m,
{
    let d: u8 = (m % 10) as u8;
    let c: char = (48u8 + d) as char;
    assert(c == digit_char((m % 10) as int));
    if m < 10 {
        let mut v: Vec<char> = Vec::new();
        v.push(c);
        assert(v@ =~= seq![digit_char(m as int)]);
        v
    } else {
        let mut v = digits_exec(m / 10);
        v.push(c);
        v
    }
}

/// `n` in decimal.
pub fn decimal_chars(n: i64) -> (v: Vec<char>)
    requires
        n > i64::MIN,
    ensures
        v@ == decimal(n as int),
{
    if n < 0 {
        let mut v: Vec<char> = Vec::new();
        v.push('-');
        let ds = digits_exec((-n) as u64);
        let mut i: usize = 0;
        while i < ds.len()
            invariant
                i <= ds@.len(),
                v@ == seq!['-'] + ds@.subrange(0, i as int),
            decreases ds@.len() - i,
        {
            v.push(ds[i]);
            i = i + 1;
            assert(v@ =~= seq!['-'] + ds@.subrange(0, i as int));
        }
        assert(ds@.subrange(0, ds@.len() as int) =~= ds@);
        v
    } else {
        digits_exec(n as u64)
    }
}

/// Why a number does not parse.
#[derive(Clone, Copy, Debug, PartialEq, Eq, Structural)]
pub enum IntErrorKind {
    Empty,
    InvalidDigit,
    PosOverflow,
    NegOverflow,
}

/// The value of a digit in `radix` (`char::to_digit`).
pub open spec fn digit_value(c: char, radix: u32) -> Option<int> {
    let u = c as u32;
    let v: int = if 48 <= u <= 57 {
        u - 48
    } else if 97 <= u <= 122 {
        u - 97 + 10
    } else if 65 <= u <= 90 {
        u - 65 + 10
    } else {
        99
    };
    if v < radix {
        Some(v)
    } else {
        None
    }
}

/// Digits `s[i..]` read onto `acc`, most significant first, staying within
/// `lo..=hi`: the first non-digit or the first step out of range decides.
pub open spec fn accumulate(
    s: Seq<char>,
    radix: u32,
    i: int,
    acc: int,
    neg: bool,
    lo: int,
    hi: int,
) -> Result<int, IntErrorKind>
    decreases s.len() - i,
{
    if i < 0 || i >= s.len() {
        Ok(acc)
    } else {
        match digit_value(s[i], radix) {
            None => Err(IntErrorKind::InvalidDigit),
            Some(d) => {
                let next = if neg {
                    acc * radix - d
                } else {
                    acc * radix + d
                };
                if next < lo || next > hi {
                    Err(
                        if neg {
                            IntErrorKind::NegOverflow
                        } else {
                            IntErrorKind::PosOverflow
                        },
                    )
                } else {
                    accumulate(s, radix, i + 1, next, neg, lo, hi)
                }
            },
        }
    }
}

/// `from_str_radix` for an integer type with range `lo..=hi`: an optional `+`
/// (or `-` where `signed`) and at least one digit.
pub open spec fn parse_int(s: Seq<char>, radix: u32, signed: bool, lo: int, hi: int) -> Result<int, IntErrorKind> {
    if s.len() == 0 {
        Err(IntErrorKind::Empty)
    } else if (s[0] == '+' || s[0] == '-') && s.len() == 1 {
        Err(IntErrorKind::InvalidDigit)
    } else if s[0] == '+' {
        accumulate(s, radix, 1, 0, false, lo, hi)
    } else if s[0] == '-' && signed {
        accumulate(s, radix, 1, 0, true, lo, hi)
    } else {
        accumulate(s, radix, 0, 0, false, lo, hi)
    }
}

/// `u32::from_str_radix`.
pub open spec fn parse_u32(s: Seq<char>, radix: u32) -> Result<int, IntErrorKind> {
    parse_int(s, radix, false, 0, u32::MAX as int)
}

/// `i32::from_str_radix`.
pub open spec fn parse_i32(s: Seq<char>, radix: u32) -> Result<int, IntErrorKind> {
    parse_int(s, radix, true, i32::MIN as int, i32::MAX as int)
}

fn digit_value_exec(c: char, radix: u32) -> (r: Option<i64>)
    requires
        2 <= radix <= 36,
    ensures
        r == (match digit_value(c, radix) {
            Some(v) => Some(v as i64),
            None => None,
        }),
{
    let u = c as u32;
    let v: u32 = if 48 <= u && u <= 57 {
        u - 48
    } else if 97 <= u && u <= 122 {
        u - 97 + 10
    } else if 65 <= u && u <= 90 {
        u - 65 + 10
    } else {
        99
    };
    if v < radix {
        Some(v as i64)
    } else {
        None
    }
}

/// Parses `s[start..]` as digits onto `neg`ative or positive zero.
fn accumulate_exec(s: &Vec<char>, radix: u32, start: usize, neg: bool, lo: i64, hi: i64) -> (r: Result<i64, IntErrorKind>)
    requires
        2 <= radix <= 36,
        start <= s@.len(),
        -0x1_0000_0000 <= lo <= 0 <= hi <= 0x1_0000_0000,
    ensures
        r == (match accumulate(s@, radix, start as int, 0, neg, lo as int, hi as int) {
            Ok(v) => Ok(v as i64),
            Err(e) => Err(e),
        }),
        r matches Ok(v) ==> lo <= v <= hi,
        accumulate(s@, radix, start as int, 0, neg, lo as int, hi as int) matches Ok(v) ==> lo <= v
            <= hi,
{
    let mut acc: i64 = 0;
    let mut i: usize = start;
    while i < s.len()
        invariant
            2 <= radix <= 36,
            start <= i <= s@.len(),
            lo <= acc <= hi,
            -0x1_0000_0000 <= lo <= 0 <= hi <= 0x1_0000_0000,
            accumulate(s@, radix, start as int, 0, neg, lo as int, hi as int) == accumulate(
                s@,
                radix,
                i as int,
                acc as int,
                neg,
                lo as int,
                hi as int,
            ),
        decreases s@.len() - i,
    {
        match digit_value_exec(s[i], radix) {
            None => {
                return Err(IntErrorKind::InvalidDigit);
            },
            Some(d) => {
                assert(-0x100_0000_0000 <= acc * (radix as i64) <= 0x100_0000_0000) by (nonlinear_arith)
                    requires -0x1_0000_0000 <= acc <= 0x1_0000_0000, 2 <= radix <= 36;
                let next: i64 = if neg {
                    acc * (radix as i64) - d
                } else {
                    acc * (radix as i64) + d
                };
                if next < lo || next > hi {
                    return Err(
                        if neg {
                            IntErrorKind::NegOverflow
                        } else {
                            IntErrorKind::PosOverflow
                        },
                    );
                }
                acc = next;
            },
        }
        i = i + 1;
    }
    Ok(acc)
}

/// `from_str_radix` for the range `lo..=hi`.
pub fn parse_int_exec(s: &Vec<char>, radix: u32, signed: bool, lo: i64, hi: i64) -> (r: Result<i64, IntErrorKind>)
    requires
        2 <= radix <= 36,
        -0x1_0000_0000 <= lo <= 0 <= hi <= 0x1_0000_0000,
    ensures
        r == (match parse_int(s@, radix, signed, lo as int, hi as int) {
            Ok(v) => Ok(v as i64),
            Err(e) => Err(e),
        }),
        r matches Ok(v) ==> lo <= v <= hi,
        parse_int(s@, radix, signed, lo as int, hi as int) matches Ok(v) ==> lo <= v <= hi,
{
    if s.len() == 0 {
        Err(IntErrorKind::Empty)
    } else if (s[0] == '+' || s[0] == '-') && s.len() == 1 {
        Err(IntErrorKind::InvalidDigit)
    } else if s[0] == '+' {
        accumulate_exec(s, radix, 1, false, lo, hi)
    } else if s[0] == '-' && signed {
        accumulate_exec(s, radix, 1, true, lo, hi)
    } else {
        accumulate_exec(s, radix, 0, false, lo, hi)
    }
}

/// Whether a character is ASCII.
pub open spec fn is_ascii_char(c: char) -> bool {
    (c as u32) < 128
}

/// A number in decimal, or hexadecimal, binary or octal after `0x`, `0b` or
/// `0o`, read as `u32` and taken as `i32`; `None` where it does not parse.
pub open spec fn int_from_any(s: Seq<char>) -> Option<i32> {
    match radix_parse(s) {
        Ok(v) => Some(v as u32 as i32),
        Err(_) => None,
    }
}

/// The parse behind [`int_from_any`]: the radix prefix selects the digits and
/// the radix; the first two characters must be ASCII to be looked at.
pub open spec fn radix_parse(s: Seq<char>) -> Result<int, IntErrorKind> {
    if s.len() < 2 {
        if s.len() == 1 && !is_ascii_char(s[0]) {
            Err(IntErrorKind::InvalidDigit)
        } else {
            parse_u32(s, 10)
        }
    } else if !(is_ascii_char(s[0]) && is_ascii_char(s[1])) {
        Err(IntErrorKind::InvalidDigit)
    } else if s[0] == '0' && s[1] == 'x' {
        parse_u32(s.skip(2), 16)
    } else if s[0] == '0' && s[1] == 'b' {
        parse_u32(s.skip(2), 2)
    } else if s[0] == '0' && s[1] == 'o' {
        parse_u32(s.skip(2), 8)
    } else {
        parse_u32(s, 10)
    }
}

/// Reads a number with an optional radix prefix.
pub fn int_from_any_exec(sint: &Vec<char>) -> (r: Option<i32>)
    ensures
        r == int_from_any(sint@),
{
    let n = sint.len();
    let parsed = if n < 2 {
        if n == 1 && (sint[0] as u32) >= 128 {
            Err(IntErrorKind::InvalidDigit)
        } else {
            parse_int_exec(sint, 10, false, 0, 0xffff_ffff)
        }
    } else if !((sint[0] as u32) < 128 && (sint[1] as u32) < 128) {
        Err(IntErrorKind::InvalidDigit)
    } else if sint[0] == '0' && (sint[1] == 'x' || sint[1] == 'b' || sint[1] == 'o') {
        let strint = slice_chars(sint, 2, n);
        assert(strint@ =~= sint@.skip(2));
        let radix: u32 = if sint[1] == 'x' {
            16
        } else if sint[1] == 'b' {
            2
        } else {
            8
        };
        parse_int_exec(&strint, radix, false, 0, 0xffff_ffff)
    } else {
        parse_int_exec(sint, 10, false, 0, 0xffff_ffff)
    };
    assert(parsed == (match radix_parse(sint@) {
        Ok(v) => Ok::<i64, IntErrorKind>(v as i64),
        Err(e) => Err(e),
    }));
    match parsed {
        Ok(v) => {
            let w: u32 = v as u32;
            assert(w == v);
            Some(w as i32)
        },
        Err(_) => None,
    }
}


// ---------------------------------------------------------------------------
// Numbers written in decimal read back as themselves.

proof fn lemma_digit_char(d: int)
    requires
        0 <= d < 10,
    ensures
        digit_value(digit_char(d), 10) == Some(d),
        is_ascii_char(digit_char(d)),
        digit_char(d) != '+' && digit_char(d) != '-',
        digit_char(d) != ' ' && digit_char(d) != '"',
        d != 0 ==> digit_char(d) != '0',
{
    assert((48 + d) as char as u32 == 48 + d);
}

proof fn lemma_digits_first(m: nat)
    ensures
        digits_of(m).len() >= 1,
        exists|d: int| 0 <= d < 10 && (m >= 1 ==> d >= 1) && digits_of(m)[0] == #[trigger] digit_char(d),
    decreases m,
{
    if m < 10 {
        assert(digits_of(m)[0] == digit_char(m as int));
    } else {
        lemma_digits_first(m / 10);
        let d = choose|d: int| 0 <= d < 10 && (m / 10 >= 1 ==> d >= 1) && digits_of(m / 10)[0] == #[trigger] digit_char(d);
        assert(digits_of(m)[0] == digits_of(m / 10)[0]);
        assert(digits_of(m)[0] == digit_char(d));
    }
}

/// Reading one more character at the end.
proof fn lemma_accumulate_push(
    s: Seq<char>,
    c: char,
    radix: u32,
    i: int,
    acc: int,
    neg: bool,
    lo: int,
    hi: int,
)
    requires
        0 <= i <= s.len(),
    ensures
        accumulate(s.push(c), radix, i, acc, neg, lo, hi) == match accumulate(s, radix, i, acc, neg, lo, hi) {
            Err(e) => Err(e),
            Ok(v) => accumulate(seq![c], radix, 0, v, neg, lo, hi),
        },
    decreases s.len() - i,
{
    if i < s.len() {
        assert(s.push(c)[i] == s[i]);
        match digit_value(s[i], radix) {
            None => {},
            Some(d) => {
                let next = if neg {
                    acc * radix - d
                } else {
                    acc * radix + d
                };
                if !(next < lo || next > hi) {
                    lemma_accumulate_push(s, c, radix, i + 1, next, neg, lo, hi);
                }
            },
        }
    } else {
        assert(s.push(c)[i] == c);
        assert(seq![c][0] == c);
        match digit_value(c, radix) {
            None => {},
            Some(d) => {
                let next = if neg {
                    acc * radix - d
                } else {
                    acc * radix + d
                };
                if !(next < lo || next > hi) {
                    assert(accumulate(s.push(c), radix, i + 1, next, neg, lo, hi) == Ok::<int, IntErrorKind>(next));
                    assert(accumulate(seq![c], radix, 1, next, neg, lo, hi) == Ok::<int, IntErrorKind>(next));
                }
            },
        }
    }
}

/// The digits of `m` after `pre` read back as `m` (negated when `neg`)
/// where that is within `lo..=hi`.
proof fn lemma_accumulate_digits(pre: Seq<char>, m: nat, neg: bool, lo: int, hi: int)
    requires
        lo <= 0 <= hi,
        !neg ==> m <= hi,
        neg ==> -m >= lo,
    ensures
        accumulate(pre + digits_of(m), 10, pre.len() as int, 0, neg, lo, hi) == Ok::<int, IntErrorKind>(
            if neg {
                -m
            } else {
                m as int
            },
        ),
    decreases m,
{
    let v: int = if neg {
        -m
    } else {
        m as int
    };
    if m < 10 {
        lemma_digit_char(m as int);
        let s = pre + digits_of(m);
        assert(s[pre.len() as int] == digit_char(m as int));
        assert(accumulate(s, 10, (pre.len() + 1) as int, v, neg, lo, hi) == Ok::<int, IntErrorKind>(v));
    } else {
        let q = m / 10;
        let d = (m % 10) as int;
        lemma_accumulate_digits(pre, q, neg, lo, hi);
        lemma_digit_char(d);
        let s = pre + digits_of(q);
        assert(pre + digits_of(m) =~= s.push(digit_char(d)));
        lemma_accumulate_push(s, digit_char(d), 10, pre.len() as int, 0, neg, lo, hi);
        let w: int = if neg {
            -q
        } else {
            q as int
        };
        assert(seq![digit_char(d)][0] == digit_char(d));
        assert(w * 10 + d == v || w * 10 - d == v);
        assert(accumulate(seq![digit_char(d)], 10, 1, v, neg, lo, hi) == Ok::<int, IntErrorKind>(v));
    }
}

/// A number written in decimal parses back as itself: as an `i32` for
/// every `i32`, and as a `u32` for every `u32`.
pub proof fn lemma_decimal_parses(k: int)
    ensures
        i32::MIN <= k <= i32::MAX ==> parse_i32(decimal(k), 10) == Ok::<int, IntErrorKind>(k),
        0 <= k <= u32::MAX ==> parse_u32(decimal(k), 10) == Ok::<int, IntErrorKind>(k),
{
    if k >= 0 {
        lemma_digits_first(k as nat);
        let d = choose|d: int| 0 <= d < 10 && (k >= 1 ==> d >= 1) && digits_of(k as nat)[0] == #[trigger] digit_char(d);
        lemma_digit_char(d);
        assert(seq![] + digits_of(k as nat) =~= digits_of(k as nat));
        if k <= i32::MAX {
            lemma_accumulate_digits(seq![], k as nat, false, i32::MIN as int, i32::MAX as int);
        }
        if k <= u32::MAX {
            lemma_accumulate_digits(seq![], k as nat, false, 0, u32::MAX as int);
        }
    } else if k >= i32::MIN {
        lemma_digits_first((-k) as nat);
        assert(decimal(k) == seq!['-'] + digits_of((-k) as nat));
        assert(decimal(k)[0] == '-');
        lemma_accumulate_digits(seq!['-'], (-k) as nat, true, i32::MIN as int, i32::MAX as int);
    }
}

/// A non-negative `i32` written in decimal reads back through the radix
/// prefixes as itself.
pub proof fn lemma_decimal_int_from_any(k: i32)
    requires
        k >= 0,
    ensures
        int_from_any(decimal(k as int)) == Some(k),
{
    lemma_decimal_parses(k as int);
    lemma_digits_first(k as nat);
    let d = choose|d: int| 0 <= d < 10 && (k >= 1 ==> d >= 1) && digits_of(k as nat)[0] == #[trigger] digit_char(d);
    lemma_digit_char(d);
    let s = decimal(k as int);
    if s.len() >= 2 {
        assert(k >= 10) by {
            if k < 10 {
                assert(s.len() == 1);
            }
        }
        lemma_digits_first((k / 10) as nat);
        let d2 = choose|d: int| 0 <= d < 10 && (k / 10 >= 1 ==> d >= 1) && digits_of((k / 10) as nat)[0] == #[trigger] digit_char(d);
        lemma_digit_char(d2);
        let t = digits_of((k / 10) as nat);
        assert(s == t.push(digit_char((k % 10) as int)));
        assert(s[0] == t[0]);
        assert(s[1] == t[1] || t.len() == 1);
        if t.len() == 1 {
            assert(s[1] == digit_char((k % 10) as int));
            lemma_digit_char((k % 10) as int);
        } else {
            lemma_digits_first((k / 100) as nat);
            assert(t == digits_of((k / 10 / 10) as nat).push(digit_char((k / 10 % 10) as int)));
            lemma_digit_char((k / 10 % 10) as int);
            assert(forall|j: int| 0 <= j < t.len() ==> is_ascii_char(#[trigger] t[j])) by {
                lemma_digits_ascii((k / 10) as nat);
            }
        }
    }
    assert((k as int) as u32 as i32 == k);
}

proof fn lemma_digits_ascii(m: nat)
    ensures
        forall|j: int| 0 <= j < digits_of(m).len() ==> is_ascii_char(#[trigger] digits_of(m)[j]),
    decreases m,
{
    if m < 10 {
        lemma_digit_char(m as int);
    } else {
        lemma_digits_ascii(m / 10);
        lemma_digit_char((m % 10) as int);
        let t = digits_of(m / 10);
        assert forall|j: int| 0 <= j < digits_of(m).len() implies is_ascii_char(#[trigger] digits_of(m)[j]) by {
            if j < t.len() {
                assert(digits_of(m)[j] == t[j]);
            } else {
                assert(digits_of(m)[j] == digit_char((m % 10) as int));
            }
        }
    }
}


/// A word that a line can hold as one token: no space and no quote in it.
pub open spec fn plain_word(w: Seq<char>) -> bool {
    forall|k: int| 0 <= k < w.len() ==> #[trigger] w[k] != ' ' && w[k] != '"'
}

/// A number written in decimal is a non-empty plain word.
pub proof fn lemma_decimal_plain(k: int)
    ensures
        plain_word(decimal(k)),
        decimal(k).len() > 0,
{
    let m: nat = if k < 0 {
        (-k) as nat
    } else {
        k as nat
    };
    lemma_digits_plain(m);
    lemma_digits_first(m);
    if k < 0 {
        let d = decimal(k);
        assert forall|j: int| 0 <= j < d.len() implies #[trigger] d[j] != ' ' && d[j] != '"' by {
            if j > 0 {
                assert(d[j] == digits_of(m)[j - 1]);
            }
        }
    }
}

proof fn lemma_digits_plain(m: nat)
    ensures
        plain_word(digits_of(m)),
    decreases m,
{
    if m < 10 {
        lemma_digit_char(m as int);
    } else {
        lemma_digits_plain(m / 10);
        lemma_digit_char((m % 10) as int);
        let t = digits_of(m / 10);
        assert forall|j: int| 0 <= j < digits_of(m).len() implies #[trigger] digits_of(m)[j] != ' '
            && digits_of(m)[j] != '"' by {
            if j < t.len() {
                assert(digits_of(m)[j] == t[j]);
            }
        }
    }
}

/// A run of characters without spaces or quotes adds to the current token.
proof fn lemma_tokens_run(s: Seq<char>, i: int, j: int, token: Seq<char>, acc: Seq<Seq<char>>)
    requires
        0 <= i <= j <= s.len(),
        forall|k: int| i <= k < j ==> #[trigger] s[k] != ' ' && s[k] != '"',
    ensures
        tokens_from(s, i, false, token, acc) == tokens_from(s, j, false, token + s.subrange(i, j), acc),
    decreases j - i,
{
    if i < j {
        lemma_tokens_run(s, i + 1, j, token.push(s[i]), acc);
        assert(token.push(s[i]) + s.subrange(i + 1, j) =~= token + s.subrange(i, j));
    } else {
        assert(token + s.subrange(i, i) =~= token);
    }
}

/// A plain word at `i` followed by a space is one token.
proof fn lemma_tokens_word(s: Seq<char>, i: int, w: Seq<char>, acc: Seq<Seq<char>>)
    requires
        0 <= i,
        i + w.len() < s.len(),
        s.subrange(i, i + w.len()) == w,
        plain_word(w),
        s[i + w.len()] == ' ',
    ensures
        tokens_from(s, i, false, seq![], acc) == tokens_from(s, i + w.len() + 1, false, seq![], acc.push(w)),
{
    assert forall|k: int| i <= k < i + w.len() implies #[trigger] s[k] != ' ' && s[k] != '"' by {
        assert(s[k] == w[k - i]);
    }
    lemma_tokens_run(s, i, i + w.len(), seq![], acc);
    assert(Seq::<char>::empty() + s.subrange(i, i + w.len()) =~= w);
}

/// A non-empty plain word that ends the line is its last token.
proof fn lemma_tokens_last_word(s: Seq<char>, i: int, w: Seq<char>, acc: Seq<Seq<char>>)
    requires
        0 <= i,
        i + w.len() == s.len(),
        s.subrange(i, i + w.len()) == w,
        plain_word(w),
        w.len() > 0,
    ensures
        tokens_from(s, i, false, seq![], acc) == acc.push(w),
{
    assert forall|k: int| i <= k < i + w.len() implies #[trigger] s[k] != ' ' && s[k] != '"' by {
        assert(s[k] == w[k - i]);
    }
    lemma_tokens_run(s, i, i + w.len(), seq![], acc);
    assert(Seq::<char>::empty() + s.subrange(i, i + w.len()) =~= w);
}

/// Three plain words joined by single spaces are three tokens.
pub proof fn lemma_tokens_three(a: Seq<char>, b: Seq<char>, c: Seq<char>)
    requires
        plain_word(a),
        plain_word(b),
        plain_word(c),
        c.len() > 0,
    ensures
        tokens(a + " "@ + b + " "@ + c) == seq![a, b, c],
{
    reveal_strlit(" ");
    let s = a + " "@ + b + " "@ + c;
    let e: Seq<Seq<char>> = seq![];
    assert(s.subrange(0, a.len() as int) =~= a);
    lemma_tokens_word(s, 0, a, e);
    let i1: int = a.len() as int + 1;
    assert(s.subrange(i1, i1 + b.len()) =~= b);
    lemma_tokens_word(s, i1, b, e.push(a));
    let i2: int = i1 + b.len() + 1;
    assert(s.subrange(i2, i2 + c.len()) =~= c);
    lemma_tokens_last_word(s, i2, c, e.push(a).push(b));
    assert(e.push(a).push(b).push(c) =~= seq![a, b, c]);
}

/// Four plain words joined by single spaces are four tokens.
pub proof fn lemma_tokens_four(a: Seq<char>, b: Seq<char>, c: Seq<char>, d: Seq<char>)
    requires
        plain_word(a),
        plain_word(b),
        plain_word(c),
        plain_word(d),
        d.len() > 0,
    ensures
        tokens(a + " "@ + b + " "@ + c + " "@ + d) == seq![a, b, c, d],
{
    reveal_strlit(" ");
    let s = a + " "@ + b + " "@ + c + " "@ + d;
    let e: Seq<Seq<char>> = seq![];
    assert(s.subrange(0, a.len() as int) =~= a);
    lemma_tokens_word(s, 0, a, e);
    let i1: int = a.len() as int + 1;
    assert(s.subrange(i1, i1 + b.len()) =~= b);
    lemma_tokens_word(s, i1, b, e.push(a));
    let i2: int = i1 + b.len() + 1;
    assert(s.subrange(i2, i2 + c.len()) =~= c);
    lemma_tokens_word(s, i2, c, e.push(a).push(b));
    let i3: int = i2 + c.len() + 1;
    assert(s.subrange(i3, i3 + d.len()) =~= d);
    lemma_tokens_last_word(s, i3, d, e.push(a).push(b).push(c));
    assert(e.push(a).push(b).push(c).push(d) =~= seq![a, b, c, d]);
}

} // verus!
