//! The textual wire format: a small JSON subset, written and read by
//! verified code.
//!
//! Values are encoded exactly as the spec functions here describe
//! (`enc_nat`, `esc`, ...), and the parsers are verified to agree with
//! the spec-level parsers (`dec_digits`, `parse_str_body`, ...).
use vstd::prelude::*;
use vstd::string::*;

verus! {

// ---------------------------------------------------------------------
// character classes
// ---------------------------------------------------------------------

pub open spec fn is_digit(c: char) -> bool {
    48 <= c as u32 && c as u32 <= 57
}

pub open spec fn digit_val(c: char) -> int {
    c as u32 - 48
}

/// The decimal digit character for `d` in `0..10`.
pub open spec fn digit_char(d: int) -> char {
    if d == 0 { '0' }
    else if d == 1 { '1' }
    else if d == 2 { '2' }
    else if d == 3 { '3' }
    else if d == 4 { '4' }
    else if d == 5 { '5' }
    else if d == 6 { '6' }
    else if d == 7 { '7' }
    else if d == 8 { '8' }
    else { '9' }
}

/// The lower-case hexadecimal digit character for `d` in `0..16`.
pub open spec fn hex_char(d: int) -> char {
    if d < 10 { digit_char(d) }
    else if d == 10 { 'a' }
    else if d == 11 { 'b' }
    else if d == 12 { 'c' }
    else if d == 13 { 'd' }
    else if d == 14 { 'e' }
    else { 'f' }
}

/// The value of a hexadecimal digit character; -1 when `c` is no such digit.
pub open spec fn hex_val(c: char) -> int {
    if 48 <= c as u32 && c as u32 <= 57 { c as u32 - 48 }
    else if 97 <= c as u32 && c as u32 <= 102 { c as u32 - 87 }
    else if 65 <= c as u32 && c as u32 <= 70 { c as u32 - 55 }
    else { -1 }
}

pub open spec fn is_hex(c: char) -> bool {
    hex_val(c) >= 0
}

// ---------------------------------------------------------------------
// numbers
// ---------------------------------------------------------------------

/// Decimal encoding of a non-negative integer, most significant digit first.
pub open spec fn enc_nat(n: int) -> Seq<char>
    decreases n when n >= 0
{
    if n < 10 {
        seq![digit_char(n)]
    } else {
        enc_nat(n / 10) + seq![digit_char(n % 10)]
    }
}

/// Decimal encoding of an integer: a minus sign for negative values.
pub open spec fn enc_int(m: int) -> Seq<char> {
    if m < 0 {
        seq!['-'] + enc_nat(-m)
    } else {
        enc_nat(m)
    }
}

/// Reads digits from position `i` on, folding them onto `acc`;
/// returns the value and the position of the first non-digit.
pub open spec fn dec_digits(s: Seq<char>, i: int, acc: int) -> (int, int)
    decreases s.len() - i when 0 <= i <= s.len()
{
    if i < s.len() && is_digit(s[i]) {
        dec_digits(s, i + 1, acc * 10 + digit_val(s[i]))
    } else {
        (acc, i)
    }
}

/// A status code on the wire: digits whose value fits in sixteen bits.
pub open spec fn parse_u16_at(s: Seq<char>, i: int) -> Option<(u16, int)> {
    if 0 <= i && i < s.len() && is_digit(s[i]) {
        let (v, j) = dec_digits(s, i, 0);
        if v <= u16::MAX { Some((v as u16, j)) } else { None }
    } else {
        None
    }
}

/// A millisecond count on the wire: an optional minus sign, then digits,
/// with the value held to the 64-bit signed range.
pub open spec fn parse_i64_at(s: Seq<char>, i: int) -> Option<(i64, int)> {
    if 0 <= i && i < s.len() && s[i] == '-' {
        if i + 1 < s.len() && is_digit(s[i + 1]) {
            let (v, j) = dec_digits(s, i + 1, 0);
            if v <= 0x8000_0000_0000_0000 { Some(((-v) as i64, j)) } else { None }
        } else {
            None
        }
    } else if 0 <= i && i < s.len() && is_digit(s[i]) {
        let (v, j) = dec_digits(s, i, 0);
        if v <= i64::MAX { Some((v as i64, j)) } else { None }
    } else {
        None
    }
}

// ---------------------------------------------------------------------
// literal text
// ---------------------------------------------------------------------

/// Matches the fixed text `lit` at position `i`.
pub open spec fn parse_lit(s: Seq<char>, i: int, lit: Seq<char>) -> Option<int> {
    if 0 <= i && i + lit.len() <= s.len() && s.subrange(i, i + lit.len() as int) == lit {
        Some(i + lit.len() as int)
    } else {
        None
    }
}

pub open spec fn bool_wire(b: bool) -> Seq<char> {
    if b { "true"@ } else { "false"@ }
}

pub open spec fn parse_bool_at(s: Seq<char>, i: int) -> Option<(bool, int)> {
    if parse_lit(s, i, "true"@) is Some {
        Some((true, parse_lit(s, i, "true"@)->Some_0))
    } else if parse_lit(s, i, "false"@) is Some {
        Some((false, parse_lit(s, i, "false"@)->Some_0))
    } else {
        None
    }
}

// ---------------------------------------------------------------------
// strings
// ---------------------------------------------------------------------

/// The escape sequence a character is written as inside a quoted string:
/// quote, backslash and the common control characters get the two-character
/// escapes; other control characters get the `\u00..` form; everything else
/// stands for itself.
pub open spec fn esc_char(c: char) -> Seq<char> {
    if c == '"' { seq!['\\', '"'] }
    else if c == '\\' { seq!['\\', '\\'] }
    else if c == '\n' { seq!['\\', 'n'] }
    else if c == '\r' { seq!['\\', 'r'] }
    else if c == '\t' { seq!['\\', 't'] }
    else if (c as u32) < 32 {
        seq!['\\', 'u', '0', '0', hex_char((c as u32) as int / 16), hex_char((c as u32) as int % 16)]
    }
    else { seq![c] }
}

/// The escaped body of a quoted string.
pub open spec fn esc(s: Seq<char>) -> Seq<char>
    decreases s.len()
{
    if s.len() == 0 {
        Seq::empty()
    } else {
        esc_char(s[0]) + esc(s.drop_first())
    }
}

/// A whole quoted string on the wire.
pub open spec fn str_wire(v: Seq<char>) -> Seq<char> {
    seq!['"'] + esc(v) + seq!['"']
}

/// The character a simple (one-letter) escape stands for.
pub open spec fn unesc_char(e: char) -> Option<char> {
    if e == '"' { Some('"') }
    else if e == '\\' { Some('\\') }
    else if e == '/' { Some('/') }
    else if e == 'n' { Some('\n') }
    else if e == 'r' { Some('\r') }
    else if e == 't' { Some('\t') }
    else if e == 'b' { Some(8u8 as char) }
    else if e == 'f' { Some(12u8 as char) }
    else { None }
}

/// Reads the body of a quoted string from `i` up to and over the closing
/// quote; undoes the escapes; rejects unescaped control characters.
pub open spec fn parse_str_body(s: Seq<char>, i: int) -> Option<(Seq<char>, int)>
    decreases s.len() - i when 0 <= i <= s.len()
{
    if i >= s.len() {
        None
    } else if s[i] == '"' {
        Some((Seq::empty(), i + 1))
    } else if s[i] == '\\' {
        if i + 1 < s.len() && s[i + 1] == 'u' {
            if i + 6 <= s.len() && s[i + 2] == '0' && s[i + 3] == '0' && is_hex(s[i + 4])
                && is_hex(s[i + 5]) {
                let c = ((hex_val(s[i + 4]) * 16 + hex_val(s[i + 5])) as u8) as char;
                match parse_str_body(s, i + 6) {
                    Some((w, j)) => Some((seq![c] + w, j)),
                    None => None,
                }
            } else {
                None
            }
        } else if i + 1 < s.len() && unesc_char(s[i + 1]) is Some {
            match parse_str_body(s, i + 2) {
                Some((w, j)) => Some((seq![unesc_char(s[i + 1])->Some_0] + w, j)),
                None => None,
            }
        } else {
            None
        }
    } else if (s[i] as u32) < 32 {
        None
    } else {
        match parse_str_body(s, i + 1) {
            Some((w, j)) => Some((seq![s[i]] + w, j)),
            None => None,
        }
    }
}

/// A quoted string at position `i`: an opening quote, then the body.
pub open spec fn parse_string_at(s: Seq<char>, i: int) -> Option<(Seq<char>, int)> {
    if 0 <= i && i < s.len() && s[i] == '"' {
        parse_str_body(s, i + 1)
    } else {
        None
    }
}

// ---------------------------------------------------------------------
// executable writers
// ---------------------------------------------------------------------

/// Relies on String::push: appends exactly the one character.
#[verifier::external_body]
pub(crate) fn push_char(s: &mut String, c: char)
    ensures
        final(s)@ == old(s)@.push(c),
{
    s.push(c);
}

fn digit_char_of(d: u64) -> (c: char)
    requires
        d < 10,
    ensures
        c == digit_char(d as int),
{
    match d {
        0 => '0',
        1 => '1',
        2 => '2',
        3 => '3',
        4 => '4',
        5 => '5',
        6 => '6',
        7 => '7',
        8 => '8',
        _ => '9',
    }
}

fn hex_char_of(d: u32) -> (c: char)
    requires
        d < 16,
    ensures
        c == hex_char(d as int),
{
    match d {
        0 => '0',
        1 => '1',
        2 => '2',
        3 => '3',
        4 => '4',
        5 => '5',
        6 => '6',
        7 => '7',
        8 => '8',
        9 => '9',
        10 => 'a',
        11 => 'b',
        12 => 'c',
        13 => 'd',
        14 => 'e',
        _ => 'f',
    }
}

/// The decimal digits of `n`, as `enc_nat` describes them.
pub fn u64_string(n: u64) -> (r: String)
    ensures
        r@ == enc_nat(n as int),
    decreases n,
{
    if n < 10 {
        let mut r = String::new();
        push_char(&mut r, digit_char_of(n));
        assert(r@ =~= enc_nat(n as int));
        r
    } else {
        let mut r = u64_string(n / 10);
        push_char(&mut r, digit_char_of(n % 10));
        assert(r@ =~= enc_nat(n as int));
        r
    }
}

/// The decimal digits of `m`, with a minus sign when it is negative.
pub fn i64_string(m: i64) -> (r: String)
    ensures
        r@ == enc_int(m as int),
{
    if m < 0 {
        let mag: u64 = if m == i64::MIN {
            0x8000_0000_0000_0000u64
        } else {
            (-m) as u64
        };
        assert(mag as int == -(m as int));
        let mut r = String::new();
        push_char(&mut r, '-');
        let digits = u64_string(mag);
        r.append(digits.as_str());
        assert(r@ =~= enc_int(m as int));
        r
    } else {
        u64_string(m as u64)
    }
}

fn push_esc_char(out: &mut String, c: char)
    ensures
        final(out)@ == old(out)@ + esc_char(c),
{
    let u = c as u32;
    if c == '"' {
        push_char(out, '\\');
        push_char(out, '"');
        assert(out@ =~= old(out)@ + esc_char(c));
    } else if c == '\\' {
        push_char(out, '\\');
        push_char(out, '\\');
        assert(out@ =~= old(out)@ + esc_char(c));
    } else if c == '\n' {
        push_char(out, '\\');
        push_char(out, 'n');
        assert(out@ =~= old(out)@ + esc_char(c));
    } else if c == '\r' {
        push_char(out, '\\');
        push_char(out, 'r');
        assert(out@ =~= old(out)@ + esc_char(c));
    } else if c == '\t' {
        push_char(out, '\\');
        push_char(out, 't');
        assert(out@ =~= old(out)@ + esc_char(c));
    } else if u < 32 {
        push_char(out, '\\');
        push_char(out, 'u');
        push_char(out, '0');
        push_char(out, '0');
        push_char(out, hex_char_of(u / 16));
        push_char(out, hex_char_of(u % 16));
        assert(out@ =~= old(out)@ + esc_char(c));
    } else {
        push_char(out, c);
        assert(out@ =~= old(out)@ + esc_char(c));
    }
}

/// `esc` distributes over concatenation.
proof fn lemma_esc_append(a: Seq<char>, b: Seq<char>)
    ensures
        esc(a + b) == esc(a) + esc(b),
    decreases a.len(),
{
    if a.len() == 0 {
        assert(a + b =~= b);
        assert(esc(a) + esc(b) =~= esc(b));
    } else {
        lemma_esc_append(a.drop_first(), b);
        assert((a + b).drop_first() =~= a.drop_first() + b);
        assert(esc(a + b) =~= esc(a) + esc(b));
    }
}

proof fn lemma_esc_snoc(v: Seq<char>, k: int)
    requires
        0 <= k < v.len(),
    ensures
        esc(v.take(k + 1)) == esc(v.take(k)) + esc_char(v[k]),
{
    lemma_esc_append(v.take(k), seq![v[k]]);
    assert(v.take(k + 1) =~= v.take(k) + seq![v[k]]);
    assert(seq![v[k]].drop_first() =~= Seq::<char>::empty());
    assert(esc(Seq::<char>::empty()) == Seq::<char>::empty());
    assert(esc(seq![v[k]]) =~= esc_char(v[k]));
}

/// The quoted, escaped form of `v`, as `str_wire` describes it.
pub fn str_string(v: &str) -> (r: String)
    ensures
        r@ == str_wire(v@),
{
    let n = v.unicode_len();
    let mut out = String::new();
    push_char(&mut out, '"');
    assert(out@ =~= seq!['"'] + esc(v@.take(0)));
    let mut k: usize = 0;
    while k < n
        invariant
            n == v@.len(),
            k <= n,
            out@ == seq!['"'] + esc(v@.take(k as int)),
        decreases n - k,
    {
        let c = v.get_char(k);
        push_esc_char(&mut out, c);
        proof {
            lemma_esc_snoc(v@, k as int);
        }
        k += 1;
    }
    assert(v@.take(n as int) =~= v@);
    push_char(&mut out, '"');
    assert(out@ =~= str_wire(v@));
    out
}

// ---------------------------------------------------------------------
// bound lemmas for the spec parsers
// ---------------------------------------------------------------------

pub proof fn lemma_dec_digits_bounds(s: Seq<char>, i: int, acc: int)
    requires
        0 <= i <= s.len(),
    ensures
        i <= dec_digits(s, i, acc).1 <= s.len(),
    decreases s.len() - i,
{
    if i < s.len() && is_digit(s[i]) {
        lemma_dec_digits_bounds(s, i + 1, acc * 10 + digit_val(s[i]));
    }
}

pub proof fn lemma_dec_digits_ge(s: Seq<char>, i: int, acc: int)
    requires
        0 <= i <= s.len(),
        acc >= 0,
    ensures
        dec_digits(s, i, acc).0 >= acc,
    decreases s.len() - i,
{
    if i < s.len() && is_digit(s[i]) {
        lemma_dec_digits_ge(s, i + 1, acc * 10 + digit_val(s[i]));
    }
}

pub proof fn lemma_parse_str_body_bounds(s: Seq<char>, i: int)
    requires
        0 <= i <= s.len(),
    ensures
        parse_str_body(s, i) matches Some(r) ==> i < r.1 <= s.len(),
    decreases s.len() - i,
{
    if i < s.len() {
        if s[i] == '"' {
        } else if s[i] == '\\' {
            if i + 1 < s.len() && s[i + 1] == 'u' {
                if i + 6 <= s.len() {
                    lemma_parse_str_body_bounds(s, i + 6);
                }
            } else if i + 1 < s.len() {
                lemma_parse_str_body_bounds(s, i + 2);
            }
        } else {
            lemma_parse_str_body_bounds(s, i + 1);
        }
    }
}

// ---------------------------------------------------------------------
// executable parsers
// ---------------------------------------------------------------------

fn is_digit_of(c: char) -> (b: bool)
    ensures
        b == is_digit(c),
{
    let u = c as u32;
    48 <= u && u <= 57
}

/// Reads a run of digits whose value stays within `bound`.
fn parse_u64_digits(s: &str, n: usize, i0: usize, bound: u64) -> (r: Option<(u64, usize)>)
    requires
        n == s@.len(),
        i0 <= n,
        bound >= 9,
    ensures
        match r {
            Some((v, j)) => dec_digits(s@, i0 as int, 0) == (v as int, j as int) && v <= bound
                && i0 < j <= n,
            None => !(i0 < n && is_digit(s@[i0 as int])) || dec_digits(s@, i0 as int, 0).0
                > bound,
        },
{
    if !(i0 < n) {
        return None;
    }
    let c0 = s.get_char(i0);
    if !is_digit_of(c0) {
        return None;
    }
    let mut acc: u64 = (c0 as u32 - 48) as u64;
    let mut i: usize = i0 + 1;
    loop
        invariant
            n == s@.len(),
            bound >= 9,
            i0 < i <= n,
            acc <= bound,
            dec_digits(s@, i0 as int, 0) == dec_digits(s@, i as int, acc as int),
        decreases n - i,
    {
        if !(i < n) {
            assert(dec_digits(s@, i as int, acc as int) == (acc as int, i as int));
            return Some((acc, i));
        }
        let c = s.get_char(i);
        if !is_digit_of(c) {
            assert(dec_digits(s@, i as int, acc as int) == (acc as int, i as int));
            return Some((acc, i));
        }
        let d: u64 = (c as u32 - 48) as u64;
        assert(is_digit(s@[i as int]) && d == digit_val(s@[i as int]));
        assert(d <= 9);
        if acc > (bound - d) / 10 {
            proof {
                vstd::arithmetic::div_mod::lemma_fundamental_div_mod((bound - d) as int, 10);
                assert(acc * 10 >= ((bound - d) / 10 + 1) * 10) by (nonlinear_arith)
                    requires
                        acc >= (bound - d) / 10 + 1,
                ;
                assert(acc * 10 + d > bound);
                lemma_dec_digits_ge(s@, i as int + 1, acc as int * 10 + digit_val(s@[i as int]));
                assert(dec_digits(s@, i as int, acc as int) == dec_digits(
                    s@,
                    i as int + 1,
                    acc as int * 10 + digit_val(s@[i as int]),
                ));
            }
            return None;
        }
        proof {
            vstd::arithmetic::div_mod::lemma_fundamental_div_mod((bound - d) as int, 10);
            assert(acc * 10 <= ((bound - d) / 10) * 10) by (nonlinear_arith)
                requires
                    acc <= (bound - d) / 10,
            ;
            assert(acc * 10 + d <= bound);
        }
        acc = acc * 10 + d;
        i += 1;
    }
}

/// A status code from the wire; fails on anything past sixteen bits.
pub fn parse_u16(s: &str, n: usize, i: usize) -> (r: Option<(u16, usize)>)
    requires
        n == s@.len(),
        i <= n,
    ensures
        match r {
            Some((v, j)) => parse_u16_at(s@, i as int) == Some((v, j as int)) && i < j <= n,
            None => parse_u16_at(s@, i as int) is None,
        },
{
    match parse_u64_digits(s, n, i, 65535) {
        Some((v, j)) => Some((v as u16, j)),
        None => None,
    }
}

/// A millisecond count from the wire; fails outside the 64-bit signed range.
pub fn parse_i64(s: &str, n: usize, i: usize) -> (r: Option<(i64, usize)>)
    requires
        n == s@.len(),
        i <= n,
    ensures
        match r {
            Some((v, j)) => parse_i64_at(s@, i as int) == Some((v, j as int)) && i < j <= n,
            None => parse_i64_at(s@, i as int) is None,
        },
{
    if i < n && s.get_char(i) == '-' {
        match parse_u64_digits(s, n, i + 1, 0x8000_0000_0000_0000u64) {
            Some((v, j)) => {
                let m: i64 = if v == 0x8000_0000_0000_0000u64 {
                    i64::MIN
                } else {
                    -(v as i64)
                };
                Some((m, j))
            },
            None => None,
        }
    } else {
        match parse_u64_digits(s, n, i, 0x7fff_ffff_ffff_ffffu64) {
            Some((v, j)) => Some((v as i64, j)),
            None => None,
        }
    }
}

/// Matches the fixed text `lit` at position `i`.
pub fn expect_lit(s: &str, n: usize, i: usize, lit: &str) -> (r: Option<usize>)
    requires
        n == s@.len(),
        i <= n,
    ensures
        match r {
            Some(j) => parse_lit(s@, i as int, lit@) == Some(j as int) && i <= j <= n,
            None => parse_lit(s@, i as int, lit@) is None,
        },
{
    let m = lit.unicode_len();
    if n - i < m {
        return None;
    }
    let mut k: usize = 0;
    while k < m
        invariant
            n == s@.len(),
            m == lit@.len(),
            i + m <= n,
            k <= m,
            forall|t: int| 0 <= t < k ==> s@[i + t] == lit@[t],
        decreases m - k,
    {
        if s.get_char(i + k) != lit.get_char(k) {
            assert(s@.subrange(i as int, i + m) != lit@) by {
                assert(s@.subrange(i as int, i + m)[k as int] != lit@[k as int]);
            }
            return None;
        }
        k += 1;
    }
    assert(s@.subrange(i as int, i + m) =~= lit@);
    Some(i + m)
}

/// `true` or `false` at position `i`.
pub fn parse_bool(s: &str, n: usize, i: usize) -> (r: Option<(bool, usize)>)
    requires
        n == s@.len(),
        i <= n,
    ensures
        match r {
            Some((v, j)) => parse_bool_at(s@, i as int) == Some((v, j as int)) && i < j <= n,
            None => parse_bool_at(s@, i as int) is None,
        },
{
    proof {
        reveal_strlit("true");
        reveal_strlit("false");
    }
    match expect_lit(s, n, i, "true") {
        Some(j) => Some((true, j)),
        None => match expect_lit(s, n, i, "false") {
            Some(j) => Some((false, j)),
            None => None,
        },
    }
}

fn hex_val_of(c: char) -> (r: Option<u32>)
    ensures
        match r {
            Some(v) => is_hex(c) && v as int == hex_val(c) && v < 16,
            None => !is_hex(c),
        },
{
    let u = c as u32;
    if 48 <= u && u <= 57 {
        Some(u - 48)
    } else if 97 <= u && u <= 102 {
        Some(u - 87)
    } else if 65 <= u && u <= 70 {
        Some(u - 55)
    } else {
        None
    }
}

/// A quoted string from the wire, with its escapes undone.
pub fn parse_string(s: &str, n: usize, i: usize) -> (r: Option<(String, usize)>)
    requires
        n == s@.len(),
        i <= n,
    ensures
        match r {
            Some((v, j)) => parse_string_at(s@, i as int) == Some((v@, j as int)) && i < j <= n,
            None => parse_string_at(s@, i as int) is None,
        },
{
    if !(i < n) || s.get_char(i) != '"' {
        return None;
    }
    let mut out = String::new();
    let mut cur: usize = i + 1;
    loop
        invariant
            n == s@.len(),
            i < cur <= n <= usize::MAX,
            s@[i as int] == '"',
            match parse_str_body(s@, cur as int) {
                Some((w, j)) => parse_str_body(s@, i + 1) == Some((out@ + w, j)),
                None => parse_str_body(s@, i + 1) is None,
            },
        decreases n - cur,
    {
        if !(cur < n) {
            return None;
        }
        let c = s.get_char(cur);
        if c == '"' {
            assert(parse_str_body(s@, cur as int) == Some((Seq::<char>::empty(), cur + 1)));
            assert(out@ + Seq::<char>::empty() =~= out@);
            assert(parse_str_body(s@, i + 1) == Some((out@, cur + 1)));
            assert(parse_string_at(s@, i as int) == Some((out@, cur + 1)));
            return Some((out, cur + 1));
        } else if c == '\\' {
            if !(cur + 1 < n) {
                return None;
            }
            let e = s.get_char(cur + 1);
            if e == 'u' {
                if !(n - cur >= 6) {
                    return None;
                }
                if s.get_char(cur + 2) != '0' || s.get_char(cur + 3) != '0' {
                    return None;
                }
                let h1 = match hex_val_of(s.get_char(cur + 4)) {
                    Some(v) => v,
                    None => {
                        return None;
                    },
                };
                let h2 = match hex_val_of(s.get_char(cur + 5)) {
                    Some(v) => v,
                    None => {
                        return None;
                    },
                };
                let c2: char = ((h1 * 16 + h2) as u8) as char;
                let ghost out_pre = out@;
                push_char(&mut out, c2);
                proof {
                    let w0 = parse_str_body(s@, cur + 6);
                    if w0 is Some {
                        let (w, j) = w0->Some_0;
                        assert(parse_str_body(s@, cur as int) == Some((seq![c2] + w, j)));
                        assert(out_pre.push(c2) + w =~= out_pre + (seq![c2] + w));
                    }
                }
                cur += 6;
            } else {
                let dec = match unescape_of(e) {
                    Some(d) => d,
                    None => {
                        return None;
                    },
                };
                let ghost out_pre = out@;
                push_char(&mut out, dec);
                proof {
                    let w0 = parse_str_body(s@, cur + 2);
                    if w0 is Some {
                        let (w, j) = w0->Some_0;
                        assert(parse_str_body(s@, cur as int) == Some((seq![dec] + w, j)));
                        assert(out_pre.push(dec) + w =~= out_pre + (seq![dec] + w));
                    }
                }
                cur += 2;
            }
        } else if (c as u32) < 32 {
            return None;
        } else {
            let ghost out_pre = out@;
            push_char(&mut out, c);
            proof {
                let w0 = parse_str_body(s@, cur + 1);
                if w0 is Some {
                    let (w, j) = w0->Some_0;
                    assert(parse_str_body(s@, cur as int) == Some((seq![c] + w, j)));
                    assert(out_pre.push(c) + w =~= out_pre + (seq![c] + w));
                }
            }
            cur += 1;
        }
    }
}

// ---------------------------------------------------------------------
// round trips: parsing the canonical encoding gives the value back
// ---------------------------------------------------------------------

pub open spec fn pow10(k: nat) -> int
    decreases k,
{
    if k == 0 { 1 } else { 10 * pow10((k - 1) as nat) }
}

pub open spec fn all_digits(d: Seq<char>) -> bool {
    forall|t: int| 0 <= t < d.len() ==> is_digit(d[t])
}

/// The value of a digit string, most significant digit first.
pub open spec fn digits_val(d: Seq<char>) -> int
    decreases d.len(),
{
    if d.len() == 0 { 0 } else { digits_val(d.drop_last()) * 10 + digit_val(d.last()) }
}

proof fn lemma_enc_nat_props(n: int)
    requires
        n >= 0,
    ensures
        enc_nat(n).len() >= 1,
        all_digits(enc_nat(n)),
        digits_val(enc_nat(n)) == n,
    decreases n,
{
    if n < 10 {
        let d = seq![digit_char(n)];
        assert(d.drop_last() =~= Seq::<char>::empty());
        assert(digits_val(Seq::<char>::empty()) == 0);
        assert(d.last() == digit_char(n));
        assert(digits_val(d) == digit_val(digit_char(n)));
        assert(digit_val(digit_char(n)) == n);
        assert(is_digit(digit_char(n)));
    } else {
        lemma_enc_nat_props(n / 10);
        let a = enc_nat(n / 10);
        let e = a + seq![digit_char(n % 10)];
        assert(enc_nat(n) == e);
        assert(e.drop_last() =~= a);
        assert(e.last() == digit_char(n % 10));
        assert(digit_val(digit_char(n % 10)) == n % 10);
        vstd::arithmetic::div_mod::lemma_fundamental_div_mod(n, 10);
        assert(digits_val(e) == (n / 10) * 10 + n % 10);
        assert(is_digit(digit_char(n % 10)));
        assert forall|t: int| 0 <= t < e.len() implies is_digit(e[t]) by {
            if t < a.len() {
                assert(is_digit(a[t]));
            }
        }
    }
}

proof fn lemma_digits_val_cons(d: Seq<char>)
    requires
        d.len() >= 1,
    ensures
        digits_val(d) == digit_val(d[0]) * pow10((d.len() - 1) as nat) + digits_val(
            d.drop_first(),
        ),
    decreases d.len(),
{
    if d.len() == 1 {
        assert(d.drop_last() =~= Seq::<char>::empty());
        assert(d.drop_first() =~= Seq::<char>::empty());
        assert(digits_val(Seq::<char>::empty()) == 0);
        assert(d.last() == d[0]);
        assert(digits_val(d) == digit_val(d[0]));
    } else {
        let a = d.drop_last();
        lemma_digits_val_cons(a);
        assert(a[0] == d[0]);
        assert(a.drop_first() =~= d.drop_first().drop_last());
        let k = (d.len() - 2) as nat;
        assert(pow10((a.len() - 1) as nat) == pow10(k));
        assert(digits_val(a) == digit_val(d[0]) * pow10(k) + digits_val(d.drop_first().drop_last()));
        assert(digits_val(d) == digits_val(a) * 10 + digit_val(d.last()));
        assert(d.drop_first().last() == d.last());
        assert(digits_val(d.drop_first()) == digits_val(d.drop_first().drop_last()) * 10
            + digit_val(d.last()));
        assert(digit_val(d[0]) * pow10(k) * 10 == digit_val(d[0]) * (10 * pow10(k)))
            by (nonlinear_arith);
        assert(pow10((d.len() - 1) as nat) == 10 * pow10(k));
        assert((digit_val(d[0]) * pow10(k) + digits_val(d.drop_first().drop_last())) * 10
            == digit_val(d[0]) * pow10(k) * 10 + digits_val(d.drop_first().drop_last()) * 10)
            by (nonlinear_arith);
    }
}

proof fn lemma_dec_digits_prefix(s: Seq<char>, i: int, acc: int, d: Seq<char>)
    requires
        0 <= i,
        i + d.len() <= s.len(),
        all_digits(d),
        s.subrange(i, i + d.len() as int) == d,
        i + d.len() == s.len() || !is_digit(s[i + d.len()]),
        acc >= 0,
    ensures
        dec_digits(s, i, acc) == (acc * pow10(d.len()) + digits_val(d), i + d.len() as int),
    decreases d.len(),
{
    if d.len() == 0 {
        assert(dec_digits(s, i, acc) == (acc, i));
        assert(acc * pow10(0) + digits_val(d) == acc);
    } else {
        let c = d[0];
        assert(s.subrange(i, i + d.len() as int)[0] == s[i]);
        assert(s[i] == c);
        assert(is_digit(c));
        assert(dec_digits(s, i, acc) == dec_digits(s, i + 1, acc * 10 + digit_val(c)));
        assert forall|k: int| 0 <= k < d.drop_first().len() implies s.subrange(
            i + 1,
            i + 1 + d.drop_first().len() as int,
        )[k] == d.drop_first()[k] by {
            assert(s.subrange(i, i + d.len() as int)[k + 1] == s[i + 1 + k]);
        }
        assert(s.subrange(i + 1, i + 1 + d.drop_first().len() as int) =~= d.drop_first());
        assert(acc * 10 + digit_val(c) >= 0) by (nonlinear_arith)
            requires
                acc >= 0,
                digit_val(c) >= 0,
        ;
        lemma_dec_digits_prefix(s, i + 1, acc * 10 + digit_val(c), d.drop_first());
        lemma_digits_val_cons(d);
        let k = (d.len() - 1) as nat;
        assert((acc * 10 + digit_val(c)) * pow10(k) == acc * (10 * pow10(k)) + digit_val(c)
            * pow10(k)) by (nonlinear_arith);
        assert(pow10(d.len()) == 10 * pow10(k));
        assert(acc * (10 * pow10(k)) == acc * pow10(d.len())) by (nonlinear_arith)
            requires
                pow10(d.len() as nat) == 10 * pow10(k),
        ;
    }
}

/// Parsing the decimal encoding of a sixteen-bit value, with a non-digit
/// (or the end of the text) after it, gives the value back.
pub proof fn lemma_parse_u16_of_enc(v: u16, s: Seq<char>, i: int)
    requires
        0 <= i,
        i + enc_nat(v as int).len() <= s.len(),
        s.subrange(i, i + enc_nat(v as int).len() as int) == enc_nat(v as int),
        i + enc_nat(v as int).len() == s.len() || !is_digit(s[i + enc_nat(v as int).len()]),
    ensures
        parse_u16_at(s, i) == Some((v, i + enc_nat(v as int).len() as int)),
{
    let e = enc_nat(v as int);
    lemma_enc_nat_props(v as int);
    lemma_dec_digits_prefix(s, i, 0, e);
    assert(s.subrange(i, i + e.len() as int)[0] == s[i]);
    assert(is_digit(s[i]));
    assert(0 * pow10(e.len()) + digits_val(e) == v as int);
}

/// The same, for the signed encoding of a millisecond count.
pub proof fn lemma_parse_i64_of_enc(v: i64, s: Seq<char>, i: int)
    requires
        0 <= i,
        i + enc_int(v as int).len() <= s.len(),
        s.subrange(i, i + enc_int(v as int).len() as int) == enc_int(v as int),
        i + enc_int(v as int).len() == s.len() || !is_digit(s[i + enc_int(v as int).len()]),
    ensures
        parse_i64_at(s, i) == Some((v, i + enc_int(v as int).len() as int)),
{
    let e = enc_int(v as int);
    if v >= 0 {
        lemma_enc_nat_props(v as int);
        lemma_dec_digits_prefix(s, i, 0, e);
        assert(s.subrange(i, i + e.len() as int)[0] == s[i]);
        assert(is_digit(s[i]));
        assert(s[i] != '-');
    } else {
        let m = -(v as int);
        let a = enc_nat(m);
        lemma_enc_nat_props(m);
        assert(e == seq!['-'] + a);
        assert(s.subrange(i, i + e.len() as int)[0] == s[i]);
        assert(s[i] == '-');
        assert forall|k: int| 0 <= k < a.len() implies s.subrange(i + 1, i + 1 + a.len() as int)[k]
            == a[k] by {
            assert(s.subrange(i, i + e.len() as int)[k + 1] == s[i + 1 + k]);
        }
        assert(s.subrange(i + 1, i + 1 + a.len() as int) =~= a);
        lemma_dec_digits_prefix(s, i + 1, 0, a);
        assert(s.subrange(i, i + e.len() as int)[1] == s[i + 1]);
        assert(is_digit(s[i + 1]));
        assert(m <= 0x8000_0000_0000_0000);
        assert(parse_i64_at(s, i) == Some(((-m) as i64, i + 1 + a.len() as int)));
    }
}

/// Parsing the encoding of a boolean gives it back.
pub proof fn lemma_parse_bool_of_wire(b: bool, s: Seq<char>, i: int)
    requires
        0 <= i,
        i + bool_wire(b).len() <= s.len(),
        s.subrange(i, i + bool_wire(b).len() as int) == bool_wire(b),
    ensures
        parse_bool_at(s, i) == Some((b, i + bool_wire(b).len() as int)),
{
    reveal_strlit("true");
    reveal_strlit("false");
    if b {
        assert(parse_lit(s, i, "true"@) is Some);
    } else {
        assert(s.subrange(i, i + 5)[0] == s[i]);
        assert(s[i] == 'f');
        if i + 4 <= s.len() && s.subrange(i, i + 4) == "true"@ {
            assert(s.subrange(i, i + 4)[0] == s[i]);
            assert(false);
        }
        assert(parse_lit(s, i, "true"@) is None);
        assert(parse_lit(s, i, "false"@) is Some);
    }
}

/// Parsing an escaped string body followed by the closing quote undoes
/// the escaping exactly.
pub proof fn lemma_parse_str_body_of_esc(v: Seq<char>, s: Seq<char>, i: int)
    requires
        0 <= i,
        i + esc(v).len() + 1 <= s.len(),
        s.subrange(i, i + esc(v).len() as int) == esc(v),
        s[i + esc(v).len() as int] == '"',
    ensures
        parse_str_body(s, i) == Some((v, i + esc(v).len() + 1)),
    decreases v.len(),
{
    if v.len() == 0 {
        assert(esc(v).len() == 0);
        assert(v =~= Seq::<char>::empty());
    } else {
        let c = v[0];
        let e0 = esc_char(c);
        let vr = v.drop_first();
        let rest = esc(vr);
        assert(esc(v) == e0 + rest);
        let l0 = e0.len() as int;
        assert forall|k: int| 0 <= k < l0 implies s[i + k] == e0[k] by {
            assert(s.subrange(i, i + esc(v).len() as int)[k] == s[i + k]);
        }
        assert forall|k: int| 0 <= k < rest.len() implies s.subrange(
            i + l0,
            i + l0 + rest.len() as int,
        )[k] == rest[k] by {
            assert(s[i + l0 + k] == esc(v)[l0 + k]);
        }
        assert(s.subrange(i + l0, i + l0 + rest.len() as int) =~= rest);
        assert(s[i + l0 + rest.len()] == '"');
        lemma_parse_str_body_of_esc(vr, s, i + l0);
        assert(parse_str_body(s, i + l0) == Some((vr, i + l0 + rest.len() + 1)));
        assert(seq![c] + vr =~= v);
        if c == '"' || c == '\\' || c == '\n' || c == '\r' || c == '\t' {
            assert(s[i + 0] == e0[0] && s[i + 1] == e0[1]);
            assert(s[i] == '\\');
            assert(s[i + 1] != 'u');
            assert(unesc_char(s[i + 1]) == Some(c));
            assert(parse_str_body(s, i) == Some((seq![c] + vr, i + 2 + rest.len() + 1)));
        } else if (c as u32) < 32 {
            let u = (c as u32) as int;
            assert(e0 == seq!['\\', 'u', '0', '0', hex_char(u / 16), hex_char(u % 16)]);
            assert(s[i + 0] == e0[0] && s[i + 1] == e0[1] && s[i + 2] == e0[2] && s[i + 3]
                == e0[3] && s[i + 4] == e0[4] && s[i + 5] == e0[5]);
            assert(s[i] == '\\' && s[i + 1] == 'u' && s[i + 2] == '0' && s[i + 3] == '0');
            let h1 = hex_char(u / 16);
            let h2 = hex_char(u % 16);
            assert(s[i + 4] == h1 && s[i + 5] == h2);
            vstd::arithmetic::div_mod::lemma_fundamental_div_mod(u, 16);
            assert(0 <= u / 16 < 16 && 0 <= u % 16 < 16);
            assert(is_hex(h1) && hex_val(h1) == u / 16);
            assert(is_hex(h2) && hex_val(h2) == u % 16);
            assert(hex_val(h1) * 16 + hex_val(h2) == u);
            vstd::utf8::char_u32_cast(c, c as u32);
            assert(((c as u32) as char) == c);
            assert((u as u8) as u32 == c as u32);
            assert(((u as u8) as char) == c);
            assert(parse_str_body(s, i) == Some((seq![c] + vr, i + 6 + rest.len() + 1)));
        } else {
            assert(s[i + 0] == e0[0]);
            assert(s[i] == c);
            assert(s[i] != '"' && s[i] != '\\' && (s[i] as u32) >= 32);
            assert(parse_str_body(s, i) == Some((seq![c] + vr, i + 1 + rest.len() + 1)));
        }
    }
}

/// Parsing the quoted, escaped form of a string gives the string back.
pub proof fn lemma_parse_string_of_wire(v: Seq<char>, s: Seq<char>, i: int)
    requires
        0 <= i,
        i + str_wire(v).len() <= s.len(),
        s.subrange(i, i + str_wire(v).len() as int) == str_wire(v),
    ensures
        parse_string_at(s, i) == Some((v, i + str_wire(v).len() as int)),
{
    let w = str_wire(v);
    assert(w.len() == esc(v).len() + 2);
    assert forall|k: int| 0 <= k < w.len() implies s[i + k] == w[k] by {
        assert(s.subrange(i, i + w.len() as int)[k] == s[i + k]);
    }
    assert(s[i + 0] == w[0]);
    assert(w[0] == '"');
    assert(s[i] == '"');
    assert forall|k: int| 0 <= k < esc(v).len() implies s.subrange(
        i + 1,
        i + 1 + esc(v).len() as int,
    )[k] == esc(v)[k] by {
        assert(w[k + 1] == esc(v)[k]);
    }
    assert(s.subrange(i + 1, i + 1 + esc(v).len() as int) =~= esc(v));
    assert(s[i + 1 + esc(v).len()] == w[esc(v).len() as int + 1]);
    assert(s[i + 1 + esc(v).len()] == '"');
    lemma_parse_str_body_of_esc(v, s, i + 1);
}

/// Splits "the text at `i` is `a` then `b`" into its two parts.
pub proof fn lemma_subrange_split(s: Seq<char>, i: int, a: Seq<char>, b: Seq<char>)
    requires
        0 <= i,
        i + a.len() + b.len() <= s.len(),
        s.subrange(i, i + a.len() + b.len()) == a + b,
    ensures
        s.subrange(i, i + a.len() as int) == a,
        s.subrange(i + a.len() as int, i + a.len() + b.len()) == b,
{
    assert forall|k: int| 0 <= k < a.len() + b.len() implies s[i + k] == (a + b)[k] by {
        assert(s.subrange(i, i + a.len() + b.len())[k] == s[i + k]);
    }
    assert(s.subrange(i, i + a.len() as int) =~= a);
    assert forall|k: int| 0 <= k < b.len() implies s.subrange(
        i + a.len() as int,
        i + a.len() + b.len(),
    )[k] == b[k] by {
        assert(s[i + (a.len() + k)] == (a + b)[a.len() + k]);
        assert(s.subrange(i + a.len() as int, i + a.len() + b.len())[k] == s[i + a.len() as int
            + k]);
    }
    assert(s.subrange(i + a.len() as int, i + a.len() + b.len()) =~= b);
}

fn unescape_of(e: char) -> (r: Option<char>)
    ensures
        r == unesc_char(e),
{
    if e == '"' { Some('"') }
    else if e == '\\' { Some('\\') }
    else if e == '/' { Some('/') }
    else if e == 'n' { Some('\n') }
    else if e == 'r' { Some('\r') }
    else if e == 't' { Some('\t') }
    else if e == 'b' { Some(8u8 as char) }
    else if e == 'f' { Some(12u8 as char) }
    else { None }
}

} // verus!
