//! Text forms of numbers: decimal and hexadecimal formatting, decimal
//! parsing, and UTF-16 encoding.
use vstd::prelude::*;

verus! {

/// The ASCII digit for a value in `0..10`.
pub open spec fn decimal_digit(d: int) -> char {
    (48 + d) as char
}

/// Decimal digits of a natural number, most significant first, no leading zeros.
pub open spec fn nat_decimal(n: nat) -> Seq<char>
    decreases n,
{
    if n < 10 {
        seq![decimal_digit(n as int)]
    } else {
        nat_decimal(n / 10).push(decimal_digit((n % 10) as int))
    }
}

/// Decimal form of an integer, with a leading `-` when it is negative.
pub open spec fn int_decimal(n: int) -> Seq<char> {
    if n < 0 {
        seq!['-'].add(nat_decimal((-n) as nat))
    } else {
        nat_decimal(n as nat)
    }
}

/// Appends one character to a string by `String::push`. Trusted: the
/// contract claims, as the standard library documents, that the string's
/// characters afterwards are those before followed by `c`.
#[verifier::external_body]
pub(crate) fn push_char(s: &mut String, c: char)
    ensures
        final(s)@ == old(s)@.push(c),
{
    s.push(c);
}

/// The ASCII digit character for `d < 10`.
fn digit_char(d: u32) -> (c: char)
    requires
        d < 10,
    ensures
        c == decimal_digit(d as int),
{
    let b: u8 = 48u8 + (d as u8);
    b as char
}

fn push_decimal(out: &mut String, m: u32)
    ensures
        final(out)@ == old(out)@ + nat_decimal(m as nat),
    decreases m,
{
    if m >= 10 {
        push_decimal(out, m / 10);
    }
    push_char(out, digit_char(m % 10));
}

/// The decimal text of an `i32`, as `i32::to_string` writes it.
pub fn i32_to_decimal(n: i32) -> (s: String)
    ensures
        s@ == int_decimal(n as int),
{
    let mut s = String::new();
    if n < 0 {
        push_char(&mut s, '-');
        let m: u32 = (0i64 - (n as i64)) as u32;
        push_decimal(&mut s, m);
        assert(s@ == seq!['-'].add(nat_decimal(m as nat)));
    } else {
        push_decimal(&mut s, n as u32);
        assert(s@ == nat_decimal(n as nat));
    }
    s
}


/// The lowercase hexadecimal digit for a value in `0..16`.
pub open spec fn hex_digit(d: int) -> char {
    if d < 10 {
        (48 + d) as char
    } else {
        (87 + d) as char
    }
}

/// Two lowercase hexadecimal digits of a byte, as `{:02x}` writes them.
pub open spec fn byte_hex(b: u8) -> Seq<char> {
    seq![hex_digit(b as int / 16), hex_digit(b as int % 16)]
}

fn hex_char(d: u8) -> (c: char)
    requires
        d < 16,
    ensures
        c == hex_digit(d as int),
{
    let b: u8 = if d < 10 {
        48u8 + d
    } else {
        87u8 + d
    };
    b as char
}

/// Appends the two hexadecimal digits of `b` to `out`.
pub fn push_hex_byte(out: &mut String, b: u8)
    ensures
        final(out)@ == old(out)@ + byte_hex(b),
{
    push_char(out, hex_char(b / 16));
    push_char(out, hex_char(b % 16));
    assert(final(out)@ =~= old(out)@ + byte_hex(b));
}

/// Whether `c` is an ASCII decimal digit.
pub open spec fn is_decimal_digit(c: char) -> bool {
    '0' <= c && c <= '9'
}

/// Whether every character of `s` is an ASCII decimal digit.
pub open spec fn all_decimal_digits(s: Seq<char>) -> bool {
    forall|i: int| 0 <= i < s.len() ==> is_decimal_digit(#[trigger] s[i])
}

/// The value of a run of decimal digits, most significant first.
pub open spec fn digits_value(s: Seq<char>) -> int
    decreases s.len(),
{
    if s.len() == 0 {
        0
    } else {
        10 * digits_value(s.drop_last()) + (s.last() as int - 48)
    }
}

/// Whether `s` opens with a `+` or `-` sign.
pub open spec fn has_sign(s: Seq<char>) -> bool {
    s.len() > 0 && (s[0] == '-' || s[0] == '+')
}

/// The digits of `s` after an optional sign.
pub open spec fn unsigned_part(s: Seq<char>) -> Seq<char> {
    if has_sign(s) {
        s.drop_first()
    } else {
        s
    }
}

/// What `i32::from_str` gives for `s`: an optional `+` or `-`, then one or
/// more ASCII digits, whose value must fit in an `i32`; `None` for anything else.
pub open spec fn parse_i32_spec(s: Seq<char>) -> Option<i32> {
    let body = unsigned_part(s);
    let v = if s.len() > 0 && s[0] == '-' {
        -digits_value(body)
    } else {
        digits_value(body)
    };
    if body.len() > 0 && all_decimal_digits(body) && i32::MIN <= v <= i32::MAX {
        Some(v as i32)
    } else {
        None
    }
}

proof fn lemma_digits_value_grows(s: Seq<char>, k: int)
    requires
        all_decimal_digits(s),
        0 <= k <= s.len(),
    ensures
        0 <= digits_value(s.take(k)) <= digits_value(s),
    decreases s.len(),
{
    if s.len() > 0 {
        let p = s.drop_last();
        assert(all_decimal_digits(p));
        if k == s.len() {
            assert(s.take(k) =~= s);
            lemma_digits_value_grows(p, p.len() as int);
            assert(p.take(p.len() as int) =~= p);
        } else {
            lemma_digits_value_grows(p, k);
            assert(p.take(k) =~= s.take(k));
            lemma_digits_value_grows(p, p.len() as int);
            assert(p.take(p.len() as int) =~= p);
            assert(is_decimal_digit(s[s.len() - 1]));
        }
    }
}

/// Parses a decimal `i32` as `i32::from_str` does; `None` where it fails.
pub fn parse_i32(s: &str) -> (r: Option<i32>)
    ensures
        r == parse_i32_spec(s@),
{
    let n = s.unicode_len();
    if n == 0 {
        return None;
    }
    let first = s.get_char(0);
    let neg = first == '-';
    let start: usize = if first == '-' || first == '+' {
        1
    } else {
        0
    };
    let ghost body = unsigned_part(s@);
    assert(body =~= s@.subrange(start as int, n as int));
    if start == n {
        return None;
    }
    let mut acc: i64 = 0;
    let mut i: usize = start;
    while i < n
        invariant
            n == s@.len(),
            n > 0,
            body == unsigned_part(s@),
            neg == (s@[0] == '-'),
            start <= i <= n,
            body =~= s@.subrange(start as int, n as int),
            all_decimal_digits(body.take(i - start)),
            acc == digits_value(body.take(i - start)),
            0 <= acc <= 2147483648,
        decreases n - i,
    {
        let c = s.get_char(i);
        if !('0' <= c && c <= '9') {
            assert(body[i - start] == c);
            assert(!is_decimal_digit(body[i - start]));
            return None;
        }
        let d: i64 = (c as u32 - 48) as i64;
        proof {
            let t = body.take(i - start + 1);
            assert(t.drop_last() =~= body.take(i - start));
            assert(t.last() == c);
        }
        acc = acc * 10 + d;
        i = i + 1;
        if acc > 2147483648 {
            proof {
                if all_decimal_digits(body) {
                    lemma_digits_value_grows(body, i - start);
                }
            }
            return None;
        }
    }
    assert(body.take(n - start) =~= body);
    if neg {
        Some((0 - acc) as i32)
    } else if acc <= 2147483647 {
        Some(acc as i32)
    } else {
        None
    }
}

proof fn lemma_nat_decimal_digits(m: nat)
    ensures
        nat_decimal(m).len() > 0,
        all_decimal_digits(nat_decimal(m)),
        digits_value(nat_decimal(m)) == m,
        nat_decimal(m)[0] != '-' && nat_decimal(m)[0] != '+',
    decreases m,
{
    let d = (m % 10) as int;
    assert(decimal_digit(d) as int == 48 + d);
    if m < 10 {
        assert(nat_decimal(m).drop_last() =~= Seq::<char>::empty());
        assert(digits_value(nat_decimal(m).drop_last()) == 0);
        assert(nat_decimal(m).last() == decimal_digit(d));
    }
    if m >= 10 {
        lemma_nat_decimal_digits(m / 10);
        let s = nat_decimal(m);
        let p = nat_decimal(m / 10);
        assert(s.drop_last() =~= p);
        assert forall|i: int| 0 <= i < s.len() implies is_decimal_digit(#[trigger] s[i]) by {
            if i < p.len() {
                assert(s[i] == p[i]);
            }
        }
        assert(s[0] == p[0]);
        assert(s.last() == decimal_digit(d));
        assert(digits_value(s) == 10 * digits_value(p) + d);
        assert(m == 10 * (m / 10) + m % 10);
    }
}

/// Printing an `i32` in decimal and parsing the text gives the number back.
pub proof fn law_decimal_round_trip(n: i32)
    ensures
        parse_i32_spec(int_decimal(n as int)) == Some(n),
{
    if n < 0 {
        let m = (-n) as nat;
        lemma_nat_decimal_digits(m);
        let s = int_decimal(n as int);
        assert(s.drop_first() =~= nat_decimal(m));
        assert(unsigned_part(s) == nat_decimal(m));
    } else {
        lemma_nat_decimal_digits(n as nat);
    }
}

/// The UTF-16 code units of one character.
pub open spec fn utf16_units(c: char) -> Seq<u16> {
    let v = c as int;
    if v < 0x10000 {
        seq![v as u16]
    } else {
        seq![(0xD800 + (v - 0x10000) / 0x400) as u16, (0xDC00 + (v - 0x10000) % 0x400) as u16]
    }
}

/// The UTF-16 encoding of a character sequence.
pub open spec fn utf16_encode(s: Seq<char>) -> Seq<u16>
    decreases s.len(),
{
    if s.len() == 0 {
        seq![]
    } else {
        utf16_encode(s.drop_last()) + utf16_units(s.last())
    }
}

/// The UTF-16 encoding of `value` followed by a terminating zero unit.
pub fn to_wide_null(value: &str) -> (r: Vec<u16>)
    ensures
        r@ == utf16_encode(value@).push(0u16),
{
    let n = value.unicode_len();
    let mut out: Vec<u16> = Vec::new();
    let mut i: usize = 0;
    while i < n
        invariant
            n == value@.len(),
            i <= n,
            out@ == utf16_encode(value@.take(i as int)),
        decreases n - i,
    {
        let c = value.get_char(i);
        let v: u32 = c as u32;
        if v < 0x10000 {
            out.push(v as u16);
        } else {
            let w: u32 = v - 0x10000;
            out.push((0xD800 + w / 0x400) as u16);
            out.push((0xDC00 + w % 0x400) as u16);
        }
        proof {
            let t = value@.take(i + 1);
            assert(t.drop_last() =~= value@.take(i as int));
            assert(t.last() == c);
        }
        i = i + 1;
    }
    assert(value@.take(n as int) =~= value@);
    out.push(0u16);
    out
}

} // verus!
