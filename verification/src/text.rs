//! Decimal and hexadecimal rendering of integers and bytes.

use vstd::prelude::*;

verus! {

/// The lower-case hexadecimal digit for `d` (`0 <= d < 16`); the decimal
/// digits are the first ten of them.
pub open spec fn hex_char(d: int) -> char {
    seq!['0', '1', '2', '3', '4', '5', '6', '7', '8', '9', 'a', 'b', 'c', 'd', 'e', 'f'][d]
}

/// Decimal digits of a natural number, most significant first, no leading zeros.
pub open spec fn dec_nat(n: nat) -> Seq<char>
    decreases n,
{
    if n < 10 {
        seq![hex_char(n as int)]
    } else {
        dec_nat(n / 10).push(hex_char((n % 10) as int))
    }
}

/// Decimal rendering of an integer, with a leading `-` when it is negative.
pub open spec fn dec_int(i: int) -> Seq<char> {
    if i < 0 {
        seq!['-'] + dec_nat((-i) as nat)
    } else {
        dec_nat(i as nat)
    }
}

/// Two lower-case hexadecimal digits per byte, in order.
pub open spec fn hex_bytes(b: Seq<u8>) -> Seq<char>
    decreases b.len(),
{
    if b.len() == 0 {
        Seq::empty()
    } else {
        hex_bytes(b.drop_last()) + seq![hex_char(b.last() as int / 16), hex_char(b.last() as int % 16)]
    }
}

/// The one-character string holding the hexadecimal digit `d`.
pub fn hex_digit(d: u8) -> (r: &'static str)
    requires
        d < 16,
    ensures
        r@ == seq![hex_char(d as int)],
{
    match d {
        0 => { proof { reveal_strlit("0"); } "0" },
        1 => { proof { reveal_strlit("1"); } "1" },
        2 => { proof { reveal_strlit("2"); } "2" },
        3 => { proof { reveal_strlit("3"); } "3" },
        4 => { proof { reveal_strlit("4"); } "4" },
        5 => { proof { reveal_strlit("5"); } "5" },
        6 => { proof { reveal_strlit("6"); } "6" },
        7 => { proof { reveal_strlit("7"); } "7" },
        8 => { proof { reveal_strlit("8"); } "8" },
        9 => { proof { reveal_strlit("9"); } "9" },
        10 => { proof { reveal_strlit("a"); } "a" },
        11 => { proof { reveal_strlit("b"); } "b" },
        12 => { proof { reveal_strlit("c"); } "c" },
        13 => { proof { reveal_strlit("d"); } "d" },
        14 => { proof { reveal_strlit("e"); } "e" },
        _ => { proof { reveal_strlit("f"); } "f" },
    }
}

/// Appends the decimal digits of `n` to `out`.
pub fn push_decimal(out: &mut String, n: u128)
    ensures
        final(out)@ == old(out)@ + dec_nat(n as nat),
    decreases n,
{
    if n >= 10 {
        push_decimal(out, n / 10);
    }
    let d: u8 = (n % 10) as u8;
    out.append(hex_digit(d));
    proof {
        if n >= 10 {
            assert(dec_nat(n as nat) == dec_nat((n / 10) as nat).push(hex_char((n % 10) as int)));
        }
        assert(old(out)@ + dec_nat(n as nat) =~= final(out)@) by {
            if n >= 10 {
                assert((old(out)@ + dec_nat((n / 10) as nat)) + seq![hex_char((n % 10) as int)]
                    =~= old(out)@ + dec_nat((n / 10) as nat).push(hex_char((n % 10) as int)));
            }
        }
    }
}

/// Appends the decimal rendering of `v` (with `-` when negative) to `out`.
pub fn push_signed(out: &mut String, v: i128)
    ensures
        final(out)@ == old(out)@ + dec_int(v as int),
{
    if v < 0 {
        proof { reveal_strlit("-"); }
        out.append("-");
        let magnitude: u128 = ((-(v + 1)) as u128) + 1;
        push_decimal(out, magnitude);
        assert(final(out)@ =~= old(out)@ + (seq!['-'] + dec_nat((-v) as nat)));
    } else {
        push_decimal(out, v as u128);
    }
}

/// The decimal rendering of an unsigned integer.
pub fn decimal(n: u128) -> (r: String)
    ensures
        r@ == dec_nat(n as nat),
{
    let mut out = String::new();
    push_decimal(&mut out, n);
    assert(out@ =~= dec_nat(n as nat));
    out
}

/// The decimal rendering of a signed integer.
pub fn signed_decimal(v: i128) -> (r: String)
    ensures
        r@ == dec_int(v as int),
{
    let mut out = String::new();
    push_signed(&mut out, v);
    assert(out@ =~= dec_int(v as int));
    out
}

/// Appends two lower-case hexadecimal digits per byte of `bytes` to `out`.
pub fn push_hex(out: &mut String, bytes: &[u8])
    ensures
        final(out)@ == old(out)@ + hex_bytes(bytes@),
{
    let ghost start = out@;
    let mut i: usize = 0;
    while i < bytes.len()
        invariant
            i <= bytes@.len(),
            out@ == start + hex_bytes(bytes@.take(i as int)),
        decreases bytes@.len() - i,
    {
        let b = bytes[i];
        out.append(hex_digit(b / 16));
        out.append(hex_digit(b % 16));
        proof {
            let t = bytes@.take(i + 1);
            assert(t.drop_last() =~= bytes@.take(i as int));
            assert(t.last() == b);
            assert(out@ =~= start + hex_bytes(t));
        }
        i = i + 1;
    }
    assert(bytes@.take(bytes@.len() as int) =~= bytes@);
}

/// Two lower-case hexadecimal digits per byte.
pub fn hex_encode(bytes: &[u8]) -> (r: String)
    ensures
        r@ == hex_bytes(bytes@),
{
    let mut out = String::new();
    push_hex(&mut out, bytes);
    assert(out@ =~= hex_bytes(bytes@));
    out
}


/// Whether two strings hold the same characters.
pub fn same_text(a: &str, b: &str) -> (r: bool)
    ensures
        r == (a@ == b@),
{
    a.to_owned() == b.to_owned()
}

/// Why a decimal unsigned integer does not parse.
#[derive(Debug, Clone, Copy, PartialEq, Eq, Structural)]
pub enum IntParseFailure {
    /// The text is empty.
    Empty,
    /// A character is not a decimal digit (or the text is a lone sign).
    InvalidDigit,
    /// The number is larger than the target type holds.
    PosOverflow,
}

/// Whether `c` is an ASCII decimal digit.
pub open spec fn is_digit(c: char) -> bool {
    '0' <= c && c <= '9'
}

/// The value of the decimal digit `c`.
pub open spec fn digit_value(c: char) -> int {
    c as int - '0' as int
}

/// Reads `digits` left to right into a value at most `max`: the first
/// non-digit, or else the first digit that takes the value past `max`,
/// decides the failure.
pub open spec fn scan_digits(digits: Seq<char>, max: int) -> Result<int, IntParseFailure>
    decreases digits.len(),
{
    if digits.len() == 0 {
        Ok(0)
    } else {
        match scan_digits(digits.drop_last(), max) {
            Err(e) => Err(e),
            Ok(v) => if !is_digit(digits.last()) {
                Err(IntParseFailure::InvalidDigit)
            } else if v * 10 + digit_value(digits.last()) > max {
                Err(IntParseFailure::PosOverflow)
            } else {
                Ok(v * 10 + digit_value(digits.last()))
            },
        }
    }
}

/// Decimal parsing of an unsigned integer at most `max`, as `str::parse`
/// does it: an optional leading `+`, then at least one digit.
pub open spec fn parse_unsigned(s: Seq<char>, max: int) -> Result<int, IntParseFailure> {
    if s.len() == 0 {
        Err(IntParseFailure::Empty)
    } else if s.len() == 1 && (s[0] == '+' || s[0] == '-') {
        Err(IntParseFailure::InvalidDigit)
    } else if s[0] == '+' {
        scan_digits(s.subrange(1, s.len() as int), max)
    } else {
        scan_digits(s, max)
    }
}

/// The message that `std` gives for each parse failure.
pub open spec fn failure_text(k: IntParseFailure) -> Seq<char> {
    match k {
        IntParseFailure::Empty => "cannot parse integer from empty string"@,
        IntParseFailure::InvalidDigit => "invalid digit found in string"@,
        IntParseFailure::PosOverflow => "number too large to fit in target type"@,
    }
}

impl IntParseFailure {
    /// The message that `std` gives for this failure.
    pub fn message(&self) -> (r: &'static str)
        ensures
            r@ == failure_text(*self),
    {
        match self {
            IntParseFailure::Empty => "cannot parse integer from empty string",
            IntParseFailure::InvalidDigit => "invalid digit found in string",
            IntParseFailure::PosOverflow => "number too large to fit in target type",
        }
    }
}

/// Parses `s` as a decimal unsigned integer no larger than `max`.
pub fn parse_decimal(s: &str, max: u64) -> (r: Result<u64, IntParseFailure>)
    ensures
        match (r, parse_unsigned(s@, max as int)) {
            (Ok(v), Ok(w)) => v == w,
            (Err(e), Err(f)) => e == f,
            _ => false,
        },
{
    let n = s.unicode_len();
    if n == 0 {
        return Err(IntParseFailure::Empty);
    }
    let first = s.get_char(0);
    if n == 1 && (first == '+' || first == '-') {
        return Err(IntParseFailure::InvalidDigit);
    }
    let start: usize = if first == '+' { 1 } else { 0 };
    let ghost digits = if first == '+' { s@.subrange(1, s@.len() as int) } else { s@ };
    let mut value: u64 = 0;
    let mut i: usize = start;
    proof {
        assert(s@[0] == first);
        assert(digits.subrange(0, 0) =~= Seq::<char>::empty());
        if first != '+' {
            assert(s@.subrange(0, n as int) =~= s@);
        }
    }
    while i < n
        invariant
            n == s@.len(),
            start <= i <= n,
            start == 0 || start == 1,
            digits == s@.subrange(start as int, n as int),
            value <= max,
            parse_unsigned(s@, max as int) == scan_digits(digits, max as int),
            scan_digits(digits.subrange(0, i - start), max as int) == Ok::<int, IntParseFailure>(value as int),
        decreases n - i,
    {
        let c = s.get_char(i);
        let ghost prefix = digits.subrange(0, i + 1 - start);
        proof {
            assert(prefix.drop_last() =~= digits.subrange(0, i - start));
            assert(prefix.last() == c);
        }
        if !('0' <= c && c <= '9') {
            proof { lemma_scan_prefix_error(digits, (i + 1 - start) as int, max as int); }
            return Err(IntParseFailure::InvalidDigit);
        }
        let d: u64 = (c as u32 - '0' as u32) as u64;
        assert(d == digit_value(c));
        if d > max || value > (max - d) / 10 {
            assert(value * 10 + d > max) by (nonlinear_arith)
                requires
                    d > max || value > (max - d) / 10,
            ;
            proof { lemma_scan_prefix_error(digits, (i + 1 - start) as int, max as int); }
            return Err(IntParseFailure::PosOverflow);
        }
        assert(value * 10 + d <= max) by (nonlinear_arith)
            requires
                d <= max,
                value <= (max - d) / 10,
        ;
        value = value * 10 + d;
        i = i + 1;
    }
    assert(digits.subrange(0, n - start) =~= digits);
    Ok(value)
}

/// Once a prefix of the digits fails to scan, the whole of them fails the
/// same way.
pub proof fn lemma_scan_prefix_error(digits: Seq<char>, k: int, max: int)
    requires
        0 <= k <= digits.len(),
        scan_digits(digits.subrange(0, k), max) is Err,
    ensures
        scan_digits(digits, max) == scan_digits(digits.subrange(0, k), max),
    decreases digits.len() - k,
{
    if k < digits.len() {
        let next = digits.subrange(0, k + 1);
        assert(next.drop_last() =~= digits.subrange(0, k));
        lemma_scan_prefix_error(digits, k + 1, max);
    } else {
        assert(digits.subrange(0, k) =~= digits);
    }
}

// ─── Laws of the renderings ──────────────────────────────────────────────────

/// The first ten hexadecimal digits are the decimal digits, in order; all
/// sixteen are distinct.
pub proof fn lemma_hex_chars()
    ensures
        forall|d: int| 0 <= d < 10 ==> is_digit(#[trigger] hex_char(d)) && digit_value(hex_char(d)) == d,
        forall|d: int, e: int| 0 <= d < 16 && 0 <= e < 16 && d != e ==> #[trigger] hex_char(d) != #[trigger] hex_char(e),
{
    assert forall|d: int| 0 <= d < 10 implies is_digit(#[trigger] hex_char(d)) && digit_value(hex_char(d)) == d by {
        assert(d == 0 || d == 1 || d == 2 || d == 3 || d == 4 || d == 5 || d == 6 || d == 7 || d == 8 || d == 9);
    }
}

/// Decimal rendering is made of digits, has no leading zero, and reads back
/// as the same number: parsing the digits of `n` gives `n`.
pub proof fn lemma_decimal_round_trip(n: nat, max: int)
    requires
        n <= max,
    ensures
        dec_nat(n).len() >= 1,
        forall|i: int| 0 <= i < dec_nat(n).len() ==> is_digit(#[trigger] dec_nat(n)[i]),
        n > 0 ==> dec_nat(n)[0] != '0',
        scan_digits(dec_nat(n), max) == Ok::<int, IntParseFailure>(n as int),
        parse_unsigned(dec_nat(n), max) == Ok::<int, IntParseFailure>(n as int),
    decreases n,
{
    lemma_hex_chars();
    if n < 10 {
        let s = dec_nat(n);
        assert(s.drop_last() =~= Seq::<char>::empty());
        assert(s.last() == hex_char(n as int));
        assert(scan_digits(s.drop_last(), max) == Ok::<int, IntParseFailure>(0));
        assert(is_digit(s.last()) && digit_value(s.last()) == n);
        assert(scan_digits(s, max) == Ok::<int, IntParseFailure>(n as int));
    } else {
        lemma_decimal_round_trip(n / 10, max);
        let s = dec_nat(n);
        assert(s.drop_last() =~= dec_nat(n / 10));
        assert(s.last() == hex_char((n % 10) as int));
        assert(s[0] == dec_nat(n / 10)[0]);
        assert forall|i: int| 0 <= i < s.len() implies is_digit(#[trigger] s[i]) by {
            if i < s.len() - 1 {
                assert(s[i] == dec_nat(n / 10)[i]);
            }
        }
        assert((n / 10) * 10 + n % 10 == n);
        assert(scan_digits(s.drop_last(), max) == Ok::<int, IntParseFailure>((n / 10) as int));
        assert(is_digit(s.last()) && digit_value(s.last()) == n % 10);
        assert(scan_digits(s, max) == Ok::<int, IntParseFailure>(n as int));
    }
    let s = dec_nat(n);
    assert(is_digit(s[0]));
    assert(s[0] != '+' && s[0] != '-');
}

/// The signed rendering is the unsigned one of the magnitude, after a `-`
/// exactly when the number is negative.
pub proof fn lemma_signed_decimal(i: int)
    ensures
        i < 0 ==> dec_int(i) == seq!['-'] + dec_nat((-i) as nat),
        i >= 0 ==> dec_int(i) == dec_nat(i as nat),
        (dec_int(i).len() > 0 && dec_int(i)[0] == '-') <==> i < 0,
{
    lemma_hex_chars();
    if i >= 0 {
        lemma_decimal_round_trip(i as nat, i);
    }
}

/// Hexadecimal rendering gives two lower-case digits per byte: the high
/// four bits, then the low four bits.
pub proof fn lemma_hex_bytes(b: Seq<u8>)
    ensures
        hex_bytes(b).len() == 2 * b.len(),
        forall|i: int|
            0 <= i < b.len() ==> #[trigger] hex_bytes(b)[2 * i] == hex_char(b[i] as int / 16) && hex_bytes(b)[2 * i
                + 1] == hex_char(b[i] as int % 16),
    decreases b.len(),
{
    if b.len() > 0 {
        let q = b.drop_last();
        lemma_hex_bytes(q);
        let h = hex_bytes(b);
        let p = hex_bytes(q);
        let tail = seq![hex_char(b.last() as int / 16), hex_char(b.last() as int % 16)];
        assert(h == p + tail);
        assert(p.len() == 2 * q.len());
        assert forall|i: int| 0 <= i < b.len() implies #[trigger] hex_bytes(b)[2 * i] == hex_char(b[i] as int / 16)
            && hex_bytes(b)[2 * i + 1] == hex_char(b[i] as int % 16) by {
            if i < b.len() - 1 {
                assert(q[i] == b[i]);
                assert(p[2 * i] == hex_char(q[i] as int / 16));
                assert(p[2 * i + 1] == hex_char(q[i] as int % 16));
                assert(h[2 * i] == p[2 * i]);
                assert(h[2 * i + 1] == p[2 * i + 1]);
            } else {
                assert(2 * i == p.len());
                assert(h[2 * i] == tail[0]);
                assert(h[2 * i + 1] == tail[1]);
            }
        }
    }
}

} // verus!
