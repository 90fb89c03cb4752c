use vstd::prelude::*;
use vstd::string::StringSliceAdditionalSpecFns;

verus! {

// ---------------------------------------------------------------------------
// Digits
// ---------------------------------------------------------------------------

/// The value of an ASCII digit or letter (`0`-`9`, then `a`-`z` / `A`-`Z` as
/// ten and up); 36 for any other byte.
pub open spec fn digit_value(b: u8) -> nat {
    if 0x30 <= b <= 0x39 {
        (b - 0x30) as nat
    } else if 0x61 <= b <= 0x7a {
        (b - 0x61 + 10) as nat
    } else if 0x41 <= b <= 0x5a {
        (b - 0x41 + 10) as nat
    } else {
        36
    }
}

pub open spec fn is_digit(b: u8, radix: nat) -> bool {
    digit_value(b) < radix
}

/// The number a string of digits denotes in base `radix`, most significant first.
pub open spec fn digits_value(s: Seq<u8>, radix: nat) -> nat
    decreases s.len(),
{
    if s.len() == 0 {
        0
    } else {
        digits_value(s.drop_last(), radix) * radix + digit_value(s.last())
    }
}

/// Reading an unsigned 32-bit number: an optional `+`, then at least one digit
/// of the radix, and a value that fits in 32 bits.
pub open spec fn parse_unsigned(s: Seq<u8>, radix: nat) -> Option<u32> {
    if s.len() > 0 && s[0] == 0x2b {
        parse_digits(s.drop_first(), radix)
    } else {
        parse_digits(s, radix)
    }
}

/// Reading a non-empty string of digits whose value fits in 32 bits.
pub open spec fn parse_digits(digits: Seq<u8>, radix: nat) -> Option<u32> {
    if digits.len() > 0 && (forall|i: int| 0 <= i < digits.len() ==> #[trigger] is_digit(digits[i], radix))
        && digits_value(digits, radix) <= u32::MAX {
        Some(digits_value(digits, radix) as u32)
    } else {
        None
    }
}

/// The lowercase ASCII digit for `d` (below 16).
pub open spec fn digit_byte(d: nat) -> u8 {
    if d < 10 {
        (0x30 + d) as u8
    } else {
        (0x61 + d - 10) as u8
    }
}

pub open spec fn digit_char(d: nat) -> char {
    digit_byte(d) as char
}

/// The decimal text of `n`, without sign or leading zeros.
pub open spec fn decimal_bytes(n: nat) -> Seq<u8>
    decreases n,
{
    if n < 10 {
        seq![digit_byte(n)]
    } else {
        decimal_bytes(n / 10).push(digit_byte(n % 10))
    }
}

pub open spec fn decimal_chars(n: nat) -> Seq<char> {
    decimal_bytes(n).map_values(|b: u8| b as char)
}

/// The last `width` lowercase hexadecimal digits of `n`, zero padded.
pub open spec fn hex_fixed(n: nat, width: nat) -> Seq<char>
    decreases width,
{
    if width == 0 {
        seq![]
    } else {
        hex_fixed(n / 16, (width - 1) as nat).push(digit_char(n % 16))
    }
}

pub open spec fn is_ascii_whitespace(b: u8) -> bool {
    b == 0x20 || b == 0x09 || b == 0x0a || b == 0x0c || b == 0x0d
}

pub open spec fn trim_start(s: Seq<u8>) -> Seq<u8>
    decreases s.len(),
{
    if s.len() > 0 && is_ascii_whitespace(s[0]) {
        trim_start(s.drop_first())
    } else {
        s
    }
}

pub open spec fn trim_end(s: Seq<u8>) -> Seq<u8>
    decreases s.len(),
{
    if s.len() > 0 && is_ascii_whitespace(s.last()) {
        trim_end(s.drop_last())
    } else {
        s
    }
}

/// `s` without the ASCII whitespace at either end.
pub open spec fn trim(s: Seq<u8>) -> Seq<u8> {
    trim_end(trim_start(s))
}

// ---------------------------------------------------------------------------
// Lemmas
// ---------------------------------------------------------------------------

proof fn lemma_prefix_value_le(s: Seq<u8>, k: int, radix: nat)
    requires
        0 <= k <= s.len(),
        radix >= 1,
    ensures
        digits_value(s.subrange(0, k), radix) <= digits_value(s, radix),
    decreases s.len(),
{
    if k < s.len() {
        let t = s.drop_last();
        lemma_prefix_value_le(t, k, radix);
        assert(t.subrange(0, k) =~= s.subrange(0, k));
        let v = digits_value(t, radix);
        assert(v * radix >= v) by (nonlinear_arith)
            requires
                radix >= 1,
        ;
    } else {
        assert(s.subrange(0, k) =~= s);
    }
}

/// The decimal text of `n` is a non-empty run of digits that denotes `n`.
pub proof fn lemma_decimal_bytes(n: nat)
    ensures
        decimal_bytes(n).len() > 0,
        forall|i: int| 0 <= i < decimal_bytes(n).len() ==> #[trigger] digit_value(decimal_bytes(n)[i]) < 10,
        digits_value(decimal_bytes(n), 10) == n,
    decreases n,
{
    let d = digit_byte(n % 10);
    assert(digit_value(d) == n % 10);
    if n < 10 {
        assert(decimal_bytes(n) == seq![d]);
        assert(decimal_bytes(n).drop_last() =~= Seq::<u8>::empty());
        assert(digits_value(Seq::<u8>::empty(), 10) == 0);
        assert(digits_value(decimal_bytes(n), 10) == digits_value(Seq::<u8>::empty(), 10) * 10
            + digit_value(d));
    } else {
        lemma_decimal_bytes(n / 10);
        let p = decimal_bytes(n / 10);
        assert(decimal_bytes(n).drop_last() =~= p);
        assert(decimal_bytes(n).last() == d);
        assert(digits_value(decimal_bytes(n), 10) == digits_value(p, 10) * 10 + digit_value(d));
        assert((n / 10) * 10 + n % 10 == n);
        assert forall|i: int| 0 <= i < decimal_bytes(n).len() implies #[trigger] digit_value(decimal_bytes(n)[i]) < 10 by {
            if i < p.len() {
                assert(decimal_bytes(n)[i] == p[i]);
            }
        }
    }
}

pub open spec fn pow10(k: nat) -> nat
    decreases k,
{
    if k == 0 {
        1
    } else {
        10 * pow10((k - 1) as nat)
    }
}

proof fn lemma_decimal_len_below(n: nat, k: nat)
    requires
        k >= 1,
        n < pow10(k),
    ensures
        decimal_bytes(n).len() <= k,
    decreases k,
{
    if n >= 10 {
        assert(k >= 2) by {
            if k == 1 {
                assert(pow10(0) == 1);
            }
        }
        lemma_decimal_len_below(n / 10, (k - 1) as nat);
    }
}

/// The decimal text of a 32-bit number has at most ten digits.
pub proof fn lemma_decimal_len(n: u32)
    ensures
        decimal_bytes(n as nat).len() <= 10,
{
    reveal_with_fuel(pow10, 11);
    assert(pow10(10) == 10000000000);
    lemma_decimal_len_below(n as nat, 10);
}

/// Reading back the decimal text of a 32-bit number gives that number.
pub proof fn lemma_decimal_round_trip(n: u32)
    ensures
        parse_unsigned(decimal_bytes(n as nat), 10) == Some(n),
{
    lemma_decimal_bytes(n as nat);
    let s = decimal_bytes(n as nat);
    assert(digit_value(s[0]) < 10);
}

proof fn lemma_decimal_chars_push(n: nat)
    requires
        n >= 10,
    ensures
        decimal_chars(n) == decimal_chars(n / 10).push(digit_char(n % 10)),
{
    assert(decimal_chars(n) =~= decimal_chars(n / 10).push(digit_char(n % 10)));
}

// ---------------------------------------------------------------------------
// Executable functions
// ---------------------------------------------------------------------------

fn digit_of(b: u8) -> (r: u32)
    ensures
        r == digit_value(b),
{
    if 0x30 <= b && b <= 0x39 {
        (b - 0x30) as u32
    } else if 0x61 <= b && b <= 0x7a {
        (b - 0x61 + 10) as u32
    } else if 0x41 <= b && b <= 0x5a {
        (b - 0x41 + 10) as u32
    } else {
        36
    }
}

/// Reads `s[from..to]` as an unsigned 32-bit number in base `radix`.
pub fn parse_unsigned_range(s: &[u8], from: usize, to: usize, radix: u32) -> (r: Option<u32>)
    requires
        from <= to <= s@.len(),
        2 <= radix <= 36,
    ensures
        r == parse_unsigned(s@.subrange(from as int, to as int), radix as nat),
{
    let ghost whole = s@.subrange(from as int, to as int);
    if from < to && s[from] == 0x2b {
        assert(s@.subrange(from + 1, to as int) =~= whole.drop_first());
        parse_digits_range(s, from + 1, to, radix)
    } else {
        parse_digits_range(s, from, to, radix)
    }
}

/// Reads `s[from..to]`, digits only, as an unsigned 32-bit number in base `radix`.
pub fn parse_digits_range(s: &[u8], from: usize, to: usize, radix: u32) -> (r: Option<u32>)
    requires
        from <= to <= s@.len(),
        2 <= radix <= 36,
    ensures
        r == parse_digits(s@.subrange(from as int, to as int), radix as nat),
{
    let ghost digits = s@.subrange(from as int, to as int);
    if from == to {
        return None;
    }
    let mut value: u64 = 0;
    let mut i = from;
    while i < to
        invariant
            from < to <= s@.len(),
            from <= i <= to,
            2 <= radix <= 36,
            digits == s@.subrange(from as int, to as int),
            value == digits_value(s@.subrange(from as int, i as int), radix as nat),
            value <= u32::MAX,
            forall|m: int| from <= m < i ==> #[trigger] is_digit(s@[m], radix as nat),
        decreases to - i,
    {
        let d = digit_of(s[i]);
        if d >= radix {
            assert(digits[i - from] == s@[i as int]);
            assert(!is_digit(digits[i - from], radix as nat));
            return None;
        }
        let ghost prefix = s@.subrange(from as int, i + 1);
        assert(prefix.drop_last() =~= s@.subrange(from as int, i as int));
        assert(prefix.last() == s@[i as int]);
        assert(digits_value(prefix, radix as nat) == value * radix + d);
        assert(value * (radix as u64) + (d as u64) <= u32::MAX * 36 + 36) by (nonlinear_arith)
            requires
                value <= u32::MAX,
                radix <= 36,
                d < 36,
        ;
        value = value * (radix as u64) + (d as u64);
        if value > u32::MAX as u64 {
            proof {
                assert(digits.subrange(0, i + 1 - from) =~= prefix);
                lemma_prefix_value_le(digits, i + 1 - from, radix as nat);
            }
            return None;
        }
        i += 1;
    }
    assert(s@.subrange(from as int, i as int) =~= digits);
    assert forall|m: int| 0 <= m < digits.len() implies #[trigger] is_digit(digits[m], radix as nat) by {
        assert(digits[m] == s@[from + m]);
    }
    Some(value as u32)
}

/// Reads an unsigned 32-bit number in decimal, as `str::parse::<u32>` does.
pub fn parse_decimal(s: &[u8]) -> (r: Option<u32>)
    ensures
        r == parse_unsigned(s@, 10),
{
    assert(s@.subrange(0, s@.len() as int) =~= s@);
    parse_unsigned_range(s, 0, s.len(), 10)
}

/// Reads the decimal number in `value`, ignoring ASCII whitespace at either end.
pub fn parse_trimmed_decimal(value: &[u8]) -> (r: Option<u32>)
    ensures
        r == parse_unsigned(trim(value@), 10),
{
    let n = value.len();
    let mut a: usize = 0;
    assert(value@.subrange(0, n as int) =~= value@);
    while a < n && is_whitespace_byte(value[a])
        invariant
            n == value@.len(),
            a <= n,
            trim_start(value@.subrange(a as int, n as int)) == trim_start(value@),
        decreases n - a,
    {
        assert(value@.subrange(a as int, n as int).drop_first() =~= value@.subrange(a + 1, n as int));
        a += 1;
    }
    assert(a == 0 ==> value@.subrange(0, n as int) =~= value@);
    let ghost head = value@.subrange(a as int, n as int);
    assert(trim_start(head) == head);
    let mut b: usize = n;
    while b > a && is_whitespace_byte(value[b - 1])
        invariant
            n == value@.len(),
            a <= b <= n,
            head == value@.subrange(a as int, n as int),
            trim_end(value@.subrange(a as int, b as int)) == trim_end(head),
        decreases b - a,
    {
        assert(value@.subrange(a as int, b as int).drop_last() =~= value@.subrange(a as int, b - 1));
        b -= 1;
    }
    parse_unsigned_range(value, a, b, 10)
}

fn is_whitespace_byte(b: u8) -> (r: bool)
    ensures
        r == is_ascii_whitespace(b),
{
    b == 0x20 || b == 0x09 || b == 0x0a || b == 0x0c || b == 0x0d
}

/// Appends the decimal digits of `n` as ASCII bytes.
pub fn push_decimal(out: &mut Vec<u8>, n: u32)
    ensures
        final(out)@ == old(out)@ + decimal_bytes(n as nat),
    decreases n,
{
    if n >= 10 {
        push_decimal(out, n / 10);
    }
    out.push(((n % 10) as u8) + 0x30);
    assert(decimal_bytes(n as nat) == if n >= 10 {
        decimal_bytes((n / 10) as nat).push(digit_byte((n % 10) as nat))
    } else {
        seq![digit_byte(n as nat)]
    });
    assert(final(out)@ =~= old(out)@ + decimal_bytes(n as nat));
}

/// The decimal text of `n` as ASCII bytes.
pub fn decimal_text(n: u32) -> (r: Vec<u8>)
    ensures
        r@ == decimal_bytes(n as nat),
{
    let mut out: Vec<u8> = Vec::new();
    push_decimal(&mut out, n);
    assert(out@ =~= decimal_bytes(n as nat));
    out
}

fn digit_str(d: u32) -> (r: &'static str)
    requires
        d < 16,
    ensures
        r@ == seq![digit_char(d as nat)],
{
    if d == 0 {
        proof { reveal_strlit("0"); }
        "0"
    } else if d == 1 {
        proof { reveal_strlit("1"); }
        "1"
    } else if d == 2 {
        proof { reveal_strlit("2"); }
        "2"
    } else if d == 3 {
        proof { reveal_strlit("3"); }
        "3"
    } else if d == 4 {
        proof { reveal_strlit("4"); }
        "4"
    } else if d == 5 {
        proof { reveal_strlit("5"); }
        "5"
    } else if d == 6 {
        proof { reveal_strlit("6"); }
        "6"
    } else if d == 7 {
        proof { reveal_strlit("7"); }
        "7"
    } else if d == 8 {
        proof { reveal_strlit("8"); }
        "8"
    } else if d == 9 {
        proof { reveal_strlit("9"); }
        "9"
    } else if d == 10 {
        proof { reveal_strlit("a"); }
        "a"
    } else if d == 11 {
        proof { reveal_strlit("b"); }
        "b"
    } else if d == 12 {
        proof { reveal_strlit("c"); }
        "c"
    } else if d == 13 {
        proof { reveal_strlit("d"); }
        "d"
    } else if d == 14 {
        proof { reveal_strlit("e"); }
        "e"
    } else {
        proof { reveal_strlit("f"); }
        "f"
    }
}

/// Appends the decimal digits of `n`.
pub fn append_decimal(out: &mut String, n: u32)
    ensures
        final(out)@ == old(out)@ + decimal_chars(n as nat),
    decreases n,
{
    if n >= 10 {
        append_decimal(out, n / 10);
        proof { lemma_decimal_chars_push(n as nat); }
    } else {
        assert(decimal_chars(n as nat) =~= seq![digit_char(n as nat)]);
    }
    out.append(digit_str(n % 10));
    assert(final(out)@ =~= old(out)@ + decimal_chars(n as nat));
}

/// Appends the last `width` hexadecimal digits of `n`, lowercase and zero padded.
pub fn append_hex(out: &mut String, n: u32, width: u32)
    ensures
        final(out)@ == old(out)@ + hex_fixed(n as nat, width as nat),
    decreases width,
{
    if width > 0 {
        append_hex(out, n / 16, width - 1);
        out.append(digit_str(n % 16));
    }
    assert(final(out)@ =~= old(out)@ + hex_fixed(n as nat, width as nat));
}


// ---------------------------------------------------------------------------
// Correlation keys
// ---------------------------------------------------------------------------

pub open spec fn has_hex_prefix(s: Seq<u8>) -> bool {
    s.len() >= 2 && s[0] == 0x30 && s[1] == 0x78
}

/// The token a phone-home key names: `0x`, then a 32-bit hexadecimal number
/// in either case, digits only.
pub open spec fn correlation_key(s: Seq<u8>) -> Option<u32> {
    if has_hex_prefix(s) {
        parse_digits(s.subrange(2, s.len() as int), 16)
    } else {
        None
    }
}

/// Reads a phone-home key such as `0x1A2B3C4D`.
pub fn parse_correlation_key(key: &str) -> (r: Option<u32>)
    ensures
        r == correlation_key(key.spec_bytes()),
{
    let b = key.as_bytes();
    let n = b.len();
    if n < 2 || b[0] != 0x30 || b[1] != 0x78 {
        return None;
    }
    parse_digits_range(b, 2, n, 16)
}

/// The hexadecimal digits of `n`, lowercase, without leading zeros.
pub open spec fn hex_chars(n: nat) -> Seq<char>
    decreases n,
{
    if n < 16 {
        seq![digit_char(n)]
    } else {
        hex_chars(n / 16).push(digit_char(n % 16))
    }
}

/// Appends the hexadecimal digits of `n`, lowercase, without leading zeros.
pub fn append_hex_u64(out: &mut String, n: u64)
    ensures
        final(out)@ == old(out)@ + hex_chars(n as nat),
    decreases n,
{
    if n >= 16 {
        append_hex_u64(out, n / 16);
    }
    out.append(digit_str((n % 16) as u32));
    assert(final(out)@ =~= old(out)@ + hex_chars(n as nat));
}

} // verus!
