//! Byte- and digit-level codecs: lowercase and uppercase hexadecimal,
//! decimal rendering and parsing of `u64`, and big-endian byte layout.
//!
//! These are the primitive encoders the manifest hashes, the byte-range
//! parser and the nonce construction are specified against.

use vstd::prelude::*;

verus! {

/// Appends one character. Relies on `String::push` of std: it appends the
/// given char to the end of the string.
#[verifier::external_body]
pub(crate) fn push_char(s: &mut String, c: char)
    ensures
        final(s)@ == old(s)@.push(c),
{
    s.push(c)
}

/// The lowercase hexadecimal digit for a value below 16.
pub open spec fn spec_hex_digit(d: u8) -> char
    recommends
        d < 16,
{
    if d < 10 {
        ((48 + d) as u8) as char
    } else {
        ((87 + d) as u8) as char
    }
}

/// The uppercase hexadecimal digit for a value below 16.
pub open spec fn spec_hex_digit_upper(d: u8) -> char
    recommends
        d < 16,
{
    if d < 10 {
        ((48 + d) as u8) as char
    } else {
        ((55 + d) as u8) as char
    }
}

/// Two lowercase hexadecimal digits, high nibble first.
pub open spec fn spec_hex_byte(b: u8) -> Seq<char> {
    seq![spec_hex_digit((b / 16) as u8), spec_hex_digit((b % 16) as u8)]
}

/// The lowercase hexadecimal rendering of a byte string.
pub open spec fn spec_hex(bytes: Seq<u8>) -> Seq<char>
    decreases bytes.len(),
{
    if bytes.len() == 0 {
        Seq::empty()
    } else {
        spec_hex(bytes.drop_last()) + spec_hex_byte(bytes.last())
    }
}

fn hex_digit(d: u8) -> (c: char)
    requires
        d < 16,
    ensures
        c == spec_hex_digit(d),
{
    if d < 10 {
        (48 + d) as char
    } else {
        (87 + d) as char
    }
}

pub(crate) fn hex_digit_upper(d: u8) -> (c: char)
    requires
        d < 16,
    ensures
        c == spec_hex_digit_upper(d),
{
    if d < 10 {
        (48 + d) as char
    } else {
        (55 + d) as char
    }
}

/// Renders a byte string as lowercase hexadecimal, two digits per byte.
pub fn hex_encode(bytes: &Vec<u8>) -> (r: String)
    ensures
        r@ == spec_hex(bytes@),
        r@.len() == 2 * bytes@.len(),
{
    proof {
        lemma_spec_hex_len(bytes@);
    }
    let mut out = String::new();
    let mut i: usize = 0;
    while i < bytes.len()
        invariant
            i <= bytes@.len(),
            out@ == spec_hex(bytes@.take(i as int)),
        decreases bytes@.len() - i,
    {
        let b = bytes[i];
        push_char(&mut out, hex_digit(b / 16));
        push_char(&mut out, hex_digit(b % 16));
        proof {
            assert(bytes@.take(i + 1 as int).drop_last() =~= bytes@.take(i as int));
            assert(bytes@.take(i + 1 as int).last() == bytes@[i as int]);
            assert(out@ =~= spec_hex(bytes@.take(i + 1 as int)));
        }
        i = i + 1;
    }
    proof {
        assert(bytes@.take(bytes@.len() as int) =~= bytes@);
    }
    out
}

/// The hexadecimal rendering is twice as long as its input.
pub proof fn lemma_spec_hex_len(bytes: Seq<u8>)
    ensures
        spec_hex(bytes).len() == 2 * bytes.len(),
    decreases bytes.len(),
{
    if bytes.len() > 0 {
        lemma_spec_hex_len(bytes.drop_last());
    }
}

/// The decimal digit character for a value below ten.
pub open spec fn spec_dec_digit(d: nat) -> char
    recommends
        d < 10,
{
    ((48 + d) as u8) as char
}

/// The canonical decimal rendering of a natural number, no sign, no
/// leading zeros (a single zero for zero itself).
pub open spec fn spec_decimal(n: nat) -> Seq<char>
    decreases n,
{
    if n < 10 {
        seq![spec_dec_digit(n)]
    } else {
        spec_decimal(n / 10) + seq![spec_dec_digit(n % 10)]
    }
}

fn push_decimal(out: &mut String, n: u64)
    ensures
        final(out)@ == old(out)@ + spec_decimal(n as nat),
    decreases n,
{
    if n >= 10 {
        push_decimal(out, n / 10);
    }
    let d = (n % 10) as u8;
    push_char(out, (48 + d) as char);
    proof {
        if n >= 10 {
            assert(out@ =~= old(out)@ + spec_decimal(n as nat));
        } else {
            assert(out@ =~= old(out)@ + spec_decimal(n as nat));
        }
    }
}

/// Renders a number in decimal, as `u64`'s `Display` does.
pub fn u64_to_decimal(n: u64) -> (r: String)
    ensures
        r@ == spec_decimal(n as nat),
{
    let mut out = String::new();
    push_decimal(&mut out, n);
    proof {
        assert(out@ =~= spec_decimal(n as nat));
    }
    out
}

/// Whether a character is an ASCII decimal digit.
pub open spec fn is_dec_digit(c: char) -> bool {
    48 <= c as u32 <= 57
}

/// The numeric value of an ASCII decimal digit.
pub open spec fn dec_digit_value(c: char) -> nat {
    (c as u32 - 48) as nat
}

/// Whether every character of the string is an ASCII decimal digit.
pub open spec fn all_dec_digits(s: Seq<char>) -> bool {
    forall|i: int| 0 <= i < s.len() ==> is_dec_digit(#[trigger] s[i])
}

/// The value of a string of decimal digits, most significant first.
pub open spec fn digits_value(s: Seq<char>) -> nat
    decreases s.len(),
{
    if s.len() == 0 {
        0
    } else {
        10 * digits_value(s.drop_last()) + dec_digit_value(s.last())
    }
}

/// The digits of a decimal literal, an optional leading plus sign
/// stripped.
pub open spec fn spec_parse_body(s: Seq<char>) -> Seq<char> {
    if s.len() > 0 && s[0] == '+' {
        s.skip(1)
    } else {
        s
    }
}

/// What `str::parse::<u64>` accepts: an optional leading plus sign, then
/// one or more decimal digits whose value fits in a `u64`.
pub open spec fn spec_parse_u64(s: Seq<char>) -> Option<u64> {
    let body = spec_parse_body(s);
    if body.len() > 0 && all_dec_digits(body) && digits_value(body) <= u64::MAX {
        Some(digits_value(body) as u64)
    } else {
        None
    }
}

/// A digit string is worth at least as much as any of its prefixes.
proof fn lemma_digits_prefix_le(s: Seq<char>, i: int)
    requires
        0 <= i <= s.len(),
    ensures
        digits_value(s.take(i)) <= digits_value(s),
    decreases s.len() - i,
{
    if i < s.len() {
        assert(s.take(i + 1).drop_last() =~= s.take(i));
        assert(digits_value(s.take(i)) <= 10 * digits_value(s.take(i)));
        lemma_digits_prefix_le(s, i + 1);
    } else {
        assert(s.take(i) =~= s);
    }
}

/// Parses a decimal `u64` exactly as `str::parse::<u64>` does: `None`
/// where that returns an error (empty body, a non-digit, or overflow).
pub fn parse_decimal_u64(s: &str) -> (r: Option<u64>)
    ensures
        r == spec_parse_u64(s@),
{
    let len = s.unicode_len();
    let mut start: usize = 0;
    if len > 0 && s.get_char(0) == '+' {
        start = 1;
    }
    let ghost body = spec_parse_body(s@);
    assert(body =~= s@.subrange(start as int, len as int));
    if start >= len {
        return None;
    }
    let mut value: u64 = 0;
    let mut j: usize = start;
    while j < len
        invariant
            start <= j <= len,
            len == s@.len(),
            body == spec_parse_body(s@),
            body == s@.subrange(start as int, len as int),
            all_dec_digits(body.take(j - start)),
            value == digits_value(body.take(j - start)),
        decreases len - j,
    {
        let c = s.get_char(j);
        let cu = c as u32;
        if cu < 48 || cu > 57 {
            assert(body[j - start] == c);
            assert(!all_dec_digits(body));
            return None;
        }
        let d = (cu - 48) as u64;
        proof {
            assert(body.take(j - start + 1).drop_last() =~= body.take((j - start) as int));
            assert(body.take(j - start + 1).last() == c);
        }
        if value > (u64::MAX - d) / 10 {
            proof {
                let prefix = body.take(j - start + 1);
                assert(10 * value + d > u64::MAX) by {
                    assert(value >= (u64::MAX - d) / 10 + 1);
                    assert(10 * ((u64::MAX - d) / 10 + 1) >= (u64::MAX - d) + 1);
                };
                assert(digits_value(prefix) > u64::MAX);
                if all_dec_digits(body) && digits_value(body) <= u64::MAX {
                    lemma_digits_prefix_le(body, j - start + 1);
                    assert(false);
                }
            }
            return None;
        }
        value = value * 10 + d;
        j = j + 1;
    }
    proof {
        assert(body.take((len - start) as int) =~= body);
    }
    Some(value)
}

/// The eight bytes of a `u64`, most significant first, as
/// `u64::to_be_bytes` lays them out.
pub open spec fn spec_be_bytes(x: u64) -> Seq<u8> {
    seq![
        ((x >> 56u64) & 0xff) as u8,
        ((x >> 48u64) & 0xff) as u8,
        ((x >> 40u64) & 0xff) as u8,
        ((x >> 32u64) & 0xff) as u8,
        ((x >> 24u64) & 0xff) as u8,
        ((x >> 16u64) & 0xff) as u8,
        ((x >> 8u64) & 0xff) as u8,
        (x & 0xff) as u8,
    ]
}

/// The eight bytes of a `u64`, most significant first.
pub fn u64_be_bytes(x: u64) -> (r: Vec<u8>)
    ensures
        r@ == spec_be_bytes(x),
        r@.len() == 8,
{
    let mut r: Vec<u8> = Vec::new();
    r.push(#[verifier::truncate] (((x >> 56u64) & 0xff) as u8));
    r.push(#[verifier::truncate] (((x >> 48u64) & 0xff) as u8));
    r.push(#[verifier::truncate] (((x >> 40u64) & 0xff) as u8));
    r.push(#[verifier::truncate] (((x >> 32u64) & 0xff) as u8));
    r.push(#[verifier::truncate] (((x >> 24u64) & 0xff) as u8));
    r.push(#[verifier::truncate] (((x >> 16u64) & 0xff) as u8));
    r.push(#[verifier::truncate] (((x >> 8u64) & 0xff) as u8));
    r.push(#[verifier::truncate] ((x & 0xff) as u8));
    proof {
        assert(r@ =~= spec_be_bytes(x));
    }
    r
}

/// Big-endian layout is injective: equal byte strings mean equal numbers.
pub proof fn lemma_be_bytes_injective(x: u64, y: u64)
    requires
        spec_be_bytes(x) == spec_be_bytes(y),
    ensures
        x == y,
{
    assert(spec_be_bytes(x)[0] == spec_be_bytes(y)[0]);
    assert(spec_be_bytes(x)[1] == spec_be_bytes(y)[1]);
    assert(spec_be_bytes(x)[2] == spec_be_bytes(y)[2]);
    assert(spec_be_bytes(x)[3] == spec_be_bytes(y)[3]);
    assert(spec_be_bytes(x)[4] == spec_be_bytes(y)[4]);
    assert(spec_be_bytes(x)[5] == spec_be_bytes(y)[5]);
    assert(spec_be_bytes(x)[6] == spec_be_bytes(y)[6]);
    assert(spec_be_bytes(x)[7] == spec_be_bytes(y)[7]);
    assert((((x >> 56u64) & 0xff) as u8 == ((y >> 56u64) & 0xff) as u8 && ((x >> 48u64)
        & 0xff) as u8 == ((y >> 48u64) & 0xff) as u8 && ((x >> 40u64) & 0xff) as u8 == ((y
        >> 40u64) & 0xff) as u8 && ((x >> 32u64) & 0xff) as u8 == ((y >> 32u64) & 0xff) as u8 && ((
    x >> 24u64) & 0xff) as u8 == ((y >> 24u64) & 0xff) as u8 && ((x >> 16u64) & 0xff) as u8 == ((y
        >> 16u64) & 0xff) as u8 && ((x >> 8u64) & 0xff) as u8 == ((y >> 8u64) & 0xff) as u8 && (x
        & 0xff) as u8 == (y & 0xff) as u8) ==> x == y) by (bit_vector);
}

} // verus!
