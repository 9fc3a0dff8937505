//! Text forms of numbers and bytes: lower-case hex and decimal.
use vstd::prelude::*;

verus! {

/// `String::push`: appends one character.
#[verifier::external_body]
pub(crate) fn string_push(s: &mut String, c: char)
    ensures
        final(s)@ == old(s)@.push(c),
{
    s.push(c)
}

/// The lower-case hex digit of a value below 16.
pub open spec fn hex_digit(v: int) -> char {
    if v < 10 {
        (('0' as int) + v) as char
    } else {
        (('a' as int) + v - 10) as char
    }
}

/// Two lower-case hex digits per byte, high digit first.
pub open spec fn hex_lower(data: Seq<u8>) -> Seq<char>
    decreases data.len(),
{
    if data.len() == 0 {
        Seq::empty()
    } else {
        hex_lower(data.drop_last()).push(hex_digit(data.last() as int / 16)).push(hex_digit(data.last() as int % 16))
    }
}

fn hex_char(v: u8) -> (c: char)
    requires
        v < 16,
    ensures
        c == hex_digit(v as int),
{
    if v < 10 {
        (('0' as u8) + v) as char
    } else {
        (('a' as u8) + v - 10) as char
    }
}

/// The bytes as lower-case hex, two digits each.
pub fn arr_to_hex(data: &[u8]) -> (r: String)
    ensures
        r@ == hex_lower(data@),
{
    let mut out = String::new();
    let mut i: usize = 0;
    while i < data.len()
        invariant
            0 <= i <= data@.len(),
            out@ == hex_lower(data@.take(i as int)),
        decreases data@.len() - i,
    {
        let b = data[i];
        string_push(&mut out, hex_char(b / 16));
        string_push(&mut out, hex_char(b % 16));
        proof {
            assert(data@.take(i + 1).drop_last() =~= data@.take(i as int));
        }
        i = i + 1;
    }
    assert(data@.take(data@.len() as int) =~= data@);
    out
}

/// The decimal digit of a value below 10.
pub open spec fn dec_digit(v: int) -> char {
    (('0' as int) + v) as char
}

/// The decimal form of `n`, without leading zeros.
pub open spec fn decimal(n: nat) -> Seq<char>
    decreases n,
{
    if n < 10 {
        seq![dec_digit(n as int)]
    } else {
        decimal(n / 10).push(dec_digit((n % 10) as int))
    }
}

fn dec_char(v: u64) -> (c: char)
    requires
        v < 10,
    ensures
        c == dec_digit(v as int),
{
    (('0' as u8) + (v as u8)) as char
}

/// The decimal form of `n`.
pub fn u64_to_decimal(n: u64) -> (r: String)
    ensures
        r@ == decimal(n as nat),
    decreases n,
{
    if n < 10 {
        let mut s = String::new();
        string_push(&mut s, dec_char(n));
        s
    } else {
        let mut s = u64_to_decimal(n / 10);
        string_push(&mut s, dec_char(n % 10));
        s
    }
}

/// Hex text has two digits per byte.
pub(crate) proof fn lemma_hex_lower_len(d: Seq<u8>)
    ensures
        hex_lower(d).len() == 2 * d.len(),
    decreases d.len(),
{
    if d.len() > 0 {
        lemma_hex_lower_len(d.drop_last());
    }
}

/// The two hex digits of byte `j` stand at `2 * j` and `2 * j + 1`.
pub(crate) proof fn lemma_hex_lower_index(d: Seq<u8>, j: int)
    requires
        0 <= j < d.len(),
    ensures
        hex_lower(d)[2 * j] == hex_digit(d[j] as int / 16),
        hex_lower(d)[2 * j + 1] == hex_digit(d[j] as int % 16),
    decreases d.len(),
{
    let p = d.drop_last();
    lemma_hex_lower_len(p);
    if j < d.len() - 1 {
        lemma_hex_lower_index(p, j);
        assert(p[j] == d[j]);
    }
}

/// A hex digit is the ASCII byte of its value's digit.
pub(crate) proof fn lemma_hex_digit_byte(v: int)
    requires
        0 <= v < 16,
    ensures
        v < 10 ==> hex_digit(v) as u8 == 0x30 + v,
        v >= 10 ==> hex_digit(v) as u8 == 0x61 + v - 10,
        '\0' <= hex_digit(v) <= '\u{7f}',
{
}

/// Decimal text is at least one digit long, and every character is a digit.
pub(crate) proof fn lemma_decimal_digits(n: nat)
    ensures
        decimal(n).len() >= 1,
        forall|k: int| 0 <= k < decimal(n).len() ==> '0' <= #[trigger] decimal(n)[k] <= '9',
    decreases n,
{
    if n >= 10 {
        lemma_decimal_digits(n / 10);
        let p = decimal(n / 10);
        assert forall|k: int| 0 <= k < decimal(n).len() implies '0' <= #[trigger] decimal(n)[k] <= '9' by {
            if k < p.len() {
                assert(decimal(n)[k] == p[k]);
            }
        }
    }
}

} // verus!
