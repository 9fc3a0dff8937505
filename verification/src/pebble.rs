//! Byte encodings of the keys and values kept in the key-value store.
//!
//! Integers are stored big-endian so that the byte order of keys follows the
//! numeric order of unsigned values; a pair is the bytes of its first part,
//! which has a fixed size, followed by the bytes of its second part.
use vstd::prelude::*;
use vstd::utf8::{decode_utf8, encode_utf8, valid_utf8};
use vstd::string::StringSliceAdditionalSpecFns;
use vstd::slice::slice_to_vec;
use crate::script::utf8_string;

verus! {

broadcast use vstd::utf8::encode_utf8_decode_utf8, vstd::utf8::encode_utf8_valid_utf8;

/// Why stored bytes could not be read back.
#[derive(Clone, Copy, Debug, PartialEq, Eq)]
pub enum PebbleError {
    /// The bytes do not have the length of the fixed-size value.
    WrongLength,
    /// The bytes are not UTF-8 text.
    InvalidUtf8,
}

/// `256` to the power `n`.
pub open spec fn pow256(n: nat) -> nat
    decreases n,
{
    if n == 0 {
        1
    } else {
        256 * pow256((n - 1) as nat)
    }
}

/// The `n` lowest bytes of `x`, most significant first.
pub open spec fn be_bytes(x: nat, n: nat) -> Seq<u8>
    decreases n,
{
    if n == 0 {
        Seq::empty()
    } else {
        be_bytes(x / 256, (n - 1) as nat).push((x % 256) as u8)
    }
}

/// The number whose big-endian bytes are `s`.
pub open spec fn be_value(s: Seq<u8>) -> nat
    decreases s.len(),
{
    if s.len() == 0 {
        0
    } else {
        be_value(s.drop_last()) * 256 + s.last() as nat
    }
}

/// The powers of `256` that give the ranges of the integer types.
proof fn lemma_pow256_values()
    ensures
        pow256(1) == 0x100,
        pow256(2) == 0x1_0000,
        pow256(4) == 0x1_0000_0000,
        pow256(8) == 0x1_0000_0000_0000_0000,
        pow256(15) == 0x100_0000_0000_0000_0000_0000_0000_0000,
        pow256(16) == 0x1_0000_0000_0000_0000_0000_0000_0000_0000,
{
    reveal_with_fuel(pow256, 17);
}

/// `n` big-endian bytes are exactly `n` bytes.
proof fn lemma_be_bytes_len(x: nat, n: nat)
    ensures
        be_bytes(x, n).len() == n,
    decreases n,
{
    if n > 0 {
        lemma_be_bytes_len(x / 256, (n - 1) as nat);
    }
}

/// Powers of `256` are positive and grow with the exponent.
proof fn lemma_pow256_monotone(m: nat, n: nat)
    requires
        m <= n,
    ensures
        0 < pow256(m) <= pow256(n),
    decreases n,
{
    if n > m {
        lemma_pow256_monotone(m, (n - 1) as nat);
    } else if n > 0 {
        lemma_pow256_monotone(0, (n - 1) as nat);
    }
}

/// The value of `n` bytes is below `256` to the `n`.
proof fn lemma_be_value_bound(s: Seq<u8>)
    ensures
        be_value(s) < pow256(s.len()),
    decreases s.len(),
{
    if s.len() > 0 {
        let t = s.drop_last();
        lemma_be_value_bound(t);
        let v = be_value(t);
        let p = pow256(t.len());
        assert(v * 256 + s.last() < 256 * p) by (nonlinear_arith)
            requires
                v < p,
                s.last() < 256,
        ;
    }
}

/// Reading back the `n` bytes of a number below `256` to the `n` gives the
/// number.
proof fn lemma_be_roundtrip(x: nat, n: nat)
    requires
        x < pow256(n),
    ensures
        be_value(be_bytes(x, n)) == x,
    decreases n,
{
    if n > 0 {
        let p = pow256((n - 1) as nat);
        assert(x / 256 < p) by (nonlinear_arith)
            requires
                x < 256 * p,
        ;
        lemma_be_roundtrip(x / 256, (n - 1) as nat);
        let s = be_bytes(x, n);
        assert(s.drop_last() =~= be_bytes(x / 256, (n - 1) as nat));
        assert(x == 256 * (x / 256) + x % 256) by (nonlinear_arith);
    }
}

/// Writing the value of some bytes with as many bytes gives them back.
proof fn lemma_be_bytes_of_value(s: Seq<u8>)
    ensures
        be_bytes(be_value(s), s.len()) == s,
    decreases s.len(),
{
    if s.len() > 0 {
        let t = s.drop_last();
        lemma_be_bytes_of_value(t);
        let v = be_value(s);
        let w = be_value(t);
        assert(v / 256 == w && v % 256 == s.last()) by (nonlinear_arith)
            requires
                v == w * 256 + s.last(),
                s.last() < 256,
        ;
        assert(be_bytes(v, s.len()) =~= t.push(s.last()));
    }
}

/// The `n` lowest bytes of `x`, most significant first.
fn be_encode(x: u128, n: usize) -> (r: Vec<u8>)
    ensures
        r@ == be_bytes(x as nat, n as nat),
    decreases n,
{
    if n == 0 {
        Vec::new()
    } else {
        let mut r = be_encode(x / 256, n - 1);
        r.push((x % 256) as u8);
        r
    }
}

/// The number whose big-endian bytes are `b`, for at most sixteen bytes.
fn be_decode(b: &[u8]) -> (r: u128)
    requires
        b@.len() <= 16,
    ensures
        r == be_value(b@),
{
    let mut acc: u128 = 0;
    let mut i: usize = 0;
    while i < b.len()
        invariant
            i <= b@.len() <= 16,
            acc == be_value(b@.take(i as int)),
        decreases b@.len() - i,
    {
        proof {
            lemma_be_value_bound(b@.take(i as int));
            lemma_pow256_monotone(i as nat, 15);
            lemma_pow256_values();
            assert(b@.take(i as int + 1).drop_last() =~= b@.take(i as int));
        }
        acc = acc * 256 + b[i] as u128;
        i = i + 1;
    }
    assert(b@.take(b@.len() as int) =~= b@);
    acc
}

/// A type whose values have a byte encoding in the store.
///
/// `encode` gives the bytes of a value; `decodes_to` says which value a run of
/// bytes is read as. Every implementation proves that the bytes of a value are
/// read back as that value.
pub trait Pebble {
    /// The type of the values stored.
    type Inner;

    /// The length of every encoding, where it is fixed.
    spec fn fixed_len() -> Option<usize>;

    /// Whether a value can be written (the writer does not panic on it).
    spec fn can_encode(v: Self::Inner) -> bool;

    /// The bytes of a value.
    spec fn encode(v: Self::Inner) -> Seq<u8>;

    /// Whether bytes can be handed to the reader (it does not panic on them).
    spec fn can_decode(b: Seq<u8>) -> bool;

    /// Whether the reader accepts the bytes.
    spec fn decodable(b: Seq<u8>) -> bool;

    /// Whether the bytes are read as the value.
    spec fn decodes_to(b: Seq<u8>, v: Self::Inner) -> bool;

    /// The error the reader gives for bytes it does not accept.
    spec fn decode_error(b: Seq<u8>) -> PebbleError;

    /// Whether two values are equal as the type's `==` compares them (by
    /// contents, for text and lists).
    spec fn same_value(v1: Self::Inner, v2: Self::Inner) -> bool;

    /// The length of every encoding, where it is fixed.
    fn fixed_size() -> (r: Option<usize>)
        ensures
            r == Self::fixed_len(),
    ;

    /// The bytes of a value.
    fn get_bytes(v: &Self::Inner) -> (r: Vec<u8>)
        requires
            Self::can_encode(*v),
        ensures
            r@ == Self::encode(*v),
    ;

    /// Reads a value back from its bytes.
    fn from_bytes(b: &[u8]) -> (r: Result<Self::Inner, PebbleError>)
        requires
            Self::can_decode(b@),
        ensures
            match r {
                Ok(v) => Self::decodable(b@) && Self::decodes_to(b@, v),
                Err(e) => !Self::decodable(b@) && e == Self::decode_error(b@),
            },
    ;

    /// Where the length is fixed, every value's bytes have that length.
    proof fn lemma_fixed_len(v: Self::Inner)
        requires
            Self::can_encode(v),
        ensures
            Self::fixed_len() matches Some(n) ==> Self::encode(v).len() == n,
    ;

    /// The bytes of a value, where the reader takes them, are read back as
    /// that value.
    proof fn lemma_encode_decodes(v: Self::Inner)
        requires
            Self::can_encode(v),
            Self::can_decode(Self::encode(v)),
        ensures
            Self::decodable(Self::encode(v)),
            Self::decodes_to(Self::encode(v), v),
    ;

    /// Bytes are read as one value only: two values read from the same
    /// bytes are equal.
    proof fn lemma_decodes_to_unique(b: Seq<u8>, v1: Self::Inner, v2: Self::Inner)
        requires
            Self::decodes_to(b, v1),
            Self::decodes_to(b, v2),
        ensures
            Self::same_value(v1, v2),
    ;
}

impl Pebble for u8 {
    type Inner = u8;

    open spec fn fixed_len() -> Option<usize> {
        Some(1)
    }

    open spec fn can_encode(v: u8) -> bool {
        true
    }

    open spec fn encode(v: u8) -> Seq<u8> {
        be_bytes(v as nat, 1)
    }

    open spec fn can_decode(b: Seq<u8>) -> bool {
        true
    }

    open spec fn decodable(b: Seq<u8>) -> bool {
        b.len() == 1
    }

    open spec fn decodes_to(b: Seq<u8>, v: u8) -> bool {
        b.len() == 1 && be_value(b) == v as nat
    }

    open spec fn decode_error(b: Seq<u8>) -> PebbleError {
        PebbleError::WrongLength
    }

    fn fixed_size() -> (r: Option<usize>) {
        Some(1)
    }

    fn get_bytes(v: &u8) -> (r: Vec<u8>) {
        be_encode(*v as u128, 1)
    }

    fn from_bytes(b: &[u8]) -> (r: Result<u8, PebbleError>) {
        if b.len() != 1 {
            return Err(PebbleError::WrongLength);
        }
        let x = be_decode(b);
        proof {
            lemma_be_value_bound(b@);
            lemma_pow256_values();
        }
        Ok(x as u8)
    }

    open spec fn same_value(v1: u8, v2: u8) -> bool {
        v1 == v2
    }

    proof fn lemma_decodes_to_unique(b: Seq<u8>, v1: u8, v2: u8) {
    }

    proof fn lemma_fixed_len(v: u8) {
        lemma_be_bytes_len(v as nat, 1);
    }

    proof fn lemma_encode_decodes(v: u8) {
        lemma_be_bytes_len(v as nat, 1);
        lemma_pow256_values();
        lemma_be_roundtrip(v as nat, 1);
    }
}

impl Pebble for i8 {
    type Inner = i8;

    open spec fn fixed_len() -> Option<usize> {
        Some(1)
    }

    open spec fn can_encode(v: i8) -> bool {
        true
    }

    open spec fn encode(v: i8) -> Seq<u8> {
        be_bytes((v as u8) as nat, 1)
    }

    open spec fn can_decode(b: Seq<u8>) -> bool {
        true
    }

    open spec fn decodable(b: Seq<u8>) -> bool {
        b.len() == 1
    }

    open spec fn decodes_to(b: Seq<u8>, v: i8) -> bool {
        b.len() == 1 && be_value(b) == (v as u8) as nat
    }

    open spec fn decode_error(b: Seq<u8>) -> PebbleError {
        PebbleError::WrongLength
    }

    fn fixed_size() -> (r: Option<usize>) {
        Some(1)
    }

    fn get_bytes(v: &i8) -> (r: Vec<u8>) {
        be_encode((*v as u8) as u128, 1)
    }

    fn from_bytes(b: &[u8]) -> (r: Result<i8, PebbleError>) {
        if b.len() != 1 {
            return Err(PebbleError::WrongLength);
        }
        let x = be_decode(b);
        proof {
            lemma_be_value_bound(b@);
            lemma_pow256_values();
        }
        let y = x as u8;
        assert((y as i8) as u8 == y) by (bit_vector);
        Ok(y as i8)
    }

    open spec fn same_value(v1: i8, v2: i8) -> bool {
        v1 == v2
    }

    proof fn lemma_decodes_to_unique(b: Seq<u8>, v1: i8, v2: i8) {
        assert(v1 as u8 == v2 as u8 ==> v1 == v2) by (bit_vector);
    }

    proof fn lemma_fixed_len(v: i8) {
        lemma_be_bytes_len((v as u8) as nat, 1);
    }

    proof fn lemma_encode_decodes(v: i8) {
        lemma_be_bytes_len((v as u8) as nat, 1);
        lemma_pow256_values();
        lemma_be_roundtrip((v as u8) as nat, 1);
    }
}

impl Pebble for u16 {
    type Inner = u16;

    open spec fn fixed_len() -> Option<usize> {
        Some(2)
    }

    open spec fn can_encode(v: u16) -> bool {
        true
    }

    open spec fn encode(v: u16) -> Seq<u8> {
        be_bytes(v as nat, 2)
    }

    open spec fn can_decode(b: Seq<u8>) -> bool {
        true
    }

    open spec fn decodable(b: Seq<u8>) -> bool {
        b.len() == 2
    }

    open spec fn decodes_to(b: Seq<u8>, v: u16) -> bool {
        b.len() == 2 && be_value(b) == v as nat
    }

    open spec fn decode_error(b: Seq<u8>) -> PebbleError {
        PebbleError::WrongLength
    }

    fn fixed_size() -> (r: Option<usize>) {
        Some(2)
    }

    fn get_bytes(v: &u16) -> (r: Vec<u8>) {
        be_encode(*v as u128, 2)
    }

    fn from_bytes(b: &[u8]) -> (r: Result<u16, PebbleError>) {
        if b.len() != 2 {
            return Err(PebbleError::WrongLength);
        }
        let x = be_decode(b);
        proof {
            lemma_be_value_bound(b@);
            lemma_pow256_values();
        }
        Ok(x as u16)
    }

    open spec fn same_value(v1: u16, v2: u16) -> bool {
        v1 == v2
    }

    proof fn lemma_decodes_to_unique(b: Seq<u8>, v1: u16, v2: u16) {
    }

    proof fn lemma_fixed_len(v: u16) {
        lemma_be_bytes_len(v as nat, 2);
    }

    proof fn lemma_encode_decodes(v: u16) {
        lemma_be_bytes_len(v as nat, 2);
        lemma_pow256_values();
        lemma_be_roundtrip(v as nat, 2);
    }
}

impl Pebble for i16 {
    type Inner = i16;

    open spec fn fixed_len() -> Option<usize> {
        Some(2)
    }

    open spec fn can_encode(v: i16) -> bool {
        true
    }

    open spec fn encode(v: i16) -> Seq<u8> {
        be_bytes((v as u16) as nat, 2)
    }

    open spec fn can_decode(b: Seq<u8>) -> bool {
        true
    }

    open spec fn decodable(b: Seq<u8>) -> bool {
        b.len() == 2
    }

    open spec fn decodes_to(b: Seq<u8>, v: i16) -> bool {
        b.len() == 2 && be_value(b) == (v as u16) as nat
    }

    open spec fn decode_error(b: Seq<u8>) -> PebbleError {
        PebbleError::WrongLength
    }

    fn fixed_size() -> (r: Option<usize>) {
        Some(2)
    }

    fn get_bytes(v: &i16) -> (r: Vec<u8>) {
        be_encode((*v as u16) as u128, 2)
    }

    fn from_bytes(b: &[u8]) -> (r: Result<i16, PebbleError>) {
        if b.len() != 2 {
            return Err(PebbleError::WrongLength);
        }
        let x = be_decode(b);
        proof {
            lemma_be_value_bound(b@);
            lemma_pow256_values();
        }
        let y = x as u16;
        assert((y as i16) as u16 == y) by (bit_vector);
        Ok(y as i16)
    }

    open spec fn same_value(v1: i16, v2: i16) -> bool {
        v1 == v2
    }

    proof fn lemma_decodes_to_unique(b: Seq<u8>, v1: i16, v2: i16) {
        assert(v1 as u16 == v2 as u16 ==> v1 == v2) by (bit_vector);
    }

    proof fn lemma_fixed_len(v: i16) {
        lemma_be_bytes_len((v as u16) as nat, 2);
    }

    proof fn lemma_encode_decodes(v: i16) {
        lemma_be_bytes_len((v as u16) as nat, 2);
        lemma_pow256_values();
        lemma_be_roundtrip((v as u16) as nat, 2);
    }
}

impl Pebble for u32 {
    type Inner = u32;

    open spec fn fixed_len() -> Option<usize> {
        Some(4)
    }

    open spec fn can_encode(v: u32) -> bool {
        true
    }

    open spec fn encode(v: u32) -> Seq<u8> {
        be_bytes(v as nat, 4)
    }

    open spec fn can_decode(b: Seq<u8>) -> bool {
        true
    }

    open spec fn decodable(b: Seq<u8>) -> bool {
        b.len() == 4
    }

    open spec fn decodes_to(b: Seq<u8>, v: u32) -> bool {
        b.len() == 4 && be_value(b) == v as nat
    }

    open spec fn decode_error(b: Seq<u8>) -> PebbleError {
        PebbleError::WrongLength
    }

    fn fixed_size() -> (r: Option<usize>) {
        Some(4)
    }

    fn get_bytes(v: &u32) -> (r: Vec<u8>) {
        be_encode(*v as u128, 4)
    }

    fn from_bytes(b: &[u8]) -> (r: Result<u32, PebbleError>) {
        if b.len() != 4 {
            return Err(PebbleError::WrongLength);
        }
        let x = be_decode(b);
        proof {
            lemma_be_value_bound(b@);
            lemma_pow256_values();
        }
        Ok(x as u32)
    }

    open spec fn same_value(v1: u32, v2: u32) -> bool {
        v1 == v2
    }

    proof fn lemma_decodes_to_unique(b: Seq<u8>, v1: u32, v2: u32) {
    }

    proof fn lemma_fixed_len(v: u32) {
        lemma_be_bytes_len(v as nat, 4);
    }

    proof fn lemma_encode_decodes(v: u32) {
        lemma_be_bytes_len(v as nat, 4);
        lemma_pow256_values();
        lemma_be_roundtrip(v as nat, 4);
    }
}

impl Pebble for i32 {
    type Inner = i32;

    open spec fn fixed_len() -> Option<usize> {
        Some(4)
    }

    open spec fn can_encode(v: i32) -> bool {
        true
    }

    open spec fn encode(v: i32) -> Seq<u8> {
        be_bytes((v as u32) as nat, 4)
    }

    open spec fn can_decode(b: Seq<u8>) -> bool {
        true
    }

    open spec fn decodable(b: Seq<u8>) -> bool {
        b.len() == 4
    }

    open spec fn decodes_to(b: Seq<u8>, v: i32) -> bool {
        b.len() == 4 && be_value(b) == (v as u32) as nat
    }

    open spec fn decode_error(b: Seq<u8>) -> PebbleError {
        PebbleError::WrongLength
    }

    fn fixed_size() -> (r: Option<usize>) {
        Some(4)
    }

    fn get_bytes(v: &i32) -> (r: Vec<u8>) {
        be_encode((*v as u32) as u128, 4)
    }

    fn from_bytes(b: &[u8]) -> (r: Result<i32, PebbleError>) {
        if b.len() != 4 {
            return Err(PebbleError::WrongLength);
        }
        let x = be_decode(b);
        proof {
            lemma_be_value_bound(b@);
            lemma_pow256_values();
        }
        let y = x as u32;
        assert((y as i32) as u32 == y) by (bit_vector);
        Ok(y as i32)
    }

    open spec fn same_value(v1: i32, v2: i32) -> bool {
        v1 == v2
    }

    proof fn lemma_decodes_to_unique(b: Seq<u8>, v1: i32, v2: i32) {
        assert(v1 as u32 == v2 as u32 ==> v1 == v2) by (bit_vector);
    }

    proof fn lemma_fixed_len(v: i32) {
        lemma_be_bytes_len((v as u32) as nat, 4);
    }

    proof fn lemma_encode_decodes(v: i32) {
        lemma_be_bytes_len((v as u32) as nat, 4);
        lemma_pow256_values();
        lemma_be_roundtrip((v as u32) as nat, 4);
    }
}

impl Pebble for u64 {
    type Inner = u64;

    open spec fn fixed_len() -> Option<usize> {
        Some(8)
    }

    open spec fn can_encode(v: u64) -> bool {
        true
    }

    open spec fn encode(v: u64) -> Seq<u8> {
        be_bytes(v as nat, 8)
    }

    open spec fn can_decode(b: Seq<u8>) -> bool {
        true
    }

    open spec fn decodable(b: Seq<u8>) -> bool {
        b.len() == 8
    }

    open spec fn decodes_to(b: Seq<u8>, v: u64) -> bool {
        b.len() == 8 && be_value(b) == v as nat
    }

    open spec fn decode_error(b: Seq<u8>) -> PebbleError {
        PebbleError::WrongLength
    }

    fn fixed_size() -> (r: Option<usize>) {
        Some(8)
    }

    fn get_bytes(v: &u64) -> (r: Vec<u8>) {
        be_encode(*v as u128, 8)
    }

    fn from_bytes(b: &[u8]) -> (r: Result<u64, PebbleError>) {
        if b.len() != 8 {
            return Err(PebbleError::WrongLength);
        }
        let x = be_decode(b);
        proof {
            lemma_be_value_bound(b@);
            lemma_pow256_values();
        }
        Ok(x as u64)
    }

    open spec fn same_value(v1: u64, v2: u64) -> bool {
        v1 == v2
    }

    proof fn lemma_decodes_to_unique(b: Seq<u8>, v1: u64, v2: u64) {
    }

    proof fn lemma_fixed_len(v: u64) {
        lemma_be_bytes_len(v as nat, 8);
    }

    proof fn lemma_encode_decodes(v: u64) {
        lemma_be_bytes_len(v as nat, 8);
        lemma_pow256_values();
        lemma_be_roundtrip(v as nat, 8);
    }
}

impl Pebble for i64 {
    type Inner = i64;

    open spec fn fixed_len() -> Option<usize> {
        Some(8)
    }

    open spec fn can_encode(v: i64) -> bool {
        true
    }

    open spec fn encode(v: i64) -> Seq<u8> {
        be_bytes((v as u64) as nat, 8)
    }

    open spec fn can_decode(b: Seq<u8>) -> bool {
        true
    }

    open spec fn decodable(b: Seq<u8>) -> bool {
        b.len() == 8
    }

    open spec fn decodes_to(b: Seq<u8>, v: i64) -> bool {
        b.len() == 8 && be_value(b) == (v as u64) as nat
    }

    open spec fn decode_error(b: Seq<u8>) -> PebbleError {
        PebbleError::WrongLength
    }

    fn fixed_size() -> (r: Option<usize>) {
        Some(8)
    }

    fn get_bytes(v: &i64) -> (r: Vec<u8>) {
        be_encode((*v as u64) as u128, 8)
    }

    fn from_bytes(b: &[u8]) -> (r: Result<i64, PebbleError>) {
        if b.len() != 8 {
            return Err(PebbleError::WrongLength);
        }
        let x = be_decode(b);
        proof {
            lemma_be_value_bound(b@);
            lemma_pow256_values();
        }
        let y = x as u64;
        assert((y as i64) as u64 == y) by (bit_vector);
        Ok(y as i64)
    }

    open spec fn same_value(v1: i64, v2: i64) -> bool {
        v1 == v2
    }

    proof fn lemma_decodes_to_unique(b: Seq<u8>, v1: i64, v2: i64) {
        assert(v1 as u64 == v2 as u64 ==> v1 == v2) by (bit_vector);
    }

    proof fn lemma_fixed_len(v: i64) {
        lemma_be_bytes_len((v as u64) as nat, 8);
    }

    proof fn lemma_encode_decodes(v: i64) {
        lemma_be_bytes_len((v as u64) as nat, 8);
        lemma_pow256_values();
        lemma_be_roundtrip((v as u64) as nat, 8);
    }
}

impl Pebble for u128 {
    type Inner = u128;

    open spec fn fixed_len() -> Option<usize> {
        Some(16)
    }

    open spec fn can_encode(v: u128) -> bool {
        true
    }

    open spec fn encode(v: u128) -> Seq<u8> {
        be_bytes(v as nat, 16)
    }

    open spec fn can_decode(b: Seq<u8>) -> bool {
        true
    }

    open spec fn decodable(b: Seq<u8>) -> bool {
        b.len() == 16
    }

    open spec fn decodes_to(b: Seq<u8>, v: u128) -> bool {
        b.len() == 16 && be_value(b) == v as nat
    }

    open spec fn decode_error(b: Seq<u8>) -> PebbleError {
        PebbleError::WrongLength
    }

    fn fixed_size() -> (r: Option<usize>) {
        Some(16)
    }

    fn get_bytes(v: &u128) -> (r: Vec<u8>) {
        be_encode(*v as u128, 16)
    }

    fn from_bytes(b: &[u8]) -> (r: Result<u128, PebbleError>) {
        if b.len() != 16 {
            return Err(PebbleError::WrongLength);
        }
        let x = be_decode(b);
        proof {
            lemma_be_value_bound(b@);
            lemma_pow256_values();
        }
        Ok(x as u128)
    }

    open spec fn same_value(v1: u128, v2: u128) -> bool {
        v1 == v2
    }

    proof fn lemma_decodes_to_unique(b: Seq<u8>, v1: u128, v2: u128) {
    }

    proof fn lemma_fixed_len(v: u128) {
        lemma_be_bytes_len(v as nat, 16);
    }

    proof fn lemma_encode_decodes(v: u128) {
        lemma_be_bytes_len(v as nat, 16);
        lemma_pow256_values();
        lemma_be_roundtrip(v as nat, 16);
    }
}

impl Pebble for i128 {
    type Inner = i128;

    open spec fn fixed_len() -> Option<usize> {
        Some(16)
    }

    open spec fn can_encode(v: i128) -> bool {
        true
    }

    open spec fn encode(v: i128) -> Seq<u8> {
        be_bytes((v as u128) as nat, 16)
    }

    open spec fn can_decode(b: Seq<u8>) -> bool {
        true
    }

    open spec fn decodable(b: Seq<u8>) -> bool {
        b.len() == 16
    }

    open spec fn decodes_to(b: Seq<u8>, v: i128) -> bool {
        b.len() == 16 && be_value(b) == (v as u128) as nat
    }

    open spec fn decode_error(b: Seq<u8>) -> PebbleError {
        PebbleError::WrongLength
    }

    fn fixed_size() -> (r: Option<usize>) {
        Some(16)
    }

    fn get_bytes(v: &i128) -> (r: Vec<u8>) {
        be_encode((*v as u128) as u128, 16)
    }

    fn from_bytes(b: &[u8]) -> (r: Result<i128, PebbleError>) {
        if b.len() != 16 {
            return Err(PebbleError::WrongLength);
        }
        let x = be_decode(b);
        proof {
            lemma_be_value_bound(b@);
            lemma_pow256_values();
        }
        let y = x as u128;
        assert((y as i128) as u128 == y) by (bit_vector);
        Ok(y as i128)
    }

    open spec fn same_value(v1: i128, v2: i128) -> bool {
        v1 == v2
    }

    proof fn lemma_decodes_to_unique(b: Seq<u8>, v1: i128, v2: i128) {
        assert(v1 as u128 == v2 as u128 ==> v1 == v2) by (bit_vector);
    }

    proof fn lemma_fixed_len(v: i128) {
        lemma_be_bytes_len((v as u128) as nat, 16);
    }

    proof fn lemma_encode_decodes(v: i128) {
        lemma_be_bytes_len((v as u128) as nat, 16);
        lemma_pow256_values();
        lemma_be_roundtrip((v as u128) as nat, 16);
    }
}

impl Pebble for () {
    type Inner = ();

    open spec fn fixed_len() -> Option<usize> {
        Some(0)
    }

    open spec fn can_encode(v: ()) -> bool {
        true
    }

    open spec fn encode(v: ()) -> Seq<u8> {
        Seq::empty()
    }

    open spec fn can_decode(b: Seq<u8>) -> bool {
        true
    }

    open spec fn decodable(b: Seq<u8>) -> bool {
        true
    }

    open spec fn decodes_to(b: Seq<u8>, v: ()) -> bool {
        true
    }

    open spec fn decode_error(b: Seq<u8>) -> PebbleError {
        PebbleError::WrongLength
    }

    fn fixed_size() -> (r: Option<usize>) {
        Some(0)
    }

    fn get_bytes(v: &()) -> (r: Vec<u8>) {
        Vec::new()
    }

    fn from_bytes(b: &[u8]) -> (r: Result<(), PebbleError>) {
        Ok(())
    }

    open spec fn same_value(v1: (), v2: ()) -> bool {
        v1 == v2
    }

    proof fn lemma_decodes_to_unique(b: Seq<u8>, v1: (), v2: ()) {
    }

    proof fn lemma_fixed_len(v: ()) {
    }

    proof fn lemma_encode_decodes(v: ()) {
    }
}

impl Pebble for String {
    type Inner = String;

    open spec fn fixed_len() -> Option<usize> {
        None
    }

    open spec fn can_encode(v: String) -> bool {
        true
    }

    open spec fn encode(v: String) -> Seq<u8> {
        encode_utf8(v@)
    }

    open spec fn can_decode(b: Seq<u8>) -> bool {
        true
    }

    open spec fn decodable(b: Seq<u8>) -> bool {
        valid_utf8(b)
    }

    open spec fn decodes_to(b: Seq<u8>, v: String) -> bool {
        valid_utf8(b) && v@ == decode_utf8(b)
    }

    open spec fn decode_error(b: Seq<u8>) -> PebbleError {
        PebbleError::InvalidUtf8
    }

    fn fixed_size() -> (r: Option<usize>) {
        None
    }

    fn get_bytes(v: &String) -> (r: Vec<u8>) {
        slice_to_vec(v.as_str().as_bytes())
    }

    fn from_bytes(b: &[u8]) -> (r: Result<String, PebbleError>) {
        match utf8_string(slice_to_vec(b)) {
            Some(s) => Ok(s),
            None => Err(PebbleError::InvalidUtf8),
        }
    }

    open spec fn same_value(v1: String, v2: String) -> bool {
        v1@ == v2@
    }

    proof fn lemma_decodes_to_unique(b: Seq<u8>, v1: String, v2: String) {
    }

    proof fn lemma_fixed_len(v: String) {
    }

    proof fn lemma_encode_decodes(v: String) {
    }
}

impl<const N: usize> Pebble for [u8; N] {
    type Inner = [u8; N];

    open spec fn fixed_len() -> Option<usize> {
        None
    }

    open spec fn can_encode(v: [u8; N]) -> bool {
        true
    }

    open spec fn encode(v: [u8; N]) -> Seq<u8> {
        v@
    }

    open spec fn can_decode(b: Seq<u8>) -> bool {
        b.len() == N
    }

    open spec fn decodable(b: Seq<u8>) -> bool {
        true
    }

    open spec fn decodes_to(b: Seq<u8>, v: [u8; N]) -> bool {
        v@ == b
    }

    open spec fn decode_error(b: Seq<u8>) -> PebbleError {
        PebbleError::WrongLength
    }

    fn fixed_size() -> (r: Option<usize>) {
        None
    }

    fn get_bytes(v: &[u8; N]) -> (r: Vec<u8>) {
        slice_to_vec(v.as_slice())
    }

    fn from_bytes(b: &[u8]) -> (r: Result<[u8; N], PebbleError>) {
        let mut a = [0u8; N];
        let mut i: usize = 0;
        while i < N
            invariant
                i <= N,
                b@.len() == N,
                a@.len() == N,
                forall|j: int| 0 <= j < i ==> a@[j] == b@[j],
            decreases N - i,
        {
            a[i] = b[i];
            i = i + 1;
        }
        assert(a@ =~= b@);
        Ok(a)
    }

    open spec fn same_value(v1: [u8; N], v2: [u8; N]) -> bool {
        v1@ == v2@
    }

    proof fn lemma_decodes_to_unique(b: Seq<u8>, v1: [u8; N], v2: [u8; N]) {
    }

    proof fn lemma_fixed_len(v: [u8; N]) {
    }

    proof fn lemma_encode_decodes(v: [u8; N]) {
    }
}

impl<K0: Pebble, K1: Pebble> Pebble for (K0, K1) {
    type Inner = (K0::Inner, K1::Inner);

    open spec fn fixed_len() -> Option<usize> {
        None
    }

    open spec fn can_encode(v: (K0::Inner, K1::Inner)) -> bool {
        &&& K0::fixed_len() is Some
        &&& K0::can_encode(v.0)
        &&& K1::can_encode(v.1)
    }

    open spec fn encode(v: (K0::Inner, K1::Inner)) -> Seq<u8> {
        K0::encode(v.0) + K1::encode(v.1)
    }

    open spec fn can_decode(b: Seq<u8>) -> bool {
        match K0::fixed_len() {
            Some(n) => n <= b.len() && K0::can_decode(b.take(n as int)) && K1::can_decode(
                b.skip(n as int),
            ),
            None => false,
        }
    }

    open spec fn decodable(b: Seq<u8>) -> bool {
        let n = K0::fixed_len()->0 as int;
        K0::decodable(b.take(n)) && K1::decodable(b.skip(n))
    }

    open spec fn decodes_to(b: Seq<u8>, v: (K0::Inner, K1::Inner)) -> bool {
        let n = K0::fixed_len()->0 as int;
        K0::decodes_to(b.take(n), v.0) && K1::decodes_to(b.skip(n), v.1)
    }

    open spec fn decode_error(b: Seq<u8>) -> PebbleError {
        let n = K0::fixed_len()->0 as int;
        if !K0::decodable(b.take(n)) {
            K0::decode_error(b.take(n))
        } else {
            K1::decode_error(b.skip(n))
        }
    }

    fn fixed_size() -> (r: Option<usize>) {
        None
    }

    fn get_bytes(v: &(K0::Inner, K1::Inner)) -> (r: Vec<u8>) {
        let mut buf = K0::get_bytes(&v.0);
        let mut rest = K1::get_bytes(&v.1);
        buf.append(&mut rest);
        buf
    }

    fn from_bytes(b: &[u8]) -> (r: Result<(K0::Inner, K1::Inner), PebbleError>) {
        let n = match K0::fixed_size() {
            Some(n) => n,
            None => {
                assert(false);
                0
            },
        };
        let (first, second) = b.split_at(n);
        assert(first@ =~= b@.take(n as int));
        assert(second@ =~= b@.skip(n as int));
        let k0 = match K0::from_bytes(first) {
            Ok(k0) => k0,
            Err(e) => {
                return Err(e);
            },
        };
        let k1 = match K1::from_bytes(second) {
            Ok(k1) => k1,
            Err(e) => {
                return Err(e);
            },
        };
        Ok((k0, k1))
    }

    open spec fn same_value(v1: (K0::Inner, K1::Inner), v2: (K0::Inner, K1::Inner)) -> bool {
        K0::same_value(v1.0, v2.0) && K1::same_value(v1.1, v2.1)
    }

    proof fn lemma_decodes_to_unique(b: Seq<u8>, v1: (K0::Inner, K1::Inner), v2: (K0::Inner, K1::Inner)) {
        let n = K0::fixed_len()->0 as int;
        K0::lemma_decodes_to_unique(b.take(n), v1.0, v2.0);
        K1::lemma_decodes_to_unique(b.skip(n), v1.1, v2.1);
    }

    proof fn lemma_fixed_len(v: (K0::Inner, K1::Inner)) {
    }

    proof fn lemma_encode_decodes(v: (K0::Inner, K1::Inner)) {
        K0::lemma_fixed_len(v.0);
        let e0 = K0::encode(v.0);
        let e1 = K1::encode(v.1);
        assert((e0 + e1).take(e0.len() as int) =~= e0);
        assert((e0 + e1).skip(e0.len() as int) =~= e1);
        K0::lemma_encode_decodes(v.0);
        K1::lemma_encode_decodes(v.1);
    }
}

/// Reading back the bytes of a pair gives that pair (equal part by part as
/// `==` compares them), where the first part has a fixed size.
pub proof fn law_pair_roundtrip<K0: Pebble, K1: Pebble>(
    a: K0::Inner,
    b: K1::Inner,
    x: (K0::Inner, K1::Inner),
)
    requires
        <(K0, K1) as Pebble>::can_encode((a, b)),
        <(K0, K1) as Pebble>::can_decode(<(K0, K1) as Pebble>::encode((a, b))),
        <(K0, K1) as Pebble>::decodes_to(<(K0, K1) as Pebble>::encode((a, b)), x),
    ensures
        <(K0, K1) as Pebble>::decodable(<(K0, K1) as Pebble>::encode((a, b))),
        <(K0, K1) as Pebble>::same_value(x, (a, b)),
{
    let e = <(K0, K1) as Pebble>::encode((a, b));
    <(K0, K1) as Pebble>::lemma_encode_decodes((a, b));
    <(K0, K1) as Pebble>::lemma_decodes_to_unique(e, x, (a, b));
}

/// The bytes of a list of values: their bytes one after the other.
pub open spec fn encode_all<T: Pebble<Inner = T>>(s: Seq<T>) -> Seq<u8>
    decreases s.len(),
{
    if s.len() == 0 {
        Seq::empty()
    } else {
        encode_all(s.drop_last()) + T::encode(s.last())
    }
}

/// The pieces a reader cuts bytes into: `n` bytes each, the last one
/// possibly shorter.
pub open spec fn chunk_rest(b: Seq<u8>, n: nat) -> Seq<u8> {
    if b.len() <= n {
        Seq::empty()
    } else {
        b.skip(n as int)
    }
}

/// The first piece of `b` when cut into pieces of `n` bytes.
pub open spec fn chunk_first(b: Seq<u8>, n: nat) -> Seq<u8> {
    if b.len() <= n {
        b
    } else {
        b.take(n as int)
    }
}

/// Every piece of `b`, cut into pieces of `n` bytes, can be handed to the
/// reader of `T`.
pub open spec fn chunks_can_decode<T: Pebble<Inner = T>>(b: Seq<u8>, n: nat) -> bool
    decreases b.len(),
{
    if b.len() == 0 || n == 0 {
        true
    } else {
        T::can_decode(chunk_first(b, n)) && chunks_can_decode::<T>(chunk_rest(b, n), n)
    }
}

/// Every piece of `b` is accepted by the reader of `T`.
pub open spec fn chunks_decodable<T: Pebble<Inner = T>>(b: Seq<u8>, n: nat) -> bool
    decreases b.len(),
{
    if b.len() == 0 || n == 0 {
        true
    } else {
        T::decodable(chunk_first(b, n)) && chunks_decodable::<T>(chunk_rest(b, n), n)
    }
}

/// The pieces of `b` are read as the values `v`, one each, in order.
pub open spec fn chunks_decode_to<T: Pebble<Inner = T>>(b: Seq<u8>, n: nat, v: Seq<T>) -> bool
    decreases b.len(),
{
    if b.len() == 0 || n == 0 {
        v.len() == 0
    } else {
        &&& v.len() > 0
        &&& T::decodes_to(chunk_first(b, n), v[0])
        &&& chunks_decode_to::<T>(chunk_rest(b, n), n, v.drop_first())
    }
}

/// The error of the first piece of `b` that the reader of `T` refuses.
pub open spec fn chunks_error<T: Pebble<Inner = T>>(b: Seq<u8>, n: nat) -> PebbleError
    decreases b.len(),
{
    if b.len() == 0 || n == 0 {
        PebbleError::WrongLength
    } else if !T::decodable(chunk_first(b, n)) {
        T::decode_error(chunk_first(b, n))
    } else {
        chunks_error::<T>(chunk_rest(b, n), n)
    }
}

/// Bytes cut into pieces of `n` bytes are read as one list of values only.
proof fn lemma_chunks_unique<T: Pebble<Inner = T>>(b: Seq<u8>, n: nat, s1: Seq<T>, s2: Seq<T>)
    requires
        chunks_decode_to::<T>(b, n, s1),
        chunks_decode_to::<T>(b, n, s2),
    ensures
        s1.len() == s2.len(),
        forall|i: int| 0 <= i < s1.len() ==> T::same_value(#[trigger] s1[i], s2[i]),
    decreases b.len(),
{
    if b.len() > 0 && n > 0 {
        T::lemma_decodes_to_unique(chunk_first(b, n), s1[0], s2[0]);
        lemma_chunks_unique::<T>(chunk_rest(b, n), n, s1.drop_first(), s2.drop_first());
        assert forall|i: int| 0 <= i < s1.len() implies T::same_value(#[trigger] s1[i], s2[i]) by {
            if i > 0 {
                assert(s1[i] == s1.drop_first()[i - 1]);
                assert(s2[i] == s2.drop_first()[i - 1]);
            }
        }
    }
}

/// The bytes of `x` followed by those of `s` are those of `x` and then `s`.
proof fn lemma_encode_all_front<T: Pebble<Inner = T>>(x: T, s: Seq<T>)
    ensures
        encode_all(seq![x] + s) == T::encode(x) + encode_all(s),
    decreases s.len(),
{
    let t = seq![x] + s;
    if s.len() == 0 {
        assert(t.drop_last() =~= Seq::<T>::empty());
        assert(t.last() == x);
        assert(encode_all(t.drop_last()) =~= Seq::<u8>::empty());
        assert(encode_all(s) =~= Seq::<u8>::empty());
        assert(encode_all(t) =~= T::encode(x) + encode_all(s));
    } else {
        assert(t.drop_last() =~= seq![x] + s.drop_last());
        assert(t.last() == s.last());
        lemma_encode_all_front(x, s.drop_last());
        assert(encode_all(t) =~= T::encode(x) + encode_all(s));
    }
}

/// Cuts `b` into pieces of `n` bytes and reads each one.
fn decode_chunks<T: Pebble<Inner = T>>(b: &[u8], n: usize) -> (r: Result<Vec<T>, PebbleError>)
    requires
        n > 0,
        chunks_can_decode::<T>(b@, n as nat),
    ensures
        match r {
            Ok(v) => chunks_decodable::<T>(b@, n as nat) && chunks_decode_to::<T>(b@, n as nat, v@),
            Err(e) => !chunks_decodable::<T>(b@, n as nat) && e == chunks_error::<T>(b@, n as nat),
        },
    decreases b@.len(),
{
    if b.len() == 0 {
        return Ok(Vec::new());
    }
    let m = if b.len() <= n { b.len() } else { n };
    let (first, rest) = b.split_at(m);
    assert(first@ =~= chunk_first(b@, n as nat));
    assert(rest@ =~= chunk_rest(b@, n as nat));
    let x = match T::from_bytes(first) {
        Ok(x) => x,
        Err(e) => {
            return Err(e);
        },
    };
    let mut tail = match decode_chunks::<T>(rest, n) {
        Ok(t) => t,
        Err(e) => {
            return Err(e);
        },
    };
    let ghost tv = tail@;
    tail.insert(0, x);
    assert(tail@.drop_first() =~= tv);
    Ok(tail)
}

impl<T: Pebble<Inner = T>> Pebble for Vec<T> {
    type Inner = Vec<T>;

    open spec fn fixed_len() -> Option<usize> {
        None
    }

    open spec fn can_encode(v: Vec<T>) -> bool {
        forall|i: int| 0 <= i < v@.len() ==> T::can_encode(#[trigger] v@[i])
    }

    open spec fn encode(v: Vec<T>) -> Seq<u8> {
        encode_all(v@)
    }

    open spec fn can_decode(b: Seq<u8>) -> bool {
        match T::fixed_len() {
            Some(n) => n > 0 && chunks_can_decode::<T>(b, n as nat),
            None => false,
        }
    }

    open spec fn decodable(b: Seq<u8>) -> bool {
        chunks_decodable::<T>(b, T::fixed_len()->0 as nat)
    }

    open spec fn decodes_to(b: Seq<u8>, v: Vec<T>) -> bool {
        chunks_decode_to::<T>(b, T::fixed_len()->0 as nat, v@)
    }

    open spec fn decode_error(b: Seq<u8>) -> PebbleError {
        chunks_error::<T>(b, T::fixed_len()->0 as nat)
    }

    fn fixed_size() -> (r: Option<usize>) {
        None
    }

    fn get_bytes(v: &Vec<T>) -> (r: Vec<u8>) {
        let mut out: Vec<u8> = Vec::new();
        let mut i: usize = 0;
        while i < v.len()
            invariant
                i <= v@.len(),
                forall|j: int| 0 <= j < v@.len() ==> T::can_encode(#[trigger] v@[j]),
                out@ == encode_all(v@.take(i as int)),
            decreases v@.len() - i,
        {
            let mut piece = T::get_bytes(&v[i]);
            out.append(&mut piece);
            assert(v@.take(i as int + 1).drop_last() =~= v@.take(i as int));
            i = i + 1;
        }
        assert(v@.take(v@.len() as int) =~= v@);
        out
    }

    fn from_bytes(b: &[u8]) -> (r: Result<Vec<T>, PebbleError>) {
        let n = match T::fixed_size() {
            Some(n) => n,
            None => {
                assert(false);
                0
            },
        };
        decode_chunks::<T>(b, n)
    }

    open spec fn same_value(v1: Vec<T>, v2: Vec<T>) -> bool {
        v1@.len() == v2@.len() && forall|i: int| 0 <= i < v1@.len() ==> T::same_value(#[trigger] v1@[i], v2@[i])
    }

    proof fn lemma_decodes_to_unique(b: Seq<u8>, v1: Vec<T>, v2: Vec<T>) {
        lemma_chunks_unique::<T>(b, T::fixed_len()->0 as nat, v1@, v2@);
    }

    proof fn lemma_fixed_len(v: Vec<T>) {
    }

    proof fn lemma_encode_decodes(v: Vec<T>) {
        let n = T::fixed_len()->0;
        lemma_encode_decodes_all::<T>(v@, n);
    }
}

/// Reading back the bytes of a list of fixed-size values, cut into pieces of
/// that size, gives the values.
proof fn lemma_encode_decodes_all<T: Pebble<Inner = T>>(s: Seq<T>, n: usize)
    requires
        T::fixed_len() == Some(n),
        n > 0,
        forall|i: int| 0 <= i < s.len() ==> T::can_encode(#[trigger] s[i]),
        chunks_can_decode::<T>(encode_all(s), n as nat),
    ensures
        chunks_decodable::<T>(encode_all(s), n as nat),
        chunks_decode_to::<T>(encode_all(s), n as nat, s),
    decreases s.len(),
{
    if s.len() > 0 {
        let x = s[0];
        let t = s.drop_first();
        assert(s =~= seq![x] + t);
        lemma_encode_all_front(x, t);
        T::lemma_fixed_len(x);
        let ex = T::encode(x);
        let b = encode_all(s);
        assert(b =~= ex + encode_all(t));
        assert(ex.len() == n);
        if encode_all(t).len() == 0 {
            assert(chunk_first(b, n as nat) =~= ex);
            assert(chunk_rest(b, n as nat) =~= Seq::<u8>::empty());
            if t.len() > 0 {
                lemma_encode_all_front(t[0], t.drop_first());
                assert(t =~= seq![t[0]] + t.drop_first());
                T::lemma_fixed_len(t[0]);
            }
        } else {
            assert(chunk_first(b, n as nat) =~= ex);
            assert(chunk_rest(b, n as nat) =~= encode_all(t));
        }
        T::lemma_encode_decodes(x);
        assert forall|i: int| 0 <= i < t.len() implies T::can_encode(#[trigger] t[i]) by {
            assert(t[i] == s[i + 1]);
        }
        lemma_encode_decodes_all::<T>(t, n);
    }
}

/// A key made of two parts, the first of which has a fixed size: each part
/// can be written on its own.
pub trait MultiPebble {
    /// The first part, with a fixed size.
    type K0: Pebble;

    /// The second part.
    type K1: Pebble;

    /// Replaces the contents of `dest` with the bytes of the first part.
    fn get_bytes_k0_into(src: &<Self::K0 as Pebble>::Inner, dest: &mut Vec<u8>)
        requires
            <Self::K0 as Pebble>::can_encode(*src),
        ensures
            final(dest)@ == <Self::K0 as Pebble>::encode(*src),
    {
        let x = <Self::K0 as Pebble>::get_bytes(src);
        if x.len() > dest.len() {
            *dest = x;
        } else {
            dest.clear();
            dest.extend_from_slice(x.as_slice());
            assert(dest@ =~= x@);
        }
    }

    /// Appends the bytes of the second part to `dest`.
    fn get_bytes_k1_into(src: &<Self::K1 as Pebble>::Inner, dest: &mut Vec<u8>)
        requires
            <Self::K1 as Pebble>::can_encode(*src),
        ensures
            final(dest)@ == old(dest)@ + <Self::K1 as Pebble>::encode(*src),
    {
        let x = <Self::K1 as Pebble>::get_bytes(src);
        let ghost before = dest@;
        dest.extend_from_slice(x.as_slice());
        assert(dest@ =~= before + x@);
    }
}

impl<K0: Pebble, K1: Pebble> MultiPebble for (K0, K1) {
    type K0 = K0;

    type K1 = K1;
}

} // verus!
