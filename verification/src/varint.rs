//! The two variable-length integer encodings of the node's files: the
//! base-128 varint of the LevelDB block index, and the CompactSize
//! integer of the block data.
use vstd::prelude::*;
use vstd::bytes::*;
use crate::reader::{ByteReader, ReadError};
use crate::text::{decimal, u64_to_decimal};

verus! {

/// What decoding a LevelDB varint from a byte sequence comes to.
pub enum VarintOutcome {
    /// The input ended before the last byte of the number.
    Eof,
    /// The number does not fit in a `u64` (the node never writes such a number).
    TooLarge,
    /// The number, and how many bytes it took.
    Done(u64, nat),
}

/// Largest accumulator that can still be shifted left by seven bits.
pub open spec fn varint_shift_bound() -> int {
    0x01FF_FFFF_FFFF_FFFF
}

/// Decodes the rest of a LevelDB varint whose value so far is `n`.
///
/// Every byte contributes its low seven bits, most significant group first;
/// a set high bit means another byte follows, and then one is added to the
/// value, so that every number has exactly one encoding.
pub open spec fn varint_from(s: Seq<u8>, n: int) -> VarintOutcome
    decreases s.len(),
{
    if s.len() == 0 {
        VarintOutcome::Eof
    } else if n > varint_shift_bound() {
        VarintOutcome::TooLarge
    } else {
        let m = n * 128 + (s[0] % 128) as int;
        if s[0] >= 128 {
            if m == u64::MAX as int {
                VarintOutcome::TooLarge
            } else {
                match varint_from(s.drop_first(), m + 1) {
                    VarintOutcome::Done(v, k) => VarintOutcome::Done(v, k + 1),
                    other => other,
                }
            }
        } else {
            VarintOutcome::Done(m as u64, 1)
        }
    }
}

/// The LevelDB varint at the start of `s`.
pub open spec fn leveldb_varint(s: Seq<u8>) -> VarintOutcome {
    varint_from(s, 0)
}

/// Adds `k` to the byte count of a finished decoding.
pub open spec fn shift_outcome(o: VarintOutcome, k: nat) -> VarintOutcome {
    match o {
        VarintOutcome::Done(v, j) => VarintOutcome::Done(v, j + k),
        other => other,
    }
}

proof fn lemma_varint_from_bounds(s: Seq<u8>, n: int)
    requires
        0 <= n <= u64::MAX,
    ensures
        varint_from(s, n) matches VarintOutcome::Done(v, k) ==> 1 <= k <= s.len(),
    decreases s.len(),
{
    if s.len() > 0 && n <= varint_shift_bound() {
        let m = n * 128 + (s[0] % 128) as int;
        if s[0] >= 128 && m != u64::MAX as int {
            lemma_varint_from_bounds(s.drop_first(), m + 1);
        }
    }
}

/// A finished decoding takes at least one byte and no more than there are.
pub proof fn lemma_varint_bounds(s: Seq<u8>)
    ensures
        leveldb_varint(s) matches VarintOutcome::Done(v, k) ==> 1 <= k <= s.len(),
{
    lemma_varint_from_bounds(s, 0);
}

/// One step of the decoder as an executable result.
pub(crate) enum VarintStep {
    Eof,
    TooLarge,
    Done(u64),
}

/// Decodes a LevelDB varint, reporting an oversized number instead of stopping.
pub(crate) fn decode_varint(reader: &mut ByteReader) -> (res: VarintStep)
    ensures
        final(reader).data == old(reader).data,
        match leveldb_varint(old(reader).rest()) {
            VarintOutcome::Eof => res is Eof,
            VarintOutcome::TooLarge => res is TooLarge,
            VarintOutcome::Done(v, k) => res == VarintStep::Done(v) && final(reader).rest()
                == old(reader).rest().skip(k as int),
        },
{
    let ghost s0 = reader.rest();
    let ghost mut used: nat = 0;
    let mut n: u64 = 0;
    loop
        invariant
            reader.data == old(reader).data,
            s0 == old(reader).rest(),
            used <= s0.len(),
            reader.rest() == s0.skip(used as int),
            leveldb_varint(s0) == shift_outcome(varint_from(reader.rest(), n as int), used),
        decreases reader.rest().len(),
    {
        let ghost before = reader.rest();
        let b = match reader.read_u8() {
            Ok(b) => b,
            Err(_) => {
                return VarintStep::Eof;
            },
        };
        proof {
            assert(before.len() >= 1);
        }
        if n > 0x01FF_FFFF_FFFF_FFFFu64 {
            return VarintStep::TooLarge;
        }
        let low: u64 = (b & 0x7f) as u64;
        assert(b & 0x7f == b % 128) by (bit_vector);
        assert(n <= 0x01FF_FFFF_FFFF_FFFFu64 ==> (n << 7u64) | low == n * 128 + low) by (bit_vector)
            requires
                low < 128,
        ;
        let m: u64 = (n << 7u64) | low;
        if b & 0x80 != 0 {
            assert(b & 0x80 != 0 <==> b >= 128) by (bit_vector);
            if m == u64::MAX {
                return VarintStep::TooLarge;
            }
            n = m + 1;
            proof {
                used = used + 1;
                assert(reader.rest() =~= s0.skip(used as int));
            }
        } else {
            assert(b & 0x80 == 0 <==> b < 128) by (bit_vector);
            proof {
                assert(reader.rest() =~= s0.skip(used + 1 as int));
            }
            return VarintStep::Done(m);
        }
    }
}

/// Reads a LevelDB varint.
///
/// Fails when the input ends inside the number; `requires` leaves out the
/// numbers that do not fit in a `u64`, on which the node's format is never written.
pub fn read_varint(reader: &mut ByteReader) -> (res: Result<u64, ReadError>)
    requires
        !(leveldb_varint(old(reader).rest()) is TooLarge),
    ensures
        final(reader).data == old(reader).data,
        match leveldb_varint(old(reader).rest()) {
            VarintOutcome::Done(v, k) => res == Ok::<u64, ReadError>(v) && final(reader).rest()
                == old(reader).rest().skip(k as int),
            _ => res == Err::<u64, ReadError>(ReadError::UnexpectedEof),
        },
{
    match decode_varint(reader) {
        VarintStep::Done(v) => Ok(v),
        _ => Err(ReadError::UnexpectedEof),
    }
}

/// Whether the varint at the reader's position is too large for a `u64`;
/// the reader itself is left where it was.
pub fn varint_too_large(reader: &ByteReader) -> (res: bool)
    ensures
        res == leveldb_varint(reader.rest()) is TooLarge,
{
    let mut probe = ByteReader { data: reader.data, pos: reader.pos };
    match decode_varint(&mut probe) {
        VarintStep::TooLarge => true,
        _ => false,
    }
}

// ---------------------------------------------------------------------------
// CompactSize
// ---------------------------------------------------------------------------

/// The CompactSize number at the start of `s` and the bytes it takes.
///
/// A first byte up to `0xfc` is the number itself; `0xfd`, `0xfe` and `0xff`
/// announce a little-endian `u16`, `u32` or `u64` in the bytes that follow.
pub open spec fn compact_size(s: Seq<u8>) -> Option<(u64, nat)> {
    if s.len() == 0 {
        None
    } else if s[0] <= 0xfc {
        Some((s[0] as u64, 1))
    } else if s[0] == 0xfd {
        if s.len() >= 3 { Some((spec_u16_from_le_bytes(s.subrange(1, 3)) as u64, 3)) } else { None }
    } else if s[0] == 0xfe {
        if s.len() >= 5 { Some((spec_u32_from_le_bytes(s.subrange(1, 5)) as u64, 5)) } else { None }
    } else {
        if s.len() >= 9 { Some((spec_u64_from_le_bytes(s.subrange(1, 9)), 9)) } else { None }
    }
}

/// Variable length integer, also known as CompactSize: the value together
/// with the raw bytes it was read from or will be written as.
#[derive(Debug, Clone)]
pub struct VarUint {
    pub value: u64,
    buf: Vec<u8>,
}

impl VarUint {
    /// The number this integer stands for.
    pub closed spec fn val(&self) -> u64 {
        self.value
    }

    /// The raw bytes of this integer.
    pub closed spec fn bytes(&self) -> Seq<u8> {
        self.buf@
    }

    /// A well-formed integer: its bytes decode, in full, to its value.
    pub closed spec fn wf(&self) -> bool {
        compact_size(self.bytes()) == Some((self.val(), self.bytes().len()))
    }

    fn new(value: u64, buf: Vec<u8>) -> (r: VarUint)
        ensures
            r.val() == value,
            r.bytes() == buf@,
    {
        VarUint { value, buf }
    }

    /// The single-byte form; only values up to `0xfc` read back as themselves.
    pub fn from_u8(value: u8) -> (r: VarUint)
        ensures
            r.val() == value as u64,
            r.bytes() == seq![value],
            value <= 0xfc ==> r.wf(),
    {
        let mut buf: Vec<u8> = Vec::with_capacity(1);
        buf.push(value);
        VarUint::new(value as u64, buf)
    }

    /// The `0xfd`-prefixed form.
    pub fn from_u16(value: u16) -> (r: VarUint)
        ensures
            r.val() == value as u64,
            r.bytes() == seq![0xfdu8] + spec_u16_to_le_bytes(value),
            r.wf(),
    {
        let mut buf: Vec<u8> = Vec::with_capacity(3);
        buf.push(0xfd);
        let mut le = u16_to_le_bytes(value);
        buf.append(&mut le);
        proof {
            lemma_auto_spec_u16_to_from_le_bytes();
            assert(buf@.subrange(1, 3) =~= spec_u16_to_le_bytes(value));
            assert(buf@ =~= seq![0xfdu8] + spec_u16_to_le_bytes(value));
        }
        VarUint::new(value as u64, buf)
    }

    /// The `0xfe`-prefixed form.
    pub fn from_u32(value: u32) -> (r: VarUint)
        ensures
            r.val() == value as u64,
            r.bytes() == seq![0xfeu8] + spec_u32_to_le_bytes(value),
            r.wf(),
    {
        let mut buf: Vec<u8> = Vec::with_capacity(5);
        buf.push(0xfe);
        let mut le = u32_to_le_bytes(value);
        buf.append(&mut le);
        proof {
            lemma_auto_spec_u32_to_from_le_bytes();
            assert(buf@.subrange(1, 5) =~= spec_u32_to_le_bytes(value));
            assert(buf@ =~= seq![0xfeu8] + spec_u32_to_le_bytes(value));
        }
        VarUint::new(value as u64, buf)
    }

    /// The `0xff`-prefixed form.
    pub fn from_u64(value: u64) -> (r: VarUint)
        ensures
            r.val() == value,
            r.bytes() == seq![0xffu8] + spec_u64_to_le_bytes(value),
            r.wf(),
    {
        let mut buf: Vec<u8> = Vec::with_capacity(9);
        buf.push(0xff);
        let mut le = u64_to_le_bytes(value);
        buf.append(&mut le);
        proof {
            lemma_auto_spec_u64_to_from_le_bytes();
            assert(buf@.subrange(1, 9) =~= spec_u64_to_le_bytes(value));
            assert(buf@ =~= seq![0xffu8] + spec_u64_to_le_bytes(value));
        }
        VarUint::new(value, buf)
    }

    /// Reads a CompactSize integer, keeping the bytes exactly as they were found.
    pub fn read_from(reader: &mut ByteReader) -> (res: Result<VarUint, ReadError>)
        ensures
            final(reader).data == old(reader).data,
            match compact_size(old(reader).rest()) {
                Some((v, k)) => res is Ok && res.unwrap().val() == v && res.unwrap().bytes()
                    == old(reader).rest().take(k as int) && final(reader).rest() == old(
                    reader,
                ).rest().skip(k as int),
                None => res is Err,
            },
    {
        let ghost s = reader.rest();
        let first = reader.read_u8()?;
        proof {
            lemma_auto_spec_u16_to_from_le_bytes();
            lemma_auto_spec_u32_to_from_le_bytes();
            lemma_auto_spec_u64_to_from_le_bytes();
        }
        if first <= 0xfc {
            let r = VarUint::from_u8(first);
            assert(r.bytes() =~= s.take(1));
            Ok(r)
        } else if first == 0xfd {
            let v = reader.read_u16_le()?;
            let r = VarUint::from_u16(v);
            assert(s.skip(1).take(2) =~= s.subrange(1, 3));
            assert(r.bytes() =~= s.take(3));
            assert(reader.rest() =~= s.skip(3));
            Ok(r)
        } else if first == 0xfe {
            let v = reader.read_u32_le()?;
            let r = VarUint::from_u32(v);
            assert(s.skip(1).take(4) =~= s.subrange(1, 5));
            assert(r.bytes() =~= s.take(5));
            assert(reader.rest() =~= s.skip(5));
            Ok(r)
        } else {
            let v = reader.read_u64_le()?;
            let r = VarUint::from_u64(v);
            assert(s.skip(1).take(8) =~= s.subrange(1, 9));
            assert(r.bytes() =~= s.take(9));
            assert(reader.rest() =~= s.skip(9));
            Ok(r)
        }
    }

    /// The value as decimal text.
    pub fn to_text(&self) -> (r: String)
        ensures
            r@ == decimal(self.val() as nat),
    {
        u64_to_decimal(self.value)
    }

    /// The raw bytes of this integer.
    pub fn to_bytes(&self) -> (r: Vec<u8>)
        ensures
            r@ == self.bytes(),
    {
        self.buf.clone()
    }
}

/// Reading back the bytes of a well-formed integer (what `from_u16`,
/// `from_u32` and `from_u64` build, and `from_u8` for values up to `0xfc`)
/// gives its value and consumes exactly those bytes, whatever follows them.
pub proof fn law_compact_size_roundtrip(x: VarUint, tail: Seq<u8>)
    requires
        x.wf(),
    ensures
        compact_size(x.bytes() + tail) == Some((x.val(), x.bytes().len())),
{
    let s = x.bytes() + tail;
    let b = x.bytes();
    if b[0] == 0xfd {
        assert(s.subrange(1, 3) =~= b.subrange(1, 3));
    } else if b[0] == 0xfe {
        assert(s.subrange(1, 5) =~= b.subrange(1, 5));
    } else if b[0] > 0xfe {
        assert(s.subrange(1, 9) =~= b.subrange(1, 9));
    }
}

} // verus!
