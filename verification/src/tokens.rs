//! Token ticks, transaction and inscription ids, outputs, and the token
//! errors.
use vstd::prelude::*;
use vstd::utf8::{valid_utf8, decode_utf8};
use vstd::string::{StringExecFns, StringSliceAdditionalSpecFns, StrSliceExecFns};
use vstd::utf8::is_ascii_chars;
use crate::text::{
    string_push, hex_lower, hex_digit, arr_to_hex, decimal, dec_digit, u64_to_decimal, lemma_decimal_digits,
    lemma_hex_digit_byte, lemma_hex_lower_index, lemma_hex_lower_len,
};
use vstd::utf8::encode_utf8;

verus! {

/// Why a token action was refused.
#[derive(Clone, Copy, PartialEq, Eq, Debug)]
pub enum Brc4ActionErr {
    NotDeployed,
    AlreadyDeployed,
    ReachDecBound,
    ReachLimBound,
    SupplyMinted,
    InsufficientBalance,
    Transferred,
}

/// Why a token inscription could not be read.
#[derive(Clone, PartialEq, Eq, Debug)]
pub enum Brc4ParseErr {
    WrongContentType,
    WrongProtocol,
    DecimalEmpty,
    DecimalOverflow,
    DecimalPlusMinus,
    DecimalDotStartEnd,
    DecimalSpaces,
    InvalidDigit,
    InvalidUtf8,
    Unknown(String),
}

/// A token error: a refused action or an unreadable inscription.
#[derive(Clone, PartialEq, Eq, Debug)]
pub enum Brc4Error {
    Action(Brc4ActionErr),
    Parse(Brc4ParseErr),
}

/// Why a tick was refused.
#[derive(Debug, Clone, Copy, PartialEq, Eq)]
pub enum TickError {
    /// More than six bytes.
    TooLong,
}

/// The six bytes of a tick: the given bytes, padded with zeros.
pub open spec fn padded_tick(b: Seq<u8>) -> Seq<u8> {
    b + Seq::new((6 - b.len()) as nat, |i: int| 0u8)
}

/// The bytes of a tick before its first zero byte.
pub open spec fn tick_text_bytes(t: Seq<u8>) -> Seq<u8>
    decreases t.len(),
{
    if t.len() == 0 || t[0] == 0 {
        Seq::empty()
    } else {
        seq![t[0]] + tick_text_bytes(t.drop_first())
    }
}

/// The text of bytes decoded as UTF-8 with invalid sequences replaced.
pub uninterp spec fn utf8_lossy(b: Seq<u8>) -> Seq<char>;

/// `String::from_utf8_lossy`: the text of the bytes, named `utf8_lossy`;
/// for valid UTF-8 that is the decoded text.
#[verifier::external_body]
fn lossy_string(b: &[u8]) -> (r: String)
    ensures
        r@ == utf8_lossy(b@),
        valid_utf8(b@) ==> r@ == decode_utf8(b@),
{
    String::from_utf8_lossy(b).into_owned()
}

fn padded(b: &[u8]) -> (r: [u8; 6])
    requires
        b@.len() <= 6,
    ensures
        r@ == padded_tick(b@),
{
    let mut arr = [0u8; 6];
    let mut i: usize = 0;
    while i < b.len()
        invariant
            b@.len() <= 6,
            0 <= i <= b@.len(),
            forall|j: int| 0 <= j < i ==> arr@[j] == b@[j],
            forall|j: int| b@.len() <= j < 6 ==> arr@[j] == 0,
        decreases b@.len() - i,
    {
        arr[i] = b[i];
        i = i + 1;
    }
    assert(arr@ =~= padded_tick(b@));
    arr
}

fn tick_text(t: &[u8; 6]) -> (r: String)
    ensures
        r@ == utf8_lossy(tick_text_bytes(t@)),
{
    let mut len: usize = 0;
    assert(t@.skip(0) =~= t@);
    assert(t@.take(0) + tick_text_bytes(t@) =~= tick_text_bytes(t@));
    while len < 6 && t[len] != 0
        invariant
            0 <= len <= 6,
            tick_text_bytes(t@) == t@.take(len as int) + tick_text_bytes(t@.skip(len as int)),
        decreases 6 - len,
    {
        proof {
            let rest = t@.skip(len as int);
            assert(rest.drop_first() =~= t@.skip(len + 1));
            assert(t@.take(len + 1) =~= t@.take(len as int) + seq![rest[0]]);
        }
        len = len + 1;
    }
    proof {
        if len < 6 {
            assert(t@.skip(len as int)[0] == 0);
        }
        assert(t@.take(len as int) + Seq::<u8>::empty() =~= t@.take(len as int));
    }
    lossy_string(&t.as_slice()[0..len])
}

/// A token tick in the case it was deployed with: up to six bytes, padded
/// with zeros.
#[derive(Clone, Copy, PartialEq, Eq, Hash, Default)]
pub struct OriginalTokenTick(pub [u8; 6]);

impl OriginalTokenTick {
    /// The tick of up to six bytes; `Invalid byte length` for more.
    pub fn try_from(v: Vec<u8>) -> (r: Result<OriginalTokenTick, TickError>)
        ensures
            v@.len() > 6 ==> r == Err::<OriginalTokenTick, TickError>(TickError::TooLong),
            v@.len() <= 6 ==> (r matches Ok(t) && t.0@ == padded_tick(v@)),
    {
        if v.len() > 6 {
            return Err(TickError::TooLong);
        }
        Ok(OriginalTokenTick(padded(v.as_slice())))
    }

    /// The tick of a text of up to six bytes; `Invalid tick length` for more.
    pub fn from_str(s: &str) -> (r: Result<OriginalTokenTick, TickError>)
        ensures
            s.spec_bytes().len() > 6 ==> r == Err::<OriginalTokenTick, TickError>(TickError::TooLong),
            s.spec_bytes().len() <= 6 ==> (r matches Ok(t) && t.0@ == padded_tick(s.spec_bytes())),
    {
        let b = s.as_bytes();
        if b.len() > 6 {
            return Err(TickError::TooLong);
        }
        Ok(OriginalTokenTick(padded(b)))
    }

    /// The tick's six bytes.
    pub fn from_bytes(v: [u8; 6]) -> (r: OriginalTokenTick)
        ensures
            r.0 == v,
    {
        OriginalTokenTick(v)
    }

    /// The tick as the REST API shows it.
    pub fn from_rest(value: OriginalTokenTickRest) -> (r: OriginalTokenTick)
        ensures
            r.0 == value.0,
    {
        OriginalTokenTick(value.0)
    }

    /// The tick as text: its bytes before the first zero, read as UTF-8
    /// (invalid sequences replaced).
    pub fn to_text(&self) -> (r: String)
        ensures
            r@ == utf8_lossy(tick_text_bytes(self.0@)),
    {
        tick_text(&self.0)
    }
}

/// A token tick as the REST API reads and writes it: as its text.
#[derive(Clone, Copy, Hash, Eq, PartialEq)]
pub struct OriginalTokenTickRest(pub [u8; 6]);

impl OriginalTokenTickRest {
    /// The tick a REST client sends: its text's bytes, at most six, padded
    /// with zeros; `Invalid tick length` for more.
    pub fn from_text(s: &str) -> (r: Result<OriginalTokenTickRest, TickError>)
        ensures
            s.spec_bytes().len() > 6 ==> r == Err::<OriginalTokenTickRest, TickError>(TickError::TooLong),
            s.spec_bytes().len() <= 6 ==> (r matches Ok(t) && t.0@ == padded_tick(s.spec_bytes())),
    {
        let b = s.as_bytes();
        if b.len() > 6 {
            return Err(TickError::TooLong);
        }
        Ok(OriginalTokenTickRest(padded(b)))
    }

    /// The text a REST client gets: the bytes before the first zero, read as
    /// UTF-8 (invalid sequences replaced).
    pub fn to_text(&self) -> (r: String)
        ensures
            r@ == utf8_lossy(tick_text_bytes(self.0@)),
    {
        tick_text(&self.0)
    }

    /// The six bytes.
    pub fn as_ref(&self) -> (r: &[u8])
        ensures
            r@ == self.0@,
    {
        self.0.as_slice()
    }

    /// The same tick, for the REST API.
    pub fn from_tick(value: OriginalTokenTick) -> (r: OriginalTokenTickRest)
        ensures
            r.0 == value.0,
    {
        OriginalTokenTickRest(value.0)
    }
}

proof fn lemma_text_of_padded(b: Seq<u8>, n: nat)
    requires
        forall|i: int| 0 <= i < b.len() ==> b[i] != 0,
    ensures
        tick_text_bytes(b + Seq::new(n, |i: int| 0u8)) == b,
    decreases b.len(),
{
    let z = Seq::new(n, |i: int| 0u8);
    let p = b + z;
    if b.len() == 0 {
        assert(p =~= z);
        if p.len() > 0 {
            assert(p[0] == 0);
        }
    } else {
        let t = b.drop_first();
        lemma_text_of_padded(t, n);
        assert(p.drop_first() =~= t + z);
        assert(seq![b[0]] + t =~= b);
    }
}

/// The text of a tick that fits reads back as the same tick: a tick made
/// from at most six bytes, none of them zero, shows those bytes again.
pub proof fn law_tick_text_roundtrip(b: Seq<u8>)
    requires
        b.len() <= 6,
        forall|i: int| 0 <= i < b.len() ==> b[i] != 0,
    ensures
        tick_text_bytes(padded_tick(b)) == b,
{
    lemma_text_of_padded(b, (6 - b.len()) as nat);
}

/// A transaction id: 32 bytes, shown as hex in reverse byte order.
#[derive(Clone, Copy, PartialEq, Eq, Hash, Debug)]
pub struct Txid(pub [u8; 32]);

/// Why a hex text is not a transaction id.
#[derive(Debug, Clone, Copy, PartialEq, Eq)]
pub enum HexError {
    /// A character that is not a hex digit.
    InvalidChar(u8),
    /// `odd hex string length`
    OddLengthString(usize),
    /// `bad hex string length`: expected, found.
    InvalidLength(usize, usize),
}

/// The value of a hex digit byte.
pub open spec fn hex_val(c: u8) -> Option<u8> {
    if 0x30 <= c <= 0x39 {
        Some((c - 0x30) as u8)
    } else if 0x61 <= c <= 0x66 {
        Some((c - 0x61 + 10) as u8)
    } else if 0x41 <= c <= 0x46 {
        Some((c - 0x41 + 10) as u8)
    } else {
        None
    }
}

/// The 32 bytes a 64-digit hex text stands for when read backwards (the
/// last pair of digits is the first byte).
pub open spec fn txid_bytes(t: Seq<u8>) -> Option<Seq<u8>> {
    if t.len() == 64 && forall|i: int| 0 <= i < 64 ==> #[trigger] hex_val(t[i]) is Some {
        Some(Seq::new(32, |k: int| (hex_val(t[62 - 2 * k]).unwrap() * 16 + hex_val(t[63 - 2 * k]).unwrap()) as u8))
    } else {
        None
    }
}

/// `bellscoin::Txid::from_str`: the id a hex text stands for, as
/// `txid_bytes` states; which error a text gets is left unsaid.
#[verifier::external_body]
fn parse_txid_hex(s: &str) -> (r: Result<[u8; 32], HexError>)
    ensures
        match txid_bytes(s.spec_bytes()) {
            Some(b) => r matches Ok(a) && a@ == b,
            None => r is Err,
        },
{
    match <bellscoin::Txid as core::str::FromStr>::from_str(s) {
        Ok(t) => Ok(<bellscoin::Txid as bellscoin::hashes::Hash>::to_byte_array(t)),
        Err(bellscoin::hashes::hex::Error::InvalidChar(c)) => Err(HexError::InvalidChar(c)),
        Err(bellscoin::hashes::hex::Error::OddLengthString(n)) => Err(HexError::OddLengthString(n)),
        Err(bellscoin::hashes::hex::Error::InvalidLength(a, b)) => Err(HexError::InvalidLength(a, b)),
    }
}

/// The shown text of a transaction id: hex of its bytes in reverse order.
pub open spec fn txid_text(b: Seq<u8>) -> Seq<char> {
    hex_lower(b.reverse())
}

impl Txid {
    /// The id a 64-digit hex text stands for (read backwards).
    pub fn from_str(s: &str) -> (r: Result<Txid, HexError>)
        ensures
            match txid_bytes(s.spec_bytes()) {
                Some(b) => r matches Ok(t) && t.0@ == b,
                None => r is Err,
            },
    {
        let b = parse_txid_hex(s)?;
        Ok(Txid(b))
    }

    /// The id as hex, last byte first.
    pub fn to_text(&self) -> (r: String)
        ensures
            r@ == txid_text(self.0@),
    {
        let mut rev = [0u8; 32];
        let mut i: usize = 0;
        while i < 32
            invariant
                0 <= i <= 32,
                forall|j: int| 0 <= j < i ==> rev@[j] == self.0@[31 - j],
            decreases 32 - i,
        {
            rev[i] = self.0[31 - i];
            i = i + 1;
        }
        assert(rev@ =~= self.0@.reverse());
        arr_to_hex(rev.as_slice())
    }
}

/// A transaction output: the transaction's id and the output's index.
#[derive(Clone, Copy, PartialEq, Eq, Hash, Debug)]
pub struct OutPoint {
    pub txid: Txid,
    pub vout: u32,
}

impl OutPoint {
    /// The text of the output: `<txid>:<vout>`.
    pub fn to_text(&self) -> (r: String)
        ensures
            r@ == txid_text(self.txid.0@) + seq![':'] + decimal(self.vout as nat),
    {
        let mut out = self.txid.to_text();
        string_push(&mut out, ':');
        let v = u64_to_decimal(self.vout as u64);
        out.append(v.as_str());
        out
    }
}

/// A transfer inscription of a token that has not been spent yet: the output
/// that holds it and the amount it moves (a fixed-point amount, held as its
/// raw 128-bit value).
#[derive(Clone, Copy)]
pub struct TokenTransfer {
    pub outpoint: OutPoint,
    pub amount: u128,
}

/// An address's balance of one token as the REST API reports it: the whole
/// balance, the part locked in pending transfers, those transfers and how
/// many there are. Amounts are fixed-point, held as their raw 128-bit value.
#[derive(Clone)]
pub struct TokenBalanceRest {
    pub tick: OriginalTokenTickRest,
    pub balance: u128,
    pub transferable_balance: u128,
    pub transfers: Vec<TokenTransfer>,
    pub transfers_count: u64,
}

/// Why a number could not be read (as `str::parse::<u32>` reports it).
#[derive(Debug, Clone, Copy, PartialEq, Eq)]
pub enum IntErrorKind {
    Empty,
    InvalidDigit,
    PosOverflow,
}

/// Reads decimal digits onto `acc`, the way `u32::from_str` does: a
/// non-digit is an error, and so is a value past `u32::MAX`, whichever comes first.
pub open spec fn digits_value(d: Seq<u8>, acc: int) -> Result<u32, IntErrorKind>
    decreases d.len(),
{
    if d.len() == 0 {
        Ok(acc as u32)
    } else if !(0x30 <= d[0] <= 0x39) {
        Err(IntErrorKind::InvalidDigit)
    } else if acc * 10 + (d[0] - 0x30) > u32::MAX {
        Err(IntErrorKind::PosOverflow)
    } else {
        digits_value(d.drop_first(), acc * 10 + (d[0] - 0x30))
    }
}

/// `str::parse::<u32>` on text bytes: empty text is an error; one leading
/// `+` is allowed when digits follow it; then decimal digits.
pub open spec fn parse_u32_spec(s: Seq<u8>) -> Result<u32, IntErrorKind> {
    if s.len() == 0 {
        Err(IntErrorKind::Empty)
    } else if (s[0] == 0x2b || s[0] == 0x2d) && s.len() == 1 {
        Err(IntErrorKind::InvalidDigit)
    } else if s[0] == 0x2b {
        digits_value(s.drop_first(), 0)
    } else {
        digits_value(s, 0)
    }
}

/// Reads a `u32` from its decimal text (see `parse_u32_spec`).
pub fn parse_u32(s: &[u8]) -> (r: Result<u32, IntErrorKind>)
    ensures
        r == parse_u32_spec(s@),
{
    if s.len() == 0 {
        return Err(IntErrorKind::Empty);
    }
    if (s[0] == 0x2b || s[0] == 0x2d) && s.len() == 1 {
        return Err(IntErrorKind::InvalidDigit);
    }
    let start: usize = if s[0] == 0x2b { 1 } else { 0 };
    let ghost d = s@.skip(start as int);
    assert(start == 1 ==> d =~= s@.drop_first());
    assert(start == 0 ==> d =~= s@);
    let mut acc: u32 = 0;
    let mut i: usize = start;
    while i < s.len()
        invariant
            start <= i <= s@.len(),
            d == s@.skip(start as int),
            parse_u32_spec(s@) == digits_value(d, 0),
            digits_value(d, 0) == digits_value(s@.skip(i as int), acc as int),
        decreases s@.len() - i,
    {
        let c = s[i];
        proof {
            assert(s@.skip(i as int)[0] == c);
            assert(s@.skip(i as int).drop_first() =~= s@.skip(i + 1));
        }
        if !(0x30 <= c && c <= 0x39) {
            return Err(IntErrorKind::InvalidDigit);
        }
        let v = (c - 0x30) as u32;
        if acc > 429496729 || (acc == 429496729 && v > 5) {
            return Err(IntErrorKind::PosOverflow);
        }
        acc = acc * 10 + v;
        i = i + 1;
    }
    assert(s@.skip(i as int).len() == 0);
    Ok(acc)
}

/// Why an inscription id could not be read.
#[derive(Debug, Clone, Copy, PartialEq, Eq)]
pub enum ParseError {
    Character(char),
    Length(usize),
    Separator(char),
    Txid(HexError),
    Index(IntErrorKind),
}

/// An inscription: the transaction that revealed it and its index there.
#[derive(Clone, Copy, PartialEq, Eq, Hash, Debug)]
pub struct InscriptionId {
    pub txid: Txid,
    pub index: u32,
}

/// Index of the first non-ASCII character, if any.
pub open spec fn first_non_ascii(s: Seq<char>) -> Option<int>
    decreases s.len(),
{
    if s.len() == 0 {
        None
    } else if s[0] > '\u{7f}' {
        Some(0)
    } else {
        match first_non_ascii(s.drop_first()) {
            Some(i) => Some(i + 1),
            None => None,
        }
    }
}

/// What reading an inscription id from text comes to: `<64 hex digits>i<index>`.
/// For a bad id the hex error given here only marks the case: which error
/// the id's parser reports is its own.
pub open spec fn inscription_id_parse(s: Seq<char>, b: Seq<u8>) -> Result<(Seq<u8>, u32), ParseError> {
    match first_non_ascii(s) {
        Some(i) => Err(ParseError::Character(s[i])),
        None => if b.len() < 66 {
            Err(ParseError::Length(b.len() as usize))
        } else if b[64] != 0x69 {
            Err(ParseError::Separator(s[64]))
        } else {
            match txid_bytes(b.take(64)) {
                None => Err(ParseError::Txid(HexError::InvalidChar(0))),
                Some(t) => match parse_u32_spec(b.skip(65)) {
                    Err(e) => Err(ParseError::Index(e)),
                    Ok(v) => Ok((t, v)),
                },
            }
        },
    }
}

/// The text of an inscription id: the transaction id, `i`, and the index.
pub open spec fn inscription_id_text(txid: Seq<u8>, index: u32) -> Seq<char> {
    txid_text(txid) + seq!['i'] + decimal(index as nat)
}

impl InscriptionId {
    /// Reads `<txid>i<index>`: the text must be ASCII, at least 66 bytes, with
    /// an `i` after the 64 hex digits of the transaction id, and a `u32` index
    /// after it. Which hex error a bad transaction id gets is left to the
    /// coin's hash library.
    pub fn from_str(s: &str) -> (r: Result<InscriptionId, ParseError>)
        ensures
            match inscription_id_parse(s@, s.spec_bytes()) {
                Ok((t, v)) => r matches Ok(id) && id.txid.0@ == t && id.index == v,
                Err(ParseError::Txid(_)) => r matches Err(ParseError::Txid(_)),
                Err(e) => r == Err::<InscriptionId, ParseError>(e),
            },
    {
        if !s.is_ascii() {
            let n = s.unicode_len();
            let mut i: usize = 0;
            assert(s@.skip(0) =~= s@);
            while i < n
                invariant
                    n == s@.len(),
                    0 <= i <= n,
                    !is_ascii_chars(s@),
                    forall|j: int| 0 <= j < i ==> (#[trigger] s@[j]) <= '\u{7f}',
                    first_non_ascii(s@) == match first_non_ascii(s@.skip(i as int)) {
                        Some(j) => Some(j + i),
                        None => None,
                    },
                decreases n - i,
            {
                let c = s.get_char(i);
                proof {
                    assert(s@.skip(i as int)[0] == c);
                    assert(s@.skip(i as int).drop_first() =~= s@.skip(i + 1));
                }
                if c > '\u{7f}' {
                    return Err(ParseError::Character(c));
                }
                i = i + 1;
            }
            proof {
                assert forall|j: int| 0 <= j < s@.len() implies '\0' <= #[trigger] s@[j] <= '\u{7f}' by {
                    assert(s@[j] <= '\u{7f}');
                    char_at_least_nul(s@[j]);
                }
            }
            return vstd::pervasive::unreached();
        }
        proof {
            ascii_has_no_non_ascii(s@);
            vstd::utf8::is_ascii_chars_encode_utf8(s@);
        }
        let b = s.as_bytes();
        if b.len() < 66 {
            return Err(ParseError::Length(b.len()));
        }
        if b[64] != 0x69 {
            let c = s.get_char(64);
            return Err(ParseError::Separator(c));
        }
        let txid_text = s.substring_ascii(0, 64);
        proof {
            vstd::utf8::is_ascii_chars_encode_utf8(txid_text@);
            assert(txid_text.spec_bytes() =~= b@.take(64));
        }
        let txid = match Txid::from_str(txid_text) {
            Ok(t) => t,
            Err(e) => return Err(ParseError::Txid(e)),
        };
        let rest = &b[65..b.len()];
        assert(rest@ =~= b@.skip(65));
        let index = match parse_u32(rest) {
            Ok(v) => v,
            Err(e) => return Err(ParseError::Index(e)),
        };
        Ok(InscriptionId { txid, index })
    }

    /// The text of the id: `<txid>i<index>`.
    pub fn to_text(&self) -> (r: String)
        ensures
            r@ == inscription_id_text(self.txid.0@, self.index),
    {
        let mut out = self.txid.to_text();
        string_push(&mut out, 'i');
        let idx = u64_to_decimal(self.index as u64);
        out.append(idx.as_str());
        out
    }

    /// The output the inscription was revealed in.
    pub fn to_outpoint(&self) -> (r: OutPoint)
        ensures
            r.txid == self.txid,
            r.vout == self.index,
    {
        OutPoint { txid: self.txid, vout: self.index }
    }

    /// The inscription revealed in an output.
    pub fn from_outpoint(outpoint: OutPoint) -> (r: InscriptionId)
        ensures
            r.txid == outpoint.txid,
            r.index == outpoint.vout,
    {
        InscriptionId { txid: outpoint.txid, index: outpoint.vout }
    }
}

/// The text of a hex error, as `bellscoin`'s hex error shows it.
pub open spec fn hex_error_text(e: HexError) -> Seq<char> {
    match e {
        HexError::InvalidChar(c) => "invalid hex character "@ + decimal(c as nat),
        HexError::OddLengthString(n) => "odd hex string length "@ + decimal(n as nat),
        HexError::InvalidLength(expected, got) => "bad hex string length "@ + decimal(got as nat)
            + " (expected "@ + decimal(expected as nat) + ")"@,
    }
}

/// The text of a number error, as `std::num::ParseIntError` shows it.
pub open spec fn int_error_text(e: IntErrorKind) -> Seq<char> {
    match e {
        IntErrorKind::Empty => "cannot parse integer from empty string"@,
        IntErrorKind::InvalidDigit => "invalid digit found in string"@,
        IntErrorKind::PosOverflow => "number too large to fit in target type"@,
    }
}

/// The text of an inscription id error.
pub open spec fn parse_error_text(e: ParseError) -> Seq<char> {
    match e {
        ParseError::Character(c) => "invalid character: '"@ + seq![c] + "'"@,
        ParseError::Length(n) => "invalid length: "@ + decimal(n as nat),
        ParseError::Separator(c) => "invalid separator: `"@ + seq![c] + "`"@,
        ParseError::Txid(h) => "invalid txid: "@ + hex_error_text(h),
        ParseError::Index(k) => "invalid index: "@ + int_error_text(k),
    }
}

impl HexError {
    /// The error's text.
    pub fn message(&self) -> (r: String)
        ensures
            r@ == hex_error_text(*self),
    {
        match *self {
            HexError::InvalidChar(c) => {
                let mut out = String::from_str("invalid hex character ");
                let n = u64_to_decimal(c as u64);
                out.append(n.as_str());
                out
            },
            HexError::OddLengthString(n) => {
                let mut out = String::from_str("odd hex string length ");
                let t = u64_to_decimal(n as u64);
                out.append(t.as_str());
                out
            },
            HexError::InvalidLength(expected, got) => {
                let mut out = String::from_str("bad hex string length ");
                let g = u64_to_decimal(got as u64);
                out.append(g.as_str());
                out.append(" (expected ");
                let e = u64_to_decimal(expected as u64);
                out.append(e.as_str());
                out.append(")");
                out
            },
        }
    }
}

impl IntErrorKind {
    /// The error's text.
    pub fn message(&self) -> (r: String)
        ensures
            r@ == int_error_text(*self),
    {
        match *self {
            IntErrorKind::Empty => String::from_str("cannot parse integer from empty string"),
            IntErrorKind::InvalidDigit => String::from_str("invalid digit found in string"),
            IntErrorKind::PosOverflow => String::from_str("number too large to fit in target type"),
        }
    }
}

impl ParseError {
    /// The error's text.
    pub fn message(&self) -> (r: String)
        ensures
            r@ == parse_error_text(*self),
    {
        match *self {
            ParseError::Character(c) => {
                let mut out = String::from_str("invalid character: '");
                string_push(&mut out, c);
                string_push(&mut out, '\'');
                proof {
                    reveal_strlit("'");
                }
                out
            },
            ParseError::Length(n) => {
                let mut out = String::from_str("invalid length: ");
                let t = u64_to_decimal(n as u64);
                out.append(t.as_str());
                out
            },
            ParseError::Separator(c) => {
                let mut out = String::from_str("invalid separator: `");
                string_push(&mut out, c);
                string_push(&mut out, '`');
                proof {
                    reveal_strlit("`");
                }
                out
            },
            ParseError::Txid(h) => {
                let mut out = String::from_str("invalid txid: ");
                let t = h.message();
                out.append(t.as_str());
                out
            },
            ParseError::Index(k) => {
                let mut out = String::from_str("invalid index: ");
                let t = k.message();
                out.append(t.as_str());
                out
            },
        }
    }
}

/// The bytes of ASCII text, one per character.
pub open spec fn ascii_bytes(c: Seq<char>) -> Seq<u8> {
    c.map_values(|x: char| x as u8)
}

/// Reading the digits of `n` and then `rest` comes to reading `rest` on top
/// of `n`.
proof fn lemma_digits_of_decimal(n: nat, rest: Seq<u8>)
    requires
        n <= u32::MAX,
    ensures
        digits_value(ascii_bytes(decimal(n)) + rest, 0) == digits_value(rest, n as int),
    decreases n,
{
    let s = ascii_bytes(decimal(n)) + rest;
    if n < 10 {
        assert(ascii_bytes(decimal(n)) =~= seq![dec_digit(n as int) as u8]);
        assert(s.drop_first() =~= rest);
    } else {
        let b = dec_digit((n % 10) as int) as u8;
        let rest2 = seq![b] + rest;
        lemma_digits_of_decimal(n / 10, rest2);
        assert(ascii_bytes(decimal(n)) =~= ascii_bytes(decimal(n / 10)).push(b));
        assert(s =~= ascii_bytes(decimal(n / 10)) + rest2);
        assert(rest2.drop_first() =~= rest);
        assert((n / 10) * 10 + n % 10 == n);
    }
}

/// The decimal text of a `u32` reads back as that number.
pub proof fn law_decimal_parses(n: u32)
    ensures
        parse_u32_spec(ascii_bytes(decimal(n as nat))) == Ok::<u32, IntErrorKind>(n),
{
    lemma_decimal_digits(n as nat);
    lemma_digits_of_decimal(n as nat, Seq::empty());
    let d = ascii_bytes(decimal(n as nat));
    assert(d + Seq::<u8>::empty() =~= d);
    assert('0' <= decimal(n as nat)[0] <= '9');
}

/// A transaction id's text reads back as the same id.
pub proof fn law_txid_text_roundtrip(t: Seq<u8>)
    requires
        t.len() == 32,
    ensures
        txid_bytes(ascii_bytes(txid_text(t))) == Some(t),
{
    let r = t.reverse();
    let c = txid_text(t);
    lemma_hex_lower_len(r);
    let b = ascii_bytes(c);
    assert forall|j: int| 0 <= j < 32 implies hex_val(#[trigger] b[2 * j]) == Some((r[j] / 16) as u8) && hex_val(
        b[2 * j + 1],
    ) == Some((r[j] % 16) as u8) by {
        lemma_hex_lower_index(r, j);
        lemma_hex_digit_byte(r[j] as int / 16);
        lemma_hex_digit_byte(r[j] as int % 16);
    }
    assert forall|i: int| 0 <= i < 64 implies #[trigger] hex_val(b[i]) is Some by {
        let j = i / 2;
        if i % 2 == 0 {
            assert(i == 2 * j);
            assert(hex_val(b[2 * j]) is Some);
        } else {
            assert(i == 2 * j + 1);
            assert(hex_val(b[2 * j]) is Some);
        }
    }
    let out = Seq::new(32, |k: int| (hex_val(b[62 - 2 * k]).unwrap() * 16 + hex_val(b[63 - 2 * k]).unwrap()) as u8);
    assert forall|k: int| 0 <= k < 32 implies out[k] == t[k] by {
        let j = 31 - k;
        assert(62 - 2 * k == 2 * j);
        assert(hex_val(b[2 * j]) == Some((r[j] / 16) as u8));
        assert(r[j] == t[k]);
    }
    assert(out =~= t);
}

/// An inscription id's text reads back as the same id.
pub proof fn law_inscription_id_text_roundtrip(t: Seq<u8>, index: u32)
    requires
        t.len() == 32,
    ensures
        ({
            let c = inscription_id_text(t, index);
            inscription_id_parse(c, encode_utf8(c)) == Ok::<(Seq<u8>, u32), ParseError>((t, index))
        }),
{
    let h = txid_text(t);
    let d = decimal(index as nat);
    let c = inscription_id_text(t, index);
    lemma_hex_lower_len(t.reverse());
    lemma_decimal_digits(index as nat);
    assert forall|i: int| 0 <= i < c.len() implies '\0' <= #[trigger] c[i] <= '\u{7f}' by {
        if i < 64 {
            let j = i / 2;
            lemma_hex_lower_index(t.reverse(), j);
            lemma_hex_digit_byte(t.reverse()[j] as int / 16);
            lemma_hex_digit_byte(t.reverse()[j] as int % 16);
            if i % 2 == 0 {
                assert(c[i] == h[2 * j]);
            } else {
                assert(c[i] == h[2 * j + 1]);
            }
        } else if i > 64 {
            assert(c[i] == d[i - 65]);
            char_at_least_nul(c[i]);
        }
    }
    ascii_has_no_non_ascii(c);
    vstd::utf8::is_ascii_chars_encode_utf8(c);
    let b = encode_utf8(c);
    assert(b =~= ascii_bytes(c));
    assert(b.take(64) =~= ascii_bytes(h));
    assert(b.skip(65) =~= ascii_bytes(d));
    law_txid_text_roundtrip(t);
    law_decimal_parses(index);
}

proof fn char_at_least_nul(c: char)
    ensures
        '\0' <= c,
{
    vstd::utf8::char_is_scalar(c);
    assert(c as u32 >= 0);
}

proof fn ascii_has_no_non_ascii(s: Seq<char>)
    requires
        is_ascii_chars(s),
    ensures
        first_non_ascii(s) is None,
    decreases s.len(),
{
    if s.len() > 0 {
        assert(is_ascii_chars(s.drop_first()));
        ascii_has_no_non_ascii(s.drop_first());
    }
}

} // verus!
