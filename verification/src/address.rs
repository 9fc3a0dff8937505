//! Addresses: the coin's address parameters, address payloads and the
//! scripts they pay to, and turning an address (or a script hash written in
//! hex) into the SHA-256 "full hash" the indexer keys balances by.
use vstd::prelude::*;
use vstd::string::StringExecFns;
use vstd::string::StringSliceAdditionalSpecFns;
use vstd::utf8::{encode_utf8, is_ascii_chars};
use crate::hashes::{sha256, sha256_hash};
use crate::block_index::to_hash32;
use crate::text::string_push;
use bellscoin::address::{AddressEncoding, Payload as BtcPayload, WitnessProgram, WitnessVersion};

verus! {

/// The address parameters of a coin network.
pub struct CoinType {
    /// Version byte of pay-to-pubkey-hash addresses.
    pub pubkey_address: u8,
    /// Version byte of pay-to-script-hash addresses.
    pub script_address: u8,
    /// Human-readable part of segwit addresses.
    pub bech32: String,
}

/// What an address pays to.
pub enum Payload {
    PubkeyHash([u8; 20]),
    ScriptHash([u8; 20]),
    /// A segwit program: its version (0 to 16) and its bytes.
    WitnessProgram { version: u8, program: Vec<u8> },
}

/// The mathematical form of a payload.
pub enum PayloadView {
    PubkeyHash(Seq<u8>),
    ScriptHash(Seq<u8>),
    WitnessProgram(u8, Seq<u8>),
}

impl Payload {
    pub open spec fn view(&self) -> PayloadView {
        match self {
            Payload::PubkeyHash(h) => PayloadView::PubkeyHash(h@),
            Payload::ScriptHash(h) => PayloadView::ScriptHash(h@),
            Payload::WitnessProgram { version, program } => PayloadView::WitnessProgram(*version, program@),
        }
    }
}

/// A segwit program that may be built: version 0 to 16, 2 to 40 bytes, and
/// for version 0 exactly 20 or 32 bytes.
pub open spec fn valid_witness_program(version: u8, program: Seq<u8>) -> bool {
    &&& version <= 16
    &&& 2 <= program.len() <= 40
    &&& (version == 0 ==> program.len() == 20 || program.len() == 32)
}

/// A payload written in base58check: a pubkey or script hash of 20 bytes.
pub open spec fn base58_payload(p: PayloadView) -> bool {
    match p {
        PayloadView::PubkeyHash(h) => h.len() == 20,
        PayloadView::ScriptHash(h) => h.len() == 20,
        PayloadView::WitnessProgram(_, _) => false,
    }
}

/// The bytes under a base58check address of a hash payload: the network's
/// version byte for the kind of hash, then the hash.
pub open spec fn versioned_hash(p: PayloadView, p2pkh_prefix: u8, p2sh_prefix: u8) -> Seq<u8> {
    match p {
        PayloadView::PubkeyHash(h) => seq![p2pkh_prefix] + h,
        PayloadView::ScriptHash(h) => seq![p2sh_prefix] + h,
        PayloadView::WitnessProgram(_, prog) => prog,
    }
}

/// A payload that can be encoded: every witness program is valid.
pub open spec fn valid_payload(p: PayloadView) -> bool {
    match p {
        PayloadView::WitnessProgram(v, prog) => valid_witness_program(v, prog),
        _ => true,
    }
}

/// The address text of payload `p` for a network with the given version
/// bytes and human-readable part (base58check for hashes, bech32 or
/// bech32m for witness programs).
pub uninterp spec fn address_encoding(p: PayloadView, p2pkh_prefix: u8, p2sh_prefix: u8, hrp: Seq<char>) -> Seq<char>;

/// `bellscoin::address::AddressEncoding`'s `Display`: the address text of a
/// payload, named `address_encoding`. `requires` keeps to witness programs
/// that `WitnessProgram::new` accepts. For a pubkey or script hash the text
/// is `base58::encode_check_to_fmt` of 21 bytes: characters of the base58
/// alphabet (ASCII), at most two per byte of the 25 bytes written with the
/// checksum, so at most 50.
#[verifier::external_body]
pub fn payload_to_address_str(payload: &Payload, coin: &CoinType) -> (r: String)
    requires
        payload.view() matches PayloadView::WitnessProgram(v, prog) ==> valid_witness_program(v, prog),
    ensures
        r@ == address_encoding(payload.view(), coin.pubkey_address, coin.script_address, coin.bech32@),
        base58_payload(payload.view()) ==> is_ascii_chars(r@) && r@.len() <= 50,
{
    let inner = match payload {
        Payload::PubkeyHash(h) => BtcPayload::PubkeyHash(bellscoin::hashes::Hash::from_byte_array(*h)),
        Payload::ScriptHash(h) => BtcPayload::ScriptHash(bellscoin::hashes::Hash::from_byte_array(*h)),
        Payload::WitnessProgram { version, program } => BtcPayload::WitnessProgram(
            WitnessProgram::new(WitnessVersion::try_from(*version).unwrap(), program.clone()).unwrap(),
        ),
    };
    let (p2pkh_prefix, p2sh_prefix) = (coin.pubkey_address, coin.script_address);
    AddressEncoding { payload: &inner, p2pkh_prefix, p2sh_prefix, bech32_hrp: coin.bech32.as_str() }.to_string()
}

/// The opcode that pushes witness version `v`: `OP_0`, or `OP_1`..`OP_16`.
pub open spec fn version_opcode(v: u8) -> u8 {
    if v == 0 { 0 } else { (0x50 + v) as u8 }
}

/// The output script that pays to a payload.
pub open spec fn script_pubkey(p: PayloadView) -> Seq<u8> {
    match p {
        PayloadView::PubkeyHash(h) => seq![0x76u8, 0xa9u8, 0x14u8] + h + seq![0x88u8, 0xacu8],
        PayloadView::ScriptHash(h) => seq![0xa9u8, 0x14u8] + h + seq![0x87u8],
        PayloadView::WitnessProgram(v, prog) => seq![version_opcode(v), prog.len() as u8] + prog,
    }
}

fn push_all(out: &mut Vec<u8>, s: &[u8])
    ensures
        final(out)@ == old(out)@ + s@,
{
    out.extend_from_slice(s);
}

impl Payload {
    /// The output script that pays to this payload.
    pub fn script_pubkey(&self) -> (r: Vec<u8>)
        requires
            self.view() matches PayloadView::WitnessProgram(v, prog) ==> valid_witness_program(v, prog),
        ensures
            r@ == script_pubkey(self.view()),
    {
        let mut out: Vec<u8> = Vec::new();
        match self {
            Payload::PubkeyHash(h) => {
                out.push(0x76);
                out.push(0xa9);
                out.push(0x14);
                push_all(&mut out, h.as_slice());
                out.push(0x88);
                out.push(0xac);
                assert(out@ =~= seq![0x76u8, 0xa9u8, 0x14u8] + h@ + seq![0x88u8, 0xacu8]);
            },
            Payload::ScriptHash(h) => {
                out.push(0xa9);
                out.push(0x14);
                push_all(&mut out, h.as_slice());
                out.push(0x87);
                assert(out@ =~= seq![0xa9u8, 0x14u8] + h@ + seq![0x87u8]);
            },
            Payload::WitnessProgram { version, program } => {
                let op = if *version == 0 { 0u8 } else { 0x50 + *version };
                out.push(op);
                out.push(program.len() as u8);
                push_all(&mut out, program.as_slice());
                assert(out@ =~= seq![version_opcode(*version), program@.len() as u8] + program@);
            },
        }
        out
    }
}

/// Why an address was refused.
#[derive(Debug, Clone, Copy, PartialEq, Eq)]
pub enum AddressError {
    /// The bech32 text does not decode.
    Bech32,
    /// `Empty bech32 payload`
    EmptyBech32Payload,
    /// The first bech32 symbol is no witness version (0 to 16).
    InvalidWitnessVersion,
    /// The program does not convert from 5-bit groups to bytes.
    Base32,
    /// The witness program has a length its version does not allow.
    InvalidWitnessProgram,
    /// `Invalid bech32 variant`: bech32 for version 0, bech32m for the others.
    InvalidBech32Variant,
    /// `Invalid address length`
    InvalidLength,
    /// The base58check text does not decode or its checksum is wrong.
    Base58,
    /// `Invalid address version`
    InvalidVersion,
    /// `Invalid hex`
    InvalidHex,
    /// `Invalid script hash length`
    InvalidScriptHashLength,
}

/// The data part of a bech32 or bech32m text (5-bit values, checksum
/// removed) and whether it is bech32m; `None` when it does not decode.
pub uninterp spec fn bech32_decoding(s: Seq<char>) -> Option<(Seq<u8>, bool)>;

/// `bellscoin::bech32::decode`: the data (5-bit values, each below 32) and
/// the variant, named `bech32_decoding`; the human-readable part it also
/// returns is not used.
#[verifier::external_body]
fn bech32_decode(address: &str) -> (r: Option<(Vec<u8>, bool)>)
    ensures
        match r {
            Some((d, m)) => bech32_decoding(address@) == Some((d@, m)) && forall|i: int|
                0 <= i < d@.len() ==> d@[i] < 32,
            None => bech32_decoding(address@) is None,
        },
{
    match bellscoin::bech32::decode(address) {
        Ok((_, data, variant)) => Some((
            data.iter().map(|x| x.to_u8()).collect(),
            variant == bellscoin::bech32::Variant::Bech32m,
        )),
        Err(_) => None,
    }
}

/// The bytes packed in a list of 5-bit values; `None` when the padding is
/// not allowed.
pub uninterp spec fn base32_bytes(d: Seq<u8>) -> Option<Seq<u8>>;

/// `bellscoin::bech32::FromBase32::from_base32` for `Vec<u8>`, named `base32_bytes`.
#[verifier::external_body]
fn from_base32(data: &[u8]) -> (r: Option<Vec<u8>>)
    requires
        forall|i: int| 0 <= i < data@.len() ==> data@[i] < 32,
    ensures
        match r {
            Some(b) => base32_bytes(data@) == Some(b@),
            None => base32_bytes(data@) is None,
        },
{
    let groups: Vec<bellscoin::bech32::u5> = data.iter().map(|x| bellscoin::bech32::u5::try_from_u8(*x).unwrap()).collect();
    <Vec<u8> as bellscoin::bech32::FromBase32>::from_base32(&groups).ok()
}

/// The payload of a base58check text (checksum removed); `None` when it
/// does not decode or the checksum is wrong.
pub uninterp spec fn base58check_decoding(s: Seq<char>) -> Option<Seq<u8>>;

/// `bellscoin::base58::decode_check`, named `base58check_decoding`. It
/// reads back what `base58::encode_check` wrote (the crate's own round-trip
/// test checks this), so the text `AddressEncoding` writes for a pubkey or
/// script hash decodes to the version byte followed by the hash.
#[verifier::external_body]
fn base58_decode_check(address: &str) -> (r: Option<Vec<u8>>)
    ensures
        match r {
            Some(b) => base58check_decoding(address@) == Some(b@),
            None => base58check_decoding(address@) is None,
        },
        r is None ==> forall|p: PayloadView, pk: u8, sh: u8, hrp: Seq<char>|
            base58_payload(p) ==> address@ != #[trigger] address_encoding(p, pk, sh, hrp),
        r matches Some(b) ==> forall|p: PayloadView, pk: u8, sh: u8, hrp: Seq<char>|
            base58_payload(p) && address@ == #[trigger] address_encoding(p, pk, sh, hrp) ==> b@ == versioned_hash(
                p,
                pk,
                sh,
            ),
{
    bellscoin::base58::decode_check(address).ok()
}

/// Index of the last `1` in `b`, if any.
pub open spec fn last_one(b: Seq<u8>) -> Option<int>
    decreases b.len(),
{
    if b.len() == 0 {
        None
    } else if b.last() == 0x31 {
        Some(b.len() - 1)
    } else {
        last_one(b.drop_last())
    }
}

/// The address is written in bech32 for this coin: the text before its last
/// `1` is the coin's human-readable part.
pub open spec fn is_bech32_for(addr: Seq<u8>, hrp: Seq<u8>) -> bool {
    match last_one(addr) {
        Some(i) => addr.take(i) == hrp,
        None => false,
    }
}

/// What `address_to_payload` gives for an address, by the steps it takes.
pub open spec fn address_payload(address: Seq<char>, addr_bytes: Seq<u8>, coin_pkh: u8, coin_sh: u8, hrp: Seq<u8>) -> Result<PayloadView, AddressError> {
    if is_bech32_for(addr_bytes, hrp) {
        match bech32_decoding(address) {
            None => Err(AddressError::Bech32),
            Some((data, bech32m)) => if data.len() == 0 {
                Err(AddressError::EmptyBech32Payload)
            } else if data[0] > 16 {
                Err(AddressError::InvalidWitnessVersion)
            } else {
                match base32_bytes(data.drop_first()) {
                    None => Err(AddressError::Base32),
                    Some(program) => if !valid_witness_program(data[0], program) {
                        Err(AddressError::InvalidWitnessProgram)
                    } else if bech32m != (data[0] != 0) {
                        Err(AddressError::InvalidBech32Variant)
                    } else {
                        Ok(PayloadView::WitnessProgram(data[0], program))
                    },
                }
            },
        }
    } else if addr_bytes.len() > 50 {
        Err(AddressError::InvalidLength)
    } else {
        match base58check_decoding(address) {
            None => Err(AddressError::Base58),
            Some(data) => if data.len() != 21 {
                Err(AddressError::InvalidLength)
            } else if data[0] == coin_pkh {
                Ok(PayloadView::PubkeyHash(data.skip(1)))
            } else if data[0] == coin_sh {
                Ok(PayloadView::ScriptHash(data.skip(1)))
            } else {
                Err(AddressError::InvalidVersion)
            },
        }
    }
}

fn last_one_index(b: &[u8]) -> (r: Option<usize>)
    ensures
        match r {
            Some(i) => last_one(b@) == Some(i as int) && i < b@.len(),
            None => last_one(b@) is None,
        },
{
    let mut i = b.len();
    assert(b@.take(b@.len() as int) =~= b@);
    while i > 0
        invariant
            0 <= i <= b@.len(),
            last_one(b@) == last_one(b@.take(i as int)),
        decreases i,
    {
        assert(b@.take(i as int).drop_last() =~= b@.take(i - 1));
        if b[i - 1] == 0x31 {
            assert(b@.take(i as int).last() == b@[i - 1]);
            return Some(i - 1);
        }
        i = i - 1;
    }
    None
}

fn bytes_eq(a: &[u8], b: &[u8]) -> (r: bool)
    ensures
        r == (a@ == b@),
{
    if a.len() != b.len() {
        return false;
    }
    let mut i: usize = 0;
    while i < a.len()
        invariant
            a@.len() == b@.len(),
            0 <= i <= a@.len(),
            forall|j: int| 0 <= j < i ==> a@[j] == b@[j],
        decreases a@.len() - i,
    {
        if a[i] != b[i] {
            return false;
        }
        i = i + 1;
    }
    assert(a@ =~= b@);
    true
}

fn witness_program_ok(version: u8, program: &Vec<u8>) -> (r: bool)
    ensures
        r == valid_witness_program(version, program@),
{
    version <= 16 && 2 <= program.len() && program.len() <= 40 && (version != 0 || program.len() == 20
        || program.len() == 32)
}

/// The payload an address stands for on the given coin network.
///
/// An address whose text before its last `1` is the coin's human-readable
/// part is decoded as bech32: the first symbol is the witness version, the
/// rest the program, which must be valid for that version and written with
/// the matching variant (bech32 for version 0, bech32m otherwise). Any other
/// address is base58check of at most 50 bytes, whose 21 decoded bytes are a
/// version byte (the coin's pubkey-hash or script-hash one) and a hash.
pub fn address_to_payload(address: &str, coin: &CoinType) -> (r: Result<Payload, AddressError>)
    ensures
        match address_payload(address@, address.spec_bytes(), coin.pubkey_address, coin.script_address, encode_utf8(coin.bech32@)) {
            Ok(p) => r matches Ok(q) && q.view() == p,
            Err(e) => r == Err::<Payload, AddressError>(e),
        },
        r matches Ok(q) ==> valid_payload(q.view()),
        forall|p: PayloadView|
            base58_payload(p) && coin.pubkey_address != coin.script_address && address@ == #[trigger] address_encoding(
                p,
                coin.pubkey_address,
                coin.script_address,
                coin.bech32@,
            ) && is_ascii_chars(address@) && address@.len() <= 50 && !is_bech32_for(address.spec_bytes(), encode_utf8(coin.bech32@))
                ==> (r matches Ok(q) && q.view() == p),
{
    let bytes = address.as_bytes();
    proof {
        if is_ascii_chars(address@) {
            vstd::utf8::is_ascii_chars_encode_utf8(address@);
        }
    }
    let hrp = coin.bech32.as_str().as_bytes();
    let is_bech32 = match last_one_index(bytes) {
        Some(i) => {
            let prefix = &bytes[0..i];
            proof {
                assert(prefix@ =~= bytes@.take(i as int));
            }
            bytes_eq(prefix, hrp)
        },
        None => false,
    };
    if is_bech32 {
        let (data, bech32m) = match bech32_decode(address) {
            Some(x) => x,
            None => return Err(AddressError::Bech32),
        };
        if data.len() == 0 {
            return Err(AddressError::EmptyBech32Payload);
        }
        let version = data[0];
        if version > 16 {
            return Err(AddressError::InvalidWitnessVersion);
        }
        let rest = &data.as_slice()[1..data.len()];
        proof {
            assert(rest@ =~= data@.drop_first());
        }
        let program = match from_base32(rest) {
            Some(p) => p,
            None => return Err(AddressError::Base32),
        };
        if !witness_program_ok(version, &program) {
            return Err(AddressError::InvalidWitnessProgram);
        }
        if bech32m != (version != 0) {
            return Err(AddressError::InvalidBech32Variant);
        }
        return Ok(Payload::WitnessProgram { version, program });
    }
    if bytes.len() > 50 {
        return Err(AddressError::InvalidLength);
    }
    let data = match base58_decode_check(address) {
        Some(d) => d,
        None => return Err(AddressError::Base58),
    };
    if data.len() != 21 {
        return Err(AddressError::InvalidLength);
    }
    let hash_bytes = &data.as_slice()[1..21];
    let mut h = [0u8; 20];
    let mut i: usize = 0;
    while i < 20
        invariant
            hash_bytes@.len() == 20,
            0 <= i <= 20,
            forall|j: int| 0 <= j < i ==> h@[j] == hash_bytes@[j],
        decreases 20 - i,
    {
        h[i] = hash_bytes[i];
        i = i + 1;
    }
    proof {
        assert(h@ =~= data@.skip(1));
        assert forall|p: PayloadView|
            base58_payload(p) && coin.pubkey_address != coin.script_address && address@ == #[trigger] address_encoding(
                p,
                coin.pubkey_address,
                coin.script_address,
                coin.bech32@,
            ) implies (p is PubkeyHash ==> data@[0] == coin.pubkey_address && p == PayloadView::PubkeyHash(h@)) && (
        p is ScriptHash ==> data@[0] == coin.script_address && p == PayloadView::ScriptHash(h@)) by {
            match p {
                PayloadView::PubkeyHash(x) => {
                    assert(data@ == seq![coin.pubkey_address] + x);
                    assert(h@ =~= x);
                },
                PayloadView::ScriptHash(x) => {
                    assert(data@ == seq![coin.script_address] + x);
                    assert(h@ =~= x);
                },
                PayloadView::WitnessProgram(_, _) => {},
            }
        }
    }
    if data[0] == coin.pubkey_address {
        Ok(Payload::PubkeyHash(h))
    } else if data[0] == coin.script_address {
        Ok(Payload::ScriptHash(h))
    } else {
        Err(AddressError::InvalidVersion)
    }
}

/// How a user names a script: by address or by the hex of its hash.
pub enum ScriptType {
    Address,
    ScriptHash,
}

/// The string a JSON text stands for, `None` when the text is not a JSON string.
pub uninterp spec fn json_string_value(text: Seq<char>) -> Option<Seq<char>>;

/// `serde_json::from_str::<String>`, named `json_string_value`.
#[verifier::external_body]
fn json_string(text: &str) -> (r: Option<String>)
    ensures
        match r {
            Some(s) => json_string_value(text@) == Some(s@),
            None => json_string_value(text@) is None,
        },
{
    serde_json::from_str::<String>(text).ok()
}

/// Why a script type name was refused.
#[derive(Debug, Clone, Copy, PartialEq, Eq)]
pub enum ScriptTypeError {
    /// `Invalid script type`
    Invalid,
}

impl ScriptType {
    /// Parses a script type the way its lower-case serde names read it:
    /// the text, quoted, is read as a JSON string, which must be `address`
    /// or `scripthash`.
    pub fn from_str(s: &str) -> (r: Result<ScriptType, ScriptTypeError>)
        ensures
            match json_string_value(seq!['"'] + s@ + seq!['"']) {
                Some(v) => if v == "address"@ {
                    r matches Ok(ScriptType::Address)
                } else if v == "scripthash"@ {
                    r matches Ok(ScriptType::ScriptHash)
                } else {
                    r == Err::<ScriptType, ScriptTypeError>(ScriptTypeError::Invalid)
                },
                None => r == Err::<ScriptType, ScriptTypeError>(ScriptTypeError::Invalid),
            },
    {
        let mut quoted = String::new();
        string_push(&mut quoted, '"');
        quoted.append(s);
        string_push(&mut quoted, '"');
        assert(quoted@ =~= seq!['"'] + s@ + seq!['"']);
        match json_string(quoted.as_str()) {
            Some(v) => {
                if str_eq(v.as_str(), "address") {
                    Ok(ScriptType::Address)
                } else if str_eq(v.as_str(), "scripthash") {
                    Ok(ScriptType::ScriptHash)
                } else {
                    Err(ScriptTypeError::Invalid)
                }
            },
            None => Err(ScriptTypeError::Invalid),
        }
    }
}

/// Whether two strings hold the same characters.
fn str_eq(a: &str, b: &str) -> (r: bool)
    ensures
        r == (a@ == b@),
{
    let ab = a.as_bytes();
    let bb = b.as_bytes();
    let r = bytes_eq(ab, bb);
    proof {
        vstd::utf8::encode_utf8_decode_utf8(a@);
        vstd::utf8::encode_utf8_decode_utf8(b@);
    }
    r
}

/// The bytes a hex text stands for (digits `0-9`, `a-f`, `A-F`, two per
/// byte, high digit first); `None` for an odd length or another character.
pub open spec fn hex_decoding(t: Seq<u8>) -> Option<Seq<u8>>
    decreases t.len(),
{
    if t.len() % 2 != 0 {
        None
    } else if t.len() == 0 {
        Some(Seq::empty())
    } else {
        match (hex_value(t[0]), hex_value(t[1]), hex_decoding(t.skip(2))) {
            (Some(hi), Some(lo), Some(rest)) => Some(seq![(hi * 16 + lo) as u8] + rest),
            _ => None,
        }
    }
}

/// The value of one hex digit.
pub open spec fn hex_value(c: u8) -> Option<int> {
    if 0x30 <= c <= 0x39 {
        Some(c - 0x30)
    } else if 0x61 <= c <= 0x66 {
        Some(c - 0x61 + 10)
    } else if 0x41 <= c <= 0x46 {
        Some(c - 0x41 + 10)
    } else {
        None
    }
}

/// `hex::decode`: the bytes of a hex text, as `hex_decoding` states.
#[verifier::external_body]
fn hex_decode(text: &str) -> (r: Option<Vec<u8>>)
    ensures
        match r {
            Some(b) => hex_decoding(text.spec_bytes()) == Some(b@),
            None => hex_decoding(text.spec_bytes()) is None,
        },
{
    hex::decode(text).ok()
}

/// The full hash (SHA-256 of the output script) that an address or a script
/// hash names: for an address, the hash of the script that pays to it; for
/// a script hash, the 32 bytes its hex text stands for.
pub fn address_to_fullhash(address: &str, script_type: ScriptType, coin: &CoinType) -> (r: Result<[u8; 32], AddressError>)
    ensures
        match script_type {
            ScriptType::Address => match address_payload(address@, address.spec_bytes(), coin.pubkey_address, coin.script_address, encode_utf8(coin.bech32@)) {
                Ok(p) => r matches Ok(h) && h@ == sha256(script_pubkey(p)),
                Err(e) => r == Err::<[u8; 32], AddressError>(e),
            },
            ScriptType::ScriptHash => match hex_decoding(address.spec_bytes()) {
                None => r == Err::<[u8; 32], AddressError>(AddressError::InvalidHex),
                Some(b) => if b.len() == 32 {
                    r matches Ok(h) && h@ == b
                } else {
                    r == Err::<[u8; 32], AddressError>(AddressError::InvalidScriptHashLength)
                },
            },
        },
{
    match script_type {
        ScriptType::Address => {
            let payload = address_to_payload(address, coin)?;
            let script = payload.script_pubkey();
            Ok(sha256_hash(script.as_slice()))
        },
        ScriptType::ScriptHash => {
            let bytes = match hex_decode(address) {
                Some(b) => b,
                None => return Err(AddressError::InvalidHex),
            };
            if bytes.len() != 32 {
                return Err(AddressError::InvalidScriptHashLength);
            }
            Ok(to_hash32(bytes.as_slice()))
        },
    }
}

} // verus!
