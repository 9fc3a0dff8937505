//! Recognising the standard output scripts and the address each pays to.
use vstd::prelude::*;
use vstd::utf8::{valid_utf8, decode_utf8};
use vstd::string::StringExecFns;
use crate::address::{
    address_encoding, payload_to_address_str, valid_witness_program, CoinType, Payload, PayloadView,
};

verus! {

/// Why a script could not be read.
#[derive(Debug, Clone, Copy, PartialEq, Eq)]
pub enum ScriptError {
    UnexpectedEof,
    InvalidFormat,
}

/// The message of a script error.
pub open spec fn error_message(e: ScriptError) -> Seq<char> {
    match e {
        ScriptError::UnexpectedEof => "Unexpected EOF"@,
        ScriptError::InvalidFormat => "Invalid Script format"@,
    }
}

impl ScriptError {
    /// The message of this error.
    pub fn message(&self) -> (r: &'static str)
        ensures
            r@ == error_message(*self),
    {
        match self {
            ScriptError::UnexpectedEof => "Unexpected EOF",
            ScriptError::InvalidFormat => "Invalid Script format",
        }
    }
}

/// The template an output script follows.
pub enum ScriptPattern {
    /// `OP_RETURN <data>`: the data after the first two bytes, as text.
    OpReturn(String),
    /// `<m> <pubkeys> <n> OP_CHECKMULTISIG`.
    Pay2MultiSig,
    /// `<pubkey> OP_CHECKSIG`.
    Pay2PublicKey,
    /// `OP_DUP OP_HASH160 <hash> OP_EQUALVERIFY OP_CHECKSIG`.
    Pay2PublicKeyHash,
    /// `OP_HASH160 <hash> OP_EQUAL`.
    Pay2ScriptHash,
    Pay2WitnessPublicKeyHash,
    Pay2WitnessScriptHash,
    WitnessProgram,
    /// A segwit version 1 output with a 32-byte program.
    Pay2Taproot,
    Unspendable,
    /// Valid but not one of the standard templates.
    NotRecognised,
    Error(ScriptError),
}

/// The name of a pattern (`ScriptError: ` and the message for errors).
pub open spec fn pattern_name(p: ScriptPattern) -> Seq<char> {
    match p {
        ScriptPattern::OpReturn(_) => "OpReturn"@,
        ScriptPattern::Pay2MultiSig => "Pay2MultiSig"@,
        ScriptPattern::Pay2PublicKey => "Pay2PublicKey"@,
        ScriptPattern::Pay2PublicKeyHash => "Pay2PublicKeyHash"@,
        ScriptPattern::Pay2ScriptHash => "Pay2ScriptHash"@,
        ScriptPattern::Pay2WitnessPublicKeyHash => "Pay2WitnessPublicKeyHash"@,
        ScriptPattern::Pay2WitnessScriptHash => "Pay2WitnessScriptHash"@,
        ScriptPattern::WitnessProgram => "WitnessProgram"@,
        ScriptPattern::Pay2Taproot => "Pay2Taproot"@,
        ScriptPattern::Unspendable => "Unspendable"@,
        ScriptPattern::NotRecognised => "NotRecognised"@,
        ScriptPattern::Error(e) => "ScriptError: "@ + error_message(e),
    }
}

impl ScriptPattern {
    /// The name of the pattern, as it is displayed.
    pub fn name(&self) -> (r: String)
        ensures
            r@ == pattern_name(*self),
    {
        let s: &str = match self {
            ScriptPattern::OpReturn(_) => "OpReturn",
            ScriptPattern::Pay2MultiSig => "Pay2MultiSig",
            ScriptPattern::Pay2PublicKey => "Pay2PublicKey",
            ScriptPattern::Pay2PublicKeyHash => "Pay2PublicKeyHash",
            ScriptPattern::Pay2ScriptHash => "Pay2ScriptHash",
            ScriptPattern::Pay2WitnessPublicKeyHash => "Pay2WitnessPublicKeyHash",
            ScriptPattern::Pay2WitnessScriptHash => "Pay2WitnessScriptHash",
            ScriptPattern::WitnessProgram => "WitnessProgram",
            ScriptPattern::Pay2Taproot => "Pay2Taproot",
            ScriptPattern::Unspendable => "Unspendable",
            ScriptPattern::NotRecognised => "NotRecognised",
            ScriptPattern::Error(e) => {
                let mut out = "ScriptError: ".to_owned();
                out.append(e.message());
                return out;
            },
        };
        s.to_owned()
    }
}

/// An output script's address, if it has one, and its template.
pub struct EvaluatedScript {
    pub address: Option<String>,
    pub pattern: ScriptPattern,
}

impl EvaluatedScript {
    pub fn new(address: Option<String>, pattern: ScriptPattern) -> (r: EvaluatedScript)
        ensures
            r.address == address,
            r.pattern == pattern,
    {
        EvaluatedScript { address, pattern }
    }
}

// Script templates, as the coin's script library defines them.

pub open spec fn is_op_return(s: Seq<u8>) -> bool {
    s.len() > 0 && s[0] == 0x6a
}

/// Opcodes that make a legacy script fail wherever they stand first:
/// `OP_RETURN` and its synonyms, and the disabled or invalid opcodes.
pub open spec fn unspendable_opcode(b: u8) -> bool {
    ||| b == 0x65 || b == 0x66 || b == 0xff
    ||| b == 0x7e || b == 0x7f || b == 0x80 || b == 0x81 || b == 0x83 || b == 0x84 || b == 0x85 || b == 0x86
    ||| b == 0x8d || b == 0x8e || b == 0x95 || b == 0x96 || b == 0x97 || b == 0x98 || b == 0x99
    ||| b == 0x6a || b == 0x50 || b == 0x89 || b == 0x8a || b == 0x62
    ||| b >= 0xba
}

pub open spec fn is_provable_unspendable(s: Seq<u8>) -> bool {
    s.len() > 0 && unspendable_opcode(s[0])
}

pub open spec fn is_p2pk(s: Seq<u8>) -> bool {
    ||| s.len() == 67 && s[0] == 0x41 && s[66] == 0xac
    ||| s.len() == 35 && s[0] == 0x21 && s[34] == 0xac
}

pub open spec fn is_p2pkh(s: Seq<u8>) -> bool {
    s.len() == 25 && s[0] == 0x76 && s[1] == 0xa9 && s[2] == 0x14 && s[23] == 0x88 && s[24] == 0xac
}

pub open spec fn is_p2sh(s: Seq<u8>) -> bool {
    s.len() == 23 && s[0] == 0xa9 && s[1] == 0x14 && s[22] == 0x87
}

/// The witness version the first opcode pushes (`OP_0`, `OP_1`..`OP_16`).
pub open spec fn witness_version(s: Seq<u8>) -> Option<u8> {
    if s.len() == 0 {
        None
    } else if s[0] == 0 {
        Some(0)
    } else if 0x51 <= s[0] <= 0x60 {
        Some((s[0] - 0x50) as u8)
    } else {
        None
    }
}

pub open spec fn is_witness_program(s: Seq<u8>) -> bool {
    4 <= s.len() <= 42 && witness_version(s) is Some && 2 <= s[1] <= 40 && s.len() - 2 == s[1]
}

pub open spec fn is_v0_p2wsh(s: Seq<u8>) -> bool {
    s.len() == 34 && witness_version(s) == Some(0u8) && s[1] == 0x20
}

pub open spec fn is_v0_p2wpkh(s: Seq<u8>) -> bool {
    s.len() == 22 && witness_version(s) == Some(0u8) && s[1] == 0x14
}

pub open spec fn is_v1_p2tr(s: Seq<u8>) -> bool {
    s.len() == 34 && witness_version(s) == Some(1u8) && s[1] == 0x20
}

/// The payload a script pays to: the hash of a pay-to-pubkey-hash or
/// pay-to-script-hash script, or the program of a witness program that is
/// valid for its version.
pub open spec fn payload_of_script(s: Seq<u8>) -> Option<PayloadView> {
    if is_p2pkh(s) {
        Some(PayloadView::PubkeyHash(s.subrange(3, 23)))
    } else if is_p2sh(s) {
        Some(PayloadView::ScriptHash(s.subrange(2, 22)))
    } else if is_witness_program(s) && valid_witness_program(witness_version(s).unwrap(), s.skip(2)) {
        Some(PayloadView::WitnessProgram(witness_version(s).unwrap(), s.skip(2)))
    } else {
        None
    }
}

/// The address a script pays to on a network, if it has one.
pub open spec fn script_address(s: Seq<u8>, coin_pkh: u8, coin_sh: u8, hrp: Seq<char>) -> Option<Seq<char>> {
    match payload_of_script(s) {
        Some(p) => Some(address_encoding(p, coin_pkh, coin_sh, hrp)),
        None => None,
    }
}

/// The hash of a public key given by its serialized bytes, `None` when the
/// bytes are not a valid key.
pub uninterp spec fn pubkey_hash_of(key: Seq<u8>) -> Option<Seq<u8>>;

/// `bellscoin::PublicKey::from_slice` and then `PublicKey::pubkey_hash`:
/// the key's hash, named `pubkey_hash_of`.
#[verifier::external_body]
fn p2pk_key_hash(key: &[u8]) -> (r: Option<[u8; 20]>)
    ensures
        match r {
            Some(h) => pubkey_hash_of(key@) == Some(h@),
            None => pubkey_hash_of(key@) is None,
        },
{
    let pk = bellscoin::PublicKey::from_slice(key).ok()?;
    Some(<bellscoin::PubkeyHash as bellscoin::hashes::Hash>::to_byte_array(pk.pubkey_hash()))
}

/// The address of a pay-to-pubkey script: the pubkey-hash address of its key.
pub open spec fn p2pk_address(s: Seq<u8>, coin_pkh: u8, coin_sh: u8, hrp: Seq<char>) -> Option<Seq<char>> {
    match pubkey_hash_of(s.subrange(1, s.len() - 1)) {
        Some(h) => Some(address_encoding(PayloadView::PubkeyHash(h), coin_pkh, coin_sh, hrp)),
        None => None,
    }
}

/// The text of an `OP_RETURN` script's data: what follows its first two
/// bytes, when that is valid UTF-8; the empty text otherwise.
pub open spec fn op_return_text(s: Seq<u8>) -> Seq<char> {
    let d = if s.len() >= 2 { s.skip(2) } else { Seq::empty() };
    if valid_utf8(d) { decode_utf8(d) } else { Seq::empty() }
}

/// `String::from_utf8`: the text, when the bytes are valid UTF-8.
#[verifier::external_body]
pub(crate) fn utf8_string(bytes: Vec<u8>) -> (r: Option<String>)
    ensures
        match r {
            Some(s) => valid_utf8(bytes@) && s@ == decode_utf8(bytes@),
            None => !valid_utf8(bytes@),
        },
{
    String::from_utf8(bytes).ok()
}

/// The view of an optional string.
pub open spec fn opt_text(o: Option<String>) -> Option<Seq<char>> {
    match o {
        Some(s) => Some(s@),
        None => None,
    }
}

/// The template a spendable script that is not `OP_RETURN` follows, in the
/// order the checks are made.
pub open spec fn template_of(s: Seq<u8>) -> ScriptPattern {
    if is_p2pk(s) {
        ScriptPattern::Pay2PublicKey
    } else if is_p2pkh(s) {
        ScriptPattern::Pay2PublicKeyHash
    } else if is_p2sh(s) {
        ScriptPattern::Pay2ScriptHash
    } else if is_v0_p2wpkh(s) {
        ScriptPattern::Pay2WitnessPublicKeyHash
    } else if is_v0_p2wsh(s) {
        ScriptPattern::Pay2WitnessScriptHash
    } else if is_v1_p2tr(s) {
        ScriptPattern::Pay2Taproot
    } else if is_witness_program(s) {
        ScriptPattern::WitnessProgram
    } else {
        ScriptPattern::NotRecognised
    }
}

/// Both forms of a pay-to-pubkey script are read as pay-to-pubkey: a push
/// of a 65-byte uncompressed key or of a 33-byte compressed key, then
/// `OP_CHECKSIG`. Such a script is neither `OP_RETURN` nor unspendable
/// from its first opcode, so `eval_from_bytes` gives it the pubkey-hash
/// address of the key it pushes (bytes 1 to the one before last).
pub proof fn law_pay_to_pubkey_forms(s: Seq<u8>, coin_pkh: u8, coin_sh: u8, hrp: Seq<char>)
    requires
        (s.len() == 67 && s[0] == 0x41 && s[66] == 0xac) || (s.len() == 35 && s[0] == 0x21 && s[34] == 0xac),
    ensures
        !is_op_return(s),
        !is_provable_unspendable(s),
        is_p2pk(s),
        template_of(s) == ScriptPattern::Pay2PublicKey,
        p2pk_address(s, coin_pkh, coin_sh, hrp) == (match pubkey_hash_of(s.subrange(1, s.len() - 1)) {
            Some(h) => Some(address_encoding(PayloadView::PubkeyHash(h), coin_pkh, coin_sh, hrp)),
            None => None::<Seq<char>>,
        }),
{
}

/// Only those two forms are read as pay-to-pubkey.
pub proof fn law_pay_to_pubkey_only_these_forms(s: Seq<u8>)
    ensures
        template_of(s) == ScriptPattern::Pay2PublicKey <==> ((s.len() == 67 && s[0] == 0x41 && s[66] == 0xac) || (
        s.len() == 35 && s[0] == 0x21 && s[34] == 0xac)),
{
}

fn version_of(s: &[u8]) -> (r: Option<u8>)
    ensures
        r == witness_version(s@),
{
    if s.len() == 0 {
        None
    } else if s[0] == 0 {
        Some(0)
    } else if 0x51 <= s[0] && s[0] <= 0x60 {
        Some(s[0] - 0x50)
    } else {
        None
    }
}

fn check_p2pk(s: &[u8]) -> (r: bool)
    ensures
        r == is_p2pk(s@),
{
    (s.len() == 67 && s[0] == 0x41 && s[66] == 0xac) || (s.len() == 35 && s[0] == 0x21 && s[34] == 0xac)
}

fn check_p2pkh(s: &[u8]) -> (r: bool)
    ensures
        r == is_p2pkh(s@),
{
    s.len() == 25 && s[0] == 0x76 && s[1] == 0xa9 && s[2] == 0x14 && s[23] == 0x88 && s[24] == 0xac
}

fn check_p2sh(s: &[u8]) -> (r: bool)
    ensures
        r == is_p2sh(s@),
{
    s.len() == 23 && s[0] == 0xa9 && s[1] == 0x14 && s[22] == 0x87
}

fn check_witness_program(s: &[u8]) -> (r: bool)
    ensures
        r == is_witness_program(s@),
{
    4 <= s.len() && s.len() <= 42 && version_of(s).is_some() && 2 <= s[1] && s[1] <= 40 && s.len() - 2
        == s[1] as usize
}

pub(crate) fn check_unspendable(s: &[u8]) -> (r: bool)
    ensures
        r == is_provable_unspendable(s@),
{
    if s.len() == 0 {
        return false;
    }
    let b = s[0];
    b == 0x65 || b == 0x66 || b == 0xff || b == 0x7e || b == 0x7f || b == 0x80 || b == 0x81 || b == 0x83
        || b == 0x84 || b == 0x85 || b == 0x86 || b == 0x8d || b == 0x8e || b == 0x95 || b == 0x96 || b
        == 0x97 || b == 0x98 || b == 0x99 || b == 0x6a || b == 0x50 || b == 0x89 || b == 0x8a || b == 0x62
        || b >= 0xba
}

fn copy_bytes(s: &[u8]) -> (r: Vec<u8>)
    ensures
        r@ == s@,
{
    let mut out: Vec<u8> = Vec::new();
    out.extend_from_slice(s);
    out
}

/// The payload a script pays to, if it follows an addressable template.
pub fn payload_from_script(s: &[u8]) -> (r: Option<Payload>)
    ensures
        match payload_of_script(s@) {
            Some(p) => r matches Some(q) && q.view() == p,
            None => r is None,
        },
{
    if check_p2pkh(s) {
        let mut h = [0u8; 20];
        let mut i: usize = 0;
        while i < 20
            invariant
                s@.len() == 25,
                0 <= i <= 20,
                forall|j: int| 0 <= j < i ==> h@[j] == s@[3 + j],
            decreases 20 - i,
        {
            h[i] = s[3 + i];
            i = i + 1;
        }
        assert(h@ =~= s@.subrange(3, 23));
        Some(Payload::PubkeyHash(h))
    } else if check_p2sh(s) {
        let mut h = [0u8; 20];
        let mut i: usize = 0;
        while i < 20
            invariant
                s@.len() == 23,
                0 <= i <= 20,
                forall|j: int| 0 <= j < i ==> h@[j] == s@[2 + j],
            decreases 20 - i,
        {
            h[i] = s[2 + i];
            i = i + 1;
        }
        assert(h@ =~= s@.subrange(2, 22));
        Some(Payload::ScriptHash(h))
    } else if check_witness_program(s) {
        let version = version_of(s).unwrap();
        let program = copy_bytes(&s[2..s.len()]);
        assert(program@ =~= s@.skip(2));
        let n = program.len();
        if version <= 16 && 2 <= n && n <= 40 && (version != 0 || n == 20 || n == 32) {
            Some(Payload::WitnessProgram { version, program })
        } else {
            None
        }
    } else {
        None
    }
}

/// The address a script pays to, if it follows an addressable template.
pub fn script_to_address_str(s: &[u8], coin: &CoinType) -> (r: Option<String>)
    ensures
        opt_text(r) == script_address(s@, coin.pubkey_address, coin.script_address, coin.bech32@),
{
    match payload_from_script(s) {
        Some(p) => Some(payload_to_address_str(&p, coin)),
        None => None,
    }
}

/// The address of a pay-to-pubkey script: the pubkey-hash address of its
/// key, when the key is valid.
fn p2pk_to_string(s: &[u8], coin: &CoinType) -> (r: Option<String>)
    requires
        is_p2pk(s@),
    ensures
        opt_text(r) == p2pk_address(s@, coin.pubkey_address, coin.script_address, coin.bech32@),
{
    let key = &s[1..s.len() - 1];
    match p2pk_key_hash(key) {
        Some(h) => Some(payload_to_address_str(&Payload::PubkeyHash(h), coin)),
        None => None,
    }
}

/// Reads the template of an output script and the address it pays to.
///
/// `OP_RETURN` scripts carry their data (as text) and no address; other
/// scripts that can be proved unspendable from their first opcode carry
/// neither. Pay-to-pubkey scripts get the pubkey-hash address of their key;
/// the other templates get the address of their payload, when they have one.
pub fn eval_from_bytes(bytes: &[u8], coin: &CoinType) -> (r: EvaluatedScript)
    ensures
        (bytes@.len() == 67 && bytes@[0] == 0x41 && bytes@[66] == 0xac) || (bytes@.len() == 35 && bytes@[0] == 0x21
            && bytes@[34] == 0xac) ==> r.pattern == ScriptPattern::Pay2PublicKey && opt_text(r.address) == (match pubkey_hash_of(
            bytes@.subrange(1, bytes@.len() - 1),
        ) {
            Some(h) => Some(address_encoding(PayloadView::PubkeyHash(h), coin.pubkey_address, coin.script_address, coin.bech32@)),
            None => None::<Seq<char>>,
        }),
        is_op_return(bytes@) ==> r.address is None && (r.pattern matches ScriptPattern::OpReturn(d) && d@
            == op_return_text(bytes@)),
        !is_op_return(bytes@) && is_provable_unspendable(bytes@) ==> r.address is None
            && r.pattern is Unspendable,
        !is_op_return(bytes@) && !is_provable_unspendable(bytes@) ==> {
            &&& r.pattern == template_of(bytes@)
            &&& is_p2pk(bytes@) ==> opt_text(r.address) == p2pk_address(
                bytes@,
                coin.pubkey_address,
                coin.script_address,
                coin.bech32@,
            )
            &&& !is_p2pk(bytes@) ==> opt_text(r.address) == script_address(
                bytes@,
                coin.pubkey_address,
                coin.script_address,
                coin.bech32@,
            )
        },
{
    proof {
        if (bytes@.len() == 67 && bytes@[0] == 0x41 && bytes@[66] == 0xac) || (bytes@.len() == 35 && bytes@[0] == 0x21
            && bytes@[34] == 0xac) {
            law_pay_to_pubkey_forms(bytes@, coin.pubkey_address, coin.script_address, coin.bech32@);
        }
    }
    eval_from_bytes_bellscoin(bytes, coin)
}

/// See `eval_from_bytes`.
pub fn eval_from_bytes_bellscoin(bytes: &[u8], coin: &CoinType) -> (r: EvaluatedScript)
    ensures
        is_op_return(bytes@) ==> r.address is None && (r.pattern matches ScriptPattern::OpReturn(d) && d@
            == op_return_text(bytes@)),
        !is_op_return(bytes@) && is_provable_unspendable(bytes@) ==> r.address is None
            && r.pattern is Unspendable,
        !is_op_return(bytes@) && !is_provable_unspendable(bytes@) ==> {
            &&& r.pattern == template_of(bytes@)
            &&& is_p2pk(bytes@) ==> opt_text(r.address) == p2pk_address(
                bytes@,
                coin.pubkey_address,
                coin.script_address,
                coin.bech32@,
            )
            &&& !is_p2pk(bytes@) ==> opt_text(r.address) == script_address(
                bytes@,
                coin.pubkey_address,
                coin.script_address,
                coin.bech32@,
            )
        },
{
    if bytes.len() > 0 && bytes[0] == 0x6a {
        let data = if bytes.len() >= 2 {
            copy_bytes(&bytes[2..bytes.len()])
        } else {
            Vec::new()
        };
        assert(data@ =~= (if bytes@.len() >= 2 { bytes@.skip(2) } else { Seq::empty() }));
        let text = match utf8_string(data) {
            Some(t) => t,
            None => String::new(),
        };
        return EvaluatedScript::new(None, ScriptPattern::OpReturn(text));
    } else if check_unspendable(bytes) {
        return EvaluatedScript::new(None, ScriptPattern::Unspendable);
    }
    let address = script_to_address_str(bytes, coin);
    let (v0, v1) = match version_of(bytes) {
        Some(0) => (true, false),
        Some(1) => (false, true),
        _ => (false, false),
    };
    if check_p2pk(bytes) {
        EvaluatedScript::new(p2pk_to_string(bytes, coin), ScriptPattern::Pay2PublicKey)
    } else if check_p2pkh(bytes) {
        EvaluatedScript::new(address, ScriptPattern::Pay2PublicKeyHash)
    } else if check_p2sh(bytes) {
        EvaluatedScript::new(address, ScriptPattern::Pay2ScriptHash)
    } else if bytes.len() == 22 && v0 && bytes[1] == 0x14 {
        EvaluatedScript::new(address, ScriptPattern::Pay2WitnessPublicKeyHash)
    } else if bytes.len() == 34 && v0 && bytes[1] == 0x20 {
        EvaluatedScript::new(address, ScriptPattern::Pay2WitnessScriptHash)
    } else if bytes.len() == 34 && v1 && bytes[1] == 0x20 {
        EvaluatedScript::new(address, ScriptPattern::Pay2Taproot)
    } else if check_witness_program(bytes) {
        EvaluatedScript::new(address, ScriptPattern::WitnessProgram)
    } else {
        EvaluatedScript::new(address, ScriptPattern::NotRecognised)
    }
}

} // verus!
