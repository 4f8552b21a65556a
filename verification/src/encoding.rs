//! Identifiers made as tagged hashes, and the text form of partially signed
//! transactions.

use vstd::prelude::*;
use vstd::string::StringSliceAdditionalSpecFns;

use crate::cli::PsbtFormat;
use crate::model::PsbtWrapper;
use crate::parse::{hex_text, push_hex};
use crate::text::string_from_chars;

verus! {

/// The SHA-256 digest of some bytes.
pub uninterp spec fn sha256_of(data: Seq<u8>) -> Seq<u8>;

/// `bitcoin::hashes::sha256::Hash::hash`: the SHA-256 digest of the bytes,
/// by name (`sha256_of`), which is 32 bytes long.
#[verifier::external_body]
fn sha256(data: &Vec<u8>) -> (r: Vec<u8>)
    ensures
        r@ == sha256_of(data@),
        r@.len() == 32,
{
    <bitcoin::hashes::sha256::Hash as bitcoin::hashes::Hash>::hash(data)[..].to_vec()
}

/// The tagged hash of a message: SHA-256 over the digest of the tag, twice,
/// followed by the message.
pub open spec fn tagged_hash(tag: Seq<u8>, msg: Seq<u8>) -> Seq<u8> {
    sha256_of(sha256_of(tag) + sha256_of(tag) + msg)
}

/// Computes the tagged hash of a message.
fn tagged(tag: &str, msg: &Vec<u8>) -> (r: Vec<u8>)
    ensures
        r@ == tagged_hash(tag.spec_bytes(), msg@),
{
    let t = sha256(&tag.as_bytes_vec());
    let mut data: Vec<u8> = Vec::new();
    let mut i: usize = 0;
    while i < t.len()
        invariant
            i <= t@.len(),
            data@ == t@.take(i as int),
        decreases t@.len() - i,
    {
        data.push(t[i]);
        i = i + 1;
        assert(data@ =~= t@.take(i as int));
    }
    let mut i: usize = 0;
    while i < t.len()
        invariant
            i <= t@.len(),
            data@ == t@ + t@.take(i as int),
        decreases t@.len() - i,
    {
        data.push(t[i]);
        i = i + 1;
        assert(data@ =~= t@ + t@.take(i as int));
    }
    let mut i: usize = 0;
    while i < msg.len()
        invariant
            i <= msg@.len(),
            data@ == t@ + t@ + msg@.take(i as int),
        decreases msg@.len() - i,
    {
        data.push(msg[i]);
        i = i + 1;
        assert(data@ =~= t@ + t@ + msg@.take(i as int));
    }
    assert(t@.take(t@.len() as int) =~= t@);
    assert(msg@.take(msg@.len() as int) =~= msg@);
    sha256(&data)
}

/// Tag of signer identifiers.
pub struct SignerIdTag;

impl SignerIdTag {
    pub fn tag() -> (r: &'static str)
        ensures
            r@ == "mycitadel:signer"@,
    {
        "mycitadel:signer"
    }
}

/// Identifier of a signer: the tagged hash of its data.
pub struct SignerId(pub Vec<u8>);

impl SignerId {
    /// The identifier committing to a message.
    pub fn commit(msg: &Vec<u8>) -> (r: SignerId)
        ensures
            r.0@ == tagged_hash("mycitadel:signer".spec_bytes(), msg@),
    {
        SignerId(tagged("mycitadel:signer", msg))
    }
}

/// Tag of wallet identifiers.
pub struct WalletIdTag;

impl WalletIdTag {
    pub fn tag() -> (r: &'static str)
        ensures
            r@ == "mycitadel:wallet"@,
    {
        "mycitadel:wallet"
    }
}

/// Identifier of a wallet: the tagged hash of its contract data.
pub struct WalletId(pub Vec<u8>);

impl WalletId {
    /// The identifier committing to a message.
    pub fn commit(msg: &Vec<u8>) -> (r: WalletId)
        ensures
            r.0@ == tagged_hash("mycitadel:wallet".spec_bytes(), msg@),
    {
        WalletId(tagged("mycitadel:wallet", msg))
    }
}

// --- PSBT text

/// The standard Base64 text of some bytes.
pub uninterp spec fn base64_text(data: Seq<u8>) -> Seq<char>;

/// The bytes of a standard Base64 text; none when it is not one.
pub uninterp spec fn base64_bytes(text: Seq<char>) -> Option<Seq<u8>>;

/// The consensus serialization of the PSBT that some bytes decode to; none
/// when they do not decode to one.
pub uninterp spec fn psbt_reencoded(data: Seq<u8>) -> Option<Seq<u8>>;

/// `base64::encode`: the standard Base64 text of the bytes, by name
/// (`base64_text`), which `base64::decode` reads back as the same bytes.
#[verifier::external_body]
pub(crate) fn base64_encode(data: &Vec<u8>) -> (r: String)
    ensures
        r@ == base64_text(data@),
        base64_bytes(r@) == Some(data@),
{
    base64::encode(data)
}

/// `base64::decode`: the bytes of a standard Base64 text, or none when
/// the text is not one, by name (`base64_bytes`).
#[verifier::external_body]
fn base64_decode(text: &str) -> (r: Option<Vec<u8>>)
    ensures
        match r {
            Some(v) => base64_bytes(text@) == Some(v@),
            None => base64_bytes(text@) is None,
        },
{
    base64::decode(text).ok()
}

/// `bitcoin::consensus::deserialize` of a PSBT followed by `serialize`:
/// the bytes of the PSBT the input decodes to, or none when it decodes to
/// none, by name (`psbt_reencoded`).
#[verifier::external_body]
fn psbt_reencode(data: &Vec<u8>) -> (r: Option<Vec<u8>>)
    ensures
        match r {
            Some(v) => psbt_reencoded(data@) == Some(v@),
            None => psbt_reencoded(data@) is None,
        },
{
    bitcoin::consensus::deserialize::<bitcoin::util::psbt::PartiallySignedTransaction>(data)
        .ok()
        .map(|psbt| bitcoin::consensus::serialize(&psbt))
}

/// Why a PSBT text was refused.
#[derive(Clone, Copy, PartialEq, Eq, Structural, Debug)]
pub enum PsbtParseError {
    /// The text is not Base64 (reported as a non-minimal integer encoding).
    NonMinimalVarInt,
    /// The bytes are not a PSBT.
    Consensus,
}

/// What reading a PSBT text gives: the bytes of the PSBT that its Base64
/// decodes to, in their own serialization.
pub open spec fn psbt_parse_spec(s: Seq<char>) -> Result<Seq<u8>, PsbtParseError> {
    match base64_bytes(s) {
        None => Err(PsbtParseError::NonMinimalVarInt),
        Some(b) => match psbt_reencoded(b) {
            None => Err(PsbtParseError::Consensus),
            Some(p) => Ok(p),
        },
    }
}

impl PsbtWrapper {
    /// The Base64 text of the PSBT, which reads back as its bytes.
    pub fn to_string(&self) -> (r: String)
        ensures
            r@ == base64_text(self.0@),
            base64_bytes(r@) == Some(self.0@),
    {
        base64_encode(&self.0)
    }

    /// The PSBT of a Base64 text (see `psbt_parse_spec`).
    pub fn from_str(s: &str) -> (r: Result<PsbtWrapper, PsbtParseError>)
        ensures
            match psbt_parse_spec(s@) {
                Err(e) => r == Err::<PsbtWrapper, PsbtParseError>(e),
                Ok(p) => r matches Ok(w) && w.0@ == p,
            },
    {
        let bytes = match base64_decode(s) {
            Some(b) => b,
            None => return Err(PsbtParseError::NonMinimalVarInt),
        };
        match psbt_reencode(&bytes) {
            Some(p) => Ok(PsbtWrapper(p)),
            None => Err(PsbtParseError::Consensus),
        }
    }
}

/// The lower-case hex text of some bytes, two digits each.
pub open spec fn bytes_hex(s: Seq<u8>) -> Seq<char>
    decreases s.len(),
{
    if s.len() == 0 {
        Seq::empty()
    } else {
        bytes_hex(s.drop_last()) + hex_text(s.last() as nat, 2)
    }
}

/// A PSBT as it is written out: its bytes, or a text.
pub enum PsbtOutput {
    Binary(Vec<u8>),
    Text(String),
}

/// How a PSBT is written out in each format: its serialization as it is,
/// as lower-case hex, or as standard Base64.
pub fn psbt_output(psbt: &PsbtWrapper, format: PsbtFormat) -> (r: PsbtOutput)
    ensures
        match format {
            PsbtFormat::Binary => r matches PsbtOutput::Binary(b) && b@ == psbt.0@,
            PsbtFormat::Hexadecimal => r matches PsbtOutput::Text(t) && t@ == bytes_hex(psbt.0@),
            PsbtFormat::Base64 => r matches PsbtOutput::Text(t) && t@ == base64_text(psbt.0@),
        },
{
    match format {
        PsbtFormat::Binary => PsbtOutput::Binary(psbt.0.clone()),
        PsbtFormat::Hexadecimal => {
            let b = &psbt.0;
            let mut out: Vec<char> = Vec::new();
            let mut i: usize = 0;
            while i < b.len()
                invariant
                    i <= b@.len(),
                    out@ == bytes_hex(b@.take(i as int)),
                decreases b@.len() - i,
            {
                push_hex(&mut out, b[i] as u128, 2);
                assert(b@.take(i + 1).drop_last() =~= b@.take(i as int));
                i = i + 1;
            }
            assert(b@.take(i as int) =~= b@);
            PsbtOutput::Text(string_from_chars(out.as_slice()))
        },
        PsbtFormat::Base64 => PsbtOutput::Text(base64_encode(&psbt.0)),
    }
}

} // verus!
