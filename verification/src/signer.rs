//! Key management for signers: BIP39 mnemonics and seeds, BIP32 master,
//! scoped and public extended keys, and the public key chains the wallet
//! descriptors are made of. Results are strings with an error code, as the
//! C interface hands them out.

use vstd::prelude::*;

use bitcoin::util::bip32::Error as Bip32OutsideError;
use bitcoin::util::bip32::{ChildNumber, DerivationPath, ExtendedPrivKey, ExtendedPubKey};
use bitcoin::Network;

use crate::bip21::pieces;
use crate::parse::parse_uint_spec;
use crate::text::{chars_of, decimal, push_chars, push_decimal, push_str_chars, string_from_chars};

verus! {

/// Zeroes a secret and gives it up.
pub trait Wipe {
    fn wipe(self);
}

/// Zeroes a secret in place.
pub trait Clean {
    fn clean(&mut self);
}

impl Wipe for Vec<u8> {
    fn wipe(self) {
        let mut v = self;
        v.clean();
    }
}

impl Clean for Vec<u8> {
    fn clean(&mut self)
        ensures
            final(self)@.len() == old(self)@.len(),
            forall|i: int| 0 <= i < final(self)@.len() ==> final(self)@[i] == 0,
    {
        let mut i: usize = 0;
        while i < self.len()
            invariant
                i <= self@.len(),
                self@.len() == old(self)@.len(),
                forall|j: int| 0 <= j < i ==> self@[j] == 0,
            decreases self@.len() - i,
        {
            self.set(i, 0);
            i = i + 1;
        }
    }
}

/// Result codes of the key management functions.
#[allow(non_camel_case_types)]
#[derive(Clone, Copy, PartialEq, Eq, Structural, Debug)]
pub enum err_type {
    success,
    /// got a null pointer as one of the function arguments
    null_pointer,
    /// result data must be a valid string which does not contain zero bytes
    invalid_result_data,
    /// invalid mnemonic string
    invalid_mnemonic,
    /// invalid UTF-8 string
    invalid_utf8_string,
    /// wrong BIP32 extended public or private key data
    wrong_extended_key,
    /// unable to derive hardened path from a public key
    unable_to_derive_hardened,
    /// invalid derivation path
    invalid_derivation_path,
    /// general BIP32-specific failure
    bip32_failure,
}

/// The message of a result code (empty for success).
pub open spec fn err_message(e: err_type) -> Seq<char> {
    match e {
        err_type::success => ""@,
        err_type::null_pointer => "got a null pointer as one of the function arguments"@,
        err_type::invalid_result_data => "result data must be a valid string which does not contain zero bytes"@,
        err_type::invalid_mnemonic => "invalid mnemonic string"@,
        err_type::invalid_utf8_string => "invalid UTF-8 string"@,
        err_type::wrong_extended_key => "wrong BIP32 extended public or private key data"@,
        err_type::unable_to_derive_hardened => "unable to derive hardened path from a public key"@,
        err_type::invalid_derivation_path => "invalid derivation path"@,
        err_type::bip32_failure => "general BIP32-specific failure"@,
    }
}

impl Default for err_type {
    fn default() -> (r: Self)
        ensures
            r == err_type::success,
    {
        err_type::success
    }
}

/// Kinds of BIP32 failures.
#[derive(Clone, Copy, PartialEq, Eq, Structural, Debug)]
pub enum Bip32Error {
    CannotDeriveFromHardenedKey,
    Ecdsa,
    InvalidChildNumber(u32),
    RngError,
    InvalidChildNumberFormat,
    InvalidDerivationPathFormat,
    UnknownVersion,
    WrongExtendedKeyLength(usize),
    Base58,
}

/// A BIP32 failure, by its kind.
pub struct Bip32Failure {
    pub kind: Bip32Error,
}

impl err_type {
    /// The message of the code (empty for success).
    pub fn to_string(&self) -> (r: String)
        ensures
            r@ == err_message(*self),
    {
        match self {
            err_type::success => String::from_str(""),
            err_type::null_pointer => String::from_str("got a null pointer as one of the function arguments"),
            err_type::invalid_result_data => String::from_str("result data must be a valid string which does not contain zero bytes"),
            err_type::invalid_mnemonic => String::from_str("invalid mnemonic string"),
            err_type::invalid_utf8_string => String::from_str("invalid UTF-8 string"),
            err_type::wrong_extended_key => String::from_str("wrong BIP32 extended public or private key data"),
            err_type::unable_to_derive_hardened => String::from_str("unable to derive hardened path from a public key"),
            err_type::invalid_derivation_path => String::from_str("invalid derivation path"),
            err_type::bip32_failure => String::from_str("general BIP32-specific failure"),
        }
    }

    /// The code of a BIP32 failure.
    pub fn from(err: Bip32Error) -> (r: err_type)
        ensures
            r == bip32_code(err),
    {
        match err {
            Bip32Error::CannotDeriveFromHardenedKey => err_type::unable_to_derive_hardened,
            Bip32Error::InvalidChildNumber(_)
            | Bip32Error::InvalidChildNumberFormat
            | Bip32Error::InvalidDerivationPathFormat => err_type::invalid_derivation_path,
            Bip32Error::Base58 | Bip32Error::UnknownVersion | Bip32Error::WrongExtendedKeyLength(_) => {
                err_type::wrong_extended_key
            },
            Bip32Error::RngError | Bip32Error::Ecdsa => err_type::bip32_failure,
        }
    }
}

/// The result code of a BIP32 failure.
pub open spec fn bip32_code(err: Bip32Error) -> err_type {
    match err {
        Bip32Error::CannotDeriveFromHardenedKey => err_type::unable_to_derive_hardened,
        Bip32Error::InvalidChildNumber(_) => err_type::invalid_derivation_path,
        Bip32Error::InvalidChildNumberFormat => err_type::invalid_derivation_path,
        Bip32Error::InvalidDerivationPathFormat => err_type::invalid_derivation_path,
        Bip32Error::Base58 => err_type::wrong_extended_key,
        Bip32Error::UnknownVersion => err_type::wrong_extended_key,
        Bip32Error::WrongExtendedKeyLength(_) => err_type::wrong_extended_key,
        Bip32Error::RngError => err_type::bip32_failure,
        Bip32Error::Ecdsa => err_type::bip32_failure,
    }
}

/// A string result: a code and, on success, the data; otherwise a message.
#[allow(non_camel_case_types)]
pub struct string_result_t {
    pub code: err_type,
    pub details: String,
}

/// The message for data holding a zero character at `pos`.
pub open spec fn nul_message(pos: nat) -> Seq<char> {
    "nul byte found in provided data at position: "@ + decimal(pos)
}

/// The result of handing out `data`: success with the data, unless it holds
/// a zero character.
pub open spec fn success_spec(data: Seq<char>) -> (err_type, Seq<char>) {
    if data.contains('\0') {
        (
            err_type::invalid_result_data,
            nul_message((choose|i: int| 0 <= i < data.len() && data[i] == '\0' && forall|j: int| 0 <= j < i ==> data[j] != '\0') as nat),
        )
    } else {
        (err_type::success, data)
    }
}

impl string_result_t {
    pub open spec fn parts(&self) -> (err_type, Seq<char>) {
        (self.code, self.details@)
    }

    /// Hands out `data`: success, unless the data holds a zero character.
    pub fn success(data: String) -> (r: string_result_t)
        ensures
            r.parts() == success_spec(data@),
    {
        let v = chars_of(data.as_str());
        match crate::text::find_char(&v, '\0') {
            Some(pos) => {
                let mut m: Vec<char> = Vec::new();
                push_str_chars(&mut m, "nul byte found in provided data at position: ");
                push_decimal(&mut m, pos as u64);
                proof {
                    let p = choose|i: int| 0 <= i < v@.len() && v@[i] == '\0' && forall|j: int| 0 <= j < i ==> v@[j] != '\0';
                    assert(p == pos) by {
                        if p < pos {
                        } else if p > pos {
                            assert(v@[pos as int] == '\0');
                        }
                    }
                    assert(v@.contains('\0')) by {
                        assert(v@[pos as int] == '\0');
                    }
                }
                string_result_t { code: err_type::invalid_result_data, details: string_from_chars(m.as_slice()) }
            },
            None => string_result_t { code: err_type::success, details: data },
        }
    }

    /// A success carrying `v` as it is.
    pub fn from_ok(v: String) -> (r: string_result_t)
        ensures
            r.code == err_type::success,
            r.details@ == v@,
    {
        string_result_t { code: err_type::success, details: v }
    }

    /// A failure with the code's message.
    pub fn error(code: err_type) -> (r: string_result_t)
        ensures
            r.code == code,
            r.details@ == err_message(code),
    {
        string_result_t { code, details: code.to_string() }
    }

    /// A failure with the code of a BIP32 failure and that code's message.
    pub fn bip32_error(err: Bip32Failure) -> (r: string_result_t)
        ensures
            r.code == bip32_code(err.kind),
            r.details@ == err_message(r.code),
    {
        string_result_t::error(err_type::from(err.kind))
    }

    pub fn is_success(&self) -> (r: bool)
        ensures
            r == (self.code == err_type::success),
    {
        self.code == err_type::success
    }

    /// The data on success, the code otherwise.
    pub fn into_result(self) -> (r: Result<String, err_type>)
        ensures
            match r {
                Ok(d) => self.code == err_type::success && d@ == self.details@,
                Err(c) => self.code != err_type::success && c == self.code,
            },
    {
        if self.is_success() {
            Ok(self.details)
        } else {
            Err(self.code)
        }
    }
}

/// Mnemonic lengths.
#[allow(non_camel_case_types)]
#[derive(Clone, Copy, PartialEq, Eq, Structural, Debug)]
pub enum bip39_mnemonic_type {
    words_12,
    words_15,
    words_18,
    words_21,
    words_24,
}

pub open spec fn mnemonic_bytes(t: bip39_mnemonic_type) -> nat {
    match t {
        bip39_mnemonic_type::words_12 => 16,
        bip39_mnemonic_type::words_15 => 20,
        bip39_mnemonic_type::words_18 => 24,
        bip39_mnemonic_type::words_21 => 28,
        bip39_mnemonic_type::words_24 => 32,
    }
}

impl bip39_mnemonic_type {
    /// Bytes of entropy behind a mnemonic of this length.
    pub fn byte_len(self) -> (r: usize)
        ensures
            r == mnemonic_bytes(self),
    {
        match self {
            bip39_mnemonic_type::words_12 => 16,
            bip39_mnemonic_type::words_15 => 160 / 8,
            bip39_mnemonic_type::words_18 => 192 / 8,
            bip39_mnemonic_type::words_21 => 224 / 8,
            bip39_mnemonic_type::words_24 => 32,
        }
    }

    /// Words of a mnemonic of this length: the entropy bits and their
    /// checksum bits (one per 32 bits of entropy), 11 bits a word.
    pub fn word_len(self) -> (r: usize)
        ensures
            r == (mnemonic_bytes(self) * 8 + mnemonic_bytes(self) * 8 / 32) / 11,
            r == mnemonic_bytes(self) * 3 / 4,
            r == match self {
                bip39_mnemonic_type::words_12 => 12usize,
                bip39_mnemonic_type::words_15 => 15usize,
                bip39_mnemonic_type::words_18 => 18usize,
                bip39_mnemonic_type::words_21 => 21usize,
                bip39_mnemonic_type::words_24 => 24usize,
            },
    {
        (self.byte_len() * 8 + self.byte_len() * 8 / 32) / 11
    }
}

// --- Outside computations

/// The English BIP39 mnemonic of a valid entropy, words separated by
/// single spaces.
pub uninterp spec fn bip39_phrase(entropy: Seq<u8>) -> Seq<char>;

/// Whether a text parses as a BIP39 mnemonic.
pub uninterp spec fn bip39_phrase_valid(phrase: Seq<char>) -> bool;

/// The 64-byte BIP39 seed of a mnemonic and a password.
pub uninterp spec fn bip39_seed(phrase: Seq<char>, password: Seq<char>) -> Seq<u8>;

/// The base58 text of the BIP32 master key of a seed, on the test or the
/// main network; none when the seed gives no valid key.
pub uninterp spec fn bip32_master(seed: Seq<u8>, testnet: bool) -> Option<Seq<char>>;

/// What reading a text as an extended private key gives: its depth byte
/// (how many derivation steps lie between it and its master key), or the
/// kind of the failure.
pub uninterp spec fn bip32_xpriv_parse(xpriv: Seq<char>) -> Result<u8, Bip32Error>;

/// Whether a text parses as an extended private key.
pub open spec fn bip32_xpriv_valid(xpriv: Seq<char>) -> bool {
    bip32_xpriv_parse(xpriv) is Ok
}

/// The text of the extended private key derived from `master` along `path`
/// (child numbers, hardened ones with the top bit set); none when a step
/// gives no valid key.
pub uninterp spec fn bip32_derive_priv(master: Seq<char>, path: Seq<u32>) -> Option<Seq<char>>;

/// The depth byte of an extended private key.
pub open spec fn bip32_depth(xpriv: Seq<char>) -> u8 {
    bip32_xpriv_parse(xpriv)->Ok_0
}

/// The kind of failure of reading a text as an extended private key.
pub open spec fn bip32_xpriv_failure(xpriv: Seq<char>) -> Bip32Error {
    bip32_xpriv_parse(xpriv)->Err_0
}

/// The text of the extended public key of an extended private key.
pub uninterp spec fn bip32_xpub_of(xpriv: Seq<char>) -> Seq<char>;

/// The hex text of the fingerprint of the public key of an extended
/// private key.
pub uninterp spec fn bip32_fingerprint(xpriv: Seq<char>) -> Seq<char>;

/// The child number of a derivation step: a number below 2^31 as `u32`
/// parsing reads it (an optional `+`, then decimal digits), followed by
/// `'` or `h` for a hardened step, which sets the top bit.
pub open spec fn child_number_spec(step: Seq<char>) -> Option<u32> {
    let hardened = step.len() > 0 && (step.last() == '\'' || step.last() == 'h');
    let digits = if hardened {
        step.drop_last()
    } else {
        step
    };
    match parse_uint_spec(digits, 0x7fff_ffff) {
        Some(n) => Some(
            if hardened {
                (n + 0x8000_0000) as u32
            } else {
                n as u32
            },
        ),
        None => None,
    }
}

/// The child numbers of a derivation path text: `m`, then a child number
/// (see `child_number_spec`) after each `/`; none when the text is not a
/// path.
pub open spec fn bip32_path(text: Seq<char>) -> Option<Seq<u32>> {
    let ps = pieces(text, '/');
    if ps[0] == seq!['m'] && forall|i: int| 1 <= i < ps.len() ==> #[trigger] child_number_spec(ps[i]) is Some {
        Some(Seq::new((ps.len() - 1) as nat, |i: int| child_number_spec(ps[i + 1])->0))
    } else {
        None
    }
}

/// Whether BIP39 accepts an entropy of `n` bytes: 128 to 256 bits, a
/// multiple of 32 bits.
pub open spec fn entropy_len_ok(n: nat) -> bool {
    n * 8 % 32 == 0 && 128 <= n * 8 <= 256
}

/// The BIP32 error type of `bitcoin`.
#[verifier::external_type_specification]
#[verifier::external_body]
pub struct ExBip32Error(bitcoin::util::bip32::Error);

/// Converts a `bitcoin` BIP32 error into its kind, one variant for each.
#[verifier::external_body]
fn bip32_failure(e: Bip32OutsideError) -> Bip32Failure {
    let kind = match e {
        Bip32OutsideError::CannotDeriveFromHardenedKey => Bip32Error::CannotDeriveFromHardenedKey,
        Bip32OutsideError::Ecdsa(_) => Bip32Error::Ecdsa,
        Bip32OutsideError::InvalidChildNumber(n) => Bip32Error::InvalidChildNumber(n),
        Bip32OutsideError::RngError(_) => Bip32Error::RngError,
        Bip32OutsideError::InvalidChildNumberFormat => Bip32Error::InvalidChildNumberFormat,
        Bip32OutsideError::InvalidDerivationPathFormat => Bip32Error::InvalidDerivationPathFormat,
        Bip32OutsideError::UnknownVersion(_) => Bip32Error::UnknownVersion,
        Bip32OutsideError::WrongExtendedKeyLength(n) => Bip32Error::WrongExtendedKeyLength(n),
        Bip32OutsideError::Base58(_) => Bip32Error::Base58,
    };
    Bip32Failure { kind }
}

/// `rand::thread_rng().fill_bytes`: `n` random bytes. Nothing is claimed of
/// the bytes but their number.
#[verifier::external_body]
fn random_entropy(n: usize) -> (r: Vec<u8>)
    ensures
        r@.len() == n,
{
    let mut v = vec![0u8; n];
    rand::RngCore::fill_bytes(&mut rand::thread_rng(), &mut v);
    v
}

/// `bip39::Mnemonic::from_entropy`, shown as text: it succeeds exactly on
/// entropies of 16 to 32 bytes in steps of 4, giving their mnemonic, whose
/// words come from an ASCII word list and are joined by spaces (so it holds
/// no zero character); the error message is not stated.
#[verifier::external_body]
fn mnemonic_from_entropy(entropy: &Vec<u8>) -> (r: Result<String, String>)
    ensures
        match r {
            Ok(s) => entropy_len_ok(entropy@.len()) && s@ == bip39_phrase(entropy@) && !s@.contains('\0'),
            Err(_) => !entropy_len_ok(entropy@.len()),
        },
{
    bip39::Mnemonic::from_entropy(entropy).map(|m| m.to_string()).map_err(|e| e.to_string())
}

/// `bip39::Mnemonic::from_str` followed by `to_seed`: the 64-byte seed of a
/// valid mnemonic with a password; nothing for another text.
#[verifier::external_body]
fn seed_from_phrase(phrase: &str, password: &str) -> (r: Option<Vec<u8>>)
    ensures
        match r {
            Some(s) => bip39_phrase_valid(phrase@) && s@ == bip39_seed(phrase@, password@) && s@.len() == 64,
            None => !bip39_phrase_valid(phrase@),
        },
{
    phrase.parse::<bip39::Mnemonic>().ok().map(|m| m.to_seed(password).to_vec())
}

/// `ExtendedPrivKey::new_master`, shown as text (Base58, so with no zero
/// character); a failure comes from the key bytes only.
#[verifier::external_body]
fn xpriv_new_master(seed: &Vec<u8>, testnet: bool) -> (r: Result<String, Bip32Failure>)
    ensures
        match r {
            Ok(s) => bip32_master(seed@, testnet) == Some(s@) && !s@.contains('\0'),
            Err(e) => bip32_master(seed@, testnet) is None && e.kind is Ecdsa,
        },
{
    let network = if testnet { Network::Testnet } else { Network::Bitcoin };
    ExtendedPrivKey::new_master(network, seed).map(|k| k.to_string()).map_err(bip32_failure)
}

/// `ExtendedPrivKey::from_str`: the depth byte of the key the text reads
/// as, or the kind of the parse failure, by name (`bip32_xpriv_parse`);
/// a failure is one of decoding, of the version, of the length or of the
/// secret key.
#[verifier::external_body]
fn xpriv_check(xpriv: &str) -> (r: Result<u8, Bip32Failure>)
    ensures
        match r {
            Ok(d) => bip32_xpriv_parse(xpriv@) == Ok::<u8, Bip32Error>(d),
            Err(e) => bip32_xpriv_parse(xpriv@) == Err::<u8, Bip32Error>(e.kind) && (e.kind is Base58
                || e.kind is UnknownVersion || e.kind is WrongExtendedKeyLength || e.kind is Ecdsa),
        },
{
    xpriv.parse::<ExtendedPrivKey>().map(|k| k.depth).map_err(bip32_failure)
}

/// `ExtendedPrivKey::derive_priv` on a valid extended private key text,
/// shown as text (Base58, with no zero character), which parses back as an
/// extended private key; a failure comes from the key bytes only. Each step
/// adds one to the key's depth byte, which must not overflow.
#[verifier::external_body]
fn xpriv_derive(master: &str, path: &Vec<u32>) -> (r: Result<String, Bip32Failure>)
    requires
        bip32_xpriv_valid(master@),
        bip32_depth(master@) + path@.len() <= 255,
    ensures
        match r {
            Ok(s) => bip32_derive_priv(master@, path@) == Some(s@) && bip32_xpriv_valid(s@) && !s@.contains('\0'),
            Err(e) => bip32_derive_priv(master@, path@) is None && e.kind is Ecdsa,
        },
{
    let secp = bitcoin::secp256k1::Secp256k1::new();
    let steps: Vec<ChildNumber> = path.iter().map(|i| ChildNumber::from(*i)).collect();
    master.parse::<ExtendedPrivKey>().and_then(|k| k.derive_priv(&secp, &steps)).map(|k| k.to_string()).map_err(bip32_failure)
}

/// `ExtendedPubKey::from_private` on a valid extended private key text,
/// shown as text (Base58, with no zero character).
#[verifier::external_body]
fn xpub_of(xpriv: &str) -> (r: String)
    requires
        bip32_xpriv_valid(xpriv@),
    ensures
        r@ == bip32_xpub_of(xpriv@),
        !r@.contains('\0'),
{
    let secp = bitcoin::secp256k1::Secp256k1::new();
    xpriv.parse::<ExtendedPrivKey>().map(|k| ExtendedPubKey::from_private(&secp, &k).to_string()).unwrap_or_default()
}

/// `ExtendedPubKey::fingerprint` of the public key of a valid extended
/// private key text, as hex text (so with no zero character).
#[verifier::external_body]
fn fingerprint_of(xpriv: &str) -> (r: String)
    requires
        bip32_xpriv_valid(xpriv@),
    ensures
        r@ == bip32_fingerprint(xpriv@),
        !r@.contains('\0'),
{
    let secp = bitcoin::secp256k1::Secp256k1::new();
    xpriv.parse::<ExtendedPrivKey>().map(|k| ExtendedPubKey::from_private(&secp, &k).fingerprint().to_string()).unwrap_or_default()
}

/// `DerivationPath::from_str`, giving the child numbers (hardened ones with
/// the top bit set) of the path `bip32_path` reads. A text that is neither
/// `m` nor starts with `m/` is refused with `InvalidDerivationPathFormat`;
/// `m` alone is the empty path; the other failures are about a child
/// number.
#[verifier::external_body]
fn parse_derivation(text: &str) -> (r: Result<Vec<u32>, Bip32Failure>)
    ensures
        match r {
            Ok(v) => bip32_path(text@) == Some(v@),
            Err(e) => bip32_path(text@) is None && (e.kind is InvalidDerivationPathFormat
                || e.kind is InvalidChildNumberFormat || e.kind is InvalidChildNumber),
        },
        !(text@ == seq!['m'] || (text@.len() >= 2 && text@[0] == 'm' && text@[1] == '/')) ==> (r is Err && r->Err_0.kind is InvalidDerivationPathFormat),
        text@ == seq!['m'] ==> (r is Ok && r->Ok_0@.len() == 0),
{
    text.parse::<DerivationPath>().map(|p| p.into_iter().map(|c| u32::from(*c)).collect()).map_err(bip32_failure)
}

// --- Derivation paths

pub const HARDENED_BIT: u32 = 0x8000_0000;

/// The text with every `/*` taken out, scanning from the left.
pub open spec fn strip_wildcards_spec(s: Seq<char>) -> Seq<char>
    decreases s.len(),
{
    if s.len() < 2 {
        s
    } else if s[0] == '/' && s[1] == '*' {
        strip_wildcards_spec(s.skip(2))
    } else {
        seq![s[0]] + strip_wildcards_spec(s.skip(1))
    }
}

/// Takes every `/*` out of a derivation text.
pub fn strip_wildcards(s: &str) -> (r: String)
    ensures
        r@ == strip_wildcards_spec(s@),
{
    let v = chars_of(s);
    let mut out: Vec<char> = Vec::new();
    let mut i: usize = 0;
    assert(s@.skip(0) =~= s@);
    while i < v.len()
        invariant
            i <= v@.len(),
            v@ == s@,
            strip_wildcards_spec(s@) == out@ + strip_wildcards_spec(s@.skip(i as int)),
        decreases v@.len() - i,
    {
        if i + 1 < v.len() && v[i] == '/' && v[i + 1] == '*' {
            assert(s@.skip(i as int).skip(2) =~= s@.skip(i + 2));
            i = i + 2;
        } else {
            let ghost before = out@;
            out.push(v[i]);
            proof {
                assert(s@.skip(i as int).skip(1) =~= s@.skip(i + 1));
                if s@.skip(i as int).len() >= 2 {
                    assert(strip_wildcards_spec(s@.skip(i as int)) == seq![v@[i as int]] + strip_wildcards_spec(s@.skip(i + 1)));
                } else {
                    assert(s@.skip(i + 1).len() == 0);
                    assert(strip_wildcards_spec(s@.skip(i + 1)) =~= Seq::<char>::empty());
                    assert(s@.skip(i as int) =~= seq![v@[i as int]]);
                }
                assert(out@ + strip_wildcards_spec(s@.skip(i + 1)) =~= before + (seq![v@[i as int]] + strip_wildcards_spec(s@.skip(i + 1))));
            }
            i = i + 1;
        }
    }
    assert(s@.skip(i as int) =~= Seq::<char>::empty());
    assert(out@ + Seq::<char>::empty() =~= out@);
    string_from_chars(out.as_slice())
}

/// Number of leading child numbers up to and including the last hardened
/// one (0 when none is hardened).
pub open spec fn branch_len(p: Seq<u32>) -> nat
    decreases p.len(),
{
    if p.len() == 0 {
        0
    } else if p.last() >= HARDENED_BIT {
        p.len()
    } else {
        branch_len(p.drop_last())
    }
}

proof fn lemma_branch_len(p: Seq<u32>)
    ensures
        branch_len(p) <= p.len(),
        branch_len(p) > 0 ==> p[branch_len(p) - 1] >= HARDENED_BIT,
        forall|i: int| branch_len(p) <= i < p.len() ==> p[i] < HARDENED_BIT,
    decreases p.len(),
{
    if p.len() > 0 && p.last() < HARDENED_BIT {
        lemma_branch_len(p.drop_last());
        assert forall|i: int| branch_len(p) <= i < p.len() implies p[i] < HARDENED_BIT by {
            if i < p.len() - 1 {
                assert(p.drop_last()[i] == p[i]);
            }
        }
    }
}

/// Splits a path into its hardened branch, which ends with its last hardened
/// step, and the unhardened steps after it.
pub fn hardened_normal_split(path: &Vec<u32>) -> (r: (Vec<u32>, Vec<u32>))
    ensures
        r.0@ == path@.take(branch_len(path@) as int),
        r.1@ == path@.skip(branch_len(path@) as int),
        r.0@ + r.1@ == path@,
        forall|i: int| 0 <= i < r.1@.len() ==> r.1@[i] < HARDENED_BIT,
        r.0@.len() > 0 ==> r.0@.last() >= HARDENED_BIT,
{
    proof {
        lemma_branch_len(path@);
    }
    let mut k: usize = path.len();
    assert(path@.take(k as int) =~= path@);
    while k > 0 && path[k - 1] < HARDENED_BIT
        invariant
            k <= path@.len(),
            branch_len(path@) == branch_len(path@.take(k as int)),
        decreases k,
    {
        assert(path@.take(k as int).drop_last() =~= path@.take(k - 1));
        k = k - 1;
    }
    proof {
        if k > 0 {
            assert(path@.take(k as int).last() == path@[k - 1]);
        }
        assert(branch_len(path@.take(k as int)) == k);
    }
    let mut branch: Vec<u32> = Vec::new();
    let mut terminal: Vec<u32> = Vec::new();
    let mut i: usize = 0;
    while i < path.len()
        invariant
            i <= path@.len(),
            k <= path@.len(),
            i <= k ==> branch@ == path@.take(i as int) && terminal@.len() == 0,
            i > k ==> branch@ == path@.take(k as int) && terminal@ == path@.subrange(k as int, i as int),
        decreases path@.len() - i,
    {
        if i < k {
            branch.push(path[i]);
            assert(branch@ =~= path@.take(i + 1));
        } else {
            terminal.push(path[i]);
            assert(terminal@ =~= path@.subrange(k as int, i + 1));
        }
        i = i + 1;
    }
    proof {
        if k == path@.len() {
            assert(branch@ =~= path@.take(k as int));
            assert(terminal@ =~= path@.skip(k as int));
        } else {
            assert(terminal@ =~= path@.skip(k as int));
        }
        assert(branch@ + terminal@ =~= path@);
    }
    (branch, terminal)
}

/// The text of a child number: its index, with `'` when hardened.
pub open spec fn child_text(c: u32) -> Seq<char> {
    if c >= HARDENED_BIT {
        decimal((c - HARDENED_BIT) as nat) + seq!['\'']
    } else {
        decimal(c as nat)
    }
}

/// Child numbers joined by `/`.
pub open spec fn path_text(p: Seq<u32>) -> Seq<char>
    decreases p.len(),
{
    if p.len() == 0 {
        Seq::empty()
    } else if p.len() == 1 {
        child_text(p[0])
    } else {
        path_text(p.drop_last()) + seq!['/'] + child_text(p.last())
    }
}

/// The terminal steps of a key chain: the indexes and a final wildcard,
/// joined by `/`.
pub open spec fn terminal_text(t: Seq<u32>) -> Seq<char> {
    if t.len() == 0 {
        seq!['*']
    } else {
        path_text(t) + seq!['/', '*']
    }
}

/// The text of a seed-based public key chain: the master fingerprint, the
/// source path, the branch extended public key and the terminal steps.
pub open spec fn pubkey_chain_text(fp: Seq<char>, source: Seq<u32>, xpub: Seq<char>, terminal: Seq<u32>) -> Seq<char> {
    seq!['m', '=', '['] + fp + seq![']'] + (if source.len() > 0 {
        seq!['/'] + path_text(source)
    } else {
        Seq::empty()
    }) + seq!['=', '['] + xpub + seq![']', '/'] + terminal_text(terminal)
}

/// Appends the text of child numbers joined by `/`.
fn push_path(out: &mut Vec<char>, p: &Vec<u32>)
    ensures
        final(out)@ == old(out)@ + path_text(p@),
{
    let mut i: usize = 0;
    while i < p.len()
        invariant
            i <= p@.len(),
            out@ == old(out)@ + path_text(p@.take(i as int)),
        decreases p@.len() - i,
    {
        let ghost before = out@;
        if i > 0 {
            out.push('/');
        }
        let c = p[i];
        if c >= HARDENED_BIT {
            push_decimal(out, (c - HARDENED_BIT) as u64);
            out.push('\'');
        } else {
            push_decimal(out, c as u64);
        }
        proof {
            assert(p@.take(i + 1).drop_last() =~= p@.take(i as int));
            assert(p@.take(i + 1).last() == c);
            if i == 0 {
                assert(p@.take(1)[0] == c);
            }
            assert(out@ =~= old(out)@ + path_text(p@.take(i + 1)));
        }
        i = i + 1;
    }
    assert(p@.take(i as int) =~= p@);
}

/// Whether a text holds no zero character.
pub open spec fn no_nul(s: Seq<char>) -> bool {
    forall|i: int| 0 <= i < s.len() ==> s[i] != '\0'
}

proof fn lemma_no_nul_contains(s: Seq<char>)
    ensures
        no_nul(s) <==> !s.contains('\0'),
{
    if !no_nul(s) {
        let i = choose|i: int| 0 <= i < s.len() && s[i] == '\0';
        assert(s.contains('\0'));
    }
}

proof fn lemma_no_nul_concat(a: Seq<char>, b: Seq<char>)
    requires
        no_nul(a),
        no_nul(b),
    ensures
        no_nul(a + b),
{
    assert forall|i: int| 0 <= i < (a + b).len() implies (a + b)[i] != '\0' by {
        if i < a.len() {
            assert((a + b)[i] == a[i]);
        } else {
            assert((a + b)[i] == b[i - a.len()]);
        }
    }
}

proof fn lemma_decimal_no_nul(n: nat)
    ensures
        no_nul(decimal(n)),
{
    crate::roundtrip::lemma_decimal(n);
}

proof fn lemma_path_no_nul(p: Seq<u32>)
    ensures
        no_nul(path_text(p)),
    decreases p.len(),
{
    if p.len() > 0 {
        assert forall|k: int| 0 <= k < p.len() implies no_nul(#[trigger] child_text(p[k])) by {
            if p[k] >= HARDENED_BIT {
                lemma_decimal_no_nul((p[k] - HARDENED_BIT) as nat);
                lemma_no_nul_concat(decimal((p[k] - HARDENED_BIT) as nat), seq!['\''] );
            } else {
                lemma_decimal_no_nul(p[k] as nat);
            }
        }
        if p.len() == 1 {
            assert(no_nul(child_text(p[0])));
        } else {
            lemma_path_no_nul(p.drop_last());
            assert(no_nul(child_text(p[p.len() - 1])));
            lemma_no_nul_concat(path_text(p.drop_last()), seq!['/']);
            lemma_no_nul_concat(path_text(p.drop_last()) + seq!['/'], child_text(p.last()));
        }
    }
}

/// The text of a key chain holds no zero character when its fingerprint
/// and extended key hold none.
proof fn lemma_chain_text_no_nul(fp: Seq<char>, source: Seq<u32>, xpub: Seq<char>, terminal: Seq<u32>)
    requires
        !fp.contains('\0'),
        !xpub.contains('\0'),
    ensures
        !pubkey_chain_text(fp, source, xpub, terminal).contains('\0'),
{
    lemma_no_nul_contains(fp);
    lemma_no_nul_contains(xpub);
    lemma_path_no_nul(source);
    lemma_path_no_nul(terminal);
    let a = seq!['m', '=', '['];
    let src = if source.len() > 0 {
        seq!['/'] + path_text(source)
    } else {
        Seq::empty()
    };
    lemma_no_nul_concat(seq!['/'], path_text(source));
    let t = terminal_text(terminal);
    lemma_no_nul_concat(path_text(terminal), seq!['/', '*']);
    assert(no_nul(t));
    lemma_no_nul_concat(a, fp);
    lemma_no_nul_concat(a + fp, seq![']']);
    lemma_no_nul_concat(a + fp + seq![']'], src);
    lemma_no_nul_concat(a + fp + seq![']'] + src, seq!['=', '[']);
    lemma_no_nul_concat(a + fp + seq![']'] + src + seq!['=', '['], xpub);
    lemma_no_nul_concat(a + fp + seq![']'] + src + seq!['=', '['] + xpub, seq![']', '/']);
    lemma_no_nul_concat(a + fp + seq![']'] + src + seq!['=', '['] + xpub + seq![']', '/'], t);
    lemma_no_nul_contains(pubkey_chain_text(fp, source, xpub, terminal));
}

/// The details reported when a derivation would take a key past the
/// largest depth a key can record.
pub open spec fn depth_overflow_message() -> Seq<char> {
    err_message(err_type::bip32_failure)
}

/// A derivation past the largest depth a key can record (255 steps below
/// its master), which the key format cannot express.
fn depth_overflow() -> (r: string_result_t)
    ensures
        r.code == err_type::bip32_failure,
        r.details@ == depth_overflow_message(),
{
    string_result_t::error(err_type::bip32_failure)
}

// --- Key management

/// A mnemonic for the given entropy, or for fresh random entropy when none
/// is given; only the first `byte_len` bytes of the given entropy are used.
pub fn bip39_mnemonic_create(entropy: Option<&Vec<u8>>, mnemonic_type: bip39_mnemonic_type) -> (r:
    string_result_t)
    requires
        entropy matches Some(e) ==> e@.len() >= mnemonic_bytes(mnemonic_type),
    ensures
        r.code == err_type::success,
        match entropy {
            Some(e) => r.details@ == bip39_phrase(e@.take(mnemonic_bytes(mnemonic_type) as int)),
            None => exists|ent: Seq<u8>|
                ent.len() == mnemonic_bytes(mnemonic_type) && r.details@ == #[trigger] bip39_phrase(ent),
        },
{
    let n = mnemonic_type.byte_len();
    let bytes = match entropy {
        Some(e) => {
            let mut v: Vec<u8> = Vec::new();
            let mut i: usize = 0;
            while i < n
                invariant
                    i <= n,
                    n <= e@.len(),
                    v@ == e@.take(i as int),
                decreases n - i,
            {
                v.push(e[i]);
                i = i + 1;
                assert(v@ =~= e@.take(i as int));
            }
            v
        },
        None => random_entropy(n),
    };
    match mnemonic_from_entropy(&bytes) {
        Ok(phrase) => string_result_t::success(phrase),
        Err(_) => {
            assert(false);
            string_result_t::error(err_type::invalid_mnemonic)
        },
    }
}

/// The master extended private key of a mnemonic and an optional password
/// (empty when none), on the test or the main network.
pub fn bip39_master_xpriv(seed_phrase: Option<&str>, passwd: Option<&str>, testnet: bool) -> (r:
    string_result_t)
    ensures
        r.code != err_type::success ==> r.details@ == err_message(r.code),
        match seed_phrase {
            None => r.code == err_type::null_pointer && r.details@ == err_message(err_type::null_pointer),
            Some(phrase) => {
                let password = match passwd {
                    Some(p) => p@,
                    None => Seq::<char>::empty(),
                };
                if !bip39_phrase_valid(phrase@) {
                    r.code == err_type::invalid_mnemonic && r.details@ == err_message(r.code)
                } else {
                    match bip32_master(bip39_seed(phrase@, password), testnet) {
                        Some(x) => r.code == err_type::success && r.details@ == x,
                        None => r.code == err_type::bip32_failure && r.details@ == err_message(r.code),
                    }
                }
            },
        },
{
    let phrase = match seed_phrase {
        Some(p) => p,
        None => return string_result_t::error(err_type::null_pointer),
    };
    let password: &str = match passwd {
        Some(p) => p,
        None => "",
    };
    proof {
        if passwd is None {
            reveal_strlit("");
            assert(password@ =~= Seq::<char>::empty());
        }
    }
    let mut seed = match seed_from_phrase(phrase, password) {
        Some(s) => s,
        None => return string_result_t::error(err_type::invalid_mnemonic),
    };
    let ghost seed_view = seed@;
    let master = xpriv_new_master(&seed, testnet);
    seed.clean();
    assert(seed_view == bip39_seed(phrase@, password@));
    match master {
        Ok(x) => {
            assert(bip32_master(seed_view, testnet) == Some(x@));
            string_result_t::success(x)
        },
        Err(e) => string_result_t::bip32_error(e),
    }
}

/// The extended private key scoped to the hardened branch of a derivation
/// path (its part up to the last hardened step), derived from a master key.
pub fn bip32_scoped_xpriv(master: &str, derivation: &str) -> (r: string_result_t)
    ensures
        r.code != err_type::success ==> r.details@ == err_message(r.code),
        !bip32_xpriv_valid(master@) ==> r.code == bip32_code(bip32_xpriv_failure(master@)),
        bip32_xpriv_valid(master@) ==> match bip32_path(strip_wildcards_spec(derivation@)) {
            None => r.code == err_type::invalid_derivation_path,
            Some(p) => if bip32_depth(master@) + branch_len(p) > 255 {
                r.code == err_type::bip32_failure && r.details@ == depth_overflow_message()
            } else {
                match bip32_derive_priv(master@, p.take(branch_len(p) as int)) {
                    Some(x) => r.code == err_type::success && r.details@ == x,
                    None => r.code == err_type::bip32_failure,
                }
            },
        },
{
    let depth = match xpriv_check(master) {
        Ok(d) => d,
        Err(e) => return string_result_t::bip32_error(e),
    };
    let d = strip_wildcards(derivation);
    let path = match parse_derivation(d.as_str()) {
        Ok(p) => p,
        Err(e) => return string_result_t::bip32_error(e),
    };
    let (hardened, _) = hardened_normal_split(&path);
    proof {
        lemma_branch_len(path@);
    }
    assert(hardened@.len() == branch_len(path@));
    if hardened.len() > 255 - depth as usize {
        return depth_overflow();
    }
    match xpriv_derive(master, &hardened) {
        Ok(x) => {
            assert(!x@.contains('\0'));
            string_result_t::success(x)
        },
        Err(e) => string_result_t::bip32_error(e),
    }
}

/// The extended public key of an extended private key.
pub fn bip32_xpriv_to_xpub(xpriv: &str) -> (r: string_result_t)
    ensures
        r.code != err_type::success ==> r.details@ == err_message(r.code),
        !bip32_xpriv_valid(xpriv@) ==> r.code == bip32_code(bip32_xpriv_failure(xpriv@)),
        bip32_xpriv_valid(xpriv@) ==> r.code == err_type::success && r.details@ == bip32_xpub_of(xpriv@),
{
    if let Err(e) = xpriv_check(xpriv) {
        return string_result_t::bip32_error(e);
    }
    string_result_t::success(xpub_of(xpriv))
}

/// The public key chain of a derivation path from a master key: the master
/// fingerprint, the hardened branch but its last step as source path, the
/// extended public key of the branch, and the unhardened steps followed by
/// a wildcard.
#[verifier::rlimit(40)]
pub fn bip32_pubkey_chain_create(master_xpriv: &str, derivation: &str) -> (r: string_result_t)
    ensures
        r.code != err_type::success ==> r.details@ == err_message(r.code),
        match bip32_path(strip_wildcards_spec(derivation@)) {
            None => r.code == err_type::invalid_derivation_path,
            Some(p) => {
                let h = p.take(branch_len(p) as int);
                let u = p.skip(branch_len(p) as int);
                if !bip32_xpriv_valid(master_xpriv@) {
                    r.code == bip32_code(bip32_xpriv_failure(master_xpriv@))
                } else {
                    if bip32_depth(master_xpriv@) + h.len() > 255 {
                        r.code == err_type::bip32_failure && r.details@ == depth_overflow_message()
                    } else {
                        match bip32_derive_priv(master_xpriv@, h) {
                            None => r.code == err_type::bip32_failure,
                            Some(x) => if h.len() == 0 {
                                r.code == err_type::invalid_derivation_path
                            } else {
                                r.code == err_type::success && r.details@ == pubkey_chain_text(
                                    bip32_fingerprint(master_xpriv@),
                                    h.drop_last(),
                                    bip32_xpub_of(x),
                                    u,
                                )
                            },
                        }
                    }
                }
            },
        },
{
    let d = strip_wildcards(derivation);
    let path = match parse_derivation(d.as_str()) {
        Ok(p) => p,
        Err(e) => return string_result_t::bip32_error(e),
    };
    let (hardened, unhardened) = hardened_normal_split(&path);
    let depth = match xpriv_check(master_xpriv) {
        Ok(d) => d,
        Err(e) => return string_result_t::bip32_error(e),
    };
    proof {
        lemma_branch_len(path@);
    }
    assert(hardened@.len() == branch_len(path@));
    if hardened.len() > 255 - depth as usize {
        return depth_overflow();
    }
    let fp = fingerprint_of(master_xpriv);
    let xpriv = match xpriv_derive(master_xpriv, &hardened) {
        Ok(x) => x,
        Err(e) => return string_result_t::bip32_error(e),
    };
    let xpub = xpub_of(xpriv.as_str());
    let mut source = hardened;
    if source.len() == 0 {
        return string_result_t::error(err_type::invalid_derivation_path);
    }
    let ghost h = source@;
    source.pop();
    assert(source@ =~= h.drop_last());
    let mut out: Vec<char> = Vec::new();
    push_str_chars(&mut out, "m=[");
    let fv = chars_of(fp.as_str());
    push_chars(&mut out, &fv, 0, fv.len());
    out.push(']');
    if source.len() > 0 {
        out.push('/');
        push_path(&mut out, &source);
    }
    push_str_chars(&mut out, "=[");
    let xv = chars_of(xpub.as_str());
    push_chars(&mut out, &xv, 0, xv.len());
    push_str_chars(&mut out, "]/");
    if unhardened.len() > 0 {
        push_path(&mut out, &unhardened);
        out.push('/');
    }
    out.push('*');
    proof {
        reveal_strlit("m=[");
        reveal_strlit("=[");
        reveal_strlit("]/");
        assert(xv@.subrange(0, xv@.len() as int) =~= xv@);
        assert(fv@.subrange(0, fv@.len() as int) =~= fv@);
        assert(out@ =~= pubkey_chain_text(fp@, source@, xpub@, unhardened@));
        lemma_chain_text_no_nul(fp@, source@, xpub@, unhardened@);
    }
    string_result_t::success(string_from_chars(out.as_slice()))
}

} // verus!
