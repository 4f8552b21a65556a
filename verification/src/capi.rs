//! The rules behind the C interface: descriptor and invoice kinds, what a
//! parsed descriptor is reported as, Bech32 status codes, and the error state
//! of a client handle.

use vstd::prelude::*;

use crate::encoding::{base64_encode, base64_text};
use crate::model::PsbtWrapper;
use crate::text::{chars_of, find_char, push_chars, push_str_chars, string_from_chars};

verus! {

// --- Descriptor and invoice kinds

/// Outer category of a descriptor, as the C interface names it.
#[allow(non_camel_case_types)]
#[derive(Clone, Copy, PartialEq, Eq, Structural, Debug)]
pub enum descriptor_type {
    BARE,
    HASHED,
    SEGWIT,
    TAPROOT,
}

/// Outer category of a descriptor.
#[derive(Clone, Copy, PartialEq, Eq, Structural, Debug)]
pub enum OuterCategory {
    Bare,
    Hashed,
    SegWit,
    Taproot,
}

impl descriptor_type {
    /// The category this kind names.
    pub fn outer_category(self) -> (r: OuterCategory)
        ensures
            r == match self {
                descriptor_type::BARE => OuterCategory::Bare,
                descriptor_type::HASHED => OuterCategory::Hashed,
                descriptor_type::SEGWIT => OuterCategory::SegWit,
                descriptor_type::TAPROOT => OuterCategory::Taproot,
            },
    {
        match self {
            descriptor_type::BARE => OuterCategory::Bare,
            descriptor_type::HASHED => OuterCategory::Hashed,
            descriptor_type::SEGWIT => OuterCategory::SegWit,
            descriptor_type::TAPROOT => OuterCategory::Taproot,
        }
    }
}

/// Kind of invoice, as the C interface names it.
#[allow(non_camel_case_types)]
#[derive(Clone, Copy, PartialEq, Eq, Structural, Debug)]
pub enum invoice_type {
    ADDRESS_UTXO,
    DESCRIPTOR,
    PSBT,
}

/// Kind of invoice a client creates.
#[derive(Clone, Copy, PartialEq, Eq, Structural, Debug)]
pub enum InvoiceType {
    AddressUtxo,
    Descriptor,
    Psbt,
}

impl invoice_type {
    /// The invoice kind this names.
    pub fn invoice_kind(self) -> (r: InvoiceType)
        ensures
            r == match self {
                invoice_type::ADDRESS_UTXO => InvoiceType::AddressUtxo,
                invoice_type::DESCRIPTOR => InvoiceType::Descriptor,
                invoice_type::PSBT => InvoiceType::Psbt,
            },
    {
        match self {
            invoice_type::ADDRESS_UTXO => InvoiceType::AddressUtxo,
            invoice_type::DESCRIPTOR => InvoiceType::Descriptor,
            invoice_type::PSBT => InvoiceType::Psbt,
        }
    }
}

// --- Parsed descriptors

/// Shape of a parsed output descriptor.
#[derive(Clone, Copy, PartialEq, Eq, Structural, Debug)]
pub enum DescriptorType {
    Bare,
    Sh,
    Pkh,
    Wpkh,
    Wsh,
    ShWsh,
    ShWpkh,
    ShSortedMulti,
    WshSortedMulti,
    ShWshSortedMulti,
}

/// How a descriptor is reported: its type name, the name of its address
/// type (none for bare scripts), and whether its keys are sorted and it can
/// be nested.
pub struct DescriptorClass {
    pub descr_type: String,
    pub addr_type: Option<String>,
    pub is_sorted: bool,
    pub is_nestable: bool,
}

/// (type name, address type name, sorted, nestable) of a descriptor type;
/// a bare descriptor is named `Pk` when it is a bare key.
pub open spec fn class_spec(t: DescriptorType, is_pk: bool) -> (Seq<char>, Option<Seq<char>>, bool, bool) {
    match t {
        DescriptorType::Bare => (if is_pk { "Pk"@ } else { "Pkh"@ }, None, false, false),
        DescriptorType::Sh => ("Sh"@, Some("P2SH"@), false, false),
        DescriptorType::ShSortedMulti => ("Sh"@, Some("P2SH"@), true, false),
        DescriptorType::Pkh => ("Pkh"@, Some("P2PKH"@), false, false),
        DescriptorType::Wpkh => ("Wpkh"@, Some("P2WPKH"@), false, true),
        DescriptorType::Wsh => ("Wsh"@, Some("P2WSH"@), false, true),
        DescriptorType::WshSortedMulti => ("Wsh"@, Some("P2WSH"@), true, true),
        DescriptorType::ShWpkh => ("ShWpkh"@, Some("P2WPKH-in-P2SH"@), false, false),
        DescriptorType::ShWsh => ("ShWsh"@, Some("P2WSH-in-P2SH"@), false, false),
        DescriptorType::ShWshSortedMulti => ("ShWsh"@, Some("P2WSH-in-P2SH"@), true, false),
    }
}

impl DescriptorClass {
    pub open spec fn view_tuple(&self) -> (Seq<char>, Option<Seq<char>>, bool, bool) {
        (
            self.descr_type@,
            match self.addr_type {
                Some(a) => Some(a@),
                None => None,
            },
            self.is_sorted,
            self.is_nestable,
        )
    }
}

/// How a descriptor of type `t` is reported (`is_pk`: a bare descriptor is
/// a bare key).
pub fn classify(t: DescriptorType, is_pk: bool) -> (r: DescriptorClass)
    ensures
        r.view_tuple() == class_spec(t, is_pk),
{
    let (d, a, s, n): (&str, Option<&str>, bool, bool) = match t {
        DescriptorType::Bare => (if is_pk { "Pk" } else { "Pkh" }, None, false, false),
        DescriptorType::Sh => ("Sh", Some("P2SH"), false, false),
        DescriptorType::ShSortedMulti => ("Sh", Some("P2SH"), true, false),
        DescriptorType::Pkh => ("Pkh", Some("P2PKH"), false, false),
        DescriptorType::Wpkh => ("Wpkh", Some("P2WPKH"), false, true),
        DescriptorType::Wsh => ("Wsh", Some("P2WSH"), false, true),
        DescriptorType::WshSortedMulti => ("Wsh", Some("P2WSH"), true, true),
        DescriptorType::ShWpkh => ("ShWpkh", Some("P2WPKH-in-P2SH"), false, false),
        DescriptorType::ShWsh => ("ShWsh", Some("P2WSH-in-P2SH"), false, false),
        DescriptorType::ShWshSortedMulti => ("ShWsh", Some("P2WSH-in-P2SH"), true, false),
    };
    DescriptorClass {
        descr_type: String::from_str(d),
        addr_type: match a {
            Some(x) => Some(String::from_str(x)),
            None => None,
        },
        is_sorted: s,
        is_nestable: n,
    }
}

/// Where the spending policy of a descriptor comes from.
#[derive(Clone, Copy, PartialEq, Eq, Structural, Debug)]
pub enum PolicyShape {
    Bare,
    Pkh,
    Wpkh,
    ShWpkh,
    /// A sorted multisig (under `sh`, `wsh` or both) needing `k` signatures.
    SortedMulti { k: usize },
    /// A miniscript under `wsh` (possibly nested in `sh`).
    WshMiniscript,
    /// A miniscript directly under `sh`.
    ShMiniscript,
}

/// Signatures a descriptor's policy requires, where the descriptor says:
/// `k` for a sorted multisig, none for a bare script or a witness script
/// miniscript, one otherwise.
pub fn sigs_required(shape: PolicyShape) -> (r: Option<usize>)
    ensures
        r == match shape {
            PolicyShape::Bare => None,
            PolicyShape::WshMiniscript => None,
            PolicyShape::SortedMulti { k } => Some(k),
            _ => Some(1usize),
        },
{
    match shape {
        PolicyShape::Bare => None,
        PolicyShape::WshMiniscript => None,
        PolicyShape::SortedMulti { k } => Some(k),
        _ => Some(1),
    }
}

/// The smallest key space of the keys of a descriptor (the largest size
/// when it has none).
pub fn keyspace_size(sizes: &Vec<usize>) -> (r: usize)
    ensures
        forall|i: int| 0 <= i < sizes@.len() ==> r <= sizes@[i],
        r == usize::MAX || exists|i: int| 0 <= i < sizes@.len() && r == sizes@[i],
{
    let mut m: usize = usize::MAX;
    let mut i: usize = 0;
    while i < sizes.len()
        invariant
            i <= sizes@.len(),
            forall|j: int| 0 <= j < i ==> m <= sizes@[j],
            m == usize::MAX || exists|j: int| 0 <= j < sizes@.len() && m == sizes@[j],
        decreases sizes@.len() - i,
    {
        if sizes[i] < m {
            m = sizes[i];
        }
        i = i + 1;
    }
    m
}

/// The part of a descriptor text after its last `#` (the whole text when it
/// has none): its checksum.
pub open spec fn checksum_spec(s: Seq<char>) -> Seq<char>
    decreases s.len(),
{
    if s.len() == 0 {
        s
    } else if s.last() == '#' {
        Seq::empty()
    } else {
        checksum_spec(s.drop_last()).push(s.last())
    }
}

/// The checksum part of a descriptor text.
pub fn checksum(descriptor: &str) -> (r: String)
    ensures
        r@ == checksum_spec(descriptor@),
{
    let v = chars_of(descriptor);
    let mut start: usize = 0;
    let mut i: usize = 0;
    while i < v.len()
        invariant
            i <= v@.len(),
            start <= i,
            v@ == descriptor@,
            checksum_spec(v@.take(i as int)) == v@.subrange(start as int, i as int),
        decreases v@.len() - i,
    {
        proof {
            assert(v@.take(i + 1).drop_last() =~= v@.take(i as int));
            assert(v@.take(i + 1).last() == v@[i as int]);
        }
        if v[i] == '#' {
            start = i + 1;
            assert(v@.subrange(start as int, i + 1) =~= Seq::<char>::empty());
        } else {
            assert(v@.subrange(start as int, i + 1) =~= v@.subrange(start as int, i as int).push(v@[i as int]));
        }
        i = i + 1;
    }
    assert(v@.take(i as int) =~= v@);
    let mut out: Vec<char> = Vec::new();
    push_chars(&mut out, &v, start, v.len());
    assert(out@ =~= v@.subrange(start as int, v@.len() as int));
    string_from_chars(out.as_slice())
}

// --- Bech32 strings

pub const BECH32_OK: i32 = 0;
pub const BECH32_ERR_HRP: i32 = 1;
pub const BECH32_ERR_CHECKSUM: i32 = 2;
pub const BECH32_ERR_ENCODING: i32 = 3;
pub const BECH32_ERR_PAYLOAD: i32 = 4;
pub const BECH32_ERR_UNSUPPORTED: i32 = 5;
pub const BECH32_ERR_INTERNAL: i32 = 6;

pub const BECH32_UNKNOWN: i32 = 0;
pub const BECH32_URL: i32 = 1;

pub const BECH32_BC_ADDRESS: i32 = 0x0100;
pub const BECH32_LN_BOLT11: i32 = 0x0101;

pub const BECH32_LNPBP_ID: i32 = 0x0200;
pub const BECH32_LNPBP_DATA: i32 = 0x0201;
pub const BECH32_LNPBP_ZDATA: i32 = 0x0202;
pub const BECH32_LNPBP_INVOICE: i32 = 0x0210;

pub const BECH32_RGB_SCHEMA_ID: i32 = 0x0300;
pub const BECH32_RGB_CONTRACT_ID: i32 = 0x0301;
pub const BECH32_RGB_SCHEMA: i32 = 0x0302;
pub const BECH32_RGB_GENESIS: i32 = 0x0303;
pub const BECH32_RGB_CONSIGNMENT: i32 = 0x0304;

/// Why a Bech32 string could not be read.
#[derive(Clone, Copy, PartialEq, Eq, Structural, Debug)]
pub enum Bech32Failure {
    /// The checksum does not match.
    InvalidChecksum,
    /// No separator between the human-readable part and the data.
    MissingSeparator,
    /// Another Bech32 encoding error.
    Encoding,
    /// The data does not decode as the object the prefix names.
    Payload,
}

/// What a Bech32 string was found to be.
#[allow(non_camel_case_types)]
pub struct bech32_info_t {
    pub status: i32,
    pub category: i32,
    pub bech32m: bool,
    pub details: String,
}

impl bech32_info_t {
    /// A decoded object of `category`, with its JSON description; without
    /// one (the description failed), an internal error.
    pub fn with_value(category: i32, json: Option<String>) -> (r: Self)
        ensures
            r.category == category,
            !r.bech32m,
            match json {
                Some(j) => r.status == BECH32_OK && r.details@ == j@,
                None => r.status == BECH32_ERR_INTERNAL && r.details@ == "Unable to encode details as JSON"@,
            },
    {
        match json {
            Some(j) => bech32_info_t { status: BECH32_OK, category, bech32m: false, details: j },
            None => bech32_info_t {
                status: BECH32_ERR_INTERNAL,
                category,
                bech32m: false,
                details: String::from_str("Unable to encode details as JSON"),
            },
        }
    }

    /// The data does not match the prefix.
    pub fn with_wrong_payload() -> (r: Self)
        ensures
            r.status == BECH32_ERR_PAYLOAD,
            r.category == BECH32_UNKNOWN,
            !r.bech32m,
            r.details@ == "Payload format does not match bech32 type"@,
    {
        bech32_info_t {
            status: BECH32_ERR_PAYLOAD,
            category: BECH32_UNKNOWN,
            bech32m: false,
            details: String::from_str("Payload format does not match bech32 type"),
        }
    }

    /// A kind of Bech32 string not handled yet.
    pub fn unsuported() -> (r: Self)
        ensures
            r.status == BECH32_ERR_UNSUPPORTED,
            r.category == BECH32_UNKNOWN,
            !r.bech32m,
            r.details@ == "This specific kind of Bech32 is not yet supported"@,
    {
        bech32_info_t {
            status: BECH32_ERR_UNSUPPORTED,
            category: BECH32_UNKNOWN,
            bech32m: false,
            details: String::from_str("This specific kind of Bech32 is not yet supported"),
        }
    }

    /// A string that could not be read, with the failure's message.
    pub fn from_failure(failure: Bech32Failure, message: String) -> (r: Self)
        ensures
            r.status == match failure {
                Bech32Failure::InvalidChecksum => BECH32_ERR_CHECKSUM,
                Bech32Failure::MissingSeparator => BECH32_ERR_HRP,
                Bech32Failure::Encoding => BECH32_ERR_ENCODING,
                Bech32Failure::Payload => BECH32_ERR_PAYLOAD,
            },
            r.category == BECH32_UNKNOWN,
            !r.bech32m,
            r.details@ == message@,
    {
        let status = match failure {
            Bech32Failure::InvalidChecksum => BECH32_ERR_CHECKSUM,
            Bech32Failure::MissingSeparator => BECH32_ERR_HRP,
            Bech32Failure::Encoding => BECH32_ERR_ENCODING,
            Bech32Failure::Payload => BECH32_ERR_PAYLOAD,
        };
        bech32_info_t { status, category: BECH32_UNKNOWN, bech32m: false, details: message }
    }
}

// --- Client handle errors

pub const SUCCESS: i32 = 0;
pub const ERRNO_IO: i32 = 1;
pub const ERRNO_RPC: i32 = 2;
pub const ERRNO_NET: i32 = 3;
pub const ERRNO_TRANSPORT: i32 = 4;
pub const ERRNO_NOTSUPPORTED: i32 = 5;
pub const ERRNO_STORAGE: i32 = 6;
pub const ERRNO_SERVERFAIL: i32 = 7;
pub const ERRNO_EMBEDDEDFAIL: i32 = 8;
pub const ERRNO_UNINIT: i32 = 100;
pub const ERRNO_CHAIN: i32 = 101;
pub const ERRNO_JSON: i32 = 102;
pub const ERRNO_BECH32: i32 = 103;
pub const ERRNO_PARSE: i32 = 104;
pub const ERRNO_NULL: i32 = 105;

/// Kinds of client failures.
#[derive(Clone, Copy, PartialEq, Eq, Structural, Debug)]
pub enum ClientErrorKind {
    Io,
    Rpc,
    Networking,
    Transport,
    NotSupported,
    StorageDriver,
    ServerFailure,
    EmbeddedNodeInitError,
    Other,
}

/// The error number of a client failure.
pub open spec fn errno_of(kind: ClientErrorKind) -> i32 {
    match kind {
        ClientErrorKind::Io => ERRNO_IO,
        ClientErrorKind::Rpc => ERRNO_RPC,
        ClientErrorKind::Networking => ERRNO_NET,
        ClientErrorKind::Transport => ERRNO_TRANSPORT,
        ClientErrorKind::NotSupported => ERRNO_NOTSUPPORTED,
        ClientErrorKind::StorageDriver => ERRNO_STORAGE,
        ClientErrorKind::ServerFailure => ERRNO_SERVERFAIL,
        ClientErrorKind::EmbeddedNodeInitError => ERRNO_EMBEDDEDFAIL,
        ClientErrorKind::Other => i32::MAX,
    }
}

/// How a request to the node went, as the handle records it: a client
/// error with its message, a failure the node replied with (its text), a
/// reply that could not be written as JSON (the encoder's message), or the
/// JSON text of the reply.
pub enum ClientResponse {
    Error(ClientErrorKind, String),
    Failure(String),
    JsonError(String),
    Json(String),
}

/// A text with each zero character turned into a space, as C strings
/// cannot carry zero characters.
pub open spec fn nul_to_space(s: Seq<char>) -> Seq<char> {
    s.map_values(|c: char| if c == '\0' { ' ' } else { c })
}

/// Turns each zero character of a text into a space.
fn nul_to_space_string(s: &String) -> (r: String)
    ensures
        r@ == nul_to_space(s@),
{
    let v = chars_of(s.as_str());
    let mut out: Vec<char> = Vec::new();
    let mut i: usize = 0;
    while i < v.len()
        invariant
            i <= v@.len(),
            v@ == s@,
            out@ == nul_to_space(v@.take(i as int)),
        decreases v@.len() - i,
    {
        let c = v[i];
        out.push(if c == '\0' { ' ' } else { c });
        i = i + 1;
        assert(out@ =~= nul_to_space(v@.take(i as int)));
    }
    assert(v@.take(i as int) =~= v@);
    string_from_chars(out.as_slice())
}

/// The error state of a client handle: an error number and a message, none
/// after a success.
pub struct ClientStatus {
    pub err_no: i32,
    pub message: Option<String>,
}

impl ClientStatus {
    /// The state of a fresh handle.
    pub fn new() -> (r: Self)
        ensures
            r.err_no == SUCCESS,
            r.message is None,
    {
        ClientStatus { err_no: SUCCESS, message: None }
    }

    pub fn set_success(&mut self)
        ensures
            final(self).err_no == SUCCESS,
            final(self).message is None,
    {
        self.err_no = SUCCESS;
        self.message = None;
    }

    pub fn set_error_details(&mut self, err_no: i32, msg: String)
        ensures
            final(self).err_no == err_no,
            final(self).message matches Some(m) && m@ == nul_to_space(msg@),
    {
        self.err_no = err_no;
        self.message = Some(nul_to_space_string(&msg));
    }

    /// Records the failure of using a handle that holds no client (the only
    /// error number reported alone).
    pub fn set_error_no(&mut self, err_no: i32)
        requires
            err_no == ERRNO_UNINIT,
        ensures
            final(self).err_no == ERRNO_UNINIT,
            final(self).message matches Some(m) && m@ == "MyCitadel client is not yet initialized"@,
    {
        let msg = String::from_str("MyCitadel client is not yet initialized");
        proof {
            reveal_strlit("MyCitadel client is not yet initialized");
            assert(nul_to_space(msg@) =~= msg@);
        }
        self.set_error_details(err_no, msg);
    }

    /// Records a client failure with its message.
    pub fn set_error(&mut self, kind: ClientErrorKind, msg: String)
        ensures
            final(self).err_no == errno_of(kind),
            final(self).message matches Some(m) && m@ == nul_to_space(msg@),
    {
        let err_no: i32 = match kind {
            ClientErrorKind::Io => ERRNO_IO,
            ClientErrorKind::Rpc => ERRNO_RPC,
            ClientErrorKind::Networking => ERRNO_NET,
            ClientErrorKind::Transport => ERRNO_TRANSPORT,
            ClientErrorKind::NotSupported => ERRNO_NOTSUPPORTED,
            ClientErrorKind::StorageDriver => ERRNO_STORAGE,
            ClientErrorKind::ServerFailure => ERRNO_SERVERFAIL,
            ClientErrorKind::EmbeddedNodeInitError => ERRNO_EMBEDDEDFAIL,
            ClientErrorKind::Other => i32::MAX,
        };
        self.set_error_details(err_no, msg);
    }

    /// Records a failure the server replied with.
    pub fn set_failure(&mut self, msg: String)
        ensures
            final(self).err_no == ERRNO_SERVERFAIL,
            final(self).message matches Some(m) && m@ == nul_to_space(msg@),
    {
        self.set_error_details(ERRNO_SERVERFAIL, msg);
    }

    /// The state of a handle whose client could not be made.
    pub fn from_err(kind: ClientErrorKind, msg: String) -> (r: Self)
        ensures
            r.err_no == errno_of(kind),
            r.message matches Some(m) && m@ == nul_to_space(msg@),
    {
        let mut me = ClientStatus { err_no: i32::MAX, message: None };
        me.set_error(kind, msg);
        me
    }

    /// The state of a handle that failed with an error number of its own.
    pub fn from_custom_err(err_no: i32, msg: String) -> (r: Self)
        ensures
            r.err_no == err_no,
            r.message matches Some(m) && m@ == nul_to_space(msg@),
    {
        let mut me = ClientStatus { err_no, message: None };
        me.set_error_details(err_no, msg);
        me
    }

    /// Records how a request went and gives the JSON text of its reply: a
    /// client error, a failure the node replied with, a reply that could
    /// not be written as JSON (with the encoder's message), or the JSON of
    /// the reply, which alone is handed back and marks success.
    pub fn process_response(&mut self, response: ClientResponse) -> (r: Option<String>)
        ensures
            match response {
                ClientResponse::Error(kind, msg) => r is None && final(self).err_no == errno_of(kind)
                    && (final(self).message matches Some(m) && m@ == nul_to_space(msg@)),
                ClientResponse::Failure(msg) => r is None && final(self).err_no == ERRNO_SERVERFAIL
                    && (final(self).message matches Some(m) && m@ == nul_to_space(msg@)),
                ClientResponse::JsonError(msg) => r is None && final(self).err_no == ERRNO_JSON
                    && (final(self).message matches Some(m) && m@ == nul_to_space("Unable to JSON-encode response: "@ + msg@)),
                ClientResponse::Json(json) => r matches Some(j) && j@ == json@ && final(self).err_no == SUCCESS
                    && final(self).message is None,
            },
    {
        match response {
            ClientResponse::Error(kind, msg) => {
                self.set_error(kind, msg);
                None
            },
            ClientResponse::Failure(msg) => {
                self.set_failure(msg);
                None
            },
            ClientResponse::JsonError(msg) => {
                let mut out: Vec<char> = Vec::new();
                push_str_chars(&mut out, "Unable to JSON-encode response: ");
                push_str_chars(&mut out, msg.as_str());
                let text = string_from_chars(out.as_slice());
                proof {
                    reveal_strlit("Unable to JSON-encode response: ");
                }
                self.set_error_details(ERRNO_JSON, text);
                None
            },
            ClientResponse::Json(json) => {
                self.set_success();
                Some(json)
            },
        }
    }

    pub fn is_ok(&self) -> (r: bool)
        ensures
            r == (self.message is None && self.err_no == SUCCESS),
    {
        self.message.is_none() && self.err_no == SUCCESS
    }

    pub fn has_err(&self) -> (r: bool)
        ensures
            r == (self.err_no != SUCCESS && self.message is Some),
    {
        self.err_no != SUCCESS && self.message.is_some()
    }
}

/// A prepared transfer as the C interface hands it out: whether it was
/// prepared, the Bech32 text of the consignment (none when there is none,
/// or when it holds a zero character, which C strings cannot carry) and the
/// Base64 text of the PSBT.
#[allow(non_camel_case_types)]
pub struct prepared_transfer_t {
    pub success: bool,
    pub consignment_bech32: Option<String>,
    pub psbt_base64: Option<String>,
}

impl prepared_transfer_t {
    /// A transfer that could not be prepared.
    pub fn failure() -> (r: Self)
        ensures
            !r.success,
            r.consignment_bech32 is None,
            r.psbt_base64 is None,
    {
        prepared_transfer_t { success: false, consignment_bech32: None, psbt_base64: None }
    }

    /// A prepared transfer from its PSBT and the Bech32 text of its
    /// consignment, if any.
    pub fn from_payment(psbt: &PsbtWrapper, consignment_bech32: Option<String>) -> (r: Self)
        ensures
            r.success,
            match consignment_bech32 {
                Some(c) => if c@.contains('\0') {
                    r.consignment_bech32 is None
                } else {
                    r.consignment_bech32 matches Some(t) && t@ == c@
                },
                None => r.consignment_bech32 is None,
            },
            r.psbt_base64 matches Some(t) && t@ == base64_text(psbt.0@),
    {
        let consignment = match consignment_bech32 {
            Some(c) => {
                let v = chars_of(c.as_str());
                match find_char(&v, '\0') {
                    Some(_) => None,
                    None => Some(c),
                }
            },
            None => None,
        };
        prepared_transfer_t { success: true, consignment_bech32: consignment, psbt_base64: Some(base64_encode(&psbt.0)) }
    }
}

/// The giveaway the C interface passes on: none for zero.
pub fn giveaway_of(giveaway: u64) -> (r: Option<u64>)
    ensures
        giveaway > 0 ==> r == Some(giveaway),
        giveaway == 0 ==> r is None,
{
    if giveaway > 0 {
        Some(giveaway)
    } else {
        None
    }
}

} // verus!
