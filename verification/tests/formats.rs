use mycitadel::cli::PsbtFormat;
use mycitadel::encoding::{psbt_output, PsbtOutput};
use mycitadel::bip21::AddressInfo;
use mycitadel::capi::{ClientErrorKind, ClientResponse, ClientStatus, ERRNO_IO, ERRNO_JSON, ERRNO_SERVERFAIL, SUCCESS};
use mycitadel::cli::Formatting;
use mycitadel::confirm::{BlockchainTimepair, PaymentConfirmation, PaymentSlip, TxConfirmation};
use mycitadel::data::{ContractType, MultiSig, SavingContract, WalletContract};
use mycitadel::encoding::{PsbtParseError, SignerId, SignerIdTag, WalletId, WalletIdTag};
use mycitadel::ids::Hash32;
use mycitadel::listing::{address_fields, address_headers, grouped_listing_lines, listing_lines, ListingRow};
use mycitadel::model::{AddressDerivation, PsbtWrapper};
use mycitadel::parse::FromStrError;
use mycitadel::utxo::Utxo;

const HASH: &str = "00000000000000000007a4b0a54f3b1a2f1a0e3c19ae50a28e7f6d0d1e9fa5c1";

fn hex(bytes: &[u8]) -> String {
    bytes.iter().map(|b| format!("{:02x}", b)).collect::<String>()
}

fn row(id: &str, compact: &str, fields: &[&str]) -> ListingRow {
    ListingRow {
        id: String::from(id),
        compact: String::from(compact),
        fields: fields.iter().map(|f| String::from(*f)).collect(),
    }
}

#[test]
fn block_confirmation_parses_and_reads_back() {
    let c = TxConfirmation::from_str(&format!("650000:{}", HASH)).unwrap();
    match c {
        TxConfirmation::Blockchain { block_height, block_hash } => {
            assert_eq!(block_height, 650000);
            assert_eq!(block_hash.hi, 0x00000000000000000007a4b0a54f3b1a);
            assert_eq!(block_hash.lo, 0x2f1a0e3c19ae50a28e7f6d0d1e9fa5c1);
        },
        _ => panic!("not a block confirmation"),
    }
    assert_eq!(c.to_string(), format!("650000:{}", HASH));
    assert_eq!(TxConfirmation::from_str(&c.to_string()), Ok(c));
}

#[test]
fn channel_confirmation_parses() {
    let c = TxConfirmation::from_str(&format!("{}@42", HASH)).unwrap();
    match c {
        TxConfirmation::Lightning { channel_id, state_no } => {
            assert_eq!(state_no, 42);
            assert_eq!(channel_id.lo, 0x2f1a0e3c19ae50a28e7f6d0d1e9fa5c1);
        },
        _ => panic!("not a channel confirmation"),
    }
    // The channel state is written with its number first.
    assert_eq!(c.to_string(), format!("42@{}", HASH));
    assert_eq!(TxConfirmation::from_str(&c.to_string()), Err(FromStrError));
}

#[test]
fn malformed_confirmations_are_refused() {
    assert_eq!(TxConfirmation::from_str("650000"), Err(FromStrError));
    assert_eq!(TxConfirmation::from_str(&format!("650000:{}:1", HASH)), Err(FromStrError));
    assert_eq!(TxConfirmation::from_str(&format!("x:{}", HASH)), Err(FromStrError));
    assert_eq!(TxConfirmation::from_str("650000:abcd"), Err(FromStrError));
    assert_eq!(TxConfirmation::from_str("4294967296:00"), Err(FromStrError));
    assert_eq!(TxConfirmation::from_str(&format!("{}@x", HASH)), Err(FromStrError));
}

#[test]
fn payment_confirmation_is_a_txid() {
    match PaymentConfirmation::from_str(HASH) {
        Ok(PaymentConfirmation::Txid(t)) => assert_eq!(t.hi, 0x00000000000000000007a4b0a54f3b1a),
        _ => panic!("txid refused"),
    }
    assert_eq!(PaymentConfirmation::from_str("abc"), Err(FromStrError));
}

#[test]
fn timepairs_and_slips_never_parse() {
    assert_eq!(BlockchainTimepair::from_str(&format!("2021-01-01T10:00:00@650000:{}", HASH)), Err(FromStrError));
    assert_eq!(BlockchainTimepair::from_str(&format!("2021-01-01@650000:{}", HASH)), Err(FromStrError));
    assert_eq!(PaymentSlip::from_str(&format!("2021-01-01@{}", HASH)), Err(FromStrError));
    assert_eq!(PaymentSlip::from_str(""), Err(FromStrError));
}

#[test]
fn contract_types() {
    assert_eq!(ContractType::Current.to_string(), "current");
    assert_eq!(ContractType::Computing.to_string(), "computing");
    let current = WalletContract::Current { name: String::from("a"), descriptor: String::from("wpkh(k)") };
    assert_eq!(current.contract_type(), ContractType::Current);
    let instant = WalletContract::Instant { name: String::from("b"), channel_id: Hash32::zero() };
    assert_eq!(instant.contract_type(), ContractType::Instant);
    let saving = WalletContract::Saving { name: String::from("c"), contract: SavingContract::Covenant };
    assert_eq!(saving.contract_type(), ContractType::Saving);
}

#[test]
fn multisig_threshold_defaults_to_all_keys() {
    let keys = vec![String::from("a"), String::from("b"), String::from("c")];
    let all = MultiSig { threshold: None, pubkeys: keys.clone(), reorder: true };
    assert_eq!(all.threshold(), 3);
    let two = MultiSig { threshold: Some(2), pubkeys: keys, reorder: false };
    assert_eq!(two.threshold(), 2);
}

#[test]
fn identifiers_are_tagged_hashes() {
    assert_eq!(SignerIdTag::tag(), "mycitadel:signer");
    assert_eq!(WalletIdTag::tag(), "mycitadel:wallet");
    let s = SignerId::commit(&b"abc".to_vec());
    assert_eq!(hex(&s.0), "5d1ffbdaf1e4a583f86bc9e60b62b3fa3a200386ee3a3c5bd8f7bdf534578deb");
    let w = WalletId::commit(&vec![]);
    assert_eq!(hex(&w.0), "852f047e0cfc1716acc5ae285701044a8e2c7470e23a13bfa48169b8671d1a44");
}

#[test]
fn psbt_text() {
    assert_eq!(PsbtWrapper(vec![0, 1, 2]).to_string(), "AAEC");
    assert_eq!(PsbtWrapper::from_str("not base64!").err(), Some(PsbtParseError::NonMinimalVarInt));
    assert_eq!(PsbtWrapper::from_str("AAEC").err(), Some(PsbtParseError::Consensus));
    let text = "cHNidP8BADMBAAAAAQAAAAAAAAAAAAAAAAAAAAAAAAAAAAAAAAAAAAAAAAAAAAAAAAD/////AAAAAAAAAA==";
    let psbt = PsbtWrapper::from_str(text).unwrap();
    assert_eq!(psbt.0.len(), 61);
    assert_eq!(&psbt.0[..5], b"psbt\xff");
    assert_eq!(psbt.to_string(), text);
}

#[test]
fn utxo_text_reads_back() {
    let u = Utxo {
        value: 1_000_000,
        height: 650000,
        offset: 12,
        txid: Hash32 { hi: 0xabcdef, lo: 0x1234 },
        vout: 3,
        derivation_index: 77,
        tweak: None,
        address: None,
    };
    let back = Utxo::from_str(&u.to_string()).unwrap();
    assert_eq!(back.value, u.value);
    assert_eq!(back.height, u.height);
    assert_eq!(back.offset, u.offset);
    assert_eq!(back.txid, u.txid);
    assert_eq!(back.vout, u.vout);
    assert_eq!(back.derivation_index, u.derivation_index);
    assert!(back.tweak.is_none());
    assert!(back.address.is_none());
}

#[test]
fn addresses_and_payment_uris() {
    let a = AddressInfo::from_str("1BvBMSEYstWetqTFn5Au4m4GFg7xJaNVN2").unwrap();
    assert_eq!(a.address, "1BvBMSEYstWetqTFn5Au4m4GFg7xJaNVN2");
    assert!(!a.is_bip21);
    assert_eq!(a.witness_ver, None);
    let w = AddressInfo::from_str("bitcoin:bc1qw508d6qejxtdg4y5r3zarvary0c5xw7kv8f3t4?amount=1").unwrap();
    assert_eq!(w.witness_ver, Some(0));
    let u = AddressInfo::from_str(
        "BITCOIN:1BvBMSEYstWetqTFn5Au4m4GFg7xJaNVN2?amount=0.5&label=Shop&message=Order&other=x",
    )
    .unwrap();
    assert!(u.is_bip21);
    assert_eq!(u.amounts, vec![String::from("0.5")]);
    assert_eq!(u.label, Some(String::from("Shop")));
    assert_eq!(u.message, Some(String::from("Order")));
    let plain = AddressInfo::from_str("bitcoin:1BvBMSEYstWetqTFn5Au4m4GFg7xJaNVN2").unwrap();
    assert!(!plain.is_bip21);
    assert!(AddressInfo::from_str("bitcoin:1BvBMSEYstWetqTFn5Au4m4GFg7xJaNVN2?amount").is_err());
    assert!(AddressInfo::from_str("litecoin:1BvBMSEYstWetqTFn5Au4m4GFg7xJaNVN2").is_err());
    assert!(AddressInfo::from_str("bitcoin:notanaddress").is_err());
    assert!(AddressInfo::from_str("bitcoin:1BvBMSEYstWetqTFn5Au4m4GFg7xJaNVN2?amount=abc").is_err());
    assert!(AddressInfo::from_str("bitcoin:1BvBMSEYstWetqTFn5Au4m4GFg7xJaNVN2?amount=1.2.3").is_err());
    assert!(AddressInfo::from_str("bitcoin:1BvBMSEYstWetqTFn5Au4m4GFg7xJaNVN2?amount=.").is_err());
    assert!(AddressInfo::from_str("bitcoin:1BvBMSEYstWetqTFn5Au4m4GFg7xJaNVN2?label=x=y").is_err());
    let other = AddressInfo::from_str("BITCOIN:1BvBMSEYstWetqTFn5Au4m4GFg7xJaNVN2?foo=bar").unwrap();
    assert!(other.is_bip21 && other.amounts.is_empty() && other.label.is_none() && other.message.is_none());
}

#[test]
fn listing_of_items() {
    let headers = vec![String::from("Value"), String::from("Index")];
    let rows = vec![row("a", "A", &["1", "2"]), row("b", "B", &["3", "4"])];
    assert_eq!(listing_lines(Formatting::Tab, &headers, &rows).unwrap(), vec!["Value\tIndex", "1\t2", "3\t4"]);
    assert_eq!(listing_lines(Formatting::Csv, &headers, &rows).unwrap(), vec!["Value,Index", "1,2", "3,4"]);
    assert_eq!(listing_lines(Formatting::Id, &headers, &rows).unwrap(), vec!["a", "b"]);
    assert_eq!(listing_lines(Formatting::Compact, &headers, &rows).unwrap(), vec!["A", "B"]);
    assert!(listing_lines(Formatting::Json, &headers, &rows).unwrap().is_empty());
    assert!(listing_lines(Formatting::Tab, &headers, &vec![]).is_none());
}

#[test]
fn listing_of_grouped_items() {
    let headers = vec![String::from("Value")];
    let groups = vec![
        (String::from("asset1"), vec![row("x", "X", &["5"]), row("y", "Y", &["6"])]),
        (String::from("asset2"), vec![]),
        (String::from("asset3"), vec![row("z", "Z", &["7"])]),
    ];
    assert_eq!(
        grouped_listing_lines(Formatting::Tab, &headers, &groups).unwrap(),
        vec!["ID\tValue", "asset1\t5", "asset1\t6", "asset3\t7"]
    );
    assert_eq!(
        grouped_listing_lines(Formatting::Compact, &headers, &groups).unwrap(),
        vec!["X#asset1", "Y#asset1", "Z#asset3"]
    );
    assert_eq!(grouped_listing_lines(Formatting::Id, &headers, &groups).unwrap(), vec!["asset1", "asset1", "asset3"]);
    assert_eq!(
        grouped_listing_lines(Formatting::Csv, &headers, &groups).unwrap(),
        vec!["ID,Value", "asset1,5", "asset1,6", "asset3,7"]
    );
    let empty = vec![(String::from("asset2"), vec![])];
    assert!(grouped_listing_lines(Formatting::Tab, &headers, &empty).is_none());
}

#[test]
fn address_listing_fields() {
    assert_eq!(address_headers(), vec!["Address", "Derivation index"]);
    let a = AddressDerivation::with(String::from("bc1qx"), vec![0, 17]);
    assert_eq!(address_fields(&a), vec!["bc1qx", "17"]);
}

#[test]
fn client_status_records_responses() {
    let mut s = ClientStatus::new();
    assert_eq!(s.process_response(ClientResponse::Json(String::from("{}"))), Some(String::from("{}")));
    assert!(s.is_ok());
    assert_eq!(s.process_response(ClientResponse::Failure(String::from("bad"))), None);
    assert_eq!(s.err_no, ERRNO_SERVERFAIL);
    assert!(s.has_err());
    assert_eq!(s.process_response(ClientResponse::JsonError(String::from("oops"))), None);
    assert_eq!(s.err_no, ERRNO_JSON);
    assert_eq!(s.message, Some(String::from("Unable to JSON-encode response: oops")));
    assert_eq!(s.process_response(ClientResponse::Error(ClientErrorKind::Io, String::from("io"))), None);
    assert_eq!(s.err_no, ERRNO_IO);
    let e = ClientStatus::from_err(ClientErrorKind::Other, String::from("x"));
    assert_eq!(e.err_no, i32::MAX);
    let c = ClientStatus::from_custom_err(7, String::from("y"));
    assert_eq!(c.err_no, 7);
    assert_eq!(c.message, Some(String::from("y")));
    assert_ne!(c.err_no, SUCCESS);
}

#[test]
fn client_messages_carry_no_zero_characters() {
    let mut s = ClientStatus::new();
    s.set_failure(String::from("a\0b"));
    assert_eq!(s.message, Some(String::from("a b")));
}

#[test]
fn psbt_written_in_each_format() {
    let p = PsbtWrapper(vec![0x0a, 0xff, 0x01]);
    match psbt_output(&p, PsbtFormat::Binary) {
        PsbtOutput::Binary(b) => assert_eq!(b, vec![0x0a, 0xff, 0x01]),
        _ => panic!("not binary"),
    }
    match psbt_output(&p, PsbtFormat::Hexadecimal) {
        PsbtOutput::Text(t) => assert_eq!(t, "0aff01"),
        _ => panic!("not text"),
    }
    match psbt_output(&p, PsbtFormat::Base64) {
        PsbtOutput::Text(t) => assert_eq!(t, "Cv8B"),
        _ => panic!("not text"),
    }
}

#[test]
fn zero_giveaway_is_none() {
    assert_eq!(mycitadel::capi::giveaway_of(0), None);
    assert_eq!(mycitadel::capi::giveaway_of(5), Some(5));
}

#[test]
fn payment_uri_amounts_follow_the_float_grammar() {
    let uri = |amount: &str| format!("bitcoin:1BvBMSEYstWetqTFn5Au4m4GFg7xJaNVN2?amount={}", amount);
    for good in ["1e3", "+5", "-1", "inf", "INFinity", "NaN", "-iNf", "1.5E-3", "2.", ".5", "7e+2"] {
        let info = AddressInfo::from_str(&uri(good)).unwrap();
        assert_eq!(info.amounts, vec![String::from(good)]);
    }
    for bad in ["abc", ".", "1e", "e5", "1.2.3", "++1", "", "-", "1e+", "infinit", "nan1", " 1"] {
        assert!(AddressInfo::from_str(&uri(bad)).is_err(), "{} accepted", bad);
    }
}
