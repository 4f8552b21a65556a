use mycitadel::capi::{
    bech32_info_t, checksum, classify, descriptor_type, invoice_type, keyspace_size, sigs_required, Bech32Failure,
    ClientErrorKind, ClientStatus, DescriptorType, InvoiceType, OuterCategory, PolicyShape, BECH32_ERR_CHECKSUM,
    BECH32_ERR_HRP, BECH32_ERR_INTERNAL, BECH32_ERR_PAYLOAD, BECH32_ERR_UNSUPPORTED, BECH32_OK, BECH32_RGB_GENESIS,
    ERRNO_RPC, ERRNO_SERVERFAIL, ERRNO_UNINIT,
};
use mycitadel::cli::{
    descriptor_category, header_line, invoice_kind, join_fields, output_line, plan_invoice_payment,
    psbt_output_format, AssetClass, Beneficiary, Formatting, OutputCompact, PsbtFormat, TransferKind,
};
use mycitadel::ids::Hash32;
use mycitadel::model::PolicyType;
use mycitadel::parse::{FromStrError, parse_uint};
use mycitadel::text::u64_to_decimal;
use mycitadel::utxo::Utxo;

const TXID: &str = "4a5e1e4baab89f3a32518a88c31bc87f618f76673e2cc77ab2127b7afdeda33b";

#[test]
fn decimal_text() {
    assert_eq!(u64_to_decimal(0), "0");
    assert_eq!(u64_to_decimal(1234567890), "1234567890");
    assert_eq!(u64_to_decimal(u64::MAX), "18446744073709551615");
}

#[test]
fn unsigned_integer_parsing() {
    let v: Vec<char> = "+42|18446744073709551616|x1|".chars().collect();
    assert_eq!(parse_uint(&v, 0, 3, 100), Some(42));
    assert_eq!(parse_uint(&v, 0, 3, 41), None);
    assert_eq!(parse_uint(&v, 4, 24, u64::MAX), None);
    assert_eq!(parse_uint(&v, 4, 23, u64::MAX), Some(1844674407370955161));
    assert_eq!(parse_uint(&v, 25, 27, 10), None);
    assert_eq!(parse_uint(&v, 0, 1, 10), None);
    assert_eq!(parse_uint(&v, 3, 3, 10), None);
}

#[test]
fn utxo_text_round_trip() {
    let text = format!("5000@680000>12>{}:1%7", TXID);
    let u = Utxo::from_str(&text).unwrap();
    assert_eq!(u.value, 5000);
    assert_eq!(u.height, 680000);
    assert_eq!(u.offset, 12);
    assert_eq!(u.vout, 1);
    assert_eq!(u.derivation_index, 7);
    assert_eq!(u.txid, Hash32 { hi: 0x4a5e1e4baab89f3a32518a88c31bc87f, lo: 0x618f76673e2cc77ab2127b7afdeda33b });
    assert!(u.address.is_none());
    assert_eq!(u.to_string(), text);
    assert_eq!(u.output_compact(), text);
}

#[test]
fn utxo_text_with_address() {
    let text = format!("1@2>3>{}:4%5=1BvBMSEYstWetqTFn5Au4m4GFg7xJaNVN2", TXID);
    let u = Utxo::from_str(&text).unwrap();
    assert_eq!(u.address, Some(String::from("1BvBMSEYstWetqTFn5Au4m4GFg7xJaNVN2")));
    let text = format!("1@2>3>{}:4%5=notanaddress", TXID);
    assert!(Utxo::from_str(&text).unwrap().address.is_none());
}

#[test]
fn utxo_text_errors() {
    assert_eq!(Utxo::from_str("1@2>3").err(), Some(FromStrError));
    assert_eq!(Utxo::from_str(&format!("1@2>3>{}:4%2147483648", TXID)).err(), Some(FromStrError));
    assert_eq!(Utxo::from_str(&format!("1@2>70000>{}:4%5", TXID)).err(), Some(FromStrError));
    assert_eq!(Utxo::from_str("1@2>3>abcd:4%5").err(), Some(FromStrError));
    assert_eq!(Utxo::from_str(&format!("1@2>3>{}:4%5=a=b", TXID)).err(), Some(FromStrError));
}

#[test]
fn formatting_names() {
    for f in [Formatting::Id, Formatting::Compact, Formatting::Tab, Formatting::Csv, Formatting::Yaml, Formatting::Json] {
        assert_eq!(Formatting::from_str(&f.to_string()), Ok(f));
    }
    assert_eq!(Formatting::from_str("xml"), Err(String::from("Unknown format name")));
    assert_eq!(PolicyType::Saving.to_string(), "saving");
}

#[test]
fn listing_lines() {
    let fields = vec![String::from("a"), String::from("b"), String::from("c")];
    assert_eq!(join_fields(&fields, ','), "a,b,c");
    assert_eq!(join_fields(&vec![], ','), "");
    let id = String::from("id1");
    let compact = String::from("short");
    assert_eq!(output_line(Formatting::Tab, &id, &compact, &fields), Some(String::from("a\tb\tc")));
    assert_eq!(output_line(Formatting::Id, &id, &compact, &fields), Some(id.clone()));
    assert_eq!(output_line(Formatting::Compact, &id, &compact, &fields), Some(compact.clone()));
    assert_eq!(output_line(Formatting::Json, &id, &compact, &fields), None);
    assert_eq!(header_line(Formatting::Csv, &fields), Some(String::from("a,b,c")));
    assert_eq!(header_line(Formatting::Yaml, &fields), None);
    assert_eq!(7u32.output_compact(), "7");
}

#[test]
fn invoice_and_psbt_choices() {
    assert_eq!(invoice_kind(true, true), InvoiceType::Descriptor);
    assert_eq!(invoice_kind(false, true), InvoiceType::Psbt);
    assert_eq!(invoice_kind(false, false), InvoiceType::AddressUtxo);
    assert_eq!(psbt_output_format(true, None), PsbtFormat::Binary);
    assert_eq!(psbt_output_format(false, None), PsbtFormat::Base64);
    assert_eq!(psbt_output_format(true, Some(PsbtFormat::Hexadecimal)), PsbtFormat::Hexadecimal);
    assert_eq!(descriptor_category(false, true, false, false), OuterCategory::Hashed);
    assert_eq!(descriptor_category(false, false, false, false), OuterCategory::SegWit);
    assert_eq!(invoice_type::PSBT.invoice_kind(), InvoiceType::Psbt);
    assert_eq!(descriptor_type::TAPROOT.outer_category(), OuterCategory::Taproot);
}

#[test]
fn invoice_payment_plans() {
    let asset = Hash32 { hi: 1, lo: 2 };
    let blind = Hash32 { hi: 3, lo: 4 };
    assert_eq!(
        plan_invoice_payment(Some(asset), Beneficiary::BlindUtxo(blind), AssetClass::Other, None, Some(10)),
        Ok((TransferKind::Asset { asset_id: asset, blind }, 10))
    );
    assert_eq!(
        plan_invoice_payment(Some(asset), Beneficiary::Address, AssetClass::Native, Some(5), None),
        Err(String::from("Malformed invoice: RGB assets can't be paid to an address"))
    );
    assert_eq!(
        plan_invoice_payment(None, Beneficiary::Address, AssetClass::Native, Some(5), Some(9)),
        Ok((TransferKind::Bitcoin, 5))
    );
    assert_eq!(
        plan_invoice_payment(None, Beneficiary::Address, AssetClass::InvalidNativeChain, Some(5), None),
        Err(String::from("Current network does not match invoice network"))
    );
    assert_eq!(
        plan_invoice_payment(None, Beneficiary::BlindUtxo(blind), AssetClass::Native, Some(5), None),
        Err(String::from("Malformed invoice: bitcoins can't be paid to an existing UTXO"))
    );
    assert_eq!(
        plan_invoice_payment(None, Beneficiary::Address, AssetClass::Native, None, None),
        Err(String::from("Amount must be specified for invoices which does not provide default amount value"))
    );
}

#[test]
fn descriptor_classes() {
    let c = classify(DescriptorType::ShWshSortedMulti, false);
    assert_eq!(c.descr_type, "ShWsh");
    assert_eq!(c.addr_type, Some(String::from("P2WSH-in-P2SH")));
    assert!(c.is_sorted);
    assert!(!c.is_nestable);
    let c = classify(DescriptorType::Bare, true);
    assert_eq!(c.descr_type, "Pk");
    assert_eq!(c.addr_type, None);
    let c = classify(DescriptorType::Wpkh, false);
    assert!(c.is_nestable && !c.is_sorted);
    assert_eq!(sigs_required(PolicyShape::SortedMulti { k: 2 }), Some(2));
    assert_eq!(sigs_required(PolicyShape::WshMiniscript), None);
    assert_eq!(sigs_required(PolicyShape::ShMiniscript), Some(1));
    assert_eq!(keyspace_size(&vec![10, 3, 7]), 3);
    assert_eq!(keyspace_size(&vec![]), usize::MAX);
    assert_eq!(checksum("wpkh(key)#abcd1234"), "abcd1234");
    assert_eq!(checksum("wpkh(key)"), "wpkh(key)");
}

#[test]
fn bech32_statuses() {
    assert_eq!(bech32_info_t::from_failure(Bech32Failure::InvalidChecksum, String::from("x")).status, BECH32_ERR_CHECKSUM);
    assert_eq!(bech32_info_t::from_failure(Bech32Failure::MissingSeparator, String::from("x")).status, BECH32_ERR_HRP);
    assert_eq!(bech32_info_t::from_failure(Bech32Failure::Payload, String::from("x")).status, BECH32_ERR_PAYLOAD);
    assert_eq!(bech32_info_t::unsuported().status, BECH32_ERR_UNSUPPORTED);
    assert_eq!(bech32_info_t::with_wrong_payload().details, "Payload format does not match bech32 type");
    let v = bech32_info_t::with_value(BECH32_RGB_GENESIS, Some(String::from("{}")));
    assert_eq!((v.status, v.category, v.details.as_str()), (BECH32_OK, BECH32_RGB_GENESIS, "{}"));
    assert_eq!(bech32_info_t::with_value(BECH32_RGB_GENESIS, None).status, BECH32_ERR_INTERNAL);
}

#[test]
fn client_status() {
    let mut s = ClientStatus::new();
    assert!(s.is_ok() && !s.has_err());
    s.set_error(ClientErrorKind::Rpc, String::from("rpc down"));
    assert_eq!(s.err_no, ERRNO_RPC);
    assert!(s.has_err() && !s.is_ok());
    s.set_error_no(ERRNO_UNINIT);
    assert_eq!(s.message, Some(String::from("MyCitadel client is not yet initialized")));
    s.set_failure(String::from("failed"));
    assert_eq!(s.err_no, ERRNO_SERVERFAIL);
    s.set_success();
    assert!(s.is_ok());
    s.set_error(ClientErrorKind::Other, String::from("?"));
    assert_eq!(s.err_no, i32::MAX);
}
