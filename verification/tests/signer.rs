use mycitadel::signer::{
    bip32_pubkey_chain_create, bip32_scoped_xpriv, bip32_xpriv_to_xpub, bip39_master_xpriv, bip39_mnemonic_create,
    bip39_mnemonic_type, err_type, hardened_normal_split, string_result_t, strip_wildcards, Bip32Error, Clean,
};

const MASTER: &str = "xprv9s21ZrQH143K3QTDL4LXw2F7HEK3wJUD2nW2nRk4stbPy6cq3jPPqjiChkVvvNKmPGJxWUtg6LnF5kejMRNNU3TGtRBeJgk33yuGBxrMPHi";

#[test]
fn mnemonic_lengths() {
    let all = [
        (bip39_mnemonic_type::words_12, 16, 12),
        (bip39_mnemonic_type::words_15, 20, 15),
        (bip39_mnemonic_type::words_18, 24, 18),
        (bip39_mnemonic_type::words_21, 28, 21),
        (bip39_mnemonic_type::words_24, 32, 24),
    ];
    for (t, bytes, words) in all {
        assert_eq!(t.byte_len(), bytes);
        assert_eq!(t.word_len(), words);
    }
}

#[test]
fn mnemonic_of_zero_entropy() {
    let entropy = vec![0u8; 16];
    let r = bip39_mnemonic_create(Some(&entropy), bip39_mnemonic_type::words_12);
    assert!(r.is_success());
    assert_eq!(
        r.details,
        "abandon abandon abandon abandon abandon abandon abandon abandon abandon abandon abandon about"
    );
}

#[test]
fn mnemonic_uses_only_needed_entropy() {
    let mut entropy = vec![0u8; 16];
    entropy.extend_from_slice(&[0xff; 8]);
    let r = bip39_mnemonic_create(Some(&entropy), bip39_mnemonic_type::words_12);
    assert_eq!(r.details.split(' ').last(), Some("about"));
}

#[test]
fn random_mnemonic_has_its_word_count() {
    let r = bip39_mnemonic_create(None, bip39_mnemonic_type::words_24);
    assert!(r.is_success());
    assert_eq!(r.details.split(' ').count(), 24);
}

#[test]
fn master_key_of_mnemonic() {
    let phrase = "abandon abandon abandon abandon abandon abandon abandon abandon abandon abandon abandon about";
    let r = bip39_master_xpriv(Some(phrase), Some("TREZOR"), false);
    assert_eq!(r.code, err_type::success);
    assert_eq!(
        r.details,
        "xprv9s21ZrQH143K3h3fDYiay8mocZ3afhfULfb5GX8kCBdno77K4HiA15Tg23wpbeF1pLfs1c5SPmYHrEpTuuRhxMwvKDwqdKiGJS9XFKzUsAF"
    );
}

#[test]
fn master_key_failures() {
    let r = bip39_master_xpriv(None, None, false);
    assert_eq!(r.code, err_type::null_pointer);
    assert_eq!(r.details, "got a null pointer as one of the function arguments");
    let r = bip39_master_xpriv(Some("abandon about"), None, true);
    assert_eq!(r.code, err_type::invalid_mnemonic);
}

#[test]
fn scoped_key_of_hardened_branch() {
    let r = bip32_scoped_xpriv(MASTER, "m/0'/1/*");
    assert_eq!(r.code, err_type::success);
    assert_eq!(
        r.details,
        "xprv9uHRZZhk6KAJC1avXpDAp4MDc3sQKNxDiPvvkX8Br5ngLNv1TxvUxt4cV1rGL5hj6KCesnDYUhd7oWgT11eZG7XnxHrnYeSvkzY7d2bhkJ7"
    );
}

#[test]
fn scoped_key_failures() {
    assert_eq!(bip32_scoped_xpriv("xprvnonsense", "m/0'").code, err_type::wrong_extended_key);
    assert_eq!(bip32_scoped_xpriv(MASTER, "0'/1").code, err_type::invalid_derivation_path);
    assert_eq!(bip32_scoped_xpriv(MASTER, "m/x").code, err_type::invalid_derivation_path);
}

#[test]
fn public_key_of_master() {
    let r = bip32_xpriv_to_xpub(MASTER);
    assert!(r.is_success());
    assert_eq!(
        r.details,
        "xpub661MyMwAqRbcFtXgS5sYJABqqG9YLmC4Q1Rdap9gSE8NqtwybGhePY2gZ29ESFjqJoCu1Rupje8YtGqsefD265TMg7usUDFdp6W1EGMcet8"
    );
}

#[test]
fn pubkey_chain_of_derivation() {
    let r = bip32_pubkey_chain_create(MASTER, "m/0'/1/*");
    assert_eq!(r.code, err_type::success);
    assert_eq!(
        r.details,
        "m=[3442193e]=[xpub68Gmy5EdvgibQVfPdqkBBCHxA5htiqg55crXYuXoQRKfDBFA1WEjWgP6LHhwBZeNK1VTsfTFUHCdrfp1bgwQ9xv5ski8PX9rL2dZXvgGDnw]/1/*"
    );
}

#[test]
fn pubkey_chain_needs_hardened_step() {
    let r = bip32_pubkey_chain_create(MASTER, "m/1/2");
    assert_eq!(r.code, err_type::invalid_derivation_path);
    assert_eq!(r.details, "invalid derivation path");
}

#[test]
fn wildcards_are_stripped() {
    assert_eq!(strip_wildcards("m/84'/0'/*/1/*"), "m/84'/0'/1");
    assert_eq!(strip_wildcards("m/*"), "m");
    assert_eq!(strip_wildcards("/"), "/");
}

#[test]
fn split_at_last_hardened_step() {
    let h = 0x8000_0000u32;
    let (branch, terminal) = hardened_normal_split(&vec![h | 84, 1, h, 0, 5]);
    assert_eq!(branch, vec![h | 84, 1, h]);
    assert_eq!(terminal, vec![0, 5]);
    let (branch, terminal) = hardened_normal_split(&vec![3, 4]);
    assert!(branch.is_empty());
    assert_eq!(terminal, vec![3, 4]);
}

#[test]
fn result_codes() {
    assert_eq!(err_type::default(), err_type::success);
    assert_eq!(err_type::from(Bip32Error::CannotDeriveFromHardenedKey), err_type::unable_to_derive_hardened);
    assert_eq!(err_type::from(Bip32Error::InvalidChildNumber(5)), err_type::invalid_derivation_path);
    assert_eq!(err_type::from(Bip32Error::Base58), err_type::wrong_extended_key);
    assert_eq!(err_type::from(Bip32Error::Ecdsa), err_type::bip32_failure);
    let r = string_result_t::error(err_type::invalid_utf8_string);
    assert!(!r.is_success());
    assert_eq!(r.into_result(), Err(err_type::invalid_utf8_string));
    let ok = string_result_t::success(String::from("data"));
    assert_eq!(ok.into_result(), Ok(String::from("data")));
}

#[test]
fn zero_character_is_refused() {
    let r = string_result_t::success(String::from("ab\0c"));
    assert_eq!(r.code, err_type::invalid_result_data);
    assert_eq!(r.details, "nul byte found in provided data at position: 2");
}

#[test]
fn secrets_are_cleaned() {
    let mut secret = vec![1u8, 2, 3];
    secret.clean();
    assert_eq!(secret, vec![0, 0, 0]);
}

#[test]
fn results_built_from_values() {
    let ok = string_result_t::from_ok(String::from("abc"));
    assert_eq!(ok.code, err_type::success);
    assert_eq!(ok.details, "abc");
    assert_eq!(ok.into_result(), Ok(String::from("abc")));
    let bad = string_result_t::error(err_type::invalid_mnemonic);
    assert_eq!(bad.into_result(), Err(err_type::invalid_mnemonic));
}

#[test]
fn failures_carry_their_code_message() {
    let r = bip39_master_xpriv(Some("not a mnemonic"), None, false);
    assert_eq!(r.code, err_type::invalid_mnemonic);
    assert_eq!(r.details, "invalid mnemonic string");
    let r = bip32_scoped_xpriv(MASTER, "m/x'");
    assert_eq!(r.code, err_type::invalid_derivation_path);
    assert_eq!(r.details, "invalid derivation path");
    let r = bip32_xpriv_to_xpub("xprvnotakey");
    assert_eq!(r.code, err_type::wrong_extended_key);
    assert_eq!(r.details, "wrong BIP32 extended public or private key data");
}

#[test]
fn derivation_steps_read_as_child_numbers() {
    let plain = bip32_scoped_xpriv(MASTER, "m/5'");
    assert_eq!(plain.code, err_type::success);
    let signed = bip32_scoped_xpriv(MASTER, "m/+5h");
    assert_eq!(signed.code, err_type::success);
    assert_eq!(signed.details, plain.details);
    assert_eq!(bip32_scoped_xpriv(MASTER, "m/2147483648'").code, err_type::invalid_derivation_path);
    assert_eq!(bip32_scoped_xpriv(MASTER, "m//1'").code, err_type::invalid_derivation_path);
    assert_eq!(bip32_scoped_xpriv(MASTER, "m/1'/").code, err_type::invalid_derivation_path);
    assert_eq!(bip32_scoped_xpriv(MASTER, "m/-1'").code, err_type::invalid_derivation_path);
}
