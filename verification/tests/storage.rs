use bitcoin::blockdata::script::Script;
use bitcoin::blockdata::transaction::{OutPoint as TxOutPoint, Transaction, TxIn, TxOut};
use mycitadel::rpc::{invoice_add_request, reply_of, ReplyError};
use mycitadel::cli::{lookup_depth_or_default, LOOKUP_DEPTH_DEFAULT};
use mycitadel::cache::{CacheError, FileConfig, FileDriver as CacheDriver, FileFormat};
use mycitadel::ids::{Hash32, OutPoint};
use mycitadel::map::SortedMap;
use mycitadel::model::{
    Contract, Operation, OutpointReveal, PaymentDirecton, Policy, PolicyType, PsbtWrapper, State, TweakedOutput,
};
use mycitadel::model::AddressDerivation;
use mycitadel::rpc::{
    AddInvoiceRequest, ComposeTransferRequest, ContractAddressTuple, NextAddressRequest, RenameContractRequest, Reply,
    Request, Runtime, ServerError, Step, SyncContractRequest,
};
use mycitadel::sync::SyncScan;
use mycitadel::transfer::TransferInfo;
use mycitadel::utxo::Utxo;
use mycitadel::storage::{FileDriver, StorageError};
use mycitadel::utxo::PubKey;

fn id(n: u128) -> Hash32 {
    Hash32 { hi: 0, lo: n }
}

fn config() -> FileConfig {
    FileConfig { location: String::from("/tmp/data"), format: FileFormat::StrictEncode }
}

fn contract(n: u128, name: &str) -> Contract {
    Contract::with(Policy::Current(String::from("wpkh(key)")), String::from(name), String::from("bitcoin"), id(n), 1_600_000_000)
}

fn operation(txid: u128) -> Operation {
    Operation {
        direction: PaymentDirecton::Incoming { giveaway: None, input_derivation_indexes: vec![] },
        created_at: 0,
        height: 0,
        asset_id: None,
        balance_before: 0,
        bitcoin_volume: 0,
        asset_volume: 0,
        bitcoin_value: 0,
        asset_value: 0,
        tx_fee: 0,
        txid: id(txid),
        psbt: PsbtWrapper(vec![]),
        consignment: None,
        notes: None,
    }
}

#[test]
fn contracts_are_stored_by_id() {
    let mut s = FileDriver::with(config());
    s.add_contract(contract(2, "b")).unwrap();
    s.add_contract(contract(1, "a")).unwrap();
    let all = s.contracts();
    assert_eq!(all.len(), 2);
    assert_eq!(all[0].name, "a");
    assert_eq!(s.contract_ref(id(2)).unwrap().name, "b");
    assert_eq!(s.contract_ref(id(3)).err(), Some(StorageError::ContractNotFound(id(3))));
    assert_eq!(s.policy(id(1)).unwrap().policy_type(), PolicyType::Current);
    assert_eq!(s.add_contract(contract(1, "again")), Err(StorageError::ContractExists(id(1))));
    assert_eq!(s.contract_ref(id(1)).unwrap().name, "a");
}

#[test]
fn renamed_contract_reads_back() {
    let mut s = FileDriver::with(config());
    s.add_contract(contract(1, "a")).unwrap();
    s.rename_contract(id(1), String::from("savings")).unwrap();
    assert_eq!(s.contract_ref(id(1)).unwrap().name, "savings");
    assert_eq!(s.rename_contract(id(9), String::from("x")), Err(StorageError::ContractNotFound(id(9))));
}

#[test]
fn deleted_contract_is_gone() {
    let mut s = FileDriver::with(config());
    s.add_contract(contract(1, "a")).unwrap();
    assert_eq!(s.delete_contract(id(1)), Ok(()));
    assert!(s.contract_ref(id(1)).is_err());
    assert_eq!(s.delete_contract(id(1)), Err(StorageError::ContractNotFound(id(1))));
}

#[test]
fn invoices_are_recorded_once() {
    let mut s = FileDriver::with(config());
    s.add_contract(contract(1, "a")).unwrap();
    let reveal = OutpointReveal { blinding: 7, txid: id(5), vout: 1 };
    s.add_invoice(id(1), String::from("inv1"), vec![(id(100), reveal)]).unwrap();
    s.add_invoice(id(1), String::from("inv1"), vec![]).unwrap();
    s.add_invoice(id(1), String::from("inv2"), vec![]).unwrap();
    let c = s.contract_ref(id(1)).unwrap();
    assert_eq!(c.data.sent_invoices, vec![String::from("inv1"), String::from("inv2")]);
    assert_eq!(c.data.blinding_factors.get(&id(100)), Some(&reveal));
}

#[test]
fn operations_and_tweaks() {
    let mut s = FileDriver::with(config());
    s.add_contract(contract(1, "a")).unwrap();
    s.register_operation(id(1), operation(9)).unwrap();
    s.register_operation(id(1), operation(3)).unwrap();
    let h = s.history(id(1)).unwrap();
    assert_eq!(h.len(), 2);
    assert_eq!(h[0].txid, id(3));
    let t = || TweakedOutput {
        outpoint: OutPoint { txid: id(1), vout: 0 },
        script: vec![0, 20],
        tweak: id(2),
        pubkey: PubKey { prefix: 2, x: id(3) },
        derivation_index: 4,
    };
    s.add_p2c_tweak(id(1), t()).unwrap();
    s.add_p2c_tweak(id(1), t()).unwrap();
    assert_eq!(s.contract_ref(id(1)).unwrap().data.p2c_tweaks.len(), 1);
    assert_eq!(s.history(id(8)).err(), Some(StorageError::ContractNotFound(id(8))));
    assert_eq!(State::default().mu_sig, Hash32::zero());
    assert_eq!(State::default().to_string(), "<internal state data>");
}

#[test]
fn node_serves_local_requests() {
    let mut rt = Runtime {
        storage: FileDriver::with(config()),
        cache: CacheDriver::with(FileConfig { location: String::from("/tmp/cache"), format: FileFormat::Json }),
    };
    rt.storage.add_contract(contract(1, "a")).unwrap();
    match rt.rpc_process(Request::ListContracts) {
        Step::Done(Ok(Reply::Contracts(v))) => assert_eq!(v.len(), 1),
        _ => panic!("unexpected reply"),
    }
    match rt.rpc_process(Request::RenameContract(RenameContractRequest { contract_id: id(1), name: String::from("z") })) {
        Step::Done(Ok(Reply::Success)) => {},
        _ => panic!("unexpected reply"),
    }
    assert_eq!(rt.storage.contract_ref(id(1)).unwrap().name, "z");
    match rt.rpc_process(Request::BlindUtxo(id(1))) {
        Step::Done(Err(ServerError::Failure { code, info })) => {
            assert_eq!(code, 0);
            assert_eq!(info, "No UTXO available");
        },
        _ => panic!("unexpected reply"),
    }
    let mut set = SortedMap::new();
    set.insert(OutPoint { txid: id(4), vout: 2 }, ());
    rt.cache.update(id(1), SortedMap::new(), None, set, SortedMap::new());
    match rt.rpc_process(Request::BlindUtxo(id(1))) {
        Step::Done(Ok(Reply::BlindUtxo(o))) => assert_eq!((o.txid, o.vout), (id(4), 2)),
        _ => panic!("unexpected reply"),
    }
    rt.cache.use_address_derivation(id(1), String::from("addr"), 3).unwrap();
    match rt.rpc_process(Request::UnuseAddress(ContractAddressTuple::new(id(1), String::from("addr")))) {
        Step::Done(Ok(Reply::Success)) => {},
        _ => panic!("unexpected reply"),
    }
    assert_eq!(rt.cache.address_derivation(id(1), &String::from("addr")), None);
    let req = AddInvoiceRequest { invoice: String::from("inv"), source_info: vec![(id(1), None), (id(5), None)] };
    match rt.rpc_process(Request::AddInvoice(req)) {
        Step::Done(Err(ServerError::Storage(e))) => assert_eq!(e, StorageError::ContractNotFound(id(5))),
        _ => panic!("unexpected reply"),
    }
    match rt.rpc_process(Request::ListInvoices(id(1))) {
        Step::Done(Ok(Reply::Invoices(v))) => assert_eq!(v, vec![String::from("inv")]),
        _ => panic!("unexpected reply"),
    }
    assert!(matches!(rt.rpc_process(Request::ListAssets), Step::Outside));
}

fn runtime() -> Runtime {
    Runtime {
        storage: FileDriver::with(config()),
        cache: CacheDriver::with(FileConfig { location: String::from("/tmp/cache"), format: FileFormat::Json }),
    }
}

#[test]
fn contract_unspent_is_served_from_the_cache() {
    let mut rt = runtime();
    match rt.rpc_process(Request::ContractUnspent(id(1))) {
        Step::Done(Ok(Reply::ContractUnspent(m))) => assert_eq!(m.len(), 0),
        _ => panic!("unexpected reply"),
    }
    let u = Utxo {
        value: 500,
        height: 10,
        offset: 1,
        txid: id(7),
        vout: 0,
        derivation_index: 2,
        tweak: None,
        address: None,
    };
    let mut unspent = SortedMap::new();
    unspent.insert(Hash32::zero(), vec![u]);
    rt.cache.update(id(1), SortedMap::new(), None, SortedMap::new(), unspent);
    match rt.rpc_process(Request::ContractUnspent(id(1))) {
        Step::Done(Ok(Reply::ContractUnspent(m))) => {
            assert_eq!(m.len(), 1);
            assert_eq!(m.get(&Hash32::zero()).unwrap()[0].value, 500);
        },
        _ => panic!("unexpected reply"),
    }
}

#[test]
fn next_address_index_and_registration() {
    let mut rt = runtime();
    let req = NextAddressRequest { contract_id: id(1), index: None, legacy: false, mark_used: true };
    match rt.next_address_index(&req) {
        Err(ServerError::Storage(e)) => assert_eq!(e, StorageError::ContractNotFound(id(1))),
        _ => panic!("unknown contract accepted"),
    }
    rt.storage.add_contract(contract(1, "a")).unwrap();
    assert_eq!(rt.next_address_index(&req).ok(), Some(0));
    let given = NextAddressRequest { contract_id: id(1), index: Some(7), legacy: false, mark_used: true };
    assert_eq!(rt.next_address_index(&given).ok(), Some(7));
    let d = AddressDerivation::with(String::from("bc1qaddr"), vec![0, 0]);
    let a = rt.finish_next_address(&req, Some(d)).ok().unwrap();
    assert_eq!(a.address, "bc1qaddr");
    assert_eq!(rt.cache.address_derivation(id(1), &String::from("bc1qaddr")), Some(0));
    assert_eq!(rt.next_address_index(&req).ok(), Some(1));
    match rt.finish_next_address(&req, None) {
        Err(ServerError::Failure { code, info }) => {
            assert_eq!(code, 0);
            assert_eq!(info, "Unable to derive address for the provided network/chain");
        },
        _ => panic!("missing address accepted"),
    }
    let other = AddressDerivation::with(String::from("bc1qaddr"), vec![0, 5]);
    assert!(rt.finish_next_address(&req, Some(other)).is_err());
}

#[test]
fn revealed_outpoints_of_known_hashes() {
    let mut rt = runtime();
    rt.storage.add_contract(contract(1, "a")).unwrap();
    let reveal = OutpointReveal { blinding: 7, txid: id(5), vout: 1 };
    let other = OutpointReveal { blinding: 8, txid: id(6), vout: 2 };
    rt.storage.add_invoice(id(1), String::from("inv"), vec![(id(100), reveal), (id(101), other)]).unwrap();
    let r = rt.revealed_outpoints(&vec![id(100), id(300)]);
    assert_eq!(r, vec![reveal]);
    assert!(rt.revealed_outpoints(&vec![]).is_empty());
}

#[test]
fn failure_replies_are_reported() {
    let r = Reply::Failure { code: 3, info: String::from("no funds") };
    match r.report_error("paying invoice") {
        Err(f) => {
            assert_eq!(f.code, 3);
            assert_eq!(f.info, "no funds");
            assert_eq!(f.report, "Error paying invoice #3:\n- no funds");
        },
        Ok(_) => panic!("failure passed"),
    }
    assert!(matches!(Reply::Success.report_error("x"), Ok(Reply::Success)));
}

fn coin(value: u64, txid: u128) -> Utxo {
    Utxo { value, height: 1, offset: 0, txid: id(txid), vout: 0, derivation_index: 0, tweak: None, address: None }
}

#[test]
fn outside_work_is_asked_for() {
    let mut rt = runtime();
    let addr = NextAddressRequest { contract_id: id(1), index: None, legacy: false, mark_used: false };
    match rt.rpc_process(Request::NextAddress(addr)) {
        Step::Done(Err(ServerError::Storage(e))) => assert_eq!(e, StorageError::ContractNotFound(id(1))),
        _ => panic!("unknown contract accepted"),
    }
    rt.storage.add_contract(contract(1, "a")).unwrap();
    rt.cache.use_address_derivation(id(1), String::from("x"), 4).unwrap();
    match rt.rpc_process(Request::NextAddress(addr)) {
        Step::DeriveAddress { contract_id, index, legacy, mark_used } => {
            assert_eq!((contract_id, index, legacy, mark_used), (id(1), 5, false, false));
        },
        _ => panic!("no derivation asked for"),
    }
    match rt.rpc_process(Request::SyncContract(SyncContractRequest { contract_id: id(1), lookup_depth: 20 })) {
        Step::Scan { contract_id, scan } => {
            assert_eq!(contract_id, id(1));
            assert_eq!(scan.last_used, 4);
            assert_eq!(scan.index_offset, 0);
            assert_eq!(scan.lookup_depth, 20);
        },
        _ => panic!("no scan asked for"),
    }
}

#[test]
fn transfers_are_planned_from_the_cache() {
    let mut rt = runtime();
    rt.storage.add_contract(contract(1, "a")).unwrap();
    let mut unspent = SortedMap::new();
    unspent.insert(Hash32::zero(), vec![coin(500, 7), coin(300, 8), coin(900, 9)]);
    rt.cache.update(id(1), SortedMap::new(), None, SortedMap::new(), unspent);
    let req = |value: u64| ComposeTransferRequest {
        pay_from: id(1),
        asset_value: value,
        bitcoin_fee: 100,
        transfer_info: TransferInfo::Bitcoin(String::from("wpkh(key)")),
        invoice: String::from("inv"),
    };
    match rt.rpc_process(Request::ComposeTransfer(req(1000))) {
        Step::BuildTransfer { plan: p, .. } => {
            assert_eq!(p.selected.len(), 2);
            assert_eq!(p.selected[0].value, 900);
            assert_eq!(p.selected[1].value, 500);
            assert_eq!(p.balance_before, 1700);
            assert_eq!(p.bitcoin_value, 1000);
            assert_eq!(p.bitcoin_change, Some(300));
        },
        _ => panic!("no plan"),
    }
    match rt.rpc_process(Request::ComposeTransfer(req(2000))) {
        Step::Done(Err(ServerError::Failure { code, info })) => {
            assert_eq!(code, 0);
            assert_eq!(info, "Insufficient funds on bitcoin outputs which do not have RGB assets on them");
        },
        _ => panic!("overdraft accepted"),
    }
    let mut other = runtime();
    other.storage.add_contract(contract(1, "a")).unwrap();
    let free = ComposeTransferRequest {
        pay_from: id(1),
        asset_value: 0,
        bitcoin_fee: 0,
        transfer_info: TransferInfo::Bitcoin(String::from("wpkh(key)")),
        invoice: String::from("inv"),
    };
    assert!(matches!(other.rpc_process(Request::ComposeTransfer(free)), Step::Done(Err(ServerError::CacheInconsistency))));
}

#[test]
fn finished_sync_fills_the_cache() {
    let mut rt = runtime();
    let scan = SyncScan::new(0, 20);
    match rt.finish_sync(id(1), scan, &vec![], 800_000) {
        Ok(Reply::ContractUnspent(m)) => {
            assert_eq!(m.len(), 1);
            assert!(m.get(&Hash32::zero()).unwrap().is_empty());
        },
        _ => panic!("no sync reply"),
    }
    assert_eq!(rt.cache.cache.known_height, 800_000);
}

#[test]
fn replies_are_dispatched() {
    match (Reply::Failure { code: 2, info: String::from("x") }).into_contracts("listing wallets") {
        Err(ReplyError::Failure(f)) => assert_eq!(f.report, "Error listing wallets #2:\n- x"),
        _ => panic!("failure passed"),
    }
    assert!(matches!(Reply::Success.into_contracts("listing wallets"), Err(ReplyError::UnexpectedApi)));
    assert_eq!(Reply::Contracts(vec![]).into_contracts("listing wallets").ok().map(|v| v.len()), Some(0));
    assert!(Reply::Invoices(vec![]).into_success("renaming wallet").is_ok());
    assert!(matches!(Reply::Success.into_addresses("x"), Err(ReplyError::UnexpectedApi)));
    assert!(matches!(Reply::Addresses(vec![]).into_addresses("x"), Ok(_)));
    assert!(matches!(Reply::Success.into_unspent("x"), Err(ReplyError::UnexpectedApi)));
    match (Reply::Failure { code: 0, info: String::from("no") }).into_prepared_payment() {
        Err(ReplyError::NodeFailure { code, info }) => assert_eq!((code, info.as_str()), (0, "no")),
        _ => panic!("failure passed"),
    }
    match reply_of(Err(ServerError::CacheInconsistency), "") {
        Reply::Failure { code, info } => assert_eq!(
            (code, info.as_str()),
            (1, "internal cache inconsistency; you need to refresh balances and try again")
        ),
        _ => panic!("error passed"),
    }
    match invoice_add_request(String::from("inv"), id(3), None) {
        Request::AddInvoice(r) => {
            assert_eq!(r.invoice, "inv");
            assert_eq!(r.source_info.len(), 1);
            assert_eq!(r.source_info[0].0, id(3));
        },
        _ => panic!("not an invoice request"),
    }
}

#[test]
fn default_lookup_depth() {
    assert_eq!(lookup_depth_or_default(None), LOOKUP_DEPTH_DEFAULT);
    assert_eq!(LOOKUP_DEPTH_DEFAULT, 20);
    assert_eq!(lookup_depth_or_default(Some(5)), 5);
}

#[test]
fn finished_transfer_is_recorded() {
    let mut rt = runtime();
    rt.storage.add_contract(contract(1, "a")).unwrap();
    let mut unspent = SortedMap::new();
    unspent.insert(Hash32::zero(), vec![coin(500, 7), coin(300, 8), coin(900, 9)]);
    rt.cache.update(id(1), SortedMap::new(), None, SortedMap::new(), unspent);
    let request = || ComposeTransferRequest {
        pay_from: id(1),
        asset_value: 1000,
        bitcoin_fee: 100,
        transfer_info: TransferInfo::Bitcoin(String::from("wpkh(key)")),
        invoice: String::from("inv"),
    };
    let req = request();
    let (plan, change_index) = match rt.rpc_process(Request::ComposeTransfer(request())) {
        Step::BuildTransfer { plan, change_index } => (plan, change_index),
        _ => panic!("no plan"),
    };
    assert_eq!(change_index, Some(0));
    match rt.finish_transfer(&req, &plan, change_index, None, id(50), PsbtWrapper(vec![1, 2]), None, 77) {
        Err(ServerError::Failure { code, info }) => {
            assert_eq!(code, 0);
            assert_eq!(info, "Unable to derive change address");
        },
        _ => panic!("missing change address accepted"),
    }
    assert!(rt.storage.history(id(1)).unwrap().is_empty());
    let chg = String::from("bc1change");
    match rt.finish_transfer(&req, &plan, change_index, Some(chg.clone()), id(50), PsbtWrapper(vec![1, 2]), None, 77) {
        Ok(Reply::PreparedPayment(p)) => assert_eq!(p.0, vec![1, 2]),
        _ => panic!("transfer not recorded"),
    }
    assert_eq!(rt.cache.address_derivation(id(1), &chg), Some(0));
    let addr = NextAddressRequest { contract_id: id(1), index: None, legacy: false, mark_used: false };
    match rt.rpc_process(Request::NextAddress(addr)) {
        Step::DeriveAddress { index, .. } => assert_eq!(index, 1),
        _ => panic!("no derivation asked for"),
    }
    let history = rt.storage.history(id(1)).unwrap();
    assert_eq!(history.len(), 1);
    let op = history[0];
    assert_eq!(op.txid, id(50));
    assert_eq!(op.created_at, 77);
    assert_eq!(op.height, 0);
    assert_eq!(op.balance_before, 1700);
    assert_eq!(op.bitcoin_volume, 1400);
    assert_eq!(op.asset_value, 1000);
    assert_eq!(op.tx_fee, 100);
    match &op.direction {
        PaymentDirecton::Outcoming {
            published,
            bitcoin_change,
            change_outputs,
            giveaway,
            paid_bitcoin_fee,
            output_derivation_indexes,
            invoice,
            ..
        } => {
            assert!(!published);
            assert_eq!(*giveaway, None);
            assert_eq!(*bitcoin_change, 300);
            assert_eq!(change_outputs, &vec![1u16]);
            assert_eq!(*paid_bitcoin_fee, 100);
            assert_eq!(output_derivation_indexes, &vec![0u32]);
            assert_eq!(invoice, "inv");
        },
        _ => panic!("not an outgoing payment"),
    }
}

#[test]
fn next_address_follows_the_largest_used_index() {
    let mut rt = runtime();
    rt.storage.add_contract(contract(1, "a")).unwrap();
    rt.cache.use_address_derivation(id(1), String::from("x"), 0).unwrap();
    rt.cache.use_address_derivation(id(1), String::from("y"), 5).unwrap();
    let addr = NextAddressRequest { contract_id: id(1), index: None, legacy: true, mark_used: true };
    match rt.rpc_process(Request::NextAddress(addr)) {
        Step::DeriveAddress { index, legacy, mark_used, .. } => {
            assert_eq!((index, legacy, mark_used), (6, true, true));
        },
        _ => panic!("no derivation asked for"),
    }
}

#[test]
fn invoice_replies_are_read() {
    let ad = AddressDerivation { address: String::from("bc1x"), derivation: vec![0, 6] };
    match Reply::AddressDerivation(ad).into_address_derivation() {
        Ok(a) => {
            assert_eq!(a.address, "bc1x");
            assert_eq!(a.derivation, vec![0, 6]);
        },
        Err(_) => panic!("address lost"),
    }
    let failure = Reply::Failure { code: 0, info: String::from("x") };
    assert!(matches!(failure.into_address_derivation(), Err(ReplyError::UnexpectedApi)));
    assert!(matches!(Reply::Success.into_address_derivation(), Err(ReplyError::UnexpectedApi)));
    let seal = OutpointReveal { blinding: 9, txid: id(3), vout: 1 };
    assert_eq!(Reply::BlindUtxo(seal).into_blind_utxo().ok(), Some(seal));
    assert!(matches!(Reply::Success.into_blind_utxo(), Err(ReplyError::UnexpectedApi)));
}

#[test]
fn blinded_outpoints_get_fresh_factors() {
    let mut rt = runtime();
    rt.storage.add_contract(contract(1, "a")).unwrap();
    let mut set = SortedMap::new();
    set.insert(OutPoint { txid: id(4), vout: 2 }, ());
    rt.cache.update(id(1), SortedMap::new(), None, set, SortedMap::new());
    let mut factors = vec![];
    for _ in 0..3 {
        match rt.rpc_process(Request::BlindUtxo(id(1))) {
            Step::Done(Ok(Reply::BlindUtxo(o))) => {
                assert_eq!((o.txid, o.vout), (id(4), 2));
                factors.push(o.blinding);
            },
            _ => panic!("unexpected reply"),
        }
    }
    assert!(factors[0] != factors[1] || factors[1] != factors[2]);
}

#[test]
fn finalization_outcomes_become_steps() {
    match mycitadel::rpc::finalization_step(Some(Ok(vec![1, 2]))) {
        Step::Publish(tx) => assert_eq!(tx, vec![1, 2]),
        _ => panic!("transaction not published"),
    }
    match mycitadel::rpc::finalization_step(Some(Err(String::from("bad")))) {
        Step::Done(Ok(Reply::Failure { code, info })) => assert_eq!((code, info.as_str()), (0, "bad")),
        _ => panic!("failure lost"),
    }
    match mycitadel::rpc::finalization_step(None) {
        Step::Done(Ok(Reply::Failure { code, info })) => {
            assert_eq!((code, info.as_str()), (0, "PSBT refers to a missing previous output or an uncompressed signing key"))
        },
        _ => panic!("unsafe PSBT accepted"),
    }
}

#[test]
fn unsigned_psbts_are_not_published() {
    let mut rt = runtime();
    let unsigned = base64::decode(
        "cHNidP8BADMBAAAAAQAAAAAAAAAAAAAAAAAAAAAAAAAAAAAAAAAAAAAAAAAAAAAAAAD/////AAAAAAAAAA==",
    )
    .unwrap();
    for psbt in [unsigned, vec![1, 2, 3]] {
        assert!(matches!(mycitadel::finalize::finalize_psbt(&psbt), Some(Err(_))));
        match rt.rpc_process(Request::FinalizeTransfer(PsbtWrapper(psbt))) {
            Step::Done(Ok(Reply::Failure { code, info })) => {
                assert_eq!(code, 0);
                assert!(!info.is_empty());
            },
            _ => panic!("unsigned transaction published"),
        }
    }
}

#[test]
fn psbts_spending_missing_outputs_are_refused() {
    let prev = Transaction {
        version: 2,
        lock_time: 0,
        input: vec![],
        output: vec![TxOut { value: 1000, script_pubkey: Script::new() }],
    };
    let spend = Transaction {
        version: 2,
        lock_time: 0,
        input: vec![TxIn {
            previous_output: TxOutPoint { txid: prev.txid(), vout: 5 },
            script_sig: Script::new(),
            sequence: 0xFFFF_FFFF,
            witness: vec![],
        }],
        output: vec![],
    };
    let mut psbt = bitcoin::util::psbt::PartiallySignedTransaction::from_unsigned_tx(spend).unwrap();
    psbt.inputs[0].non_witness_utxo = Some(prev);
    let bytes = bitcoin::consensus::serialize(&psbt);
    assert!(mycitadel::finalize::finalize_psbt(&bytes).is_none());
    let mut rt = runtime();
    match rt.rpc_process(Request::FinalizeTransfer(PsbtWrapper(bytes))) {
        Step::Done(Ok(Reply::Failure { code, info })) => {
            assert_eq!(code, 0);
            assert_eq!(info, "PSBT refers to a missing previous output or an uncompressed signing key");
        },
        _ => panic!("unsafe PSBT finalized"),
    }
}

#[test]
fn errors_are_replied_with_their_messages() {
    let text = |e: ServerError| match reply_of(Err(e), "wallet7") {
        Reply::Failure { code, info } => (code, info),
        _ => panic!("error passed"),
    };
    assert_eq!(
        text(ServerError::Storage(StorageError::ContractNotFound(id(7)))),
        (1, String::from("storage failure - Contract with the given id wallet7 is not found"))
    );
    assert_eq!(
        text(ServerError::Storage(StorageError::ContractExists(id(7)))),
        (
            1,
            String::from(
                "storage failure - Wallet corresponding to the provided descriptor already exists. If you are trying to update wallet name use wallet rename command.\nDetails on existing wallet: wallet7"
            )
        )
    );
    assert_eq!(
        text(ServerError::Cache(CacheError::NotFound(String::from("c1")))),
        (1, String::from("cache failure - item with id c1 is not found"))
    );
    assert_eq!(
        text(ServerError::Cache(CacheError::StrictEncoding(String::from("eof")))),
        (1, String::from("cache failure - Error in strict data encoding: eof Make sure that the storage is not broken."))
    );
    assert_eq!(
        text(ServerError::Storage(StorageError::JsonEncoding)),
        (1, String::from("storage failure - error in YAML data encoding"))
    );
    assert_eq!(
        text(ServerError::Failure { code: 4, info: String::from("own") }),
        (4, String::from("own"))
    );
    match reply_of(Ok(Reply::Success), "x") {
        Reply::Success => {},
        _ => panic!("answer lost"),
    }
}

#[test]
fn psbts_signed_with_uncompressed_keys_are_refused() {
    let secp = bitcoin::secp256k1::Secp256k1::new();
    let sk = bitcoin::secp256k1::SecretKey::from_slice(&[1u8; 32]).unwrap();
    let key = bitcoin::PublicKey { compressed: false, key: bitcoin::secp256k1::PublicKey::from_secret_key(&secp, &sk) };
    let spend = Transaction {
        version: 2,
        lock_time: 0,
        input: vec![TxIn {
            previous_output: TxOutPoint { txid: Default::default(), vout: 0 },
            script_sig: Script::new(),
            sequence: 0xFFFF_FFFF,
            witness: vec![],
        }],
        output: vec![],
    };
    let mut psbt = bitcoin::util::psbt::PartiallySignedTransaction::from_unsigned_tx(spend).unwrap();
    psbt.inputs[0].witness_utxo = Some(TxOut { value: 1000, script_pubkey: Script::new() });
    psbt.inputs[0].partial_sigs.insert(key, vec![1, 2, 3]);
    let bytes = bitcoin::consensus::serialize(&psbt);
    assert!(mycitadel::finalize::finalize_psbt(&bytes).is_none());
    let compressed = bitcoin::PublicKey { compressed: true, key: key.key };
    psbt.inputs[0].partial_sigs.clear();
    psbt.inputs[0].partial_sigs.insert(compressed, vec![1, 2, 3]);
    let bytes = bitcoin::consensus::serialize(&psbt);
    assert!(matches!(mycitadel::finalize::finalize_psbt(&bytes), Some(Err(_))));
}
