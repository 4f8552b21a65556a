use mycitadel::ids::{Hash32, OutPoint};
use mycitadel::sync::{FoundOutput, SyncScan, TxKey};
use mycitadel::transfer::{
    compose_plan, select_coins, sort_by_value_desc, total_amount, ChangeSeal, PaymentReceiver, TransferError,
};
use mycitadel::utxo::Utxo;

fn id(n: u128) -> Hash32 {
    Hash32 { hi: 0, lo: n }
}

fn utxo(value: u64, vout: u16) -> Utxo {
    Utxo {
        value,
        height: 10,
        offset: 1,
        txid: id(42),
        vout,
        derivation_index: vout as u32,
        tweak: None,
        address: None,
    }
}

#[test]
fn coins_are_ordered_by_decreasing_value() {
    let sorted = sort_by_value_desc(vec![utxo(5, 0), utxo(30, 1), utxo(10, 2), utxo(30, 3)]);
    let values: Vec<u64> = sorted.iter().map(|u| u.value).collect();
    assert_eq!(values, vec![30, 30, 10, 5]);
    assert_eq!(sorted[0].vout, 3);
    assert_eq!(sorted[1].vout, 1);
}

#[test]
fn selection_stops_once_covered() {
    let coins = vec![utxo(30, 0), utxo(20, 1), utxo(0, 2), utxo(10, 3), utxo(5, 4)];
    let sel = select_coins(&coins, 40, 5);
    assert_eq!(sel.input_amount, 50);
    assert_eq!(sel.selected.len(), 2);
    assert_eq!(sel.change_outpoint, Some(OutPoint { txid: id(42), vout: 2 }));
    assert_eq!(total_amount(&coins), 65);
}

#[test]
fn selection_skips_empty_outputs() {
    let coins = vec![utxo(0, 0), utxo(10, 1)];
    let sel = select_coins(&coins, 10, 0);
    assert_eq!(sel.input_amount, 10);
    assert_eq!(sel.selected.len(), 1);
    assert_eq!(sel.selected[0].vout, 1);
    assert_eq!(sel.change_outpoint, None);
}

#[test]
fn bitcoin_payment_with_change() {
    let coins = vec![utxo(1000, 0), utxo(5000, 1), utxo(3000, 2)];
    let btc = vec![utxo(1000, 0), utxo(5000, 1), utxo(3000, 2)];
    let plan = compose_plan(PaymentReceiver::Bitcoin, coins, &btc, 6000, 100).unwrap();
    assert_eq!(plan.balance_before, 9000);
    assert_eq!(plan.asset_input_amount, 8000);
    assert_eq!(plan.selected.len(), 2);
    assert_eq!(plan.bitcoin_value, 6000);
    assert_eq!(plan.payment_outputs, 1);
    assert_eq!(plan.bitcoin_input_amount, 8000);
    assert_eq!(plan.bitcoin_change, Some(1900));
    assert!(plan.asset_change.is_none());
}

#[test]
fn bitcoin_payment_without_funds() {
    let coins = vec![utxo(1000, 0)];
    let btc = vec![utxo(1000, 0)];
    let r = compose_plan(PaymentReceiver::Bitcoin, coins, &btc, 1000, 1);
    assert_eq!(r.err(), Some(TransferError::InsufficientFunds { asset: false }));
    assert_eq!(
        TransferError::InsufficientFunds { asset: false }.message(),
        "Insufficient funds on bitcoin outputs which do not have RGB assets on them"
    );
    assert_eq!(TransferError::InsufficientFunds { asset: true }.message(), "Insufficient funds");
}

#[test]
fn asset_payment_change_goes_to_next_output() {
    let coins = vec![utxo(70, 0), utxo(50, 1)];
    let btc = vec![utxo(1000, 0), utxo(1000, 1)];
    let plan = compose_plan(PaymentReceiver::AssetToBlindUtxo, coins, &btc, 60, 200).unwrap();
    assert_eq!(plan.asset_input_amount, 70);
    assert_eq!(plan.bitcoin_input_amount, 1000);
    assert_eq!(plan.bitcoin_change, Some(800));
    assert_eq!(plan.payment_outputs, 0);
    assert_eq!(plan.asset_change, Some((ChangeSeal::Outpoint(OutPoint { txid: id(42), vout: 1 }), 10)));
}

#[test]
fn asset_change_without_output_fails() {
    let coins = vec![utxo(70, 0)];
    let btc = vec![utxo(100, 0)];
    let r = compose_plan(PaymentReceiver::AssetToBlindUtxo, coins, &btc, 60, 100);
    assert_eq!(r.err(), Some(TransferError::CantAllocateRgbChange));
    assert_eq!(TransferError::CantAllocateRgbChange.message(), "Can't allocate RGB change");
}

#[test]
fn asset_change_to_witness_output() {
    let coins = vec![utxo(70, 0)];
    let btc = vec![utxo(1000, 0)];
    let plan = compose_plan(PaymentReceiver::AssetToDescriptor { giveaway: 300 }, coins, &btc, 60, 100).unwrap();
    assert_eq!(plan.bitcoin_value, 300);
    assert_eq!(plan.bitcoin_giveaway, Some(300));
    assert_eq!(plan.bitcoin_change, Some(600));
    assert_eq!(plan.asset_change, Some((ChangeSeal::WitnessVout(1), 10)));
}

#[test]
fn sync_scan_walks_ranges() {
    let mut scan = SyncScan::new(30, 20);
    assert_eq!(scan.next_range(5), Some((0, 20)));
    assert_eq!(scan.next_range(0), Some((20, 40)));
    assert_eq!(scan.next_range(0), None);
}

#[test]
fn sync_scan_stops_at_last_index() {
    let mut scan = SyncScan::new(0x7fff_ffff, 20);
    scan.index_offset = 0x7fff_fff0;
    assert_eq!(scan.next_range(3), Some((0x7fff_fff0, 0x7fff_ffff)));
    assert_eq!(scan.next_range(3), None);
}

fn found(height: u32, txid: u128, vout: u16, value: u64) -> FoundOutput {
    FoundOutput { height, txid: id(txid), vout, value, derivation_index: 4, tweak: None, address: None }
}

#[test]
fn sync_records_each_outpoint_once() {
    let batch = vec![found(7, 1, 0, 100), found(5, 2, 1, 200), found(7, 1, 0, 100), found(7, 1, 2, 300)];
    let keys = mycitadel::sync::tx_keys(&batch);
    assert_eq!(keys, vec![TxKey { height: 5, txid: id(2) }, TxKey { height: 7, txid: id(1) }]);
    let mut scan = SyncScan::new(0, 20);
    scan.record_tx(&batch, keys[0], 3);
    scan.record_tx(&batch, keys[1], 9);
    assert_eq!(scan.unspent.len(), 3);
    assert_eq!(scan.unspent[0].value, 200);
    assert_eq!(scan.unspent[0].offset, 3);
    assert_eq!(scan.unspent[1].value, 100);
    assert_eq!(scan.unspent[2].value, 300);
    assert_eq!(scan.unspent[2].offset, 9);
    assert_eq!(scan.mine_info.len(), 2);
}

#[test]
fn sync_assets_copy_outputs_with_positive_totals() {
    let batch = vec![found(7, 1, 0, 100)];
    let mut scan = SyncScan::new(0, 20);
    scan.record_tx(&batch, TxKey { height: 7, txid: id(1) }, 0);
    let asset = id(77);
    let amounts = vec![vec![(asset, vec![20u64, 22]), (id(78), vec![])]];
    let m = scan.assets(&amounts);
    assert_eq!(m.get(&Hash32::zero()).unwrap().len(), 1);
    let a = m.get(&asset).unwrap();
    assert_eq!(a.len(), 1);
    assert_eq!(a[0].value, 42);
    assert!(m.get(&id(78)).is_none());
}
