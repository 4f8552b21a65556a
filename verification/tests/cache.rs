use mycitadel::cache::{CacheError, FileConfig, FileDriver, FileFormat};
use mycitadel::ids::{BlockPos, Hash32, OutPoint};
use mycitadel::map::SortedMap;
use mycitadel::utxo::Utxo;

fn driver() -> FileDriver {
    FileDriver::with(FileConfig { location: String::from("/tmp/cache"), format: FileFormat::Yaml })
}

fn id(n: u128) -> Hash32 {
    Hash32 { hi: 0, lo: n }
}

fn utxo(value: u64, txid: u128, vout: u16) -> Utxo {
    Utxo {
        value,
        height: 100,
        offset: 2,
        txid: id(txid),
        vout,
        derivation_index: 7,
        tweak: None,
        address: None,
    }
}

#[test]
fn registered_address_reads_back() {
    let mut d = driver();
    let c = id(1);
    assert_eq!(d.use_address_derivation(c, String::from("bc1qaddr"), 5), Ok(true));
    assert_eq!(d.address_derivation(c, &String::from("bc1qaddr")), Some(5));
    assert_eq!(d.address_derivation(c, &String::from("other")), None);
    assert_eq!(d.address_derivation(id(2), &String::from("bc1qaddr")), None);
}

#[test]
fn registering_twice_is_idempotent() {
    let mut d = driver();
    let c = id(1);
    assert_eq!(d.use_address_derivation(c, String::from("a"), 3), Ok(true));
    assert_eq!(d.use_address_derivation(c, String::from("a"), 3), Ok(false));
    assert_eq!(d.used_derivations(c), Ok(vec![3]));
}

#[test]
fn conflicting_registration_fails() {
    let mut d = driver();
    let c = id(1);
    assert_eq!(d.use_address_derivation(c, String::from("a"), 3), Ok(true));
    assert_eq!(d.use_address_derivation(c, String::from("a"), 4), Err(CacheError::WrongDerivation));
    assert_eq!(d.address_derivation(c, &String::from("a")), Some(3));
}

#[test]
fn forgotten_address_is_gone() {
    let mut d = driver();
    let c = id(1);
    d.use_address_derivation(c, String::from("a"), 3).unwrap();
    d.use_address_derivation(c, String::from("b"), 4).unwrap();
    assert_eq!(d.forget_address(c, &String::from("a")), Ok(true));
    assert_eq!(d.forget_address(c, &String::from("a")), Ok(false));
    assert_eq!(d.address_derivation(c, &String::from("a")), None);
    assert_eq!(d.used_addresses(c), Ok(vec![String::from("b")]));
}

#[test]
fn next_unused_derivation_follows_largest() {
    let mut d = driver();
    let c = id(1);
    assert_eq!(d.next_unused_derivation(c), Ok(0));
    assert_eq!(d.last_used_derivation(c), None);
    d.use_address_derivation(c, String::from("a"), 3).unwrap();
    d.use_address_derivation(c, String::from("b"), 10).unwrap();
    assert_eq!(d.next_unused_derivation(c), Ok(11));
    assert_eq!(d.last_used_derivation(c), Some(10));
    d.use_address_derivation(c, String::from("z"), 0x7fff_ffff).unwrap();
    assert_eq!(d.next_unused_derivation(c), Ok(0));
}

#[test]
fn update_keeps_positive_outputs_once() {
    let mut d = driver();
    let c = id(1);
    let mut mine = SortedMap::new();
    mine.insert(BlockPos { height: 100, offset: 2 }, id(9));
    let mut utxo_set = SortedMap::new();
    utxo_set.insert(OutPoint { txid: id(9), vout: 0 }, ());
    let mut unspent = SortedMap::new();
    unspent.insert(Hash32::zero(), vec![utxo(5, 9, 0), utxo(0, 9, 1), utxo(5, 9, 0)]);
    d.update(c, mine, Some(120), utxo_set, unspent);
    assert_eq!(d.cache.known_height, 120);
    assert_eq!(d.blockpos_to_txid(100, 2), Some(id(9)));
    assert_eq!(d.blockpos_to_txid(100, 3), None);
    assert_eq!(d.utxo(c), Ok(vec![OutPoint { txid: id(9), vout: 0 }]));
    let m = d.unspent(c).unwrap();
    let btc = m.get(&Hash32::zero()).unwrap();
    assert_eq!(btc.len(), 1);
    assert_eq!(btc[0].value, 5);
}

#[test]
fn bitcoin_only_outputs_exclude_asset_outpoints() {
    let mut d = driver();
    let c = id(1);
    let asset = id(77);
    let mut unspent = SortedMap::new();
    unspent.insert(Hash32::zero(), vec![utxo(1000, 9, 0), utxo(2000, 9, 1)]);
    unspent.insert(asset, vec![utxo(50, 9, 1)]);
    d.update(c, SortedMap::new(), None, SortedMap::new(), unspent);
    let only = d.unspent_bitcoin_only(c).unwrap();
    assert_eq!(only.len(), 1);
    assert_eq!(only[0].value, 1000);
    let alloc = d.allocations(c).unwrap();
    let at1 = alloc.get(&OutPoint { txid: id(9), vout: 1 }).unwrap();
    assert_eq!(at1.get(&asset), Some(&50));
    assert_eq!(at1.get(&Hash32::zero()), Some(&2000));
    let at0 = alloc.get(&OutPoint { txid: id(9), vout: 0 }).unwrap();
    assert_eq!(at0.get(&asset), None);
    assert_eq!(at0.len(), 1);
}

#[test]
fn allocations_sum_outputs_at_an_outpoint() {
    let mut d = driver();
    let c = id(1);
    let asset = id(77);
    let mut a = utxo(30, 9, 1);
    a.height = 5;
    let mut unspent = SortedMap::new();
    unspent.insert(asset, vec![utxo(50, 9, 1), a]);
    d.update(c, SortedMap::new(), None, SortedMap::new(), unspent);
    let alloc = d.allocations(c).unwrap();
    let at1 = alloc.get(&OutPoint { txid: id(9), vout: 1 }).unwrap();
    assert_eq!(at1.get(&asset), Some(&80));
    assert_eq!(d.unspent_bitcoin_only(c).unwrap().len(), 0);
}

#[test]
fn unknown_contract_has_empty_cache() {
    let d = driver();
    assert_eq!(d.utxo(id(5)), Ok(vec![]));
    assert_eq!(d.used_addresses(id(5)), Ok(vec![]));
    assert_eq!(d.unspent(id(5)).unwrap().len(), 0);
    assert_eq!(d.allocations(id(5)).unwrap().len(), 0);
}
