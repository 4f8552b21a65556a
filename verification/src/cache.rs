//! The wallet cache: per-contract unspent outputs, used addresses and the
//! positions of mined transactions, with the queries and updates the node
//! runs on them.

use vstd::prelude::*;

use crate::addrmap::{lists_keys, AddressMap, UNHARDENED_MAX};
use crate::ids::{AssetId, BlockPos, ContractId, Hash32, OutPoint, Txid};
use crate::map::{KeyOrd, SortedMap};
use crate::utxo::{clone_utxos, contains_utxo, utxos_view, Utxo, UtxoV};

verus! {

/// Errors of the cache.
#[derive(Clone, PartialEq, Eq, Debug)]
pub enum CacheError {
    /// I/O error during storage operations. Details: {0}
    Io(String),
    /// item with id {0} is not found
    NotFound(String),
    /// Error in strict data encoding: {0}
    StrictEncoding(String),
    /// error in YAML data encoding: {0}
    YamlEncoding(String),
    /// error in JSON data encoding
    JsonEncoding,
    /// error in TOML data encoding
    TomlEncoding,
    /// address is already registered with a different derivation index
    WrongDerivation,
}

/// Cached data of one wallet contract.
pub struct ContractCache {
    /// Unspent outputs by asset (the zero asset id stands for bitcoin); each
    /// list holds an output at most once.
    pub unspent: SortedMap<AssetId, Vec<Utxo>>,
    /// Known unspent transaction outputs.
    pub utxo: SortedMap<OutPoint, ()>,
    /// Used addresses with their derivation indexes.
    pub used_address_derivations: AddressMap,
    /// Blockchain height at the last update.
    pub updated_height: u32,
}

/// Well-formed lists of unspent outputs of every asset.
pub open spec fn unspent_wf(m: SortedMap<AssetId, Vec<Utxo>>) -> bool {
    &&& m.wf()
    &&& forall|a: AssetId| #[trigger] m@.contains_key(a) ==> utxos_view(m@[a]@).no_duplicates()
}

impl ContractCache {
    pub open spec fn wf(&self) -> bool {
        &&& unspent_wf(self.unspent)
        &&& self.utxo.wf()
        &&& self.used_address_derivations.wf()
    }

    /// An empty cache.
    pub fn new() -> (r: Self)
        ensures
            r.wf(),
            r.unspent@ == Map::<AssetId, Vec<Utxo>>::empty(),
            r.utxo@ == Map::<OutPoint, ()>::empty(),
            r.used_address_derivations@ == Map::<Seq<char>, u32>::empty(),
            r.updated_height == 0,
    {
        ContractCache {
            unspent: SortedMap::new(),
            utxo: SortedMap::new(),
            used_address_derivations: AddressMap::new(),
            updated_height: 0,
        }
    }
}

/// The whole cache.
pub struct Cache {
    /// Blockchain height known from the last update.
    pub known_height: u32,
    /// Per-contract data.
    pub descriptors: SortedMap<ContractId, ContractCache>,
    /// Mined transactions by their position in the blockchain.
    pub mine_info: SortedMap<BlockPos, Txid>,
}

impl Cache {
    pub open spec fn wf(&self) -> bool {
        &&& self.descriptors.wf()
        &&& self.mine_info.wf()
        &&& forall|c: ContractId| #[trigger]
            self.descriptors@.contains_key(c) ==> self.descriptors@[c].wf()
    }

    pub fn new() -> (r: Self)
        ensures
            r.wf(),
            r.known_height == 0,
            r.descriptors@ == Map::<ContractId, ContractCache>::empty(),
            r.mine_info@ == Map::<BlockPos, Txid>::empty(),
    {
        Cache { known_height: 0, descriptors: SortedMap::new(), mine_info: SortedMap::new() }
    }
}

/// Format of the file the cache is kept in.
#[derive(Clone, Copy, PartialEq, Eq, Structural, Debug)]
pub enum FileFormat {
    StrictEncode,
    Yaml,
    Toml,
    Json,
}

/// Location and format of the cache file.
#[derive(Debug)]
pub struct FileConfig {
    pub location: String,
    pub format: FileFormat,
}

/// The file-backed cache driver: the cache held in memory; reading and
/// writing the file is left to the caller.
pub struct FileDriver {
    pub config: FileConfig,
    pub cache: Cache,
}

/// Used addresses of a contract, or none for an unknown contract.
pub open spec fn used_of(d: FileDriver, c: ContractId) -> Map<Seq<char>, u32> {
    if d.cache.descriptors@.contains_key(c) {
        d.cache.descriptors@[c].used_address_derivations@
    } else {
        Map::empty()
    }
}

/// `i` is the derivation index that follows the largest used one: 0 when
/// none is used or when the largest unhardened index is used.
pub open spec fn is_next_unused(used: Map<Seq<char>, u32>, i: u32) -> bool {
    &&& i <= UNHARDENED_MAX
    &&& i > 0 ==> used.values().contains((i - 1) as u32)
    &&& used.dom().len() == 0 ==> i == 0
    &&& (forall|a: Seq<char>| #[trigger] used.contains_key(a) ==> used[a] < UNHARDENED_MAX) ==> (forall|a: Seq<char>|
        #[trigger] used.contains_key(a) ==> used[a] < i)
    &&& (exists|a: Seq<char>| #[trigger] used.contains_key(a) && used[a] == UNHARDENED_MAX) ==> i == 0
}

/// The cache of contract `c` in `new` keeps its outputs, outpoints and
/// height from `old` (empty ones and height 0 when `old` had no cache for
/// `c`); only its used addresses may differ.
pub open spec fn other_data_kept(old: FileDriver, new: FileDriver, c: ContractId) -> bool {
    let n = new.cache.descriptors@[c];
    if old.cache.descriptors@.contains_key(c) {
        let o = old.cache.descriptors@[c];
        &&& n.unspent == o.unspent
        &&& n.utxo == o.utxo
        &&& n.updated_height == o.updated_height
    } else {
        &&& n.unspent@ == Map::<AssetId, Vec<Utxo>>::empty()
        &&& n.utxo@ == Map::<OutPoint, ()>::empty()
        &&& n.updated_height == 0
    }
}

impl FileDriver {
    pub open spec fn wf(&self) -> bool {
        self.cache.wf()
    }

    /// A driver with an empty cache.
    pub fn with(config: FileConfig) -> (r: Self)
        ensures
            r.wf(),
            r.config.location@ == config.location@,
            r.config.format == config.format,
            r.cache.known_height == 0,
            r.cache.descriptors@ == Map::<ContractId, ContractCache>::empty(),
            r.cache.mine_info@ == Map::<BlockPos, Txid>::empty(),
    {
        FileDriver { config, cache: Cache::new() }
    }

    /// The transaction mined at the given block position.
    pub fn blockpos_to_txid(&self, height: u32, offset: u16) -> (r: Option<Txid>)
        requires
            self.wf(),
        ensures
            ({
                let p = BlockPos { height, offset };
                r == (if self.cache.mine_info@.contains_key(p) {
                    Some(self.cache.mine_info@[p])
                } else {
                    None::<Txid>
                })
            }),
    {
        let p = BlockPos { height, offset };
        match self.cache.mine_info.get(&p) {
            Some(t) => Some(*t),
            None => None,
        }
    }

    /// Known unspent outpoints of a contract, in increasing order (none for an
    /// unknown contract).
    pub fn utxo(&self, contract_id: ContractId) -> (r: Result<Vec<OutPoint>, CacheError>)
        requires
            self.wf(),
        ensures
            match r {
                Ok(v) => if self.cache.descriptors@.contains_key(contract_id) {
                    v@ == self.cache.descriptors@[contract_id].utxo.key_seq()
                } else {
                    v@.len() == 0
                },
                Err(_) => false,
            },
    {
        match self.cache.descriptors.get(&contract_id) {
            Some(c) => Ok(c.utxo.keys()),
            None => Ok(Vec::new()),
        }
    }

    /// Used addresses of a contract with their derivation indexes.
    pub fn used_address_derivations(&self, contract_id: ContractId) -> (r: Result<
        AddressMap,
        CacheError,
    >)
        requires
            self.wf(),
        ensures
            match r {
                Ok(m) => m.wf() && m@ == used_of(*self, contract_id),
                Err(_) => false,
            },
    {
        match self.cache.descriptors.get(&contract_id) {
            Some(c) => Ok(c.used_address_derivations.clone()),
            None => Ok(AddressMap::new()),
        }
    }

    /// Used addresses of a contract.
    pub fn used_addresses(&self, contract_id: ContractId) -> (r: Result<Vec<String>, CacheError>)
        requires
            self.wf(),
        ensures
            match r {
                Ok(v) => lists_keys(v@, used_of(*self, contract_id)),
                Err(_) => false,
            },
    {
        match self.cache.descriptors.get(&contract_id) {
            Some(c) => {
                let v = c.used_address_derivations.addresses();
                Ok(v)
            },
            None => {
                assert(used_of(*self, contract_id) =~= Map::<Seq<char>, u32>::empty());
                Ok(Vec::new())
            },
        }
    }

    /// Derivation indexes of the used addresses of a contract.
    pub fn used_derivations(&self, contract_id: ContractId) -> (r: Result<Vec<u32>, CacheError>)
        requires
            self.wf(),
        ensures
            match r {
                Ok(v) => v@.to_set() == used_of(*self, contract_id).values() && v@.no_duplicates(),
                Err(_) => false,
            },
    {
        match self.cache.descriptors.get(&contract_id) {
            Some(c) => Ok(c.used_address_derivations.indexes()),
            None => {
                let v: Vec<u32> = Vec::new();
                assert(v@.to_set() =~= used_of(*self, contract_id).values());
                Ok(v)
            },
        }
    }

    /// The derivation index following the largest used one; 0 when no
    /// address is used or when the largest possible index is used.
    pub fn next_unused_derivation(&self, contract_id: ContractId) -> (r: Result<u32, CacheError>)
        requires
            self.wf(),
        ensures
            match r {
                Ok(i) => {
                    &&& i <= UNHARDENED_MAX
                    &&& (forall|a: Seq<char>| #[trigger]
                        used_of(*self, contract_id).contains_key(a) ==> used_of(
                            *self,
                            contract_id,
                        )[a] < UNHARDENED_MAX) ==> (forall|a: Seq<char>| #[trigger]
                        used_of(*self, contract_id).contains_key(a) ==> used_of(
                            *self,
                            contract_id,
                        )[a] < i)
                    &&& (exists|a: Seq<char>| #[trigger]
                        used_of(*self, contract_id).contains_key(a) && used_of(
                            *self,
                            contract_id,
                        )[a] == UNHARDENED_MAX) ==> i == 0
                    &&& (used_of(*self, contract_id).dom().len() == 0) ==> i == 0
                    &&& i > 0 ==> used_of(*self, contract_id).values().contains((i - 1) as u32)
                    &&& (forall|a: Seq<char>| #[trigger]
                        used_of(*self, contract_id).contains_key(a) ==> used_of(
                            *self,
                            contract_id,
                        )[a] < UNHARDENED_MAX) ==> !used_of(*self, contract_id).values().contains(i)
                },
                Err(_) => false,
            },
    {
        match self.cache.descriptors.get(&contract_id) {
            None => {
                assert(used_of(*self, contract_id) =~= Map::<Seq<char>, u32>::empty());
                Ok(0)
            },
            Some(c) => {
                assert(used_of(*self, contract_id) == c.used_address_derivations@);
                proof {
                    c.used_address_derivations.lemma_values_unhardened();
                }
                match c.used_address_derivations.max_index() {
                    None => {
                        assert(used_of(*self, contract_id).dom() =~= Set::<Seq<char>>::empty());
                        Ok(0)
                    },
                    Some(m) => {
                        let ghost u = used_of(*self, contract_id);
                        assert(forall|a: Seq<char>| #[trigger] u.contains_key(a) ==> u[a] <= m);
                        if m < UNHARDENED_MAX {
                            assert(u.values().contains(m));
                            assert(!(exists|a: Seq<char>| #[trigger] u.contains_key(a) && u[a]
                                == UNHARDENED_MAX));
                            assert(u.dom().len() != 0) by {
                                let a = choose|a: Seq<char>| #[trigger] u.contains_key(a) && u[a] == m;
                                assert(u.dom().contains(a));
                                c.used_address_derivations.lemma_finite();
                            }
                            Ok(m + 1)
                        } else {
                            proof {
                                let a = choose|a: Seq<char>| #[trigger] u.contains_key(a) && u[a] == m;
                                assert(u.contains_key(a) && u[a] == UNHARDENED_MAX);
                            }
                            Ok(0)
                        }
                    },
                }
            },
        }
    }

    /// Registers an address as used at a derivation index. Fails if the
    /// address is already registered with another index; otherwise returns
    /// whether the address was new.
    pub fn use_address_derivation(
        &mut self,
        contract_id: ContractId,
        address: String,
        path: u32,
    ) -> (r: Result<bool, CacheError>)
        requires
            old(self).wf(),
            path <= UNHARDENED_MAX,
        ensures
            final(self).wf(),
            final(self).cache.known_height == old(self).cache.known_height,
            final(self).cache.mine_info@ == old(self).cache.mine_info@,
            match r {
                Err(e) => {
                    &&& e == CacheError::WrongDerivation
                    &&& used_of(*old(self), contract_id).contains_key(address@)
                    &&& used_of(*old(self), contract_id)[address@] != path
                    &&& *final(self) == *old(self)
                },
                Ok(is_new) => {
                    &&& !(used_of(*old(self), contract_id).contains_key(address@) && used_of(
                        *old(self),
                        contract_id,
                    )[address@] != path)
                    &&& is_new == !used_of(*old(self), contract_id).contains_key(address@)
                    &&& used_of(*final(self), contract_id) == used_of(
                        *old(self),
                        contract_id,
                    ).insert(address@, path)
                    &&& final(self).cache.descriptors@.contains_key(contract_id)
                    &&& other_data_kept(*old(self), *final(self), contract_id)
                    &&& forall|c: ContractId|
                        c != contract_id ==> #[trigger] final(self).cache.descriptors@.contains_key(c)
                            == old(self).cache.descriptors@.contains_key(c) && (old(
                            self,
                        ).cache.descriptors@.contains_key(c) ==> final(self).cache.descriptors@[c]
                            == old(self).cache.descriptors@[c])
                },
            },
    {
        if let Some(c) = self.cache.descriptors.get(&contract_id) {
            if let Some(p) = c.used_address_derivations.get(&address) {
                if p != path {
                    return Err(CacheError::WrongDerivation);
                }
            }
        }
        let mut cache = match self.cache.descriptors.remove(&contract_id) {
            Some(c) => c,
            None => ContractCache::new(),
        };
        let is_new = cache.used_address_derivations.insert(address, path);
        self.cache.descriptors.insert(contract_id, cache);
        proof {
            assert forall|c: ContractId| #[trigger]
                self.cache.descriptors@.contains_key(c) implies self.cache.descriptors@[c].wf() by {
                if c != contract_id {
                    assert(old(self).cache.descriptors@.contains_key(c));
                }
            }
        }
        Ok(is_new)
    }

    /// The largest used derivation index of a known contract (0 when it has
    /// no used address); `None` for an unknown contract.
    pub fn last_used_derivation(&self, contract_id: ContractId) -> (r: Option<u32>)
        requires
            self.wf(),
        ensures
            match r {
                None => !self.cache.descriptors@.contains_key(contract_id),
                Some(m) => {
                    &&& self.cache.descriptors@.contains_key(contract_id)
                    &&& forall|a: Seq<char>| #[trigger]
                        used_of(*self, contract_id).contains_key(a) ==> used_of(
                            *self,
                            contract_id,
                        )[a] <= m
                    &&& (m == 0 || used_of(*self, contract_id).values().contains(m))
                },
            },
    {
        match self.cache.descriptors.get(&contract_id) {
            None => None,
            Some(c) => match c.used_address_derivations.max_index() {
                None => Some(0),
                Some(m) => Some(m),
            },
        }
    }

    /// Forgets a used address. Returns whether it was registered.
    pub fn forget_address(&mut self, contract_id: ContractId, address: &String) -> (r: Result<
        bool,
        CacheError,
    >)
        requires
            old(self).wf(),
        ensures
            final(self).wf(),
            final(self).cache.known_height == old(self).cache.known_height,
            final(self).cache.mine_info@ == old(self).cache.mine_info@,
            match r {
                Ok(was) => {
                    &&& was == used_of(*old(self), contract_id).contains_key(address@)
                    &&& used_of(*final(self), contract_id) == used_of(
                        *old(self),
                        contract_id,
                    ).remove(address@)
                    &&& final(self).cache.descriptors@.contains_key(contract_id)
                    &&& other_data_kept(*old(self), *final(self), contract_id)
                    &&& forall|c: ContractId|
                        c != contract_id ==> #[trigger] final(self).cache.descriptors@.contains_key(c)
                            == old(self).cache.descriptors@.contains_key(c) && (old(
                            self,
                        ).cache.descriptors@.contains_key(c) ==> final(self).cache.descriptors@[c]
                            == old(self).cache.descriptors@[c])
                },
                Err(_) => false,
            },
    {
        let mut cache = match self.cache.descriptors.remove(&contract_id) {
            Some(c) => c,
            None => ContractCache::new(),
        };
        let was = cache.used_address_derivations.remove(address);
        self.cache.descriptors.insert(contract_id, cache);
        proof {
            assert forall|c: ContractId| #[trigger]
                self.cache.descriptors@.contains_key(c) implies self.cache.descriptors@[c].wf() by {
                if c != contract_id {
                    assert(old(self).cache.descriptors@.contains_key(c));
                }
            }
            if !old(self).cache.descriptors@.contains_key(contract_id) {
                assert(Map::<Seq<char>, u32>::empty().remove(address@) =~= Map::<
                    Seq<char>,
                    u32,
                >::empty());
            }
        }
        Ok(was)
    }

    /// Derivation index of a used address.
    pub fn address_derivation(&self, contract_id: ContractId, address: &String) -> (r: Option<
        u32,
    >)
        requires
            self.wf(),
        ensures
            r == (if used_of(*self, contract_id).contains_key(address@) {
                Some(used_of(*self, contract_id)[address@])
            } else {
                None::<u32>
            }),
    {
        match self.cache.descriptors.get(&contract_id) {
            None => None,
            Some(c) => c.used_address_derivations.get(address),
        }
    }
}

} // verus!
