//! The wallet storage: contracts by id, with the operations on them that
//! the node runs. Reading and writing the storage file is left to the
//! caller.

use vstd::prelude::*;

use crate::cache::FileConfig;
use crate::ids::{ContractId, Hash32, Txid};
use crate::map::SortedMap;
use crate::model::{Contract, Operation, OutpointReveal, Policy, TweakedOutput, TweakedOutputV};

verus! {

/// Errors of the storage.
#[derive(Clone, PartialEq, Eq, Debug)]
pub enum StorageError {
    /// I/O error during storage operations. Details: {0}
    Io(String),
    /// A contract with this id exists already.
    ContractExists(ContractId),
    /// Contract with the given id {0} is not found
    ContractNotFound(ContractId),
    /// Identity with the provided id {0} already exists
    IdentityExists(Hash32),
    /// Error in strict data encoding: {0}
    StrictEncoding(String),
    /// error in YAML data encoding: {0}
    YamlEncoding(String),
    /// error in JSON data encoding
    JsonEncoding,
    /// error in TOML data encoding
    TomlEncoding,
}

/// All the wallet data.
pub struct Citadel {
    pub contracts: SortedMap<ContractId, Contract>,
}

impl Citadel {
    pub open spec fn wf(&self) -> bool {
        &&& self.contracts.wf()
        &&& forall|c: ContractId| #[trigger] self.contracts@.contains_key(c) ==> self.contracts@[c].wf() && self.contracts@[c].id == c
    }

    pub fn new() -> (r: Self)
        ensures
            r.wf(),
            r.contracts@ == Map::<ContractId, Contract>::empty(),
    {
        Citadel { contracts: SortedMap::new() }
    }
}

/// The file-backed storage: the data held in memory.
pub struct FileDriver {
    pub config: FileConfig,
    pub data: Citadel,
}

/// The storage with contract `id` changed to `c`, the others unchanged.
pub open spec fn only_changed(old: Map<ContractId, Contract>, new: Map<ContractId, Contract>, id: ContractId) -> bool {
    &&& new.dom() == old.dom()
    &&& forall|k: ContractId| k != id && #[trigger] old.contains_key(k) ==> new[k] == old[k]
}

impl FileDriver {
    pub open spec fn wf(&self) -> bool {
        self.data.wf()
    }

    /// A driver holding no contract.
    pub fn with(config: FileConfig) -> (r: Self)
        ensures
            r.wf(),
            r.config.location@ == config.location@,
            r.config.format == config.format,
            r.data.contracts@ == Map::<ContractId, Contract>::empty(),
    {
        FileDriver { config, data: Citadel::new() }
    }

    /// All contracts, by increasing id.
    pub fn contracts(&self) -> (r: Vec<&Contract>)
        requires
            self.wf(),
        ensures
            r@.len() == self.data.contracts.entries().len(),
            forall|i: int| 0 <= i < r@.len() ==> *#[trigger] r@[i] == self.data.contracts.entries()[i].1,
    {
        self.data.contracts.values()
    }

    /// The contract with the given id.
    pub fn contract_ref(&self, contract_id: ContractId) -> (r: Result<&Contract, StorageError>)
        requires
            self.wf(),
        ensures
            match r {
                Ok(c) => self.data.contracts@.contains_key(contract_id) && *c == self.data.contracts@[contract_id],
                Err(e) => !self.data.contracts@.contains_key(contract_id) && e == StorageError::ContractNotFound(contract_id),
            },
    {
        match self.data.contracts.get(&contract_id) {
            Some(c) => Ok(c),
            None => Err(StorageError::ContractNotFound(contract_id)),
        }
    }

    /// Stores a new contract under its id; a contract already stored under
    /// that id is refused and stays as it is.
    pub fn add_contract(&mut self, contract: Contract) -> (r: Result<(), StorageError>)
        requires
            old(self).wf(),
            contract.wf(),
        ensures
            final(self).wf(),
            old(self).data.contracts@.contains_key(contract.id) ==> r == Err::<(), StorageError>(
                StorageError::ContractExists(contract.id),
            ) && final(self).data.contracts@ == old(self).data.contracts@,
            !old(self).data.contracts@.contains_key(contract.id) ==> r is Ok && final(self).data.contracts@
                == old(self).data.contracts@.insert(contract.id, contract),
    {
        let id = contract.id;
        if self.data.contracts.contains_key(&id) {
            return Err(StorageError::ContractExists(id));
        }
        self.data.contracts.insert(id, contract);
        proof {
            assert forall|c: ContractId| #[trigger] self.data.contracts@.contains_key(c) implies self.data.contracts@[c].wf() by {
                if c != id {
                    assert(old(self).data.contracts@.contains_key(c));
                }
            }
        }
        Ok(())
    }

    /// Takes a contract out for a change; it goes back with `put_back`.
    fn take_contract(&mut self, contract_id: ContractId) -> (r: Result<Contract, StorageError>)
        requires
            old(self).wf(),
        ensures
            final(self).wf(),
            match r {
                Ok(c) => {
                    &&& old(self).data.contracts@.contains_key(contract_id)
                    &&& c == old(self).data.contracts@[contract_id]
                    &&& c.id == contract_id
                    &&& final(self).data.contracts@ == old(self).data.contracts@.remove(contract_id)
                },
                Err(e) => {
                    &&& !old(self).data.contracts@.contains_key(contract_id)
                    &&& e == StorageError::ContractNotFound(contract_id)
                    &&& final(self).data.contracts@ == old(self).data.contracts@
                },
            },
    {
        match self.data.contracts.remove(&contract_id) {
            Some(c) => {
                proof {
                    assert forall|k: ContractId| #[trigger] self.data.contracts@.contains_key(k) implies self.data.contracts@[k].wf() by {
                        assert(old(self).data.contracts@.contains_key(k));
                    }
                }
                Ok(c)
            },
            None => {
                assert(self.data.contracts@ =~= old(self).data.contracts@);
                Err(StorageError::ContractNotFound(contract_id))
            },
        }
    }

    fn put_back(&mut self, contract_id: ContractId, c: Contract)
        requires
            old(self).wf(),
            c.wf(),
            c.id == contract_id,
        ensures
            final(self).wf(),
            final(self).data.contracts@ == old(self).data.contracts@.insert(contract_id, c),
    {
        self.data.contracts.insert(contract_id, c);
        proof {
            assert forall|k: ContractId| #[trigger] self.data.contracts@.contains_key(k) implies self.data.contracts@[k].wf() by {
                if k != contract_id {
                    assert(old(self).data.contracts@.contains_key(k));
                }
            }
        }
    }

    /// Gives a contract a new name.
    pub fn rename_contract(&mut self, contract_id: ContractId, new_name: String) -> (r: Result<(), StorageError>)
        requires
            old(self).wf(),
        ensures
            final(self).wf(),
            match r {
                Ok(()) => {
                    let o = old(self).data.contracts@[contract_id];
                    let n = final(self).data.contracts@[contract_id];
                    &&& old(self).data.contracts@.contains_key(contract_id)
                    &&& only_changed(old(self).data.contracts@, final(self).data.contracts@, contract_id)
                    &&& n.name@ == new_name@
                    &&& n.id == o.id && n.chain == o.chain && n.policy == o.policy && n.created_at == o.created_at
                    &&& n.data == o.data
                },
                Err(e) => {
                    &&& !old(self).data.contracts@.contains_key(contract_id)
                    &&& e == StorageError::ContractNotFound(contract_id)
                    &&& final(self).data.contracts@ == old(self).data.contracts@
                },
            },
    {
        let mut c = match self.take_contract(contract_id) {
            Ok(c) => c,
            Err(e) => return Err(e),
        };
        c.name = new_name;
        self.put_back(contract_id, c);
        assert(self.data.contracts@.dom() =~= old(self).data.contracts@.dom());
        Ok(())
    }

    /// Removes a contract.
    pub fn delete_contract(&mut self, contract_id: ContractId) -> (r: Result<(), StorageError>)
        requires
            old(self).wf(),
        ensures
            final(self).wf(),
            final(self).data.contracts@ == old(self).data.contracts@.remove(contract_id),
            match r {
                Ok(()) => old(self).data.contracts@.contains_key(contract_id),
                Err(e) => !old(self).data.contracts@.contains_key(contract_id) && e == StorageError::ContractNotFound(contract_id),
            },
    {
        match self.take_contract(contract_id) {
            Ok(_) => Ok(()),
            Err(e) => {
                assert(old(self).data.contracts@.remove(contract_id) =~= old(self).data.contracts@);
                Err(e)
            },
        }
    }

    /// The policy of a contract.
    pub fn policy(&self, contract_id: ContractId) -> (r: Result<&Policy, StorageError>)
        requires
            self.wf(),
        ensures
            match r {
                Ok(p) => self.data.contracts@.contains_key(contract_id) && *p == self.data.contracts@[contract_id].policy,
                Err(e) => !self.data.contracts@.contains_key(contract_id) && e == StorageError::ContractNotFound(contract_id),
            },
    {
        match self.data.contracts.get(&contract_id) {
            Some(c) => Ok(&c.policy),
            None => Err(StorageError::ContractNotFound(contract_id)),
        }
    }

    /// Records an issued invoice with the blinding factors of the outpoints
    /// it reveals (each given with the hash concealing it).
    pub fn add_invoice(
        &mut self,
        contract_id: ContractId,
        invoice: String,
        reveal_info: Vec<(Hash32, OutpointReveal)>,
    ) -> (r: Result<(), StorageError>)
        requires
            old(self).wf(),
        ensures
            final(self).wf(),
            match r {
                Ok(()) => {
                    let o = old(self).data.contracts@[contract_id];
                    let n = final(self).data.contracts@[contract_id];
                    let invoices = o.data.sent_invoices@.map_values(|s: String| s@);
                    &&& old(self).data.contracts@.contains_key(contract_id)
                    &&& only_changed(old(self).data.contracts@, final(self).data.contracts@, contract_id)
                    &&& n.id == o.id && n.name == o.name
                    &&& n.data.sent_invoices@.map_values(|s: String| s@) == if invoices.contains(invoice@) {
                        invoices
                    } else {
                        invoices.push(invoice@)
                    }
                    &&& forall|h: Hash32| #[trigger] n.data.blinding_factors@.contains_key(h) <==> (
                        o.data.blinding_factors@.contains_key(h) || exists|i: int| 0 <= i < reveal_info@.len() && reveal_info@[i].0 == h)
                    &&& forall|i: int| 0 <= i < reveal_info@.len() && (forall|j: int| i < j < reveal_info@.len() ==> reveal_info@[j].0 != reveal_info@[i].0)
                        ==> n.data.blinding_factors@[#[trigger] reveal_info@[i].0] == reveal_info@[i].1
                    &&& n.data.operations == o.data.operations
                    &&& n.data.p2c_tweaks == o.data.p2c_tweaks
                },
                Err(e) => {
                    &&& !old(self).data.contracts@.contains_key(contract_id)
                    &&& e == StorageError::ContractNotFound(contract_id)
                    &&& final(self).data.contracts@ == old(self).data.contracts@
                },
            },
    {
        let mut c = match self.take_contract(contract_id) {
            Ok(c) => c,
            Err(e) => return Err(e),
        };
        let ghost o = c;
        c.add_invoice(invoice);
        let ghost mid = c.data.blinding_factors@;
        let mut i: usize = 0;
        while i < reveal_info.len()
            invariant
                i <= reveal_info@.len(),
                c.wf(),
                c.id == o.id,
                c.name == o.name,
                c.data.operations == o.data.operations,
                c.data.p2c_tweaks == o.data.p2c_tweaks,
                c.data.sent_invoices@.map_values(|s: String| s@) == if o.data.sent_invoices@.map_values(|s: String| s@).contains(invoice@) {
                    o.data.sent_invoices@.map_values(|s: String| s@)
                } else {
                    o.data.sent_invoices@.map_values(|s: String| s@).push(invoice@)
                },
                mid == o.data.blinding_factors@,
                forall|h: Hash32| #[trigger] c.data.blinding_factors@.contains_key(h) <==> (
                    mid.contains_key(h) || exists|k: int| 0 <= k < i && reveal_info@[k].0 == h),
                forall|k: int| 0 <= k < i && (forall|j: int| k < j < i ==> reveal_info@[j].0 != reveal_info@[k].0)
                    ==> c.data.blinding_factors@[#[trigger] reveal_info@[k].0] == reveal_info@[k].1,
            decreases reveal_info@.len() - i,
        {
            let (h, rv) = reveal_info[i];
            c.add_blinding(h, rv);
            proof {
                assert forall|hh: Hash32| #[trigger] c.data.blinding_factors@.contains_key(hh) <==> (
                    mid.contains_key(hh) || exists|k: int| 0 <= k < i + 1 && reveal_info@[k].0 == hh) by {
                    if hh == h {
                        assert(reveal_info@[i as int].0 == hh);
                    } else if exists|k: int| 0 <= k < i + 1 && reveal_info@[k].0 == hh {
                        let k = choose|k: int| 0 <= k < i + 1 && reveal_info@[k].0 == hh;
                        assert(k < i);
                    }
                }
            }
            i = i + 1;
        }
        self.put_back(contract_id, c);
        assert(self.data.contracts@.dom() =~= old(self).data.contracts@.dom());
        Ok(())
    }

    /// Records a tweaked output of a contract.
    pub fn add_p2c_tweak(&mut self, contract_id: ContractId, tweak: TweakedOutput) -> (r: Result<(), StorageError>)
        requires
            old(self).wf(),
        ensures
            final(self).wf(),
            match r {
                Ok(()) => {
                    let o = old(self).data.contracts@[contract_id];
                    let n = final(self).data.contracts@[contract_id];
                    &&& old(self).data.contracts@.contains_key(contract_id)
                    &&& only_changed(old(self).data.contracts@, final(self).data.contracts@, contract_id)
                    &&& n.id == o.id && n.name == o.name
                    &&& n.data.p2c_tweaks@.map_values(|t: TweakedOutput| t@).to_set()
                        == o.data.p2c_tweaks@.map_values(|t: TweakedOutput| t@).to_set().insert(tweak@)
                    &&& n.data.operations == o.data.operations
                },
                Err(e) => {
                    &&& !old(self).data.contracts@.contains_key(contract_id)
                    &&& e == StorageError::ContractNotFound(contract_id)
                    &&& final(self).data.contracts@ == old(self).data.contracts@
                },
            },
    {
        let mut c = match self.take_contract(contract_id) {
            Ok(c) => c,
            Err(e) => return Err(e),
        };
        c.add_p2c_tweak(tweak);
        self.put_back(contract_id, c);
        assert(self.data.contracts@.dom() =~= old(self).data.contracts@.dom());
        Ok(())
    }

    /// Records an operation of a contract.
    pub fn register_operation(&mut self, contract_id: ContractId, operation: Operation) -> (r: Result<(), StorageError>)
        requires
            old(self).wf(),
        ensures
            final(self).wf(),
            match r {
                Ok(()) => {
                    let o = old(self).data.contracts@[contract_id];
                    let n = final(self).data.contracts@[contract_id];
                    &&& old(self).data.contracts@.contains_key(contract_id)
                    &&& only_changed(old(self).data.contracts@, final(self).data.contracts@, contract_id)
                    &&& n.id == o.id && n.name == o.name
                    &&& n.data.operations@ == o.data.operations@.insert(operation.txid, operation)
                },
                Err(e) => {
                    &&& !old(self).data.contracts@.contains_key(contract_id)
                    &&& e == StorageError::ContractNotFound(contract_id)
                    &&& final(self).data.contracts@ == old(self).data.contracts@
                },
            },
    {
        let mut c = match self.take_contract(contract_id) {
            Ok(c) => c,
            Err(e) => return Err(e),
        };
        c.add_operation(operation);
        self.put_back(contract_id, c);
        assert(self.data.contracts@.dom() =~= old(self).data.contracts@.dom());
        Ok(())
    }

    /// The operations of a contract, by increasing transaction id.
    pub fn history(&self, contract_id: ContractId) -> (r: Result<Vec<&Operation>, StorageError>)
        requires
            self.wf(),
        ensures
            match r {
                Ok(v) => {
                    let c = self.data.contracts@[contract_id];
                    &&& self.data.contracts@.contains_key(contract_id)
                    &&& v@.len() == c.data.operations.entries().len()
                    &&& forall|i: int| 0 <= i < v@.len() ==> *#[trigger] v@[i] == c.data.operations.entries()[i].1
                },
                Err(e) => !self.data.contracts@.contains_key(contract_id) && e == StorageError::ContractNotFound(contract_id),
            },
    {
        match self.data.contracts.get(&contract_id) {
            Some(c) => Ok(c.history()),
            None => Err(StorageError::ContractNotFound(contract_id)),
        }
    }
}

} // verus!
