//! The keyed store that holds the engine's records: the configuration, the
//! accumulator, the list of beneficiary addresses, and one ledger entry per
//! address.
use vstd::prelude::*;
use crate::state::{Config, StoredBeneficiary, TaxPool};

verus! {

/// The ledger as a list of addresses with their entries.
pub type Ledger = Seq<(Seq<char>, StoredBeneficiary)>;

/// No address has two entries.
pub open spec fn distinct_keys(ledger: Ledger) -> bool {
    forall|i: int, j: int|
        0 <= i < j < ledger.len() ==> (#[trigger] ledger[i]).0 != (#[trigger] ledger[j]).0
}

/// Whether an address has an entry.
pub open spec fn has_key(ledger: Ledger, key: Seq<char>) -> bool {
    exists|i: int| 0 <= i < ledger.len() && (#[trigger] ledger[i]).0 == key
}

/// Where the entry of an address stands, if it has one.
pub open spec fn index_of(ledger: Ledger, key: Seq<char>) -> int {
    choose|i: int| 0 <= i < ledger.len() && (#[trigger] ledger[i]).0 == key
}

/// The entry of an address.
pub open spec fn lookup(ledger: Ledger, key: Seq<char>) -> Option<StoredBeneficiary> {
    if has_key(ledger, key) {
        Some(ledger[index_of(ledger, key)].1)
    } else {
        None
    }
}

/// The ledger after an entry was stored under an address: an entry that the
/// address had is replaced where it stands, a new one goes to the end.
pub open spec fn with_entry(ledger: Ledger, key: Seq<char>, entry: StoredBeneficiary) -> Ledger {
    if has_key(ledger, key) {
        ledger.update(index_of(ledger, key), (key, entry))
    } else {
        ledger.push((key, entry))
    }
}

/// The ledger after the entry of an address was deleted.
pub open spec fn without_entry(ledger: Ledger, key: Seq<char>) -> Ledger {
    if has_key(ledger, key) {
        ledger.remove(index_of(ledger, key))
    } else {
        ledger
    }
}

/// In a ledger without repeated addresses an entry is found where it stands.
pub proof fn lemma_index_of(ledger: Ledger, i: int)
    requires
        distinct_keys(ledger),
        0 <= i < ledger.len(),
    ensures
        has_key(ledger, ledger[i].0),
        index_of(ledger, ledger[i].0) == i,
        lookup(ledger, ledger[i].0) == Some(ledger[i].1),
{
    let key = ledger[i].0;
    let j = index_of(ledger, key);
    assert(0 <= j < ledger.len() && ledger[j].0 == key);
    if j < i {
        assert(ledger[j].0 != ledger[i].0);
    } else if i < j {
        assert(ledger[i].0 != ledger[j].0);
    }
}

/// Storing an entry keeps the addresses distinct, makes the entry the one
/// found under its address, and leaves every other address as it was.
pub proof fn lemma_with_entry(ledger: Ledger, key: Seq<char>, entry: StoredBeneficiary)
    requires
        distinct_keys(ledger),
    ensures
        distinct_keys(with_entry(ledger, key, entry)),
        lookup(with_entry(ledger, key, entry), key) == Some(entry),
        forall|other: Seq<char>|
            other != key ==> lookup(with_entry(ledger, key, entry), other) == lookup(
                ledger,
                other,
            ),
{
    let after = with_entry(ledger, key, entry);
    let at = if has_key(ledger, key) {
        index_of(ledger, key)
    } else {
        ledger.len() as int
    };
    assert(0 <= at < after.len() && after[at] == (key, entry));
    assert forall|i: int| 0 <= i < after.len() && i != at implies after[i] == ledger[i]
        && ledger[i].0 != key by {
        if has_key(ledger, key) {
            assert(ledger[at].0 == key);
            if i < at {
                assert(ledger[i].0 != ledger[at].0);
            } else {
                assert(ledger[at].0 != ledger[i].0);
            }
        }
    }
    assert(distinct_keys(after)) by {
        assert forall|i: int, j: int| 0 <= i < j < after.len() implies after[i].0 != after[j].0 by {
            if i != at && j != at {
                assert(ledger[i].0 != ledger[j].0);
            }
        }
    }
    lemma_index_of(after, at);
    assert forall|other: Seq<char>| other != key implies lookup(after, other) == lookup(
        ledger,
        other,
    ) by {
        if has_key(ledger, other) {
            let i = index_of(ledger, other);
            assert(0 <= i < ledger.len() && ledger[i].0 == other);
            assert(i != at);
            assert(after[i] == ledger[i]);
            lemma_index_of(ledger, i);
            lemma_index_of(after, i);
        } else if has_key(after, other) {
            let i = index_of(after, other);
            assert(0 <= i < after.len() && after[i].0 == other);
            assert(i != at);
            assert(ledger[i].0 == other);
        }
    }
}

/// Deleting an entry keeps the addresses distinct, leaves the address without
/// an entry, and leaves every other address as it was.
pub proof fn lemma_without_entry(ledger: Ledger, key: Seq<char>)
    requires
        distinct_keys(ledger),
    ensures
        distinct_keys(without_entry(ledger, key)),
        lookup(without_entry(ledger, key), key) is None,
        forall|other: Seq<char>|
            other != key ==> lookup(without_entry(ledger, key), other) == lookup(ledger, other),
{
    let after = without_entry(ledger, key);
    if has_key(ledger, key) {
        let at = index_of(ledger, key);
        assert(0 <= at < ledger.len() && ledger[at].0 == key);
        assert forall|i: int| 0 <= i < after.len() implies after[i] == ledger[if i < at {
            i
        } else {
            i + 1
        }] && after[i].0 != key by {
            if i < at {
                assert(ledger[i].0 != ledger[at].0);
            } else {
                assert(ledger[at].0 != ledger[i + 1].0);
            }
        }
        assert(distinct_keys(after)) by {
            assert forall|i: int, j: int| 0 <= i < j < after.len() implies after[i].0
                != after[j].0 by {
                let si = if i < at {
                    i
                } else {
                    i + 1
                };
                let sj = if j < at {
                    j
                } else {
                    j + 1
                };
                assert(ledger[si].0 != ledger[sj].0);
            }
        }
        assert(!has_key(after, key));
        assert forall|other: Seq<char>| other != key implies lookup(after, other) == lookup(
            ledger,
            other,
        ) by {
            if has_key(ledger, other) {
                let i = index_of(ledger, other);
                assert(0 <= i < ledger.len() && ledger[i].0 == other);
                assert(i != at);
                let t = if i < at {
                    i
                } else {
                    i - 1
                };
                assert(after[t] == ledger[i]);
                lemma_index_of(ledger, i);
                lemma_index_of(after, t);
            } else if has_key(after, other) {
                let i = index_of(after, other);
                assert(0 <= i < after.len() && after[i].0 == other);
                let si = if i < at {
                    i
                } else {
                    i + 1
                };
                assert(ledger[si].0 == other);
            }
        }
    }
}

/// What the store holds, as contracts speak of it.
pub struct StorageView {
    pub config: Option<Config>,
    pub tax_pool: Option<TaxPool>,
    pub beneficiaries_list: Option<Seq<String>>,
    pub ledger: Ledger,
}

/// One ledger entry under its address.
struct LedgerEntry {
    address: String,
    stored: StoredBeneficiary,
}

/// The store: four kinds of records, each read and written on its own. A
/// beneficiary's entry is found by the beneficiary's address, and can be
/// deleted.
pub struct Storage {
    config: Option<Config>,
    tax_pool: Option<TaxPool>,
    beneficiaries_list: Option<Vec<String>>,
    ledger: Vec<LedgerEntry>,
}

impl View for Storage {
    type V = StorageView;

    closed spec fn view(&self) -> StorageView {
        StorageView {
            config: self.config,
            tax_pool: self.tax_pool,
            beneficiaries_list: match self.beneficiaries_list {
                Some(list) => Some(list@),
                None => None,
            },
            ledger: self.ledger@.map_values(|e: LedgerEntry| (e.address@, e.stored)),
        }
    }
}

/// A copy of a list of addresses.
pub fn clone_addresses(list: &Vec<String>) -> (r: Vec<String>)
    ensures
        r@ == list@,
{
    let mut copy: Vec<String> = Vec::new();
    let mut i: usize = 0;
    while i < list.len()
        invariant
            i <= list.len(),
            copy@ == list@.take(i as int),
        decreases list.len() - i,
    {
        copy.push(list[i].clone());
        assert(list@.take(i + 1) == list@.take(i as int).push(list@[i as int]));
        i = i + 1;
    }
    assert(list@.take(i as int) == list@);
    copy
}

impl Storage {
    /// No address has two ledger entries.
    #[verifier::type_invariant]
    closed spec fn no_address_twice(&self) -> bool {
        distinct_keys(self.ledger@.map_values(|e: LedgerEntry| (e.address@, e.stored)))
    }

    /// A fact for proofs: in every store, no address has two ledger entries.
    pub fn keys_are_distinct(&self)
        ensures
            distinct_keys(self@.ledger),
    {
        proof {
            use_type_invariant(self);
        }
    }

    /// A store that holds nothing.
    pub fn new() -> (r: Storage)
        ensures
            r@ == (StorageView {
                config: None,
                tax_pool: None,
                beneficiaries_list: None,
                ledger: Seq::empty(),
            }),
    {
        let r = Storage {
            config: None,
            tax_pool: None,
            beneficiaries_list: None,
            ledger: Vec::new(),
        };
        assert(r@.ledger == Seq::<(Seq<char>, StoredBeneficiary)>::empty());
        r
    }

    /// The configuration, if one was stored.
    pub fn config(&self) -> (r: Option<Config>)
        ensures
            r == self@.config,
    {
        match &self.config {
            Some(c) => Some(
                Config {
                    self_addr: c.self_addr.clone(),
                    admin: c.admin.clone(),
                    tax_denom: c.tax_denom.clone(),
                },
            ),
            None => None,
        }
    }

    /// Stores the configuration in place of any earlier one.
    pub fn set_config(&mut self, config: Config)
        ensures
            final(self)@ == (StorageView { config: Some(config), ..old(self)@ }),
    {
        proof {
            use_type_invariant(&*self);
        }
        self.config = Some(config);
    }

    /// The accumulator, if one was stored.
    pub fn tax_pool(&self) -> (r: Option<TaxPool>)
        ensures
            r == self@.tax_pool,
    {
        self.tax_pool
    }

    /// Stores the accumulator in place of any earlier one.
    pub fn set_tax_pool(&mut self, tax_pool: TaxPool)
        ensures
            final(self)@ == (StorageView { tax_pool: Some(tax_pool), ..old(self)@ }),
    {
        proof {
            use_type_invariant(&*self);
        }
        self.tax_pool = Some(tax_pool);
    }

    /// The list of beneficiary addresses, if one was stored.
    pub fn beneficiaries_list(&self) -> (r: Option<Vec<String>>)
        ensures
            r is Some == self@.beneficiaries_list is Some,
            r is Some ==> r.unwrap()@ == self@.beneficiaries_list.unwrap(),
    {
        match &self.beneficiaries_list {
            Some(list) => Some(clone_addresses(list)),
            None => None,
        }
    }

    /// Stores the list of beneficiary addresses in place of any earlier one.
    pub fn set_beneficiaries_list(&mut self, list: Vec<String>)
        ensures
            final(self)@ == (StorageView { beneficiaries_list: Some(list@), ..old(self)@ }),
    {
        proof {
            use_type_invariant(&*self);
        }
        self.beneficiaries_list = Some(list);
    }

    /// Where the entry of an address stands in the ledger.
    fn position(&self, address: &String) -> (r: Option<usize>)
        ensures
            r is Some == has_key(self@.ledger, address@),
            r is Some ==> r.unwrap() < self.ledger.len() && self@.ledger[r.unwrap() as int].0
                == address@,
    {
        let mut i: usize = 0;
        while i < self.ledger.len()
            invariant
                i <= self.ledger.len(),
                forall|j: int| 0 <= j < i ==> (#[trigger] self@.ledger[j]).0 != address@,
                self@.ledger.len() == self.ledger.len(),
            decreases self.ledger.len() - i,
        {
            if self.ledger[i].address == *address {
                assert(self@.ledger[i as int].0 == address@);
                return Some(i);
            }
            i = i + 1;
        }
        None
    }

    /// The ledger entry of an address, if it has one.
    pub fn beneficiary(&self, address: &String) -> (r: Option<StoredBeneficiary>)
        ensures
            r == lookup(self@.ledger, address@),
    {
        proof {
            use_type_invariant(self);
        }
        match self.position(address) {
            Some(i) => {
                proof {
                    lemma_index_of(self@.ledger, i as int);
                }
                Some(self.ledger[i].stored)
            },
            None => None,
        }
    }

    /// Stores a ledger entry under an address, in place of any entry that
    /// the address had.
    pub fn set_beneficiary(&mut self, address: &String, entry: StoredBeneficiary)
        ensures
            final(self)@ == (StorageView {
                ledger: with_entry(old(self)@.ledger, address@, entry),
                ..old(self)@
            }),
    {
        proof {
            use_type_invariant(&*self);
            lemma_with_entry(self@.ledger, address@, entry);
        }
        match self.position(address) {
            Some(i) => {
                proof {
                    lemma_index_of(self@.ledger, i as int);
                }
                let mut ledger: Vec<LedgerEntry> = Vec::new();
                std::mem::swap(&mut self.ledger, &mut ledger);
                ledger[i].stored = entry;
                assert(ledger@.map_values(|e: LedgerEntry| (e.address@, e.stored)) == with_entry(
                    old(self)@.ledger,
                    address@,
                    entry,
                ));
                self.ledger = ledger;
            },
            None => {
                let mut ledger: Vec<LedgerEntry> = Vec::new();
                std::mem::swap(&mut self.ledger, &mut ledger);
                ledger.push(LedgerEntry { address: address.clone(), stored: entry });
                assert(ledger@.map_values(|e: LedgerEntry| (e.address@, e.stored)) == with_entry(
                    old(self)@.ledger,
                    address@,
                    entry,
                ));
                self.ledger = ledger;
            },
        }
    }

    /// Deletes the ledger entry of an address, if it has one.
    pub fn remove_beneficiary(&mut self, address: &String)
        ensures
            final(self)@ == (StorageView {
                ledger: without_entry(old(self)@.ledger, address@),
                ..old(self)@
            }),
    {
        proof {
            use_type_invariant(&*self);
            lemma_without_entry(self@.ledger, address@);
        }
        match self.position(address) {
            Some(i) => {
                proof {
                    lemma_index_of(self@.ledger, i as int);
                }
                let mut ledger: Vec<LedgerEntry> = Vec::new();
                std::mem::swap(&mut self.ledger, &mut ledger);
                ledger.remove(i);
                assert(ledger@.map_values(|e: LedgerEntry| (e.address@, e.stored))
                    == without_entry(old(self)@.ledger, address@));
                self.ledger = ledger;
            },
            None => {},
        }
    }

    /// A copy of the whole store.
    pub fn snapshot(&self) -> (r: Storage)
        ensures
            r@ == self@,
    {
        let mut ledger: Vec<LedgerEntry> = Vec::new();
        let mut i: usize = 0;
        while i < self.ledger.len()
            invariant
                i <= self.ledger.len(),
                ledger@.map_values(|e: LedgerEntry| (e.address@, e.stored))
                    == self@.ledger.take(i as int),
                self@.ledger.len() == self.ledger.len(),
            decreases self.ledger.len() - i,
        {
            ledger.push(
                LedgerEntry {
                    address: self.ledger[i].address.clone(),
                    stored: self.ledger[i].stored,
                },
            );
            assert(self@.ledger.take(i + 1) == self@.ledger.take(i as int).push(
                self@.ledger[i as int],
            ));
            i = i + 1;
        }
        assert(self@.ledger.take(i as int) == self@.ledger);
        proof {
            use_type_invariant(self);
        }
        Storage {
            config: self.config(),
            tax_pool: self.tax_pool,
            beneficiaries_list: self.beneficiaries_list(),
            ledger,
        }
    }

    /// How many ledger entries the store holds.
    pub fn ledger_len(&self) -> (r: usize)
        ensures
            r == self@.ledger.len(),
    {
        self.ledger.len()
    }

    /// The address and the entry at a place in the ledger.
    pub fn ledger_entry(&self, index: usize) -> (r: (String, StoredBeneficiary))
        requires
            index < self@.ledger.len(),
        ensures
            (r.0@, r.1) == self@.ledger[index as int],
    {
        (self.ledger[index].address.clone(), self.ledger[index].stored)
    }
}

} // verus!
