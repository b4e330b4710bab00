//! Sets and maps over addresses that are walked in the order of first insertion.
use vstd::prelude::*;

use crate::address::Address;

verus! {

/// The place of an address among others, if it is one of them.
fn position(items: &Vec<Address>, address: &Address) -> (r: Option<usize>)
    ensures
        r is Some <==> items@.contains(*address),
        r matches Some(i) ==> i < items@.len() && items@[i as int] == *address,
{
    let mut i: usize = 0;
    while i < items.len()
        invariant
            i <= items@.len(),
            forall|j: int| 0 <= j < i ==> items@[j] != *address,
        decreases items@.len() - i,
    {
        if items[i] == *address {
            return Some(i);
        }
        i = i + 1;
    }
    None
}

/// A set of addresses.
#[derive(Debug)]
pub struct AddressSet {
    items: Vec<Address>,
}

impl View for AddressSet {
    type V = Set<Address>;

    open spec fn view(&self) -> Set<Address> {
        self.order().to_set()
    }
}

impl AddressSet {
    /// The addresses in the order in which they are walked.
    pub closed spec fn order(self) -> Seq<Address> {
        self.items@
    }

    #[verifier::type_invariant]
    spec fn holds_each_once(self) -> bool {
        self.items@.no_duplicates()
    }

    pub fn new() -> (r: AddressSet)
        ensures
            r@ == Set::<Address>::empty(),
            r.order() == Seq::<Address>::empty(),
    {
        let r = AddressSet { items: Vec::new() };
        assert(r@ =~= Set::<Address>::empty());
        r
    }

    pub fn contains(&self, address: &Address) -> (r: bool)
        ensures
            r == self@.contains(*address),
    {
        match position(&self.items, address) {
            Some(_) => true,
            None => false,
        }
    }

    pub fn insert(&mut self, address: Address)
        ensures
            final(self)@ == old(self)@.insert(address),
            final(self).order() == if old(self)@.contains(address) {
                old(self).order()
            } else {
                old(self).order().push(address)
            },
    {
        proof {
            use_type_invariant(&*self);
        }
        if !self.contains(&address) {
            let mut items: Vec<Address> = Vec::new();
            std::mem::swap(&mut items, &mut self.items);
            let ghost before = items@;
            items.push(address);
            proof {
                assert(items@.to_set() =~= before.to_set().insert(address)) by {
                    assert(items@[before.len() as int] == address);
                    assert forall|a: Address| before.contains(a) implies items@.contains(a) by {
                        assert(items@[before.index_of(a)] == a);
                    }
                }
            }
            self.items = items;
        } else {
            assert(self@ =~= old(self)@.insert(address));
        }
    }

    /// The addresses as they are walked, each one once.
    pub fn items(&self) -> (r: &Vec<Address>)
        ensures
            r@ == self.order(),
            r@.no_duplicates(),
    {
        proof {
            use_type_invariant(self);
        }
        &self.items
    }
}

impl Clone for AddressSet {
    fn clone(&self) -> (r: AddressSet)
        ensures
            r.order() == self.order(),
            r@ == self@,
    {
        proof {
            use_type_invariant(self);
        }
        let items = self.items.clone();
        assert(items@ =~= self.items@);
        AddressSet { items }
    }
}

/// A map from addresses.
#[derive(Debug)]
pub struct AddressMap<V> {
    keys: Vec<Address>,
    values: Vec<V>,
}

impl<V: View> View for AddressMap<V> {
    type V = Map<Address, V::V>;

    open spec fn view(&self) -> Map<Address, V::V> {
        Map::new(
            |a: Address| self.order().contains(a),
            |a: Address| self.value_at(self.order().index_of(a))@,
        )
    }
}

impl<V> AddressMap<V> {
    /// The keys in the order in which they are walked.
    pub closed spec fn order(self) -> Seq<Address> {
        self.keys@
    }

    /// The value of the key at a place of the order.
    pub closed spec fn value_at(self, i: int) -> V {
        self.values@[i]
    }

    #[verifier::type_invariant]
    spec fn pairs_keys_with_values(self) -> bool {
        &&& self.keys@.no_duplicates()
        &&& self.keys@.len() == self.values@.len()
    }
}

impl<V: View> AddressMap<V> {
    /// Each place of the order holds the value that the map has there.
    proof fn lemma_value_at(self, i: int)
        requires
            self.pairs_keys_with_values(),
            0 <= i < self.order().len(),
        ensures
            self@.contains_key(self.order()[i]),
            self@[self.order()[i]] == self.value_at(i)@,
    {
        assert(self.order().contains(self.order()[i]));
        assert(self.order().index_of(self.order()[i]) == i);
    }

    /// Where the places agree but for one key, the maps agree but for that key.
    proof fn lemma_has_inserted(
        self,
        before: AddressMap<V>,
        address: Address,
        value: V,
        place: int,
    )
        requires
            self.pairs_keys_with_values(),
            before.pairs_keys_with_values(),
            before.order().len() <= self.order().len(),
            forall|i: int|
                0 <= i < before.order().len() ==> #[trigger] self.order()[i] == before.order()[i],
            forall|i: int|
                0 <= i < self.order().len() && i != place ==> i < before.order().len()
                    && #[trigger] self.value_at(i) == before.value_at(i),
            0 <= place < self.order().len(),
            self.order()[place] == address,
            self.value_at(place) == value,
        ensures
            self@ == before@.insert(address, value@),
    {
        let inserted = before@.insert(address, value@);
        self.lemma_value_at(place);
        assert forall|a: Address| #[trigger]
            self@.dom().contains(a) == inserted.dom().contains(a) by {
            if before@.dom().contains(a) {
                let i = before.order().index_of(a);
                assert(self.order()[i] == a);
                self.lemma_value_at(i);
            }
            if self@.dom().contains(a) && a != address {
                let i = self.order().index_of(a);
                assert(self.value_at(i) == before.value_at(i));
                assert(self.order()[i] == before.order()[i]);
                before.lemma_value_at(i);
            }
        }
        assert forall|a: Address| #[trigger] self@.dom().contains(a) implies self@[a]
            == inserted[a] by {
            if a != address {
                let i = self.order().index_of(a);
                self.lemma_value_at(i);
                assert(self.value_at(i) == before.value_at(i));
                assert(self.order()[i] == before.order()[i]);
                before.lemma_value_at(i);
            }
        }
        assert(self@ =~= inserted);
    }

    pub fn new() -> (r: AddressMap<V>)
        ensures
            r@ == Map::<Address, V::V>::empty(),
            r.order() == Seq::<Address>::empty(),
    {
        let r = AddressMap { keys: Vec::new(), values: Vec::new() };
        assert(r@ =~= Map::<Address, V::V>::empty());
        r
    }

    pub fn get(&self, address: &Address) -> (r: Option<&V>)
        ensures
            r is Some <==> self@.contains_key(*address),
            r matches Some(v) ==> v@ == self@[*address] && *v == self.value_at(
                self.order().index_of(*address),
            ),
    {
        proof {
            use_type_invariant(self);
        }
        match position(&self.keys, address) {
            Some(i) => {
                proof {
                    self.lemma_value_at(i as int);
                }
                Some(&self.values[i])
            },
            None => None,
        }
    }

    pub fn contains_key(&self, address: &Address) -> (r: bool)
        ensures
            r == self@.contains_key(*address),
    {
        match position(&self.keys, address) {
            Some(_) => true,
            None => false,
        }
    }

    /// Puts a value under a key, in place of the one that the key had.
    pub fn insert(&mut self, address: Address, value: V)
        ensures
            final(self)@ == old(self)@.insert(address, value@),
            final(self).order() == if old(self)@.contains_key(address) {
                old(self).order()
            } else {
                old(self).order().push(address)
            },
    {
        proof {
            use_type_invariant(&*self);
        }
        let mut built = AddressMap { keys: Vec::new(), values: Vec::new() };
        std::mem::swap(&mut built, self);
        let AddressMap { mut keys, mut values } = built;
        let found = position(&keys, &address);
        let ghost place: int = match found {
            Some(i) => i as int,
            None => keys@.len() as int,
        };
        match found {
            Some(i) => {
                values[i] = value;
            },
            None => {
                keys.push(address);
                values.push(value);
            },
        }
        let after = AddressMap { keys, values };
        proof {
            after.lemma_has_inserted(*old(self), address, value, place);
        }
        *self = after;
    }

    /// The value at a place of the order.
    pub fn value(&self, i: usize) -> (r: &V)
        requires
            i < self.order().len(),
        ensures
            *r == self.value_at(i as int),
            self@.contains_key(self.order()[i as int]),
            self@[self.order()[i as int]] == r@,
    {
        proof {
            use_type_invariant(self);
            self.lemma_value_at(i as int);
        }
        &self.values[i]
    }

    /// The keys as they are walked, each one once.
    pub fn keys(&self) -> (r: &Vec<Address>)
        ensures
            r@ == self.order(),
            r@.no_duplicates(),
            forall|a: Address| r@.contains(a) <==> self@.contains_key(a),
    {
        proof {
            use_type_invariant(self);
        }
        &self.keys
    }
}

impl<V: View + Clone> Clone for AddressMap<V> {
    fn clone(&self) -> (r: AddressMap<V>)
        ensures
            r.order() == self.order(),
            forall|i: int|
                0 <= i < self.order().len() ==> cloned::<V>(self.value_at(i), #[trigger] r.value_at(i)),
    {
        proof {
            use_type_invariant(self);
        }
        let keys = self.keys.clone();
        assert(keys@ =~= self.keys@);
        let values = self.values.clone();
        AddressMap { keys, values }
    }
}

} // verus!
