//! The key-value store: one JSON document held in memory, read and written
//! by key. Writing the document to disk is the host's part.

use crate::json::{
    clone_members, find_member, lemma_member_at, lemma_member_push, lemma_member_some,
    lemma_member_update, lemma_to_map_push, member, members_view, to_map, unique_keys, JsonModel,
    JsonValue,
};
use vstd::prelude::*;

verus! {

/// Whether JSON text can carry every value of the document.
pub open spec fn document_representable(document: Map<Seq<char>, JsonModel>) -> bool {
    forall|key: Seq<char>| #[trigger] document.contains_key(key) ==> document[key].representable()
}

/// A store document. Each key occurs once; a later write to a key replaces
/// the earlier one.
#[derive(Debug)]
pub struct Store {
    entries: Vec<(String, JsonValue)>,
}

impl View for Store {
    type V = Map<Seq<char>, JsonModel>;

    closed spec fn view(&self) -> Map<Seq<char>, JsonModel> {
        to_map(members_view(self.entries@))
    }
}

impl Store {
    #[verifier::type_invariant]
    spec fn keys_are_unique(self) -> bool {
        unique_keys(members_view(self.entries@))
    }

    /// The empty document, as a store is on first use.
    pub fn new() -> (store: Store)
        ensures
            store@ == Map::<Seq<char>, JsonModel>::empty(),
    {
        let store = Store { entries: Vec::new() };
        assert(store@ =~= Map::<Seq<char>, JsonModel>::empty());
        store
    }

    /// The document that a list of entries stands for. Where a key occurs
    /// twice, the later entry counts.
    pub fn from_entries(entries: &Vec<(String, JsonValue)>) -> (store: Store)
        ensures
            store@ == to_map(members_view(entries@)),
    {
        let mut store = Store::new();
        let ghost pairs = members_view(entries@);
        let mut i: usize = 0;
        while i < entries.len()
            invariant
                i <= entries.len(),
                pairs == members_view(entries@),
                store@ == to_map(pairs.subrange(0, i as int)),
            decreases entries.len() - i,
        {
            let key = entries[i].0.clone();
            let value = entries[i].1.clone();
            proof {
                let head = pairs.subrange(0, i as int);
                let next = pairs.subrange(0, i + 1);
                assert(next =~= head.push((key@, value@)));
                lemma_to_map_push(head, key@, value@);
            }
            store.set(key, value);
            i += 1;
        }
        assert(pairs.subrange(0, i as int) =~= pairs);
        store
    }

    /// The value under `key`, if the document has one.
    pub fn get(&self, key: &str) -> (r: Option<&JsonValue>)
        ensures
            r is Some <==> self@.contains_key(key@),
            r matches Some(value) ==> value@ == self@[key@],
    {
        find_member(&self.entries, key)
    }

    /// Whether the document has a value under `key`.
    pub fn has(&self, key: &str) -> (r: bool)
        ensures
            r == self@.contains_key(key@),
    {
        self.get(key).is_some()
    }

    /// The number of keys.
    pub fn len(&self) -> (r: usize)
        ensures
            r == self@.dom().len(),
            self@.dom().finite(),
    {
        proof {
            use_type_invariant(self);
            lemma_domain_size(members_view(self.entries@));
        }
        self.entries.len()
    }

    /// Puts `value` under `key`, in place of any value that was there. The
    /// other keys keep their values.
    pub fn set(&mut self, key: String, value: JsonValue)
        ensures
            final(self)@ == old(self)@.insert(key@, value@),
    {
        proof {
            use_type_invariant(&*self);
        }
        let ghost pairs = members_view(self.entries@);
        let mut i: usize = 0;
        while i < self.entries.len()
            invariant
                i <= self.entries.len(),
                *self == *old(self),
                pairs == members_view(self.entries@),
                unique_keys(pairs),
                forall|j: int| 0 <= j < i ==> (#[trigger] pairs[j]).0 != key@,
            decreases self.entries.len() - i,
        {
            if self.entries[i].0 == key {
                proof {
                    let updated = pairs.update(i as int, (key@, value@));
                    assert(pairs[i as int].0 == key@);
                    assert forall|k: Seq<char>| member(updated, k) == (if k == key@ {
                        Some(value@)
                    } else {
                        member(pairs, k)
                    }) by {
                        lemma_member_update(pairs, i as int, value@, k);
                    }
                    lemma_member_update(pairs, i as int, value@, key@);
                    assert(to_map(updated) =~= to_map(pairs).insert(key@, value@));
                    assert(members_view(self.entries@.update(i as int, (key, value))) =~= updated);
                }
                let mut entries: Vec<(String, JsonValue)> = Vec::new();
                std::mem::swap(&mut self.entries, &mut entries);
                entries[i] = (key, value);
                std::mem::swap(&mut self.entries, &mut entries);
                return ;
            }
            i += 1;
        }
        proof {
            let extended = pairs.push((key@, value@));
            lemma_to_map_push(pairs, key@, value@);
            assert(members_view(self.entries@.push((key, value))) =~= extended);
            assert(unique_keys(extended));
        }
        let mut entries: Vec<(String, JsonValue)> = Vec::new();
        std::mem::swap(&mut self.entries, &mut entries);
        entries.push((key, value));
        std::mem::swap(&mut self.entries, &mut entries);
    }

    /// A snapshot of the document: each key once, with its value.
    pub fn entries(&self) -> (r: Vec<(String, JsonValue)>)
        ensures
            unique_keys(members_view(r@)),
            to_map(members_view(r@)) == self@,
    {
        proof {
            use_type_invariant(self);
        }
        clone_members(&self.entries)
    }

    /// Whether JSON text can carry every value of the document.
    pub fn is_representable(&self) -> (r: bool)
        ensures
            r == document_representable(self@),
    {
        proof {
            use_type_invariant(self);
        }
        let ghost pairs = members_view(self.entries@);
        let mut i: usize = 0;
        while i < self.entries.len()
            invariant
                i <= self.entries.len(),
                pairs == members_view(self.entries@),
                unique_keys(pairs),
                forall|j: int| 0 <= j < i ==> (#[trigger] pairs[j]).1.representable(),
            decreases self.entries.len() - i,
        {
            if !self.entries[i].1.is_representable() {
                proof {
                    lemma_member_at(pairs, i as int);
                    assert(self@.contains_key(pairs[i as int].0));
                    assert(self@[pairs[i as int].0] == pairs[i as int].1);
                }
                return false;
            }
            i += 1;
        }
        proof {
            assert forall|key: Seq<char>| #[trigger] self@.contains_key(key) implies self@[key].representable() by {
                lemma_member_some(pairs, key);
                let j = choose|j: int| 0 <= j < pairs.len() && pairs[j].0 == key;
                lemma_member_at(pairs, j);
            }
        }
        true
    }
}

/// Where no key occurs twice, the mapping has as many keys as the list has
/// members.
pub proof fn lemma_domain_size(pairs: Seq<(Seq<char>, JsonModel)>)
    requires
        unique_keys(pairs),
    ensures
        to_map(pairs).dom().finite(),
        to_map(pairs).dom().len() == pairs.len(),
    decreases pairs.len(),
{
    if pairs.len() == 0 {
        assert(to_map(pairs).dom() =~= Set::<Seq<char>>::empty());
    } else {
        let head = pairs.drop_last();
        let key = pairs.last().0;
        lemma_domain_size(head);
        assert(pairs =~= head.push(pairs.last()));
        assert forall|k: Seq<char>| member(pairs, k) is Some <==> (k == key || member(head, k) is Some) by {
            lemma_member_push(head, key, pairs.last().1, k);
        }
        assert(to_map(pairs).dom() =~= to_map(head).dom().insert(key));
        assert(!to_map(head).dom().contains(key)) by {
            lemma_member_some(head, key);
            if member(head, key) is Some {
                let j = choose|j: int| 0 <= j < head.len() && head[j].0 == key;
                assert(pairs[j].0 == pairs[pairs.len() - 1].0);
            }
        }
    }
}

} // verus!
