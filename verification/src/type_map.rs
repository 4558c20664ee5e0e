//! A table keyed by type identifier.

use crate::assoc::{
    assoc_map, distinct_keys, holds_at, lemma_assoc_map_dom, lemma_assoc_map_len,
    lemma_assoc_map_update, lemma_assoc_map_value,
};
use vstd::prelude::*;

verus! {

/// The type identifiers of a table after an entry for `type_id` was stored:
/// an identifier that is there already keeps its place, a new one goes to
/// the end.
pub open spec fn with_type_id(type_ids: Seq<Seq<char>>, type_id: Seq<char>) -> Seq<Seq<char>> {
    if type_ids.contains(type_id) {
        type_ids
    } else {
        type_ids.push(type_id)
    }
}

/// A table keyed by type identifier.
///
/// A type identifier is a string that names a component type; it has to be
/// the same where a snapshot is captured and where it is restored. The table
/// holds at most one entry per identifier and keeps the entries in the order
/// in which their identifiers were first inserted.
#[derive(Debug)]
pub struct TypeMap<V> {
    entries: Vec<(String, V)>,
}

impl<V> View for TypeMap<V> {
    type V = Map<Seq<char>, V>;

    open spec fn view(&self) -> Map<Seq<char>, V> {
        assoc_map(self.pairs())
    }
}

impl<V> TypeMap<V> {
    /// The entries in storage order.
    pub closed spec fn pairs(&self) -> Seq<(Seq<char>, V)> {
        self.entries@.map_values(|e: (String, V)| (e.0@, e.1))
    }

    /// The type identifiers in storage order.
    pub open spec fn type_ids(&self) -> Seq<Seq<char>> {
        self.pairs().map_values(|p: (Seq<char>, V)| p.0)
    }

    /// No type identifier is stored twice.
    pub closed spec fn wf(&self) -> bool {
        distinct_keys(self.pairs())
    }

    /// What well-formedness says of the view.
    pub proof fn lemma_view(&self)
        requires
            self.wf(),
        ensures
            distinct_keys(self.pairs()),
            self@.dom().finite(),
            self@.len() == self.pairs().len(),
            forall|at: int|
                0 <= at < self.pairs().len() ==> self@.contains_key(
                    (#[trigger] self.pairs()[at]).0,
                ) && self@[self.pairs()[at].0] == self.pairs()[at].1,
    {
        lemma_assoc_map_len(self.pairs());
        assert forall|at: int| 0 <= at < self.pairs().len() implies self@.contains_key(
            (#[trigger] self.pairs()[at]).0,
        ) && self@[self.pairs()[at].0] == self.pairs()[at].1 by {
            lemma_assoc_map_value(self.pairs(), at);
        }
    }

    /// The view has an entry exactly for the type identifiers that occur.
    pub proof fn lemma_contains(&self, type_id: Seq<char>)
        ensures
            self@.contains_key(type_id) <==> self.type_ids().contains(type_id),
    {
        lemma_assoc_map_dom(self.pairs(), type_id);
        if exists|at: int| holds_at(self.pairs(), type_id, at) {
            let at = choose|at: int| holds_at(self.pairs(), type_id, at);
            assert(self.type_ids()[at] == type_id);
        }
        if self.type_ids().contains(type_id) {
            let at = choose|at: int|
                0 <= at < self.type_ids().len() && self.type_ids()[at] == type_id;
            assert(holds_at(self.pairs(), type_id, at));
        }
    }

    /// Well-formedness in terms of the type identifiers.
    pub proof fn lemma_distinct(&self)
        requires
            self.wf(),
        ensures
            self.type_ids().no_duplicates(),
    {
        let type_ids = self.type_ids();
        assert forall|i: int, j: int|
            0 <= i < type_ids.len() && 0 <= j < type_ids.len() && i != j implies type_ids[i]
            != type_ids[j] by {
            if i < j {
                assert(self.pairs()[i].0 != self.pairs()[j].0);
            } else {
                assert(self.pairs()[j].0 != self.pairs()[i].0);
            }
        }
    }

    /// An empty table.
    pub fn new() -> (table: Self)
        ensures
            table.wf(),
            table@ == Map::<Seq<char>, V>::empty(),
            table.pairs() == Seq::<(Seq<char>, V)>::empty(),
    {
        let table = TypeMap { entries: Vec::new() };
        assert(table.pairs() =~= Seq::<(Seq<char>, V)>::empty());
        table
    }

    /// The number of entries.
    pub fn len(&self) -> (n: usize)
        ensures
            n == self.pairs().len(),
            self.wf() ==> n == self@.len(),
    {
        proof {
            if self.wf() {
                lemma_assoc_map_len(self.pairs());
            }
        }
        self.entries.len()
    }

    /// The position of `type_id` in storage order.
    pub(crate) fn position(&self, type_id: &String) -> (found: Option<usize>)
        ensures
            match found {
                Some(at) => holds_at(self.pairs(), type_id@, at as int),
                None => !self@.contains_key(type_id@),
            },
    {
        let mut i: usize = 0;
        while i < self.entries.len()
            invariant
                i <= self.entries.len(),
                forall|p: int| 0 <= p < i ==> !holds_at(self.pairs(), type_id@, p),
            decreases self.entries.len() - i,
        {
            if self.entries[i].0 == *type_id {
                return Some(i);
            }
            i += 1;
        }
        proof {
            lemma_assoc_map_dom(self.pairs(), type_id@);
        }
        None
    }

    /// Whether there is an entry for `type_id`.
    pub fn contains(&self, type_id: &str) -> (found: bool)
        ensures
            found == self@.contains_key(type_id@),
    {
        let key = type_id.to_owned();
        let at = self.position(&key);
        proof {
            lemma_assoc_map_dom(self.pairs(), type_id@);
        }
        at.is_some()
    }

    /// The entry for `type_id`.
    pub fn get(&self, type_id: &str) -> (found: Option<&V>)
        requires
            self.wf(),
        ensures
            match found {
                Some(value) => self@.contains_key(type_id@) && self@[type_id@] == *value,
                None => !self@.contains_key(type_id@),
            },
    {
        let key = type_id.to_owned();
        match self.position(&key) {
            Some(at) => {
                proof {
                    lemma_assoc_map_value(self.pairs(), at as int);
                }
                Some(&self.entries[at].1)
            },
            None => None,
        }
    }

    /// Stores `value` under `type_id`. An entry that was stored under
    /// `type_id` before is replaced, in place, and its value is handed back.
    pub fn insert(&mut self, type_id: String, value: V) -> (previous: Option<V>)
        requires
            old(self).wf(),
        ensures
            final(self).wf(),
            final(self)@ == old(self)@.insert(type_id@, value),
            final(self)@.contains_key(type_id@),
            final(self)@[type_id@] == value,
            forall|other: Seq<char>|
                final(self)@.contains_key(other) <==> other == type_id@ || old(
                    self,
                )@.contains_key(other),
            forall|other: Seq<char>|
                other != type_id@ && old(self)@.contains_key(other) ==> final(self)@[other] == old(
                    self,
                )@[other],
            final(self).type_ids() == with_type_id(old(self).type_ids(), type_id@),
            match previous {
                Some(v) => old(self)@.contains_key(type_id@) && old(self)@[type_id@] == v
                    && exists|at: int|
                    holds_at(old(self).pairs(), type_id@, at) && final(self).pairs() == old(
                        self,
                    ).pairs().update(at, (type_id@, value)),
                None => !old(self)@.contains_key(type_id@) && final(self).pairs() == old(
                    self,
                ).pairs().push((type_id@, value)),
            },
    {
        proof {
            self.lemma_contains(type_id@);
        }
        match self.position(&type_id) {
            Some(at) => {
                proof {
                    lemma_assoc_map_value(self.pairs(), at as int);
                    lemma_assoc_map_update(self.pairs(), at as int, value);
                }
                let ghost before = self.pairs();
                let mut entry = (type_id, value);
                std::mem::swap(&mut self.entries[at], &mut entry);
                assert(self.pairs() =~= before.update(at as int, (type_id@, value)));
                assert(self.type_ids() =~= old(self).type_ids());
                Some(entry.1)
            },
            None => {
                let ghost before = self.pairs();
                proof {
                    lemma_assoc_map_dom(before, type_id@);
                }
                self.entries.push((type_id, value));
                assert(self.pairs() =~= before.push((type_id@, value)));
                assert(self.pairs().drop_last() =~= before);
                assert(self.type_ids() =~= old(self).type_ids().push(type_id@));
                assert(distinct_keys(self.pairs())) by {
                    assert forall|i: int, j: int| 0 <= i < j < self.pairs().len() implies (
                    #[trigger] self.pairs()[i]).0 != (#[trigger] self.pairs()[j]).0 by {
                        if j == before.len() {
                            assert(!holds_at(before, type_id@, i));
                        } else {
                            assert(before[i].0 != before[j].0);
                        }
                    }
                }
                None
            },
        }
    }

    /// The type identifier at position `at` in storage order.
    pub fn type_id_at(&self, at: usize) -> (type_id: &String)
        requires
            at < self.pairs().len(),
        ensures
            type_id@ == self.pairs()[at as int].0,
            type_id@ == self.type_ids()[at as int],
    {
        &self.entries[at].0
    }

    /// The value at position `at` in storage order.
    pub fn value_at(&self, at: usize) -> (value: &V)
        requires
            at < self.pairs().len(),
        ensures
            *value == self.pairs()[at as int].1,
    {
        &self.entries[at].1
    }
}

} // verus!
