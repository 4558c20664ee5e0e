//! The payload of a snapshot: serialized instances by instance identifier,
//! and those by type identifier.

use crate::assoc::{
    assoc_map, distinct_keys, holds_at, lemma_assoc_map_dom, lemma_assoc_map_len,
    lemma_assoc_map_update, lemma_assoc_map_value,
};
use crate::type_map::{with_type_id, TypeMap};
use vstd::prelude::*;

verus! {

/// One serialized instance: its identifier and the bytes of its value.
pub type Record = (u64, Seq<u8>);

/// The serialized instances of one component type, by instance identifier.
///
/// The identifiers are opaque handles of the store that was captured. The
/// records keep the order in which they were first inserted, so that the
/// bytes of an encoded snapshot are determined by the snapshot.
#[derive(Debug)]
pub struct EntityData {
    entries: Vec<(u64, Vec<u8>)>,
}

impl View for EntityData {
    type V = Map<u64, Seq<u8>>;

    open spec fn view(&self) -> Map<u64, Seq<u8>> {
        assoc_map(self.records())
    }
}

impl Clone for EntityData {
    /// A copy with the same records in the same order.
    fn clone(&self) -> (copy: Self)
        ensures
            copy.records() == self.records(),
            copy@ == self@,
            copy.wf() == self.wf(),
    {
        let records = self.to_records();
        let copy = EntityData { entries: records };
        proof {
            assert forall|p: int| 0 <= p < records@.len() implies (#[trigger] copy.records()[p])
                == records.deep_view()[p] by {
                assert(records@[p].1.deep_view() =~= records@[p].1@);
            }
            assert(copy.records() =~= records.deep_view());
        }
        copy
    }
}

impl EntityData {
    /// The records in storage order.
    pub closed spec fn records(&self) -> Seq<Record> {
        self.entries@.map_values(|e: (u64, Vec<u8>)| (e.0, e.1@))
    }

    /// No identifier is stored twice.
    pub closed spec fn wf(&self) -> bool {
        distinct_keys(self.records())
    }

    /// What well-formedness says of the view.
    pub proof fn lemma_view(&self)
        requires
            self.wf(),
        ensures
            distinct_keys(self.records()),
            self@.dom().finite(),
            self@.len() == self.records().len(),
    {
        lemma_assoc_map_len(self.records());
    }

    /// An empty collection.
    pub fn new() -> (data: Self)
        ensures
            data.wf(),
            data@ == Map::<u64, Seq<u8>>::empty(),
            data.records() == Seq::<Record>::empty(),
    {
        let data = EntityData { entries: Vec::new() };
        assert(data.records() =~= Seq::<Record>::empty());
        data
    }

    /// The number of instances.
    pub fn len(&self) -> (n: usize)
        ensures
            n == self.records().len(),
            self.wf() ==> n == self@.len(),
    {
        proof {
            if self.wf() {
                lemma_assoc_map_len(self.records());
            }
        }
        self.entries.len()
    }

    /// Whether there is no instance.
    pub fn is_empty(&self) -> (empty: bool)
        ensures
            empty == (self.records().len() == 0),
            self.wf() ==> empty == (self@.len() == 0),
    {
        self.len() == 0
    }

    /// The position of `id` in storage order.
    fn position(&self, id: u64) -> (found: Option<usize>)
        ensures
            match found {
                Some(at) => holds_at(self.records(), id, at as int),
                None => !self@.contains_key(id),
            },
    {
        let mut i: usize = 0;
        while i < self.entries.len()
            invariant
                i <= self.entries.len(),
                forall|p: int| 0 <= p < i ==> !holds_at(self.records(), id, p),
            decreases self.entries.len() - i,
        {
            if self.entries[i].0 == id {
                return Some(i);
            }
            i += 1;
        }
        proof {
            lemma_assoc_map_dom(self.records(), id);
        }
        None
    }

    /// Whether an instance is stored under `id`.
    pub fn contains(&self, id: u64) -> (found: bool)
        ensures
            found == self@.contains_key(id),
    {
        let at = self.position(id);
        proof {
            lemma_assoc_map_dom(self.records(), id);
        }
        at.is_some()
    }

    /// The bytes stored under `id`.
    pub fn get(&self, id: u64) -> (found: Option<&Vec<u8>>)
        requires
            self.wf(),
        ensures
            match found {
                Some(bytes) => self@.contains_key(id) && self@[id] == bytes@,
                None => !self@.contains_key(id),
            },
    {
        match self.position(id) {
            Some(at) => {
                proof {
                    lemma_assoc_map_value(self.records(), at as int);
                }
                Some(&self.entries[at].1)
            },
            None => None,
        }
    }

    /// Stores `bytes` under `id`. An instance that was stored under `id`
    /// before is replaced, in place, and its bytes are handed back.
    pub fn insert(&mut self, id: u64, bytes: Vec<u8>) -> (previous: Option<Vec<u8>>)
        requires
            old(self).wf(),
        ensures
            final(self).wf(),
            final(self)@ == old(self)@.insert(id, bytes@),
            match previous {
                Some(b) => old(self)@.contains_key(id) && old(self)@[id] == b@ && exists|at: int|
                    holds_at(old(self).records(), id, at) && final(self).records() == old(
                        self,
                    ).records().update(at, (id, bytes@)),
                None => !old(self)@.contains_key(id) && final(self).records() == old(
                    self,
                ).records().push((id, bytes@)),
            },
    {
        match self.position(id) {
            Some(at) => {
                proof {
                    lemma_assoc_map_value(self.records(), at as int);
                    lemma_assoc_map_update(self.records(), at as int, bytes@);
                }
                let ghost before = self.records();
                let mut entry = (id, bytes);
                std::mem::swap(&mut self.entries[at], &mut entry);
                assert(self.records() =~= before.update(at as int, (id, bytes@)));
                Some(entry.1)
            },
            None => {
                let ghost before = self.records();
                proof {
                    lemma_assoc_map_dom(before, id);
                }
                self.entries.push((id, bytes));
                assert(self.records() =~= before.push((id, bytes@)));
                assert(self.records().drop_last() =~= before);
                assert(distinct_keys(self.records())) by {
                    assert forall|i: int, j: int| 0 <= i < j < self.records().len() implies (
                    #[trigger] self.records()[i]).0 != (#[trigger] self.records()[j]).0 by {
                        if j == before.len() {
                            assert(!holds_at(before, id, i));
                        } else {
                            assert(before[i].0 != before[j].0);
                        }
                    }
                }
                None
            },
        }
    }

    /// Collects records, one after the other: a later record replaces an
    /// earlier one with the same identifier. Where no identifier occurs
    /// twice, the records are stored as they come.
    pub fn from_records(records: Vec<(u64, Vec<u8>)>) -> (data: Self)
        ensures
            data.wf(),
            data@ == assoc_map(records.deep_view()),
            distinct_keys(records.deep_view()) ==> data.records() == records.deep_view(),
    {
        let mut data = EntityData::new();
        let ghost all = records.deep_view();
        for record in it: records
            invariant
                data.wf(),
                it.seq().len() == all.len(),
                forall|i: int| 0 <= i < all.len() ==> it.seq()[i].deep_view() == all[i],
                data@ == assoc_map(all.take(it.index() as int)),
                distinct_keys(all) ==> data.records() == all.take(it.index() as int),
        {
            let ghost done = all.take(it.index() as int);
            let ghost next = all.take(it.index() + 1);
            proof {
                assert(next.drop_last() =~= done);
                assert(next.last() == all[it.index() as int]);
                assert(record.1.deep_view() =~= record.1@);
                lemma_assoc_map_dom(done, record.0);
                if distinct_keys(all) && exists|at: int| holds_at(done, record.0, at) {
                    let at = choose|at: int| holds_at(done, record.0, at);
                    assert(all[at].0 != all[it.index() as int].0);
                }
                assert(done.push((record.0, record.1@)) =~= next);
            }
            data.insert(record.0, record.1);
        }
        assert(all.take(all.len() as int) =~= all);
        data
    }

    /// A copy of the records, in storage order.
    pub fn to_records(&self) -> (records: Vec<(u64, Vec<u8>)>)
        ensures
            records.deep_view() == self.records(),
    {
        let mut records: Vec<(u64, Vec<u8>)> = Vec::new();
        let mut i: usize = 0;
        while i < self.entries.len()
            invariant
                i <= self.entries.len(),
                records@.len() == i,
                forall|p: int| 0 <= p < i ==> (#[trigger] records@[p]).0 == self.entries@[p].0
                    && records@[p].1@ == self.entries@[p].1@,
            decreases self.entries.len() - i,
        {
            let bytes = self.entries[i].1.clone();
            assert(bytes@ =~= self.entries@[i as int].1@);
            records.push((self.entries[i].0, bytes));
            i += 1;
        }
        proof {
            assert forall|p: int| 0 <= p < records@.len() implies (
            #[trigger] records.deep_view()[p]) == self.records()[p] by {
                assert(records@[p].1.deep_view() =~= records@[p].1@);
            }
            assert(records.deep_view() =~= self.records());
        }
        records
    }

    /// The identifier of the record at position `at` in storage order.
    pub fn id_at(&self, at: usize) -> (id: u64)
        requires
            at < self.records().len(),
        ensures
            id == self.records()[at as int].0,
    {
        self.entries[at].0
    }

    /// The bytes of the record at position `at` in storage order.
    pub fn bytes_at(&self, at: usize) -> (bytes: &Vec<u8>)
        requires
            at < self.records().len(),
        ensures
            bytes@ == self.records()[at as int].1,
    {
        &self.entries[at].1
    }
}


/// The serialized instances of one component type under its type
/// identifier, as they are laid out in a snapshot.
pub type TypeRecords = (Seq<char>, Seq<Record>);

/// The mapping that a layout describes: a later entry replaces an earlier
/// one with the same type identifier, a later record an earlier one with the
/// same instance identifier.
pub open spec fn layout_map(layout: Seq<TypeRecords>) -> Map<Seq<char>, Map<u64, Seq<u8>>> {
    assoc_map(layout_pairs(layout))
}

/// Each entry of a layout with the mapping that its records describe.
pub open spec fn layout_pairs(layout: Seq<TypeRecords>) -> Seq<(Seq<char>, Map<u64, Seq<u8>>)> {
    layout.map_values(|t: TypeRecords| (t.0, assoc_map(t.1)))
}

/// No type identifier occurs twice in `layout`, and under none an instance
/// identifier.
pub open spec fn distinct_layout(layout: Seq<TypeRecords>) -> bool {
    &&& distinct_keys(layout)
    &&& forall|at: int| 0 <= at < layout.len() ==> distinct_keys((#[trigger] layout[at]).1)
}

/// The payload of a snapshot: for each type identifier the serialized
/// instances of that type.
#[derive(Debug)]
pub struct ComponentData {
    types: TypeMap<EntityData>,
}

impl View for ComponentData {
    type V = Map<Seq<char>, Map<u64, Seq<u8>>>;

    open spec fn view(&self) -> Map<Seq<char>, Map<u64, Seq<u8>>> {
        layout_map(self.layout())
    }
}

impl Clone for ComponentData {
    /// A copy that describes the same mapping; where the payload is
    /// well-formed, with the same layout.
    fn clone(&self) -> (copy: Self)
        ensures
            copy.wf(),
            copy@ == self@,
            self.wf() ==> copy.layout() == self.layout(),
    {
        proof {
            if self.wf() {
                self.lemma_view();
            }
        }
        ComponentData::from_layout(self.to_layout())
    }
}

impl ComponentData {
    /// The entries in storage order, each with its records in storage order.
    pub closed spec fn layout(&self) -> Seq<TypeRecords> {
        self.types.pairs().map_values(|p: (Seq<char>, EntityData)| (p.0, p.1.records()))
    }

    /// The type identifiers in storage order.
    pub open spec fn type_ids(&self) -> Seq<Seq<char>> {
        self.layout().map_values(|t: TypeRecords| t.0)
    }

    /// No type identifier is stored twice, and under none an instance
    /// identifier.
    pub closed spec fn wf(&self) -> bool {
        &&& self.types.wf()
        &&& forall|at: int|
            0 <= at < self.types.pairs().len() ==> (#[trigger] self.types.pairs()[at]).1.wf()
    }

    /// What well-formedness says of the layout and the view.
    pub proof fn lemma_view(&self)
        requires
            self.wf(),
        ensures
            distinct_keys(self.layout()),
            forall|at: int|
                0 <= at < self.layout().len() ==> distinct_keys((#[trigger] self.layout()[at]).1),
            self@.dom().finite(),
            self@.len() == self.layout().len(),
    {
        self.types.lemma_view();
        let pairs = self.types.pairs();
        let layout = self.layout();
        assert forall|at: int| 0 <= at < layout.len() implies distinct_keys(
            (#[trigger] layout[at]).1,
        ) by {
            assert(pairs[at].1.wf());
            pairs[at].1.lemma_view();
        }
        let mapped = layout_pairs(layout);
        assert(distinct_keys(mapped)) by {
            assert forall|i: int, j: int| 0 <= i < j < mapped.len() implies (#[trigger] mapped[i]).0
                != (#[trigger] mapped[j]).0 by {
                assert(pairs[i].0 != pairs[j].0);
            }
        }
        assert(distinct_keys(layout)) by {
            assert forall|i: int, j: int| 0 <= i < j < layout.len() implies (#[trigger] layout[i]).0
                != (#[trigger] layout[j]).0 by {
                assert(pairs[i].0 != pairs[j].0);
            }
        }
        lemma_assoc_map_len(mapped);
    }

    /// The view has an entry exactly for the type identifiers that occur.
    pub proof fn lemma_contains(&self, type_id: Seq<char>)
        ensures
            self@.contains_key(type_id) <==> self.type_ids().contains(type_id),
    {
        let mapped = layout_pairs(self.layout());
        lemma_assoc_map_dom(mapped, type_id);
        if exists|at: int| holds_at(mapped, type_id, at) {
            let at = choose|at: int| holds_at(mapped, type_id, at);
            assert(self.type_ids()[at] == type_id);
        }
        if self.type_ids().contains(type_id) {
            let at = choose|at: int|
                0 <= at < self.type_ids().len() && self.type_ids()[at] == type_id;
            assert(holds_at(mapped, type_id, at));
        }
    }

    /// An empty payload.
    pub fn new() -> (data: Self)
        ensures
            data.wf(),
            data@ == Map::<Seq<char>, Map<u64, Seq<u8>>>::empty(),
            data.layout() == Seq::<TypeRecords>::empty(),
    {
        let data = ComponentData { types: TypeMap::new() };
        assert(data.layout() =~= Seq::<TypeRecords>::empty());
        assert(layout_pairs(data.layout()) =~= Seq::<(Seq<char>, Map<u64, Seq<u8>>)>::empty());
        data
    }

    /// The number of type identifiers.
    pub fn len(&self) -> (n: usize)
        ensures
            n == self.layout().len(),
            self.wf() ==> n == self@.len(),
    {
        proof {
            if self.wf() {
                self.lemma_view();
            }
        }
        self.types.len()
    }

    /// Whether there is an entry for `type_id`.
    pub fn contains(&self, type_id: &str) -> (found: bool)
        ensures
            found == self@.contains_key(type_id@),
    {
        proof {
            self.lemma_dom(type_id@);
        }
        self.types.contains(type_id)
    }

    /// The view has an entry exactly for the type identifiers of the table.
    proof fn lemma_dom(&self, type_id: Seq<char>)
        ensures
            self@.contains_key(type_id) <==> self.types@.contains_key(type_id),
    {
        let pairs = self.types.pairs();
        let mapped = layout_pairs(self.layout());
        lemma_assoc_map_dom(pairs, type_id);
        lemma_assoc_map_dom(mapped, type_id);
        if exists|at: int| holds_at(pairs, type_id, at) {
            let at = choose|at: int| holds_at(pairs, type_id, at);
            assert(holds_at(mapped, type_id, at));
        }
        if exists|at: int| holds_at(mapped, type_id, at) {
            let at = choose|at: int| holds_at(mapped, type_id, at);
            assert(holds_at(pairs, type_id, at));
        }
    }

    /// The instances stored under `type_id`.
    pub fn get(&self, type_id: &str) -> (found: Option<&EntityData>)
        requires
            self.wf(),
        ensures
            match found {
                Some(data) => data.wf() && self@.contains_key(type_id@) && self@[type_id@]
                    == data@,
                None => !self@.contains_key(type_id@),
            },
    {
        proof {
            self.lemma_dom(type_id@);
        }
        let key = type_id.to_owned();
        match self.types.position(&key) {
            Some(at) => {
                proof {
                    self.lemma_view();
                    let mapped = layout_pairs(self.layout());
                    assert(distinct_keys(mapped)) by {
                        assert forall|i: int, j: int| 0 <= i < j < mapped.len() implies (
                        #[trigger] mapped[i]).0 != (#[trigger] mapped[j]).0 by {
                            assert(self.layout()[i].0 != self.layout()[j].0);
                        }
                    }
                    lemma_assoc_map_value(mapped, at as int);
                    assert(self.types.pairs()[at as int].1.wf());
                }
                Some(self.types.value_at(at))
            },
            None => None,
        }
    }

    /// Stores `data` under `type_id`. What was stored under `type_id` before
    /// is replaced, in place.
    pub fn insert(&mut self, type_id: String, data: EntityData)
        requires
            old(self).wf(),
            data.wf(),
        ensures
            final(self).wf(),
            final(self)@ == old(self)@.insert(type_id@, data@),
            final(self).type_ids() == with_type_id(old(self).type_ids(), type_id@),
            old(self)@.contains_key(type_id@) ==> exists|at: int|
                holds_at(old(self).layout(), type_id@, at) && final(self).layout() == old(
                    self,
                ).layout().update(at, (type_id@, data.records())),
            !old(self)@.contains_key(type_id@) ==> final(self).layout() == old(
                self,
            ).layout().push((type_id@, data.records())),
    {
        proof {
            self.lemma_dom(type_id@);
            self.lemma_view();
            self.lemma_contains(type_id@);
        }
        let ghost before = self.layout();
        let ghost before_pairs = self.types.pairs();
        let ghost before_mapped = layout_pairs(before);
        assert(distinct_keys(before_mapped)) by {
            assert forall|i: int, j: int| 0 <= i < j < before_mapped.len() implies (
            #[trigger] before_mapped[i]).0 != (#[trigger] before_mapped[j]).0 by {
                assert(before[i].0 != before[j].0);
            }
        }
        let previous = self.types.insert(type_id, data);
        proof {
            let after = self.layout();
            let after_mapped = layout_pairs(after);
            match previous {
                Some(_) => {
                    let at = choose|at: int|
                        holds_at(before_pairs, type_id@, at) && self.types.pairs()
                            == before_pairs.update(at, (type_id@, data));
                    assert(after =~= before.update(at, (type_id@, data.records())));
                    assert(holds_at(before, type_id@, at));
                    lemma_assoc_map_update(before_mapped, at, data@);
                    assert(after_mapped =~= before_mapped.update(at, (type_id@, data@)));
                    assert(self.type_ids() =~= old(self).type_ids());
                },
                None => {
                    assert(after =~= before.push((type_id@, data.records())));
                    assert(after_mapped =~= before_mapped.push((type_id@, data@)));
                    assert(after_mapped.drop_last() =~= before_mapped);
                    assert(self.type_ids() =~= old(self).type_ids().push(type_id@));
                },
            }
            assert forall|at: int| 0 <= at < self.types.pairs().len() implies (
            #[trigger] self.types.pairs()[at]).1.wf() by {
                if at < before_pairs.len() && self.types.pairs()[at] == before_pairs[at] {
                    assert(before_pairs[at].1.wf());
                }
            }
        }
    }

    /// Collects a layout, one entry after the other: a later entry replaces
    /// an earlier one with the same type identifier, a later record an
    /// earlier one with the same instance identifier. Where no identifier
    /// occurs twice, the layout is stored as it comes.
    pub fn from_layout(layout: Vec<(String, Vec<(u64, Vec<u8>)>)>) -> (data: Self)
        ensures
            data.wf(),
            data@ == layout_map(layout.deep_view()),
            distinct_layout(layout.deep_view()) ==> data.layout() == layout.deep_view(),
    {
        let mut data = ComponentData::new();
        let ghost all = layout.deep_view();
        for entry in it: layout
            invariant
                data.wf(),
                it.seq().len() == all.len(),
                forall|i: int| 0 <= i < all.len() ==> it.seq()[i].deep_view() == all[i],
                data@ == layout_map(all.take(it.index() as int)),
                distinct_layout(all) ==> data.layout() == all.take(it.index() as int),
        {
            let ghost done = all.take(it.index() as int);
            let ghost next = all.take(it.index() + 1);
            let ghost type_id = entry.0@;
            let instances = EntityData::from_records(entry.1);
            proof {
                assert(next.drop_last() =~= done);
                assert(next.last() == all[it.index() as int]);
                assert(layout_pairs(next).drop_last() =~= layout_pairs(done));
                data.lemma_contains(type_id);
                if distinct_layout(all) {
                    assert(distinct_keys(all[it.index() as int].1));
                    if data.type_ids().contains(type_id) {
                        let at = choose|at: int|
                            0 <= at < data.type_ids().len() && data.type_ids()[at] == type_id;
                        assert(all[at].0 != all[it.index() as int].0);
                    }
                    assert(done.push((type_id, instances.records())) =~= next);
                }
            }
            data.insert(entry.0, instances);
        }
        assert(all.take(all.len() as int) =~= all);
        data
    }

    /// A copy of the layout.
    pub fn to_layout(&self) -> (layout: Vec<(String, Vec<(u64, Vec<u8>)>)>)
        ensures
            layout.deep_view() == self.layout(),
    {
        let mut layout: Vec<(String, Vec<(u64, Vec<u8>)>)> = Vec::new();
        let n = self.types.len();
        let mut i: usize = 0;
        while i < n
            invariant
                n == self.layout().len(),
                n == self.types.pairs().len(),
                i <= n,
                layout@.len() == i,
                forall|p: int|
                    0 <= p < i ==> (#[trigger] layout@[p]).deep_view() == self.layout()[p],
            decreases n - i,
        {
            let type_id = self.types.type_id_at(i).clone();
            let records = self.types.value_at(i).to_records();
            layout.push((type_id, records));
            i += 1;
        }
        assert(layout.deep_view() =~= self.layout());
        layout
    }

    /// The type identifier at position `at` in storage order.
    pub fn type_id_at(&self, at: usize) -> (type_id: &String)
        requires
            at < self.layout().len(),
        ensures
            type_id@ == self.layout()[at as int].0,
    {
        self.types.type_id_at(at)
    }

    /// The instances at position `at` in storage order.
    pub fn data_at(&self, at: usize) -> (data: &EntityData)
        requires
            self.wf(),
            at < self.layout().len(),
        ensures
            data.wf(),
            data.records() == self.layout()[at as int].1,
    {
        assert(self.types.pairs()[at as int].1.wf());
        self.types.value_at(at)
    }
}

} // verus!
