//! The registry of component codecs, and what it does with their answers.

use crate::assoc::{assoc_map, distinct_keys, holds_at, lemma_assoc_map_dom};
use crate::payload::{layout_pairs, ComponentData, EntityData, Record, TypeRecords};
use crate::store::world_entities;
use crate::type_map::{with_type_id, TypeMap};
use shipyard::World;
use vstd::prelude::*;

verus! {

/// What a codec reports of one live instance: its identifier, and the bytes
/// of its value where the value could be encoded.
pub type Encoded = (u64, Option<Seq<u8>>);

/// What a codec reports of a store: one outcome per live instance.
pub type Reported = Seq<Encoded>;

/// The bytes of one encoded value.
pub type Buffer = Seq<u8>;

/// The records of the instances that could be encoded, in order.
pub open spec fn kept(outcomes: Seq<Encoded>) -> Seq<Record>
    decreases outcomes.len(),
{
    if outcomes.len() == 0 {
        Seq::empty()
    } else {
        match outcomes.last().1 {
            Some(bytes) => kept(outcomes.drop_last()).push((outcomes.last().0, bytes)),
            None => kept(outcomes.drop_last()),
        }
    }
}

/// The number of instances that could not be encoded.
pub open spec fn unencoded(outcomes: Seq<Encoded>) -> nat
    decreases outcomes.len(),
{
    if outcomes.len() == 0 {
        0
    } else if outcomes.last().1 is None {
        unencoded(outcomes.drop_last()) + 1
    } else {
        unencoded(outcomes.drop_last())
    }
}

/// An instance that cannot be encoded costs its own record and no other:
/// one record is kept for each instance but those that cannot be encoded.
pub proof fn lemma_kept_len(outcomes: Seq<Encoded>)
    ensures
        kept(outcomes).len() + unencoded(outcomes) == outcomes.len(),
    decreases outcomes.len(),
{
    if outcomes.len() > 0 {
        lemma_kept_len(outcomes.drop_last());
    }
}

/// What is kept of the first `n` outcomes stands at the front of what is
/// kept of all.
pub proof fn lemma_kept_prefix(outcomes: Seq<Encoded>, n: int)
    requires
        0 <= n <= outcomes.len(),
    ensures
        kept(outcomes.take(n)).len() <= kept(outcomes).len(),
        kept(outcomes.take(n)) == kept(outcomes).take(kept(outcomes.take(n)).len() as int),
        distinct_keys(kept(outcomes)) ==> distinct_keys(kept(outcomes.take(n))),
    decreases outcomes.len(),
{
    if n == outcomes.len() {
        assert(outcomes.take(n) =~= outcomes);
        assert(kept(outcomes).take(kept(outcomes).len() as int) =~= kept(outcomes));
    } else {
        let front = outcomes.drop_last();
        lemma_kept_prefix(front, n);
        assert(front.take(n) =~= outcomes.take(n));
        let part = kept(outcomes.take(n));
        assert(kept(outcomes).take(part.len() as int) =~= kept(front).take(part.len() as int));
    }
    let part = kept(outcomes.take(n));
    if distinct_keys(kept(outcomes)) {
        assert forall|i: int, j: int| 0 <= i < j < part.len() implies (#[trigger] part[i]).0 != (
        #[trigger] part[j]).0 by {
            assert(part[i] == kept(outcomes)[i] && part[j] == kept(outcomes)[j]);
        }
    }
}

/// Keeps the instances that could be encoded and drops the others.
pub fn keep_encoded(outcomes: Vec<(u64, Option<Vec<u8>>)>) -> (data: EntityData)
    ensures
        data.wf(),
        data@ == assoc_map(kept(outcomes.deep_view())),
        distinct_keys(kept(outcomes.deep_view())) ==> data.records() == kept(outcomes.deep_view()),
{
    let mut data = EntityData::new();
    let ghost all = outcomes.deep_view();
    for outcome in it: outcomes
        invariant
            data.wf(),
            it.seq().len() == all.len(),
            forall|i: int| 0 <= i < all.len() ==> it.seq()[i].deep_view() == all[i],
            data@ == assoc_map(kept(all.take(it.index() as int))),
            distinct_keys(kept(all)) ==> data.records() == kept(all.take(it.index() as int)),
    {
        let ghost done = all.take(it.index() as int);
        let ghost next = all.take(it.index() + 1);
        assert(next.drop_last() =~= done);
        assert(next.last() == all[it.index() as int]);
        proof {
            lemma_kept_prefix(all, it.index() + 1);
        }
        match outcome.1 {
            Some(bytes) => {
                assert(bytes.deep_view() =~= bytes@);
                assert(kept(next).drop_last() =~= kept(done));
                proof {
                    lemma_assoc_map_dom(kept(done), outcome.0);
                    if distinct_keys(kept(all)) && exists|at: int|
                        holds_at(kept(done), outcome.0, at) {
                        let at = choose|at: int| holds_at(kept(done), outcome.0, at);
                        assert(kept(next)[at].0 != kept(next)[kept(next).len() - 1].0);
                    }
                }
                data.insert(outcome.0, bytes);
            },
            None => {},
        }
    }
    assert(all.take(all.len() as int) =~= all);
    data
}

/// The number of values that were decoded and inserted.
pub open spec fn successes(outcomes: Seq<bool>) -> nat
    decreases outcomes.len(),
{
    if outcomes.len() == 0 {
        0
    } else if outcomes.last() {
        successes(outcomes.drop_last()) + 1
    } else {
        successes(outcomes.drop_last())
    }
}

/// There are no more successes than outcomes.
pub proof fn lemma_successes_bound(outcomes: Seq<bool>)
    ensures
        successes(outcomes) <= outcomes.len(),
    decreases outcomes.len(),
{
    if outcomes.len() > 0 {
        lemma_successes_bound(outcomes.drop_last());
    }
}

/// Where every value was decoded, every value was inserted.
pub proof fn lemma_all_decoded(outcomes: Seq<bool>)
    requires
        forall|i: int| 0 <= i < outcomes.len() ==> outcomes[i],
    ensures
        successes(outcomes) == outcomes.len(),
    decreases outcomes.len(),
{
    if outcomes.len() > 0 {
        lemma_all_decoded(outcomes.drop_last());
    }
}

/// A buffer that cannot be decoded costs its own instance and no other:
/// where one of the buffers fails and the others decode, one instance fewer
/// than there are buffers is inserted.
pub proof fn lemma_one_corrupted(outcomes: Seq<bool>, corrupted: int)
    requires
        0 <= corrupted < outcomes.len(),
        !outcomes[corrupted],
        forall|i: int| 0 <= i < outcomes.len() && i != corrupted ==> outcomes[i],
    ensures
        successes(outcomes) == outcomes.len() - 1,
    decreases outcomes.len(),
{
    let front = outcomes.drop_last();
    if corrupted == outcomes.len() - 1 {
        lemma_all_decoded(front);
    } else {
        lemma_one_corrupted(front, corrupted);
    }
}

/// The instance identifier of the entity whose handle holds the number
/// `inner`: one less, which is the number that the store writes for the
/// handle in binary formats. A handle never holds zero.
pub fn instance_id(inner: u64) -> (id: u64)
    requires
        inner >= 1,
    ensures
        id == inner - 1,
{
    inner - 1
}

/// Counts the values that were decoded and inserted.
pub fn count_inserted(outcomes: &Vec<bool>) -> (inserted: usize)
    ensures
        inserted == successes(outcomes@),
{
    let mut inserted: usize = 0;
    let mut i: usize = 0;
    while i < outcomes.len()
        invariant
            i <= outcomes.len(),
            inserted == successes(outcomes@.take(i as int)),
            inserted <= i,
        decreases outcomes.len() - i,
    {
        assert(outcomes@.take(i + 1).drop_last() =~= outcomes@.take(i as int));
        if outcomes[i] {
            inserted += 1;
        }
        i += 1;
    }
    assert(outcomes@.take(outcomes.len() as int) =~= outcomes@);
    inserted
}

/// `after` holds the entities of `before` and one more.
pub open spec fn one_more(before: Set<u64>, after: Set<u64>) -> bool {
    exists|id: u64| !before.contains(id) && after == before.insert(id)
}

/// What the snapshot subsystem needs of one component type: to encode the
/// live instances of the type in a store, and to decode one value and insert
/// it into a store. The registry holds one codec per type identifier and
/// knows nothing else of the type.
///
/// An implementation owes what the two methods promise: that its answers
/// depend on the store, or on the bytes, alone, and that decoding inserts
/// one entity or leaves the store as it is. What the registry proves of a
/// capture and of a restore holds of the codecs that keep these promises.
///
/// `reported` and `accepts` give the two answers a name and are never run.
/// An implementation in code that is not verified declares them with a body
/// that cannot be reached.
pub trait ComponentCodec: Send + Sync {
    /// What `encode_all` reports of `world`.
    spec fn reported(&self, world: &World) -> Reported;

    /// Whether `decode_and_insert` can decode `bytes`.
    spec fn accepts(&self, bytes: Buffer) -> bool;

    /// Every live instance of the type in `world`: its instance identifier,
    /// and its encoded value, or `None` where the value cannot be encoded.
    /// The store stays as it is.
    fn encode_all(&self, world: &World) -> (outcomes: Vec<(u64, Option<Vec<u8>>)>)
        ensures
            outcomes.deep_view() == self.reported(world),
    ;

    /// Decodes one value from `bytes` and inserts it into `world` as the one
    /// component of a new entity. Answers `false`, and leaves `world` as it
    /// is, where `bytes` cannot be decoded.
    fn decode_and_insert(&self, world: &mut World, bytes: &[u8]) -> (inserted: bool)
        ensures
            inserted == self.accepts(bytes@),
            inserted ==> one_more(world_entities(*old(world)), world_entities(*final(world))),
            !inserted ==> *final(world) == *old(world),
    ;
}

/// A codec of whatever type, as the registry takes and holds it.
pub struct BoxedCodec {
    pub codec: Box<dyn ComponentCodec>,
}

/// For each record whether the codec can decode it.
pub open spec fn accepted(entry: &BoxedCodec, records: Seq<Record>) -> Seq<bool> {
    records.map_values(|r: Record| entry.codec.accepts(r.1))
}

/// Registering twice under one type identifier is registering once, with
/// the codec that was registered last: the registry holds one entry for the
/// type identifier, at the place of the first registration, and the second
/// codec is the one in effect.
pub proof fn lemma_register_twice(
    type_ids: Seq<Seq<char>>,
    codecs: Map<Seq<char>, BoxedCodec>,
    type_id: Seq<char>,
    first: BoxedCodec,
    second: BoxedCodec,
)
    requires
        type_ids.no_duplicates(),
    ensures
        with_type_id(with_type_id(type_ids, type_id), type_id) == with_type_id(type_ids, type_id),
        with_type_id(type_ids, type_id).no_duplicates(),
        with_type_id(type_ids, type_id).contains(type_id),
        codecs.insert(type_id, first).insert(type_id, second) == codecs.insert(type_id, second),
        codecs.insert(type_id, first).insert(type_id, second)[type_id] == second,
{
    let once = with_type_id(type_ids, type_id);
    if !type_ids.contains(type_id) {
        assert(once[type_ids.len() as int] == type_id);
        assert forall|i: int, j: int|
            0 <= i < once.len() && 0 <= j < once.len() && i != j implies once[i] != once[j] by {
            if i < type_ids.len() {
                assert(type_ids.contains(once[i]));
            }
            if j < type_ids.len() {
                assert(type_ids.contains(once[j]));
            }
        }
    }
    assert(codecs.insert(type_id, first).insert(type_id, second) =~= codecs.insert(
        type_id,
        second,
    ));
}

/// The codecs by type identifier.
pub struct SnapshotRegistry {
    components: TypeMap<BoxedCodec>,
}

impl View for SnapshotRegistry {
    type V = Map<Seq<char>, BoxedCodec>;

    open spec fn view(&self) -> Map<Seq<char>, BoxedCodec> {
        self.entries()@
    }
}

impl Default for SnapshotRegistry {
    /// A registry without codecs.
    fn default() -> (registry: Self)
        ensures
            registry.wf(),
            registry@ == Map::<Seq<char>, BoxedCodec>::empty(),
            registry.type_ids() == Seq::<Seq<char>>::empty(),
    {
        SnapshotRegistry::new()
    }
}

impl SnapshotRegistry {
    /// The table of codecs.
    pub closed spec fn entries(&self) -> TypeMap<BoxedCodec> {
        self.components
    }

    /// The registered type identifiers, in the order of their first
    /// registration.
    pub open spec fn type_ids(&self) -> Seq<Seq<char>> {
        self.entries().type_ids()
    }

    /// No type identifier is registered twice.
    pub open spec fn wf(&self) -> bool {
        self.entries().wf()
    }

    /// The records that a capture of `world` keeps under `type_id`: those of
    /// the instances that the type's codec reports with an encoded value.
    pub open spec fn captured(&self, world: &World, type_id: Seq<char>) -> Seq<Record> {
        kept(self@[type_id].codec.reported(world))
    }

    /// `data` is what a capture of `world` holds: one entry per registered
    /// type identifier, in the order of registration, which describes the
    /// mapping of the records kept for the type; where no two of them share
    /// an instance identifier, the entry holds just these records, in the
    /// order in which the codec reports them.
    pub open spec fn captures(&self, world: &World, data: &ComponentData) -> bool {
        &&& data.type_ids() == self.type_ids()
        &&& forall|at: int|
            0 <= at < data.layout().len() ==> self.captures_entry(
                world,
                #[trigger] data.layout()[at],
            )
    }

    /// `entry` is what a capture of `world` holds under its type identifier.
    pub open spec fn captures_entry(&self, world: &World, entry: TypeRecords) -> bool {
        &&& assoc_map(entry.1) == assoc_map(self.captured(world, entry.0))
        &&& distinct_keys(self.captured(world, entry.0)) ==> entry.1 == self.captured(
            world,
            entry.0,
        )
    }

    /// How many records of `entry` a restore inserts: those that the codec
    /// of the entry's type can decode, and none where the type is not
    /// registered.
    pub open spec fn restored_count(&self, entry: TypeRecords) -> nat {
        if self@.contains_key(entry.0) {
            successes(accepted(&self@[entry.0], entry.1))
        } else {
            0
        }
    }

    /// How many records of `layout` a restore inserts.
    pub open spec fn restored_total(&self, layout: Seq<TypeRecords>) -> nat
        decreases layout.len(),
    {
        if layout.len() == 0 {
            0
        } else {
            self.restored_total(layout.drop_last()) + self.restored_count(layout.last())
        }
    }

    /// One record that cannot be decoded costs its own instance and no
    /// other: where the codec of a registered type refuses one record of an
    /// entry and decodes the others, a restore inserts one instance fewer
    /// than the entry has records.
    pub proof fn lemma_restore_one_corrupted(&self, entry: TypeRecords, corrupted: int)
        requires
            self@.contains_key(entry.0),
            0 <= corrupted < entry.1.len(),
            !self@[entry.0].codec.accepts(entry.1[corrupted].1),
            forall|i: int|
                0 <= i < entry.1.len() && i != corrupted ==> self@[entry.0].codec.accepts(
                    (#[trigger] entry.1[i]).1,
                ),
        ensures
            self.restored_count(entry) == entry.1.len() - 1,
    {
        lemma_one_corrupted(accepted(&self@[entry.0], entry.1), corrupted);
    }

    /// Two captures of one store with one registry describe the same
    /// payload.
    pub proof fn lemma_captures_agree(
        &self,
        world: &World,
        one: &ComponentData,
        other: &ComponentData,
    )
        requires
            self.captures(world, one),
            self.captures(world, other),
        ensures
            one@ == other@,
    {
        let a = one.layout();
        let b = other.layout();
        assert(a.len() == one.type_ids().len());
        assert(b.len() == other.type_ids().len());
        assert forall|at: int| 0 <= at < a.len() implies #[trigger] layout_pairs(a)[at]
            == layout_pairs(b)[at] by {
            assert(one.type_ids()[at] == a[at].0);
            assert(other.type_ids()[at] == b[at].0);
            assert(self.captures_entry(world, a[at]));
            assert(self.captures_entry(world, b[at]));
        }
        assert(layout_pairs(a) =~= layout_pairs(b));
    }

    /// A registry without codecs.
    pub fn new() -> (registry: Self)
        ensures
            registry.wf(),
            registry@ == Map::<Seq<char>, BoxedCodec>::empty(),
            registry.type_ids() == Seq::<Seq<char>>::empty(),
    {
        let registry = SnapshotRegistry { components: TypeMap::new() };
        assert(registry.type_ids() =~= Seq::<Seq<char>>::empty());
        registry
    }

    /// The number of registered type identifiers.
    pub fn len(&self) -> (n: usize)
        requires
            self.wf(),
        ensures
            n == self@.len(),
            n == self.type_ids().len(),
    {
        self.components.len()
    }

    /// Whether a codec is registered under `type_id`.
    pub fn is_registered(&self, type_id: &str) -> (found: bool)
        ensures
            found == self@.contains_key(type_id@),
    {
        self.components.contains(type_id)
    }

    /// Registers `codec` under `type_id`. A codec that was registered under
    /// `type_id` before is replaced: the registry holds one codec per type
    /// identifier, the one that was registered last. The other type
    /// identifiers keep their codecs.
    pub fn register(&mut self, type_id: &str, codec: BoxedCodec)
        requires
            old(self).wf(),
        ensures
            final(self).wf(),
            final(self)@ == old(self)@.insert(type_id@, codec),
            final(self)@.contains_key(type_id@),
            final(self)@[type_id@] == codec,
            forall|other: Seq<char>|
                final(self)@.contains_key(other) <==> other == type_id@ || old(
                    self,
                )@.contains_key(other),
            forall|other: Seq<char>|
                other != type_id@ && old(self)@.contains_key(other) ==> final(self)@[other] == old(
                    self,
                )@[other],
            final(self).type_ids() == with_type_id(old(self).type_ids(), type_id@),
    {
        self.components.insert(type_id.to_owned(), codec);
    }

    /// Serializes what `world` holds of every registered type: the payload
    /// has one entry per registered type identifier, in the order of
    /// registration, with the instances that the type's codec could encode.
    /// An instance that cannot be encoded is left out and costs no other.
    pub fn serialize_all(&self, world: &World) -> (data: ComponentData)
        requires
            self.wf(),
        ensures
            data.wf(),
            self.captures(world, &data),
            forall|type_id: Seq<char>| data@.contains_key(type_id) <==> self@.contains_key(type_id),
            forall|type_id: Seq<char>|
                self@.contains_key(type_id) ==> #[trigger] data@[type_id] == assoc_map(
                    self.captured(world, type_id),
                ),
    {
        let mut data = ComponentData::new();
        let n = self.components.len();
        let mut i: usize = 0;
        proof {
            self.components.lemma_distinct();
            self.components.lemma_view();
            assert(data.type_ids() =~= self.type_ids().take(0));
        }
        while i < n
            invariant
                self.wf(),
                n == self.type_ids().len(),
                n == self.components.pairs().len(),
                self.type_ids().no_duplicates(),
                forall|at: int|
                    0 <= at < n ==> self@.contains_key(#[trigger] self.type_ids()[at])
                        && self@[self.type_ids()[at]] == self.components.pairs()[at].1,
                i <= n,
                data.wf(),
                data.type_ids() == self.type_ids().take(i as int),
                data.layout().len() == i,
                forall|at: int|
                    0 <= at < i ==> self.captures_entry(world, #[trigger] data.layout()[at]),
                forall|at: int|
                    0 <= at < i ==> data@.contains_key(#[trigger] self.type_ids()[at])
                        && data@[self.type_ids()[at]] == assoc_map(
                        self.captured(world, self.type_ids()[at]),
                    ),
            decreases n - i,
        {
            let entry = self.components.value_at(i);
            let outcomes = entry.codec.encode_all(world);
            let data_of_type = keep_encoded(outcomes);
            let type_id = self.components.type_id_at(i).clone();
            let ghost before = data.layout();
            let ghost before_view = data@;
            proof {
                data.lemma_contains(type_id@);
                if data.type_ids().contains(type_id@) {
                    let at = choose|at: int|
                        0 <= at < data.type_ids().len() && data.type_ids()[at] == type_id@;
                    assert(self.type_ids()[at] == self.type_ids()[i as int]);
                }
                assert(self.type_ids().take(i as int).push(type_id@) =~= self.type_ids().take(
                    i + 1,
                ));
                assert(self@[self.type_ids()[i as int]] == *entry);
            }
            data.insert(type_id, data_of_type);
            proof {
                assert(data.layout() == before.push((type_id@, data_of_type.records())));
                data_of_type.lemma_view();
                assert(self.captures_entry(world, data.layout()[i as int]));
                assert forall|at: int| 0 <= at < i + 1 implies self.captures_entry(
                    world,
                    #[trigger] data.layout()[at],
                ) by {
                    if at < i {
                        assert(data.layout()[at] == before[at]);
                    }
                }
                assert forall|at: int| 0 <= at < i + 1 implies data@.contains_key(
                    #[trigger] self.type_ids()[at],
                ) && data@[self.type_ids()[at]] == assoc_map(
                    self.captured(world, self.type_ids()[at]),
                ) by {
                    if at < i {
                        assert(self.type_ids()[at] != self.type_ids()[i as int]);
                        assert(before_view.contains_key(self.type_ids()[at]));
                    }
                }
            }
            i += 1;
        }
        proof {
            assert(self.type_ids().take(n as int) =~= self.type_ids());
            assert forall|type_id: Seq<char>|
                data@.contains_key(type_id) <==> self@.contains_key(type_id) by {
                data.lemma_contains(type_id);
                self.components.lemma_contains(type_id);
            }
            assert forall|type_id: Seq<char>| self@.contains_key(type_id) implies (
            #[trigger] data@[type_id]) == assoc_map(self.captured(world, type_id)) by {
                self.components.lemma_contains(type_id);
                let at = choose|at: int|
                    0 <= at < self.type_ids().len() && self.type_ids()[at] == type_id;
                assert(data@[self.type_ids()[at]] == assoc_map(
                    self.captured(world, self.type_ids()[at]),
                ));
            }
        }
        data
    }

    /// Hands each record of one type, in storage order, to the type's codec,
    /// which decodes it and inserts the value: one outcome per record.
    fn restore_type(entry: &BoxedCodec, world: &mut World, data: &EntityData) -> (outcomes:
        Vec<bool>)
        ensures
            outcomes@ == accepted(entry, data.records()),
            successes(outcomes@) == 0 ==> *final(world) == *old(world),
            world_entities(*old(world)).finite() ==> world_entities(*final(world)).finite()
                && world_entities(*final(world)).len() == world_entities(*old(world)).len()
                + successes(outcomes@),
    {
        let mut outcomes: Vec<bool> = Vec::new();
        let n = data.len();
        let mut i: usize = 0;
        assert(outcomes@ =~= accepted(entry, data.records()).take(0));
        while i < n
            invariant
                n == data.records().len(),
                i <= n,
                outcomes@ == accepted(entry, data.records()).take(i as int),
                successes(outcomes@) == 0 ==> *world == *old(world),
                world_entities(*old(world)).finite() ==> world_entities(*world).finite()
                    && world_entities(*world).len() == world_entities(*old(world)).len()
                    + successes(outcomes@),
            decreases n - i,
        {
            let ghost before = world_entities(*world);
            let ghost done = outcomes@;
            let decoded = entry.codec.decode_and_insert(world, data.bytes_at(i).as_slice());
            outcomes.push(decoded);
            proof {
                assert(outcomes@.drop_last() =~= done);
                assert(outcomes@ =~= accepted(entry, data.records()).take(i + 1));
                if decoded {
                    let id = choose|id: u64|
                        !before.contains(id) && world_entities(*world) == before.insert(id);
                    assert(world_entities(*world) == before.insert(id));
                }
            }
            i += 1;
        }
        assert(accepted(entry, data.records()).take(n as int) =~= accepted(
            entry,
            data.records(),
        ));
        outcomes
    }

    /// Restores a payload into `world`: for each type identifier of `data`
    /// that is registered, every record is handed to the type's codec, once
    /// and in storage order, which decodes it and inserts the value as a new
    /// instance. A record that cannot be decoded is left out and costs no
    /// other; what stands under a type identifier that is not registered is
    /// left out. The instance identifiers of `data` are not kept.
    ///
    /// Answers, for each entry of `data` in storage order, how many of its
    /// records were inserted.
    pub fn deserialize_into(&self, world: &mut World, data: &ComponentData) -> (inserted: Vec<
        usize,
    >)
        requires
            self.wf(),
            data.wf(),
        ensures
            inserted@.len() == data.layout().len(),
            forall|at: int|
                0 <= at < inserted@.len() ==> (#[trigger] inserted@[at]) == self.restored_count(
                    data.layout()[at],
                ),
            self.restored_total(data.layout()) == 0 ==> *final(world) == *old(world),
            world_entities(*old(world)).finite() ==> world_entities(*final(world)).finite()
                && world_entities(*final(world)).len() == world_entities(*old(world)).len()
                + self.restored_total(data.layout()),
    {
        let mut inserted: Vec<usize> = Vec::new();
        let n = data.len();
        let mut i: usize = 0;
        while i < n
            invariant
                self.wf(),
                data.wf(),
                n == data.layout().len(),
                i <= n,
                inserted@.len() == i,
                forall|at: int|
                    0 <= at < i ==> (#[trigger] inserted@[at]) == self.restored_count(
                        data.layout()[at],
                    ),
                self.restored_total(data.layout().take(i as int)) == 0 ==> *world == *old(world),
                world_entities(*old(world)).finite() ==> world_entities(*world).finite()
                    && world_entities(*world).len() == world_entities(*old(world)).len()
                    + self.restored_total(data.layout().take(i as int)),
            decreases n - i,
        {
            proof {
                assert(data.layout().take(i + 1).drop_last() =~= data.layout().take(i as int));
                assert(data.layout().take(i + 1).last() == data.layout()[i as int]);
            }
            let type_id = data.type_id_at(i);
            let decoded = match self.components.get(type_id.as_str()) {
                Some(entry) => {
                    let outcomes = Self::restore_type(entry, world, data.data_at(i));
                    count_inserted(&outcomes)
                },
                None => 0,
            };
            inserted.push(decoded);
            i += 1;
        }
        assert(data.layout().take(n as int) =~= data.layout());
        inserted
    }
}

} // verus!
