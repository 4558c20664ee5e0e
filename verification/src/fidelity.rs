//! Capture and restore keep what a store serializes to, provided that the
//! codecs read back what they write.

use crate::assoc::{distinct_keys, holds_at};
use crate::payload::Record;
use crate::registry::{accepted, kept, lemma_all_decoded, successes, Encoded, BoxedCodec};
use shipyard::World;
use vstd::prelude::*;
use vstd::seq_lib::{to_multiset_build, to_multiset_remove};

verus! {

/// The values of a store's instances of one type.
pub open spec fn values<V>(instances: Seq<(u64, V)>) -> Seq<V> {
    instances.map_values(|p: (u64, V)| p.1)
}

/// What a codec that encodes with `encode` reports of `instances`.
pub open spec fn encoded<V>(
    encode: spec_fn(V) -> Option<Seq<u8>>,
    instances: Seq<(u64, V)>,
) -> Seq<Encoded> {
    instances.map_values(|p: (u64, V)| (p.0, encode(p.1)))
}

/// The bytes of `records`, without the identifiers.
pub open spec fn buffers(records: Seq<Record>) -> Seq<Seq<u8>> {
    records.map_values(|r: Record| r.1)
}

/// The values that a codec that decodes with `decode` inserts for `records`:
/// one for each record that decodes, in order.
pub open spec fn admitted<V>(decode: spec_fn(Seq<u8>) -> Option<V>, records: Seq<Record>) -> Seq<V>
    decreases records.len(),
{
    if records.len() == 0 {
        Seq::empty()
    } else {
        match decode(records.last().1) {
            Some(value) => admitted(decode, records.drop_last()).push(value),
            None => admitted(decode, records.drop_last()),
        }
    }
}

/// The bytes that `values` are encoded to: one buffer for each value that
/// can be encoded, in order.
pub open spec fn written<V>(encode: spec_fn(V) -> Option<Seq<u8>>, values: Seq<V>) -> Seq<Seq<u8>>
    decreases values.len(),
{
    if values.len() == 0 {
        Seq::empty()
    } else {
        match encode(values.last()) {
            Some(bytes) => written(encode, values.drop_last()).push(bytes),
            None => written(encode, values.drop_last()),
        }
    }
}

/// The codec reads back what it wrote for `instances`: where a value is
/// encoded, the bytes decode, and to a value that is encoded to the same
/// bytes.
pub open spec fn faithful<V>(
    encode: spec_fn(V) -> Option<Seq<u8>>,
    decode: spec_fn(Seq<u8>) -> Option<V>,
    instances: Seq<(u64, V)>,
) -> bool {
    forall|i: int|
        0 <= i < instances.len() ==> (match encode((#[trigger] instances[i]).1) {
            Some(bytes) => decode(bytes) matches Some(value) && encode(value) == Some(bytes),
            None => true,
        })
}

/// What is kept of a store is what its values are encoded to.
pub proof fn lemma_kept_written<V>(encode: spec_fn(V) -> Option<Seq<u8>>, instances: Seq<(u64, V)>)
    ensures
        buffers(kept(encoded(encode, instances))) == written(encode, values(instances)),
    decreases instances.len(),
{
    if instances.len() == 0 {
        assert(buffers(kept(encoded(encode, instances))) =~= written(encode, values(instances)));
    } else {
        let front = instances.drop_last();
        lemma_kept_written(encode, front);
        assert(encoded(encode, instances).drop_last() =~= encoded(encode, front));
        assert(values(instances).drop_last() =~= values(front));
        match encode(instances.last().1) {
            Some(bytes) => {
                assert(buffers(kept(encoded(encode, front)).push((instances.last().0, bytes)))
                    =~= buffers(kept(encoded(encode, front))).push(bytes));
            },
            None => {},
        }
    }
}

/// An instance of `instances` has the identifier `id`.
pub open spec fn occurs<V>(instances: Seq<(u64, V)>, id: u64) -> bool {
    exists|i: int| holds_at(instances, id, i)
}

/// Every record that is kept of a store stands under the identifier of one
/// of its instances; where the store gives each instance an identifier of
/// its own, so do the records.
pub proof fn lemma_kept_distinct<V>(encode: spec_fn(V) -> Option<Seq<u8>>, instances: Seq<(u64, V)>)
    ensures
        forall|k: int|
            0 <= k < kept(encoded(encode, instances)).len() ==> occurs(
                instances,
                (#[trigger] kept(encoded(encode, instances))[k]).0,
            ),
        distinct_keys(instances) ==> distinct_keys(kept(encoded(encode, instances))),
    decreases instances.len(),
{
    let records = kept(encoded(encode, instances));
    if instances.len() == 0 {
        assert(records.len() == 0);
    } else {
        let front = instances.drop_last();
        let front_records = kept(encoded(encode, front));
        lemma_kept_distinct(encode, front);
        assert(encoded(encode, instances).drop_last() =~= encoded(encode, front));
        assert(encoded(encode, instances).last() == (
            instances.last().0,
            encode(instances.last().1),
        ));
        match encode(instances.last().1) {
            Some(bytes) => {
                assert(records == front_records.push((instances.last().0, bytes)));
            },
            None => {
                assert(records == front_records);
            },
        }
        assert forall|k: int| 0 <= k < records.len() implies occurs(
            instances,
            (#[trigger] records[k]).0,
        ) by {
            if k < front_records.len() {
                assert(records[k] == front_records[k]);
                assert(occurs(front, front_records[k].0));
                let i = choose|i: int| holds_at(front, front_records[k].0, i);
                assert(holds_at(instances, records[k].0, i));
            } else {
                assert(holds_at(instances, records[k].0, instances.len() - 1));
            }
        }
        if distinct_keys(instances) {
            assert(distinct_keys(front)) by {
                assert forall|i: int, j: int| 0 <= i < j < front.len() implies (
                #[trigger] front[i]).0 != (#[trigger] front[j]).0 by {
                    assert(front[i] == instances[i] && front[j] == instances[j]);
                }
            }
            assert forall|a: int, b: int| 0 <= a < b < records.len() implies (
            #[trigger] records[a]).0 != (#[trigger] records[b]).0 by {
                assert(records[a] == front_records[a]);
                if b < front_records.len() {
                    assert(records[b] == front_records[b]);
                } else {
                    assert(occurs(front, front_records[a].0));
                    let i = choose|i: int| holds_at(front, front_records[a].0, i);
                    assert(instances[i].0 != instances[instances.len() - 1].0);
                }
            }
        }
    }
}

/// A faithful codec decodes every record that it wrote, and to values that
/// are encoded to the records' bytes.
pub proof fn lemma_faithful_restore<V>(
    encode: spec_fn(V) -> Option<Seq<u8>>,
    decode: spec_fn(Seq<u8>) -> Option<V>,
    instances: Seq<(u64, V)>,
)
    requires
        faithful(encode, decode, instances),
    ensures
        admitted(decode, kept(encoded(encode, instances))).len() == kept(
            encoded(encode, instances),
        ).len(),
        written(encode, admitted(decode, kept(encoded(encode, instances)))) == buffers(
            kept(encoded(encode, instances)),
        ),
    decreases instances.len(),
{
    let records = kept(encoded(encode, instances));
    if instances.len() == 0 {
        assert(written(encode, admitted(decode, records)) =~= buffers(records));
    } else {
        let front = instances.drop_last();
        assert(faithful(encode, decode, front)) by {
            assert forall|i: int| 0 <= i < front.len() implies (match encode(
                (#[trigger] front[i]).1,
            ) {
                Some(bytes) => decode(bytes) matches Some(value) && encode(value) == Some(bytes),
                None => true,
            }) by {
                assert(front[i] == instances[i]);
            }
        }
        lemma_faithful_restore(encode, decode, front);
        assert(encoded(encode, instances).drop_last() =~= encoded(encode, front));
        let front_records = kept(encoded(encode, front));
        match encode(instances.last().1) {
            Some(bytes) => {
                assert(instances[instances.len() - 1] == instances.last());
                let value = decode(bytes)->Some_0;
                assert(records == front_records.push((instances.last().0, bytes)));
                assert(records.drop_last() =~= front_records);
                assert(admitted(decode, records) == admitted(decode, front_records).push(value));
                assert(admitted(decode, records).drop_last() =~= admitted(decode, front_records));
                assert(buffers(records) =~= buffers(front_records).push(bytes));
            },
            None => {},
        }
    }
}

/// Taking one value out takes its buffer out, if it had one.
proof fn lemma_written_remove<V>(encode: spec_fn(V) -> Option<Seq<u8>>, values: Seq<V>, at: int)
    requires
        0 <= at < values.len(),
    ensures
        written(encode, values).to_multiset() == (match encode(values[at]) {
            Some(bytes) => written(encode, values.remove(at)).to_multiset().insert(bytes),
            None => written(encode, values.remove(at)).to_multiset(),
        }),
    decreases values.len(),
{
    let front = values.drop_last();
    if at == values.len() - 1 {
        assert(values.remove(at) =~= front);
        match encode(values[at]) {
            Some(bytes) => {
                to_multiset_build(written(encode, front), bytes);
            },
            None => {},
        }
    } else {
        lemma_written_remove(encode, front, at);
        let rest = values.remove(at);
        assert(rest.drop_last() =~= front.remove(at));
        assert(rest.last() == values.last());
        assert(front[at] == values[at]);
        match encode(values.last()) {
            Some(last) => {
                to_multiset_build(written(encode, front), last);
                to_multiset_build(written(encode, front.remove(at)), last);
                match encode(values[at]) {
                    Some(bytes) => {
                        assert(written(encode, front.remove(at)).to_multiset().insert(bytes).insert(
                            last,
                        ) =~= written(encode, front.remove(at)).to_multiset().insert(last).insert(
                            bytes,
                        ));
                    },
                    None => {},
                }
            },
            None => {},
        }
    }
}

/// What values are encoded to does not depend on their order.
pub proof fn lemma_written_unordered<V>(
    encode: spec_fn(V) -> Option<Seq<u8>>,
    one: Seq<V>,
    other: Seq<V>,
)
    requires
        one.to_multiset() == other.to_multiset(),
    ensures
        written(encode, one).to_multiset() == written(encode, other).to_multiset(),
    decreases one.len(),
{
    one.to_multiset_ensures();
    other.to_multiset_ensures();
    if one.len() == 0 {
        assert(other.len() == 0);
    } else {
        let value = one.last();
        assert(one.contains(value)) by {
            assert(one[one.len() - 1] == value);
        }
        assert(one.to_multiset().count(value) > 0);
        assert(other.to_multiset().count(value) > 0);
        assert(other.contains(value));
        let at = choose|at: int| 0 <= at < other.len() && other[at] == value;
        to_multiset_remove(one, one.len() - 1);
        to_multiset_remove(other, at);
        assert(one.remove(one.len() - 1) =~= one.drop_last());
        lemma_written_unordered(encode, one.drop_last(), other.remove(at));
        lemma_written_remove(encode, one, one.len() - 1);
        lemma_written_remove(encode, other, at);
    }
}

/// Capture and restore keep the serialized form of a store.
///
/// Let a store hold `stored` of one registered type, and let the type's
/// codec be faithful on them. Capture the store and restore the snapshot,
/// and let the new store hold `restored`: the values that were decoded and
/// inserted, under whatever identifiers and in whatever order. Then the
/// snapshot holds one record for each instance that could be encoded, none
/// of them was lost in restoring, and a capture of the new store holds the
/// same buffers as the capture of the old one, each as often.
pub proof fn lemma_round_trip<V>(
    encode: spec_fn(V) -> Option<Seq<u8>>,
    decode: spec_fn(Seq<u8>) -> Option<V>,
    stored: Seq<(u64, V)>,
    restored: Seq<(u64, V)>,
)
    requires
        faithful(encode, decode, stored),
        values(restored).to_multiset() == admitted(
            decode,
            kept(encoded(encode, stored)),
        ).to_multiset(),
    ensures
        distinct_keys(stored) ==> distinct_keys(kept(encoded(encode, stored))),
        admitted(decode, kept(encoded(encode, stored))).len() == kept(
            encoded(encode, stored),
        ).len(),
        buffers(kept(encoded(encode, restored))).to_multiset() == buffers(
            kept(encoded(encode, stored)),
        ).to_multiset(),
{
    lemma_kept_distinct(encode, stored);
    lemma_faithful_restore(encode, decode, stored);
    lemma_kept_written(encode, restored);
    lemma_written_unordered(
        encode,
        values(restored),
        admitted(decode, kept(encoded(encode, stored))),
    );
}

/// Where every record gives a value, every record decodes.
proof fn lemma_admitted_all<V>(decode: spec_fn(Seq<u8>) -> Option<V>, records: Seq<Record>)
    ensures
        admitted(decode, records).len() <= records.len(),
        admitted(decode, records).len() == records.len() ==> forall|k: int|
            0 <= k < records.len() ==> decode((#[trigger] records[k]).1) is Some,
    decreases records.len(),
{
    if records.len() > 0 {
        let front = records.drop_last();
        lemma_admitted_all(decode, front);
        if admitted(decode, records).len() == records.len() {
            assert forall|k: int| 0 <= k < records.len() implies decode(
                (#[trigger] records[k]).1,
            ) is Some by {
                if k < front.len() {
                    assert(front[k] == records[k]);
                }
            }
        }
    }
}

/// Capture and restore keep what a registered type serializes to.
///
/// Let the codec of a registered type report of two stores what a codec
/// reports that encodes with `encode`, and accept what `decode` decodes;
/// let it be faithful on what the first store holds, and let the second
/// store hold the values that a restore of the first store's capture
/// inserted. Then the restore inserts one instance for each captured
/// record, and a capture of the second store holds the same buffers as the
/// capture of the first, each as often.
pub proof fn lemma_codec_round_trip<V>(
    entry: &BoxedCodec,
    before: &World,
    after: &World,
    encode: spec_fn(V) -> Option<Seq<u8>>,
    decode: spec_fn(Seq<u8>) -> Option<V>,
    stored: Seq<(u64, V)>,
    restored: Seq<(u64, V)>,
)
    requires
        entry.codec.reported(before) == encoded(encode, stored),
        entry.codec.reported(after) == encoded(encode, restored),
        forall|bytes: Seq<u8>| #[trigger] entry.codec.accepts(bytes) == (decode(bytes) is Some),
        faithful(encode, decode, stored),
        values(restored).to_multiset() == admitted(
            decode,
            kept(entry.codec.reported(before)),
        ).to_multiset(),
    ensures
        successes(accepted(entry, kept(entry.codec.reported(before)))) == kept(
            entry.codec.reported(before),
        ).len(),
        buffers(kept(entry.codec.reported(after))).to_multiset() == buffers(
            kept(entry.codec.reported(before)),
        ).to_multiset(),
{
    let records = kept(entry.codec.reported(before));
    lemma_round_trip(encode, decode, stored, restored);
    lemma_admitted_all(decode, records);
    let outcomes = accepted(entry, records);
    assert forall|i: int| 0 <= i < outcomes.len() implies outcomes[i] by {
        assert(decode(records[i].1) is Some);
    }
    lemma_all_decoded(outcomes);
}

} // verus!
