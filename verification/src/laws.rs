//! What holds of every backend that keeps the storage contract, stated
//! over the contents that completed reads and writes leave and report.
//!
//! That the in-memory backend keeps the contract rests on one more law,
//! proved beside the encoding: no two placements share a storage key.

use vstd::prelude::*;
use crate::placement::{NamespaceType, PlacementView};
use crate::storage::{after_set, value_at};

verus! {

/// The contents after a run of completed writes, taken in order.
pub open spec fn after_sets(
    contents: Map<PlacementView, Seq<u8>>,
    writes: Seq<(PlacementView, Seq<u8>)>,
) -> Map<PlacementView, Seq<u8>>
    decreases writes.len(),
{
    if writes.len() == 0 {
        contents
    } else {
        after_set(after_sets(contents, writes.drop_last()), writes.last().0, writes.last().1)
    }
}

/// A write to one placement leaves every other placement as it was.
pub proof fn lemma_other_placements_kept(
    contents: Map<PlacementView, Seq<u8>>,
    written: PlacementView,
    data: Seq<u8>,
    other: PlacementView,
)
    requires
        other != written,
    ensures
        value_at(after_set(contents, written, data), other) == value_at(contents, other),
{
}

/// Namespace isolation: a write under the `User` namespace type leaves the
/// `System` placement of the same namespace and key as it was. Where that
/// placement held nothing, a read of it still reports nothing, and not the
/// value just written.
pub proof fn lemma_namespace_isolation(
    contents: Map<PlacementView, Seq<u8>>,
    namespace: Seq<u8>,
    key: Seq<u8>,
    data: Seq<u8>,
)
    ensures
        ({
            let user = PlacementView { namespace_type: NamespaceType::User, namespace, key };
            let system = PlacementView { namespace_type: NamespaceType::System, namespace, key };
            &&& value_at(after_set(contents, user, data), system) == value_at(contents, system)
            &&& value_at(contents, system) is None ==> value_at(
                after_set(contents, user, data),
                system,
            ) is None
        }),
{
    let user = PlacementView { namespace_type: NamespaceType::User, namespace, key };
    let system = PlacementView { namespace_type: NamespaceType::System, namespace, key };
    lemma_other_placements_kept(contents, user, data, system);
}

/// Round trip: a read that follows a write to the same placement reports
/// the bytes that were written.
pub proof fn lemma_round_trip(
    contents: Map<PlacementView, Seq<u8>>,
    placement: PlacementView,
    data: Seq<u8>,
)
    ensures
        value_at(after_set(contents, placement, data), placement) == Some(data),
{
}

/// Overwrite: of two writes to one placement, a read reports the second.
pub proof fn lemma_overwrite(
    contents: Map<PlacementView, Seq<u8>>,
    placement: PlacementView,
    first: Seq<u8>,
    second: Seq<u8>,
)
    ensures
        value_at(
            after_set(after_set(contents, placement, first), placement, second),
            placement,
        ) == Some(second),
        after_set(after_set(contents, placement, first), placement, second) == after_set(
            contents,
            placement,
            second,
        ),
{
}

/// Idempotence: writing the same bytes to the same placement twice leaves
/// what writing them once leaves.
pub proof fn lemma_repeated_set(
    contents: Map<PlacementView, Seq<u8>>,
    placement: PlacementView,
    data: Seq<u8>,
)
    ensures
        after_set(after_set(contents, placement, data), placement, data) == after_set(
            contents,
            placement,
            data,
        ),
        value_at(after_set(after_set(contents, placement, data), placement, data), placement)
            == Some(data),
{
    lemma_overwrite(contents, placement, data, data);
}

/// Absence: a placement that no write has named holds what it held at the
/// start. In a backend that started empty, a read of it reports nothing.
pub proof fn lemma_absence(
    contents: Map<PlacementView, Seq<u8>>,
    writes: Seq<(PlacementView, Seq<u8>)>,
    placement: PlacementView,
)
    requires
        forall|i: int| 0 <= i < writes.len() ==> (#[trigger] writes[i]).0 != placement,
    ensures
        value_at(after_sets(contents, writes), placement) == value_at(contents, placement),
        value_at(after_sets(Map::empty(), writes), placement) is None,
    decreases writes.len(),
{
    if writes.len() > 0 {
        let earlier = writes.drop_last();
        assert forall|i: int| 0 <= i < earlier.len() implies (#[trigger] earlier[i]).0
            != placement by {
            assert(earlier[i] == writes[i]);
        }
        lemma_absence(contents, earlier, placement);
        lemma_absence(Map::empty(), earlier, placement);
    }
}

/// Last writer wins: after a run of writes, in whatever order they took
/// effect, a placement holds the data of the last write that named it.
pub proof fn lemma_last_set_wins(
    contents: Map<PlacementView, Seq<u8>>,
    writes: Seq<(PlacementView, Seq<u8>)>,
    last: int,
)
    requires
        0 <= last < writes.len(),
        forall|i: int| last < i < writes.len() ==> (#[trigger] writes[i]).0 != writes[last].0,
    ensures
        value_at(after_sets(contents, writes), writes[last].0) == Some(writes[last].1),
    decreases writes.len(),
{
    if last < writes.len() - 1 {
        let earlier = writes.drop_last();
        assert forall|i: int| last < i < earlier.len() implies (#[trigger] earlier[i]).0
            != earlier[last].0 by {
            assert(earlier[i] == writes[i]);
        }
        lemma_last_set_wins(contents, earlier, last);
    }
}

/// Writes to distinct placements do not disturb each other: after the
/// run, in whatever order the writes took effect, every placement written
/// holds its data.
pub proof fn lemma_distinct_sets_all_kept(
    contents: Map<PlacementView, Seq<u8>>,
    writes: Seq<(PlacementView, Seq<u8>)>,
)
    requires
        forall|i: int, j: int|
            0 <= i < j < writes.len() ==> (#[trigger] writes[i]).0 != (#[trigger] writes[j]).0,
    ensures
        forall|i: int|
            0 <= i < writes.len() ==> value_at(
                after_sets(contents, writes),
                (#[trigger] writes[i]).0,
            ) == Some(writes[i].1),
{
    assert forall|i: int| 0 <= i < writes.len() implies value_at(
        after_sets(contents, writes),
        (#[trigger] writes[i]).0,
    ) == Some(writes[i].1) by {
        lemma_last_set_wins(contents, writes, i);
    }
}

} // verus!
