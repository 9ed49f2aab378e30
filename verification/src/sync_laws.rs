//! What holds of merging two replicas as a whole.
use crate::error::AppErrorView;
use crate::json;
use crate::json::JsonView;
use crate::sync_merge;
use crate::sync_state;
use crate::sync_state::StatesMerge;
use crate::table;
use crate::table::{Pair, PairView};
use vstd::prelude::*;

verus! {

/// Two sides that say the same are not in conflict, whatever they were edited from.
pub proof fn law_agreement_settles(
    base_left: Option<JsonView>,
    base_right: Option<JsonView>,
    value: JsonView,
    path: Seq<char>,
)
    ensures
        sync_merge::merged_value(base_left, value, base_right, value, path) == sync_merge::settled(
            value,
        ),
{
    json::lemma_alike_itself(value);
}

/// Where one side left a value as both had it, the edit of the other side stands. An edit that
/// comes to an equal value is none: what the left side has stands.
pub proof fn law_one_sided_edit_stands(base: JsonView, edited: JsonView, path: Seq<char>)
    ensures
        sync_merge::merged_value(Some(base), base, Some(base), edited, path)
            == sync_merge::settled(
            if json::alike(base, edited) {
                base
            } else {
                edited
            },
        ),
        sync_merge::merged_value(Some(base), edited, Some(base), base, path)
            == sync_merge::settled(edited),
{
    json::lemma_alike_itself(base);
}

/// The kinds that merge by themselves never ask anybody.
pub proof fn law_mechanical_kinds_never_ask(
    kind: Seq<char>,
    key: Seq<char>,
    base_left: Option<JsonView>,
    left: Option<JsonView>,
    base_right: Option<JsonView>,
    right: Option<JsonView>,
)
    requires
        sync_state::is_mechanical(kind),
    ensures
        sync_state::merged_object(kind, key, base_left, left, base_right, right).conflict is None,
        left is Some || right is Some ==> sync_state::merged_object(
            kind,
            key,
            base_left,
            left,
            base_right,
            right,
        ).value is Some,
{
}

/// Only where both sides changed what both of them had is there anything to ask.
pub proof fn law_conflict_takes_two(
    kind: Seq<char>,
    key: Seq<char>,
    base: Option<JsonView>,
    left: Option<JsonView>,
    right: Option<JsonView>,
)
    ensures
        sync_state::merged_object(kind, key, base, left, base, right).conflict is Some ==> {
            &&& !json::opt_alike(left, base)
            &&& !json::opt_alike(right, base)
            &&& !json::opt_alike(left, right)
        },
{
    if base is Some {
        json::lemma_alike_itself(base->0);
    }
}

/// Something that was removed on one side and left alone on the other is gone, but for the
/// kinds that merge by themselves and for memories, which are never lost by a merge.
pub open spec fn removal_counts(kind: Seq<char>) -> bool {
    !sync_state::is_mechanical(kind) && kind != "memory"@
}

/// Where the left side left everything as both had it, the merge of one object is what the
/// right side has.
proof fn lemma_right_stands(
    kind: Seq<char>,
    key: Seq<char>,
    base: Option<JsonView>,
    right: Option<JsonView>,
)
    requires
        right is None && base is Some ==> removal_counts(kind),
        json::opt_alike(base, right) ==> base == right,
    ensures
        ({
            let merge = sync_state::merged_object(kind, key, base, base, base, right);
            &&& merge.value == right
            &&& merge.conflict is None
            &&& merge.candidates.len() == 0
        }),
{
    if base is Some {
        json::lemma_alike_itself(base->0);
    }
    if sync_state::is_mechanical(kind) && base is Some && right is Some && base != right {
        law_one_sided_edit_stands(base->0, right->0, Seq::empty());
    }
}

/// The part of a map under the first `count` keys.
pub open spec fn under_keys(
    objects: Map<PairView, JsonView>,
    keys: Seq<PairView>,
    count: nat,
) -> Map<PairView, JsonView>
    decreases count,
{
    if count == 0 || count > keys.len() {
        Map::empty()
    } else {
        let head = under_keys(objects, keys, (count - 1) as nat);
        if objects.dom().contains(keys[count - 1]) {
            head.insert(keys[count - 1], objects[keys[count - 1]])
        } else {
            head
        }
    }
}

proof fn lemma_under_keys(objects: Map<PairView, JsonView>, keys: Seq<PairView>, count: nat)
    requires
        count <= keys.len(),
    ensures
        forall|key: PairView| #[trigger]
            under_keys(objects, keys, count).dom().contains(key) == (objects.dom().contains(key)
                && keys.take(count as int).contains(key)),
        forall|key: PairView| #[trigger]
            under_keys(objects, keys, count).dom().contains(key) ==> under_keys(
                objects,
                keys,
                count,
            )[key] == objects[key],
    decreases count,
{
    if count > 0 {
        lemma_under_keys(objects, keys, (count - 1) as nat);
        table::lemma_take_more(keys, count - 1);
        let head = under_keys(objects, keys, (count - 1) as nat);
        let whole = under_keys(objects, keys, count);
        assert forall|key: PairView| #[trigger]
            whole.dom().contains(key) == (objects.dom().contains(key) && keys.take(
                count as int,
            ).contains(key)) by {
            assert(head.dom().contains(key) == (objects.dom().contains(key) && keys.take(
                count - 1,
            ).contains(key)));
            assert(keys.take(count as int).contains(key) == (keys.take(count - 1).contains(key)
                || key == keys[count - 1]));
        }
        assert forall|key: PairView| #[trigger] whole.dom().contains(key) implies whole[key]
            == objects[key] by {
            if key != keys[count - 1] {
                assert(head.dom().contains(key));
            }
        }
    } else {
        assert(keys.take(0) =~= Seq::empty());
    }
}

proof fn lemma_right_states(
    base: Map<PairView, JsonView>,
    right: Map<PairView, JsonView>,
    keys: Seq<PairView>,
    count: nat,
)
    requires
        count <= keys.len(),
        forall|key: PairView| #[trigger]
            base.dom().contains(key) && !right.dom().contains(key) ==> removal_counts(key.first),
        forall|key: PairView| #[trigger]
            base.dom().contains(key) && right.dom().contains(key) && json::alike(
                base[key],
                right[key],
            ) ==> base[key] == right[key],
    ensures
        sync_state::merged_states(base, base, base, right, keys, count) == Ok::<
            StatesMerge,
            AppErrorView,
        >(
            StatesMerge {
                objects: under_keys(right, keys, count),
                conflicts: Seq::empty(),
                candidates: Map::empty(),
            },
        ),
    decreases count,
{
    if count > 0 {
        lemma_right_states(base, right, keys, (count - 1) as nat);
        let key = keys[count - 1];
        lemma_right_stands(
            key.first,
            key.second,
            sync_state::object_at(base, key),
            sync_state::object_at(right, key),
        );
    }
}

/// A replica that did not change since the last merge takes over what the other one has, and
/// nobody is asked. What the other one removed is gone where its removal counts. Where the
/// other one only wrote an equal value in another way, nothing is taken over.
pub proof fn law_unchanged_replica_follows(
    base: Map<PairView, JsonView>,
    right: Map<PairView, JsonView>,
)
    requires
        base.dom().finite(),
        right.dom().finite(),
        forall|key: PairView| #[trigger]
            base.dom().contains(key) && !right.dom().contains(key) ==> removal_counts(key.first),
        forall|key: PairView| #[trigger]
            base.dom().contains(key) && right.dom().contains(key) && json::alike(
                base[key],
                right[key],
            ) ==> base[key] == right[key],
    ensures
        ({
            let keys = sync_state::all_keys(base, base, base, right);
            sync_state::merged_states(base, base, base, right, keys, keys.len()) == Ok::<
                StatesMerge,
                AppErrorView,
            >(
                StatesMerge {
                    objects: right,
                    conflicts: Seq::empty(),
                    candidates: Map::empty(),
                },
            )
        }),
{
    let all = base.dom() + base.dom() + base.dom() + right.dom();
    let keys = sync_state::all_keys(base, base, base, right);
    table::lemma_has_order::<Pair>(all);
    lemma_right_states(base, right, keys, keys.len());
    lemma_under_keys(right, keys, keys.len());
    assert(keys.take(keys.len() as int) =~= keys);
    assert(under_keys(right, keys, keys.len()) =~= right) by {
        assert forall|key: PairView| right.dom().contains(key) implies keys.contains(key) by {
            assert(keys.to_set().contains(key));
        }
    }
}

proof fn lemma_same_states(
    base_left: Map<PairView, JsonView>,
    base_right: Map<PairView, JsonView>,
    same: Map<PairView, JsonView>,
    keys: Seq<PairView>,
    count: nat,
)
    requires
        count <= keys.len(),
    ensures
        sync_state::merged_states(base_left, same, base_right, same, keys, count) == Ok::<
            StatesMerge,
            AppErrorView,
        >(
            StatesMerge {
                objects: under_keys(same, keys, count),
                conflicts: Seq::empty(),
                candidates: Map::empty(),
            },
        ),
    decreases count,
{
    if count > 0 {
        lemma_same_states(base_left, base_right, same, keys, (count - 1) as nat);
        json::lemma_alike_itself(same[keys[count - 1]]);
    }
}

/// Two replicas that hold the same stay as they are, whatever they were before.
pub proof fn law_equal_replicas_stay(
    base_left: Map<PairView, JsonView>,
    base_right: Map<PairView, JsonView>,
    same: Map<PairView, JsonView>,
)
    requires
        base_left.dom().finite(),
        base_right.dom().finite(),
        same.dom().finite(),
    ensures
        ({
            let keys = sync_state::all_keys(base_left, same, base_right, same);
            sync_state::merged_states(base_left, same, base_right, same, keys, keys.len()) == Ok::<
                StatesMerge,
                AppErrorView,
            >(
                StatesMerge {
                    objects: same,
                    conflicts: Seq::empty(),
                    candidates: Map::empty(),
                },
            )
        }),
{
    let all = base_left.dom() + same.dom() + base_right.dom() + same.dom();
    let keys = sync_state::all_keys(base_left, same, base_right, same);
    table::lemma_has_order::<Pair>(all);
    lemma_same_states(base_left, base_right, same, keys, keys.len());
    lemma_under_keys(same, keys, keys.len());
    assert(keys.take(keys.len() as int) =~= keys);
    assert(under_keys(same, keys, keys.len()) =~= same) by {
        assert forall|key: PairView| same.dom().contains(key) implies keys.contains(key) by {
            assert(keys.to_set().contains(key));
        }
    }
}

} // verus!
