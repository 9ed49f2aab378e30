//! What merging two edited values field by field and item by item comes to.
use crate::digest;
use crate::json;
use crate::json::{EntryView, JsonView};
use crate::sync_merge;
use crate::sync_state;
use crate::table;
use crate::table::{Pair, PairView};
use crate::text;
use vstd::prelude::*;

verus! {

// ---------------------------------------------------------------------------
// Lists of objects
// ---------------------------------------------------------------------------

/// The item of a list that counts for an identity: the last one that has it.
pub open spec fn is_item(items: Seq<JsonView>, key: Seq<char>, found: Option<JsonView>) -> bool {
    match found {
        Some(value) => exists|i: int|
            #![trigger items[i]]
            {
                &&& 0 <= i < items.len()
                &&& items[i] == value
                &&& sync_merge::identity(items[i]) == key
                &&& forall|j: int|
                    i < j < items.len() ==> sync_merge::identity(#[trigger] items[j]) != key
            },
        None => forall|i: int|
            0 <= i < items.len() ==> sync_merge::identity(#[trigger] items[i]) != key,
    }
}

proof fn lemma_item(items: Seq<JsonView>, key: Seq<char>)
    ensures
        is_item(items, key, sync_merge::item_with(items, key)),
        -1 <= sync_merge::item_place(items, key) < items.len(),
        sync_merge::item_place(items, key) >= 0 ==> {
            let at = sync_merge::item_place(items, key);
            &&& sync_merge::identity(items[at]) == key
            &&& forall|j: int|
                at < j < items.len() ==> sync_merge::identity(#[trigger] items[j]) != key
        },
        sync_merge::item_place(items, key) < 0 ==> forall|i: int|
            0 <= i < items.len() ==> sync_merge::identity(#[trigger] items[i]) != key,
    decreases items.len(),
{
    if items.len() > 0 && sync_merge::identity(items.last()) != key {
        let head = items.drop_last();
        lemma_item(head, key);
        assert forall|j: int|
            0 <= j < items.len() && (sync_merge::item_place(head, key) < 0 || j
                > sync_merge::item_place(head, key)) implies sync_merge::identity(
            #[trigger] items[j],
        ) != key by {
            if j < head.len() {
                assert(head[j] == items[j]);
            }
        }
        if sync_merge::item_place(head, key) >= 0 {
            assert(head[sync_merge::item_place(head, key)] == items[sync_merge::item_place(
                head,
                key,
            )]);
        }
    }
}

/// Only one item counts for an identity.
proof fn lemma_item_unique(
    items: Seq<JsonView>,
    key: Seq<char>,
    a: Option<JsonView>,
    b: Option<JsonView>,
)
    requires
        is_item(items, key, a),
        is_item(items, key, b),
    ensures
        a == b,
{
}

/// What an item is recognised by: its identifier, and nothing else of it where it has one; else
/// its revision, else its slug, else the whole of it.
pub proof fn law_items_are_recognised(a: JsonView, b: JsonView)
    ensures
        a.get("id"@) is Some && b.get("id"@) is Some ==> (sync_merge::identity(a)
            == sync_merge::identity(b) <==> json::canonical_text(a.get("id"@)->0)
            == json::canonical_text(b.get("id"@)->0)),
        a.get("id"@) is None && b.get("id"@) is None && a.get("revision"@) is Some && b.get(
            "revision"@,
        ) is Some ==> (sync_merge::identity(a) == sync_merge::identity(b)
            <==> json::canonical_text(a.get("revision"@)->0) == json::canonical_text(
            b.get("revision"@)->0,
        )),
        a.get("id"@) is None && b.get("id"@) is None && a.get("revision"@) is None && b.get(
            "revision"@,
        ) is None && a.get("slug"@) is Some && b.get("slug"@) is Some ==> (sync_merge::identity(a)
            == sync_merge::identity(b) <==> json::canonical_text(a.get("slug"@)->0)
            == json::canonical_text(b.get("slug"@)->0)),
        a !is Object && b !is Object ==> (sync_merge::identity(a) == sync_merge::identity(b)
            <==> json::canonical_text(a) == json::canonical_text(b)),
{
}

proof fn lemma_items_out(
    base: Option<JsonView>,
    left: JsonView,
    right: JsonView,
    path: Seq<char>,
    keys: Seq<Seq<char>>,
    count: nat,
)
    requires
        count <= keys.len(),
    ensures
        ({
            let out = sync_merge::merged_items(base, left, base, right, path, keys, count);
            &&& forall|k: int|
                0 <= k < count ==> {
                    let part = sync_merge::merged_item(
                        base,
                        left,
                        base,
                        right,
                        path,
                        #[trigger] keys[k],
                    );
                    &&& part.value is Some ==> out.items.contains(part.value->0)
                    &&& part.conflicts.len() > 0 ==> out.conflicts.len() > 0
                }
            &&& forall|v: JsonView| #[trigger]
                out.items.contains(v) ==> exists|k: int|
                    0 <= k < count && sync_merge::merged_item(
                        base,
                        left,
                        base,
                        right,
                        path,
                        #[trigger] keys[k],
                    ).value == Some(v)
            &&& out.conflicts.len() > 0 ==> exists|k: int|
                0 <= k < count && sync_merge::merged_item(
                    base,
                    left,
                    base,
                    right,
                    path,
                    #[trigger] keys[k],
                ).conflicts.len() > 0
        }),
    decreases count,
{
    if count > 0 {
        let less = (count - 1) as nat;
        lemma_items_out(base, left, right, path, keys, less);
        let before = sync_merge::merged_items(base, left, base, right, path, keys, less);
        let out = sync_merge::merged_items(base, left, base, right, path, keys, count);
        let last = sync_merge::merged_item(base, left, base, right, path, keys[less as int]);
        assert forall|k: int| 0 <= k < count implies {
            let part = sync_merge::merged_item(base, left, base, right, path, #[trigger] keys[k]);
            &&& part.value is Some ==> out.items.contains(part.value->0)
            &&& part.conflicts.len() > 0 ==> out.conflicts.len() > 0
        } by {
            let part = sync_merge::merged_item(base, left, base, right, path, keys[k]);
            if part.value is Some {
                if k == less {
                    assert(out.items[before.items.len() as int] == part.value->0);
                } else {
                    assert(before.items.contains(part.value->0));
                    let at = before.items.index_of(part.value->0);
                    assert(out.items[at] == part.value->0);
                }
            }
        }
        assert forall|v: JsonView| #[trigger] out.items.contains(v) implies exists|k: int|
            0 <= k < count && sync_merge::merged_item(
                base,
                left,
                base,
                right,
                path,
                #[trigger] keys[k],
            ).value == Some(v) by {
            let at = out.items.index_of(v);
            if at < before.items.len() {
                assert(before.items[at] == v);
                assert(before.items.contains(v));
            } else {
                assert(last.value == Some(v));
                assert(keys[less as int] == keys[less as int]);
            }
        }
        if out.conflicts.len() > 0 && before.conflicts.len() == 0 {
            assert(last.conflicts.len() > 0);
            assert(keys[less as int] == keys[less as int]);
        }
    }
}

/// Both sides have an item, and both changed it, each in another way.
pub open spec fn is_contested(
    base: Seq<JsonView>,
    left: Seq<JsonView>,
    right: Seq<JsonView>,
    key: Seq<char>,
) -> bool {
    exists|l: JsonView, r: JsonView, was: Option<JsonView>|
        {
            &&& #[trigger] is_item(left, key, Some(l))
            &&& #[trigger] is_item(right, key, Some(r))
            &&& #[trigger] is_item(base, key, was)
            &&& !json::alike(l, r)
            &&& !json::opt_alike(Some(l), was)
            &&& !json::opt_alike(Some(r), was)
        }
}

/// What becomes of the items under one identity.
proof fn lemma_one_item(
    base: Seq<JsonView>,
    left: Seq<JsonView>,
    right: Seq<JsonView>,
    path: Seq<char>,
    key: Seq<char>,
)
    ensures
        ({
            let b = Some(JsonView::Array(base));
            let part = sync_merge::merged_item(
                b,
                JsonView::Array(left),
                b,
                JsonView::Array(right),
                path,
                key,
            );
            let l = sync_merge::item_with(left, key);
            let r = sync_merge::item_with(right, key);
            let was = sync_merge::item_with(base, key);
            &&& json::opt_alike(r, was) && l is Some ==> part.value == l
            &&& json::opt_alike(l, was) && !json::opt_alike(r, was) && r is Some
                && !json::opt_alike(l, r) ==> part.value == r
            &&& json::opt_alike(l, r) ==> part.value == l
            &&& l is None && json::opt_alike(r, was) ==> part.value is None
            &&& r is None && json::opt_alike(l, was) ==> part.value is None
            &&& l is None && r is None ==> part.value is None
            &&& l is None && r is Some && !json::opt_alike(r, was) && was is Some ==> {
                &&& part.value == r
                &&& part.conflicts.len() > 0
            }
            &&& r is None && l is Some && !json::opt_alike(l, was) && was is Some ==> {
                &&& part.value == l
                &&& part.conflicts.len() > 0
            }
            &&& part.value is None || part.value == l || part.value == r || {
                &&& l is Some
                &&& r is Some
                &&& !json::opt_alike(l, r)
                &&& !json::opt_alike(l, was)
                &&& !json::opt_alike(r, was)
            }
        }),
{
    lemma_item(left, key);
    lemma_item(right, key);
    lemma_item(base, key);
}

/// Lists that hold more than texts are merged item by item, against the list that both were
/// edited from. An item that only one side changed is in the merged list as that side has it,
/// and one that only one side removed is gone: what is left under its identity can only come
/// from an item that both sides changed. What both sides have alike stays. The sides are in
/// conflict exactly where an item cannot be told this way.
pub proof fn law_lists_merge_item_by_item(
    base: Seq<JsonView>,
    left: Seq<JsonView>,
    right: Seq<JsonView>,
    path: Seq<char>,
    key: Seq<char>,
    l: Option<JsonView>,
    r: Option<JsonView>,
    was: Option<JsonView>,
)
    requires
        !(sync_merge::all_texts(left) && sync_merge::all_texts(right)),
        is_item(left, key, l),
        is_item(right, key, r),
        is_item(base, key, was),
    ensures
        ({
            let merged = sync_merge::merged_lists(
                Some(JsonView::Array(base)),
                JsonView::Array(left),
                Some(JsonView::Array(base)),
                JsonView::Array(right),
                path,
            );
            let out = merged.value->Array_0;
            &&& merged.value is Array
            &&& json::opt_alike(r, was) && l is Some ==> out.contains(l->0)
            &&& json::opt_alike(l, was) && !json::opt_alike(r, was) && !json::opt_alike(l, r) && r
                is Some ==> out.contains(r->0)
            &&& json::opt_alike(l, r) && l is Some ==> out.contains(l->0)
            &&& (l is None && json::opt_alike(r, was) || r is None && json::opt_alike(l, was) || l
                is None && r is None) ==> forall|v: JsonView|
                out.contains(v) && #[trigger] sync_merge::identity(v) == key ==> exists|
                    other: Seq<char>,
                | #[trigger]
                    is_contested(base, left, right, other)
            &&& l is None && r is Some && !json::opt_alike(r, was) && was is Some ==> {
                &&& out.contains(r->0)
                &&& merged.conflicts.len() > 0
            }
            &&& r is None && l is Some && !json::opt_alike(l, was) && was is Some ==> {
                &&& out.contains(l->0)
                &&& merged.conflicts.len() > 0
            }
        }),
{
    let b = Some(JsonView::Array(base));
    let x = JsonView::Array(left);
    let y = JsonView::Array(right);
    let all = sync_merge::identities(left).to_set() + sync_merge::identities(right).to_set();
    let keys = text::sorted(all);
    table::lemma_texts_sorted(all);
    lemma_item(left, key);
    lemma_item(right, key);
    lemma_item(base, key);
    lemma_item_unique(left, key, l, sync_merge::item_with(left, key));
    lemma_item_unique(right, key, r, sync_merge::item_with(right, key));
    lemma_item_unique(base, key, was, sync_merge::item_with(base, key));
    lemma_one_item(base, left, right, path, key);
    lemma_items_out(b, x, y, path, keys, keys.len());
    let merged = sync_merge::merged_lists(b, x, b, y, path);
    let out = merged.value->Array_0;
    if l is Some || r is Some {
        lemma_identity_listed(left, right, key);
        assert(keys.to_set().contains(key));
        let k = keys.index_of(key);
        assert(keys[k] == key);
    }
    if l is None && json::opt_alike(r, was) || r is None && json::opt_alike(l, was) || l is None
        && r is None {
        assert forall|v: JsonView|
            out.contains(v) && #[trigger] sync_merge::identity(v) == key implies exists|
                other: Seq<char>,
            | #[trigger]
                is_contested(base, left, right, other) by {
            let k = choose|k: int|
                0 <= k < keys.len() && sync_merge::merged_item(
                    b,
                    x,
                    b,
                    y,
                    path,
                    #[trigger] keys[k],
                ).value == Some(v);
            lemma_from_elsewhere(base, left, right, path, keys[k], key, v);
        }
    }
}

proof fn lemma_identity_listed(left: Seq<JsonView>, right: Seq<JsonView>, key: Seq<char>)
    requires
        sync_merge::item_with(left, key) is Some || sync_merge::item_with(right, key) is Some,
    ensures
        (sync_merge::identities(left).to_set() + sync_merge::identities(right).to_set()).contains(
            key,
        ),
{
    lemma_item(left, key);
    lemma_item(right, key);
    if sync_merge::item_with(left, key) is Some {
        let i = sync_merge::item_place(left, key);
        assert(sync_merge::identities(left)[i] == key);
    } else {
        let i = sync_merge::item_place(right, key);
        assert(sync_merge::identities(right)[i] == key);
    }
}

proof fn lemma_from_elsewhere(
    base: Seq<JsonView>,
    left: Seq<JsonView>,
    right: Seq<JsonView>,
    path: Seq<char>,
    other: Seq<char>,
    key: Seq<char>,
    v: JsonView,
)
    requires
        sync_merge::identity(v) == key,
        ({
            let b = Some(JsonView::Array(base));
            let x = JsonView::Array(left);
            let y = JsonView::Array(right);
            &&& sync_merge::merged_item(b, x, b, y, path, other).value == Some(v)
            &&& sync_merge::merged_item(b, x, b, y, path, key).value is None
        }),
    ensures
        is_contested(base, left, right, other),
{
    lemma_item(left, other);
    lemma_item(right, other);
    lemma_item(base, other);
    lemma_one_item(base, left, right, path, other);
    let l = sync_merge::item_with(left, other);
    let r = sync_merge::item_with(right, other);
    let was = sync_merge::item_with(base, other);
    if l == Some(v) || r == Some(v) {
        assert(other == key);
    } else {
        assert(is_item(left, other, Some(l->0)));
        assert(is_item(right, other, Some(r->0)));
        assert(is_item(base, other, was));
    }
}

// ---------------------------------------------------------------------------
// Lists of texts
// ---------------------------------------------------------------------------

/// Lists of texts are merged as sets: a text stays that both sides have, or that one side has
/// and the list that both were edited from does not. Nobody is asked.
pub proof fn law_text_lists_merge_as_sets(
    base: Seq<JsonView>,
    left: Seq<JsonView>,
    right: Seq<JsonView>,
    path: Seq<char>,
    said: Seq<char>,
)
    requires
        forall|i: int| 0 <= i < left.len() ==> (#[trigger] left[i]) is Text,
        forall|i: int| 0 <= i < right.len() ==> (#[trigger] right[i]) is Text,
    ensures
        ({
            let merged = sync_merge::merged_lists(
                Some(JsonView::Array(base)),
                JsonView::Array(left),
                Some(JsonView::Array(base)),
                JsonView::Array(right),
                path,
            );
            let one = JsonView::Text(said);
            &&& merged.value is Array
            &&& merged.conflicts.len() == 0
            &&& merged.value->Array_0.contains(one) <==> (if base.contains(one) {
                left.contains(one) && right.contains(one)
            } else {
                left.contains(one) || right.contains(one)
            })
        }),
{
    let b = Some(JsonView::Array(base));
    let was = sync_merge::texts_of(base);
    let l = sync_merge::texts_of(left);
    let r = sync_merge::texts_of(right);
    let kept = Set::new(
        |t: Seq<char>|
            sync_merge::stays(was.contains(t), l.contains(t), was.contains(t), r.contains(t)),
    );
    let merged = sync_merge::merged_text_lists(b, left, b, right, path);
    assert(kept.finite()) by {
        lemma_texts_finite(left);
        lemma_texts_finite(right);
        assert(kept.subset_of(l + r));
        vstd::set_lib::lemma_set_subset_finite(l + r, kept);
    }
    table::lemma_texts_sorted(kept);
    let list = text::sorted(kept);
    let out = list.map_values(|t: Seq<char>| JsonView::Text(t));
    let one = JsonView::Text(said);
    if out.contains(one) {
        let i = out.index_of(one);
        assert(list[i] == said);
        assert(list.to_set().contains(said));
    }
    if kept.contains(said) {
        assert(list.to_set().contains(said));
        let i = list.index_of(said);
        assert(out[i] == one);
    }
    assert(l.contains(said) == left.contains(one));
    assert(r.contains(said) == right.contains(one));
    assert(was.contains(said) == base.contains(one));
}

proof fn lemma_texts_finite(items: Seq<JsonView>)
    ensures
        sync_merge::texts_of(items).finite(),
    decreases items.len(),
{
    let all = sync_merge::texts_of(items);
    if items.len() == 0 {
        assert(all =~= Set::empty());
    } else {
        let head = items.drop_last();
        lemma_texts_finite(head);
        let less = sync_merge::texts_of(head);
        let more = match items.last() {
            JsonView::Text(t) => less.insert(t),
            _ => less,
        };
        assert(all.subset_of(more)) by {
            assert forall|t: Seq<char>| all.contains(t) implies more.contains(t) by {
                let i = items.index_of(JsonView::Text(t));
                if i < head.len() {
                    assert(head[i] == JsonView::Text(t));
                    assert(head.contains(JsonView::Text(t)));
                }
            }
        }
        vstd::set_lib::lemma_set_subset_finite(more, all);
    }
}

// ---------------------------------------------------------------------------
// Objects
// ---------------------------------------------------------------------------

proof fn lemma_lookup_push(entries: Seq<EntryView>, one: EntryView, key: Seq<char>)
    ensures
        json::lookup(entries.push(one), key) == (if json::lookup(entries, key) is Some {
            json::lookup(entries, key)
        } else if one.key == key {
            Some(one.value)
        } else {
            None
        }),
    decreases entries.len(),
{
    reveal_with_fuel(json::lookup, 2);
    if entries.len() > 0 {
        assert(entries.push(one)[0] == entries[0]);
        assert(entries.push(one).drop_first() =~= entries.drop_first().push(one));
        lemma_lookup_push(entries.drop_first(), one, key);
    } else {
        assert(entries.push(one).drop_first() =~= Seq::empty());
    }
}

proof fn lemma_members_out(
    base: Option<JsonView>,
    left: JsonView,
    right: JsonView,
    path: Seq<char>,
    keys: Seq<Seq<char>>,
    count: nat,
    key: Seq<char>,
)
    requires
        count <= keys.len(),
        keys.no_duplicates(),
    ensures
        ({
            let out = sync_merge::merged_members(base, left, base, right, path, keys, count);
            let part = sync_merge::merged_member(base, left, base, right, path, key);
            &&& keys.take(count as int).contains(key) ==> {
                &&& json::lookup(out.entries, key) == part.value
                &&& forall|c: JsonView| #[trigger]
                    part.conflicts.contains(c) ==> out.conflicts.contains(c)
            }
            &&& !keys.take(count as int).contains(key) ==> json::lookup(out.entries, key) is None
            &&& out.conflicts.len() > 0 ==> exists|k: int|
                0 <= k < count && sync_merge::merged_member(
                    base,
                    left,
                    base,
                    right,
                    path,
                    #[trigger] keys[k],
                ).conflicts.len() > 0
        }),
    decreases count,
{
    if count > 0 {
        let less = (count - 1) as nat;
        lemma_members_out(base, left, right, path, keys, less, key);
        let before = sync_merge::merged_members(base, left, base, right, path, keys, less);
        let out = sync_merge::merged_members(base, left, base, right, path, keys, count);
        let last = keys[less as int];
        let part = sync_merge::merged_member(base, left, base, right, path, last);
        table::lemma_take_more(keys, less as int);
        if part.value is Some {
            lemma_lookup_push(before.entries, json::entry(last, part.value->0), key);
        }
        if key == last {
            assert(!keys.take(less as int).contains(key)) by {
                if keys.take(less as int).contains(key) {
                    let i = keys.take(less as int).index_of(key);
                    assert(keys[i] == keys[less as int]);
                }
            }
            assert forall|c: JsonView| #[trigger] part.conflicts.contains(c) implies
                out.conflicts.contains(c) by {
                let i = part.conflicts.index_of(c);
                assert(out.conflicts[before.conflicts.len() + i] == c);
            }
        } else if keys.take(less as int).contains(key) {
            let own = sync_merge::merged_member(base, left, base, right, path, key);
            assert forall|c: JsonView| #[trigger] own.conflicts.contains(c) implies
                out.conflicts.contains(c) by {
                assert(before.conflicts.contains(c));
                let i = before.conflicts.index_of(c);
                assert(out.conflicts[i] == c);
            }
        }
        if out.conflicts.len() > 0 && before.conflicts.len() == 0 {
            assert(part.conflicts.len() > 0);
            assert(keys[less as int] == last);
        }
    }
}

/// The path of a conflict.
pub open spec fn conflict_path(conflict: JsonView) -> JsonView {
    conflict.at("path"@)
}

/// What becomes of one member.
proof fn lemma_one_member(
    base: Option<JsonView>,
    left: JsonView,
    right: JsonView,
    path: Seq<char>,
    key: Seq<char>,
)
    requires
        left is Object,
        right is Object,
    ensures
        ({
            let part = sync_merge::merged_member(base, left, base, right, path, key);
            let l = left.get(key);
            let r = right.get(key);
            let was = match base {
                Some(value) => value.get(key),
                None => None,
            };
            let inner = if path.len() == 0 {
                key
            } else {
                path + "."@ + key
            };
            &&& l is Some && r is Some ==> {
                let both = sync_merge::merged_value(was, l->0, was, r->0, inner);
                &&& part.value == Some(both.value)
                &&& part.conflicts == both.conflicts
            }
            &&& l is None && r is None ==> part.value is None
            &&& (l is None) != (r is None) ==> {
                &&& json::opt_alike(l, was) && !json::opt_alike(r, was) ==> part.value == r
                &&& json::opt_alike(r, was) && !json::opt_alike(l, was) ==> part.value == l
                &&& !json::opt_alike(l, was) && !json::opt_alike(r, was) ==> {
                    &&& part.value == (if l is Some {
                        l
                    } else {
                        r
                    })
                    &&& part.conflicts.len() == 1
                    &&& conflict_path(part.conflicts[0]) == JsonView::Text(inner)
                }
            }
        }),
{
    lemma_place(left->Object_0, key);
    let l = left.get(key);
    let r = right.get(key);
    let was = sync_merge::part_of(base, key);
    if (l is None) != (r is None) {
        lemma_conflict_path(
            sync_merge::member_path(path, key),
            sync_merge::common(was, was),
            (if l is Some {
                l
            } else {
                r
            })->0,
            JsonView::Null,
        );
    }
}

/// Of two values one of which was left alone the other stands, and of two that are alike the
/// left one.
proof fn lemma_settled(was: Option<JsonView>, l: JsonView, r: JsonView, path: Seq<char>)
    ensures
        json::alike(l, r) ==> sync_merge::merged_value(was, l, was, r, path).value == l,
        json::opt_alike(was, Some(l)) && !json::alike(l, r) ==> sync_merge::merged_value(
            was,
            l,
            was,
            r,
            path,
        ).value == (if json::opt_alike(was, Some(r)) {
            l
        } else {
            r
        }),
        json::opt_alike(was, Some(r)) && !json::alike(l, r) ==> sync_merge::merged_value(
            was,
            l,
            was,
            r,
            path,
        ).value == l,
{
    if was is Some {
        json::lemma_alike_itself(was->0);
    }
}

/// Two objects that both changed are merged member by member, against the object that both were
/// edited from: a member that only one side changed is as that side has it, gone where that
/// side removed it, and one that both sides have alike stays. A member that one side removed
/// and the other changed stays, and somebody is asked. Of a member that both changed the
/// merge is that of its two values.
pub proof fn law_objects_merge_member_by_member(
    base: Option<JsonView>,
    left: JsonView,
    right: JsonView,
    path: Seq<char>,
    key: Seq<char>,
)
    requires
        left is Object,
        right is Object,
        !json::alike(left, right),
        !json::opt_alike(base, Some(left)),
        !json::opt_alike(base, Some(right)),
    ensures
        ({
            let merged = sync_merge::merged_value(base, left, base, right, path);
            let l = left.get(key);
            let r = right.get(key);
            let was = match base {
                Some(value) => value.get(key),
                None => None,
            };
            let inner = if path.len() == 0 {
                key
            } else {
                path + "."@ + key
            };
            &&& merged.value is Object
            &&& l is Some && r is Some && json::opt_alike(l, r) ==> merged.value.get(key) == l
            &&& json::opt_alike(l, was) && !json::opt_alike(r, was) && !json::opt_alike(l, r)
                ==> merged.value.get(key) == r
            &&& json::opt_alike(r, was) && !json::opt_alike(l, was) ==> merged.value.get(key) == l
            &&& l is None && r is None ==> merged.value.get(key) is None
            &&& l is Some && r is None && !json::opt_alike(l, was) && was is Some ==> {
                &&& merged.value.get(key) == l
                &&& exists|c: JsonView| #[trigger]
                    merged.conflicts.contains(c) && conflict_path(c) == JsonView::Text(inner)
            }
            &&& l is None && r is Some && !json::opt_alike(r, was) && was is Some ==> {
                &&& merged.value.get(key) == r
                &&& exists|c: JsonView| #[trigger]
                    merged.conflicts.contains(c) && conflict_path(c) == JsonView::Text(inner)
            }
            &&& l is Some && r is Some ==> {
                let both = sync_merge::merged_value(was, l->0, was, r->0, inner);
                &&& merged.value.get(key) == Some(both.value)
                &&& forall|c: JsonView| #[trigger]
                    both.conflicts.contains(c) ==> merged.conflicts.contains(c)
            }
        }),
{
    let x = json::entry_keys(left->Object_0).to_set();
    let y = json::entry_keys(right->Object_0).to_set();
    let keys = sync_merge::either_keys(left, right);
    table::lemma_texts_sorted(x + y);
    assert(keys.take(keys.len() as int) =~= keys);
    lemma_members_out(base, left, right, path, keys, keys.len(), key);
    lemma_place(left->Object_0, key);
    lemma_place(right->Object_0, key);
    lemma_one_member(base, left, right, path, key);
    lemma_both_changed(base, left, right, path);
    let l = left.get(key);
    let r = right.get(key);
    let was = match base {
        Some(value) => value.get(key),
        None => None,
    };
    assert(keys.contains(key) == keys.to_set().contains(key));
    let part = sync_merge::merged_member(base, left, base, right, path, key);
    let merged = sync_merge::merged_value(base, left, base, right, path);
    if l is Some && r is Some {
        lemma_settled(was, l->0, r->0, sync_merge::member_path(path, key));
        if was is Some {
            json::lemma_alike_turned(was->0, l->0);
            json::lemma_alike_turned(was->0, r->0);
        }
        json::lemma_alike_turned(l->0, r->0);
    } else if part.conflicts.len() > 0 {
        let c = part.conflicts[0];
        assert(part.conflicts.contains(c));
        assert(merged.conflicts.contains(c));
    }
}

proof fn lemma_both_changed(
    base: Option<JsonView>,
    left: JsonView,
    right: JsonView,
    path: Seq<char>,
)
    requires
        left is Object,
        right is Object,
        !json::alike(left, right),
        !json::opt_alike(base, Some(left)),
        !json::opt_alike(base, Some(right)),
    ensures
        ({
            let merged = sync_merge::merged_value(base, left, base, right, path);
            let keys = sync_merge::either_keys(left, right);
            let members = sync_merge::merged_members(
                base,
                left,
                base,
                right,
                path,
                keys,
                keys.len(),
            );
            merged.value == JsonView::Object(members.entries) && merged.conflicts
                == members.conflicts
        }),
{
}

proof fn lemma_conflict_path(
    path: Seq<char>,
    base: Option<JsonView>,
    left: JsonView,
    right: JsonView,
)
    ensures
        conflict_path(sync_merge::field_conflict(path, base, left, right)) == JsonView::Text(path),
        sync_merge::field_conflict(path, base, left, right).at("candidates"@) is Array,
        ({
            let shown = sync_merge::field_conflict(path, base, left, right).at(
                "candidates"@,
            )->Array_0;
            &&& shown.contains(sync_merge::bounded(left)) || json::alike(
                sync_merge::bounded(left),
                sync_merge::bounded(right),
            )
            &&& shown.contains(sync_merge::bounded(right)) || json::alike(
                sync_merge::bounded(left),
                sync_merge::bounded(right),
            )
        }),
        sync_merge::field_conflict(path, base, left, right).at("base"@) == (match base {
            Some(value) => sync_merge::bounded(value),
            None => JsonView::Null,
        }),
{
    reveal_strlit("base");
    reveal_strlit("candidates");
    reveal_strlit("path");
    assert("base"@.len() == 4 && "base"@[0] == 'b');
    assert("path"@.len() == 4 && "path"@[0] == 'p');
    assert("candidates"@.len() == 10);
    let entries = sync_merge::field_conflict(path, base, left, right)->Object_0;
    reveal_with_fuel(json::lookup, 4);
    assert(entries.drop_first()[0] == entries[1]);
    assert(entries.drop_first().drop_first()[0] == entries[2]);
    let shown = sync_merge::candidates(left, right);
    let a = sync_merge::bounded(left);
    let b = sync_merge::bounded(right);
    if !json::alike(a, b) {
        if text::at_most(json::canonical_text(a), json::canonical_text(b)) {
            assert(shown[0] == a && shown[1] == b);
        } else {
            assert(shown[1] == a && shown[0] == b);
        }
    }
}

proof fn lemma_place(entries: Seq<EntryView>, key: Seq<char>)
    ensures
        -1 <= sync_merge::key_place(entries, key) < entries.len(),
        (sync_merge::key_place(entries, key) >= 0) == json::lookup(entries, key) is Some,
        sync_merge::key_place(entries, key) >= 0 ==> json::lookup(entries, key) == Some(
            entries[sync_merge::key_place(entries, key)].value,
        ),
        json::entry_keys(entries).to_set().contains(key) == json::lookup(entries, key) is Some,
    decreases entries.len(),
{
    let keys = json::entry_keys(entries);
    if entries.len() > 0 {
        let rest = entries.drop_first();
        lemma_place(rest, key);
        assert(keys[0] == entries[0].key);
        if entries[0].key == key {
            assert(keys.to_set().contains(key));
        } else {
            if keys.contains(key) {
                let i = keys.index_of(key);
                assert(json::entry_keys(rest)[i - 1] == key);
                assert(json::entry_keys(rest).to_set().contains(key));
            }
            if json::entry_keys(rest).to_set().contains(key) {
                let i = json::entry_keys(rest).index_of(key);
                assert(keys[i + 1] == key);
            }
        }
    }
}

// ---------------------------------------------------------------------------
// Plain values
// ---------------------------------------------------------------------------

/// Two plain values that both changed, each in another way: of a time of change the later one
/// stands, of a time of creation the earlier one, of revisions the greater one. Of anything
/// else one of the two stands, and somebody is asked: the conflict names the place, what both
/// were edited from, and both values.
pub proof fn law_plain_values_merge(
    base: Option<JsonView>,
    left: JsonView,
    right: JsonView,
    path: Seq<char>,
)
    requires
        !(left is Object && right is Object),
        !(left is Array && right is Array),
        !json::alike(left, right),
        !json::opt_alike(base, Some(left)),
        !json::opt_alike(base, Some(right)),
    ensures
        ({
            let merged = sync_merge::merged_value(base, left, base, right, path);
            let other = if merged.value == left {
                right
            } else {
                left
            };
            let later = "updated_at"@.is_suffix_of(path) || "recorded_at"@.is_suffix_of(path);
            let earlier = "created_at"@.is_suffix_of(path);
            let greater = "revision"@.is_suffix_of(path) && left is Int && right is Int;
            let a = json::canonical_text(merged.value);
            let b = json::canonical_text(other);
            &&& merged.value == left || merged.value == right
            &&& later ==> merged.conflicts.len() == 0 && !text::before(a, b)
            &&& earlier && !later ==> merged.conflicts.len() == 0 && !text::before(b, a)
            &&& greater && !later && !earlier ==> merged.conflicts.len() == 0
                && merged.value->Int_0 >= left->Int_0 && merged.value->Int_0 >= right->Int_0
            &&& !later && !earlier && !"revision"@.is_suffix_of(path) ==> {
                &&& merged.conflicts.len() == 1
                &&& conflict_path(merged.conflicts[0]) == JsonView::Text(path)
                &&& merged.conflicts[0].at("base"@) == (match base {
                    Some(value) => sync_merge::bounded(value),
                    None => JsonView::Null,
                })
                &&& !json::alike(sync_merge::bounded(left), sync_merge::bounded(right)) ==> {
                    let shown = merged.conflicts[0].at("candidates"@)->Array_0;
                    shown.contains(sync_merge::bounded(left)) && shown.contains(
                        sync_merge::bounded(right),
                    )
                }
            }
        }),
{
    if base is Some {
        json::lemma_alike_itself(base->0);
    }
    lemma_conflict_path(path, base, left, right);
    json::lemma_alike_itself(left);
    text::lemma_before_total(json::canonical_text(left), json::canonical_text(right));
    if text::before(json::canonical_text(left), json::canonical_text(right)) {
        text::lemma_before_asymmetric(json::canonical_text(left), json::canonical_text(right));
    }
    if text::before(json::canonical_text(right), json::canonical_text(left)) {
        text::lemma_before_asymmetric(json::canonical_text(right), json::canonical_text(left));
    }
    text::lemma_before_irreflexive(json::canonical_text(left));
}

/// What a conflict shows of a value: the value itself, unless its text has more than 16384
/// bytes; then how many they are, and their digest.
pub proof fn law_large_values_are_shown_by_digest(value: JsonView)
    ensures
        text::byte_count(json::canonical_text(value)) <= 16384 ==> sync_merge::bounded(value)
            == value,
        text::byte_count(json::canonical_text(value)) > 16384 ==> {
            let shown = sync_merge::bounded(value);
            &&& shown.at("bytes"@) == json::count_view(text::byte_count(json::canonical_text(value)))
            &&& shown.at("sha256"@) == JsonView::Text(
                digest::text_digest(json::canonical_text(value)),
            )
            &&& shown.at("truncated"@) == JsonView::Bool(true)
        },
{
    reveal_strlit("bytes");
    reveal_strlit("sha256");
    reveal_strlit("truncated");
    assert("bytes"@.len() == 5);
    assert("sha256"@.len() == 6);
    assert("truncated"@.len() == 9);
    if text::byte_count(json::canonical_text(value)) > 16384 {
        let entries = sync_merge::bounded(value)->Object_0;
        reveal_with_fuel(json::lookup, 4);
        assert(entries.drop_first()[0] == entries[1]);
        assert(entries.drop_first().drop_first()[0] == entries[2]);
    }
}

// ---------------------------------------------------------------------------
// Replicas
// ---------------------------------------------------------------------------

/// Kinds that are merged without asking: whatever either side has of them stays.
pub open spec fn merges_by_itself(kind: Seq<char>) -> bool {
    seq![
        "meta"@,
        "source"@,
        "tag"@,
        "ingest"@,
        "retrieval_weight"@,
        "retrieval_feedback"@,
        "semantic_relation"@,
        "work_audit"@,
        "draft_intent"@,
    ].contains(kind)
}

proof fn lemma_by_itself(kind: Seq<char>)
    ensures
        merges_by_itself(kind) == sync_state::is_mechanical(kind),
{
    let all = seq![
        "meta"@,
        "source"@,
        "tag"@,
        "ingest"@,
        "retrieval_weight"@,
        "retrieval_feedback"@,
        "semantic_relation"@,
        "work_audit"@,
        "draft_intent"@,
    ];
    if sync_state::is_mechanical(kind) {
        assert(all[0] == "meta"@ && all[1] == "source"@ && all[2] == "tag"@ && all[3] == "ingest"@
            && all[4] == "retrieval_weight"@ && all[5] == "retrieval_feedback"@ && all[6]
            == "semantic_relation"@ && all[7] == "work_audit"@ && all[8] == "draft_intent"@);
    }
    if all.contains(kind) {
        let i = all.index_of(kind);
        assert(all[i] == kind);
    }
}

/// What the merge of one object of two replicas comes to, against what both had. What both have
/// alike stays. What one side left alone is as the other side has it, and gone where the other
/// side removed it; but what merges by itself is never lost, and neither is a memory that one
/// side left alone. Where one side removed what the other changed, the changed one is kept and
/// somebody is asked; where both changed it, their values are merged, and somebody is asked
/// where that meets a conflict.
pub proof fn law_objects_of_replicas_merge(
    kind: Seq<char>,
    key: Seq<char>,
    base: Option<JsonView>,
    left: Option<JsonView>,
    right: Option<JsonView>,
)
    ensures
        ({
            let merge = sync_state::merged_object(kind, key, base, left, base, right);
            let left_alone = json::opt_alike(left, base);
            let right_alone = json::opt_alike(right, base);
            let lasting = merges_by_itself(kind);
            let either = if left is Some {
                left
            } else {
                right
            };
            &&& json::opt_alike(left, right) ==> merge.value == left && merge.conflict is None
            &&& !lasting && kind != "memory"@ && !json::opt_alike(left, right) ==> {
                &&& left_alone ==> merge.value == right && merge.conflict is None
                &&& right_alone && !left_alone ==> merge.value == left && merge.conflict is None
            }
            &&& lasting ==> merge.conflict is None
            &&& lasting && (left is None || right is None) ==> merge.value == either
            &&& kind == "memory"@ && (left is None || right is None) && (left_alone || right_alone)
                ==> merge.value == either && merge.conflict is None
            &&& left is Some && right is Some && !json::opt_alike(left, right) && (lasting
                || !left_alone && !right_alone) ==> {
                let merged = sync_merge::merged_value(
                    base,
                    left->0,
                    base,
                    right->0,
                    Seq::empty(),
                );
                &&& merge.value == Some(merged.value)
                &&& !lasting ==> (merge.conflict is Some <==> merged.conflicts.len() > 0)
                &&& merge.conflict is Some ==> {
                    &&& merge.conflict->0.at("conflict"@) == JsonView::Text("concurrent_edit"@)
                    &&& merge.conflict->0.at("fields"@) == JsonView::Array(merged.conflicts)
                    &&& merge.candidates == seq![left->0, right->0]
                }
            }
            &&& !lasting && (left is None) != (right is None) && !left_alone && !right_alone ==> {
                &&& merge.value == either
                &&& merge.conflict is Some
                &&& merge.conflict->0.at("conflict"@) == JsonView::Text("delete_vs_edit"@)
            }
            &&& merge.conflict is Some ==> {
                &&& merge.conflict->0.at("kind"@) == JsonView::Text(kind)
                &&& merge.conflict->0.at("logical_key"@) == JsonView::Text(key)
            }
        }),
{
    lemma_by_itself(kind);
    if base is Some {
        json::lemma_alike_itself(base->0);
    }
    lemma_memory_kind();
    let merge = sync_state::merged_object(kind, key, base, left, base, right);
    if merge.conflict is Some {
        let c = merge.conflict->0;
        lemma_conflict_parts(c);
    }
}

proof fn lemma_memory_kind()
    ensures
        !merges_by_itself("memory"@),
{
    lemma_by_itself("memory"@);
    reveal_strlit("memory");
    reveal_strlit("meta");
    reveal_strlit("source");
    reveal_strlit("tag");
    reveal_strlit("ingest");
    reveal_strlit("retrieval_weight");
    reveal_strlit("retrieval_feedback");
    reveal_strlit("semantic_relation");
    reveal_strlit("work_audit");
    reveal_strlit("draft_intent");
    assert("memory"@.len() == 6 && "memory"@[0] == 'm');
    assert("meta"@.len() == 4);
    assert("source"@.len() == 6 && "source"@[0] == 's');
    assert("tag"@.len() == 3);
    assert("ingest"@.len() == 6 && "ingest"@[0] == 'i');
    assert("retrieval_weight"@.len() == 16);
    assert("retrieval_feedback"@.len() == 18);
    assert("semantic_relation"@.len() == 17);
    assert("work_audit"@.len() == 10);
    assert("draft_intent"@.len() == 12);
}

proof fn lemma_conflict_parts(c: JsonView)
    requires
        c is Object,
        c->Object_0.len() == 5,
        c->Object_0[0].key == "candidate_refs"@,
        c->Object_0[1].key == "conflict"@,
        c->Object_0[2].key == "fields"@,
        c->Object_0[3].key == "kind"@,
        c->Object_0[4].key == "logical_key"@,
    ensures
        c.at("conflict"@) == c->Object_0[1].value,
        c.at("fields"@) == c->Object_0[2].value,
        c.at("kind"@) == c->Object_0[3].value,
        c.at("logical_key"@) == c->Object_0[4].value,
{
    reveal_strlit("candidate_refs");
    reveal_strlit("conflict");
    reveal_strlit("fields");
    reveal_strlit("kind");
    reveal_strlit("logical_key");
    assert("candidate_refs"@.len() == 14);
    assert("conflict"@.len() == 8);
    assert("fields"@.len() == 6);
    assert("kind"@.len() == 4);
    assert("logical_key"@.len() == 11);
    let e = c->Object_0;
    reveal_with_fuel(json::lookup, 6);
    assert(e.drop_first()[0] == e[1]);
    assert(e.drop_first().drop_first()[0] == e[2]);
    assert(e.drop_first().drop_first().drop_first()[0] == e[3]);
    assert(e.drop_first().drop_first().drop_first().drop_first()[0] == e[4]);
}

/// Both sides made something under one key that neither had: one of the two is kept, and
/// somebody is asked.
pub proof fn law_independent_creations_ask(
    kind: Seq<char>,
    key: Seq<char>,
    base: JsonView,
    left: JsonView,
    right: JsonView,
)
    requires
        !merges_by_itself(kind),
        !json::alike(left, right),
    ensures
        ({
            let merge = sync_state::merged_object(
                kind,
                key,
                Some(base),
                Some(left),
                None,
                Some(right),
            );
            &&& merge.value == Some(left) || merge.value == Some(right)
            &&& merge.conflict is Some
            &&& merge.conflict->0.at("conflict"@) == JsonView::Text("independent_create"@)
        }),
{
    lemma_by_itself(kind);
    let merge = sync_state::merged_object(kind, key, Some(base), Some(left), None, Some(right));
    lemma_conflict_parts(merge.conflict->0);
}

proof fn lemma_states_out(
    base: Map<PairView, JsonView>,
    left: Map<PairView, JsonView>,
    right: Map<PairView, JsonView>,
    keys: Seq<PairView>,
    count: nat,
    key: PairView,
)
    requires
        count <= keys.len(),
        keys.no_duplicates(),
    ensures
        sync_state::merged_states(base, left, base, right, keys, count) matches Ok(done) ==> {
            let merge = sync_state::merged_key(base, left, base, right, key);
            &&& keys.take(count as int).contains(key) ==> {
                &&& sync_state::object_at(done.objects, key) == merge.value
                &&& merge.conflict is Some ==> done.conflicts.contains(
                    sync_state::identified(merge.conflict->0),
                )
                &&& forall|c: JsonView| #[trigger]
                    merge.candidates.contains(c) ==> {
                        &&& done.candidates.dom().contains(sync_state::candidate_ref(c))
                        &&& done.candidates[sync_state::candidate_ref(c)]
                            == vstd::utf8::encode_utf8(json::canonical_text(c))
                    }
            }
            &&& !keys.take(count as int).contains(key) ==> !done.objects.dom().contains(key)
            &&& forall|c: JsonView| #[trigger]
                done.conflicts.contains(c) ==> exists|k: int|
                    0 <= k < count && {
                        let one = sync_state::merged_key(
                            base,
                            left,
                            base,
                            right,
                            #[trigger] keys[k],
                        );
                        one.conflict is Some && c == sync_state::identified(one.conflict->0)
                    }
        },
    decreases count,
{
    if count > 0 {
        let less = (count - 1) as nat;
        lemma_states_out(base, left, right, keys, less, key);
        table::lemma_take_more(keys, less as int);
        let last = keys[less as int];
        if let Ok(done) = sync_state::merged_states(base, left, base, right, keys, count) {
            let before = sync_state::merged_states(base, left, base, right, keys, less)->Ok_0;
            let merge = sync_state::merged_key(base, left, base, right, last);
            lemma_kept(before.candidates, merge.candidates, merge.candidates.len());
            if key == last {
                assert(!keys.take(less as int).contains(key)) by {
                    if keys.take(less as int).contains(key) {
                        let i = keys.take(less as int).index_of(key);
                        assert(keys[i] == keys[less as int]);
                    }
                }
                if merge.conflict is Some {
                    assert(done.conflicts[before.conflicts.len() as int]
                        == sync_state::identified(merge.conflict->0));
                }
            } else {
                let own = sync_state::merged_key(base, left, base, right, key);
                if keys.take(less as int).contains(key) && own.conflict is Some {
                    let c = sync_state::identified(own.conflict->0);
                    let i = before.conflicts.index_of(c);
                    assert(done.conflicts[i] == c);
                }
            }
            assert forall|c: JsonView| #[trigger] done.conflicts.contains(c) implies exists|k: int|
                0 <= k < count && {
                    let one = sync_state::merged_key(base, left, base, right, #[trigger] keys[k]);
                    one.conflict is Some && c == sync_state::identified(one.conflict->0)
                } by {
                let i = done.conflicts.index_of(c);
                if i < before.conflicts.len() {
                    assert(before.conflicts[i] == c);
                    assert(before.conflicts.contains(c));
                } else {
                    assert(keys[less as int] == last);
                }
            }
        }
    }
}

/// Candidates that are kept stay kept.
proof fn lemma_kept(kept: Map<Seq<char>, Seq<u8>>, candidates: Seq<JsonView>, count: nat)
    requires
        count <= candidates.len(),
    ensures
        sync_state::with_candidates(kept, candidates, count) matches Some(after) ==> {
            &&& forall|name: Seq<char>| #[trigger]
                kept.dom().contains(name) ==> after.dom().contains(name) && after[name]
                    == kept[name]
            &&& forall|c: JsonView| #[trigger]
                candidates.take(count as int).contains(c) ==> {
                    &&& after.dom().contains(sync_state::candidate_ref(c))
                    &&& after[sync_state::candidate_ref(c)] == vstd::utf8::encode_utf8(
                        json::canonical_text(c),
                    )
                }
        },
        candidates.take(candidates.len() as int) == candidates,
    decreases count,
{
    assert(candidates.take(candidates.len() as int) =~= candidates);
    if count > 0 {
        let less = (count - 1) as nat;
        lemma_kept(kept, candidates, less);
        if let Some(after) = sync_state::with_candidates(kept, candidates, count) {
            assert forall|c: JsonView| #[trigger]
                candidates.take(count as int).contains(c) implies {
                &&& after.dom().contains(sync_state::candidate_ref(c))
                &&& after[sync_state::candidate_ref(c)] == vstd::utf8::encode_utf8(
                    json::canonical_text(c),
                )
            } by {
                let i = candidates.take(count as int).index_of(c);
                if i < less {
                    assert(candidates.take(less as int)[i] == c);
                    assert(candidates.take(less as int).contains(c));
                }
            }
        }
    }
}

/// Two replicas are merged key by key: each key that any of them has is decided by itself, as
/// one object is. Each conflict is reported, and no other, and what the sides had is kept under
/// the names that a conflict gives its candidates.
pub proof fn law_replicas_merge_key_by_key(
    base: Map<PairView, JsonView>,
    left: Map<PairView, JsonView>,
    right: Map<PairView, JsonView>,
    key: PairView,
)
    requires
        base.dom().finite(),
        left.dom().finite(),
        right.dom().finite(),
    ensures
        ({
            let keys = sync_state::all_keys(base, left, base, right);
            sync_state::merged_states(base, left, base, right, keys, keys.len()) matches Ok(done)
                ==> {
                let at = |objects: Map<PairView, JsonView>|
                    if objects.dom().contains(key) {
                        Some(objects[key])
                    } else {
                        None::<JsonView>
                    };
                let merge = sync_state::merged_object(
                    key.first,
                    key.second,
                    at(base),
                    at(left),
                    at(base),
                    at(right),
                );
                &&& base.dom().contains(key) || left.dom().contains(key) || right.dom().contains(
                    key,
                ) ==> {
                    &&& at(done.objects) == merge.value
                    &&& merge.conflict is Some ==> done.conflicts.contains(
                        sync_state::identified(merge.conflict->0),
                    )
                    &&& forall|c: JsonView| #[trigger]
                        merge.candidates.contains(c) ==> done.candidates.dom().contains(
                            "sync-candidate:"@ + digest::text_digest(json::canonical_text(c)),
                        )
                }
                &&& !base.dom().contains(key) && !left.dom().contains(key) && !right.dom().contains(
                    key,
                ) ==> !done.objects.dom().contains(key)
                &&& forall|c: JsonView| #[trigger]
                    done.conflicts.contains(c) ==> exists|k: int|
                        0 <= k < keys.len() && {
                            let one = sync_state::merged_key(
                                base,
                                left,
                                base,
                                right,
                                #[trigger] keys[k],
                            );
                            one.conflict is Some && c == sync_state::identified(one.conflict->0)
                        }
            }
        }),
{
    let all = base.dom() + left.dom() + base.dom() + right.dom();
    let keys = sync_state::all_keys(base, left, base, right);
    table::lemma_has_order::<Pair>(all);
    table::lemma_in_order_distinct::<Pair>(keys);
    assert(keys.take(keys.len() as int) =~= keys);
    assert(keys.contains(key) == keys.to_set().contains(key));
    lemma_states_out(base, left, right, keys, keys.len(), key);
}

} // verus!
