//! What becomes of two replicas' objects when a conflict is settled.
use crate::error::{AppErrorView, ErrorCode};
use crate::json;
use crate::json::JsonView;
use crate::sync_resolve;
use crate::sync_resolve::{DecisionsView, FieldStep, SettledView};
use crate::sync_variant;
use crate::sync_variant::MemoryMarkView;
use crate::table;
use crate::table::{PairView, TripleView};
use crate::text;
use vstd::prelude::*;

verus! {

// ---------------------------------------------------------------------------
// Choosing a candidate
// ---------------------------------------------------------------------------

/// What stands in a value at the end of a path of members.
pub open spec fn at_path(root: JsonView, parts: Seq<Seq<char>>) -> Option<JsonView>
    decreases parts.len(),
{
    if parts.len() == 0 {
        Some(root)
    } else {
        match root.get(parts[0]) {
            Some(child) => at_path(child, parts.drop_first()),
            None => None,
        }
    }
}

/// A field that is set is read back, and the members beside its path stay.
pub proof fn law_field_is_set(root: JsonView, parts: Seq<Seq<char>>, value: JsonView)
    ensures
        sync_resolve::with_field(root, parts, value) matches Ok(after) ==> {
            &&& parts.len() > 0
            &&& at_path(after, parts) == Some(value)
            &&& forall|other: Seq<char>|
                other != parts[0] ==> #[trigger] after.get(other) == root.get(other)
        },
    decreases parts.len(),
{
    if let Ok(after) = sync_resolve::with_field(root, parts, value) {
        if parts.len() == 1 {
            json::lemma_with_entry(root->Object_0, parts[0], value);
            assert(at_path(value, parts.drop_first()) == Some(value));
        } else {
            let child = root.get(parts[0])->0;
            law_field_is_set(child, parts.drop_first(), value);
            let inner = sync_resolve::with_field(child, parts.drop_first(), value)->Ok_0;
            json::lemma_with_entry(root->Object_0, parts[0], inner);
        }
    }
}

/// The candidate that is chosen for a field is the one that stands there afterwards; where it
/// was chosen for the object as a whole, the object is that candidate, or is gone where the
/// candidate is a deletion. A choice is used up, and one that is missing is asked for.
pub proof fn law_choice_is_taken(at: PairView, field: JsonView, step: FieldStep)
    ensures
        sync_resolve::with_choice(at, field, step) matches Ok(after) ==> {
            let path = field.at("path"@)->Text_0;
            let name = TripleView { first: at.first, second: at.second, third: path };
            let chosen = field.at("candidates"@)->Array_0[step.picks[name] as int];
            &&& field.at("path"@) is Text
            &&& step.picks.dom().contains(name)
            &&& after.picks == step.picks.remove(name)
            &&& field.at("candidates"@) is Array
            &&& step.picks[name] < field.at("candidates"@)->Array_0.len()
            &&& chosen.get("truncated"@) != Some(JsonView::Bool(true))
            &&& path == "$object"@ && chosen is Null ==> after.payload is None
            &&& path == "$object"@ && chosen !is Null ==> after.payload == Some(chosen)
            &&& path != "$object"@ ==> {
                &&& step.payload is Some
                &&& after.payload matches Some(payload)
                &&& at_path(payload, text::split_on(path, '.')) == Some(chosen)
                &&& forall|other: Seq<char>|
                    other != text::split_on(path, '.')[0] ==> #[trigger] payload.get(other)
                        == step.payload->0.get(other)
            }
        },
        field.at("path"@) is Text && !step.picks.dom().contains(
            TripleView {
                first: at.first,
                second: at.second,
                third: field.at("path"@)->Text_0,
            },
        ) ==> (sync_resolve::with_choice(at, field, step) matches Err(e) && e.code
            == ErrorCode::SyncResolutionIncomplete),
{
    if let Ok(after) = sync_resolve::with_choice(at, field, step) {
        let path = field.at("path"@)->Text_0;
        let name = TripleView { first: at.first, second: at.second, third: path };
        let chosen = field.at("candidates"@)->Array_0[step.picks[name] as int];
        if path != "$object"@ {
            law_field_is_set(step.payload->0, text::split_on(path, '.'), chosen);
        }
    }
}

/// A decision is about a conflict as it is: by its kind, its key and its identifier. It chooses
/// the first or the second candidate of a field, once, or keeps both objects, once.
pub proof fn law_decision_is_taken(
    ids: Map<PairView, Seq<char>>,
    decision: JsonView,
    so_far: DecisionsView,
)
    ensures
        sync_resolve::with_decision(ids, decision, so_far) matches Ok(after) ==> {
            let at = PairView {
                first: decision.at("kind"@)->Text_0,
                second: decision.at("logical_key"@)->Text_0,
            };
            let both = decision.at("strategy"@) == JsonView::Text("preserve_both"@);
            let field = TripleView {
                first: at.first,
                second: at.second,
                third: decision.at("path"@)->Text_0,
            };
            &&& ids.dom().contains(at)
            &&& decision.at("conflict_id"@) == JsonView::Text(ids[at])
            &&& both ==> {
                &&& !so_far.preserved.dom().contains(at)
                &&& after.preserved == so_far.preserved.insert(at, true)
                &&& after.picks == so_far.picks
            }
            &&& !both ==> {
                &&& !so_far.picks.dom().contains(field)
                &&& decision.at("candidate"@) == JsonView::Int(0) || decision.at("candidate"@)
                    == JsonView::Int(1)
                &&& after.picks.dom() == so_far.picks.dom().insert(field)
                &&& decision.at("candidate"@) == JsonView::Int(after.picks[field] as int)
                &&& after.preserved == so_far.preserved
            }
        },
{
    if let Ok(after) = sync_resolve::with_decision(ids, decision, so_far) {
        if decision.at("strategy"@) != JsonView::Text("preserve_both"@) {
            let field = TripleView {
                first: decision.at("kind"@)->Text_0,
                second: decision.at("logical_key"@)->Text_0,
                third: decision.at("path"@)->Text_0,
            };
            assert(after.picks.dom() =~= so_far.picks.dom().insert(field));
        }
    }
}

proof fn lemma_settled_others(
    blobs: Map<Seq<char>, Seq<u8>>,
    marks: Map<Seq<char>, MemoryMarkView>,
    conflicts: Seq<JsonView>,
    start: SettledView,
    count: nat,
    other: PairView,
)
    requires
        count <= conflicts.len(),
        start.preserved.dom() =~= Set::<PairView>::empty(),
        forall|k: int|
            0 <= k < conflicts.len() ==> sync_resolve::conflict_key(#[trigger] conflicts[k])
                != other,
    ensures
        sync_resolve::settled(blobs, marks, conflicts, start, count) matches Ok(state) ==> {
            &&& state.preserved == start.preserved
            &&& state.objects.dom().contains(other) == start.objects.dom().contains(other)
            &&& state.objects.dom().contains(other) ==> state.objects[other]
                == start.objects[other]
        },
    decreases count,
{
    if count > 0 {
        lemma_settled_others(blobs, marks, conflicts, start, (count - 1) as nat, other);
    }
}

/// Where every decision is for a candidate, the objects that no conflict is about stay as they
/// are.
pub proof fn law_other_objects_stay(
    objects: Map<PairView, JsonView>,
    blobs: Map<Seq<char>, Seq<u8>>,
    marks: Map<Seq<char>, MemoryMarkView>,
    conflicts: Seq<JsonView>,
    resolution: JsonView,
    other: PairView,
)
    requires
        forall|k: int|
            0 <= k < conflicts.len() ==> {
                let conflict = #[trigger] conflicts[k];
                conflict.at("kind"@)->Text_0 != other.first || conflict.at("logical_key"@)->Text_0
                    != other.second
            },
        forall|k: int|
            0 <= k < resolution.at("decisions"@)->Array_0.len() ==> (
            #[trigger] resolution.at("decisions"@)->Array_0[k]).at("strategy"@) != JsonView::Text(
                "preserve_both"@,
            ),
    ensures
        sync_resolve::resolved(objects, blobs, marks, conflicts, resolution) matches Ok(next) ==> {
            &&& next.dom().contains(other) == objects.dom().contains(other)
            &&& next.dom().contains(other) ==> next[other] == objects[other]
        },
{
    if let Ok(next) = sync_resolve::resolved(objects, blobs, marks, conflicts, resolution) {
        let decisions = resolution.at("decisions"@)->Array_0;
        let ids = sync_resolve::conflict_ids(conflicts, conflicts.len())->Ok_0;
        let choices = sync_resolve::decided(ids, decisions, decisions.len())->Ok_0;
        lemma_none_preserved(ids, decisions, decisions.len());
        let start = SettledView {
            objects,
            picks: choices.picks,
            preserved: choices.preserved,
        };
        assert forall|k: int| 0 <= k < conflicts.len() implies sync_resolve::conflict_key(
            #[trigger] conflicts[k],
        ) != other by {}
        lemma_settled_others(blobs, marks, conflicts, start, conflicts.len(), other);
    }
}

proof fn lemma_none_preserved(
    ids: Map<PairView, Seq<char>>,
    decisions: Seq<JsonView>,
    count: nat,
)
    requires
        count <= decisions.len(),
        forall|k: int|
            0 <= k < decisions.len() ==> (#[trigger] decisions[k]).at("strategy"@)
                != JsonView::Text("preserve_both"@),
    ensures
        sync_resolve::decided(ids, decisions, count) matches Ok(choices)
            ==> choices.preserved.dom() =~= Set::<PairView>::empty(),
    decreases count,
{
    if count > 0 {
        lemma_none_preserved(ids, decisions, (count - 1) as nat);
    }
}

proof fn lemma_picks_used(
    at: PairView,
    fields: Seq<JsonView>,
    step: FieldStep,
    count: nat,
    name: TripleView,
)
    requires
        count <= fields.len(),
    ensures
        sync_resolve::with_choices(at, fields, step, count) matches Ok(after) ==> {
            &&& after.picks.dom().contains(name) ==> step.picks.dom().contains(name)
                && after.picks[name] == step.picks[name]
            &&& forall|k: int|
                0 <= k < count ==> step.picks.dom().contains(
                    TripleView {
                        first: at.first,
                        second: at.second,
                        third: (#[trigger] fields[k]).at("path"@)->Text_0,
                    },
                )
        },
    decreases count,
{
    if count > 0 {
        lemma_picks_used(at, fields, step, (count - 1) as nat, name);
        if let Ok(so_far) = sync_resolve::with_choices(at, fields, step, (count - 1) as nat) {
            law_choice_is_taken(at, fields[count - 1], so_far);
            let last = TripleView {
                first: at.first,
                second: at.second,
                third: fields[count - 1].at("path"@)->Text_0,
            };
            lemma_picks_used(at, fields, step, (count - 1) as nat, last);
        }
    }
}

/// An object is settled only where a choice was made for each field of its conflict.
pub proof fn law_every_field_is_decided(
    at: PairView,
    fields: Seq<JsonView>,
    step: FieldStep,
    k: int,
)
    requires
        0 <= k < fields.len(),
    ensures
        sync_resolve::with_choices(at, fields, step, fields.len()) is Ok
            ==> step.picks.dom().contains(
            TripleView {
                first: at.first,
                second: at.second,
                third: fields[k].at("path"@)->Text_0,
            },
        ),
{
    lemma_picks_used(
        at,
        fields,
        step,
        fields.len(),
        TripleView { first: at.first, second: at.second, third: Seq::empty() },
    );
}

/// A packet of decisions is looked at only where it is of version 1, is an object of decisions
/// and a version, is no larger than may be, and is for no more than twenty conflicts.
pub proof fn law_packets_are_bounded(
    objects: Map<PairView, JsonView>,
    blobs: Map<Seq<char>, Seq<u8>>,
    marks: Map<Seq<char>, MemoryMarkView>,
    conflicts: Seq<JsonView>,
    resolution: JsonView,
)
    ensures
        sync_resolve::resolved(objects, blobs, marks, conflicts, resolution) is Ok ==> {
            &&& conflicts.len() <= 20
            &&& text::byte_count(json::canonical_text(resolution))
                <= sync_resolve::MAX_PACKET_BYTES
            &&& resolution is Object
            &&& resolution.at("version"@) == JsonView::Int(1)
            &&& resolution.at("decisions"@) is Array
        },
{
}

// ---------------------------------------------------------------------------
// Keeping both
// ---------------------------------------------------------------------------

/// The variant of an object goes by its own key: a page by the key of the other with a mark
/// behind it, and a todo, a plan, a memory or a discussion by a digest. No other kind has
/// variants.
pub proof fn law_variants_have_keys(
    kind: Seq<char>,
    key: Seq<char>,
    hash: Seq<char>,
    attempt: nat,
)
    ensures
        sync_variant::variant_key(kind, key, hash, attempt) is Ok <==> kind == "page"@ || kind
            == "todo"@ || kind == "plan"@ || kind == "memory"@ || kind == "discussion"@,
        kind == "page"@ ==> (sync_variant::variant_key(kind, key, hash, attempt) matches Ok(name)
            && (key + "--sync-"@ + text::first_chars(hash, 12)).is_prefix_of(name)),
        kind == "page"@ && attempt == 0 ==> sync_variant::variant_key(kind, key, hash, attempt)
            == Ok::<Seq<char>, AppErrorView>(key + "--sync-"@ + text::first_chars(hash, 12)),
        kind != "page"@ ==> (sync_variant::variant_key(kind, key, hash, attempt) matches Ok(name)
            ==> name.len() <= 32),
{
    if kind == "page"@ {
        let base = key + "--sync-"@ + text::first_chars(hash, 12);
        let name = sync_variant::variant_key(kind, key, hash, attempt)->Ok_0;
        assert(base =~= name.take(base.len() as int));
    }
}

/// A variant is the object under its own key: it says so, and is marked as a variant. All that
/// is not its key or its mark stays.
pub proof fn law_variant_is_the_object(
    kind: Seq<char>,
    key: Seq<char>,
    variant: Seq<char>,
    payload: JsonView,
    marks: Map<Seq<char>, MemoryMarkView>,
)
    ensures
        sync_variant::variant_of(kind, key, variant, payload, marks) matches Ok(value) ==> {
            &&& payload is Object
            &&& value is Object
            &&& kind == "page"@ ==> {
                &&& value.text_at("slug"@) == Some(variant)
                &&& forall|field: Seq<char>|
                    field != "slug"@ ==> #[trigger] value.get(field) == payload.get(field)
            }
            &&& kind == "todo"@ || kind == "plan"@ ==> {
                &&& value.text_at("id"@) == Some(variant)
                &&& forall|field: Seq<char>|
                    field != "id"@ && field != "tags"@ ==> #[trigger] value.get(field)
                        == payload.get(field)
                &&& value.array_at("tags"@) is Some
            }
            &&& kind == "memory"@ ==> {
                &&& value.text_at("id"@) == Some(variant)
                &&& forall|field: Seq<char>|
                    field != "id"@ && field != "evidence"@ && field != "fingerprint"@ && field
                        != "logical_bytes"@ ==> #[trigger] value.get(field) == payload.get(field)
                &&& marks.dom().contains(key)
                &&& value.text_at("fingerprint"@) == Some(marks[key].fingerprint)
            }
            &&& kind == "discussion"@ ==> {
                &&& value.text_at("id"@) == Some(variant)
                &&& forall|field: Seq<char>|
                    field != "id"@ && field != "body"@ && field != "history"@
                        ==> #[trigger] value.get(field) == payload.get(field)
                &&& value.get("body"@) matches Some(body)
                &&& body.text_at("id"@) == Some(variant)
            }
        },
{
    if let Ok(value) = sync_variant::variant_of(kind, key, variant, payload, marks) {
        reveal_strlit("page");
        reveal_strlit("todo");
        reveal_strlit("plan");
        reveal_strlit("memory");
        reveal_strlit("discussion");
        reveal_strlit("slug");
        reveal_strlit("id");
        reveal_strlit("tags");
        reveal_strlit("evidence");
        reveal_strlit("fingerprint");
        reveal_strlit("logical_bytes");
        reveal_strlit("body");
        reveal_strlit("history");
        assert("page"@.len() == 4 && "page"@[0] == 'p' && "page"@[1] == 'a');
        assert("todo"@.len() == 4 && "todo"@[0] == 't');
        assert("plan"@.len() == 4 && "plan"@[1] == 'l');
        assert("memory"@.len() == 6 && "discussion"@.len() == 10);
        assert("slug"@.len() == 4 && "id"@.len() == 2 && "tags"@.len() == 4);
        assert("evidence"@.len() == 8 && "fingerprint"@.len() == 11 && "logical_bytes"@.len()
            == 13);
        assert("body"@.len() == 4 && "history"@.len() == 7);
        let entries = payload->Object_0;
        let field = if kind == "page"@ {
            "slug"@
        } else {
            "id"@
        };
        let own = json::with_entry(entries, field, JsonView::Text(variant));
        let named = JsonView::Object(own);
        json::lemma_with_entry(entries, field, JsonView::Text(variant));
        if kind == "discussion"@ {
            let inside = match named.at("body"@) {
                JsonView::Object(inside) => inside,
                _ => Seq::empty(),
            };
            let body = JsonView::Object(
                json::with_entry(inside, "id"@, JsonView::Text(variant)),
            );
            json::lemma_with_entry(inside, "id"@, JsonView::Text(variant));
            json::lemma_with_entry(own, "body"@, body);
            let whole = json::with_entry(own, "body"@, body);
            let history = value.get("history"@)->0;
            assert(sync_variant::with_nested(named, "body"@, "id"@, JsonView::Text(variant))
                == Some(JsonView::Object(whole)));
            match JsonView::Object(whole).at("history"@) {
                JsonView::Array(events) => {
                    let renamed = sync_variant::renamed_events(events, variant, events.len())->0;
                    json::lemma_with_entry(whole, "history"@, JsonView::Array(renamed));
                },
                other => {
                    json::lemma_with_entry(whole, "history"@, other);
                },
            }
        } else if kind == "todo"@ || kind == "plan"@ {
            let tags = named.at("tags"@)->Array_0;
            let after = JsonView::Array(
                sync_variant::without_repeats(
                    sync_variant::sorted_items(
                        tags.push(JsonView::Text("sync-conflict"@)),
                        None,
                    ),
                ),
            );
            json::lemma_with_entry(own, "tags"@, after);
        } else if kind == "memory"@ {
            let evidence = named.at("evidence"@)->Array_0;
            let after = if sync_variant::holds_field(
                evidence,
                "reference"@,
                "lwc:sync-conflict:"@ + key,
            ) {
                evidence
            } else {
                sync_variant::sorted_items(
                    evidence.push(sync_variant::variant_evidence(key)),
                    Some("reference"@),
                )
            };
            json::lemma_with_entry(own, "evidence"@, JsonView::Array(after));
            let one = json::with_entry(own, "evidence"@, JsonView::Array(after));
            let print = JsonView::Text(marks[key].fingerprint);
            json::lemma_with_entry(one, "fingerprint"@, print);
            let two = json::with_entry(one, "fingerprint"@, print);
            json::lemma_with_entry(two, "logical_bytes"@, JsonView::Int(marks[key].logical_bytes));
        }
    }
}

proof fn lemma_placed(items: Seq<JsonView>, field: Option<Seq<char>>, item: JsonView)
    ensures
        sync_variant::placed(items, field, item).to_multiset() == items.push(item).to_multiset(),
        sync_variant::placed(items, field, item).len() == items.len() + 1,
        is_in_order(items, field) ==> is_in_order(
            sync_variant::placed(items, field, item),
            field,
        ),
        forall|k: int|
            0 <= k < sync_variant::placed(items, field, item).len() ==> #[trigger]
            sync_variant::placed(items, field, item)[k] == item || items.contains(
                sync_variant::placed(items, field, item)[k],
            ),
    decreases items.len(),
{
    broadcast use vstd::seq_lib::group_to_multiset_ensures;

    let next = sync_variant::placed(items, field, item);
    if items.len() == 0 {
        assert(items.push(item) =~= seq![item]);
    } else if text::at_most(
        sync_variant::sort_text(items.last(), field),
        sync_variant::sort_text(item, field),
    ) {
        if is_in_order(items, field) {
            assert forall|i: int, j: int| 0 <= i < j < next.len() implies !text::before(
                sync_variant::sort_text(next[j], field),
                sync_variant::sort_text(next[i], field),
            ) by {
                if j == items.len() && i < items.len() - 1 {
                    let a = sync_variant::sort_text(items[i], field);
                    let b = sync_variant::sort_text(items.last(), field);
                    let c = sync_variant::sort_text(item, field);
                    if text::before(c, a) {
                        assert(!text::before(b, a));
                        text::lemma_before_total(a, b);
                        if a != b {
                            text::lemma_before_transitive(c, a, b);
                        }
                    }
                }
            }
        }
        assert forall|k: int| 0 <= k < next.len() implies #[trigger] next[k] == item
            || items.contains(next[k]) by {
            if k < items.len() {
                assert(items[k] == next[k]);
            }
        }
    } else {
        let head = items.drop_last();
        lemma_placed(head, field, item);
        let front = sync_variant::placed(head, field, item);
        assert(items =~= head.push(items.last()));
        assert(next.to_multiset() =~= front.to_multiset().insert(items.last()));
        assert(items.push(item).to_multiset() =~= head.to_multiset().insert(items.last()).insert(
            item,
        ));
        assert(front.to_multiset() =~= head.to_multiset().insert(item));
        assert forall|k: int| 0 <= k < next.len() implies #[trigger] next[k] == item
            || items.contains(next[k]) by {
            if k < front.len() {
                assert(front[k] == next[k]);
                if front[k] != item {
                    assert(head.contains(front[k]));
                    let n = head.index_of(front[k]);
                    assert(items[n] == front[k]);
                }
            } else {
                assert(items[items.len() - 1] == next[k]);
            }
        }
        if is_in_order(items, field) {
            assert(is_in_order(head, field)) by {
                assert forall|i: int, j: int| 0 <= i < j < head.len() implies !text::before(
                    sync_variant::sort_text(head[j], field),
                    sync_variant::sort_text(head[i], field),
                ) by {
                    assert(head[i] == items[i] && head[j] == items[j]);
                }
            }
            assert forall|i: int, j: int| 0 <= i < j < next.len() implies !text::before(
                sync_variant::sort_text(next[j], field),
                sync_variant::sort_text(next[i], field),
            ) by {
                if j < front.len() {
                    assert(next[i] == front[i] && next[j] == front[j]);
                } else {
                    assert(next[i] == front[i]);
                    if front[i] == item {
                        text::lemma_before_asymmetric(
                            sync_variant::sort_text(item, field),
                            sync_variant::sort_text(items.last(), field),
                        );
                    } else {
                        let n = head.index_of(front[i]);
                        assert(items[n] == front[i]);
                        assert(!text::before(
                            sync_variant::sort_text(items[items.len() - 1], field),
                            sync_variant::sort_text(items[n], field),
                        ));
                    }
                }
            }
        }
    }
}

/// The texts by which the items are sorted ascend.
pub open spec fn is_in_order(items: Seq<JsonView>, field: Option<Seq<char>>) -> bool {
    forall|i: int, j: int|
        0 <= i < j < items.len() ==> !text::before(
            sync_variant::sort_text(items[j], field),
            sync_variant::sort_text(items[i], field),
        )
}

/// What is sorted holds the same items, in order.
pub proof fn law_items_are_sorted(items: Seq<JsonView>, field: Option<Seq<char>>)
    ensures
        sync_variant::sorted_items(items, field).to_multiset() == items.to_multiset(),
        is_in_order(sync_variant::sorted_items(items, field), field),
    decreases items.len(),
{
    broadcast use vstd::seq_lib::group_to_multiset_ensures;

    if items.len() > 0 {
        let head = sync_variant::sorted_items(items.drop_last(), field);
        law_items_are_sorted(items.drop_last(), field);
        lemma_placed(head, field, items.last());
        assert(items =~= items.drop_last().push(items.last()));
        assert(items.to_multiset() =~= items.drop_last().to_multiset().insert(items.last()));
        assert(head.push(items.last()).to_multiset() =~= head.to_multiset().insert(items.last()));
    }
}

/// A key is found for a variant that is free, or under which the variant stands already.
pub proof fn law_variant_finds_a_place(
    objects: Map<PairView, JsonView>,
    kind: Seq<char>,
    key: Seq<char>,
    hash: Seq<char>,
    payload: JsonView,
    marks: Map<Seq<char>, MemoryMarkView>,
    attempt: nat,
)
    ensures
        sync_variant::find_variant(objects, kind, key, hash, payload, marks, attempt) matches Ok(
            found,
        ) ==> {
            let at = PairView { first: kind, second: found.key };
            &&& sync_variant::variant_of(kind, key, found.key, payload, marks) == Ok::<
                JsonView,
                AppErrorView,
            >(found.value)
            &&& found.present ==> objects.dom().contains(at) && json::alike(
                objects[at],
                found.value,
            )
            &&& !found.present ==> !objects.dom().contains(at)
        },
    decreases sync_resolve::MAX_VARIANT_ATTEMPTS - attempt,
{
    if attempt < sync_resolve::MAX_VARIANT_ATTEMPTS {
        if let Ok(name) = sync_variant::variant_key(kind, key, hash, attempt) {
            if let Ok(value) = sync_variant::variant_of(kind, key, name, payload, marks) {
                let at = table::pair(kind, name);
                if objects.dom().contains(at) && !json::alike(objects[at], value) {
                    law_variant_finds_a_place(
                        objects,
                        kind,
                        key,
                        hash,
                        payload,
                        marks,
                        attempt + 1,
                    );
                }
            }
        }
    }
}

/// Where both objects of a conflict are kept, one of them stands under the key of the conflict
/// and the other as its variant; all other objects stay, but for the list of variants of pages.
pub proof fn law_both_are_kept(
    objects: Map<PairView, JsonView>,
    kind: Seq<char>,
    key: Seq<char>,
    first_hash: Seq<char>,
    first: JsonView,
    second_hash: Seq<char>,
    second: JsonView,
    marks: Map<Seq<char>, MemoryMarkView>,
)
    requires
        first !is Null,
        second !is Null,
    ensures
        sync_variant::kept_beside(
            objects,
            kind,
            key,
            false,
            first_hash,
            first,
            second_hash,
            second,
            marks,
        ) matches Ok(next) ==> {
            let at = PairView { first: kind, second: key };
            let label = PairView { first: "tag"@, second: "sync-conflict"@ };
            &&& sync_variant::find_variant(
                objects,
                kind,
                key,
                second_hash,
                second,
                marks,
                0,
            ) matches Ok(variant)
            &&& {
                let beside = PairView { first: kind, second: variant.key };
                &&& variant.key != key ==> next.dom().contains(at) && json::alike(next[at], first)
                &&& next.dom().contains(beside) && (variant.key != key ==> json::alike(
                    next[beside],
                    variant.value,
                ))
                &&& forall|other: PairView|
                    other != at && other != beside && other != label
                        && #[trigger] objects.dom().contains(other) ==> next.dom().contains(other)
                        && next[other] == objects[other]
                &&& forall|other: PairView|
                    other != at && other != beside && other != label
                        && #[trigger] next.dom().contains(other) ==> objects.dom().contains(other)
            }
        },
{
    if let Ok(next) = sync_variant::kept_beside(
        objects,
        kind,
        key,
        false,
        first_hash,
        first,
        second_hash,
        second,
        marks,
    ) {
        law_variant_finds_a_place(objects, kind, key, second_hash, second, marks, 0);
        let variant = sync_variant::find_variant(
            objects,
            kind,
            key,
            second_hash,
            second,
            marks,
            0,
        )->Ok_0;
        reveal_strlit("page");
        reveal_strlit("tag");
        assert("page"@.len() == 4 && "tag"@.len() == 3);
        reveal_strlit("todo");
        reveal_strlit("plan");
        reveal_strlit("memory");
        reveal_strlit("discussion");
        assert("todo"@.len() == 4 && "plan"@.len() == 4 && "memory"@.len() == 6
            && "discussion"@.len() == 10);
        law_variants_have_keys(kind, key, second_hash, 0);
        json::lemma_alike_itself(first);
        json::lemma_alike_itself(variant.value);
        assert(kind != "tag"@);
    }
}

/// Once references were moved from one object to another, none is left to the first where they
/// are looked for: in the parent of a todo, in the pages of a tag, in the relations of a memory.
pub proof fn law_references_are_moved(
    objects: Map<PairView, JsonView>,
    original: Seq<char>,
    variant: Seq<char>,
    at: PairView,
    k: int,
)
    requires
        original != variant,
        objects.dom().contains(at),
    ensures
        sync_variant::all_moved(objects, "todo"@, original, variant).dom() == objects.dom(),
        at.first == "todo"@ ==> sync_variant::all_moved(objects, "todo"@, original, variant)[at].at(
            "parent_id"@,
        ) != JsonView::Text(original),
        at.first == "todo"@ && objects[at].at("parent_id"@) == JsonView::Text(original)
            ==> sync_variant::all_moved(objects, "todo"@, original, variant)[at].at("parent_id"@)
            == JsonView::Text(variant),
        at.first != "todo"@ ==> sync_variant::all_moved(objects, "todo"@, original, variant)[at]
            == objects[at],
        at.first == "tag"@ ==> (sync_variant::all_moved(
            objects,
            "page"@,
            original,
            variant,
        )[at].array_at("pages"@) matches Some(pages) ==> (0 <= k < pages.len() ==> pages[k].at(
            "slug"@,
        ) != JsonView::Text(original))),
        at.first == "memory"@ ==> (sync_variant::all_moved(
            objects,
            "memory"@,
            original,
            variant,
        )[at].array_at("relations"@) matches Some(list) ==> (0 <= k < list.len() ==> list[k].at(
            "target"@,
        ) != JsonView::Text(original))),
{
    reveal_strlit("page");
    reveal_strlit("todo");
    reveal_strlit("memory");
    reveal_strlit("tag");
    assert("page"@.len() == 4 && "page"@[0] == 'p' && "todo"@.len() == 4 && "todo"@[0] == 't'
        && "memory"@.len() == 6 && "tag"@.len() == 3);
    let moved = sync_variant::all_moved(objects, "todo"@, original, variant);
    assert(moved.dom() =~= objects.dom());
    lemma_moved_field(objects[at], "parent_id"@, original, variant);
    lemma_moved_list(objects[at], "pages"@, "slug"@, original, variant, k);
    lemma_moved_list(objects[at], "relations"@, "target"@, original, variant, k);
}

proof fn lemma_moved_field(
    value: JsonView,
    field: Seq<char>,
    original: Seq<char>,
    variant: Seq<char>,
)
    requires
        original != variant,
    ensures
        sync_variant::moved_field(value, field, original, variant).at(field) != JsonView::Text(
            original,
        ),
        value.at(field) == JsonView::Text(original) ==> sync_variant::moved_field(
            value,
            field,
            original,
            variant,
        ).at(field) == JsonView::Text(variant),
        value.at(field) != JsonView::Text(original) ==> sync_variant::moved_field(
            value,
            field,
            original,
            variant,
        ) == value,
{
    if value.at(field) == JsonView::Text(original) {
        json::lemma_with_entry(value->Object_0, field, JsonView::Text(variant));
    }
}

proof fn lemma_moved_list(
    value: JsonView,
    list: Seq<char>,
    field: Seq<char>,
    original: Seq<char>,
    variant: Seq<char>,
    k: int,
)
    requires
        original != variant,
    ensures
        sync_variant::moved_list(value, list, field, original, variant).array_at(list)
            matches Some(items) ==> (0 <= k < items.len() ==> items[k].at(field)
            != JsonView::Text(original)),
{
    if let JsonView::Array(items) = value.at(list) {
        let after = items.map_values(
            |item: JsonView| sync_variant::moved_field(item, field, original, variant),
        );
        json::lemma_with_entry(value->Object_0, list, JsonView::Array(after));
        if 0 <= k < items.len() {
            lemma_moved_field(items[k], field, original, variant);
        }
    }
}

proof fn lemma_renamed_events(events: Seq<JsonView>, key: Seq<char>, count: nat)
    requires
        count <= events.len(),
    ensures
        sync_variant::renamed_events(events, key, count) matches Some(list) ==> {
            &&& list.len() == count
            &&& forall|k: int|
                0 <= k < count ==> sync_variant::with_nested(
                    #[trigger] events[k],
                    "input"@,
                    "id"@,
                    JsonView::Text(key),
                ) == Some(list[k])
        },
    decreases count,
{
    if count > 0 {
        lemma_renamed_events(events, key, (count - 1) as nat);
    }
}

/// Each event of the history of a discussion that was kept beside another is told of the
/// variant, and is otherwise what it was.
pub proof fn law_history_names_the_variant(
    events: Seq<JsonView>,
    key: Seq<char>,
    k: int,
    field: Seq<char>,
)
    requires
        0 <= k < events.len(),
    ensures
        sync_variant::renamed_events(events, key, events.len()) matches Some(list) ==> {
            &&& list.len() == events.len()
            &&& list[k].at("input"@).text_at("id"@) == Some(key)
            &&& field != "input"@ ==> list[k].get(field) == events[k].get(field)
            &&& field != "id"@ && events[k].at("input"@) is Object ==> list[k].at("input"@).get(
                field,
            ) == events[k].at("input"@).get(field)
        },
{
    lemma_renamed_events(events, key, events.len());
    if let Some(list) = sync_variant::renamed_events(events, key, events.len()) {
        let value = JsonView::Text(key);
        assert(sync_variant::with_nested(events[k], "input"@, "id"@, value) == Some(list[k]));
        let inside = match events[k].at("input"@) {
            JsonView::Object(inside) => inside,
            _ => Seq::empty(),
        };
        let inner = json::with_entry(inside, "id"@, value);
        json::lemma_with_entry(inside, "id"@, value);
        let entries = match events[k] {
            JsonView::Object(entries) => entries,
            _ => Seq::empty(),
        };
        json::lemma_with_entry(entries, "input"@, JsonView::Object(inner));
    }
}

} // verus!
