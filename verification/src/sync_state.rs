//! Normalised sync states: the objects and blobs of a store under keys that mean
//! the same in every replica, and the merge of two replicas.
use crate::digest;
use crate::digest::hash_content;
use crate::error;
use crate::error::{AppError, AppErrorView, ErrorCode};
use crate::json;
use crate::json::{canonical_sync_value, parse_json, Json, JsonView};
use crate::sync_merge;
use crate::sync_merge::{bounded_sync_value, deterministic_sync_value, merge_sync_value_directional};
use crate::table;
use crate::table::{Pair, PairView, Record, Table};
use crate::text;
use crate::text::{join2, join3, owned, same_text};
use vstd::prelude::*;
use vstd::utf8;

verus! {

impl Record for Json {
    fn duplicate(&self) -> (r: Self) {
        Json::duplicate(self)
    }

    fn same(&self, other: &Self) -> (r: bool) {
        Json::same(self, other)
    }
}

impl Record for Vec<u8> {
    fn duplicate(&self) -> (r: Self) {
        copy_bytes(self)
    }

    fn same(&self, other: &Self) -> (r: bool) {
        same_bytes(self, other)
    }
}

fn copy_bytes(bytes: &Vec<u8>) -> (r: Vec<u8>)
    ensures
        r@ == bytes@,
{
    let mut out: Vec<u8> = Vec::new();
    let mut i: usize = 0;
    while i < bytes.len()
        invariant
            i <= bytes@.len(),
            out@ == bytes@.take(i as int),
        decreases bytes@.len() - i,
    {
        out.push(bytes[i]);
        assert(bytes@.take(i + 1) =~= bytes@.take(i as int).push(bytes@[i as int]));
        i += 1;
    }
    assert(bytes@.take(bytes@.len() as int) =~= bytes@);
    out
}

fn same_bytes(a: &Vec<u8>, b: &Vec<u8>) -> (r: bool)
    ensures
        r == (a@ == b@),
{
    if a.len() != b.len() {
        return false;
    }
    let mut i: usize = 0;
    while i < a.len()
        invariant
            i <= a@.len(),
            a@.len() == b@.len(),
            forall|j: int| 0 <= j < i ==> a@[j] == b@[j],
        decreases a@.len() - i,
    {
        if a[i] != b[i] {
            return false;
        }
        i += 1;
    }
    assert(a@ =~= b@);
    true
}

/// The UTF-8 bytes of a text.
fn bytes_of(s: &str) -> (r: Vec<u8>)
    ensures
        r@ == utf8::encode_utf8(s@),
{
    vstd::slice::slice_to_vec(s.as_bytes())
}

// ---------------------------------------------------------------------------
// The merge of one object
// ---------------------------------------------------------------------------

/// What the merge of one object comes to.
#[verifier::ext_equal]
pub struct ObjectMerge {
    /// What the object is afterwards; none where it is gone.
    pub value: Option<JsonView>,
    /// The conflict to report, before it has its identifier.
    pub conflict: Option<JsonView>,
    /// The whole candidates of the conflict.
    pub candidates: Seq<JsonView>,
    pub kind: Seq<char>,
    pub key: Seq<char>,
}

/// The kinds whose objects merge without ever asking.
pub open spec fn is_mechanical(kind: Seq<char>) -> bool {
    ||| kind == "meta"@
    ||| kind == "source"@
    ||| kind == "tag"@
    ||| kind == "ingest"@
    ||| kind == "retrieval_weight"@
    ||| kind == "retrieval_feedback"@
    ||| kind == "semantic_relation"@
    ||| kind == "work_audit"@
    ||| kind == "draft_intent"@
}

/// The name under which a conflict candidate is kept.
pub open spec fn candidate_ref(candidate: JsonView) -> Seq<char> {
    "sync-candidate:"@ + digest::text_digest(json::canonical_text(candidate))
}

/// The names of the candidates, in ascending order, each once.
pub open spec fn candidate_refs(candidates: Seq<JsonView>) -> Seq<Seq<char>> {
    text::sorted(candidates.map_values(|c: JsonView| candidate_ref(c)).to_set())
}

/// A list of texts as a JSON list.
pub open spec fn texts_view(list: Seq<Seq<char>>) -> JsonView {
    JsonView::Array(list.map_values(|t: Seq<char>| JsonView::Text(t)))
}

/// A conflict over a whole object or some of its fields, before it has its identifier.
pub open spec fn conflict_view(
    kind: Seq<char>,
    key: Seq<char>,
    conflict: Seq<char>,
    fields: Seq<JsonView>,
    candidates: Seq<JsonView>,
) -> JsonView {
    JsonView::Object(
        seq![
            json::entry("candidate_refs"@, texts_view(candidate_refs(candidates))),
            json::entry("conflict"@, JsonView::Text(conflict)),
            json::entry("fields"@, JsonView::Array(fields)),
            json::entry("kind"@, JsonView::Text(kind)),
            json::entry("logical_key"@, JsonView::Text(key)),
        ],
    )
}

/// The field entry of a conflict over a whole object.
pub open spec fn whole_field(base: JsonView, first: JsonView, second: JsonView) -> JsonView {
    JsonView::Object(
        seq![
            json::entry("base"@, base),
            json::entry("candidates"@, JsonView::Array(seq![first, second])),
            json::entry("path"@, JsonView::Text("$object"@)),
        ],
    )
}

/// A conflict with its identifier: the digest of everything else in it.
pub open spec fn identified(conflict: JsonView) -> JsonView {
    JsonView::Object(
        json::with_entry(
            conflict->Object_0,
            "conflict_id"@,
            JsonView::Text(digest::text_digest(json::canonical_text(conflict))),
        ),
    )
}

/// A value, or null.
pub open spec fn or_null(value: Option<JsonView>) -> JsonView {
    match value {
        Some(inner) => inner,
        None => JsonView::Null,
    }
}

/// The merge of two edited objects of one key, each with what it was edited from.
pub open spec fn merged_object(
    kind: Seq<char>,
    key: Seq<char>,
    base_left: Option<JsonView>,
    left: Option<JsonView>,
    base_right: Option<JsonView>,
    right: Option<JsonView>,
) -> ObjectMerge {
    let plain = |value: Option<JsonView>|
        ObjectMerge { value, conflict: None, candidates: Seq::empty(), kind, key };
    let left_changed = !json::opt_alike(left, base_left);
    let right_changed = !json::opt_alike(right, base_right);
    let same_base = json::opt_alike(base_left, base_right);
    let either = if left is Some {
        left
    } else {
        right
    };
    if json::opt_alike(left, right) {
        plain(left)
    } else if is_mechanical(kind) {
        if left is Some && right is Some {
            plain(
                Some(
                    sync_merge::merged_value(
                        base_left,
                        left->0,
                        base_right,
                        right->0,
                        Seq::empty(),
                    ).value,
                ),
            )
        } else {
            plain(either)
        }
    } else if kind == "memory"@ && (left is None || right is None) && !(left_changed
        && right_changed) {
        plain(either)
    } else if same_base && !left_changed {
        plain(right)
    } else if same_base && !right_changed {
        plain(left)
    } else if left is Some && right is Some {
        let both = seq![left->0, right->0];
        if (base_left is Some) != (base_right is Some) {
            ObjectMerge {
                value: Some(sync_merge::preferred(left->0, right->0)),
                conflict: Some(
                    conflict_view(
                        kind,
                        key,
                        "independent_create"@,
                        seq![
                            whole_field(
                                JsonView::Null,
                                sync_merge::bounded(left->0),
                                sync_merge::bounded(right->0),
                            ),
                        ],
                        both,
                    ),
                ),
                candidates: both,
                kind,
                key,
            }
        } else {
            let merged = sync_merge::merged_value(
                base_left,
                left->0,
                base_right,
                right->0,
                Seq::empty(),
            );
            if merged.conflicts.len() == 0 {
                plain(Some(merged.value))
            } else {
                ObjectMerge {
                    value: Some(merged.value),
                    conflict: Some(
                        conflict_view(kind, key, "concurrent_edit"@, merged.conflicts, both),
                    ),
                    candidates: both,
                    kind,
                    key,
                }
            }
        }
    } else if left_changed && !right_changed {
        plain(left)
    } else if !left_changed && right_changed {
        plain(right)
    } else if !left_changed {
        plain(either)
    } else {
        let both = seq![or_null(left), or_null(right)];
        ObjectMerge {
            value: either,
            conflict: Some(
                conflict_view(
                    kind,
                    key,
                    "delete_vs_edit"@,
                    seq![
                        whole_field(
                            match sync_merge::common(base_left, base_right) {
                                Some(base) => sync_merge::bounded(base),
                                None => JsonView::Null,
                            },
                            JsonView::Null,
                            sync_merge::bounded(either->0),
                        ),
                    ],
                    both,
                ),
            ),
            candidates: both,
            kind,
            key,
        }
    }
}

/// The conflicts after the merge of one object.
pub open spec fn conflicts_after(conflicts: Seq<JsonView>, merge: ObjectMerge) -> Seq<JsonView> {
    match merge.conflict {
        Some(conflict) => conflicts.push(identified(conflict)),
        None => conflicts,
    }
}

/// A candidate fits what is kept: nothing else stands under its name.
pub open spec fn candidate_fits(kept: Map<Seq<char>, Seq<u8>>, candidate: JsonView) -> bool {
    let name = candidate_ref(candidate);
    kept.dom().contains(name) ==> kept[name] == utf8::encode_utf8(json::canonical_text(candidate))
}

/// What is kept with one more candidate.
pub open spec fn with_candidate(
    kept: Map<Seq<char>, Seq<u8>>,
    candidate: JsonView,
) -> Map<Seq<char>, Seq<u8>> {
    kept.insert(candidate_ref(candidate), utf8::encode_utf8(json::canonical_text(candidate)))
}

/// What is kept with the first `count` candidates of a conflict; none where one
/// does not fit.
pub open spec fn with_candidates(
    kept: Map<Seq<char>, Seq<u8>>,
    candidates: Seq<JsonView>,
    count: nat,
) -> Option<Map<Seq<char>, Seq<u8>>>
    decreases count,
{
    if count == 0 || count > candidates.len() {
        Some(kept)
    } else {
        match with_candidates(kept, candidates, (count - 1) as nat) {
            Some(so_far) => if candidate_fits(so_far, candidates[count - 1]) {
                Some(with_candidate(so_far, candidates[count - 1]))
            } else {
                None
            },
            None => None,
        }
    }
}

pub open spec fn collision_error(kind: Seq<char>, key: Seq<char>) -> AppErrorView {
    error::app_error(
        ErrorCode::SyncChecksumMismatch,
        "conflict candidate hash collision for "@ + kind + ":"@ + key,
    )
}

/// Whether the objects of this kind merge without ever asking.
pub fn is_mechanical_sync_kind(kind: &str) -> (r: bool)
    ensures
        r == is_mechanical(kind@),
{
    same_text(kind, "meta") || same_text(kind, "source") || same_text(kind, "tag") || same_text(
        kind,
        "ingest",
    ) || same_text(kind, "retrieval_weight") || same_text(kind, "retrieval_feedback") || same_text(
        kind,
        "semantic_relation",
    ) || same_text(kind, "work_audit") || same_text(kind, "draft_intent")
}

/// A list of texts as a JSON list.
fn texts_json(list: &Vec<String>) -> (r: Json)
    ensures
        r@ == texts_view(text::views(list@)),
{
    let mut items: Vec<Json> = Vec::new();
    let mut i: usize = 0;
    while i < list.len()
        invariant
            i <= list@.len(),
            items@.len() == i,
            forall|j: int| 0 <= j < i ==> (#[trigger] items@[j])@ == JsonView::Text(list@[j]@),
        decreases list@.len() - i,
    {
        items.push(Json::text(list[i].as_str()));
        i += 1;
    }
    proof {
        json::lemma_array_view(items);
        assert(text::views(items@) =~= text::views(list@).map_values(
            |t: Seq<char>| JsonView::Text(t),
        ));
    }
    Json::Array(items)
}

/// Keeps the candidates of a conflict, each under the name that its content
/// gives it, and returns those names.
pub fn store_sync_conflict_candidates(
    kind: &str,
    logical_key: &str,
    candidates: &Vec<Json>,
    blobs: &mut Table<String, Vec<u8>>,
) -> (r: Result<Vec<String>, AppError>)
    ensures
        match with_candidates(old(blobs)@, text::views(candidates@), candidates@.len()) {
            Some(kept) => {
                &&& r matches Ok(refs)
                &&& text::views(refs@) == candidate_refs(text::views(candidates@))
                &&& final(blobs)@ == kept
            },
            None => {
                &&& r matches Err(e)
                &&& e@ == collision_error(kind@, logical_key@)
            },
        },
{
    let ghost all = text::views(candidates@);
    let ghost names = all.map_values(|c: JsonView| candidate_ref(c));
    let mut refs: Vec<String> = Vec::new();
    let mut i: usize = 0;
    proof {
        assert(text::views(refs@).to_set() =~= Set::empty());
        assert(names.take(0).to_set() =~= Set::empty());
    }
    while i < candidates.len()
        invariant
            i <= candidates@.len(),
            text::ascending(text::views(refs@)),
            text::views(refs@).to_set() == names.take(i as int).to_set(),
            with_candidates(old(blobs)@, all, i as nat) == Some(blobs@),
        decreases candidates@.len() - i,
    {
        let encoded = canonical_sync_value(&candidates[i]);
        let name = join2("sync-candidate:", hash_content(encoded.as_str()).as_str());
        let bytes = bytes_of(encoded.as_str());
        proof {
            assert(all[i as int] == candidates@[i as int]@);
            assert(names[i as int] == name@);
            lemma_candidates_stop(old(blobs)@, all, (i + 1) as nat, candidates@.len());
        }
        let known = match blobs.get(&name) {
            Some(existing) => {
                if !same_bytes(existing, &bytes) {
                    let message = join2(
                        join3("conflict candidate hash collision for ", kind, ":").as_str(),
                        logical_key,
                    );
                    return Err(AppError::new(ErrorCode::SyncChecksumMismatch, message.as_str()));
                }
                true
            },
            None => false,
        };
        if !known {
            blobs.put(owned(name.as_str()), bytes);
        }
        text::add_text(&mut refs, name.as_str());
        proof {
            let so_far = with_candidates(old(blobs)@, all, i as nat)->0;
            assert(blobs@ =~= with_candidate(so_far, all[i as int]));
            assert(names.take(i + 1) =~= names.take(i as int).push(names[i as int]));
            names.take(i as int).lemma_push_to_set_commute(names[i as int]);
        }
        i += 1;
    }
    proof {
        assert(names.take(candidates@.len() as int) =~= names);
        text::lemma_sorted_is(text::views(refs@));
    }
    Ok(refs)
}

proof fn lemma_candidates_stop(
    kept: Map<Seq<char>, Seq<u8>>,
    candidates: Seq<JsonView>,
    count: nat,
    more: nat,
)
    requires
        0 < count <= more <= candidates.len(),
    ensures
        with_candidates(kept, candidates, count) is None ==> with_candidates(
            kept,
            candidates,
            more,
        ) is None,
    decreases more - count,
{
    if count < more {
        lemma_candidates_stop(kept, candidates, count, (more - 1) as nat);
    }
}

/// Gives a conflict its identifier and appends it.
pub fn push_sync_conflict(conflicts: &mut Vec<Json>, conflict: Json)
    requires
        conflict@ is Object,
    ensures
        text::views(final(conflicts)@) == text::views(old(conflicts)@).push(identified(conflict@)),
{
    let id = hash_content(canonical_sync_value(&conflict).as_str());
    let mut conflict = conflict;
    conflict.set("conflict_id", Json::Text(id));
    proof {
        text::lemma_views_push(conflicts@, conflict);
    }
    conflicts.push(conflict);
}

/// Builds a conflict over a whole object or some of its fields.
fn conflict_json(
    kind: &str,
    logical_key: &str,
    conflict: &str,
    fields: Vec<Json>,
    refs: &Vec<String>,
    candidates: Ghost<Seq<JsonView>>,
) -> (r: Json)
    requires
        text::views(refs@) == candidate_refs(candidates@),
    ensures
        r@ == conflict_view(
            kind@,
            logical_key@,
            conflict@,
            text::views(fields@),
            candidates@,
        ),
{
    let mut entries: Vec<(String, Json)> = Vec::new();
    proof {
        json::lemma_array_view(fields);
    }
    entries.push((owned("candidate_refs"), texts_json(refs)));
    entries.push((owned("conflict"), Json::text(conflict)));
    entries.push((owned("fields"), Json::Array(fields)));
    entries.push((owned("kind"), Json::text(kind)));
    entries.push((owned("logical_key"), Json::text(logical_key)));
    proof {
        json::lemma_object_view(entries);
        assert(json::entry_views(entries@) =~= conflict_view(
            kind@,
            logical_key@,
            conflict@,
            text::views(fields@),
            candidates@,
        )->Object_0);
    }
    Json::Object(entries)
}

/// Builds the field entry of a conflict over a whole object.
fn whole_field_json(base: Json, first: Json, second: Json) -> (r: Json)
    ensures
        r@ == whole_field(base@, first@, second@),
{
    let ghost expected = whole_field(base@, first@, second@);
    let mut list: Vec<Json> = Vec::new();
    list.push(first);
    list.push(second);
    proof {
        json::lemma_array_view(list);
        assert(text::views(list@) =~= seq![first@, second@]);
    }
    let mut entries: Vec<(String, Json)> = Vec::new();
    entries.push((owned("base"), base));
    entries.push((owned("candidates"), Json::Array(list)));
    entries.push((owned("path"), Json::text("$object")));
    proof {
        json::lemma_object_view(entries);
        assert(json::entry_views(entries@) =~= expected->Object_0);
    }
    Json::Object(entries)
}

pub(crate) fn same_json(a: Option<&Json>, b: Option<&Json>) -> (r: bool)
    ensures
        r == json::opt_alike(text::opt_view(a), text::opt_view(b)),
{
    match (a, b) {
        (Some(x), Some(y)) => x.equals(y),
        (None, None) => true,
        _ => false,
    }
}

pub(crate) fn copy_json(a: Option<&Json>) -> (r: Option<Json>)
    ensures
        text::opt_view(r) == text::opt_view(a),
{
    match a {
        Some(value) => Some(Json::duplicate(value)),
        None => None,
    }
}

/// Merges the objects of a kind that never asks.
pub fn merge_mechanical_sync_object(
    base_left: Option<&Json>,
    left: Option<&Json>,
    base_right: Option<&Json>,
    right: Option<&Json>,
) -> (r: Option<Json>)
    ensures
        match (text::opt_view(left), text::opt_view(right)) {
            (Some(a), Some(b)) => text::opt_view(r) == Some(
                sync_merge::merged_value(
                    text::opt_view(base_left),
                    a,
                    text::opt_view(base_right),
                    b,
                    Seq::empty(),
                ).value,
            ),
            (Some(a), None) => text::opt_view(r) == Some(a),
            (None, b) => text::opt_view(r) == b,
        },
{
    match (left, right) {
        (Some(a), Some(b)) => {
            let mut discarded: Vec<Json> = Vec::new();
            proof {
                reveal_strlit("");
                assert(""@ =~= Seq::<char>::empty());
            }
            Some(merge_sync_value_directional(base_left, a, base_right, b, "", &mut discarded))
        },
        (Some(a), None) => Some(Json::duplicate(a)),
        (None, b) => copy_json(b),
    }
}

/// Merges two edited objects of one key, each with what it was edited from, and
/// records the conflict that this meets.
pub fn merge_sync_object_directional(
    kind: &str,
    logical_key: &str,
    base_left: Option<&Json>,
    left: Option<&Json>,
    base_right: Option<&Json>,
    right: Option<&Json>,
    conflicts: &mut Vec<Json>,
    conflict_candidates: &mut Table<String, Vec<u8>>,
) -> (r: Result<Option<Json>, AppError>)
    ensures
        ({
            let merge = merged_object(
                kind@,
                logical_key@,
                text::opt_view(base_left),
                text::opt_view(left),
                text::opt_view(base_right),
                text::opt_view(right),
            );
            match with_candidates(
                old(conflict_candidates)@,
                merge.candidates,
                merge.candidates.len(),
            ) {
                Some(kept) => {
                    &&& r matches Ok(value)
                    &&& text::opt_view(value) == merge.value
                    &&& text::views(final(conflicts)@) == conflicts_after(
                        text::views(old(conflicts)@),
                        merge,
                    )
                    &&& final(conflict_candidates)@ == kept
                },
                None => {
                    &&& r matches Err(e)
                    &&& e@ == collision_error(kind@, logical_key@)
                },
            }
        }),
{
    let ghost merge = merged_object(
        kind@,
        logical_key@,
        text::opt_view(base_left),
        text::opt_view(left),
        text::opt_view(base_right),
        text::opt_view(right),
    );
    if same_json(left, right) {
        return Ok(copy_json(left));
    }
    if is_mechanical_sync_kind(kind) {
        return Ok(merge_mechanical_sync_object(base_left, left, base_right, right));
    }
    let left_changed = !same_json(left, base_left);
    let right_changed = !same_json(right, base_right);
    if same_text(kind, "memory") && (left.is_none() || right.is_none()) && !(left_changed
        && right_changed) {
        return Ok(
            match left {
                Some(value) => Some(Json::duplicate(value)),
                None => copy_json(right),
            },
        );
    }
    if same_json(base_left, base_right) {
        if !left_changed {
            return Ok(copy_json(right));
        }
        if !right_changed {
            return Ok(copy_json(left));
        }
    }
    match (left, right) {
        (Some(a), Some(b)) => {
            let mut both: Vec<Json> = Vec::new();
            both.push(Json::duplicate(a));
            both.push(Json::duplicate(b));
            let ghost pair = seq![a@, b@];
            assert(text::views(both@) =~= pair);
            if base_left.is_some() != base_right.is_some() {
                let refs = match store_sync_conflict_candidates(
                    kind,
                    logical_key,
                    &both,
                    conflict_candidates,
                ) {
                    Ok(refs) => refs,
                    Err(e) => {
                        return Err(e);
                    },
                };
                let mut fields: Vec<Json> = Vec::new();
                fields.push(
                    whole_field_json(Json::Null, bounded_sync_value(a), bounded_sync_value(b)),
                );
                let conflict = conflict_json(
                    kind,
                    logical_key,
                    "independent_create",
                    fields,
                    &refs,
                    Ghost(pair),
                );
                assert(text::views(fields@) =~= seq![
                    whole_field(
                        JsonView::Null,
                        sync_merge::bounded(a@),
                        sync_merge::bounded(b@),
                    ),
                ]);
                push_sync_conflict(conflicts, conflict);
                return Ok(Some(deterministic_sync_value(a, b)));
            }
            let mut fields: Vec<Json> = Vec::new();
            proof {
                reveal_strlit("");
                assert(""@ =~= Seq::<char>::empty());
                assert(text::views(fields@) =~= Seq::<JsonView>::empty());
            }
            let payload = merge_sync_value_directional(
                base_left,
                a,
                base_right,
                b,
                "",
                &mut fields,
            );
            let ghost merged = sync_merge::merged_value(
                text::opt_view(base_left),
                a@,
                text::opt_view(base_right),
                b@,
                Seq::empty(),
            );
            assert(Seq::<JsonView>::empty() + merged.conflicts =~= merged.conflicts);
            assert(fields@.len() == merged.conflicts.len());
            if fields.len() > 0 {
                let refs = match store_sync_conflict_candidates(
                    kind,
                    logical_key,
                    &both,
                    conflict_candidates,
                ) {
                    Ok(refs) => refs,
                    Err(e) => {
                        return Err(e);
                    },
                };
                let conflict = conflict_json(
                    kind,
                    logical_key,
                    "concurrent_edit",
                    fields,
                    &refs,
                    Ghost(pair),
                );
                push_sync_conflict(conflicts, conflict);
            }
            Ok(Some(payload))
        },
        (None, None) => Ok(None),
        _ => {
            if left_changed && !right_changed {
                return Ok(copy_json(left));
            }
            if !left_changed && right_changed {
                return Ok(copy_json(right));
            }
            let either = match left {
                Some(value) => left,
                None => right,
            };
            let value = match either {
                Some(value) => value,
                None => {
                    return Ok(None);
                },
            };
            if !left_changed {
                return Ok(Some(Json::duplicate(value)));
            }
            let mut both: Vec<Json> = Vec::new();
            both.push(
                match left {
                    Some(a) => Json::duplicate(a),
                    None => Json::Null,
                },
            );
            both.push(
                match right {
                    Some(b) => Json::duplicate(b),
                    None => Json::Null,
                },
            );
            let ghost pair = seq![
                or_null(text::opt_view(left)),
                or_null(text::opt_view(right)),
            ];
            assert(text::views(both@) =~= pair);
            let refs = match store_sync_conflict_candidates(
                kind,
                logical_key,
                &both,
                conflict_candidates,
            ) {
                Ok(refs) => refs,
                Err(e) => {
                    return Err(e);
                },
            };
            let base = if same_json(base_left, base_right) {
                match base_left {
                    Some(was) => bounded_sync_value(was),
                    None => Json::Null,
                }
            } else {
                Json::Null
            };
            let ghost base_view = base@;
            let mut fields: Vec<Json> = Vec::new();
            fields.push(whole_field_json(base, Json::Null, bounded_sync_value(value)));
            assert(text::views(fields@) =~= seq![
                whole_field(base_view, JsonView::Null, sync_merge::bounded(value@)),
            ]);
            let conflict = conflict_json(
                kind,
                logical_key,
                "delete_vs_edit",
                fields,
                &refs,
                Ghost(pair),
            );
            push_sync_conflict(conflicts, conflict);
            Ok(Some(Json::duplicate(value)))
        },
    }
}


// ---------------------------------------------------------------------------
// Normalised rows
// ---------------------------------------------------------------------------

/// A normalised object as it is kept: its JSON text and the digest of that text.
pub struct ObjectRow {
    pub kind: String,
    pub logical_key: String,
    pub payload_json: String,
    pub payload_hash: String,
}

/// What a normalised object says.
#[verifier::ext_equal]
pub struct ObjectRowView {
    pub kind: Seq<char>,
    pub logical_key: Seq<char>,
    pub payload_json: Seq<char>,
    pub payload_hash: Seq<char>,
}

impl View for ObjectRow {
    type V = ObjectRowView;

    open spec fn view(&self) -> ObjectRowView {
        ObjectRowView {
            kind: self.kind@,
            logical_key: self.logical_key@,
            payload_json: self.payload_json@,
            payload_hash: self.payload_hash@,
        }
    }
}

/// The row of an object.
pub open spec fn object_row(kind: Seq<char>, key: Seq<char>, payload: JsonView) -> ObjectRowView {
    ObjectRowView {
        kind,
        logical_key: key,
        payload_json: json::canonical_text(payload),
        payload_hash: digest::text_digest(json::canonical_text(payload)),
    }
}

/// The row of an object.
pub fn insert_sync_object(kind: &str, logical_key: &str, payload: &Json) -> (r: ObjectRow)
    ensures
        r@ == object_row(kind@, logical_key@, payload@),
{
    let payload_json = canonical_sync_value(payload);
    let payload_hash = hash_content(payload_json.as_str());
    ObjectRow { kind: owned(kind), logical_key: owned(logical_key), payload_json, payload_hash }
}

/// What reading one row comes to.
pub open spec fn read_row(row: ObjectRowView) -> Result<JsonView, AppErrorView> {
    if digest::text_digest(row.payload_json) != row.payload_hash {
        error::refused(
            ErrorCode::SyncChecksumMismatch,
            "normalized "@ + row.kind + " object checksum differs"@,
        )
    } else {
        match json::parsed_json(row.payload_json) {
            Ok(payload) => Ok(payload),
            Err(reason) => error::refused(ErrorCode::SyncStateInvalid, reason),
        }
    }
}

/// The objects of the first `count` rows, or the error of the first row that
/// cannot be read.
pub open spec fn read_rows(
    rows: Seq<ObjectRowView>,
    count: nat,
) -> Result<Map<PairView, JsonView>, AppErrorView>
    decreases count,
{
    if count == 0 || count > rows.len() {
        Ok(Map::empty())
    } else {
        match read_rows(rows, (count - 1) as nat) {
            Ok(objects) => {
                let row = rows[count - 1];
                match read_row(row) {
                    Ok(payload) => Ok(
                        objects.insert(table::pair(row.kind, row.logical_key), payload),
                    ),
                    Err(e) => Err(e),
                }
            },
            Err(e) => Err(e),
        }
    }
}

proof fn lemma_rows_stop(rows: Seq<ObjectRowView>, count: nat, more: nat)
    requires
        0 < count <= more <= rows.len(),
        read_rows(rows, count) is Err,
    ensures
        read_rows(rows, more) == read_rows(rows, count),
    decreases more - count,
{
    if count < more {
        lemma_rows_stop(rows, count, (more - 1) as nat);
    }
}

/// The rows were written from these payloads, which are plain.
pub open spec fn written_from(rows: Seq<ObjectRowView>, payloads: Seq<JsonView>) -> bool {
    &&& payloads.len() == rows.len()
    &&& forall|i: int|
        0 <= i < rows.len() ==> (#[trigger] rows[i]) == object_row(
            rows[i].kind,
            rows[i].logical_key,
            payloads[i],
        ) && json::plain(payloads[i], 100)
}

/// The first payloads under the kinds and keys of their rows.
pub open spec fn by_key(
    rows: Seq<ObjectRowView>,
    payloads: Seq<JsonView>,
    count: nat,
) -> Map<PairView, JsonView>
    decreases count,
{
    if count == 0 || count > rows.len() {
        Map::empty()
    } else {
        by_key(rows, payloads, (count - 1) as nat).insert(
            table::pair(rows[count - 1].kind, rows[count - 1].logical_key),
            payloads[count - 1],
        )
    }
}

/// The objects of normalised rows, each checked against its digest. What was written from
/// plain objects is read back as they were.
pub fn load_sync_objects(rows: &Vec<ObjectRow>) -> (r: Result<Table<Pair, Json>, AppError>)
    ensures
        error::outcome(r) == read_rows(text::views(rows@), rows@.len()),
        forall|payloads: Seq<JsonView>| #[trigger]
            written_from(text::views(rows@), payloads) ==> r is Ok && r->Ok_0@ == by_key(
                text::views(rows@),
                payloads,
                rows@.len(),
            ),
{
    let ghost all = text::views(rows@);
    let mut objects: Table<Pair, Json> = Table::new();
    let mut i: usize = 0;
    while i < rows.len()
        invariant
            i <= rows@.len(),
            read_rows(all, i as nat) == Ok::<Map<PairView, JsonView>, AppErrorView>(objects@),
            forall|payloads: Seq<JsonView>| #[trigger]
                written_from(all, payloads) ==> objects@ == by_key(all, payloads, i as nat),
        decreases rows@.len() - i,
    {
        let row = &rows[i];
        assert(all[i as int] == row@);
        proof {
            assert forall|payloads: Seq<JsonView>| #[trigger]
                written_from(all, payloads) implies row@ == object_row(
                row@.kind,
                row@.logical_key,
                payloads[i as int],
            ) && json::plain(payloads[i as int], 100) by {
                assert(all[i as int] == row@);
            }
        }
        if !same_text(hash_content(row.payload_json.as_str()).as_str(), row.payload_hash.as_str()) {
            proof {
                lemma_rows_stop(all, (i + 1) as nat, rows@.len());
            }
            let message = join3("normalized ", row.kind.as_str(), " object checksum differs");
            return Err(AppError::new(ErrorCode::SyncChecksumMismatch, message.as_str()));
        }
        match parse_json(row.payload_json.as_str()) {
            Ok(payload) => {
                objects.put(Pair::new(row.kind.as_str(), row.logical_key.as_str()), payload);
            },
            Err(reason) => {
                proof {
                    lemma_rows_stop(all, (i + 1) as nat, rows@.len());
                }
                return Err(AppError::new(ErrorCode::SyncStateInvalid, reason.as_str()));
            },
        }
        i += 1;
    }
    Ok(objects)
}

// ---------------------------------------------------------------------------
// The merge of two replicas
// ---------------------------------------------------------------------------

/// What the merge of two replicas' objects comes to.
pub struct SyncMerge {
    pub objects: Table<Pair, Json>,
    pub conflicts: Vec<Json>,
    pub conflict_kinds: Vec<String>,
    pub candidates: Table<String, Vec<u8>>,
}

/// The objects, conflicts and kept candidates of a merge.
#[verifier::ext_equal]
pub struct StatesMerge {
    pub objects: Map<PairView, JsonView>,
    pub conflicts: Seq<JsonView>,
    pub candidates: Map<Seq<char>, Seq<u8>>,
}

/// The object under a key.
pub open spec fn object_at(objects: Map<PairView, JsonView>, key: PairView) -> Option<JsonView> {
    if objects.dom().contains(key) {
        Some(objects[key])
    } else {
        None
    }
}

/// The merge of the object under `key` of two replicas.
pub open spec fn merged_key(
    base_left: Map<PairView, JsonView>,
    left: Map<PairView, JsonView>,
    base_right: Map<PairView, JsonView>,
    right: Map<PairView, JsonView>,
    key: PairView,
) -> ObjectMerge {
    merged_object(
        key.first,
        key.second,
        object_at(base_left, key),
        object_at(left, key),
        object_at(base_right, key),
        object_at(right, key),
    )
}

/// The merge of the objects under the first `count` of `keys`.
pub open spec fn merged_states(
    base_left: Map<PairView, JsonView>,
    left: Map<PairView, JsonView>,
    base_right: Map<PairView, JsonView>,
    right: Map<PairView, JsonView>,
    keys: Seq<PairView>,
    count: nat,
) -> Result<StatesMerge, AppErrorView>
    decreases count,
{
    if count == 0 || count > keys.len() {
        Ok(StatesMerge { objects: Map::empty(), conflicts: Seq::empty(), candidates: Map::empty() })
    } else {
        match merged_states(base_left, left, base_right, right, keys, (count - 1) as nat) {
            Ok(state) => {
                let key = keys[count - 1];
                let merge = merged_key(base_left, left, base_right, right, key);
                match with_candidates(state.candidates, merge.candidates, merge.candidates.len()) {
                    Some(candidates) => Ok(
                        StatesMerge {
                            objects: match merge.value {
                                Some(value) => state.objects.insert(key, value),
                                None => state.objects,
                            },
                            conflicts: conflicts_after(state.conflicts, merge),
                            candidates,
                        },
                    ),
                    None => Err(collision_error(key.first, key.second)),
                }
            },
            Err(e) => Err(e),
        }
    }
}

/// The keys that any of the four object maps has, in ascending order.
pub open spec fn all_keys(
    base_left: Map<PairView, JsonView>,
    left: Map<PairView, JsonView>,
    base_right: Map<PairView, JsonView>,
    right: Map<PairView, JsonView>,
) -> Seq<PairView> {
    table::ordered::<Pair>(base_left.dom() + left.dom() + base_right.dom() + right.dom())
}

/// The kinds of a list of conflicts, in ascending order.
pub open spec fn kinds_of(conflicts: Seq<JsonView>) -> Seq<Seq<char>> {
    text::sorted(
        Set::new(
            |kind: Seq<char>|
                exists|i: int|
                    0 <= i < conflicts.len() && (#[trigger] conflicts[i]).at("kind"@)
                        == JsonView::Text(kind),
        ),
    )
}

proof fn lemma_states_stop(
    base_left: Map<PairView, JsonView>,
    left: Map<PairView, JsonView>,
    base_right: Map<PairView, JsonView>,
    right: Map<PairView, JsonView>,
    keys: Seq<PairView>,
    count: nat,
    more: nat,
)
    requires
        0 < count <= more <= keys.len(),
        merged_states(base_left, left, base_right, right, keys, count) is Err,
    ensures
        merged_states(base_left, left, base_right, right, keys, more) == merged_states(
            base_left,
            left,
            base_right,
            right,
            keys,
            count,
        ),
    decreases more - count,
{
    if count < more {
        lemma_states_stop(base_left, left, base_right, right, keys, count, (more - 1) as nat);
    }
}

/// The kinds of a list of conflicts, in ascending order.
fn conflict_kinds(conflicts: &Vec<Json>) -> (r: Vec<String>)
    ensures
        text::views(r@) == kinds_of(text::views(conflicts@)),
{
    let ghost all = text::views(conflicts@);
    let mut kinds: Vec<String> = Vec::new();
    let mut i: usize = 0;
    while i < conflicts.len()
        invariant
            i <= conflicts@.len(),
            text::ascending(text::views(kinds@)),
            forall|t: Seq<char>|
                #[trigger] text::views(kinds@).to_set().contains(t) == exists|j: int|
                    0 <= j < i && (#[trigger] all[j]).at("kind"@) == JsonView::Text(t),
        decreases conflicts@.len() - i,
    {
        assert(all[i as int] == conflicts@[i as int]@);
        let ghost known = text::views(kinds@).to_set();
        match conflicts[i].get_text("kind") {
            Some(kind) => {
                text::add_text(&mut kinds, kind.as_str());
                assert forall|t: Seq<char>|
                    #[trigger] text::views(kinds@).to_set().contains(t) == exists|j: int|
                        0 <= j < i + 1 && (#[trigger] all[j]).at("kind"@) == JsonView::Text(t) by {
                    assert(known.contains(t) == exists|j: int|
                        0 <= j < i && (#[trigger] all[j]).at("kind"@) == JsonView::Text(t));
                    if t == kind@ {
                        assert(all[i as int].at("kind"@) == JsonView::Text(t));
                    }
                }
            },
            None => {
                assert forall|t: Seq<char>|
                    #[trigger] text::views(kinds@).to_set().contains(t) == exists|j: int|
                        0 <= j < i + 1 && (#[trigger] all[j]).at("kind"@) == JsonView::Text(t) by {
                    assert(known.contains(t) == exists|j: int|
                        0 <= j < i && (#[trigger] all[j]).at("kind"@) == JsonView::Text(t));
                }
            },
        }
        i += 1;
    }
    proof {
        text::lemma_sorted_is(text::views(kinds@));
        assert(text::views(kinds@).to_set() =~= Set::new(
            |kind: Seq<char>|
                exists|i: int|
                    0 <= i < all.len() && (#[trigger] all[i]).at("kind"@) == JsonView::Text(kind),
        ));
    }
    kinds
}

/// Merges the objects of two replicas, each with the objects of the state it
/// last shared.
#[verifier::rlimit(60)]
pub fn merge_sync_states_directional(
    baseline_local: &Table<Pair, Json>,
    current_local: &Table<Pair, Json>,
    baseline_remote: &Table<Pair, Json>,
    current_remote: &Table<Pair, Json>,
) -> (r: Result<SyncMerge, AppError>)
    ensures
        ({
            let keys = all_keys(
                baseline_local@,
                current_local@,
                baseline_remote@,
                current_remote@,
            );
            match merged_states(
                baseline_local@,
                current_local@,
                baseline_remote@,
                current_remote@,
                keys,
                keys.len(),
            ) {
                Ok(state) => {
                    &&& r matches Ok(merge)
                    &&& merge.objects@ == state.objects
                    &&& text::views(merge.conflicts@) == state.conflicts
                    &&& merge.candidates@ == state.candidates
                    &&& text::views(merge.conflict_kinds@) == kinds_of(state.conflicts)
                },
                Err(e) => r matches Err(got) && got@ == e,
            }
        }),
{
    let mut marks: Table<Pair, bool> = Table::new();
    marks.mark_keys(baseline_local);
    marks.mark_keys(current_local);
    marks.mark_keys(baseline_remote);
    marks.mark_keys(current_remote);
    let n = marks.len();
    let ghost keys = all_keys(
        baseline_local@,
        current_local@,
        baseline_remote@,
        current_remote@,
    );
    proof {
        assert(marks@.dom() =~= baseline_local@.dom() + current_local@.dom()
            + baseline_remote@.dom() + current_remote@.dom());
        table::lemma_ordered_is::<Pair>(marks.keys(), marks@.dom());
    }
    let mut objects: Table<Pair, Json> = Table::new();
    let mut conflicts: Vec<Json> = Vec::new();
    let mut candidates: Table<String, Vec<u8>> = Table::new();
    assert(text::views(conflicts@) =~= Seq::<JsonView>::empty());
    let mut i: usize = 0;
    while i < n
        invariant
            i <= n == keys.len(),
            keys == marks.keys(),
            merged_states(
                baseline_local@,
                current_local@,
                baseline_remote@,
                current_remote@,
                keys,
                i as nat,
            ) == Ok::<StatesMerge, AppErrorView>(
                StatesMerge {
                    objects: objects@,
                    conflicts: text::views(conflicts@),
                    candidates: candidates@,
                },
            ),
        decreases n - i,
    {
        let key = marks.key_at(i);
        let merged = merge_sync_object_directional(
            key.first.as_str(),
            key.second.as_str(),
            baseline_local.get(key),
            current_local.get(key),
            baseline_remote.get(key),
            current_remote.get(key),
            &mut conflicts,
            &mut candidates,
        );
        proof {
            if merged is Err {
                lemma_states_stop(
                    baseline_local@,
                    current_local@,
                    baseline_remote@,
                    current_remote@,
                    keys,
                    (i + 1) as nat,
                    keys.len(),
                );
            }
        }
        match merged {
            Ok(Some(value)) => {
                objects.put(Pair::new(key.first.as_str(), key.second.as_str()), value);
            },
            Ok(None) => {},
            Err(e) => {
                return Err(e);
            },
        }
        i += 1;
    }
    let kinds = conflict_kinds(&conflicts);
    Ok(SyncMerge { objects, conflicts, conflict_kinds: kinds, candidates })
}

} // verus!
