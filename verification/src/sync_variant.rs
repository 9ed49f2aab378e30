//! Keeping both objects of a conflict: one stays under its key, the other is
//! kept beside it under a key of its own.
use crate::digest;
use crate::digest::hash_content;
use crate::error;
use crate::error::{AppError, AppErrorView, ErrorCode};
use crate::json;
use crate::json::{canonical_sync_value, copy_items, parse_json, Json, JsonView};
use crate::sync_resolve::MAX_VARIANT_ATTEMPTS;
use crate::table;
use crate::table::{Pair, PairView, Table};
use crate::text;
use crate::text::{
    comes_before, head_text, join2, join3, join5, natural_text, owned, same_text, utf8_text,
};
use vstd::prelude::*;
use vstd::utf8;

verus! {

/// What identifies the content of a memory event.
pub struct MemoryMark {
    pub fingerprint: String,
    pub logical_bytes: i64,
}

#[verifier::ext_equal]
pub struct MemoryMarkView {
    pub fingerprint: Seq<char>,
    pub logical_bytes: int,
}

impl View for MemoryMark {
    type V = MemoryMarkView;

    open spec fn view(&self) -> MemoryMarkView {
        MemoryMarkView {
            fingerprint: self.fingerprint@,
            logical_bytes: self.logical_bytes as int,
        }
    }
}

pub open spec fn bad_resolution<T>(message: Seq<char>) -> Result<T, AppErrorView> {
    error::refused(ErrorCode::SyncResolutionInvalid, message)
}

pub open spec fn bad_state<T>(message: Seq<char>) -> Result<T, AppErrorView> {
    error::refused(ErrorCode::SyncStateInvalid, message)
}

fn fail<T>(code: ErrorCode, message: &str) -> (r: Result<T, AppError>)
    ensures
        r matches Err(e) && e@ == error::app_error(code, message@),
{
    Err(AppError::new(code, message))
}

// ---------------------------------------------------------------------------
// Lists in the order of a text
// ---------------------------------------------------------------------------

/// The text by which an item is sorted: that of one of its fields, or of all of it.
pub open spec fn sort_text(item: JsonView, field: Option<Seq<char>>) -> Seq<char> {
    match field {
        Some(key) => json::canonical_text(item.at(key)),
        None => json::canonical_text(item),
    }
}

/// A sorted list with one more item, behind those that sort the same.
pub open spec fn placed(
    items: Seq<JsonView>,
    field: Option<Seq<char>>,
    item: JsonView,
) -> Seq<JsonView>
    decreases items.len(),
{
    if items.len() == 0 {
        seq![item]
    } else if text::at_most(sort_text(items.last(), field), sort_text(item, field)) {
        items.push(item)
    } else {
        placed(items.drop_last(), field, item).push(items.last())
    }
}

/// The items in the order of their texts; those that sort the same keep their order.
pub open spec fn sorted_items(items: Seq<JsonView>, field: Option<Seq<char>>) -> Seq<JsonView>
    decreases items.len(),
{
    if items.len() == 0 {
        items
    } else {
        placed(sorted_items(items.drop_last(), field), field, items.last())
    }
}

/// The items without those that equal the item before them.
pub open spec fn without_repeats(items: Seq<JsonView>) -> Seq<JsonView>
    decreases items.len(),
{
    if items.len() <= 1 {
        items
    } else {
        let front = without_repeats(items.drop_last());
        if json::alike(front.last(), items.last()) {
            front
        } else {
            front.push(items.last())
        }
    }
}

fn sort_key(item: &Json, field: Option<&str>) -> (r: String)
    ensures
        r@ == sort_text(item@, text::opt_view(field)),
{
    match field {
        Some(key) => match item.get(key) {
            Some(value) => canonical_sync_value(value),
            None => canonical_sync_value(&Json::Null),
        },
        None => canonical_sync_value(item),
    }
}

proof fn lemma_placed(
    items: Seq<JsonView>,
    field: Option<Seq<char>>,
    item: JsonView,
    at: int,
)
    requires
        0 <= at <= items.len(),
        at > 0 ==> text::at_most(sort_text(items[at - 1], field), sort_text(item, field)),
        forall|j: int|
            at <= j < items.len() ==> !text::at_most(
                sort_text(#[trigger] items[j], field),
                sort_text(item, field),
            ),
    ensures
        placed(items, field, item) == items.insert(at, item),
    decreases items.len(),
{
    if items.len() == 0 {
        assert(seq![item] =~= items.insert(at, item));
    } else if at == items.len() {
        assert(items.push(item) =~= items.insert(at, item));
    } else {
        assert(!text::at_most(sort_text(items[items.len() - 1], field), sort_text(item, field)));
        lemma_placed(items.drop_last(), field, item, at);
        assert(items.drop_last().insert(at, item).push(items.last()) =~= items.insert(at, item));
    }
}

/// Sorts items by a text of theirs; those that sort the same keep their order.
fn sort_items(items: &Vec<Json>, field: Option<&str>) -> (r: Vec<Json>)
    ensures
        text::views(r@) == sorted_items(text::views(items@), text::opt_view(field)),
{
    let ghost all = text::views(items@);
    let ghost by = text::opt_view(field);
    let mut out: Vec<Json> = Vec::new();
    let mut keys: Vec<String> = Vec::new();
    let mut i: usize = 0;
    assert(text::views(out@) =~= all.take(0));
    while i < items.len()
        invariant
            i <= items@.len(),
            out@.len() == i,
            keys@.len() == i,
            text::views(out@) == sorted_items(all.take(i as int), by),
            forall|j: int| 0 <= j < i ==> (#[trigger] keys@[j])@ == sort_text(out@[j]@, by),
        decreases items@.len() - i,
    {
        let item = Json::duplicate(&items[i]);
        let key = sort_key(&item, field);
        let mut at: usize = i;
        while at > 0 && comes_before(key.as_str(), keys[at - 1].as_str())
            invariant
                at <= i,
                forall|j: int|
                    at <= j < i ==> text::before(
                        key@,
                        sort_text(#[trigger] text::views(out@)[j], by),
                    ),
            decreases at,
        {
            assert(text::views(out@)[at - 1] == out@[at - 1]@);
            at -= 1;
        }
        proof {
            assert(all.take(i + 1).drop_last() =~= all.take(i as int));
            assert(all.take(i + 1).last() == items@[i as int]@);
            if at > 0 {
                assert(text::views(out@)[at - 1] == out@[at - 1]@);
            }
            lemma_placed(text::views(out@), by, item@, at as int);
        }
        let ghost old_out = out@;
        let ghost old_keys = keys@;
        out.insert(at, item);
        keys.insert(at, key);
        proof {
            assert(text::views(out@) =~= text::views(old_out).insert(at as int, item@));
            assert forall|j: int| 0 <= j < i + 1 implies (#[trigger] keys@[j])@ == sort_text(
                out@[j]@,
                by,
            ) by {
                if j < at {
                    assert(keys@[j] == old_keys[j]);
                } else if j > at {
                    assert(keys@[j] == old_keys[j - 1]);
                }
            }
        }
        i += 1;
    }
    assert(all.take(items@.len() as int) =~= all);
    out
}

proof fn lemma_repeats_nonempty(items: Seq<JsonView>)
    requires
        items.len() > 0,
    ensures
        without_repeats(items).len() > 0,
    decreases items.len(),
{
    if items.len() > 1 {
        lemma_repeats_nonempty(items.drop_last());
    }
}

/// Drops the items that equal the item before them.
fn drop_repeats(items: &Vec<Json>) -> (r: Vec<Json>)
    ensures
        text::views(r@) == without_repeats(text::views(items@)),
{
    let ghost all = text::views(items@);
    let mut out: Vec<Json> = Vec::new();
    let mut i: usize = 0;
    assert(text::views(out@) =~= all.take(0));
    while i < items.len()
        invariant
            i <= items@.len(),
            text::views(out@) == without_repeats(all.take(i as int)),
            i > 0 ==> out@.len() > 0,
        decreases items@.len() - i,
    {
        proof {
            assert(all.take(i + 1).drop_last() =~= all.take(i as int));
            assert(all.take(i + 1).last() == items@[i as int]@);
            lemma_repeats_nonempty(all.take(i + 1));
        }
        let known = if i > 0 {
            assert(text::views(out@).last() == out@[out@.len() - 1]@);
            out[out.len() - 1].equals(&items[i])
        } else {
            assert(all.take(1) =~= seq![items@[0]@]);
            false
        };
        if !known {
            let item = Json::duplicate(&items[i]);
            proof {
                text::lemma_views_push(out@, item);
                if i == 0 {
                    assert(text::views(out@).push(item@) =~= seq![items@[0]@]);
                }
            }
            out.push(item);
        }
        i += 1;
    }
    assert(all.take(items@.len() as int) =~= all);
    out
}

// ---------------------------------------------------------------------------
// The variant of an object
// ---------------------------------------------------------------------------

/// The kinds whose variants are named by a digest.
pub open spec fn is_digest_named(kind: Seq<char>) -> bool {
    kind == "todo"@ || kind == "plan"@ || kind == "memory"@ || kind == "discussion"@
}

/// The key of the variant of an object, at this attempt.
pub open spec fn variant_key(
    kind: Seq<char>,
    key: Seq<char>,
    losing_hash: Seq<char>,
    attempt: nat,
) -> Result<Seq<char>, AppErrorView> {
    if kind == "page"@ {
        let base = key + "--sync-"@ + text::first_chars(losing_hash, 12);
        Ok(
            if attempt == 0 {
                base
            } else {
                base + "-"@ + text::natural(attempt + 1)
            },
        )
    } else if is_digest_named(kind) {
        let base = "sync-conflict\0"@ + kind + "\0"@ + key + "\0"@ + losing_hash;
        let named = if attempt == 0 {
            base
        } else {
            base + "\0"@ + text::natural(attempt)
        };
        Ok(text::first_chars(digest::text_digest(named), 32))
    } else {
        bad_resolution("preserve-both is unsupported for "@ + kind)
    }
}

/// An object with the field `inner` of its field `outer` set; what is missing is
/// made. None where something else stands in the way.
pub open spec fn with_nested(
    value: JsonView,
    outer: Seq<char>,
    inner: Seq<char>,
    set: JsonView,
) -> Option<JsonView> {
    let entries = match value {
        JsonView::Object(entries) => Some(entries),
        JsonView::Null => Some(Seq::empty()),
        _ => None,
    };
    let child = match value.at(outer) {
        JsonView::Object(inside) => Some(inside),
        JsonView::Null => Some(Seq::empty()),
        _ => None,
    };
    if entries is Some && child is Some {
        Some(
            JsonView::Object(
                json::with_entry(
                    entries->0,
                    outer,
                    JsonView::Object(json::with_entry(child->0, inner, set)),
                ),
            ),
        )
    } else {
        None
    }
}

/// The first `count` events of a discussion with the discussion's key set.
pub open spec fn renamed_events(
    events: Seq<JsonView>,
    key: Seq<char>,
    count: nat,
) -> Option<Seq<JsonView>>
    decreases count,
{
    if count == 0 || count > events.len() {
        Some(Seq::empty())
    } else {
        let front = renamed_events(events, key, (count - 1) as nat);
        let last = with_nested(events[count - 1], "input"@, "id"@, JsonView::Text(key));
        if front is Some && last is Some {
            Some(front->0.push(last->0))
        } else {
            None
        }
    }
}

/// A discussion under another key.
pub open spec fn renamed_discussion(
    variant: JsonView,
    key: Seq<char>,
) -> Result<JsonView, AppErrorView> {
    match with_nested(variant, "body"@, "id"@, JsonView::Text(key)) {
        None => bad_state("conflict candidate is not an object"@),
        Some(named) => {
            let entries = named->Object_0;
            match named.at("history"@) {
                JsonView::Array(events) => match renamed_events(events, key, events.len()) {
                    Some(renamed) => Ok(
                        JsonView::Object(
                            json::with_entry(entries, "history"@, JsonView::Array(renamed)),
                        ),
                    ),
                    None => bad_state("conflict candidate is not an object"@),
                },
                other => Ok(JsonView::Object(json::with_entry(entries, "history"@, other))),
            }
        },
    }
}

/// Some item has this text in this field.
pub open spec fn holds_field(items: Seq<JsonView>, field: Seq<char>, wanted: Seq<char>) -> bool {
    exists|i: int|
        0 <= i < items.len() && (#[trigger] items[i]).at(field) == JsonView::Text(wanted)
}

/// The piece of evidence that a memory event is the variant of another.
pub open spec fn variant_evidence(original: Seq<char>) -> JsonView {
    JsonView::Object(
        seq![
            json::entry("excerpt"@, JsonView::Null),
            json::entry("reference"@, JsonView::Text("lwc:sync-conflict:"@ + original)),
        ],
    )
}

/// A memory event that says that it is the variant of another.
pub open spec fn refreshed_memory(
    variant: JsonView,
    original: Seq<char>,
    marks: Map<Seq<char>, MemoryMarkView>,
) -> Result<JsonView, AppErrorView> {
    match variant.at("evidence"@) {
        JsonView::Array(evidence) => {
            let reference = "lwc:sync-conflict:"@ + original;
            let after = if holds_field(evidence, "reference"@, reference) {
                evidence
            } else {
                sorted_items(evidence.push(variant_evidence(original)), Some("reference"@))
            };
            if !marks.dom().contains(original) {
                bad_state("Memory conflict has no fingerprint"@)
            } else {
                let mark = marks[original];
                Ok(
                    JsonView::Object(
                        json::with_entry(
                            json::with_entry(
                                json::with_entry(
                                    variant->Object_0,
                                    "evidence"@,
                                    JsonView::Array(after),
                                ),
                                "fingerprint"@,
                                JsonView::Text(mark.fingerprint),
                            ),
                            "logical_bytes"@,
                            JsonView::Int(mark.logical_bytes),
                        ),
                    ),
                )
            }
        },
        _ => bad_state("Memory conflict evidence is missing"@),
    }
}

/// An object as the variant of another under `variant`.
pub open spec fn variant_of(
    kind: Seq<char>,
    key: Seq<char>,
    variant: Seq<char>,
    payload: JsonView,
    marks: Map<Seq<char>, MemoryMarkView>,
) -> Result<JsonView, AppErrorView> {
    if payload !is Object {
        bad_state("conflict candidate is not an object"@)
    } else {
        let id_field = if kind == "page"@ {
            "slug"@
        } else {
            "id"@
        };
        let named = JsonView::Object(
            json::with_entry(payload->Object_0, id_field, JsonView::Text(variant)),
        );
        if kind == "discussion"@ {
            renamed_discussion(named, variant)
        } else if kind == "todo"@ || kind == "plan"@ {
            match named.at("tags"@) {
                JsonView::Array(tags) => Ok(
                    JsonView::Object(
                        json::with_entry(
                            named->Object_0,
                            "tags"@,
                            JsonView::Array(
                                without_repeats(
                                    sorted_items(
                                        tags.push(JsonView::Text("sync-conflict"@)),
                                        None,
                                    ),
                                ),
                            ),
                        ),
                    ),
                ),
                _ => bad_state("conflict candidate tags are missing"@),
            }
        } else if kind == "memory"@ {
            refreshed_memory(named, key, marks)
        } else {
            Ok(named)
        }
    }
}

/// The key of the variant of an object, at this attempt.
pub fn sync_conflict_variant_key_at(
    kind: &str,
    logical_key: &str,
    losing_hash: &str,
    attempt: usize,
) -> (r: Result<String, AppError>)
    ensures
        error::outcome(r) == variant_key(kind@, logical_key@, losing_hash@, attempt as nat),
{
    if same_text(kind, "page") {
        let base = join3(logical_key, "--sync-", head_text(losing_hash, 12).as_str());
        if attempt == 0 {
            return Ok(base);
        }
        let number = natural_text(attempt as u128 + 1);
        return Ok(join3(base.as_str(), "-", number.as_str()));
    }
    if same_text(kind, "todo") || same_text(kind, "plan") || same_text(kind, "memory")
        || same_text(kind, "discussion") {
        let front = join5("sync-conflict\0", kind, "\0", logical_key, "\0");
        let base = join2(front.as_str(), losing_hash);
        let named = if attempt == 0 {
            base
        } else {
            join3(base.as_str(), "\0", natural_text(attempt as u128).as_str())
        };
        return Ok(head_text(hash_content(named.as_str()).as_str(), 32));
    }
    fail(
        ErrorCode::SyncResolutionInvalid,
        join2("preserve-both is unsupported for ", kind).as_str(),
    )
}

fn set_nested(value: &Json, outer: &str, inner: &str, set: Json) -> (r: Option<Json>)
    ensures
        text::opt_view(r) == with_nested(value@, outer@, inner@, set@),
{
    let mut whole = match value {
        Json::Object(_) => Json::duplicate(value),
        Json::Null => {
            let none: Vec<(String, Json)> = Vec::new();
            proof {
                json::lemma_object_view(none);
                assert(json::entry_views(none@) =~= Seq::empty());
            }
            Json::Object(none)
        },
        _ => {
            return None;
        },
    };
    let mut child = match value.get(outer) {
        Some(Json::Null) | None => {
            let none: Vec<(String, Json)> = Vec::new();
            proof {
                json::lemma_object_view(none);
                assert(json::entry_views(none@) =~= Seq::empty());
            }
            Json::Object(none)
        },
        Some(found) => match found {
            Json::Object(_) => Json::duplicate(found),
            _ => {
                return None;
            },
        },
    };
    child.set(inner, set);
    whole.set(outer, child);
    Some(whole)
}

proof fn lemma_events_stop(events: Seq<JsonView>, key: Seq<char>, count: nat, more: nat)
    requires
        0 < count <= more <= events.len(),
        renamed_events(events, key, count) is None,
    ensures
        renamed_events(events, key, more) is None,
    decreases more - count,
{
    if count < more {
        lemma_events_stop(events, key, count, (more - 1) as nat);
    }
}

fn rename_events(events: &Vec<Json>, key: &str) -> (r: Option<Vec<Json>>)
    ensures
        match renamed_events(text::views(events@), key@, events@.len()) {
            Some(renamed) => r matches Some(list) && text::views(list@) == renamed,
            None => r is None,
        },
{
    let ghost all = text::views(events@);
    let mut out: Vec<Json> = Vec::new();
    let mut i: usize = 0;
    assert(text::views(out@) =~= Seq::empty());
    while i < events.len()
        invariant
            i <= events@.len(),
            renamed_events(all, key@, i as nat) == Some(text::views(out@)),
        decreases events@.len() - i,
    {
        assert(all[i as int] == events@[i as int]@);
        match set_nested(&events[i], "input", "id", Json::text(key)) {
            Some(event) => {
                proof {
                    text::lemma_views_push(out@, event);
                }
                out.push(event);
            },
            None => {
                proof {
                    lemma_events_stop(all, key@, (i + 1) as nat, events@.len());
                }
                return None;
            },
        }
        i += 1;
    }
    Some(out)
}

fn rename_discussion(variant: &Json, key: &str) -> (r: Result<Json, AppError>)
    ensures
        error::outcome(r) == renamed_discussion(variant@, key@),
{
    let mut named = match set_nested(variant, "body", "id", Json::text(key)) {
        Some(named) => named,
        None => {
            return fail(ErrorCode::SyncStateInvalid, "conflict candidate is not an object");
        },
    };
    let history = match named.get("history") {
        Some(Json::Array(events)) => {
            proof {
                json::lemma_array_view(*events);
            }
            match rename_events(events, key) {
                Some(renamed) => {
                    proof {
                        json::lemma_array_view(renamed);
                    }
                    Json::Array(renamed)
                },
                None => {
                    return fail(
                        ErrorCode::SyncStateInvalid,
                        "conflict candidate is not an object",
                    );
                },
            }
        },
        Some(other) => Json::duplicate(other),
        None => Json::Null,
    };
    named.set("history", history);
    Ok(named)
}

/// Whether some item has this text in this field.
fn has_field(items: &Vec<Json>, field: &str, wanted: &str) -> (r: bool)
    ensures
        r == holds_field(text::views(items@), field@, wanted@),
{
    let mut i: usize = 0;
    while i < items.len()
        invariant
            i <= items@.len(),
            forall|j: int|
                0 <= j < i ==> (#[trigger] text::views(items@)[j]).at(field@) != JsonView::Text(
                    wanted@,
                ),
        decreases items@.len() - i,
    {
        assert(text::views(items@)[i as int] == items@[i as int]@);
        match items[i].get_text(field) {
            Some(found) => {
                if same_text(found.as_str(), wanted) {
                    return true;
                }
            },
            None => {},
        }
        i += 1;
    }
    false
}

/// Makes a memory event say that it is the variant of another.
pub fn refresh_sync_memory_variant(
    variant: &Json,
    original_id: &str,
    marks: &Table<String, MemoryMark>,
) -> (r: Result<Json, AppError>)
    requires
        variant@ is Object,
    ensures
        error::outcome(r) == refreshed_memory(variant@, original_id@, marks@),
{
    let evidence = match variant.get("evidence") {
        Some(Json::Array(evidence)) => evidence,
        _ => {
            return fail(ErrorCode::SyncStateInvalid, "Memory conflict evidence is missing");
        },
    };
    proof {
        json::lemma_array_view(*evidence);
    }
    let reference = join2("lwc:sync-conflict:", original_id);
    let mut after = copy_items(evidence);
    if !has_field(evidence, "reference", reference.as_str()) {
        let mut entries: Vec<(String, Json)> = Vec::new();
        entries.push((owned("excerpt"), Json::Null));
        entries.push((owned("reference"), Json::text(reference.as_str())));
        proof {
            json::lemma_object_view(entries);
            assert(json::entry_views(entries@) =~= variant_evidence(original_id@)->Object_0);
            text::lemma_views_push(after@, Json::Object(entries));
        }
        after.push(Json::Object(entries));
        after = sort_items(&after, Some("reference"));
    }
    let mark = match marks.get(&owned(original_id)) {
        Some(mark) => mark,
        None => {
            return fail(ErrorCode::SyncStateInvalid, "Memory conflict has no fingerprint");
        },
    };
    proof {
        json::lemma_array_view(after);
    }
    let mut copy = Json::duplicate(variant);
    copy.set("evidence", Json::Array(after));
    copy.set("fingerprint", Json::text(mark.fingerprint.as_str()));
    copy.set("logical_bytes", Json::Int(mark.logical_bytes));
    Ok(copy)
}

/// An object as the variant of another under `variant_key`.
pub fn sync_conflict_variant_for_key(
    kind: &str,
    logical_key: &str,
    variant_key: &str,
    payload: &Json,
    marks: &Table<String, MemoryMark>,
) -> (r: Result<Json, AppError>)
    ensures
        error::outcome(r) == variant_of(kind@, logical_key@, variant_key@, payload@, marks@),
{
    match payload {
        Json::Object(_) => {},
        _ => {
            return fail(ErrorCode::SyncStateInvalid, "conflict candidate is not an object");
        },
    }
    let mut named = Json::duplicate(payload);
    if same_text(kind, "page") {
        named.set("slug", Json::text(variant_key));
    } else {
        named.set("id", Json::text(variant_key));
    }
    if same_text(kind, "discussion") {
        proof {
            reveal_strlit("discussion");
            reveal_strlit("page");
        }
        return rename_discussion(&named, variant_key);
    }
    if same_text(kind, "todo") || same_text(kind, "plan") {
        let mut tags = match named.get("tags") {
            Some(Json::Array(tags)) => {
                proof {
                    json::lemma_array_view(*tags);
                }
                copy_items(tags)
            },
            _ => {
                return fail(ErrorCode::SyncStateInvalid, "conflict candidate tags are missing");
            },
        };
        let mark = Json::text("sync-conflict");
        proof {
            text::lemma_views_push(tags@, mark);
        }
        tags.push(mark);
        let sorted = sort_items(&tags, None);
        let tags = drop_repeats(&sorted);
        proof {
            json::lemma_array_view(tags);
        }
        named.set("tags", Json::Array(tags));
        return Ok(named);
    }
    if same_text(kind, "memory") {
        return refresh_sync_memory_variant(&named, logical_key, marks);
    }
    Ok(named)
}


// ---------------------------------------------------------------------------
// Keeping both
// ---------------------------------------------------------------------------

/// A variant and the key it is kept under; `present` where it stands there already.
#[verifier::ext_equal]
pub struct VariantView {
    pub key: Seq<char>,
    pub value: JsonView,
    pub present: bool,
}

/// The first key, from this attempt on, that is free or holds the variant already.
pub open spec fn find_variant(
    objects: Map<PairView, JsonView>,
    kind: Seq<char>,
    key: Seq<char>,
    losing_hash: Seq<char>,
    payload: JsonView,
    marks: Map<Seq<char>, MemoryMarkView>,
    attempt: nat,
) -> Result<VariantView, AppErrorView>
    decreases MAX_VARIANT_ATTEMPTS - attempt,
{
    if attempt >= MAX_VARIANT_ATTEMPTS {
        bad_resolution("Sync conflict variant key space is exhausted"@)
    } else {
        match variant_key(kind, key, losing_hash, attempt) {
            Err(e) => Err(e),
            Ok(name) => match variant_of(kind, key, name, payload, marks) {
                Err(e) => Err(e),
                Ok(value) => {
                    let at = table::pair(kind, name);
                    if !objects.dom().contains(at) {
                        Ok(VariantView { key: name, value, present: false })
                    } else if json::alike(objects[at], value) {
                        Ok(VariantView { key: name, value, present: true })
                    } else {
                        find_variant(
                            objects,
                            kind,
                            key,
                            losing_hash,
                            payload,
                            marks,
                            attempt + 1,
                        )
                    }
                },
            },
        }
    }
}

/// A variant and the key it is kept under.
pub struct Variant {
    pub key: String,
    pub value: Json,
    pub present: bool,
}

impl View for Variant {
    type V = VariantView;

    open spec fn view(&self) -> VariantView {
        VariantView { key: self.key@, value: self.value@, present: self.present }
    }
}

/// The first key that is free for the variant of an object or holds it already.
pub fn available_sync_conflict_variant(
    objects: &Table<Pair, Json>,
    kind: &str,
    logical_key: &str,
    losing_hash: &str,
    payload: &Json,
    marks: &Table<String, MemoryMark>,
) -> (r: Result<Variant, AppError>)
    ensures
        error::outcome(r) == find_variant(
            objects@,
            kind@,
            logical_key@,
            losing_hash@,
            payload@,
            marks@,
            0,
        ),
{
    let mut attempt: usize = 0;
    while attempt < MAX_VARIANT_ATTEMPTS
        invariant
            attempt <= MAX_VARIANT_ATTEMPTS,
            find_variant(objects@, kind@, logical_key@, losing_hash@, payload@, marks@, 0)
                == find_variant(
                objects@,
                kind@,
                logical_key@,
                losing_hash@,
                payload@,
                marks@,
                attempt as nat,
            ),
        decreases MAX_VARIANT_ATTEMPTS - attempt,
    {
        let key = match sync_conflict_variant_key_at(kind, logical_key, losing_hash, attempt) {
            Ok(key) => key,
            Err(e) => {
                return Err(e);
            },
        };
        let value = match sync_conflict_variant_for_key(
            kind,
            logical_key,
            key.as_str(),
            payload,
            marks,
        ) {
            Ok(value) => value,
            Err(e) => {
                return Err(e);
            },
        };
        match objects.get(&Pair::new(kind, key.as_str())) {
            None => {
                return Ok(Variant { key, value, present: false });
            },
            Some(found) => {
                if found.equals(&value) {
                    return Ok(Variant { key, value, present: true });
                }
            },
        }
        attempt += 1;
    }
    fail(ErrorCode::SyncResolutionInvalid, "Sync conflict variant key space is exhausted")
}

/// The kind of the objects that refer to objects of this kind by key.
pub open spec fn referring_kind(kind: Seq<char>) -> Option<Seq<char>> {
    if kind == "todo"@ {
        Some("todo"@)
    } else if kind == "page"@ {
        Some("tag"@)
    } else if kind == "memory"@ {
        Some("memory"@)
    } else {
        None
    }
}

/// An object with a reference in one of its fields moved.
pub open spec fn moved_field(
    value: JsonView,
    field: Seq<char>,
    original: Seq<char>,
    variant: Seq<char>,
) -> JsonView {
    if value.at(field) == JsonView::Text(original) {
        JsonView::Object(json::with_entry(value->Object_0, field, JsonView::Text(variant)))
    } else {
        value
    }
}

/// An object with the references in the items of one of its lists moved.
pub open spec fn moved_list(
    value: JsonView,
    list: Seq<char>,
    field: Seq<char>,
    original: Seq<char>,
    variant: Seq<char>,
) -> JsonView {
    match value.at(list) {
        JsonView::Array(items) => JsonView::Object(
            json::with_entry(
                value->Object_0,
                list,
                JsonView::Array(
                    items.map_values(|item: JsonView| moved_field(item, field, original, variant)),
                ),
            ),
        ),
        _ => value,
    }
}

/// An object with its references from the original to the variant moved.
pub open spec fn moved_references(
    kind: Seq<char>,
    value: JsonView,
    original: Seq<char>,
    variant: Seq<char>,
) -> JsonView {
    if kind == "todo"@ {
        moved_field(value, "parent_id"@, original, variant)
    } else if kind == "page"@ {
        moved_list(value, "pages"@, "slug"@, original, variant)
    } else if kind == "memory"@ {
        moved_list(value, "relations"@, "target"@, original, variant)
    } else {
        value
    }
}

/// The objects with every reference from the original to the variant moved.
pub open spec fn all_moved(
    objects: Map<PairView, JsonView>,
    kind: Seq<char>,
    original: Seq<char>,
    variant: Seq<char>,
) -> Map<PairView, JsonView> {
    Map::new(
        |at: PairView| objects.dom().contains(at),
        |at: PairView|
            if referring_kind(kind) == Some(at.first) {
                moved_references(kind, objects[at], original, variant)
            } else {
                objects[at]
            },
    )
}

fn move_field(value: &Json, field: &str, original: &str, variant: &str) -> (r: Json)
    ensures
        r@ == moved_field(value@, field@, original@, variant@),
{
    let mut copy = Json::duplicate(value);
    match value.get_text(field) {
        Some(found) => {
            if same_text(found.as_str(), original) {
                copy.set(field, Json::text(variant));
            }
        },
        None => {},
    }
    copy
}

fn move_list(value: &Json, list: &str, field: &str, original: &str, variant: &str) -> (r: Json)
    ensures
        r@ == moved_list(value@, list@, field@, original@, variant@),
{
    let mut copy = Json::duplicate(value);
    match value.get(list) {
        Some(Json::Array(items)) => {
            let mut out: Vec<Json> = Vec::new();
            let mut i: usize = 0;
            while i < items.len()
                invariant
                    i <= items@.len(),
                    out@.len() == i,
                    forall|j: int|
                        0 <= j < i ==> (#[trigger] out@[j])@ == moved_field(
                            items@[j]@,
                            field@,
                            original@,
                            variant@,
                        ),
                decreases items@.len() - i,
            {
                out.push(move_field(&items[i], field, original, variant));
                i += 1;
            }
            proof {
                json::lemma_array_view(*items);
                json::lemma_array_view(out);
                assert(text::views(out@) =~= text::views(items@).map_values(
                    |item: JsonView| moved_field(item, field@, original@, variant@),
                ));
            }
            copy.set(list, Json::Array(out));
        },
        _ => {},
    }
    copy
}

/// Moves every reference from the original object to its variant.
pub fn remap_sync_conflict_references(
    objects: &mut Table<Pair, Json>,
    kind: &str,
    original: &str,
    variant: &str,
)
    ensures
        final(objects)@ == all_moved(old(objects)@, kind@, original@, variant@),
{
    let referring = if same_text(kind, "todo") {
        "todo"
    } else if same_text(kind, "page") {
        "tag"
    } else if same_text(kind, "memory") {
        "memory"
    } else {
        assert(objects@ =~= all_moved(old(objects)@, kind@, original@, variant@));
        return;
    };
    let source = objects.copy();
    let n = source.len();
    let ghost goal = all_moved(old(objects)@, kind@, original@, variant@);
    let ghost keys = source.keys();
    let mut i: usize = 0;
    while i < n
        invariant
            i <= n == keys.len(),
            keys == source.keys(),
            table::lists::<Pair>(keys, source@.dom()),
            objects@.dom() == source@.dom(),
            source@ == old(objects)@,
            forall|at: PairView|
                source@.dom().contains(at) ==> #[trigger] objects@[at] == (if keys.take(
                    i as int,
                ).contains(at) {
                    goal[at]
                } else {
                    source@[at]
                }),
        decreases n - i,
    {
        let key = source.key_at(i);
        let value = source.value_at(i);
        let ghost at = keys[i as int];
        let ghost was = objects@;
        if same_text(key.first.as_str(), referring) {
            let moved = if same_text(kind, "todo") {
                move_field(value, "parent_id", original, variant)
            } else if same_text(kind, "page") {
                move_list(value, "pages", "slug", original, variant)
            } else {
                move_list(value, "relations", "target", original, variant)
            };
            assert(moved@ == moved_references(kind@, value@, original@, variant@));
            objects.put(Pair::new(key.first.as_str(), key.second.as_str()), moved);
        }
        proof {
            assert(objects@.dom() =~= source@.dom());
            assert forall|x: PairView| source@.dom().contains(x) implies #[trigger] objects@[x] == (
            if keys.take(i + 1).contains(x) {
                goal[x]
            } else {
                source@[x]
            }) by {
                assert(keys.take(i + 1) =~= keys.take(i as int).push(at));
                if x == at {
                    assert(keys.take(i + 1)[i as int] == at);
                    if keys.take(i as int).contains(at) {
                        let j = keys.take(i as int).index_of(at);
                        assert(<Pair as table::TableKey>::precedes(keys[j], keys[i as int]));
                        <Pair as table::TableKey>::lemma_order(at, at, at);
                    }
                } else {
                    assert(was[x] == objects@[x]);
                    if keys.take(i as int).contains(x) {
                        let j = keys.take(i as int).index_of(x);
                        assert(keys.take(i + 1)[j] == x);
                    }
                    if keys.take(i + 1).contains(x) {
                        let j = keys.take(i + 1).index_of(x);
                        assert(keys.take(i as int)[j] == x);
                    }
                }
            }
        }
        i += 1;
    }
    proof {
        assert(keys.take(n as int) =~= keys);
        assert forall|x: PairView| source@.dom().contains(x) implies objects@[x] == goal[x] by {
            assert(keys.to_set().contains(x));
            assert(objects@[x] == goal[x]);
        }
        assert(objects@ =~= goal);
    }
}

/// The key of the tag that lists the variants of pages.
pub open spec fn label_at() -> PairView {
    table::pair("tag"@, "sync-conflict"@)
}

/// The tag that lists the variants of pages, before it lists any.
pub open spec fn fresh_label(updated_at: Seq<char>) -> JsonView {
    JsonView::Object(
        seq![
            json::entry("autoload"@, JsonView::Bool(false)),
            json::entry("autoload_limit"@, JsonView::Int(10)),
            json::entry("autoload_max_chars"@, JsonView::Int(50000)),
            json::entry("autoload_priority"@, JsonView::Int(0)),
            json::entry("name"@, JsonView::Text("sync-conflict"@)),
            json::entry("pages"@, JsonView::Array(Seq::empty())),
            json::entry("reason"@, JsonView::Text("Deterministic Sync conflict variants"@)),
            json::entry("updated_at"@, JsonView::Text(updated_at)),
        ],
    )
}

/// The entry of a page in that tag.
pub open spec fn label_entry(
    slug: Seq<char>,
    created_at: Seq<char>,
    updated_at: Seq<char>,
) -> JsonView {
    JsonView::Object(
        seq![
            json::entry("created_at"@, JsonView::Text(created_at)),
            json::entry("priority"@, JsonView::Int(0)),
            json::entry(
                "reason"@,
                JsonView::Text("Preserved by deterministic Sync conflict handling"@),
            ),
            json::entry("slug"@, JsonView::Text(slug)),
            json::entry("updated_at"@, JsonView::Text(updated_at)),
        ],
    )
}

/// The objects with the variant of a page listed in the tag for such variants.
pub open spec fn labelled(
    objects: Map<PairView, JsonView>,
    slug: Seq<char>,
    variant: JsonView,
) -> Result<Map<PairView, JsonView>, AppErrorView> {
    if variant.at("created_at"@) !is Text {
        bad_state("Page conflict lacks created_at"@)
    } else if variant.at("updated_at"@) !is Text {
        bad_state("Page conflict lacks updated_at"@)
    } else {
        let created_at = variant.at("created_at"@)->Text_0;
        let updated_at = variant.at("updated_at"@)->Text_0;
        let tag = if objects.dom().contains(label_at()) {
            objects[label_at()]
        } else {
            fresh_label(updated_at)
        };
        match tag.at("pages"@) {
            JsonView::Array(pages) => {
                let after = if holds_field(pages, "slug"@, slug) {
                    pages
                } else {
                    sorted_items(
                        pages.push(label_entry(slug, created_at, updated_at)),
                        Some("slug"@),
                    )
                };
                Ok(
                    objects.insert(
                        label_at(),
                        JsonView::Object(
                            json::with_entry(tag->Object_0, "pages"@, JsonView::Array(after)),
                        ),
                    ),
                )
            },
            _ => bad_state("sync-conflict tag pages are invalid"@),
        }
    }
}

fn fresh_label_json(updated_at: &str) -> (r: Json)
    ensures
        r@ == fresh_label(updated_at@),
{
    let none: Vec<Json> = Vec::new();
    proof {
        json::lemma_array_view(none);
        assert(text::views(none@) =~= Seq::empty());
    }
    let mut entries: Vec<(String, Json)> = Vec::new();
    entries.push((owned("autoload"), Json::Bool(false)));
    entries.push((owned("autoload_limit"), Json::Int(10)));
    entries.push((owned("autoload_max_chars"), Json::Int(50000)));
    entries.push((owned("autoload_priority"), Json::Int(0)));
    entries.push((owned("name"), Json::text("sync-conflict")));
    entries.push((owned("pages"), Json::Array(none)));
    entries.push((owned("reason"), Json::text("Deterministic Sync conflict variants")));
    entries.push((owned("updated_at"), Json::text(updated_at)));
    proof {
        json::lemma_object_view(entries);
        assert(json::entry_views(entries@) =~= fresh_label(updated_at@)->Object_0);
    }
    Json::Object(entries)
}

/// Lists the variant of a page in the tag for such variants.
pub fn label_sync_conflict_page(
    objects: &mut Table<Pair, Json>,
    variant_key: &str,
    variant: &Json,
) -> (r: Result<(), AppError>)
    ensures
        match labelled(old(objects)@, variant_key@, variant@) {
            Ok(after) => r is Ok && final(objects)@ == after,
            Err(e) => (r matches Err(got) && got@ == e) && final(objects)@ == old(objects)@,
        },
{
    let created_at = match variant.get_text("created_at") {
        Some(at) => at,
        None => {
            return fail(ErrorCode::SyncStateInvalid, "Page conflict lacks created_at");
        },
    };
    let updated_at = match variant.get_text("updated_at") {
        Some(at) => at,
        None => {
            return fail(ErrorCode::SyncStateInvalid, "Page conflict lacks updated_at");
        },
    };
    let mut tag = match objects.get(&Pair::new("tag", "sync-conflict")) {
        Some(tag) => Json::duplicate(tag),
        None => fresh_label_json(updated_at.as_str()),
    };
    let mut pages = match tag.get("pages") {
        Some(Json::Array(pages)) => {
            proof {
                json::lemma_array_view(*pages);
            }
            copy_items(pages)
        },
        _ => {
            return fail(ErrorCode::SyncStateInvalid, "sync-conflict tag pages are invalid");
        },
    };
    if !has_field(&pages, "slug", variant_key) {
        let mut entries: Vec<(String, Json)> = Vec::new();
        entries.push((owned("created_at"), Json::text(created_at.as_str())));
        entries.push((owned("priority"), Json::Int(0)));
        entries.push(
            (owned("reason"), Json::text("Preserved by deterministic Sync conflict handling")),
        );
        entries.push((owned("slug"), Json::text(variant_key)));
        entries.push((owned("updated_at"), Json::text(updated_at.as_str())));
        proof {
            json::lemma_object_view(entries);
            assert(json::entry_views(entries@) =~= label_entry(
                variant_key@,
                created_at@,
                updated_at@,
            )->Object_0);
            text::lemma_views_push(pages@, Json::Object(entries));
        }
        pages.push(Json::Object(entries));
        pages = sort_items(&pages, Some("slug"));
    }
    proof {
        json::lemma_array_view(pages);
    }
    tag.set("pages", Json::Array(pages));
    objects.put(Pair::new("tag", "sync-conflict"), tag);
    Ok(())
}

/// What a kept candidate says.
pub open spec fn read_candidate(bytes: Seq<u8>) -> Result<JsonView, AppErrorView> {
    if !utf8::valid_utf8(bytes) {
        bad_state("conflict candidate is not UTF-8"@)
    } else {
        match json::parsed_json(utf8::decode_utf8(bytes)) {
            Ok(value) => Ok(value),
            Err(reason) => bad_state(reason),
        }
    }
}

/// The candidates that the first `count` references lead to, each under the
/// digest of its text. A reference to nothing is passed over.
pub open spec fn gathered(
    refs: Seq<JsonView>,
    blobs: Map<Seq<char>, Seq<u8>>,
    count: nat,
) -> Result<Map<Seq<char>, JsonView>, AppErrorView>
    decreases count,
{
    if count == 0 || count > refs.len() {
        Ok(Map::empty())
    } else {
        match gathered(refs, blobs, (count - 1) as nat) {
            Err(e) => Err(e),
            Ok(found) => match refs[count - 1] {
                JsonView::Text(name) => if !blobs.dom().contains(name) {
                    Ok(found)
                } else {
                    match read_candidate(blobs[name]) {
                        Err(e) => Err(e),
                        Ok(value) => {
                            let hash = digest::text_digest(json::canonical_text(value));
                            if found.dom().contains(hash) {
                                Ok(found)
                            } else {
                                Ok(found.insert(hash, value))
                            }
                        },
                    }
                },
                _ => bad_state("preserve-both candidate ref is invalid"@),
            },
        }
    }
}

/// The objects after both objects of a conflict are kept.
pub open spec fn both_kept(
    objects: Map<PairView, JsonView>,
    blobs: Map<Seq<char>, Seq<u8>>,
    kind: Seq<char>,
    key: Seq<char>,
    conflict: JsonView,
    marks: Map<Seq<char>, MemoryMarkView>,
) -> Result<Map<PairView, JsonView>, AppErrorView> {
    match conflict.at("candidate_refs"@) {
        JsonView::Array(refs) => match gathered(refs, blobs, refs.len()) {
            Err(e) => Err(e),
            Ok(found) => {
                let order = table::ordered::<String>(found.dom());
                if order.len() != 2 {
                    bad_resolution("preserve-both requires complete object candidates"@)
                } else {
                    kept_beside(
                        objects,
                        kind,
                        key,
                        conflict.at("conflict"@) == JsonView::Text("delete_vs_edit"@),
                        order[0],
                        found[order[0]],
                        order[1],
                        found[order[1]],
                        marks,
                    )
                }
            },
        },
        _ => bad_state("preserve-both candidate refs are missing"@),
    }
}

/// The objects after the two candidates of a conflict are both kept: the last
/// that is not null as a variant, and the other, where it is not null, under the
/// key of the conflict.
pub open spec fn kept_beside(
    objects: Map<PairView, JsonView>,
    kind: Seq<char>,
    key: Seq<char>,
    deleted: bool,
    first_hash: Seq<char>,
    first: JsonView,
    second_hash: Seq<char>,
    second: JsonView,
    marks: Map<Seq<char>, MemoryMarkView>,
) -> Result<Map<PairView, JsonView>, AppErrorView> {
    let losing = if second is Null {
        first
    } else {
        second
    };
    let losing_hash = if second is Null {
        first_hash
    } else {
        second_hash
    };
    let staying = if first is Null {
        second
    } else {
        first
    };
    let two = first !is Null && second !is Null;
    let at = table::pair(kind, key);
    if first is Null && second is Null {
        bad_resolution("preserve-both has no complete object candidate"@)
    } else {
        match find_variant(objects, kind, key, losing_hash, losing, marks, 0) {
            Err(e) => Err(e),
            Ok(variant) => {
                let original_matches = if deleted {
                    !objects.dom().contains(at)
                } else {
                    objects.dom().contains(at) && json::alike(objects[at], staying)
                };
                if variant.present && original_matches {
                    Ok(objects)
                } else {
                    let removed = objects.remove(at);
                    let restored = if two {
                        removed.insert(at, staying)
                    } else {
                        removed
                    };
                    let beside = if variant.present {
                        restored
                    } else {
                        restored.insert(table::pair(kind, variant.key), variant.value)
                    };
                    let moved = if deleted {
                        all_moved(beside, kind, key, variant.key)
                    } else {
                        beside
                    };
                    if kind == "page"@ {
                        labelled(moved, variant.key, variant.value)
                    } else {
                        Ok(moved)
                    }
                }
            },
        }
    }
}

proof fn lemma_gathered_stop(
    refs: Seq<JsonView>,
    blobs: Map<Seq<char>, Seq<u8>>,
    count: nat,
    more: nat,
)
    requires
        0 < count <= more <= refs.len(),
        gathered(refs, blobs, count) is Err,
    ensures
        gathered(refs, blobs, more) == gathered(refs, blobs, count),
    decreases more - count,
{
    if count < more {
        lemma_gathered_stop(refs, blobs, count, (more - 1) as nat);
    }
}

/// What a kept candidate says.
fn load_candidate(bytes: &Vec<u8>) -> (r: Result<Json, AppError>)
    ensures
        error::outcome(r) == read_candidate(bytes@),
{
    match utf8_text(bytes) {
        None => fail(ErrorCode::SyncStateInvalid, "conflict candidate is not UTF-8"),
        Some(encoded) => {
            proof {
                utf8::encode_utf8_decode_utf8(encoded@);
            }
            match parse_json(encoded.as_str()) {
                Ok(value) => Ok(value),
                Err(reason) => fail(ErrorCode::SyncStateInvalid, reason.as_str()),
            }
        },
    }
}

/// The candidates that the references of a conflict lead to.
fn gather_candidates(refs: &Vec<Json>, blobs: &Table<String, Vec<u8>>) -> (r: Result<
    Table<String, Json>,
    AppError,
>)
    ensures
        error::outcome(r) == gathered(text::views(refs@), blobs@, refs@.len()),
{
    let ghost all = text::views(refs@);
    let mut found: Table<String, Json> = Table::new();
    let mut i: usize = 0;
    while i < refs.len()
        invariant
            i <= refs@.len(),
            gathered(all, blobs@, i as nat) == Ok::<Map<Seq<char>, JsonView>, AppErrorView>(
                found@,
            ),
        decreases refs@.len() - i,
    {
        assert(all[i as int] == refs@[i as int]@);
        match &refs[i] {
            Json::Text(name) => {
                match blobs.get(name) {
                    None => {},
                    Some(bytes) => {
                        match load_candidate(bytes) {
                            Err(e) => {
                                proof {
                                    lemma_gathered_stop(all, blobs@, (i + 1) as nat, refs@.len());
                                }
                                return Err(e);
                            },
                            Ok(value) => {
                                let hash = hash_content(canonical_sync_value(&value).as_str());
                                if !found.has(&hash) {
                                    found.put(hash, value);
                                }
                            },
                        }
                    },
                }
            },
            _ => {
                proof {
                    lemma_gathered_stop(all, blobs@, (i + 1) as nat, refs@.len());
                }
                return fail(
                    ErrorCode::SyncStateInvalid,
                    "preserve-both candidate ref is invalid",
                );
            },
        }
        i += 1;
    }
    Ok(found)
}

fn is_null(value: &Json) -> (r: bool)
    ensures
        r == (value@ is Null),
{
    match value {
        Json::Null => true,
        _ => false,
    }
}

/// Keeps both objects of a conflict.
pub fn apply_sync_preserve_both(
    objects: &mut Table<Pair, Json>,
    blobs: &Table<String, Vec<u8>>,
    kind: &str,
    logical_key: &str,
    conflict: &Json,
    marks: &Table<String, MemoryMark>,
) -> (r: Result<(), AppError>)
    ensures
        match both_kept(old(objects)@, blobs@, kind@, logical_key@, conflict@, marks@) {
            Ok(after) => r is Ok && final(objects)@ == after,
            Err(e) => r matches Err(got) && got@ == e,
        },
{
    let refs = match conflict.get("candidate_refs") {
        Some(Json::Array(refs)) => refs,
        _ => {
            return fail(
                ErrorCode::SyncStateInvalid,
                "preserve-both candidate refs are missing",
            );
        },
    };
    proof {
        json::lemma_array_view(*refs);
    }
    let found = match gather_candidates(refs, blobs) {
        Ok(found) => found,
        Err(e) => {
            return Err(e);
        },
    };
    let n = found.len();
    proof {
        table::lemma_ordered_is::<String>(found.keys(), found@.dom());
    }
    if n != 2 {
        return fail(
            ErrorCode::SyncResolutionInvalid,
            "preserve-both requires complete object candidates",
        );
    }
    let first = found.value_at(0);
    let second = found.value_at(1);
    let first_null = is_null(first);
    let second_null = is_null(second);
    if first_null && second_null {
        return fail(
            ErrorCode::SyncResolutionInvalid,
            "preserve-both has no complete object candidate",
        );
    }
    let losing = if second_null {
        first
    } else {
        second
    };
    let losing_hash = if second_null {
        found.key_at(0)
    } else {
        found.key_at(1)
    };
    let staying = if first_null {
        second
    } else {
        first
    };
    let variant = match available_sync_conflict_variant(
        objects,
        kind,
        logical_key,
        losing_hash.as_str(),
        losing,
        marks,
    ) {
        Ok(variant) => variant,
        Err(e) => {
            return Err(e);
        },
    };
    let deleted = match conflict.get_text("conflict") {
        Some(found) => same_text(found.as_str(), "delete_vs_edit"),
        None => false,
    };
    let at = Pair::new(kind, logical_key);
    let original_matches = match objects.get(&at) {
        Some(present) => !deleted && present.equals(staying),
        None => deleted,
    };
    if variant.present && original_matches {
        return Ok(());
    }
    objects.remove(&at);
    if !first_null && !second_null {
        objects.put(at, Json::duplicate(staying));
    }
    if !variant.present {
        objects.put(Pair::new(kind, variant.key.as_str()), Json::duplicate(&variant.value));
    }
    if deleted {
        remap_sync_conflict_references(objects, kind, logical_key, variant.key.as_str());
    }
    if same_text(kind, "page") {
        return label_sync_conflict_page(objects, variant.key.as_str(), &variant.value);
    }
    Ok(())
}

} // verus!
