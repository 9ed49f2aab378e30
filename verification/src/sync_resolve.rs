//! Resolving the conflicts of a merge by a packet of decisions.
use crate::digest;
use crate::error;
use crate::error::{AppError, AppErrorView, ErrorCode};
use crate::json;
use crate::json::{canonical_sync_value, keys_are, Json, JsonView};
use crate::sync_variant;
use crate::sync_variant::{apply_sync_preserve_both, MemoryMark, MemoryMarkView};
use crate::table;
use crate::table::{Pair, PairView, Table, Triple, TripleView};
use crate::text;
use crate::text::{
    any_control, byte_len, chars_of, has_char, hex, join2, join3, join4, join5, natural_text, owned,
    same_text, split,
};
use vstd::prelude::*;

verus! {

/// How many conflicts one packet may settle.
pub const MAX_CONFLICTS: usize = 20;

/// How large a packet of conflicts or decisions may be.
pub const MAX_PACKET_BYTES: usize = 262144;

/// How many names are tried for a preserved variant.
pub const MAX_VARIANT_ATTEMPTS: usize = 4096;

pub open spec fn invalid_resolution<T>(message: Seq<char>) -> Result<T, AppErrorView> {
    error::refused(ErrorCode::SyncResolutionInvalid, message)
}

pub open spec fn invalid_state<T>(message: Seq<char>) -> Result<T, AppErrorView> {
    error::refused(ErrorCode::SyncStateInvalid, message)
}

fn refuse_resolution<T>(message: &str) -> (r: Result<T, AppError>)
    ensures
        r matches Err(e) && e@ == error::app_error(ErrorCode::SyncResolutionInvalid, message@),
{
    Err(AppError::new(ErrorCode::SyncResolutionInvalid, message))
}

fn refuse_state<T>(message: &str) -> (r: Result<T, AppError>)
    ensures
        r matches Err(e) && e@ == error::app_error(ErrorCode::SyncStateInvalid, message@),
{
    Err(AppError::new(ErrorCode::SyncStateInvalid, message))
}

// ---------------------------------------------------------------------------
// Batches
// ---------------------------------------------------------------------------

/// The size of the first `count` conflicts as the text of a list.
pub open spec fn batch_bytes(conflicts: Seq<JsonView>, count: nat) -> nat
    decreases count,
{
    if count == 0 || count > conflicts.len() {
        2
    } else {
        batch_bytes(conflicts, (count - 1) as nat) + text::byte_count(
            json::canonical_text(conflicts[count - 1]),
        ) + (if count == 1 {
            0nat
        } else {
            1nat
        })
    }
}

/// A batch of this many conflicts is within the limits: one always is.
pub open spec fn batch_fits(conflicts: Seq<JsonView>, count: nat) -> bool {
    count <= conflicts.len() && count <= MAX_CONFLICTS && (count <= 1 || forall|n: nat|
        2 <= n <= count ==> #[trigger] batch_bytes(conflicts, n) <= MAX_PACKET_BYTES)
}

/// The first conflicts that one packet can hold: as many as fit, and at least one.
pub fn next_sync_conflict_batch(conflicts: &Vec<Json>) -> (r: Vec<Json>)
    ensures
        r@.len() <= conflicts@.len(),
        text::views(r@) == text::views(conflicts@).take(r@.len() as int),
        batch_fits(text::views(conflicts@), r@.len()),
        !batch_fits(text::views(conflicts@), r@.len() + 1),
{
    let ghost all = text::views(conflicts@);
    let mut batch: Vec<Json> = Vec::new();
    let mut bytes: u128 = 2;
    let mut i: usize = 0;
    assert(text::views(batch@) =~= all.take(0));
    while i < conflicts.len() && i < MAX_CONFLICTS
        invariant
            i <= conflicts@.len(),
            i <= MAX_CONFLICTS,
            batch@.len() == i,
            text::views(batch@) == all.take(i as int),
            bytes == batch_bytes(all, i as nat),
            bytes <= usize::MAX + 2,
            batch_fits(all, i as nat),
        decreases conflicts@.len() - i,
    {
        let encoded = canonical_sync_value(&conflicts[i]);
        let size: u128 = byte_len(encoded.as_str()) as u128 + (if i == 0 {
            0u128
        } else {
            1u128
        });
        assert(all[i as int] == conflicts@[i as int]@);
        assert(bytes + size == batch_bytes(all, (i + 1) as nat));
        if i > 0 && bytes + size > MAX_PACKET_BYTES as u128 {
            assert(!batch_fits(all, (i + 1) as nat)) by {
                assert(batch_bytes(all, (i + 1) as nat) > MAX_PACKET_BYTES);
            }
            return batch;
        }
        bytes = bytes + size;
        let copy = Json::duplicate(&conflicts[i]);
        proof {
            text::lemma_views_push(batch@, copy);
            assert(all.take(i + 1) =~= all.take(i as int).push(all[i as int]));
        }
        batch.push(copy);
        i += 1;
    }
    batch
}

// ---------------------------------------------------------------------------
// The shape of a packet of decisions
// ---------------------------------------------------------------------------

/// The fields of a decision for one of the candidates of a field.
pub open spec fn candidate_shape() -> Set<Seq<char>> {
    seq!["candidate"@, "conflict_id"@, "kind"@, "logical_key"@, "path"@].to_set()
}

/// The fields of a decision to keep both objects.
pub open spec fn preserve_shape() -> Set<Seq<char>> {
    seq!["conflict_id"@, "kind"@, "logical_key"@, "strategy"@].to_set()
}

/// A name of at most `limit` bytes, not empty and without control characters.
pub open spec fn is_name(s: Seq<char>, limit: nat) -> bool {
    s.len() > 0 && text::byte_count(s) <= limit && !text::has_control(s)
}

/// What is wrong with a name in a decision.
pub open spec fn name_fault(decision: JsonView, field: Seq<char>) -> Option<Seq<char>> {
    match decision.at(field).as_text() {
        None => Some("decision "@ + field + " is required"@),
        Some(name) => if is_name(name, 1024) {
            None
        } else {
            Some("decision "@ + field + " is invalid"@)
        },
    }
}

/// The conflict identifiers named so far with that of this decision, or what is
/// wrong with its shape.
pub open spec fn check_decision(
    decision: JsonView,
    ids: Set<Seq<char>>,
) -> Result<Set<Seq<char>>, AppErrorView> {
    if decision !is Object {
        invalid_resolution("decision must be an object"@)
    } else {
        let keys = json::entry_keys(decision->Object_0).to_set();
        if keys != candidate_shape() && keys != preserve_shape() {
            invalid_resolution("decision must be exactly one candidate or preserve-both shape"@)
        } else if keys == preserve_shape() && decision.at("strategy"@) != JsonView::Text(
            "preserve_both"@,
        ) {
            invalid_resolution("the only supported resolution strategy is preserve_both"@)
        } else if name_fault(decision, "kind"@) is Some {
            invalid_resolution(name_fault(decision, "kind"@)->0)
        } else if name_fault(decision, "logical_key"@) is Some {
            invalid_resolution(name_fault(decision, "logical_key"@)->0)
        } else if decision.at("conflict_id"@) !is Text {
            invalid_resolution("decision conflict_id is required"@)
        } else if !text::is_hex(decision.at("conflict_id"@)->Text_0, 64) {
            invalid_resolution("decision conflict_id must be a 64-character hexadecimal digest"@)
        } else if ids.insert(decision.at("conflict_id"@)->Text_0).len() > MAX_CONFLICTS {
            invalid_resolution("resolution contains more than 20 conflict IDs"@)
        } else if keys == candidate_shape() && decision.at("path"@) !is Text {
            invalid_resolution("decision path is required"@)
        } else if keys == candidate_shape() && !is_name(decision.at("path"@)->Text_0, 4096) {
            invalid_resolution("decision path is invalid"@)
        } else {
            Ok(ids.insert(decision.at("conflict_id"@)->Text_0))
        }
    }
}

/// The conflict identifiers that the first `count` decisions name, or what is
/// wrong with the shape of the first faulty one.
pub open spec fn check_decisions(
    decisions: Seq<JsonView>,
    count: nat,
) -> Result<Set<Seq<char>>, AppErrorView>
    decreases count,
{
    if count == 0 || count > decisions.len() {
        Ok(Set::empty())
    } else {
        match check_decisions(decisions, (count - 1) as nat) {
            Ok(ids) => check_decision(decisions[count - 1], ids),
            Err(e) => Err(e),
        }
    }
}

/// What is wrong with the shape of a packet of decisions, if anything.
pub open spec fn check_resolution(
    conflicts: Seq<JsonView>,
    resolution: JsonView,
) -> Result<(), AppErrorView> {
    if conflicts.len() > MAX_CONFLICTS || text::byte_count(json::canonical_text(resolution))
        > MAX_PACKET_BYTES {
        invalid_resolution("Sync resolution exceeds the bounded conflict batch"@)
    } else if resolution !is Object {
        invalid_resolution("resolution must be an object"@)
    } else if json::entry_keys(resolution->Object_0).to_set() != seq![
        "decisions"@,
        "version"@,
    ].to_set() {
        invalid_resolution("resolution contains unknown or missing fields"@)
    } else if resolution.at("decisions"@) !is Array {
        invalid_resolution("resolution decisions must be an array"@)
    } else {
        let decisions = resolution.at("decisions"@)->Array_0;
        match check_decisions(decisions, decisions.len()) {
            Ok(_) => Ok(()),
            Err(e) => Err(e),
        }
    }
}

proof fn lemma_decisions_stop(decisions: Seq<JsonView>, count: nat, more: nat)
    requires
        0 < count <= more <= decisions.len(),
        check_decisions(decisions, count) is Err,
    ensures
        check_decisions(decisions, more) == check_decisions(decisions, count),
    decreases more - count,
{
    if count < more {
        lemma_decisions_stop(decisions, count, (more - 1) as nat);
    }
}

/// The names of a decision's fields as a list.
fn candidate_fields() -> (r: Vec<String>)
    ensures
        text::views(r@).to_set() == candidate_shape(),
{
    let mut out: Vec<String> = Vec::new();
    out.push(owned("candidate"));
    out.push(owned("conflict_id"));
    out.push(owned("kind"));
    out.push(owned("logical_key"));
    out.push(owned("path"));
    assert(text::views(out@) =~= seq![
        "candidate"@,
        "conflict_id"@,
        "kind"@,
        "logical_key"@,
        "path"@,
    ]);
    out
}

fn preserve_fields() -> (r: Vec<String>)
    ensures
        text::views(r@).to_set() == preserve_shape(),
{
    let mut out: Vec<String> = Vec::new();
    out.push(owned("conflict_id"));
    out.push(owned("kind"));
    out.push(owned("logical_key"));
    out.push(owned("strategy"));
    assert(text::views(out@) =~= seq!["conflict_id"@, "kind"@, "logical_key"@, "strategy"@]);
    out
}

/// What is wrong with a name in a decision.
fn find_name_fault(decision: &Json, field: &str) -> (r: Option<String>)
    ensures
        text::opt_text(r) == name_fault(decision@, field@),
{
    match decision.get_text(field) {
        None => Some(join3("decision ", field, " is required")),
        Some(name) => {
            if name.as_str().is_empty() || byte_len(name.as_str()) > 1024 || any_control(
                name.as_str(),
            ) {
                Some(join3("decision ", field, " is invalid"))
            } else {
                None
            }
        },
    }
}

/// Whether the text under a key is this one.
fn text_is(value: &Json, key: &str, expected: &str) -> (r: bool)
    ensures
        r == (value@.at(key@) == JsonView::Text(expected@)),
{
    match value.get_text(key) {
        Some(found) => same_text(found.as_str(), expected),
        None => false,
    }
}

/// Checks the shape of one decision and notes the conflict that it names.
fn validate_decision(decision: &Json, ids: &mut Vec<String>) -> (r: Result<(), AppError>)
    requires
        text::ascending(text::views(old(ids)@)),
    ensures
        text::ascending(text::views(final(ids)@)),
        match check_decision(decision@, text::views(old(ids)@).to_set()) {
            Ok(after) => r is Ok && text::views(final(ids)@).to_set() == after,
            Err(e) => r matches Err(got) && got@ == e,
        },
{
    let entries = match decision {
        Json::Object(entries) => entries,
        _ => {
            return refuse_resolution("decision must be an object");
        },
    };
    proof {
        json::lemma_object_view(*entries);
    }
    let picks = keys_are(entries, &candidate_fields());
    let preserves = keys_are(entries, &preserve_fields());
    if !picks && !preserves {
        return refuse_resolution(
            "decision must be exactly one candidate or preserve-both shape",
        );
    }
    if preserves && !text_is(decision, "strategy", "preserve_both") {
        return refuse_resolution("the only supported resolution strategy is preserve_both");
    }
    match find_name_fault(decision, "kind") {
        Some(fault) => {
            return refuse_resolution(fault.as_str());
        },
        None => {},
    }
    match find_name_fault(decision, "logical_key") {
        Some(fault) => {
            return refuse_resolution(fault.as_str());
        },
        None => {},
    }
    let id = match decision.get_text("conflict_id") {
        Some(id) => id,
        None => {
            return refuse_resolution("decision conflict_id is required");
        },
    };
    if !hex(id.as_str(), 64) {
        return refuse_resolution(
            "decision conflict_id must be a 64-character hexadecimal digest",
        );
    }
    text::add_text(ids, id.as_str());
    proof {
        text::lemma_ascending_len(text::views(ids@));
    }
    if ids.len() > MAX_CONFLICTS {
        return refuse_resolution("resolution contains more than 20 conflict IDs");
    }
    if picks {
        match decision.get_text("path") {
            Some(path) => {
                if path.as_str().is_empty() || byte_len(path.as_str()) > 4096 || any_control(
                    path.as_str(),
                ) {
                    return refuse_resolution("decision path is invalid");
                }
            },
            None => {
                return refuse_resolution("decision path is required");
            },
        }
    }
    Ok(())
}

/// Checks the shape of a packet of decisions.
pub fn validate_sync_resolution_schema(conflicts: &Vec<Json>, resolution: &Json) -> (r: Result<
    (),
    AppError,
>)
    ensures
        error::outcome(r) == check_resolution(text::views(conflicts@), resolution@),
{
    if conflicts.len() > MAX_CONFLICTS || byte_len(canonical_sync_value(resolution).as_str())
        > MAX_PACKET_BYTES {
        return refuse_resolution("Sync resolution exceeds the bounded conflict batch");
    }
    let entries = match resolution {
        Json::Object(entries) => entries,
        _ => {
            return refuse_resolution("resolution must be an object");
        },
    };
    proof {
        json::lemma_object_view(*entries);
    }
    let mut wanted: Vec<String> = Vec::new();
    wanted.push(owned("decisions"));
    wanted.push(owned("version"));
    assert(text::views(wanted@) =~= seq!["decisions"@, "version"@]);
    if !keys_are(entries, &wanted) {
        return refuse_resolution("resolution contains unknown or missing fields");
    }
    let decisions = match resolution.get("decisions") {
        Some(Json::Array(decisions)) => decisions,
        _ => {
            return refuse_resolution("resolution decisions must be an array");
        },
    };
    proof {
        json::lemma_array_view(*decisions);
    }
    let ghost all = text::views(decisions@);
    let mut ids: Vec<String> = Vec::new();
    assert(text::views(ids@).to_set() =~= Set::empty());
    let mut i: usize = 0;
    while i < decisions.len()
        invariant
            i <= decisions@.len(),
            text::ascending(text::views(ids@)),
            check_decisions(all, i as nat) == Ok::<Set<Seq<char>>, AppErrorView>(
                text::views(ids@).to_set(),
            ),
        decreases decisions@.len() - i,
    {
        assert(all[i as int] == decisions@[i as int]@);
        let checked = validate_decision(&decisions[i], &mut ids);
        match checked {
            Ok(()) => {},
            Err(e) => {
                proof {
                    lemma_decisions_stop(all, (i + 1) as nat, decisions@.len());
                }
                return Err(e);
            },
        }
        i += 1;
    }
    Ok(())
}

// ---------------------------------------------------------------------------
// Setting a field
// ---------------------------------------------------------------------------

/// A value with the field at the end of `parts` set.
pub open spec fn with_field(
    root: JsonView,
    parts: Seq<Seq<char>>,
    value: JsonView,
) -> Result<JsonView, AppErrorView>
    decreases parts.len(),
{
    if parts.len() == 0 {
        invalid_resolution("resolution path is empty"@)
    } else if root !is Object {
        invalid_resolution("resolution path is not an object field"@)
    } else if parts.len() == 1 {
        Ok(JsonView::Object(json::with_entry(root->Object_0, parts[0], value)))
    } else {
        match root.get(parts[0]) {
            None => invalid_resolution("resolution path does not exist"@),
            Some(child) => match with_field(child, parts.drop_first(), value) {
                Ok(inner) => Ok(
                    JsonView::Object(json::with_entry(root->Object_0, parts[0], inner)),
                ),
                Err(e) => Err(e),
            },
        }
    }
}

/// A value with the field at `path` set.
pub open spec fn with_path(
    root: JsonView,
    path: Seq<char>,
    value: JsonView,
) -> Result<JsonView, AppErrorView> {
    if path.len() == 0 || path.contains('[') {
        invalid_resolution("resolution currently requires an object-field path"@)
    } else {
        with_field(root, text::split_on(path, '.'), value)
    }
}

/// Sets the field at the end of the parts from `from` on.
fn set_field(root: &Json, parts: &Vec<String>, from: usize, value: Json) -> (r: Result<
    Json,
    AppError,
>)
    requires
        from <= parts@.len(),
    ensures
        error::outcome(r) == with_field(root@, text::views(parts@).skip(from as int), value@),
    decreases parts@.len() - from,
{
    let ghost rest = text::views(parts@).skip(from as int);
    if from >= parts.len() {
        return refuse_resolution("resolution path is empty");
    }
    assert(rest[0] == parts@[from as int]@);
    assert(rest.drop_first() =~= text::views(parts@).skip(from + 1));
    match root {
        Json::Object(_) => {},
        _ => {
            return refuse_resolution("resolution path is not an object field");
        },
    }
    if from + 1 == parts.len() {
        let mut copy = Json::duplicate(root);
        copy.set(parts[from].as_str(), value);
        return Ok(copy);
    }
    match root.get(parts[from].as_str()) {
        None => refuse_resolution("resolution path does not exist"),
        Some(child) => match set_field(child, parts, from + 1, value) {
            Ok(inner) => {
                let mut copy = Json::duplicate(root);
                copy.set(parts[from].as_str(), inner);
                Ok(copy)
            },
            Err(e) => Err(e),
        },
    }
}

/// Sets the field at `path`, a chain of object fields joined by dots.
pub fn set_sync_json_path(root: &mut Json, path: &str, value: Json) -> (r: Result<(), AppError>)
    ensures
        match with_path(old(root)@, path@, value@) {
            Ok(after) => r is Ok && final(root)@ == after,
            Err(e) => (r matches Err(got) && got@ == e) && final(root)@ == old(root)@,
        },
{
    if path.is_empty() || has_char(path, '[') {
        return refuse_resolution("resolution currently requires an object-field path");
    }
    let parts = split(path, '.');
    assert(text::views(parts@).skip(0) =~= text::views(parts@));
    match set_field(root, &parts, 0, value) {
        Ok(after) => {
            *root = after;
            Ok(())
        },
        Err(e) => Err(e),
    }
}


// ---------------------------------------------------------------------------
// The decisions
// ---------------------------------------------------------------------------

/// The identifier of each conflict, under its kind and key.
pub open spec fn conflict_ids(
    conflicts: Seq<JsonView>,
    count: nat,
) -> Result<Map<PairView, Seq<char>>, AppErrorView>
    decreases count,
{
    if count == 0 || count > conflicts.len() {
        Ok(Map::empty())
    } else {
        match conflict_ids(conflicts, (count - 1) as nat) {
            Err(e) => Err(e),
            Ok(ids) => {
                let conflict = conflicts[count - 1];
                if conflict.at("kind"@) !is Text {
                    invalid_state("conflict kind is missing"@)
                } else if conflict.at("logical_key"@) !is Text {
                    invalid_state("conflict logical key is missing"@)
                } else if conflict.at("conflict_id"@) !is Text {
                    invalid_state("conflict ID is missing"@)
                } else {
                    Ok(ids.insert(conflict_key(conflict), conflict.at("conflict_id"@)->Text_0))
                }
            },
        }
    }
}

/// The kind and key of a conflict or a decision.
pub open spec fn conflict_key(conflict: JsonView) -> PairView {
    table::pair(conflict.at("kind"@)->Text_0, conflict.at("logical_key"@)->Text_0)
}

/// What a packet decides: the candidate chosen for each field, and the objects
/// of which both stay.
#[verifier::ext_equal]
pub struct DecisionsView {
    pub picks: Map<TripleView, usize>,
    pub preserved: Map<PairView, bool>,
}

/// A text of digits alone.
pub open spec fn all_digits(said: Seq<char>) -> bool {
    forall|i: int| 0 <= i < said.len() ==> '0' <= #[trigger] said[i] <= '9'
}

/// A natural number. Those beyond the integers are written with digits alone; no other number
/// is.
pub open spec fn is_natural(value: JsonView) -> bool {
    match value {
        JsonView::Int(n) => n >= 0,
        JsonView::Number(said) => all_digits(said),
        _ => false,
    }
}

fn digits_alone(said: &str) -> (r: bool)
    ensures
        r == all_digits(said@),
{
    let chars = chars_of(said);
    let mut i: usize = 0;
    while i < chars.len()
        invariant
            i <= chars@.len(),
            chars@ == said@,
            forall|j: int| 0 <= j < i ==> '0' <= #[trigger] chars@[j] <= '9',
        decreases chars@.len() - i,
    {
        if chars[i] < '0' || '9' < chars[i] {
            assert(!('0' <= said@[i as int] <= '9'));
            return false;
        }
        i += 1;
    }
    true
}

fn natural(value: &Json) -> (r: bool)
    ensures
        r == is_natural(value@),
{
    match value {
        Json::Int(n) => *n >= 0,
        Json::Number(said) => digits_alone(said.as_str()),
        _ => false,
    }
}

/// What is decided with one more decision.
pub open spec fn with_decision(
    ids: Map<PairView, Seq<char>>,
    decision: JsonView,
    so_far: DecisionsView,
) -> Result<DecisionsView, AppErrorView> {
    if decision.at("kind"@) !is Text {
        invalid_resolution("decision kind is required"@)
    } else if decision.at("logical_key"@) !is Text {
        invalid_resolution("decision logical_key is required"@)
    } else if decision.at("conflict_id"@) !is Text {
        error::refused(
            ErrorCode::SyncResolutionStale,
            "resolution decision conflict_id is required"@,
        )
    } else {
        let at = conflict_key(decision);
        if !(ids.dom().contains(at) && ids[at] == decision.at("conflict_id"@)->Text_0) {
            error::refused(
                ErrorCode::SyncResolutionStale,
                "resolution conflict ID is stale or unknown for "@ + at.first + ":"@ + at.second,
            )
        } else if decision.at("strategy"@) == JsonView::Text("preserve_both"@) {
            if so_far.preserved.dom().contains(at) {
                invalid_resolution("preserve-both decisions must be unique per object"@)
            } else {
                Ok(DecisionsView { preserved: so_far.preserved.insert(at, true), ..so_far })
            }
        } else if decision.at("path"@) !is Text {
            invalid_resolution("decision path is required"@)
        } else if !is_natural(decision.at("candidate"@)) {
            invalid_resolution("decision candidate must be 0 or 1"@)
        } else {
            let field = table::triple(at.first, at.second, decision.at("path"@)->Text_0);
            if decision.at("candidate"@) !is Int || decision.at("candidate"@)->Int_0 > 1
                || so_far.picks.dom().contains(field) {
                invalid_resolution(
                    "resolution decisions must be unique and choose candidate 0 or 1"@,
                )
            } else {
                Ok(
                    DecisionsView {
                        picks: so_far.picks.insert(
                            field,
                            decision.at("candidate"@)->Int_0 as usize,
                        ),
                        ..so_far
                    },
                )
            }
        }
    }
}

/// What the first `count` decisions come to.
pub open spec fn decided(
    ids: Map<PairView, Seq<char>>,
    decisions: Seq<JsonView>,
    count: nat,
) -> Result<DecisionsView, AppErrorView>
    decreases count,
{
    if count == 0 || count > decisions.len() {
        Ok(DecisionsView { picks: Map::empty(), preserved: Map::empty() })
    } else {
        match decided(ids, decisions, (count - 1) as nat) {
            Err(e) => Err(e),
            Ok(so_far) => with_decision(ids, decisions[count - 1], so_far),
        }
    }
}

/// How many fields a conflict has.
pub open spec fn field_count(conflict: JsonView) -> nat {
    match conflict.at("fields"@) {
        JsonView::Array(fields) => fields.len(),
        _ => 0,
    }
}

/// How many fields the first `count` conflicts have.
pub open spec fn fields_of(conflicts: Seq<JsonView>, count: nat) -> nat
    decreases count,
{
    if count == 0 || count > conflicts.len() {
        0
    } else {
        fields_of(conflicts, (count - 1) as nat) + field_count(conflicts[count - 1])
    }
}

/// How many fields those of the first `count` conflicts have of which both stay.
pub open spec fn preserved_fields(
    conflicts: Seq<JsonView>,
    preserved: Map<PairView, bool>,
    count: nat,
) -> nat
    decreases count,
{
    if count == 0 || count > conflicts.len() {
        0
    } else {
        preserved_fields(conflicts, preserved, (count - 1) as nat) + (if preserved.dom().contains(
            conflict_key(conflicts[count - 1]),
        ) {
            field_count(conflicts[count - 1])
        } else {
            0
        })
    }
}

proof fn lemma_ids_stop(conflicts: Seq<JsonView>, count: nat, more: nat)
    requires
        0 < count <= more <= conflicts.len(),
        conflict_ids(conflicts, count) is Err,
    ensures
        conflict_ids(conflicts, more) == conflict_ids(conflicts, count),
    decreases more - count,
{
    if count < more {
        lemma_ids_stop(conflicts, count, (more - 1) as nat);
    }
}

proof fn lemma_decided_stop(
    ids: Map<PairView, Seq<char>>,
    decisions: Seq<JsonView>,
    count: nat,
    more: nat,
)
    requires
        0 < count <= more <= decisions.len(),
        decided(ids, decisions, count) is Err,
    ensures
        decided(ids, decisions, more) == decided(ids, decisions, count),
    decreases more - count,
{
    if count < more {
        lemma_decided_stop(ids, decisions, count, (more - 1) as nat);
    }
}

/// The identifier of each conflict, under its kind and key.
fn read_conflict_ids(conflicts: &Vec<Json>) -> (r: Result<Table<Pair, String>, AppError>)
    ensures
        error::outcome(r) == conflict_ids(text::views(conflicts@), conflicts@.len()),
        r is Ok ==> forall|i: int|
            0 <= i < conflicts@.len() ==> (#[trigger] text::views(conflicts@)[i]).at("kind"@)
                is Text && text::views(conflicts@)[i].at("logical_key"@) is Text,
{
    let ghost all = text::views(conflicts@);
    let mut ids: Table<Pair, String> = Table::new();
    let mut i: usize = 0;
    while i < conflicts.len()
        invariant
            i <= conflicts@.len(),
            conflict_ids(all, i as nat) == Ok::<Map<PairView, Seq<char>>, AppErrorView>(ids@),
            forall|j: int|
                0 <= j < i ==> (#[trigger] all[j]).at("kind"@) is Text && all[j].at(
                    "logical_key"@,
                ) is Text,
        decreases conflicts@.len() - i,
    {
        let conflict = &conflicts[i];
        assert(all[i as int] == conflict@);
        proof {
            if conflict_ids(all, (i + 1) as nat) is Err {
                lemma_ids_stop(all, (i + 1) as nat, conflicts@.len());
            }
        }
        let kind = match conflict.get_text("kind") {
            Some(kind) => kind,
            None => {
                return refuse_state("conflict kind is missing");
            },
        };
        let key = match conflict.get_text("logical_key") {
            Some(key) => key,
            None => {
                return refuse_state("conflict logical key is missing");
            },
        };
        let id = match conflict.get_text("conflict_id") {
            Some(id) => id,
            None => {
                return refuse_state("conflict ID is missing");
            },
        };
        ids.put(Pair::new(kind.as_str(), key.as_str()), owned(id.as_str()));
        i += 1;
    }
    Ok(ids)
}

/// Notes one decision.
fn read_decision(
    ids: &Table<Pair, String>,
    decision: &Json,
    picks: &mut Table<Triple, usize>,
    preserved: &mut Table<Pair, bool>,
) -> (r: Result<(), AppError>)
    ensures
        match with_decision(
            ids@,
            decision@,
            (DecisionsView { picks: old(picks)@, preserved: old(preserved)@ }),
        ) {
            Ok(after) => r is Ok && after == (DecisionsView {
                picks: final(picks)@,
                preserved: final(preserved)@,
            }),
            Err(e) => r matches Err(got) && got@ == e,
        },
{
    let kind = match decision.get_text("kind") {
        Some(kind) => kind,
        None => {
            return refuse_resolution("decision kind is required");
        },
    };
    let key = match decision.get_text("logical_key") {
        Some(key) => key,
        None => {
            return refuse_resolution("decision logical_key is required");
        },
    };
    let id = match decision.get_text("conflict_id") {
        Some(id) => id,
        None => {
            return Err(
                AppError::new(
                    ErrorCode::SyncResolutionStale,
                    "resolution decision conflict_id is required",
                ),
            );
        },
    };
    let at = Pair::new(kind.as_str(), key.as_str());
    let known = match ids.get(&at) {
        Some(expected) => same_text(expected.as_str(), id.as_str()),
        None => false,
    };
    if !known {
        let message = join4(
            "resolution conflict ID is stale or unknown for ",
            kind.as_str(),
            ":",
            key.as_str(),
        );
        return Err(AppError::new(ErrorCode::SyncResolutionStale, message.as_str()));
    }
    if text_is(decision, "strategy", "preserve_both") {
        if preserved.has(&at) {
            return refuse_resolution("preserve-both decisions must be unique per object");
        }
        preserved.put(at, true);
        return Ok(());
    }
    let path = match decision.get_text("path") {
        Some(path) => path,
        None => {
            return refuse_resolution("decision path is required");
        },
    };
    let candidate = match decision.get("candidate") {
        Some(value) => {
            if !natural(value) {
                return refuse_resolution("decision candidate must be 0 or 1");
            }
            match value {
                Json::Int(n) => *n,
                _ => 2,
            }
        },
        None => {
            return refuse_resolution("decision candidate must be 0 or 1");
        },
    };
    let field = Triple::new(kind.as_str(), key.as_str(), path.as_str());
    if candidate > 1 || picks.has(&field) {
        return refuse_resolution(
            "resolution decisions must be unique and choose candidate 0 or 1",
        );
    }
    picks.put(field, candidate as usize);
    Ok(())
}

fn count_fields(conflict: &Json) -> (n: usize)
    ensures
        n == field_count(conflict@),
{
    match conflict.get("fields") {
        Some(Json::Array(fields)) => {
            proof {
                json::lemma_array_view(*fields);
            }
            fields.len()
        },
        _ => 0,
    }
}

// ---------------------------------------------------------------------------
// Applying the decisions
// ---------------------------------------------------------------------------

/// What the choice for one field makes of an object, given the choices left.
#[verifier::ext_equal]
pub struct FieldStep {
    pub payload: Option<JsonView>,
    pub picks: Map<TripleView, usize>,
}

/// An object with the candidate chosen for one of its fields.
pub open spec fn with_choice(
    at: PairView,
    field: JsonView,
    step: FieldStep,
) -> Result<FieldStep, AppErrorView> {
    if field.at("path"@) !is Text {
        invalid_state("conflict path is missing"@)
    } else {
        let path = field.at("path"@)->Text_0;
        let name = table::triple(at.first, at.second, path);
        if !step.picks.dom().contains(name) {
            error::refused(
                ErrorCode::SyncResolutionIncomplete,
                "missing resolution for "@ + at.first + ":"@ + at.second + ":"@ + path,
            )
        } else {
            let index = step.picks[name] as int;
            let picks = step.picks.remove(name);
            match field.at("candidates"@) {
                JsonView::Array(candidates) => if index < candidates.len() {
                    let value = candidates[index];
                    if value.get("truncated"@) == Some(JsonView::Bool(true)) {
                        invalid_resolution("a truncated candidate cannot be selected directly"@)
                    } else if path == "$object"@ {
                        Ok(
                            FieldStep {
                                payload: if value is Null {
                                    None
                                } else {
                                    Some(value)
                                },
                                picks,
                            },
                        )
                    } else {
                        match step.payload {
                            None => invalid_resolution("cannot set a field on a deleted object"@),
                            Some(payload) => match with_path(payload, path, value) {
                                Ok(after) => Ok(FieldStep { payload: Some(after), picks }),
                                Err(e) => Err(e),
                            },
                        }
                    }
                } else {
                    invalid_resolution("selected conflict candidate is unavailable"@)
                },
                _ => invalid_resolution("selected conflict candidate is unavailable"@),
            }
        }
    }
}

/// An object with the candidates chosen for the first `count` of its fields.
pub open spec fn with_choices(
    at: PairView,
    fields: Seq<JsonView>,
    step: FieldStep,
    count: nat,
) -> Result<FieldStep, AppErrorView>
    decreases count,
{
    if count == 0 || count > fields.len() {
        Ok(step)
    } else {
        match with_choices(at, fields, step, (count - 1) as nat) {
            Err(e) => Err(e),
            Ok(so_far) => with_choice(at, fields[count - 1], so_far),
        }
    }
}

/// The objects with some conflicts settled, and the decisions not yet used.
#[verifier::ext_equal]
pub struct SettledView {
    pub objects: Map<PairView, JsonView>,
    pub picks: Map<TripleView, usize>,
    pub preserved: Map<PairView, bool>,
}

/// The objects with one conflict settled.
pub open spec fn with_settled(
    blobs: Map<Seq<char>, Seq<u8>>,
    marks: Map<Seq<char>, MemoryMarkView>,
    conflict: JsonView,
    state: SettledView,
) -> Result<SettledView, AppErrorView> {
    let at = conflict_key(conflict);
    if state.preserved.dom().contains(at) {
        match sync_variant::both_kept(
            state.objects,
            blobs,
            at.first,
            at.second,
            conflict,
            marks,
        ) {
            Ok(objects) => Ok(
                SettledView { objects, preserved: state.preserved.remove(at), ..state },
            ),
            Err(e) => Err(e),
        }
    } else {
        match conflict.at("fields"@) {
            JsonView::Array(fields) => {
                let step = FieldStep {
                    payload: if state.objects.dom().contains(at) {
                        Some(state.objects[at])
                    } else {
                        None
                    },
                    picks: state.picks,
                };
                match with_choices(at, fields, step, fields.len()) {
                    Err(e) => Err(e),
                    Ok(after) => Ok(
                        SettledView {
                            objects: match after.payload {
                                Some(payload) => state.objects.insert(at, payload),
                                None => state.objects.remove(at),
                            },
                            picks: after.picks,
                            ..state
                        },
                    ),
                }
            },
            _ => invalid_state("conflict fields are missing"@),
        }
    }
}

/// The objects with the first `count` conflicts settled.
pub open spec fn settled(
    blobs: Map<Seq<char>, Seq<u8>>,
    marks: Map<Seq<char>, MemoryMarkView>,
    conflicts: Seq<JsonView>,
    start: SettledView,
    count: nat,
) -> Result<SettledView, AppErrorView>
    decreases count,
{
    if count == 0 || count > conflicts.len() {
        Ok(start)
    } else {
        match settled(blobs, marks, conflicts, start, (count - 1) as nat) {
            Err(e) => Err(e),
            Ok(state) => with_settled(blobs, marks, conflicts[count - 1], state),
        }
    }
}

/// The objects with every conflict settled as the packet decides.
pub open spec fn resolved(
    objects: Map<PairView, JsonView>,
    blobs: Map<Seq<char>, Seq<u8>>,
    marks: Map<Seq<char>, MemoryMarkView>,
    conflicts: Seq<JsonView>,
    resolution: JsonView,
) -> Result<Map<PairView, JsonView>, AppErrorView> {
    if check_resolution(conflicts, resolution) is Err {
        Err(check_resolution(conflicts, resolution)->Err_0)
    } else if resolution.at("version"@) != JsonView::Int(1) {
        invalid_resolution("resolution packet version must be 1"@)
    } else {
        let decisions = resolution.at("decisions"@)->Array_0;
        match conflict_ids(conflicts, conflicts.len()) {
            Err(e) => Err(e),
            Ok(ids) => match decided(ids, decisions, decisions.len()) {
                Err(e) => Err(e),
                Ok(choices) => {
                    let covered = choices.picks.dom().len() + preserved_fields(
                        conflicts,
                        choices.preserved,
                        conflicts.len(),
                    );
                    let expected = fields_of(conflicts, conflicts.len());
                    if covered != expected {
                        error::refused(
                            ErrorCode::SyncResolutionIncomplete,
                            "resolution covers "@ + text::natural(covered) + " conflict fields; "@
                                + text::natural(expected) + " are required"@,
                        )
                    } else {
                        match settled(
                            blobs,
                            marks,
                            conflicts,
                            SettledView {
                                objects,
                                picks: choices.picks,
                                preserved: choices.preserved,
                            },
                            conflicts.len(),
                        ) {
                            Err(e) => Err(e),
                            Ok(state) => if state.picks.dom().len() != 0 {
                                invalid_resolution(
                                    "resolution contains decisions that are not in the conflict packet"@,
                                )
                            } else if state.preserved.dom().len() != 0 {
                                invalid_resolution(
                                    "preserve-both decision does not match the conflict packet"@,
                                )
                            } else {
                                Ok(state.objects)
                            },
                        }
                    }
                },
            },
        }
    }
}

proof fn lemma_choices_stop(
    at: PairView,
    fields: Seq<JsonView>,
    step: FieldStep,
    count: nat,
    more: nat,
)
    requires
        0 < count <= more <= fields.len(),
        with_choices(at, fields, step, count) is Err,
    ensures
        with_choices(at, fields, step, more) == with_choices(at, fields, step, count),
    decreases more - count,
{
    if count < more {
        lemma_choices_stop(at, fields, step, count, (more - 1) as nat);
    }
}

proof fn lemma_settled_stop(
    blobs: Map<Seq<char>, Seq<u8>>,
    marks: Map<Seq<char>, MemoryMarkView>,
    conflicts: Seq<JsonView>,
    start: SettledView,
    count: nat,
    more: nat,
)
    requires
        0 < count <= more <= conflicts.len(),
        settled(blobs, marks, conflicts, start, count) is Err,
    ensures
        settled(blobs, marks, conflicts, start, more) == settled(
            blobs,
            marks,
            conflicts,
            start,
            count,
        ),
    decreases more - count,
{
    if count < more {
        lemma_settled_stop(blobs, marks, conflicts, start, count, (more - 1) as nat);
    }
}

/// Makes the choice for one field of an object.
fn choose_field(
    kind: &str,
    key: &str,
    field: &Json,
    payload: Option<Json>,
    picks: &mut Table<Triple, usize>,
) -> (r: Result<Option<Json>, AppError>)
    ensures
        match with_choice(
            table::pair(kind@, key@),
            field@,
            (FieldStep { payload: text::opt_view(payload), picks: old(picks)@ }),
        ) {
            Ok(after) => (r matches Ok(payload) && text::opt_view(payload) == after.payload)
                && final(picks)@ == after.picks,
            Err(e) => r matches Err(got) && got@ == e,
        },
{
    let path = match field.get_text("path") {
        Some(path) => path,
        None => {
            return refuse_state("conflict path is missing");
        },
    };
    let name = Triple::new(kind, key, path.as_str());
    let index: usize = match picks.get(&name) {
        Some(index) => *index,
        None => {
            let message = join2(
                join5("missing resolution for ", kind, ":", key, ":").as_str(),
                path.as_str(),
            );
            return Err(AppError::new(ErrorCode::SyncResolutionIncomplete, message.as_str()));
        },
    };
    picks.remove(&name);
    let candidates = match field.get("candidates") {
        Some(Json::Array(candidates)) => candidates,
        _ => {
            return refuse_resolution("selected conflict candidate is unavailable");
        },
    };
    proof {
        json::lemma_array_view(*candidates);
    }
    if index >= candidates.len() {
        return refuse_resolution("selected conflict candidate is unavailable");
    }
    let value = &candidates[index];
    assert(text::views(candidates@)[index as int] == value@);
    let truncated = match value.get("truncated") {
        Some(Json::Bool(b)) => *b,
        _ => false,
    };
    if truncated {
        return refuse_resolution("a truncated candidate cannot be selected directly");
    }
    if same_text(path.as_str(), "$object") {
        return match value {
            Json::Null => Ok(None),
            _ => Ok(Some(Json::duplicate(value))),
        };
    }
    match payload {
        None => refuse_resolution("cannot set a field on a deleted object"),
        Some(payload) => {
            let mut payload = payload;
            match set_sync_json_path(&mut payload, path.as_str(), Json::duplicate(value)) {
                Ok(()) => Ok(Some(payload)),
                Err(e) => Err(e),
            }
        },
    }
}

/// Settles one conflict.
fn settle_conflict(
    objects: &mut Table<Pair, Json>,
    blobs: &Table<String, Vec<u8>>,
    marks: &Table<String, MemoryMark>,
    conflict: &Json,
    picks: &mut Table<Triple, usize>,
    preserved: &mut Table<Pair, bool>,
) -> (r: Result<(), AppError>)
    requires
        conflict@.at("kind"@) is Text,
        conflict@.at("logical_key"@) is Text,
    ensures
        match with_settled(
            blobs@,
            marks@,
            conflict@,
            (SettledView {
                objects: old(objects)@,
                picks: old(picks)@,
                preserved: old(preserved)@,
            }),
        ) {
            Ok(after) => r is Ok && after == (SettledView {
                objects: final(objects)@,
                picks: final(picks)@,
                preserved: final(preserved)@,
            }),
            Err(e) => r matches Err(got) && got@ == e,
        },
{
    let kind = match conflict.get_text("kind") {
        Some(kind) => kind,
        None => {
            return refuse_state("conflict kind is missing");
        },
    };
    let key = match conflict.get_text("logical_key") {
        Some(key) => key,
        None => {
            return refuse_state("conflict logical key is missing");
        },
    };
    let at = Pair::new(kind.as_str(), key.as_str());
    if preserved.has(&at) {
        preserved.remove(&at);
        return apply_sync_preserve_both(
            objects,
            blobs,
            kind.as_str(),
            key.as_str(),
            conflict,
            marks,
        );
    }
    let fields = match conflict.get("fields") {
        Some(Json::Array(fields)) => fields,
        _ => {
            return refuse_state("conflict fields are missing");
        },
    };
    proof {
        json::lemma_array_view(*fields);
    }
    let ghost all = text::views(fields@);
    let mut payload: Option<Json> = match objects.get(&at) {
        Some(payload) => Some(Json::duplicate(payload)),
        None => None,
    };
    let ghost start = FieldStep { payload: text::opt_view(payload), picks: picks@ };
    let mut i: usize = 0;
    while i < fields.len()
        invariant
            i <= fields@.len(),
            objects@ == old(objects)@,
            preserved@ == old(preserved)@,
            with_choices(at@, all, start, i as nat) == Ok::<FieldStep, AppErrorView>(
                FieldStep { payload: text::opt_view(payload), picks: picks@ },
            ),
        decreases fields@.len() - i,
    {
        assert(all[i as int] == fields@[i as int]@);
        let chosen = choose_field(kind.as_str(), key.as_str(), &fields[i], payload, picks);
        match chosen {
            Ok(after) => {
                payload = after;
            },
            Err(e) => {
                proof {
                    lemma_choices_stop(at@, all, start, (i + 1) as nat, fields@.len());
                }
                return Err(e);
            },
        }
        i += 1;
    }
    match payload {
        Some(payload) => {
            objects.put(at, payload);
        },
        None => {
            objects.remove(&at);
        },
    }
    Ok(())
}

/// Settles the conflicts of a merge as a packet of decisions says. Where the
/// packet is refused the objects stay as they are.
#[verifier::rlimit(60)]
pub fn resolve_sync_conflicts(
    objects: &mut Table<Pair, Json>,
    blobs: &Table<String, Vec<u8>>,
    marks: &Table<String, MemoryMark>,
    conflicts: &Vec<Json>,
    resolution: &Json,
) -> (r: Result<(), AppError>)
    ensures
        match resolved(old(objects)@, blobs@, marks@, text::views(conflicts@), resolution@) {
            Ok(after) => r is Ok && final(objects)@ == after,
            Err(e) => (r matches Err(got) && got@ == e) && final(objects)@ == old(objects)@,
        },
{
    let ghost all = text::views(conflicts@);
    match validate_sync_resolution_schema(conflicts, resolution) {
        Ok(()) => {},
        Err(e) => {
            return Err(e);
        },
    }
    let version = match resolution.get("version") {
        Some(Json::Int(n)) => *n == 1,
        _ => false,
    };
    if !version {
        return refuse_resolution("resolution packet version must be 1");
    }
    let decisions = match resolution.get("decisions") {
        Some(Json::Array(decisions)) => decisions,
        _ => {
            return refuse_resolution("resolution decisions must be an array");
        },
    };
    proof {
        json::lemma_array_view(*decisions);
    }
    let ids = match read_conflict_ids(conflicts) {
        Ok(ids) => ids,
        Err(e) => {
            return Err(e);
        },
    };
    let ghost listed = text::views(decisions@);
    let mut picks: Table<Triple, usize> = Table::new();
    let mut preserved: Table<Pair, bool> = Table::new();
    let mut i: usize = 0;
    while i < decisions.len()
        invariant
            i <= decisions@.len(),
            decided(ids@, listed, i as nat) == Ok::<DecisionsView, AppErrorView>(
                DecisionsView { picks: picks@, preserved: preserved@ },
            ),
        decreases decisions@.len() - i,
    {
        assert(listed[i as int] == decisions@[i as int]@);
        match read_decision(&ids, &decisions[i], &mut picks, &mut preserved) {
            Ok(()) => {},
            Err(e) => {
                proof {
                    lemma_decided_stop(ids@, listed, (i + 1) as nat, decisions@.len());
                }
                return Err(e);
            },
        }
        i += 1;
    }
    let ghost choices = DecisionsView { picks: picks@, preserved: preserved@ };
    let mut expected: u128 = 0;
    let mut kept: u128 = 0;
    let mut k: usize = 0;
    while k < conflicts.len()
        invariant
            k <= conflicts@.len() <= MAX_CONFLICTS,
            expected == fields_of(all, k as nat),
            kept == preserved_fields(all, preserved@, k as nat),
            expected <= k * 0x1_0000_0000_0000_0000,
            kept <= k * 0x1_0000_0000_0000_0000,
        decreases conflicts@.len() - k,
    {
        let conflict = &conflicts[k];
        assert(all[k as int] == conflict@);
        let n = count_fields(conflict);
        expected = expected + n as u128;
        let kind = match conflict.get_text("kind") {
            Some(kind) => kind,
            None => {
                assert(false);
                return refuse_state("conflict kind is missing");
            },
        };
        let key = match conflict.get_text("logical_key") {
            Some(key) => key,
            None => {
                assert(false);
                return refuse_state("conflict logical key is missing");
            },
        };
        if preserved.has(&Pair::new(kind.as_str(), key.as_str())) {
            kept = kept + n as u128;
        }
        k += 1;
    }
    let covered: u128 = picks.len() as u128 + kept;
    if covered != expected {
        let message = join5(
            "resolution covers ",
            natural_text(covered).as_str(),
            " conflict fields; ",
            natural_text(expected).as_str(),
            " are required",
        );
        return Err(AppError::new(ErrorCode::SyncResolutionIncomplete, message.as_str()));
    }
    let mut work = objects.copy();
    let ghost start = SettledView { objects: work@, picks: picks@, preserved: preserved@ };
    let mut m: usize = 0;
    while m < conflicts.len()
        invariant
            m <= conflicts@.len(),
            objects@ == old(objects)@,
            settled(blobs@, marks@, all, start, m as nat) == Ok::<SettledView, AppErrorView>(
                SettledView { objects: work@, picks: picks@, preserved: preserved@ },
            ),
        decreases conflicts@.len() - m,
    {
        assert(all[m as int] == conflicts@[m as int]@);
        match settle_conflict(
            &mut work,
            blobs,
            marks,
            &conflicts[m],
            &mut picks,
            &mut preserved,
        ) {
            Ok(()) => {},
            Err(e) => {
                proof {
                    lemma_settled_stop(
                        blobs@,
                        marks@,
                        all,
                        start,
                        (m + 1) as nat,
                        conflicts@.len(),
                    );
                }
                return Err(e);
            },
        }
        m += 1;
    }
    if picks.len() != 0 {
        return refuse_resolution(
            "resolution contains decisions that are not in the conflict packet",
        );
    }
    if preserved.len() != 0 {
        return refuse_resolution("preserve-both decision does not match the conflict packet");
    }
    *objects = work;
    Ok(())
}

} // verus!
