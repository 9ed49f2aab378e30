//! Replaying a detached intent into a draft: the marks that make the replay safe to
//! repeat, the sources that it brings, and what tells that an item is done.
use crate::changeset_log;
use crate::detached;
use crate::detached::{
    show_tag_after, DetachedIngestIntent, DetachedMetaIntent, DetachedPageIntent,
    DetachedSourceIntent, DetachedTagIntent, IngestIntentView, MetaIntentView, PageIntentView,
    SourceIntentView, TagIntentView,
};
use crate::digest;
use crate::digest::{hash_content, sha256};
use crate::error;
use crate::error::{AppError, AppErrorView, ErrorCode};
use crate::json;
use crate::json::{Json, JsonView};
use crate::pages;
use crate::rows::{OperationRow, OperationView, SourceRow, SourceView};
use crate::sources;
use crate::sources::{encode_source_add, fresh_job};
use crate::sparse_merge;
use crate::store;
use crate::store::{Store, StoreView};
use crate::sync_file;
use crate::sync_file::{validate_sync_state_file, FileShape};
use crate::table::{same_record_opt, Record, Table};
use crate::text;
use crate::text::{
    any_control, begins_with, byte_len, chars_of, copy_texts, decimal_text, join2, join3, lower_hex,
    owned, same_opt, same_text, same_texts, slice_text, utf8_text,
};
use crate::touched;
use crate::touched::ingest_action;
use vstd::prelude::*;
use vstd::utf8;

verus! {

// ---------------------------------------------------------------------------
// Marks
// ---------------------------------------------------------------------------

/// What the marks of a replay are about.
pub open spec fn replay_target(store_id: Seq<char>, changeset_id: Seq<char>) -> Seq<char> {
    digest::text_digest(store_id + "\0"@ + changeset_id)
}

/// The key of the metadata that holds the revision a replay left.
pub open spec fn expected_key(target: Seq<char>) -> Seq<char> {
    "changeset_sync_replay_expected:"@ + target
}

fn changeset_sync_replay_target(store_id: &str, changeset_id: &str) -> (r: String)
    ensures
        r@ == replay_target(store_id@, changeset_id@),
{
    hash_content(join3(store_id, "\0", changeset_id).as_str())
}

fn changeset_sync_replay_expected_key(target: &str) -> (r: String)
    ensures
        r@ == expected_key(target@),
{
    join2("changeset_sync_replay_expected:", target)
}

/// The place of the first NUL, or the length.
pub open spec fn first_nul(s: Seq<char>) -> nat
    decreases s.len(),
{
    if s.len() == 0 || s[0] == '\0' {
        0
    } else {
        1 + first_nul(s.drop_first())
    }
}

/// What an item is: the text before the first NUL.
pub open spec fn item_kind(key: Seq<char>) -> Seq<char> {
    if first_nul(key) < key.len() {
        key.take(first_nul(key) as int)
    } else {
        ""@
    }
}

/// Which one an item is: the text after the first NUL.
pub open spec fn item_identifier(key: Seq<char>) -> Seq<char> {
    if first_nul(key) < key.len() {
        key.skip(first_nul(key) as int + 1)
    } else {
        ""@
    }
}

/// The key of an item: a kind and an identifier, apart by one NUL, in up to 512 bytes.
pub open spec fn is_item_key(key: Seq<char>) -> bool {
    &&& 1 <= text::byte_count(key) <= 512
    &&& first_nul(key) < key.len()
    &&& (item_kind(key) == "source"@ || item_kind(key) == "page"@ || item_kind(key) == "meta"@
        || item_kind(key) == "tag"@ || item_kind(key) == "ingest"@)
    &&& !text::has_control(item_kind(key))
    &&& !text::has_control(item_identifier(key))
}

/// Parts the key of an item at its first NUL.
fn part_key(key: &str) -> (r: Option<(String, String)>)
    ensures
        match r {
            Some((kind, identifier)) => first_nul(key@) < key@.len() && kind@ == item_kind(key@)
                && identifier@ == item_identifier(key@),
            None => first_nul(key@) >= key@.len(),
        },
{
    let chars = chars_of(key);
    let mut i: usize = 0;
    assert(key@.skip(0) =~= key@);
    while i < chars.len() && chars[i] != '\0'
        invariant
            i <= chars@.len(),
            chars@ == key@,
            first_nul(key@) == i + first_nul(key@.skip(i as int)),
        decreases chars@.len() - i,
    {
        assert(key@.skip(i as int).drop_first() =~= key@.skip(i + 1));
        i += 1;
    }
    if i == chars.len() {
        return None;
    }
    let kind = slice_text(&chars, 0, i);
    let identifier = slice_text(&chars, i + 1, chars.len());
    assert(kind@ =~= key@.take(i as int));
    assert(identifier@ =~= key@.skip(i + 1));
    Some((kind, identifier))
}

/// The mark of an item is well formed.
pub open spec fn item_checked(key: Seq<char>, mark: Seq<char>) -> Result<(), AppErrorView> {
    if is_item_key(key) && text::is_lower_hex(mark, 64) {
        Ok(())
    } else {
        error::refused(ErrorCode::ChangesetReplayInvalid, "replay item marker is malformed"@)
    }
}

/// Checks the mark of an item.
pub fn validate_changeset_sync_replay_item(item_key: &str, item_digest: &str) -> (r: Result<
    (),
    AppError,
>)
    ensures
        error::outcome(r) == item_checked(item_key@, item_digest@),
{
    let bytes = byte_len(item_key);
    let sound = match part_key(item_key) {
        Some((kind, identifier)) => {
            let k = kind.as_str();
            1 <= bytes && bytes <= 512 && (same_text(k, "source") || same_text(k, "page")
                || same_text(k, "meta") || same_text(k, "tag") || same_text(k, "ingest"))
                && !any_control(k) && !any_control(identifier.as_str())
        },
        None => false,
    };
    if sound && lower_hex(item_digest, 64) {
        Ok(())
    } else {
        Err(AppError::new(ErrorCode::ChangesetReplayInvalid, "replay item marker is malformed"))
    }
}

/// What the log says of an item.
pub open spec fn item_json(key: Seq<char>, mark: Seq<char>) -> JsonView {
    JsonView::Object(
        seq![
            json::entry("item_digest"@, JsonView::Text(mark)),
            json::entry("item_key"@, JsonView::Text(key)),
        ],
    )
}

/// There is an operation with an action and a target.
pub open spec fn has_operation(
    operations: Seq<OperationView>,
    action: Seq<char>,
    target: Seq<char>,
) -> bool {
    changeset_log::newest_with(operations, action, target) is Some
}

/// An item of a replay is done.
pub open spec fn is_done(operations: Seq<OperationView>, target: Seq<char>, key: Seq<char>) -> bool {
    exists|k: int|
        0 <= k < operations.len() && (#[trigger] operations[k]).action
            == "changeset_sync_replay_item"@ && operations[k].target == target
            && operations[k].detail.text_at("item_key"@) == Some(key)
}

/// An operation started an item that is not done.
pub open spec fn is_pending(
    operations: Seq<OperationView>,
    target: Seq<char>,
    op: OperationView,
) -> bool {
    &&& op.action == "changeset_sync_replay_item_start"@
    &&& op.target == target
    &&& match op.detail.text_at("item_key"@) {
        Some(key) => !is_done(operations, target, key),
        None => true,
    }
}

/// The operations among the first `count` that started an item that is not done.
pub open spec fn pending(operations: Seq<OperationView>, target: Seq<char>, count: nat) -> Seq<
    OperationView,
>
    decreases count,
{
    if count == 0 || count > operations.len() {
        Seq::empty()
    } else {
        let head = pending(operations, target, (count - 1) as nat);
        if is_pending(operations, target, operations[count - 1]) {
            head.push(operations[count - 1])
        } else {
            head
        }
    }
}

/// The items that are done among the first `count` operations, and their digests.
pub open spec fn done_items(operations: Seq<OperationView>, target: Seq<char>, count: nat) -> Result<
    Map<Seq<char>, Seq<char>>,
    AppErrorView,
>
    decreases count,
{
    if count == 0 || count > operations.len() {
        Ok(Map::empty())
    } else {
        match done_items(operations, target, (count - 1) as nat) {
            Err(e) => Err(e),
            Ok(head) => {
                let op = operations[count - 1];
                if op.action != "changeset_sync_replay_item"@ || op.target != target {
                    Ok(head)
                } else if op.detail.text_at("item_key"@) is None {
                    error::refused(
                        ErrorCode::ChangesetCorrupt,
                        "replay item marker lacks item_key"@,
                    )
                } else if op.detail.text_at("item_digest"@) is None {
                    error::refused(
                        ErrorCode::ChangesetCorrupt,
                        "replay item marker lacks item_digest"@,
                    )
                } else if head.dom().contains(op.detail.text_at("item_key"@)->0) {
                    error::refused(ErrorCode::ChangesetCorrupt, "duplicate replay item marker"@)
                } else {
                    Ok(
                        head.insert(
                            op.detail.text_at("item_key"@)->0,
                            op.detail.text_at("item_digest"@)->0,
                        ),
                    )
                }
            },
        }
    }
}

proof fn lemma_done_items_stop(
    operations: Seq<OperationView>,
    target: Seq<char>,
    count: nat,
    more: nat,
)
    requires
        count <= more <= operations.len(),
        done_items(operations, target, count) is Err,
    ensures
        done_items(operations, target, more) == done_items(operations, target, count),
    decreases more,
{
    if count < more {
        lemma_done_items_stop(operations, target, count, (more - 1) as nat);
    }
}

/// A draft was changed between the items of a replay.
pub open spec fn outside_change() -> AppErrorView {
    AppErrorView {
        code: ErrorCode::ChangesetReplayConflict,
        message: "replay draft was changed outside its replay helper"@,
        details: Some(
            JsonView::Object(
                seq![
                    json::entry("mutated"@, JsonView::Bool(false)),
                    json::entry("reason"@, JsonView::Text("draft_revision_changed"@)),
                ],
            ),
        ),
    }
}

/// How far a replay is: whether it is complete, and its items with their digests.
pub struct ChangesetSyncReplayState {
    pub complete: bool,
    pub items: Table<String, String>,
}

#[verifier::ext_equal]
pub struct ReplayView {
    pub complete: bool,
    pub items: Map<Seq<char>, Seq<char>>,
}

impl View for ChangesetSyncReplayState {
    type V = ReplayView;

    open spec fn view(&self) -> ReplayView {
        ReplayView {
            complete: self.complete,
            items: self.items@,
        }
    }
}

/// How far a replay into the draft of a store is.
pub open spec fn replay_state(
    store: StoreView,
    store_id: Seq<char>,
    changeset_id: Seq<char>,
) -> Result<Option<ReplayView>, AppErrorView> {
    let target = replay_target(store_id, changeset_id);
    let operations = store.operations;
    if !has_operation(operations, "changeset_sync_replay_start"@, target) {
        Ok(None)
    } else {
        match store::meta_value(store, expected_key(target)) {
            None => error::refused(
                ErrorCode::ChangesetReplayConflict,
                "replay draft lost its revision guard"@,
            ),
            Some(expected) => match store::live_identity(store) {
                Err(e) => Err(e),
                Ok(identity) => {
                    let waiting = pending(operations, target, operations.len());
                    if waiting.len() > 1 {
                        error::refused(
                            ErrorCode::ChangesetCorrupt,
                            "replay draft contains multiple pending items"@,
                        )
                    } else if identity.revision != expected && waiting.len() == 0 {
                        Err(outside_change())
                    } else {
                        match done_items(operations, target, operations.len()) {
                            Err(e) => Err(e),
                            Ok(items) => Ok(
                                Some(
                                    ReplayView {
                                        complete: has_operation(
                                            operations,
                                            "changeset_sync_replay_complete"@,
                                            target,
                                        ),
                                        items,
                                    },
                                ),
                            ),
                        }
                    }
                },
            },
        }
    }
}

/// The store with a mark of a replay, and the revision that it left.
pub open spec fn marked(
    store: StoreView,
    action: Seq<char>,
    target: Seq<char>,
    detail: JsonView,
    now: Seq<char>,
    revision: Seq<char>,
) -> Result<StoreView, AppErrorView> {
    match store::recorded(store, action, target, detail, now, revision) {
        Err(e) => Err(e),
        Ok(next) => Ok(
            StoreView { meta: next.meta.insert(expected_key(target), revision), ..next },
        ),
    }
}

/// What the log says of the start and the end of a replay.
pub open spec fn origin_json(store_id: Seq<char>, changeset_id: Seq<char>) -> JsonView {
    JsonView::Object(
        seq![
            json::entry("origin_changeset_id"@, JsonView::Text(changeset_id)),
            json::entry("origin_store_id"@, JsonView::Text(store_id)),
        ],
    )
}

/// What starting or completing a replay comes to: the store after it, and whether it
/// changed anything.
pub open spec fn marker_goal(
    store: StoreView,
    store_id: Seq<char>,
    changeset_id: Seq<char>,
    complete: bool,
    now: Seq<char>,
    revision: Seq<char>,
) -> Result<(StoreView, bool), AppErrorView> {
    if !text::is_lower_hex(store_id, 64) {
        error::refused(
            ErrorCode::ChangesetReplayInvalid,
            "origin store ID must be 64 hexadecimal characters"@,
        )
    } else if !text::is_lower_hex(changeset_id, 64) {
        error::refused(
            ErrorCode::ChangesetReplayInvalid,
            "origin changeset ID must be 64 hexadecimal characters"@,
        )
    } else {
        match replay_state(store, store_id, changeset_id) {
            Err(e) => Err(e),
            Ok(state) => if state is Some && (!complete || state->0.complete) {
                Ok((store, false))
            } else if state is None && complete {
                error::refused(
                    ErrorCode::ChangesetReplayNotStarted,
                    "changeset replay cannot complete before its start marker"@,
                )
            } else {
                match marked(
                    store,
                    if complete {
                        "changeset_sync_replay_complete"@
                    } else {
                        "changeset_sync_replay_start"@
                    },
                    replay_target(store_id, changeset_id),
                    origin_json(store_id, changeset_id),
                    now,
                    revision,
                ) {
                    Err(e) => Err(e),
                    Ok(next) => Ok((next, true)),
                }
            },
        }
    }
}

/// Where an item of a replay stands.
#[derive(Clone, Copy, PartialEq, Eq, Structural, Debug)]
pub enum ChangesetSyncReplayItemState {
    /// Nothing was done yet.
    Ready,
    /// It was started, and the draft is as it was then.
    PendingClean,
    /// It was started, and the draft was changed since.
    PendingMutated,
    /// It is done.
    Complete,
}

/// What starting an item that nobody started comes to.
pub open spec fn fresh_item(
    store: StoreView,
    target: Seq<char>,
    key: Seq<char>,
    mark: Seq<char>,
    now: Seq<char>,
    revision: Seq<char>,
) -> Result<(StoreView, ChangesetSyncReplayItemState), AppErrorView> {
    match marked(
        store,
        "changeset_sync_replay_item_start"@,
        target,
        item_json(key, mark),
        now,
        revision,
    ) {
        Err(e) => Err(e),
        Ok(next) => Ok((next, ChangesetSyncReplayItemState::Ready)),
    }
}

/// What starting an item again comes to.
pub open spec fn waiting_item(
    store: StoreView,
    target: Seq<char>,
    op: OperationView,
    key: Seq<char>,
    mark: Seq<char>,
) -> Result<(StoreView, ChangesetSyncReplayItemState), AppErrorView> {
    if op.detail.text_at("item_digest"@) is None || op.detail.text_at("item_key"@) is None {
        Err(changeset_log::null_value())
    } else if op.detail.text_at("item_key"@) != Some(key) || op.detail.text_at("item_digest"@)
        != Some(mark) {
        error::refused(ErrorCode::ChangesetReplayConflict, "another replay item is pending"@)
    } else {
        match store::meta_value(store, expected_key(target)) {
            None => Err(store::no_rows()),
            Some(expected) => match store::live_identity(store) {
                Err(e) => Err(e),
                Ok(identity) => Ok(
                    (
                        store,
                        if identity.revision == expected {
                            ChangesetSyncReplayItemState::PendingClean
                        } else {
                            ChangesetSyncReplayItemState::PendingMutated
                        },
                    ),
                ),
            },
        }
    }
}

/// What starting an item of a replay comes to.
pub open spec fn start_goal(
    store: StoreView,
    store_id: Seq<char>,
    changeset_id: Seq<char>,
    key: Seq<char>,
    mark: Seq<char>,
    now: Seq<char>,
    revision: Seq<char>,
) -> Result<(StoreView, ChangesetSyncReplayItemState), AppErrorView> {
    let target = replay_target(store_id, changeset_id);
    match item_checked(key, mark) {
        Err(e) => Err(e),
        Ok(_) => match replay_state(store, store_id, changeset_id) {
            Err(e) => Err(e),
            Ok(None) => error::refused(
                ErrorCode::ChangesetReplayNotStarted,
                "replay has not started"@,
            ),
            Ok(Some(state)) => if state.complete {
                Ok((store, ChangesetSyncReplayItemState::Complete))
            } else if state.items.dom().contains(key) {
                if state.items[key] == mark {
                    Ok((store, ChangesetSyncReplayItemState::Complete))
                } else {
                    error::refused(
                        ErrorCode::ChangesetReplayConflict,
                        "replay item digest changed"@,
                    )
                }
            } else {
                let waiting = pending(store.operations, target, store.operations.len());
                if waiting.len() > 0 {
                    waiting_item(store, target, waiting.last(), key, mark)
                } else {
                    fresh_item(store, target, key, mark, now, revision)
                }
            },
        },
    }
}

/// The digest that the first operation for an item is done under.
pub open spec fn done_mark(operations: Seq<OperationView>, target: Seq<char>, key: Seq<char>) -> Option<
    Option<Seq<char>>,
>
    decreases operations.len(),
{
    if operations.len() == 0 {
        None
    } else {
        let op = operations[0];
        if op.action == "changeset_sync_replay_item"@ && op.target == target
            && op.detail.text_at("item_key"@) == Some(key) {
            Some(op.detail.text_at("item_digest"@))
        } else {
            done_mark(operations.drop_first(), target, key)
        }
    }
}

/// What marking an item of a replay as done comes to: the store after it, and whether
/// it changed anything.
pub open spec fn mark_goal(
    store: StoreView,
    store_id: Seq<char>,
    changeset_id: Seq<char>,
    key: Seq<char>,
    mark: Seq<char>,
    now: Seq<char>,
    revision: Seq<char>,
) -> Result<(StoreView, bool), AppErrorView> {
    let target = replay_target(store_id, changeset_id);
    match item_checked(key, mark) {
        Err(e) => Err(e),
        Ok(_) => if !has_operation(store.operations, "changeset_sync_replay_start"@, target) {
            error::refused(ErrorCode::ChangesetReplayNotStarted, "replay has not started"@)
        } else if has_operation(store.operations, "changeset_sync_replay_complete"@, target) {
            error::refused(
                ErrorCode::ChangesetReplayConflict,
                "completed replay cannot accept items"@,
            )
        } else {
            match done_mark(store.operations, target, key) {
                Some(None) => Err(changeset_log::null_value()),
                Some(Some(before)) => if before == mark {
                    Ok((store, false))
                } else {
                    error::refused(
                        ErrorCode::ChangesetReplayConflict,
                        "replay item digest changed"@,
                    )
                },
                None => match marked(
                    store,
                    "changeset_sync_replay_item"@,
                    target,
                    item_json(key, mark),
                    now,
                    revision,
                ) {
                    Err(e) => Err(e),
                    Ok(next) => Ok((next, true)),
                },
            }
        },
    }
}

/// Searches for an operation.
fn is_recorded(live: &Store, action: &str, target: &str) -> (r: bool)
    ensures
        r == has_operation(live@.operations, action@, target@),
{
    live.find_operation(action, target).is_some()
}

/// Searches for the mark of an item that is done.
fn finds_done(operations: &Vec<OperationRow>, target: &str, key: &str) -> (r: bool)
    ensures
        r == is_done(text::views(operations@), target@, key@),
{
    let ghost all = text::views(operations@);
    let mut i: usize = 0;
    while i < operations.len()
        invariant
            i <= operations@.len() == all.len(),
            all == text::views(operations@),
            forall|k: int|
                0 <= k < i ==> !((#[trigger] all[k]).action == "changeset_sync_replay_item"@
                    && all[k].target == target@ && all[k].detail.text_at("item_key"@) == Some(
                    key@,
                )),
        decreases operations@.len() - i,
    {
        assert(all[i as int] == operations@[i as int]@);
        let op = &operations[i];
        if same_text(op.action.as_str(), "changeset_sync_replay_item") && same_text(
            op.target.as_str(),
            target,
        ) {
            if let Some(found) = op.detail.text_at("item_key") {
                if same_text(found.as_str(), key) {
                    return true;
                }
            }
        }
        i += 1;
    }
    false
}

fn awaits(operations: &Vec<OperationRow>, target: &str, op: &OperationRow) -> (r: bool)
    ensures
        r == is_pending(text::views(operations@), target@, op@),
{
    if !same_text(op.action.as_str(), "changeset_sync_replay_item_start") || !same_text(
        op.target.as_str(),
        target,
    ) {
        return false;
    }
    match op.detail.text_at("item_key") {
        Some(key) => !finds_done(operations, target, key.as_str()),
        None => true,
    }
}

/// The places of the operations that started an item that is not done: how many there
/// are, and the last one.
fn find_pending<'a>(operations: &'a Vec<OperationRow>, target: &str) -> (r: (
    usize,
    Option<&'a OperationRow>,
))
    ensures
        r.0 == pending(text::views(operations@), target@, operations@.len()).len(),
        match r.1 {
            Some(op) => r.0 > 0 && op@ == pending(
                text::views(operations@),
                target@,
                operations@.len(),
            ).last(),
            None => r.0 == 0,
        },
{
    let ghost all = text::views(operations@);
    let mut count: usize = 0;
    let mut last: Option<&'a OperationRow> = None;
    let mut i: usize = 0;
    while i < operations.len()
        invariant
            i <= operations@.len() == all.len(),
            all == text::views(operations@),
            count <= i,
            count == pending(all, target@, i as nat).len(),
            match last {
                Some(op) => count > 0 && op@ == pending(all, target@, i as nat).last(),
                None => count == 0,
            },
        decreases operations@.len() - i,
    {
        assert(all[i as int] == operations@[i as int]@);
        if awaits(operations, target, &operations[i]) {
            count += 1;
            last = Some(&operations[i]);
        }
        i += 1;
    }
    (count, last)
}

/// Gathers the items of a replay that are done.
fn gather_done(operations: &Vec<OperationRow>, target: &str) -> (r: Result<
    Table<String, String>,
    AppError,
>)
    ensures
        error::outcome(r) == done_items(text::views(operations@), target@, operations@.len()),
{
    let ghost all = text::views(operations@);
    let mut items: Table<String, String> = Table::new();
    let mut i: usize = 0;
    while i < operations.len()
        invariant
            i <= operations@.len() == all.len(),
            all == text::views(operations@),
            done_items(all, target@, i as nat) == Ok::<Map<Seq<char>, Seq<char>>, AppErrorView>(
                items@,
            ),
        decreases operations@.len() - i,
    {
        assert(all[i as int] == operations@[i as int]@);
        proof {
            if done_items(all, target@, (i + 1) as nat) is Err {
                lemma_done_items_stop(all, target@, (i + 1) as nat, all.len());
            }
        }
        let op = &operations[i];
        if same_text(op.action.as_str(), "changeset_sync_replay_item") && same_text(
            op.target.as_str(),
            target,
        ) {
            let key = match op.detail.text_at("item_key") {
                Some(key) => owned(key.as_str()),
                None => {
                    return Err(
                        AppError::new(
                            ErrorCode::ChangesetCorrupt,
                            "replay item marker lacks item_key",
                        ),
                    );
                },
            };
            let mark = match op.detail.text_at("item_digest") {
                Some(mark) => owned(mark.as_str()),
                None => {
                    return Err(
                        AppError::new(
                            ErrorCode::ChangesetCorrupt,
                            "replay item marker lacks item_digest",
                        ),
                    );
                },
            };
            if items.has(&key) {
                return Err(
                    AppError::new(ErrorCode::ChangesetCorrupt, "duplicate replay item marker"),
                );
            }
            items.put(key, mark);
        }
        i += 1;
    }
    Ok(items)
}

/// Searches for the digest that an item is done under.
fn find_done_mark(operations: &Vec<OperationRow>, target: &str, key: &str) -> (r: Option<
    Option<String>,
>)
    ensures
        match done_mark(text::views(operations@), target@, key@) {
            Some(mark) => r matches Some(got) && text::opt_text(got) == mark,
            None => r is None,
        },
{
    let ghost all = text::views(operations@);
    let mut i: usize = 0;
    assert(all.skip(0) =~= all);
    while i < operations.len()
        invariant
            i <= operations@.len() == all.len(),
            all == text::views(operations@),
            done_mark(all, target@, key@) == done_mark(all.skip(i as int), target@, key@),
        decreases operations@.len() - i,
    {
        assert(all.skip(i as int)[0] == operations@[i as int]@);
        assert(all.skip(i as int).drop_first() =~= all.skip(i + 1));
        let op = &operations[i];
        if same_text(op.action.as_str(), "changeset_sync_replay_item") && same_text(
            op.target.as_str(),
            target,
        ) {
            if let Some(found) = op.detail.text_at("item_key") {
                if same_text(found.as_str(), key) {
                    return Some(
                        match op.detail.text_at("item_digest") {
                            Some(mark) => Some(owned(mark.as_str())),
                            None => None,
                        },
                    );
                }
            }
        }
        i += 1;
    }
    None
}

fn null_error() -> (r: AppError)
    ensures
        r@ == changeset_log::null_value(),
{
    AppError::new(ErrorCode::DatabaseError, "Invalid column type Null")
}

impl Store {
    /// Sets a mark in a store that is given up on an error.
    fn set_mark(&mut self, action: &str, target: &str, detail: Json, now: &str, revision: &str) -> (r:
        Result<(), AppError>)
        ensures
            match marked(old(self)@, action@, target@, detail@, now@, revision@) {
                Ok(next) => r is Ok && final(self)@ == next,
                Err(e) => (r matches Err(got) && got@ == e) && final(self)@ == old(self)@,
            },
    {
        if let Err(e) = self.record_operation(action, target, detail, now, revision) {
            return Err(e);
        }
        self.meta.put(changeset_sync_replay_expected_key(target), owned(revision));
        Ok(())
    }

    /// How far a replay is; nothing where it has not started.
    pub fn changeset_sync_replay_state(
        &self,
        origin_store_id: &str,
        origin_changeset_id: &str,
    ) -> (r: Result<Option<ChangesetSyncReplayState>, AppError>)
        ensures
            match replay_state(self@, origin_store_id@, origin_changeset_id@) {
                Ok(state) => r matches Ok(got) && text::opt_view(got) == state,
                Err(e) => r matches Err(got) && got@ == e,
            },
    {
        let target = changeset_sync_replay_target(origin_store_id, origin_changeset_id);
        assert(text::views(self.operations@).len() == self.operations@.len());
        if !is_recorded(self, "changeset_sync_replay_start", target.as_str()) {
            return Ok(None);
        }
        let expected = match self.meta_text(
            changeset_sync_replay_expected_key(target.as_str()).as_str(),
        ) {
            Some(expected) => expected,
            None => {
                return Err(
                    AppError::new(
                        ErrorCode::ChangesetReplayConflict,
                        "replay draft lost its revision guard",
                    ),
                );
            },
        };
        let identity = match self.identity() {
            Ok(identity) => identity,
            Err(e) => {
                return Err(e);
            },
        };
        let (waiting, _) = find_pending(&self.operations, target.as_str());
        if waiting > 1 {
            return Err(
                AppError::new(
                    ErrorCode::ChangesetCorrupt,
                    "replay draft contains multiple pending items",
                ),
            );
        }
        if waiting == 0 && !same_text(identity.revision.as_str(), expected.as_str()) {
            return Err(
                AppError {
                    code: ErrorCode::ChangesetReplayConflict,
                    message: owned("replay draft was changed outside its replay helper"),
                    details: Some(
                        Json::object2(
                            "mutated",
                            Json::Bool(false),
                            "reason",
                            Json::text("draft_revision_changed"),
                        ),
                    ),
                },
            );
        }
        let items = match gather_done(&self.operations, target.as_str()) {
            Ok(items) => items,
            Err(e) => {
                return Err(e);
            },
        };
        let complete = is_recorded(self, "changeset_sync_replay_complete", target.as_str());
        Ok(Some(ChangesetSyncReplayState { complete, items }))
    }

    /// Marks a replay as started or as complete; says whether that changed anything.
    pub fn changeset_sync_replay_marker(
        &mut self,
        origin_store_id: &str,
        origin_changeset_id: &str,
        complete: bool,
        now: &str,
        revision: &str,
    ) -> (r: Result<bool, AppError>)
        ensures
            match marker_goal(
                old(self)@,
                origin_store_id@,
                origin_changeset_id@,
                complete,
                now@,
                revision@,
            ) {
                Ok(done) => r == Ok::<bool, AppError>(done.1) && final(self)@ == done.0,
                Err(e) => (r matches Err(got) && got@ == e) && final(self)@ == old(self)@,
            },
    {
        if !lower_hex(origin_store_id, 64) {
            return Err(
                AppError::new(
                    ErrorCode::ChangesetReplayInvalid,
                    "origin store ID must be 64 hexadecimal characters",
                ),
            );
        }
        if !lower_hex(origin_changeset_id, 64) {
            return Err(
                AppError::new(
                    ErrorCode::ChangesetReplayInvalid,
                    "origin changeset ID must be 64 hexadecimal characters",
                ),
            );
        }
        match self.changeset_sync_replay_state(origin_store_id, origin_changeset_id) {
            Err(e) => {
                return Err(e);
            },
            Ok(Some(state)) => {
                if !complete || state.complete {
                    return Ok(false);
                }
            },
            Ok(None) => {
                if complete {
                    return Err(
                        AppError::new(
                            ErrorCode::ChangesetReplayNotStarted,
                            "changeset replay cannot complete before its start marker",
                        ),
                    );
                }
            },
        }
        let target = changeset_sync_replay_target(origin_store_id, origin_changeset_id);
        let action = if complete {
            "changeset_sync_replay_complete"
        } else {
            "changeset_sync_replay_start"
        };
        let detail = Json::object2(
            "origin_changeset_id",
            Json::text(origin_changeset_id),
            "origin_store_id",
            Json::text(origin_store_id),
        );
        match self.set_mark(action, target.as_str(), detail, now, revision) {
            Ok(_) => Ok(true),
            Err(e) => Err(e),
        }
    }

    /// Starts an item of a replay, or says where it stands.
    pub fn changeset_sync_replay_start_item(
        &mut self,
        origin_store_id: &str,
        origin_changeset_id: &str,
        item_key: &str,
        item_digest: &str,
        now: &str,
        revision: &str,
    ) -> (r: Result<ChangesetSyncReplayItemState, AppError>)
        ensures
            match start_goal(
                old(self)@,
                origin_store_id@,
                origin_changeset_id@,
                item_key@,
                item_digest@,
                now@,
                revision@,
            ) {
                Ok(done) => r == Ok::<ChangesetSyncReplayItemState, AppError>(done.1) && final(
                    self)@ == done.0,
                Err(e) => (r matches Err(got) && got@ == e) && final(self)@ == old(self)@,
            },
    {
        if let Err(e) = validate_changeset_sync_replay_item(item_key, item_digest) {
            return Err(e);
        }
        let state = match self.changeset_sync_replay_state(origin_store_id, origin_changeset_id) {
            Err(e) => {
                return Err(e);
            },
            Ok(None) => {
                return Err(
                    AppError::new(ErrorCode::ChangesetReplayNotStarted, "replay has not started"),
                );
            },
            Ok(Some(state)) => state,
        };
        if state.complete {
            return Ok(ChangesetSyncReplayItemState::Complete);
        }
        let key = owned(item_key);
        if let Some(before) = state.items.get(&key) {
            if same_text(before.as_str(), item_digest) {
                return Ok(ChangesetSyncReplayItemState::Complete);
            }
            return Err(
                AppError::new(ErrorCode::ChangesetReplayConflict, "replay item digest changed"),
            );
        }
        let target = changeset_sync_replay_target(origin_store_id, origin_changeset_id);
        assert(text::views(self.operations@).len() == self.operations@.len());
        let (_, waiting) = find_pending(&self.operations, target.as_str());
        if let Some(op) = waiting {
            return self.resume_item(target.as_str(), op, item_key, item_digest);
        }
        let detail = Json::object2(
            "item_digest",
            Json::text(item_digest),
            "item_key",
            Json::text(item_key),
        );
        match self.set_mark(
            "changeset_sync_replay_item_start",
            target.as_str(),
            detail,
            now,
            revision,
        ) {
            Ok(_) => Ok(ChangesetSyncReplayItemState::Ready),
            Err(e) => Err(e),
        }
    }

    /// Where an item that was started stands.
    fn resume_item(&self, target: &str, op: &OperationRow, item_key: &str, item_digest: &str) -> (r:
        Result<ChangesetSyncReplayItemState, AppError>)
        ensures
            match waiting_item(self@, target@, op@, item_key@, item_digest@) {
                Ok(done) => r == Ok::<ChangesetSyncReplayItemState, AppError>(done.1),
                Err(e) => r matches Err(got) && got@ == e,
            },
    {
        let mark = match op.detail.text_at("item_digest") {
            Some(mark) => mark,
            None => {
                return Err(null_error());
            },
        };
        let key = match op.detail.text_at("item_key") {
            Some(key) => key,
            None => {
                return Err(null_error());
            },
        };
        if !same_text(key.as_str(), item_key) || !same_text(mark.as_str(), item_digest) {
            return Err(
                AppError::new(ErrorCode::ChangesetReplayConflict, "another replay item is pending"),
            );
        }
        let expected = match self.meta_text(changeset_sync_replay_expected_key(target).as_str()) {
            Some(expected) => expected,
            None => {
                return Err(store::no_rows_error());
            },
        };
        match self.identity() {
            Err(e) => Err(e),
            Ok(identity) => if same_text(identity.revision.as_str(), expected.as_str()) {
                Ok(ChangesetSyncReplayItemState::PendingClean)
            } else {
                Ok(ChangesetSyncReplayItemState::PendingMutated)
            },
        }
    }

    /// Marks an item of a replay as done; says whether that changed anything.
    pub fn changeset_sync_replay_mark_item(
        &mut self,
        origin_store_id: &str,
        origin_changeset_id: &str,
        item_key: &str,
        item_digest: &str,
        now: &str,
        revision: &str,
    ) -> (r: Result<bool, AppError>)
        ensures
            match mark_goal(
                old(self)@,
                origin_store_id@,
                origin_changeset_id@,
                item_key@,
                item_digest@,
                now@,
                revision@,
            ) {
                Ok(done) => r == Ok::<bool, AppError>(done.1) && final(self)@ == done.0,
                Err(e) => (r matches Err(got) && got@ == e) && final(self)@ == old(self)@,
            },
    {
        if let Err(e) = validate_changeset_sync_replay_item(item_key, item_digest) {
            return Err(e);
        }
        let target = changeset_sync_replay_target(origin_store_id, origin_changeset_id);
        if !is_recorded(self, "changeset_sync_replay_start", target.as_str()) {
            return Err(
                AppError::new(ErrorCode::ChangesetReplayNotStarted, "replay has not started"),
            );
        }
        if is_recorded(self, "changeset_sync_replay_complete", target.as_str()) {
            return Err(
                AppError::new(
                    ErrorCode::ChangesetReplayConflict,
                    "completed replay cannot accept items",
                ),
            );
        }
        match find_done_mark(&self.operations, target.as_str(), item_key) {
            Some(None) => {
                return Err(null_error());
            },
            Some(Some(before)) => {
                if same_text(before.as_str(), item_digest) {
                    return Ok(false);
                }
                return Err(
                    AppError::new(ErrorCode::ChangesetReplayConflict, "replay item digest changed"),
                );
            },
            None => {},
        }
        let detail = Json::object2(
            "item_digest",
            Json::text(item_digest),
            "item_key",
            Json::text(item_key),
        );
        match self.set_mark("changeset_sync_replay_item", target.as_str(), detail, now, revision) {
            Ok(_) => Ok(true),
            Err(e) => Err(e),
        }
    }
}

// ---------------------------------------------------------------------------
// What an item changed
// ---------------------------------------------------------------------------

/// The last operation that started an item.
pub open spec fn start_of(operations: Seq<OperationView>, target: Seq<char>, key: Seq<char>) -> Option<
    i64,
>
    decreases operations.len(),
{
    if operations.len() == 0 {
        None
    } else {
        let op = operations.last();
        if op.action == "changeset_sync_replay_item_start"@ && op.target == target
            && op.detail.text_at("item_key"@) == Some(key) {
            Some(op.id)
        } else {
            start_of(operations.drop_last(), target, key)
        }
    }
}

/// An operation is one that replaying an item would make.
pub open spec fn belongs(
    store: StoreView,
    kind: Seq<char>,
    identifier: Seq<char>,
    op: OperationView,
) -> bool {
    if kind == "source"@ {
        op.action == "source_add"@ && match op.detail.int_at("source_id"@) {
            Some(id) => detached::hash_of(store, id) == Some(identifier),
            None => false,
        }
    } else if kind == "page"@ {
        (op.action == "page_put"@ || op.action == "page_remove"@) && op.target == identifier
    } else if kind == "meta"@ {
        if identifier == "schema"@ {
            op.action == "schema_set"@ && op.target == "schema"@
        } else if identifier == "purpose"@ {
            op.action == "purpose_set"@ && op.target == "purpose"@
        } else {
            false
        }
    } else if kind == "tag"@ {
        (op.action == "tag_set"@ || op.action == "tag_remove"@) && (identifier
            + "/"@).is_prefix_of(op.target) || (op.action == "tag_delete"@ || op.action
            == "tag_autoload"@) && op.target == identifier
    } else if kind == "ingest"@ {
        touched::is_ingest_action(op.action) && match sources::source_with_hash(store, identifier) {
            Some(id) => op.target == text::decimal(id as int),
            None => false,
        }
    } else {
        false
    }
}

/// An operation is a mark of a replay.
pub open spec fn is_replay_mark(op: OperationView) -> bool {
    "changeset_sync_replay_"@.is_prefix_of(op.action)
}

/// What was done since an item was started is what replaying it would do, and something
/// was done.
pub open spec fn mutations_match(
    store: StoreView,
    store_id: Seq<char>,
    changeset_id: Seq<char>,
    key: Seq<char>,
) -> Result<bool, AppErrorView> {
    match start_of(store.operations, replay_target(store_id, changeset_id), key) {
        None => Err(store::no_rows()),
        Some(id) => Ok(
            {
                &&& exists|k: int|
                    0 <= k < store.operations.len() && (#[trigger] store.operations[k]).id > id
                        && !is_replay_mark(store.operations[k])
                &&& forall|k: int|
                    0 <= k < store.operations.len() && (#[trigger] store.operations[k]).id > id
                        && !is_replay_mark(store.operations[k]) ==> belongs(
                        store,
                        item_kind(key),
                        item_identifier(key),
                        store.operations[k],
                    )
            },
        ),
    }
}

fn find_start(operations: &Vec<OperationRow>, target: &str, key: &str) -> (r: Option<i64>)
    ensures
        r == start_of(text::views(operations@), target@, key@),
{
    let ghost all = text::views(operations@);
    let mut i: usize = operations.len();
    assert(all.take(i as int) =~= all);
    while i > 0
        invariant
            i <= operations@.len() == all.len(),
            all == text::views(operations@),
            start_of(all, target@, key@) == start_of(all.take(i as int), target@, key@),
        decreases i,
    {
        i -= 1;
        assert(all.take(i + 1).drop_last() =~= all.take(i as int));
        assert(all.take(i + 1).last() == operations@[i as int]@);
        let op = &operations[i];
        if same_text(op.action.as_str(), "changeset_sync_replay_item_start") && same_text(
            op.target.as_str(),
            target,
        ) {
            if let Some(found) = op.detail.text_at("item_key") {
                if same_text(found.as_str(), key) {
                    return Some(op.id);
                }
            }
        }
    }
    None
}

fn fits_source(live: &Store, identifier: &str, op: &OperationRow) -> (r: bool)
    ensures
        r == belongs(live@, "source"@, identifier@, op@),
{
    if !same_text(op.action.as_str(), "source_add") {
        return false;
    }
    match op.detail.int_at("source_id") {
        Some(id) => match live.sources.get(&id) {
            Some(source) => same_text(source.content_hash.as_str(), identifier),
            None => false,
        },
        None => false,
    }
}

fn fits(live: &Store, kind: &str, identifier: &str, op: &OperationRow) -> (r: bool)
    ensures
        r == belongs(live@, kind@, identifier@, op@),
{
    let action = op.action.as_str();
    let target = op.target.as_str();
    if same_text(kind, "source") {
        return fits_source(live, identifier, op);
    }
    if same_text(kind, "page") {
        return (same_text(action, "page_put") || same_text(action, "page_remove")) && same_text(
            target,
            identifier,
        );
    }
    if same_text(kind, "meta") {
        if same_text(identifier, "schema") {
            return same_text(action, "schema_set") && same_text(target, "schema");
        }
        if same_text(identifier, "purpose") {
            return same_text(action, "purpose_set") && same_text(target, "purpose");
        }
        return false;
    }
    if same_text(kind, "tag") {
        return (same_text(action, "tag_set") || same_text(action, "tag_remove")) && begins_with(
            target,
            join2(identifier, "/").as_str(),
        ) || (same_text(action, "tag_delete") || same_text(action, "tag_autoload")) && same_text(
            target,
            identifier,
        );
    }
    if same_text(kind, "ingest") {
        return ingest_action(action) && match live.source_id_by_content_hash(identifier) {
            Some(id) => same_text(target, decimal_text(id).as_str()),
            None => false,
        };
    }
    false
}

impl Store {
    /// What was done since an item was started is what replaying it would do, and
    /// something was done.
    pub fn changeset_sync_replay_pending_mutations_match(
        &self,
        origin_store_id: &str,
        origin_changeset_id: &str,
        item_key: &str,
    ) -> (r: Result<bool, AppError>)
        ensures
            match mutations_match(self@, origin_store_id@, origin_changeset_id@, item_key@) {
                Ok(answer) => r == Ok::<bool, AppError>(answer),
                Err(e) => r matches Err(got) && got@ == e,
            },
    {
        let target = changeset_sync_replay_target(origin_store_id, origin_changeset_id);
        let start = match find_start(&self.operations, target.as_str(), item_key) {
            Some(start) => start,
            None => {
                return Err(store::no_rows_error());
            },
        };
        let (kind, identifier) = match part_key(item_key) {
            Some(parts) => parts,
            None => (owned(""), owned("")),
        };
        let ghost all = self@.operations;
        let mut any = false;
        let mut i: usize = 0;
        while i < self.operations.len()
            invariant
                i <= self.operations@.len() == all.len(),
                all == text::views(self.operations@),
                any == exists|k: int|
                    0 <= k < i && (#[trigger] all[k]).id > start && !is_replay_mark(all[k]),
                forall|k: int|
                    0 <= k < i && (#[trigger] all[k]).id > start && !is_replay_mark(all[k])
                        ==> belongs(self@, kind@, identifier@, all[k]),
            decreases self.operations@.len() - i,
        {
            let op = &self.operations[i];
            assert(all[i as int] == op@);
            if op.id > start && !begins_with(op.action.as_str(), "changeset_sync_replay_") {
                if !fits(self, kind.as_str(), identifier.as_str(), op) {
                    return Ok(false);
                }
                any = true;
            }
            i += 1;
        }
        Ok(any)
    }
}

// ---------------------------------------------------------------------------
// Sources
// ---------------------------------------------------------------------------

/// The origin that a replayed source gets.
pub open spec fn replay_origin(source: SourceIntentView) -> Seq<char> {
    match source.origin {
        Some(origin) => origin,
        None => "sync:sha256:"@ + source.content_hash,
    }
}

/// The title that a replayed source gets.
pub open spec fn replay_title(source: SourceIntentView) -> Seq<char> {
    match source.title {
        Some(title) => title,
        None => replay_origin(source),
    }
}

/// The source of an intent is in the store as the intent wants it.
pub open spec fn source_matches(store: StoreView, source: SourceIntentView) -> bool {
    match sources::source_with_hash(store, source.content_hash) {
        Some(id) => store.sources[id].title == Some(replay_title(source))
            && store.sources[id].origin == replay_origin(source)
            && store.sources[id].structural_navigation == source.structural_navigation,
        None => false,
    }
}

/// A source of an intent with its content, as a row.
pub open spec fn replayed_row(source: SourceIntentView, content: Seq<char>, now: Seq<char>) -> SourceView {
    SourceView {
        content_hash: source.content_hash,
        title: Some(replay_title(source)),
        origin: replay_origin(source),
        content,
        structural_navigation: source.structural_navigation,
        created_at: now,
    }
}

/// The store with a source of an intent, created with its content.
pub open spec fn source_replayed(
    store: StoreView,
    source: SourceIntentView,
    content: Seq<char>,
    now: Seq<char>,
    revision: Seq<char>,
) -> Result<(StoreView, i64), AppErrorView> {
    if store.source_sequence >= i64::MAX {
        error::refused(ErrorCode::DatabaseError, "source identifiers are exhausted"@)
    } else {
        let id = (store.source_sequence + 1) as i64;
        match store::recorded(
            StoreView {
                sources: store.sources.insert(id, replayed_row(source, content, now)),
                source_sequence: id,
                ingest_jobs: store.ingest_jobs.insert(id, sources::pending_job(now)),
                ..store
            },
            "source_add"@,
            replay_origin(source),
            sources::source_add_detail(id, true, None, None, None),
            now,
            revision,
        ) {
            Err(e) => Err(e),
            Ok(next) => Ok((next, id)),
        }
    }
}

/// The content that a state carries for a source of an intent.
pub open spec fn carried_content(
    shape: FileShape,
    blobs: Map<Seq<char>, Seq<u8>>,
    source: SourceIntentView,
    remaining: u64,
) -> Result<Seq<u8>, AppErrorView> {
    match sync_file::shape_check(shape) {
        Err(e) => Err(e),
        Ok(_) => if !blobs.dom().contains(source.content_hash) {
            error::refused(
                ErrorCode::ChangesetReplayHashMismatch,
                "normalized Sync state lacks the declared source blob"@,
            )
        } else {
            let blob = blobs[source.content_hash];
            if blob.len() > remaining {
                error::refused(
                    ErrorCode::ChangesetSyncLimit,
                    "resolved source blob exceeds the Sync transfer byte limit"@,
                )
            } else if !utf8::valid_utf8(blob) {
                error::refused(ErrorCode::SyncStateInvalid, "Sync source content is not UTF-8"@)
            } else if digest::sha256_hex(blob) != source.content_hash {
                error::refused(
                    ErrorCode::ChangesetReplayHashMismatch,
                    "resolved source content does not match its declared hash"@,
                )
            } else {
                Ok(blob)
            }
        },
    }
}

/// What replaying a source of an intent comes to: the store after it, the source, and
/// the bytes that were taken up.
pub open spec fn replay_source_goal(
    store: StoreView,
    shape: FileShape,
    blobs: Map<Seq<char>, Seq<u8>>,
    source: SourceIntentView,
    remaining: u64,
    now: Seq<char>,
    revision: Seq<char>,
) -> Result<(StoreView, i64, u64), AppErrorView> {
    match sources::source_with_hash(store, source.content_hash) {
        Some(id) => if source_matches(store, source) {
            Ok((store, id, 0))
        } else {
            error::refused(
                ErrorCode::ChangesetReplayConflict,
                "existing replay source metadata differs from its after-image"@,
            )
        },
        None => match carried_content(shape, blobs, source, remaining) {
            Err(e) => Err(e),
            Ok(blob) => match source_replayed(
                store,
                source,
                utf8::decode_utf8(blob),
                now,
                revision,
            ) {
                Err(e) => Err(e),
                Ok(done) => Ok((done.0, done.1, blob.len() as u64)),
            },
        },
    }
}

/// The live source with the content of a source of an intent, in outline, brought into
/// the draft.
pub open spec fn source_prepared(
    store: StoreView,
    live: StoreView,
    source: SourceIntentView,
    now: Seq<char>,
) -> Result<(StoreView, i64), AppErrorView> {
    match sources::source_with_hash(store, source.content_hash) {
        Some(id) => Ok((store, id)),
        None => match sources::source_with_hash(live, source.content_hash) {
            None => error::refused(
                ErrorCode::ChangesetReplayInvalid,
                "existing replay source is absent from the synchronized target"@,
            ),
            Some(id) => if store.sources.dom().contains(id) || store.ingest_jobs.dom().contains(
                id,
            ) {
                Err(sparse_merge::unique_failed())
            } else {
                Ok(
                    (
                        StoreView {
                            sources: store.sources.insert(
                                id,
                                SourceView { content: ""@, ..live.sources[id] },
                            ),
                            source_sequence: if id > store.source_sequence {
                                id
                            } else {
                                store.source_sequence
                            },
                            ingest_jobs: store.ingest_jobs.insert(id, sources::pending_job(now)),
                            ..store
                        },
                        id,
                    ),
                )
            },
        },
    }
}

fn origin_for(source: &DetachedSourceIntent) -> (r: String)
    ensures
        r@ == replay_origin(source@),
{
    match &source.origin {
        Some(origin) => owned(origin.as_str()),
        None => join2("sync:sha256:", source.content_hash.as_str()),
    }
}

fn title_for(source: &DetachedSourceIntent) -> (r: String)
    ensures
        r@ == replay_title(source@),
{
    match &source.title {
        Some(title) => owned(title.as_str()),
        None => origin_for(source),
    }
}

/// The content that a state carries for a source.
fn find_content(
    shape: &FileShape,
    blobs: &Table<String, Vec<u8>>,
    source: &DetachedSourceIntent,
    remaining: u64,
) -> (r: Result<(String, u64), AppError>)
    ensures
        match carried_content(*shape, blobs@, source@, remaining) {
            Ok(blob) => r matches Ok(got) && got.0@ == utf8::decode_utf8(blob) && got.1
                == blob.len(),
            Err(e) => r matches Err(got) && got@ == e,
        },
{
    if let Err(e) = validate_sync_state_file(shape) {
        return Err(e);
    }
    let blob = match blobs.get(&source.content_hash) {
        Some(blob) => blob,
        None => {
            return Err(
                AppError::new(
                    ErrorCode::ChangesetReplayHashMismatch,
                    "normalized Sync state lacks the declared source blob",
                ),
            );
        },
    };
    let bytes = blob.len() as u64;
    if bytes > remaining {
        return Err(
            AppError::new(
                ErrorCode::ChangesetSyncLimit,
                "resolved source blob exceeds the Sync transfer byte limit",
            ),
        );
    }
    let content = match utf8_text(blob) {
        Some(content) => content,
        None => {
            return Err(
                AppError::new(ErrorCode::SyncStateInvalid, "Sync source content is not UTF-8"),
            );
        },
    };
    if !same_text(sha256(blob.as_slice()).as_str(), source.content_hash.as_str()) {
        return Err(
            AppError::new(
                ErrorCode::ChangesetReplayHashMismatch,
                "resolved source content does not match its declared hash",
            ),
        );
    }
    proof {
        utf8::encode_utf8_decode_utf8(content@);
    }
    Ok((content, bytes))
}

impl Store {
    /// The source of an intent is in the store as the intent wants it.
    pub fn changeset_replay_source_matches(&self, source: &DetachedSourceIntent) -> (r: bool)
        ensures
            r == source_matches(self@, source@),
    {
        let id = match self.source_id_by_content_hash(source.content_hash.as_str()) {
            Some(id) => id,
            None => {
                return false;
            },
        };
        match self.sources.get(&id) {
            Some(row) => {
                let titled = match &row.title {
                    Some(title) => same_text(title.as_str(), title_for(source).as_str()),
                    None => false,
                };
                titled && same_text(row.origin.as_str(), origin_for(source).as_str())
                    && row.structural_navigation == source.structural_navigation
            },
            None => false,
        }
    }

    /// Brings a source of an intent into the draft, with the content that a normalised
    /// state carries; gives the source, and the bytes that were taken up.
    pub fn changeset_replay_source_from_normalized(
        &mut self,
        shape: &FileShape,
        blobs: &Table<String, Vec<u8>>,
        source: &DetachedSourceIntent,
        remaining_bytes: u64,
        now: &str,
        revision: &str,
    ) -> (r: Result<(i64, u64), AppError>)
        ensures
            match replay_source_goal(
                old(self)@,
                *shape,
                blobs@,
                source@,
                remaining_bytes,
                now@,
                revision@,
            ) {
                Ok(done) => r == Ok::<(i64, u64), AppError>((done.1, done.2)) && final(self)@
                    == done.0,
                Err(e) => (r matches Err(got) && got@ == e) && final(self)@ == old(self)@,
            },
    {
        if let Some(id) = self.source_id_by_content_hash(source.content_hash.as_str()) {
            if self.changeset_replay_source_matches(source) {
                return Ok((id, 0));
            }
            return Err(
                AppError::new(
                    ErrorCode::ChangesetReplayConflict,
                    "existing replay source metadata differs from its after-image",
                ),
            );
        }
        let (content, bytes) = match find_content(shape, blobs, source, remaining_bytes) {
            Ok(found) => found,
            Err(e) => {
                return Err(e);
            },
        };
        if self.source_sequence >= i64::MAX {
            return Err(
                AppError::new(ErrorCode::DatabaseError, "source identifiers are exhausted"),
            );
        }
        let id: i64 = self.source_sequence + 1;
        let origin = origin_for(source);
        let mut next = self.duplicate();
        next.sources.put(
            id,
            SourceRow {
                content_hash: owned(source.content_hash.as_str()),
                title: Some(title_for(source)),
                origin: owned(origin.as_str()),
                content,
                structural_navigation: source.structural_navigation,
                created_at: owned(now),
            },
        );
        next.source_sequence = id;
        next.ingest_jobs.put(id, fresh_job(now));
        let detail = encode_source_add(id, true, &None, None);
        if let Err(e) = next.record_operation("source_add", origin.as_str(), detail, now, revision) {
            return Err(e);
        }
        *self = next;
        Ok((id, bytes))
    }

    /// Brings a source that the live store holds into the draft, in outline.
    pub fn changeset_replay_prepare_existing_source(
        &mut self,
        live: &Store,
        source: &DetachedSourceIntent,
        now: &str,
    ) -> (r: Result<i64, AppError>)
        ensures
            match source_prepared(old(self)@, live@, source@, now@) {
                Ok(done) => r == Ok::<i64, AppError>(done.1) && final(self)@ == done.0,
                Err(e) => (r matches Err(got) && got@ == e) && final(self)@ == old(self)@,
            },
    {
        if let Some(id) = self.source_id_by_content_hash(source.content_hash.as_str()) {
            return Ok(id);
        }
        let absent = AppError::new(
            ErrorCode::ChangesetReplayInvalid,
            "existing replay source is absent from the synchronized target",
        );
        let id = match live.source_id_by_content_hash(source.content_hash.as_str()) {
            Some(id) => id,
            None => {
                return Err(absent);
            },
        };
        if self.sources.has(&id) || self.ingest_jobs.has(&id) {
            return Err(AppError::new(ErrorCode::DatabaseError, "UNIQUE constraint failed"));
        }
        let row = match live.sources.get(&id) {
            Some(row) => {
                let mut row = row.duplicate();
                row.content = owned("");
                row
            },
            None => {
                return Err(absent);
            },
        };
        self.sources.put(id, row);
        if id > self.source_sequence {
            self.source_sequence = id;
        }
        self.ingest_jobs.put(id, fresh_job(now));
        Ok(id)
    }
}

// ---------------------------------------------------------------------------
// What tells that an item is done
// ---------------------------------------------------------------------------

/// Two lists hold the same texts, each as often.
fn same_bag(a: &Vec<String>, b: &Vec<String>) -> (r: bool)
    ensures
        r == (text::views(a@).to_multiset() == text::views(b@).to_multiset()),
{
    broadcast use vstd::seq_lib::group_to_multiset_ensures;

    let ghost left = text::views(a@);
    let ghost right = text::views(b@);
    assert(left.len() == a@.len() && right.len() == b@.len());
    if a.len() != b.len() {
        assert(left.to_multiset().len() != right.to_multiset().len());
        return false;
    }
    let mut rest = copy_texts(b);
    let mut i: usize = 0;
    assert(left.take(0) =~= Seq::<Seq<char>>::empty());
    assert(Seq::<Seq<char>>::empty().to_multiset() =~= vstd::multiset::Multiset::empty());
    assert(right.to_multiset() =~= left.take(0).to_multiset().add(text::views(rest@).to_multiset()));
    while i < a.len()
        invariant
            i <= a@.len() == left.len(),
            left == text::views(a@),
            right == text::views(b@),
            right.to_multiset() == left.take(i as int).to_multiset().add(
                text::views(rest@).to_multiset(),
            ),
        decreases a@.len() - i,
    {
        let ghost remaining = text::views(rest@);
        let mut j: usize = 0;
        while j < rest.len() && !same_text(rest[j].as_str(), a[i].as_str())
            invariant
                j <= rest@.len() == remaining.len(),
                remaining == text::views(rest@),
                forall|k: int| 0 <= k < j ==> #[trigger] remaining[k] != left[i as int],
            decreases rest@.len() - j,
        {
            assert(remaining[j as int] == rest@[j as int]@);
            j += 1;
        }
        assert(left.take(i + 1) =~= left.take(i as int).push(left[i as int]));
        if j == rest.len() {
            proof {
                let x = left[i as int];
                assert(!remaining.contains(x));
                assert(remaining.to_multiset().count(x) == 0);
                assert(left =~= left.take(i + 1) + left.skip(i + 1));
                vstd::seq_lib::lemma_multiset_commutative(left.take(i + 1), left.skip(i + 1));
                assert(left.to_multiset().count(x) >= left.take(i + 1).to_multiset().count(x));
                assert(left.take(i + 1).to_multiset() =~= left.take(i as int).to_multiset().insert(
                    x,
                ));
                assert(left.to_multiset().count(x) > right.to_multiset().count(x));
            }
            return false;
        }
        assert(remaining[j as int] == rest@[j as int]@);
        let _ = rest.remove(j);
        proof {
            assert(text::views(rest@) =~= remaining.remove(j as int));
            let x = left[i as int];
            assert(remaining.contains(x));
            assert(remaining.to_multiset().count(x) > 0);
            assert(left.take(i + 1).to_multiset() =~= left.take(i as int).to_multiset().insert(x));
            assert(text::views(rest@).to_multiset() =~= remaining.to_multiset().remove(x));
            assert(right.to_multiset() =~= left.take(i + 1).to_multiset().add(
                text::views(rest@).to_multiset(),
            ));
        }
        i += 1;
    }
    proof {
        assert(left.take(i as int) =~= left);
        assert(right.to_multiset().len() == left.to_multiset().len() + text::views(
            rest@,
        ).to_multiset().len());
        assert(text::views(rest@).len() == 0);
        assert(text::views(rest@).to_multiset() =~= vstd::multiset::Multiset::empty());
        assert(right.to_multiset() =~= left.to_multiset());
    }
    true
}

/// The content hashes of the first `count` sources.
pub open spec fn hashes_of(store: StoreView, ids: Seq<i64>, count: nat) -> Result<
    Seq<Seq<char>>,
    AppErrorView,
>
    decreases count,
{
    if count == 0 || count > ids.len() {
        Ok(Seq::empty())
    } else {
        match hashes_of(store, ids, (count - 1) as nat) {
            Err(e) => Err(e),
            Ok(head) => match detached::hash_of(store, ids[count - 1]) {
                Some(hash) => Ok(head.push(hash)),
                None => Err(store::no_rows()),
            },
        }
    }
}

proof fn lemma_hashes_of_stop(store: StoreView, ids: Seq<i64>, count: nat, more: nat)
    requires
        count <= more <= ids.len(),
        hashes_of(store, ids, count) is Err,
    ensures
        hashes_of(store, ids, more) == hashes_of(store, ids, count),
    decreases more,
{
    if count < more {
        lemma_hashes_of_stop(store, ids, count, (more - 1) as nat);
    }
}

/// The page of an intent is in the store as the intent wants it, or gone.
pub open spec fn page_matches(store: StoreView, page: PageIntentView) -> Result<bool, AppErrorView> {
    match page.after {
        None => Ok(!store.pages.dom().contains(page.slug)),
        Some(after) => if !store.pages.dom().contains(page.slug) {
            Ok(false)
        } else {
            let shown = pages::record_of(page.slug, store.pages[page.slug]);
            match hashes_of(store, shown.source_ids, shown.source_ids.len()) {
                Err(e) => Err(e),
                Ok(hashes) => Ok(
                    {
                        &&& shown.title == after.title
                        &&& shown.kind == after.kind
                        &&& shown.summary == after.summary
                        &&& shown.body == after.body
                        &&& shown.provenance == after.provenance
                        &&& hashes.to_multiset() == after.source_hashes.to_multiset()
                    },
                ),
            }
        },
    }
}

/// The metadata of an intent is in the store as the intent wants it.
pub open spec fn meta_matches(store: StoreView, meta: MetaIntentView) -> bool {
    (meta.key == "schema"@ || meta.key == "purpose"@) && store::meta_value(store, meta.key) == Some(
        meta.value,
    )
}

/// The tag of an intent is in the store as the intent wants it, or gone.
pub open spec fn tag_matches(store: StoreView, tag: TagIntentView) -> bool {
    detached::tag_after(store, tag.name) == tag.after
}

/// The ingestion of a source stands as an intent wants it.
pub open spec fn ingest_matches(store: StoreView, hash: Seq<char>, ingest: IngestIntentView) -> bool {
    match sources::source_with_hash(store, hash) {
        None => false,
        Some(id) => store.ingest_jobs.dom().contains(id) && ingest == (IngestIntentView {
            status: store.ingest_jobs[id].status,
            attempts: store.ingest_jobs[id].attempts,
            analysis: store.ingest_jobs[id].analysis,
            no_derived_pages_reason: store.ingest_jobs[id].no_derived_pages_reason,
        }),
    }
}

impl Store {
    /// The content hashes of sources.
    fn find_hashes(&self, ids: &Vec<i64>) -> (r: Result<Vec<String>, AppError>)
        ensures
            match hashes_of(self@, ids@, ids@.len()) {
                Ok(hashes) => r matches Ok(got) && text::views(got@) == hashes,
                Err(e) => r matches Err(got) && got@ == e,
            },
    {
        let mut out: Vec<String> = Vec::new();
        assert(text::views(out@) =~= Seq::empty());
        let mut i: usize = 0;
        while i < ids.len()
            invariant
                i <= ids@.len(),
                hashes_of(self@, ids@, i as nat) == Ok::<Seq<Seq<char>>, AppErrorView>(
                    text::views(out@),
                ),
            decreases ids@.len() - i,
        {
            match self.sources.get(&ids[i]) {
                Some(source) => {
                    let hash = owned(source.content_hash.as_str());
                    proof {
                        text::lemma_views_push(out@, hash);
                    }
                    out.push(hash);
                },
                None => {
                    proof {
                        lemma_hashes_of_stop(self@, ids@, (i + 1) as nat, ids@.len());
                    }
                    return Err(store::no_rows_error());
                },
            }
            i += 1;
        }
        Ok(out)
    }

    /// The page of an intent is in the store as the intent wants it, or gone.
    pub fn changeset_replay_page_matches(&self, page: &DetachedPageIntent) -> (r: Result<
        bool,
        AppError,
    >)
        ensures
            match page_matches(self@, page@) {
                Ok(answer) => r == Ok::<bool, AppError>(answer),
                Err(e) => r matches Err(got) && got@ == e,
            },
    {
        let exists = self.pages.has(&page.slug);
        let after = match &page.after {
            Some(after) => after,
            None => {
                return Ok(!exists);
            },
        };
        if !exists {
            return Ok(false);
        }
        let actual = match self.load_page(page.slug.as_str()) {
            Ok(actual) => actual,
            Err(e) => {
                return Err(e);
            },
        };
        let hashes = match self.find_hashes(&actual.source_ids) {
            Ok(hashes) => hashes,
            Err(e) => {
                return Err(e);
            },
        };
        Ok(
            same_text(actual.title.as_str(), after.title.as_str()) && same_opt(
                &actual.kind,
                &after.kind,
            ) && same_opt(&actual.summary, &after.summary) && same_text(
                actual.body.as_str(),
                after.body.as_str(),
            ) && same_texts(&actual.provenance, &after.provenance) && same_bag(
                &hashes,
                &after.source_hashes,
            ),
        )
    }

    /// The metadata of an intent is in the store as the intent wants it.
    pub fn changeset_replay_meta_matches(&self, meta: &DetachedMetaIntent) -> (r: bool)
        ensures
            r == meta_matches(self@, meta@),
    {
        let key = meta.key.as_str();
        if !same_text(key, "schema") && !same_text(key, "purpose") {
            return false;
        }
        match self.meta_text(key) {
            Some(value) => same_text(value.as_str(), meta.value.as_str()),
            None => false,
        }
    }

    /// The tag of an intent is in the store as the intent wants it, or gone.
    pub fn changeset_replay_tag_matches(&self, tag: &DetachedTagIntent) -> (r: bool)
        ensures
            r == tag_matches(self@, tag@),
    {
        let actual = show_tag_after(self, &tag.name);
        same_record_opt(&actual, &tag.after)
    }

    /// The ingestion of a source stands as an intent wants it.
    pub fn changeset_replay_ingest_matches(
        &self,
        content_hash: &str,
        ingest: &DetachedIngestIntent,
    ) -> (r: bool)
        ensures
            r == ingest_matches(self@, content_hash@, ingest@),
    {
        let id = match self.source_id_by_content_hash(content_hash) {
            Some(id) => id,
            None => {
                return false;
            },
        };
        match self.ingest_jobs.get(&id) {
            Some(job) => same_text(job.status.as_str(), ingest.status.as_str()) && job.attempts
                == ingest.attempts && same_opt(&job.analysis, &ingest.analysis) && same_opt(
                &job.no_derived_pages_reason,
                &ingest.no_derived_pages_reason,
            ),
            None => false,
        }
    }
}

proof fn lemma_done_mark_found(
    operations: Seq<OperationView>,
    op: OperationView,
    target: Seq<char>,
    key: Seq<char>,
)
    requires
        done_mark(operations, target, key) is None,
        op.action == "changeset_sync_replay_item"@,
        op.target == target,
        op.detail.text_at("item_key"@) == Some(key),
    ensures
        done_mark(operations.push(op), target, key) == Some(op.detail.text_at("item_digest"@)),
    decreases operations.len(),
{
    let more = operations.push(op);
    if operations.len() == 0 {
        assert(more[0] == op);
    } else {
        assert(more[0] == operations[0]);
        assert(more.drop_first() =~= operations.drop_first().push(op));
        lemma_done_mark_found(operations.drop_first(), op, target, key);
    }
}

/// An item of a replay is marked as done once: to mark it again changes nothing.
pub proof fn law_item_is_marked_once(
    store: StoreView,
    store_id: Seq<char>,
    changeset_id: Seq<char>,
    key: Seq<char>,
    mark: Seq<char>,
    now: Seq<char>,
    revision: Seq<char>,
    later: Seq<char>,
    other_revision: Seq<char>,
)
    ensures
        mark_goal(store, store_id, changeset_id, key, mark, now, revision) matches Ok(done)
            ==> mark_goal(done.0, store_id, changeset_id, key, mark, later, other_revision) == Ok::<
            (StoreView, bool),
            AppErrorView,
        >((done.0, false)),
{
    let target = replay_target(store_id, changeset_id);
    if let Ok(done) = mark_goal(store, store_id, changeset_id, key, mark, now, revision) {
        if done.1 {
            let next = done.0;
            let op = next.operations.last();
            assert(next.operations =~= store.operations.push(op));
            assert(op.detail == item_json(key, mark));
            reveal_strlit("item_digest");
            reveal_strlit("item_key");
            assert("item_digest"@.len() == 11 && "item_key"@.len() == 8);
            reveal_strlit("changeset_sync_replay_item");
            reveal_strlit("changeset_sync_replay_start");
            reveal_strlit("changeset_sync_replay_complete");
            assert("changeset_sync_replay_item"@.len() == 26);
            assert("changeset_sync_replay_start"@.len() == 27);
            assert("changeset_sync_replay_complete"@.len() == 30);
            assert(next.operations.drop_last() =~= store.operations);
            let entries = item_json(key, mark)->Object_0;
            assert(entries.drop_first()[0] == entries[1]);
            assert(json::lookup(entries.drop_first(), "item_key"@) == Some(entries[1].value));
            assert(op.detail.text_at("item_key"@) == Some(key));
            assert(op.detail.text_at("item_digest"@) == Some(mark));
            lemma_done_mark_found(store.operations, op, target, key);
        }
    }
}

} // verus!
