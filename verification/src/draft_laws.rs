//! What a draft touches, how it begins and how it is frozen, and what it keeps of the live store.
use crate::changeset_log;
use crate::changesets;
use crate::error::{AppErrorView, ErrorCode};
use crate::refusals;
use crate::rows::{ChangesetView, OperationView, PageView};
use crate::staging;
use crate::store;
use crate::store::{IdentityView, StoreView};
use crate::table;
use crate::table::PairView;
use crate::text;
use crate::touched;
use vstd::prelude::*;

verus! {

proof fn lemma_actions()
    ensures
        "page_put"@.len() == 8 && "page_put"@[0] == 'p' && "page_put"@[1] == 'a',
        "page_remove"@.len() == 11 && "page_remove"@[1] == 'a',
        "tag_set"@.len() == 7 && "tag_set"@[0] == 't',
        "tag_remove"@.len() == 10 && "tag_remove"@[0] == 't' && "tag_remove"@[4] == 'r',
        "tag_delete"@.len() == 10 && "tag_delete"@[0] == 't' && "tag_delete"@[4] == 'd',
        "tag_autoload"@.len() == 12 && "tag_autoload"@[0] == 't',
        "schema_set"@.len() == 10 && "schema_set"@[0] == 's' && "schema_set"@[1] == 'c',
        "purpose_set"@.len() == 11 && "purpose_set"@[1] == 'u',
        "source_add"@.len() == 10 && "source_add"@[0] == 's' && "source_add"@[1] == 'o',
        "source_remove"@.len() == 13,
        "schema"@.len() == 6,
        "purpose"@.len() == 7,
{
    reveal_strlit("page_put");
    reveal_strlit("page_remove");
    reveal_strlit("tag_set");
    reveal_strlit("tag_remove");
    reveal_strlit("tag_delete");
    reveal_strlit("tag_autoload");
    reveal_strlit("schema_set");
    reveal_strlit("purpose_set");
    reveal_strlit("source_add");
    reveal_strlit("source_remove");
    reveal_strlit("schema");
    reveal_strlit("purpose");
}

/// The pages that operations touch: those that they put or remove.
pub proof fn law_pages_of_operations(operations: Seq<OperationView>, x: Seq<char>)
    ensures
        touched::page_targets(operations).finite(),
        touched::page_targets(operations).contains(x) <==> exists|k: int|
            0 <= k < operations.len() && ((#[trigger] operations[k]).action == "page_put"@ || operations[k].action == "page_remove"@) && operations[k].target == x,
    decreases operations.len(),
{
    lemma_actions();
    if operations.len() > 0 {
        let head = operations.drop_last();
        law_pages_of_operations(head, x);
        let op = operations.last();
        assert(op == operations[operations.len() - 1]);
        if touched::page_targets(head).contains(x) {
            let k = choose|k: int| 0 <= k < head.len() && ((#[trigger] head[k]).action == "page_put"@ || head[k].action == "page_remove"@) && head[k].target == x;
            assert(operations[k] == head[k]);
        }
        if exists|k: int| 0 <= k < operations.len() && ((#[trigger] operations[k]).action == "page_put"@ || operations[k].action == "page_remove"@) && operations[k].target == x {
            let k = choose|k: int| 0 <= k < operations.len() && ((#[trigger] operations[k]).action == "page_put"@ || operations[k].action == "page_remove"@) && operations[k].target == x;
            if k < head.len() {
                assert(head[k] == operations[k]);
            }
        }
    }
}

/// The tags that operations touch: those that they name.
pub proof fn law_tags_of_operations(operations: Seq<OperationView>, x: Seq<char>)
    ensures
        touched::tag_targets(operations).finite(),
        touched::tag_targets(operations).contains(x) <==> exists|k: int|
            0 <= k < operations.len() && ((#[trigger] operations[k]).action == "tag_set"@ || operations[k].action == "tag_remove"@ || operations[k].action == "tag_delete"@ || operations[k].action == "tag_autoload"@) && operations[k].detail.text_at("tag"@) == Some(x),
    decreases operations.len(),
{
    lemma_actions();
    if operations.len() > 0 {
        let head = operations.drop_last();
        law_tags_of_operations(head, x);
        let op = operations.last();
        assert(op == operations[operations.len() - 1]);
        if touched::tag_targets(head).contains(x) {
            let k = choose|k: int| 0 <= k < head.len() && ((#[trigger] head[k]).action == "tag_set"@ || head[k].action == "tag_remove"@ || head[k].action == "tag_delete"@ || head[k].action == "tag_autoload"@) && head[k].detail.text_at("tag"@) == Some(x);
            assert(operations[k] == head[k]);
        }
        if exists|k: int| 0 <= k < operations.len() && ((#[trigger] operations[k]).action == "tag_set"@ || operations[k].action == "tag_remove"@ || operations[k].action == "tag_delete"@ || operations[k].action == "tag_autoload"@) && operations[k].detail.text_at("tag"@) == Some(x) {
            let k = choose|k: int| 0 <= k < operations.len() && ((#[trigger] operations[k]).action == "tag_set"@ || operations[k].action == "tag_remove"@ || operations[k].action == "tag_delete"@ || operations[k].action == "tag_autoload"@) && operations[k].detail.text_at("tag"@) == Some(x);
            if k < head.len() {
                assert(head[k] == operations[k]);
            }
        }
    }
}

/// The metadata that operations touch: the schema and the purpose, where they are set.
pub proof fn law_meta_of_operations(operations: Seq<OperationView>, x: Seq<char>)
    ensures
        touched::meta_targets(operations).finite(),
        touched::meta_targets(operations).contains(x) <==> exists|k: int|
            0 <= k < operations.len() && (((#[trigger] operations[k]).action == "schema_set"@ && x == "schema"@) || (operations[k].action == "purpose_set"@ && x == "purpose"@)),
    decreases operations.len(),
{
    lemma_actions();
    if operations.len() > 0 {
        let head = operations.drop_last();
        law_meta_of_operations(head, x);
        let op = operations.last();
        assert(op == operations[operations.len() - 1]);
        if touched::meta_targets(head).contains(x) {
            let k = choose|k: int| 0 <= k < head.len() && (((#[trigger] head[k]).action == "schema_set"@ && x == "schema"@) || (head[k].action == "purpose_set"@ && x == "purpose"@));
            assert(operations[k] == head[k]);
        }
        if exists|k: int| 0 <= k < operations.len() && (((#[trigger] operations[k]).action == "schema_set"@ && x == "schema"@) || (operations[k].action == "purpose_set"@ && x == "purpose"@)) {
            let k = choose|k: int| 0 <= k < operations.len() && (((#[trigger] operations[k]).action == "schema_set"@ && x == "schema"@) || (operations[k].action == "purpose_set"@ && x == "purpose"@));
            if k < head.len() {
                assert(head[k] == operations[k]);
            }
        }
    }
}

/// The paths that operations touch: those at which they observed a source.
pub proof fn law_paths_of_operations(operations: Seq<OperationView>, x: Seq<char>)
    ensures
        touched::path_targets(operations).finite(),
        touched::path_targets(operations).contains(x) <==> exists|k: int|
            0 <= k < operations.len() && (#[trigger] operations[k]).action == "source_add"@ && operations[k].detail.text_at("tracked_path"@) == Some(x),
    decreases operations.len(),
{
    lemma_actions();
    if operations.len() > 0 {
        let head = operations.drop_last();
        law_paths_of_operations(head, x);
        let op = operations.last();
        assert(op == operations[operations.len() - 1]);
        if touched::path_targets(head).contains(x) {
            let k = choose|k: int| 0 <= k < head.len() && (#[trigger] head[k]).action == "source_add"@ && head[k].detail.text_at("tracked_path"@) == Some(x);
            assert(operations[k] == head[k]);
        }
        if exists|k: int| 0 <= k < operations.len() && (#[trigger] operations[k]).action == "source_add"@ && operations[k].detail.text_at("tracked_path"@) == Some(x) {
            let k = choose|k: int| 0 <= k < operations.len() && (#[trigger] operations[k]).action == "source_add"@ && operations[k].detail.text_at("tracked_path"@) == Some(x);
            if k < head.len() {
                assert(head[k] == operations[k]);
            }
        }
    }
}

/// The sources that operations touch: those that they added.
pub proof fn law_sources_of_operations(operations: Seq<OperationView>, x: i64)
    ensures
        touched::source_targets(operations).finite(),
        touched::source_targets(operations).contains(x) <==> exists|k: int|
            0 <= k < operations.len() && (#[trigger] operations[k]).action == "source_add"@ && operations[k].detail.int_at("source_id"@) == Some(x),
    decreases operations.len(),
{
    lemma_actions();
    if operations.len() > 0 {
        let head = operations.drop_last();
        law_sources_of_operations(head, x);
        let op = operations.last();
        assert(op == operations[operations.len() - 1]);
        if touched::source_targets(head).contains(x) {
            let k = choose|k: int| 0 <= k < head.len() && (#[trigger] head[k]).action == "source_add"@ && head[k].detail.int_at("source_id"@) == Some(x);
            assert(operations[k] == head[k]);
        }
        if exists|k: int| 0 <= k < operations.len() && (#[trigger] operations[k]).action == "source_add"@ && operations[k].detail.int_at("source_id"@) == Some(x) {
            let k = choose|k: int| 0 <= k < operations.len() && (#[trigger] operations[k]).action == "source_add"@ && operations[k].detail.int_at("source_id"@) == Some(x);
            if k < head.len() {
                assert(head[k] == operations[k]);
            }
        }
    }
}

/// The sources that operations created: those that they added as new ones. It is refused where
/// an operation does not say which source it added.
pub proof fn law_created_sources(operations: Seq<OperationView>, id: i64)
    ensures
        touched::created_sources(operations) is Ok <==> forall|k: int|
            0 <= k < operations.len() && (#[trigger] operations[k]).action == "source_add"@
                && operations[k].detail.bool_at("created"@) == Some(true)
                ==> operations[k].detail.int_at("source_id"@) is Some,
        touched::created_sources(operations) matches Ok(set) ==> (set.contains(id) <==> exists|
            k: int,
        |
            0 <= k < operations.len() && (#[trigger] operations[k]).action == "source_add"@
                && operations[k].detail.bool_at("created"@) == Some(true)
                && operations[k].detail.int_at("source_id"@) == Some(id)),
    decreases operations.len(),
{
    if operations.len() > 0 {
        let head = operations.drop_last();
        law_created_sources(head, id);
        assert(operations.last() == operations[operations.len() - 1]);
        if touched::created_sources(operations) is Ok {
            assert forall|k: int|
                0 <= k < operations.len() && (#[trigger] operations[k]).action == "source_add"@
                    && operations[k].detail.bool_at("created"@) == Some(
                    true,
                ) implies operations[k].detail.int_at("source_id"@) is Some by {
                if k < head.len() {
                    assert(head[k] == operations[k]);
                }
            }
        }
        if touched::created_sources(head) is Err {
            let k = choose|k: int|
                0 <= k < head.len() && (#[trigger] head[k]).action == "source_add"@
                    && head[k].detail.bool_at("created"@) == Some(true)
                    && head[k].detail.int_at("source_id"@) is None;
            assert(operations[k] == head[k]);
        } else {
            let set = touched::created_sources(head)->Ok_0;
            if set.contains(id) {
                let k = choose|k: int|
                    0 <= k < head.len() && (#[trigger] head[k]).action == "source_add"@
                        && head[k].detail.bool_at("created"@) == Some(true)
                        && head[k].detail.int_at("source_id"@) == Some(id);
                assert(operations[k] == head[k]);
            }
            if exists|k: int|
                0 <= k < operations.len() && (#[trigger] operations[k]).action == "source_add"@
                    && operations[k].detail.bool_at("created"@) == Some(true)
                    && operations[k].detail.int_at("source_id"@) == Some(id) {
                let k = choose|k: int|
                    0 <= k < operations.len() && (#[trigger] operations[k]).action
                        == "source_add"@ && operations[k].detail.bool_at("created"@) == Some(true)
                        && operations[k].detail.int_at("source_id"@) == Some(id);
                if k < head.len() {
                    assert(head[k] == operations[k]);
                }
            }
        }
    }
}

/// An operation is about a document: it puts or removes the page, or adds or removes the source.
pub open spec fn is_about(op: OperationView, document: PairView) -> bool {
    ||| document.first == "page"@ && document.second == op.target && (op.action == "page_put"@
        || op.action == "page_remove"@)
    ||| document.first == "source"@ && op.action == "source_add"@ && op.detail.int_at(
        "source_id"@,
    ) is Some && document.second == text::decimal(op.detail.int_at("source_id"@)->0 as int)
    ||| document.first == "source"@ && op.action == "source_remove"@ && document.second
        == op.target
}

/// The documents that operations are about.
pub proof fn law_documents_of_operations(operations: Seq<OperationView>, document: PairView)
    ensures
        touched::document_targets(operations).contains(document) <==> exists|k: int|
            0 <= k < operations.len() && is_about(#[trigger] operations[k], document),
    decreases operations.len(),
{
    lemma_actions();
    if operations.len() > 0 {
        let head = operations.drop_last();
        law_documents_of_operations(head, document);
        assert(operations.last() == operations[operations.len() - 1]);
        if touched::document_targets(head).contains(document) {
            let k = choose|k: int| 0 <= k < head.len() && is_about(#[trigger] head[k], document);
            assert(operations[k] == head[k]);
        }
        if exists|k: int| 0 <= k < operations.len() && is_about(#[trigger] operations[k], document) {
            let k = choose|k: int|
                0 <= k < operations.len() && is_about(#[trigger] operations[k], document);
            if k < head.len() {
                assert(head[k] == operations[k]);
            }
        }
    }
}

/// The actions that a sparse draft carries over; a draft with any other is refused.
pub proof fn law_sparse_drafts_carry_over(operations: Seq<OperationView>)
    ensures
        touched::first_unsupported(operations) is None <==> forall|k: int|
            0 <= k < operations.len() ==> carries_over((#[trigger] operations[k]).action),
        touched::first_unsupported(operations) matches Some(action) ==> !carries_over(action)
            && exists|k: int| 0 <= k < operations.len() && (#[trigger] operations[k]).action == action,
    decreases operations.len(),
{
    if operations.len() > 0 {
        let rest = operations.drop_first();
        law_sparse_drafts_carry_over(rest);
        if carries_over(operations[0].action) {
            if touched::first_unsupported(rest) is Some {
                let action = touched::first_unsupported(rest)->0;
                let k = choose|k: int|
                    0 <= k < rest.len() && (#[trigger] rest[k]).action == action;
                assert(operations[k + 1].action == action);
            } else {
                assert forall|k: int| 0 <= k < operations.len() implies carries_over(
                    (#[trigger] operations[k]).action,
                ) by {
                    if k > 0 {
                        assert(rest[k - 1] == operations[k]);
                    }
                }
            }
        }
    }
}

/// What a sparse draft can do: add sources, work on jobs, write pages and tags, set the schema
/// and the purpose, search, and replay what another store did.
pub open spec fn carries_over(action: Seq<char>) -> bool {
    action == "source_add"@ || action == "ingest_claim"@ || action == "ingest_analyze"@ || action
        == "ingest_complete"@ || action == "ingest_fail"@ || action == "ingest_retry"@ || action
        == "page_put"@ || action == "page_remove"@ || action == "schema_set"@ || action
        == "purpose_set"@ || action == "tag_set"@ || action == "tag_remove"@ || action
        == "tag_delete"@ || action == "tag_autoload"@ || action == "search"@ || action
        == "changeset_sync_replay_start"@ || action == "changeset_sync_replay_complete"@ || action
        == "changeset_sync_replay_item_start"@ || action == "changeset_sync_replay_item"@
}

/// The newest operation with an action and a target: one that has both, behind which none has.
pub proof fn law_newest_is_found(
    operations: Seq<OperationView>,
    action: Seq<char>,
    target: Seq<char>,
)
    ensures
        changeset_log::newest_with(operations, action, target) is None <==> forall|k: int|
            0 <= k < operations.len() ==> (#[trigger] operations[k]).action != action
                || operations[k].target != target,
        changeset_log::newest_with(operations, action, target) matches Some(op) ==> exists|k: int|
            0 <= k < operations.len() && #[trigger] operations[k] == op && op.action == action
                && op.target == target && forall|n: int|
                k < n < operations.len() ==> (#[trigger] operations[n]).action != action
                    || operations[n].target != target,
    decreases operations.len(),
{
    if operations.len() > 0 {
        let head = operations.drop_last();
        let last = operations.len() - 1;
        law_newest_is_found(head, action, target);
        assert(operations.last() == operations[last]);
        if !(operations.last().action == action && operations.last().target == target) {
            match changeset_log::newest_with(head, action, target) {
                Some(op) => {
                    let k = choose|k: int|
                        0 <= k < head.len() && #[trigger] head[k] == op && op.action == action
                            && op.target == target && forall|n: int|
                            k < n < head.len() ==> (#[trigger] head[n]).action != action
                                || head[n].target != target;
                    assert(operations[k] == op);
                    assert forall|n: int| k < n < operations.len() implies (
                    #[trigger] operations[n]).action != action || operations[n].target
                        != target by {
                        if n < last {
                            assert(head[n] == operations[n]);
                        }
                    }
                },
                None => {
                    assert forall|k: int| 0 <= k < operations.len() implies (
                    #[trigger] operations[k]).action != action || operations[k].target
                        != target by {
                        if k < last {
                            assert(head[k] == operations[k]);
                        }
                    }
                },
            }
        }
    }
}

// ---------------------------------------------------------------------------
// Drafts
// ---------------------------------------------------------------------------

/// The newest draft of a name is a draft of that name, and none of them was made later; there
/// is none exactly where no changeset of that name is a draft.
pub proof fn law_newest_draft(store: StoreView, name: Option<Seq<char>>)
    requires
        store.changesets.dom().finite(),
    ensures
        changesets::draft_of(store, name) is None <==> forall|id: Seq<char>| #[trigger]
            store.changesets.dom().contains(id) ==> !(store.changesets[id].status == "draft"@ && (
            name is None || store.changesets[id].name == name->0)),
        changesets::draft_of(store, name) matches Some(found) ==> {
            &&& store.changesets.dom().contains(found)
            &&& store.changesets[found].status == "draft"@
            &&& name is Some ==> store.changesets[found].name == name->0
            &&& forall|id: Seq<char>| #[trigger]
                store.changesets.dom().contains(id) && store.changesets[id].status == "draft"@ && (
                name is None || store.changesets[id].name == name->0) ==> !text::before(
                    store.changesets[found].created_at,
                    store.changesets[id].created_at,
                )
        },
{
    let ids = table::ordered::<String>(store.changesets.dom());
    table::lemma_has_order::<String>(store.changesets.dom());
    lemma_newest_draft(store.changesets, ids, name, ids.len());
    assert forall|id: Seq<char>| #[trigger] store.changesets.dom().contains(id) implies exists|
        k: int,
    | 0 <= k < ids.len() && #[trigger] ids[k] == id by {
        assert(ids.to_set().contains(id));
        let k = ids.index_of(id);
        assert(ids[k] == id);
    }
    assert forall|k: int| 0 <= k < ids.len() implies store.changesets.dom().contains(
        #[trigger] ids[k],
    ) by {
        assert(ids.to_set().contains(ids[k]));
    }
}

proof fn lemma_newest_draft(
    rows: Map<Seq<char>, ChangesetView>,
    ids: Seq<Seq<char>>,
    name: Option<Seq<char>>,
    count: nat,
)
    requires
        count <= ids.len(),
    ensures
        changesets::newest_draft(rows, ids, name, count) is None <==> forall|k: int|
            0 <= k < count ==> !changesets::is_draft(rows[#[trigger] ids[k]], name),
        changesets::newest_draft(rows, ids, name, count) matches Some(found) ==> {
            &&& exists|k: int| 0 <= k < count && #[trigger] ids[k] == found
            &&& changesets::is_draft(rows[found], name)
            &&& forall|k: int|
                0 <= k < count && changesets::is_draft(rows[#[trigger] ids[k]], name)
                    ==> !text::before(rows[found].created_at, rows[ids[k]].created_at)
        },
    decreases count,
{
    if count > 0 {
        lemma_newest_draft(rows, ids, name, (count - 1) as nat);
        let so_far = changesets::newest_draft(rows, ids, name, (count - 1) as nat);
        let id = ids[count - 1];
        text::lemma_before_irreflexive(rows[id].created_at);
        if so_far is Some {
            assert(exists|k: int| 0 <= k < count - 1 && #[trigger] ids[k] == so_far->0);
        }
        if changesets::newest_draft(rows, ids, name, count) == Some(id) && so_far is Some
            && text::before(rows[so_far->0].created_at, rows[id].created_at) {
            assert forall|k: int|
                0 <= k < count && changesets::is_draft(
                    rows[#[trigger] ids[k]],
                    name,
                ) implies !text::before(rows[id].created_at, rows[ids[k]].created_at) by {
                if text::before(rows[id].created_at, rows[ids[k]].created_at) {
                    text::lemma_before_transitive(
                        rows[so_far->0].created_at,
                        rows[id].created_at,
                        rows[ids[k]].created_at,
                    );
                }
            }
        }
    }
}

/// An operation is staged somewhere exactly where some draft began before it.
pub proof fn law_staged_anywhere(store: StoreView, op: OperationView)
    requires
        store.changesets.dom().finite(),
    ensures
        changesets::staged_anywhere(store).contains(op) <==> store.operations.contains(op)
            && exists|id: Seq<char>| #[trigger]
            store.changesets.dom().contains(id) && store.changesets[id].status == "draft"@
                && store.changesets[id].begin_operation_id < op.id,
{
    let ids = table::ordered::<String>(store.changesets.dom());
    table::lemma_has_order::<String>(store.changesets.dom());
    lemma_earliest(store.changesets, ids, ids.len());
    match changesets::earliest_begin(store.changesets, ids, ids.len()) {
        Some(begin) => {
            crate::publish_laws::law_staged_operations(store, begin, op);
            let k = choose|k: int|
                0 <= k < ids.len() && changesets::is_draft(
                    store.changesets[#[trigger] ids[k]],
                    None,
                ) && store.changesets[ids[k]].begin_operation_id == begin;
            assert(ids.to_set().contains(ids[k]));
            assert(store.changesets.dom().contains(ids[k]));
        },
        None => {},
    }
    if exists|id: Seq<char>| #[trigger]
        store.changesets.dom().contains(id) && store.changesets[id].status == "draft"@
            && store.changesets[id].begin_operation_id < op.id {
        let id = choose|id: Seq<char>| #[trigger]
            store.changesets.dom().contains(id) && store.changesets[id].status == "draft"@
                && store.changesets[id].begin_operation_id < op.id;
        assert(ids.to_set().contains(id));
        let k = ids.index_of(id);
        assert(changesets::is_draft(store.changesets[ids[k]], None));
    }
}

proof fn lemma_earliest(rows: Map<Seq<char>, ChangesetView>, ids: Seq<Seq<char>>, count: nat)
    requires
        count <= ids.len(),
    ensures
        changesets::earliest_begin(rows, ids, count) is None <==> forall|k: int|
            0 <= k < count ==> !changesets::is_draft(rows[#[trigger] ids[k]], None),
        changesets::earliest_begin(rows, ids, count) matches Some(begin) ==> {
            &&& exists|k: int|
                0 <= k < count && changesets::is_draft(rows[#[trigger] ids[k]], None)
                    && rows[ids[k]].begin_operation_id == begin
            &&& forall|k: int|
                0 <= k < count && changesets::is_draft(rows[#[trigger] ids[k]], None) ==> begin
                    <= rows[ids[k]].begin_operation_id
        },
    decreases count,
{
    if count > 0 {
        lemma_earliest(rows, ids, (count - 1) as nat);
        let id = ids[count - 1];
        if changesets::is_draft(rows[id], None) {
            assert(ids[count - 1] == id);
        }
    }
}

/// What a draft tells of itself: the draft of that name with its base, the operations since it
/// began, how often each action is among them, and the newest of them, newest first.
pub proof fn law_draft_is_shown(store: StoreView, name: Seq<char>, limit: nat)
    requires
        store.changesets.dom().finite(),
    ensures
        changesets::draft_state(store, name, limit) matches Ok(shown) ==> {
            let row = store.changesets[shown.id];
            let staged = store::operations_after(store.operations, row.begin_operation_id);
            &&& store.changesets.dom().contains(shown.id)
            &&& row.name == name
            &&& row.status == "draft"@
            &&& shown.name == name
            &&& shown.status == "draft"@
            &&& shown.base_revision == row.base_revision
            &&& shown.base_operation_id == row.base_operation_id
            &&& shown.begin_operation_id == row.begin_operation_id
            &&& shown.created_at == row.created_at
            &&& Some(shown.draft_revision) == store::meta_value(store, "store_revision"@)
            &&& staged.len() <= usize::MAX ==> shown.staged_operation_count == staged.len()
            &&& shown.operations.len() <= limit
            &&& shown.operations.len() == limit || shown.operations.len() == staged.len()
            &&& forall|k: int|
                0 <= k < shown.operations.len() ==> #[trigger] shown.operations[k]
                    == staged[staged.len() - 1 - k]
        },
        (forall|id: Seq<char>| #[trigger]
            store.changesets.dom().contains(id) ==> store.changesets[id].status != "draft"@
                || store.changesets[id].name != name) ==> (changesets::draft_state(
            store,
            name,
            limit,
        ) matches Err(e) && e.code == ErrorCode::ChangesetNotFound),
{
    law_newest_draft(store, Some(name));
}

/// Each action is counted as often as it occurs.
pub proof fn law_actions_are_counted(operations: Seq<OperationView>, action: Seq<char>)
    requires
        operations.len() <= usize::MAX,
    ensures
        changesets::action_counts(operations).dom().contains(action) <==> operations.filter(
            |op: OperationView| op.action == action,
        ).len() > 0,
        changesets::action_counts(operations).dom().contains(action)
            ==> changesets::action_counts(operations)[action] == operations.filter(
            |op: OperationView| op.action == action,
        ).len(),
        operations.filter(|op: OperationView| op.action == action).len() <= operations.len(),
    decreases operations.len(),
{
    reveal(Seq::filter);
    if operations.len() > 0 {
        law_actions_are_counted(operations.drop_last(), action);
        if operations.last().action != action {
            law_actions_are_counted(operations.drop_last(), operations.last().action);
        }
    }
}

/// A changeset that begins is a draft on the base that it was given, behind the operation that
/// tells of it; the changesets that were there stay.
pub proof fn law_changeset_begins(
    store: StoreView,
    name: Seq<char>,
    base: IdentityView,
    id: Seq<char>,
    now: Seq<char>,
    revision: Seq<char>,
)
    ensures
        changesets::begin_goal(store, name, base, id, now, revision) matches Ok(next) ==> {
            let row = next.changesets[id];
            &&& store::meta_value(store, "store_id"@) == Some(base.store_id)
            &&& store::meta_value(store, "store_revision"@) == Some(base.revision)
            &&& !store.changesets.dom().contains(id)
            &&& next.changesets.dom() == store.changesets.dom().insert(id)
            &&& forall|other: Seq<char>| #[trigger]
                store.changesets.dom().contains(other) ==> next.changesets[other]
                    == store.changesets[other]
            &&& row.name == name
            &&& row.status == "draft"@
            &&& row.base_revision == base.revision
            &&& row.base_operation_id == base.operation_id
            &&& row.begin_operation_id == next.operations.last().id
            &&& row.created_at == now
            &&& row.committed_at is None
            &&& row.rolled_back_at is None
            &&& row.post_revision is None
            &&& row.pre_commit_checkpoint is None
            &&& next.operations.last().action == "changeset_begin"@
            &&& next.operations.last().target == id
            &&& next.operations.drop_last() == store.operations
            &&& next.pages == store.pages
            &&& next.sources == store.sources
            &&& next.tags == store.tags
        },
{
    if let Ok(next) = changesets::begin_goal(store, name, base, id, now, revision) {
        assert(next.changesets.dom() =~= store.changesets.dom().insert(id));
        assert(next.operations.drop_last() =~= store.operations);
    }
}

/// The history of a changeset is its row.
pub proof fn law_history_is_the_row(store: StoreView, id: Seq<char>)
    ensures
        changesets::history_of(store, id) is Some <==> store.changesets.dom().contains(id),
        changesets::history_of(store, id) matches Some(history) ==> {
            let row = store.changesets[id];
            &&& history.id == id
            &&& history.name == row.name
            &&& history.status == row.status
            &&& history.base_revision == row.base_revision
            &&& history.base_operation_id == row.base_operation_id
            &&& history.begin_operation_id == row.begin_operation_id
            &&& history.pre_commit_checkpoint == row.pre_commit_checkpoint
            &&& history.post_revision == row.post_revision
            &&& history.created_at == row.created_at
            &&& history.committed_at == row.committed_at
            &&& history.rolled_back_at == row.rolled_back_at
        },
{
}

/// A draft is frozen only as it was looked at: the same revision, the same last operation and
/// as many operations. It takes no writes afterwards, and nothing else of it changes.
pub proof fn law_draft_is_frozen(
    store: StoreView,
    id: Seq<char>,
    expected_revision: Seq<char>,
    expected_operation_id: i64,
    expected_count: nat,
)
    ensures
        changesets::freeze_goal(
            store,
            id,
            expected_revision,
            expected_operation_id,
            expected_count,
        ) matches Ok(next) ==> {
            &&& store::is_frozen(next)
            &&& next.meta["changeset_frozen"@] == id
            &&& next.meta.remove("changeset_frozen"@) == store.meta.remove("changeset_frozen"@)
            &&& next.pages == store.pages
            &&& next.sources == store.sources
            &&& next.operations == store.operations
            &&& next.changesets == store.changesets
            &&& store.changesets.dom().contains(id)
            &&& store.changesets[id].status == "draft"@
            &&& store::meta_value(store, "store_revision"@) == Some(expected_revision)
            &&& store.operations.len() > 0 ==> store.operations.last().id == expected_operation_id
            &&& store::operations_after(
                store.operations,
                store.changesets[id].begin_operation_id,
            ).len() == expected_count
            &&& changesets::freeze_goal(
                next,
                id,
                expected_revision,
                expected_operation_id,
                expected_count,
            ) == Ok::<StoreView, AppErrorView>(next)
        },
{
    reveal_strlit("changeset_frozen");
    reveal_strlit("store_id");
    reveal_strlit("store_revision");
    assert("changeset_frozen"@.len() == 16 && "store_id"@.len() == 8 && "store_revision"@.len()
        == 14);
    if let Ok(next) = changesets::freeze_goal(
        store,
        id,
        expected_revision,
        expected_operation_id,
        expected_count,
    ) {
        assert(next.meta.remove("changeset_frozen"@) =~= store.meta.remove("changeset_frozen"@));
    }
}

// ---------------------------------------------------------------------------
// What a draft borrows
// ---------------------------------------------------------------------------

/// A page that a draft touches first is there as the live store has it, but for its citations;
/// one that the draft has of its own keeps what it says. Other pages stay.
pub proof fn law_page_is_borrowed(draft: StoreView, live: StoreView, slug: Seq<char>)
    ensures
        ({
            let next = staging::page_borrowed(draft, live, slug);
            let page = next.pages[slug];
            &&& forall|other: Seq<char>|
                other != slug ==> {
                    &&& #[trigger] next.pages.dom().contains(other) == draft.pages.dom().contains(
                        other,
                    )
                    &&& draft.pages.dom().contains(other) ==> next.pages[other]
                        == draft.pages[other]
                }
            &&& next.pages.dom().contains(slug) <==> draft.pages.dom().contains(slug)
                || live.pages.dom().contains(slug)
            &&& draft.pages.dom().contains(slug) ==> {
                let own = draft.pages[slug];
                &&& page.title == own.title
                &&& page.kind == own.kind
                &&& page.summary == own.summary
                &&& page.body == own.body
                &&& page.source_ids == own.source_ids
                &&& page.created_at == own.created_at
                &&& page.updated_at == own.updated_at
            }
            &&& !draft.pages.dom().contains(slug) && live.pages.dom().contains(slug) ==> {
                let theirs = live.pages[slug];
                &&& page.title == theirs.title
                &&& page.kind == theirs.kind
                &&& page.summary == theirs.summary
                &&& page.body == theirs.body
                &&& page.provenance == theirs.provenance
                &&& page.links == theirs.links
                &&& page.source_ids.len() == 0
                &&& page.created_at == theirs.created_at
                &&& page.updated_at == theirs.updated_at
            }
            &&& next.sources == draft.sources
            &&& next.tags == draft.tags
            &&& next.meta == draft.meta
        }),
{
}

/// A source that a draft borrows is there without its content; one that the draft has, by its
/// identifier or by its content, is not touched.
pub proof fn law_source_is_borrowed(draft: StoreView, live: StoreView, id: i64)
    requires
        draft.sources.dom().finite(),
    ensures
        ({
            let next = staging::source_borrowed(draft, live, id);
            let known = exists|other: i64| #[trigger]
                draft.sources.dom().contains(other) && draft.sources[other].content_hash
                    == live.sources[id].content_hash;
            &&& !live.sources.dom().contains(id) || draft.sources.dom().contains(id) || known
                ==> next == draft
            &&& live.sources.dom().contains(id) && !draft.sources.dom().contains(id) && !known ==> {
                &&& next.sources.dom() == draft.sources.dom().insert(id)
                &&& next.sources[id].content.len() == 0
                &&& next.sources[id].content_hash == live.sources[id].content_hash
                &&& next.sources[id].title == live.sources[id].title
                &&& next.sources[id].origin == live.sources[id].origin
                &&& next.source_sequence >= id
            }
            &&& forall|other: i64| #[trigger]
                draft.sources.dom().contains(other) ==> next.sources[other]
                    == draft.sources[other]
            &&& next.pages == draft.pages
        }),
{
    let next = staging::source_borrowed(draft, live, id);
    crate::laws::lemma_with_hash(draft, live.sources[id].content_hash);
    if next != draft {
        assert(next.sources.dom() =~= draft.sources.dom().insert(id));
    }
}

/// A tag that a draft touches first has the policy of the live store and the memberships that
/// are asked for; its mark in the live store is kept, and a later touch does not change it.
pub proof fn law_tag_is_borrowed(
    draft: StoreView,
    live: StoreView,
    tag: Seq<char>,
    page: Option<Seq<char>>,
)
    ensures
        staging::tag_touched(draft, live, tag, page) matches Ok(next) ==> {
            let key = "changeset_base_tag:"@ + tag;
            &&& next.meta.dom().contains(key)
            &&& draft.meta.dom().contains(key) ==> next.meta == draft.meta
            &&& !draft.meta.dom().contains(key) ==> next.meta[key] == staging::tag_mark(
                staging::tag_snapshot(live, tag),
            )
            &&& !draft.meta.dom().contains(key) && live.tags.dom().contains(tag)
                && !draft.tags.dom().contains(tag) ==> next.tags.dom().contains(tag)
                && next.tags[tag].policy == live.tags[tag].policy
            &&& draft.tags.dom().contains(tag) ==> next.tags.dom().contains(tag)
                && next.tags[tag].policy == draft.tags[tag].policy
            &&& page matches Some(slug) ==> (live.tags.dom().contains(tag)
                && live.tags[tag].members.dom().contains(slug) ==> {
                &&& next.tags[tag].members.dom().contains(slug)
                &&& !(draft.tags.dom().contains(tag) && draft.tags[tag].members.dom().contains(
                    slug,
                )) ==> next.tags[tag].members[slug] == live.tags[tag].members[slug]
                &&& next.pages.dom().contains(slug) || draft.tags[tag].members.dom().contains(slug)
            })
            &&& forall|slug: Seq<char>| #[trigger]
                draft.pages.dom().contains(slug) ==> next.pages.dom().contains(slug)
                    && next.pages[slug] == draft.pages[slug]
            &&& forall|other: Seq<char>|
                other != tag && #[trigger] draft.tags.dom().contains(other)
                    ==> next.tags.dom().contains(other) && next.tags[other] == draft.tags[other]
        },
{
}

/// A page that a draft has already takes on the links and the provenance of the live page beside
/// its own, and keeps all else.
pub proof fn law_borrowed_page_keeps_its_own(
    draft: StoreView,
    live: StoreView,
    slug: Seq<char>,
    one: Seq<char>,
)
    requires
        live.pages.dom().contains(slug),
        draft.pages.dom().contains(slug),
    ensures
        ({
            let own = draft.pages[slug];
            let theirs = live.pages[slug];
            let next = staging::page_borrowed(draft, live, slug).pages[slug];
            &&& next.links.contains(one) <==> own.links.contains(one) || theirs.links.contains(one)
            &&& next.provenance.contains(one) <==> own.provenance.contains(one)
                || theirs.provenance.contains(one)
            &&& next.title == own.title
            &&& next.kind == own.kind
            &&& next.summary == own.summary
            &&& next.body == own.body
            &&& next.source_ids == own.source_ids
            &&& next.created_at == own.created_at
            &&& next.updated_at == own.updated_at
        }),
{
    let own = draft.pages[slug];
    let theirs = live.pages[slug];
    let links = own.links.to_set() + theirs.links.to_set();
    let provenance = own.provenance.to_set() + theirs.provenance.to_set();
    table::lemma_texts_sorted(links);
    table::lemma_texts_sorted(provenance);
    assert(text::sorted(links).to_set().contains(one) == links.contains(one));
    assert(text::sorted(provenance).to_set().contains(one) == provenance.contains(one));
}

/// A page is kept with its sources, its provenance and its links each once, the latter two in
/// order; all else of it stays.
pub proof fn law_page_is_kept_in_order(page: PageView, one: Seq<char>)
    ensures
        ({
            let kept = refusals::page_kept(page);
            &&& kept.provenance.contains(one) <==> page.provenance.contains(one)
            &&& kept.provenance.no_duplicates()
            &&& text::ascending(kept.provenance)
            &&& kept.links.contains(one) <==> page.links.contains(one)
            &&& kept.links.no_duplicates()
            &&& text::ascending(kept.links)
            &&& kept.title == page.title
            &&& kept.kind == page.kind
            &&& kept.summary == page.summary
            &&& kept.body == page.body
            &&& kept.structural_navigation == page.structural_navigation
            &&& kept.created_at == page.created_at
            &&& kept.updated_at == page.updated_at
        }),
{
    table::lemma_texts_sorted(page.provenance.to_set());
    table::lemma_texts_sorted(page.links.to_set());
    let kept = refusals::page_kept(page);
    assert(kept.provenance.to_set().contains(one) == page.provenance.to_set().contains(one));
    assert(kept.links.to_set().contains(one) == page.links.to_set().contains(one));
}

} // verus!
