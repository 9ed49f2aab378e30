//! What the operations of a draft have touched.
use crate::changesets;
use crate::error;
use crate::error::{AppError, AppErrorView, ErrorCode};
use crate::json;
use crate::json::{Json, JsonView};
use crate::rows::{OperationRow, OperationView};
use crate::store;
use crate::store::{Store, StoreView};
use crate::table;
use crate::table::{Pair, PairView, Table};
use crate::text;
use crate::text::{decimal_text, join2, owned, same_text};
use vstd::prelude::*;

verus! {

// ---------------------------------------------------------------------------
// Kinds of operations
// ---------------------------------------------------------------------------

pub open spec fn is_page_action(action: Seq<char>) -> bool {
    action == "page_put"@ || action == "page_remove"@
}

pub open spec fn is_tag_action(action: Seq<char>) -> bool {
    action == "tag_set"@ || action == "tag_remove"@ || action == "tag_delete"@ || action
        == "tag_autoload"@
}

pub open spec fn is_ingest_action(action: Seq<char>) -> bool {
    action == "ingest_claim"@ || action == "ingest_analyze"@ || action == "ingest_complete"@
        || action == "ingest_fail"@ || action == "ingest_retry"@
}

/// The key of the metadata that an action sets.
pub open spec fn meta_key(action: Seq<char>) -> Option<Seq<char>> {
    if action == "schema_set"@ {
        Some("schema"@)
    } else if action == "purpose_set"@ {
        Some("purpose"@)
    } else {
        None
    }
}

/// An operation that a sparse draft can carry over exactly.
pub open spec fn is_sparse_action(action: Seq<char>) -> bool {
    ||| action == "source_add"@
    ||| is_ingest_action(action)
    ||| is_page_action(action)
    ||| meta_key(action) is Some
    ||| is_tag_action(action)
    ||| action == "search"@
    ||| action == "changeset_sync_replay_start"@
    ||| action == "changeset_sync_replay_complete"@
    ||| action == "changeset_sync_replay_item_start"@
    ||| action == "changeset_sync_replay_item"@
}

pub fn page_action(action: &str) -> (r: bool)
    ensures
        r == is_page_action(action@),
{
    same_text(action, "page_put") || same_text(action, "page_remove")
}

pub fn tag_action(action: &str) -> (r: bool)
    ensures
        r == is_tag_action(action@),
{
    same_text(action, "tag_set") || same_text(action, "tag_remove") || same_text(
        action,
        "tag_delete",
    ) || same_text(action, "tag_autoload")
}

pub fn ingest_action(action: &str) -> (r: bool)
    ensures
        r == is_ingest_action(action@),
{
    same_text(action, "ingest_claim") || same_text(action, "ingest_analyze") || same_text(
        action,
        "ingest_complete",
    ) || same_text(action, "ingest_fail") || same_text(action, "ingest_retry")
}

/// The key of the metadata that an action sets.
pub fn meta_key_of(action: &str) -> (r: Option<&'static str>)
    ensures
        match meta_key(action@) {
            Some(key) => r matches Some(found) && found@ == key,
            None => r is None,
        },
{
    if same_text(action, "schema_set") {
        Some("schema")
    } else if same_text(action, "purpose_set") {
        Some("purpose")
    } else {
        None
    }
}

pub fn sparse_action(action: &str) -> (r: bool)
    ensures
        r == is_sparse_action(action@),
{
    same_text(action, "source_add") || ingest_action(action) || page_action(action) || meta_key_of(
        action,
    ).is_some() || tag_action(action) || same_text(action, "search") || same_text(
        action,
        "changeset_sync_replay_start",
    ) || same_text(action, "changeset_sync_replay_complete") || same_text(
        action,
        "changeset_sync_replay_item_start",
    ) || same_text(action, "changeset_sync_replay_item")
}

/// The error for an operation that a sparse draft cannot carry over.
pub open spec fn sparse_unsupported(action: Seq<char>) -> AppErrorView {
    AppErrorView {
        code: ErrorCode::ChangesetSparseUnsupported,
        message: action + " does not yet have an exact sparse Changeset patch"@,
        details: Some(
            JsonView::Object(
                seq![
                    json::entry("action"@, JsonView::Text(action)),
                    json::entry("mutated"@, JsonView::Bool(false)),
                    json::entry(
                        "reason"@,
                        JsonView::Text("refusing to report a partial Changeset commit"@),
                    ),
                ],
            ),
        ),
    }
}

/// The first operation that a sparse draft cannot carry over.
pub open spec fn first_unsupported(operations: Seq<OperationView>) -> Option<Seq<char>>
    decreases operations.len(),
{
    if operations.len() == 0 {
        None
    } else if !is_sparse_action(operations[0].action) {
        Some(operations[0].action)
    } else {
        first_unsupported(operations.drop_first())
    }
}

fn sparse_unsupported_error(action: &str) -> (r: AppError)
    ensures
        r@ == sparse_unsupported(action@),
{
    let ghost goal = sparse_unsupported(action@).details->0;
    let mut entries: Vec<(String, Json)> = Vec::new();
    entries.push((owned("action"), Json::text(action)));
    entries.push((owned("mutated"), Json::Bool(false)));
    entries.push((owned("reason"), Json::text("refusing to report a partial Changeset commit")));
    assert(json::entry_views(entries@) =~= goal->Object_0);
    AppError {
        code: ErrorCode::ChangesetSparseUnsupported,
        message: join2(action, " does not yet have an exact sparse Changeset patch"),
        details: Some(Json::object(entries)),
    }
}

/// Checks that a sparse draft can carry all operations over.
pub fn validate_sparse_operation_actions(operations: &Vec<OperationRow>) -> (r: Result<
    (),
    AppError,
>)
    ensures
        match first_unsupported(text::views(operations@)) {
            Some(action) => r matches Err(e) && e@ == sparse_unsupported(action),
            None => r is Ok,
        },
{
    let ghost all = text::views(operations@);
    let mut i: usize = 0;
    assert(all.skip(0) =~= all);
    while i < operations.len()
        invariant
            i <= operations@.len() == all.len(),
            all == text::views(operations@),
            first_unsupported(all) == first_unsupported(all.skip(i as int)),
        decreases operations@.len() - i,
    {
        assert(all.skip(i as int)[0] == operations@[i as int]@);
        assert(all.skip(i as int).drop_first() =~= all.skip(i + 1));
        if !sparse_action(operations[i].action.as_str()) {
            return Err(sparse_unsupported_error(operations[i].action.as_str()));
        }
        i += 1;
    }
    Ok(())
}

// ---------------------------------------------------------------------------
// What operations touch
// ---------------------------------------------------------------------------

/// The pages that operations write or remove.
pub open spec fn page_targets(operations: Seq<OperationView>) -> Set<Seq<char>>
    decreases operations.len(),
{
    if operations.len() == 0 {
        Set::empty()
    } else {
        let head = page_targets(operations.drop_last());
        if is_page_action(operations.last().action) {
            head.insert(operations.last().target)
        } else {
            head
        }
    }
}

/// The tags that operations change, as far as they name them.
pub open spec fn tag_targets(operations: Seq<OperationView>) -> Set<Seq<char>>
    decreases operations.len(),
{
    if operations.len() == 0 {
        Set::empty()
    } else {
        let head = tag_targets(operations.drop_last());
        let op = operations.last();
        if is_tag_action(op.action) && op.detail.text_at("tag"@) is Some {
            head.insert(op.detail.text_at("tag"@)->0)
        } else {
            head
        }
    }
}

/// The keys of the metadata that operations set.
pub open spec fn meta_targets(operations: Seq<OperationView>) -> Set<Seq<char>>
    decreases operations.len(),
{
    if operations.len() == 0 {
        Set::empty()
    } else {
        let head = meta_targets(operations.drop_last());
        match meta_key(operations.last().action) {
            Some(key) => head.insert(key),
            None => head,
        }
    }
}

/// The paths at which operations observed sources.
pub open spec fn path_targets(operations: Seq<OperationView>) -> Set<Seq<char>>
    decreases operations.len(),
{
    if operations.len() == 0 {
        Set::empty()
    } else {
        let head = path_targets(operations.drop_last());
        let op = operations.last();
        if op.action == "source_add"@ && op.detail.text_at("tracked_path"@) is Some {
            head.insert(op.detail.text_at("tracked_path"@)->0)
        } else {
            head
        }
    }
}

/// The sources that operations added, known or new.
pub open spec fn source_targets(operations: Seq<OperationView>) -> Set<i64>
    decreases operations.len(),
{
    if operations.len() == 0 {
        Set::empty()
    } else {
        let head = source_targets(operations.drop_last());
        let op = operations.last();
        if op.action == "source_add"@ && op.detail.int_at("source_id"@) is Some {
            head.insert(op.detail.int_at("source_id"@)->0)
        } else {
            head
        }
    }
}

/// The sources that operations created.
pub open spec fn created_sources(operations: Seq<OperationView>) -> Result<Set<i64>, AppErrorView>
    decreases operations.len(),
{
    if operations.len() == 0 {
        Ok(Set::empty())
    } else {
        match created_sources(operations.drop_last()) {
            Err(e) => Err(e),
            Ok(head) => {
                let op = operations.last();
                if op.action == "source_add"@ && op.detail.bool_at("created"@) == Some(true) {
                    match op.detail.int_at("source_id"@) {
                        Some(id) => Ok(head.insert(id)),
                        None => error::refused(
                            ErrorCode::ChangesetCorrupt,
                            "source_add operation lacks source_id"@,
                        ),
                    }
                } else {
                    Ok(head)
                }
            },
        }
    }
}

/// The documents that operations touch, for the graph.
pub open spec fn document_targets(operations: Seq<OperationView>) -> Set<PairView>
    decreases operations.len(),
{
    if operations.len() == 0 {
        Set::empty()
    } else {
        let head = document_targets(operations.drop_last());
        let op = operations.last();
        if is_page_action(op.action) {
            head.insert(table::pair("page"@, op.target))
        } else if op.action == "source_add"@ && op.detail.int_at("source_id"@) is Some {
            head.insert(
                table::pair(
                    "source"@,
                    text::decimal(op.detail.int_at("source_id"@)->0 as int),
                ),
            )
        } else if op.action == "source_remove"@ {
            head.insert(table::pair("source"@, op.target))
        } else {
            head
        }
    }
}

/// The pages that operations write or remove, in ascending order.
pub fn list_page_targets(operations: &Vec<OperationRow>) -> (r: Vec<String>)
    ensures
        text::views(r@) == text::sorted(page_targets(text::views(operations@))),
        text::ascending(text::views(r@)),
        text::views(r@).to_set() == page_targets(text::views(operations@)),
{
    let ghost all = text::views(operations@);
    let mut out: Vec<String> = Vec::new();
    assert(text::views(out@).to_set() =~= Set::empty());
    let mut i: usize = 0;
    while i < operations.len()
        invariant
            i <= operations@.len() == all.len(),
            all == text::views(operations@),
            text::ascending(text::views(out@)),
            text::views(out@).to_set() == page_targets(all.take(i as int)),
        decreases operations@.len() - i,
    {
        assert(all.take(i + 1).drop_last() =~= all.take(i as int));
        assert(all.take(i + 1).last() == operations@[i as int]@);
        if page_action(operations[i].action.as_str()) {
            text::add_text(&mut out, operations[i].target.as_str());
        }
        i += 1;
    }
    proof {
        assert(all.take(i as int) =~= all);
        text::lemma_sorted_is(text::views(out@));
    }
    out
}

/// The tags that operations change, as far as they name them, in ascending order.
pub fn list_tag_targets(operations: &Vec<OperationRow>) -> (r: Vec<String>)
    ensures
        text::views(r@) == text::sorted(tag_targets(text::views(operations@))),
        text::ascending(text::views(r@)),
        text::views(r@).to_set() == tag_targets(text::views(operations@)),
{
    let ghost all = text::views(operations@);
    let mut out: Vec<String> = Vec::new();
    assert(text::views(out@).to_set() =~= Set::empty());
    let mut i: usize = 0;
    while i < operations.len()
        invariant
            i <= operations@.len() == all.len(),
            all == text::views(operations@),
            text::ascending(text::views(out@)),
            text::views(out@).to_set() == tag_targets(all.take(i as int)),
        decreases operations@.len() - i,
    {
        assert(all.take(i + 1).drop_last() =~= all.take(i as int));
        assert(all.take(i + 1).last() == operations@[i as int]@);
        if tag_action(operations[i].action.as_str()) {
            if let Some(tag) = operations[i].detail.text_at("tag") {
                text::add_text(&mut out, tag.as_str());
            }
        }
        i += 1;
    }
    proof {
        assert(all.take(i as int) =~= all);
        text::lemma_sorted_is(text::views(out@));
    }
    out
}

/// The paths at which operations observed sources, in ascending order.
pub fn list_path_targets(operations: &Vec<OperationRow>) -> (r: Vec<String>)
    ensures
        text::views(r@) == text::sorted(path_targets(text::views(operations@))),
        text::ascending(text::views(r@)),
        text::views(r@).to_set() == path_targets(text::views(operations@)),
{
    let ghost all = text::views(operations@);
    let mut out: Vec<String> = Vec::new();
    assert(text::views(out@).to_set() =~= Set::empty());
    let mut i: usize = 0;
    while i < operations.len()
        invariant
            i <= operations@.len() == all.len(),
            all == text::views(operations@),
            text::ascending(text::views(out@)),
            text::views(out@).to_set() == path_targets(all.take(i as int)),
        decreases operations@.len() - i,
    {
        assert(all.take(i + 1).drop_last() =~= all.take(i as int));
        assert(all.take(i + 1).last() == operations@[i as int]@);
        if same_text(operations[i].action.as_str(), "source_add") {
            if let Some(path) = operations[i].detail.text_at("tracked_path") {
                text::add_text(&mut out, path.as_str());
            }
        }
        i += 1;
    }
    proof {
        assert(all.take(i as int) =~= all);
        text::lemma_sorted_is(text::views(out@));
    }
    out
}

/// The keys of a table, in ascending order.
pub fn keys_of(marks: &Table<i64, bool>) -> (r: Vec<i64>)
    ensures
        r@ == table::ordered::<i64>(marks@.dom()),
        r@.to_set() == marks@.dom(),
        table::in_order::<i64>(r@),
{
    let n = marks.len();
    let ghost keys = marks.keys();
    proof {
        table::lemma_ordered_is::<i64>(keys, marks@.dom());
    }
    let mut out: Vec<i64> = Vec::new();
    let mut i: usize = 0;
    while i < n
        invariant
            i <= n == keys.len(),
            keys == marks.keys(),
            out@ == keys.take(i as int),
        decreases n - i,
    {
        out.push(*marks.key_at(i));
        assert(keys.take(i + 1) =~= keys.take(i as int).push(keys[i as int]));
        i += 1;
    }
    assert(keys.take(n as int) =~= keys);
    out
}

/// The sources that operations added, known or new, in ascending order.
pub fn list_source_targets(operations: &Vec<OperationRow>) -> (r: Vec<i64>)
    ensures
        r@ == table::ordered::<i64>(source_targets(text::views(operations@))),
        r@.to_set() == source_targets(text::views(operations@)),
        table::in_order::<i64>(r@),
{
    let ghost all = text::views(operations@);
    let mut marks: Table<i64, bool> = Table::new();
    let mut i: usize = 0;
    while i < operations.len()
        invariant
            i <= operations@.len() == all.len(),
            all == text::views(operations@),
            marks@.dom() == source_targets(all.take(i as int)),
        decreases operations@.len() - i,
    {
        assert(all.take(i + 1).drop_last() =~= all.take(i as int));
        assert(all.take(i + 1).last() == operations@[i as int]@);
        if same_text(operations[i].action.as_str(), "source_add") {
            if let Some(id) = operations[i].detail.int_at("source_id") {
                marks.put(id, true);
            }
        }
        i += 1;
    }
    assert(all.take(i as int) =~= all);
    keys_of(&marks)
}

proof fn lemma_created_stop(operations: Seq<OperationView>, count: int)
    requires
        0 <= count <= operations.len(),
        created_sources(operations.take(count)) is Err,
    ensures
        created_sources(operations) == created_sources(operations.take(count)),
    decreases operations.len() - count,
{
    if count == operations.len() {
        assert(operations.take(count) =~= operations);
    } else {
        assert(operations.take(count + 1).drop_last() =~= operations.take(count));
        lemma_created_stop(operations, count + 1);
    }
}

/// The sources that operations created, in ascending order.
pub fn list_created_sources(operations: &Vec<OperationRow>) -> (r: Result<Vec<i64>, AppError>)
    ensures
        match created_sources(text::views(operations@)) {
            Ok(ids) => r matches Ok(got) && got@ == table::ordered::<i64>(ids) && got@.to_set()
                == ids,
            Err(e) => r matches Err(got) && got@ == e,
        },
{
    let ghost all = text::views(operations@);
    let mut marks: Table<i64, bool> = Table::new();
    let mut i: usize = 0;
    while i < operations.len()
        invariant
            i <= operations@.len() == all.len(),
            all == text::views(operations@),
            created_sources(all.take(i as int)) == Ok::<Set<i64>, AppErrorView>(marks@.dom()),
        decreases operations@.len() - i,
    {
        assert(all.take(i + 1).drop_last() =~= all.take(i as int));
        assert(all.take(i + 1).last() == operations@[i as int]@);
        let made = match operations[i].detail.bool_at("created") {
            Some(made) => made,
            None => false,
        };
        if same_text(operations[i].action.as_str(), "source_add") && made {
            match operations[i].detail.int_at("source_id") {
                Some(id) => {
                    marks.put(id, true);
                },
                None => {
                    proof {
                        lemma_created_stop(all, i + 1);
                    }
                    return Err(
                        AppError::new(
                            ErrorCode::ChangesetCorrupt,
                            "source_add operation lacks source_id",
                        ),
                    );
                },
            }
        }
        i += 1;
    }
    assert(all.take(i as int) =~= all);
    Ok(keys_of(&marks))
}

/// The keys of a table of pairs, in ascending order.
pub fn pairs_of(marks: &Table<Pair, bool>) -> (r: Vec<Pair>)
    ensures
        text::views(r@) == table::ordered::<Pair>(marks@.dom()),
{
    let n = marks.len();
    let ghost keys = marks.keys();
    proof {
        table::lemma_ordered_is::<Pair>(keys, marks@.dom());
    }
    let mut out: Vec<Pair> = Vec::new();
    let mut i: usize = 0;
    while i < n
        invariant
            i <= n == keys.len(),
            keys == marks.keys(),
            out@.len() == i,
            forall|j: int| 0 <= j < i ==> (#[trigger] out@[j])@ == keys[j],
        decreases n - i,
    {
        let key = marks.key_at(i);
        out.push(Pair::new(key.first.as_str(), key.second.as_str()));
        i += 1;
    }
    assert(text::views(out@) =~= keys);
    out
}

/// The documents that operations touch, for the graph, in ascending order.
pub fn list_document_targets(operations: &Vec<OperationRow>) -> (r: Vec<Pair>)
    ensures
        text::views(r@) == table::ordered::<Pair>(document_targets(text::views(operations@))),
{
    let ghost all = text::views(operations@);
    let mut marks: Table<Pair, bool> = Table::new();
    let mut i: usize = 0;
    while i < operations.len()
        invariant
            i <= operations@.len() == all.len(),
            all == text::views(operations@),
            marks@.dom() == document_targets(all.take(i as int)),
        decreases operations@.len() - i,
    {
        assert(all.take(i + 1).drop_last() =~= all.take(i as int));
        assert(all.take(i + 1).last() == operations@[i as int]@);
        let action = operations[i].action.as_str();
        let added = if same_text(action, "source_add") {
            operations[i].detail.int_at("source_id")
        } else {
            None
        };
        if page_action(action) {
            marks.put(Pair::new("page", operations[i].target.as_str()), true);
        } else if let Some(id) = added {
            marks.put(Pair::new("source", decimal_text(id).as_str()), true);
        } else if same_text(action, "source_remove") {
            marks.put(Pair::new("source", operations[i].target.as_str()), true);
        }
        i += 1;
    }
    assert(all.take(i as int) =~= all);
    pairs_of(&marks)
}

// ---------------------------------------------------------------------------
// What a draft has touched
// ---------------------------------------------------------------------------

/// The fingerprint that a page had when the draft first touched it.
pub open spec fn page_base(store: StoreView, slug: Seq<char>) -> Option<Seq<char>> {
    store::meta_value(store, "changeset_base_page:"@ + slug)
}

/// The fingerprint that a tag had when the draft first touched it.
pub open spec fn tag_base(store: StoreView, tag: Seq<char>) -> Option<Seq<char>> {
    store::meta_value(store, "changeset_base_tag:"@ + tag)
}

/// The fingerprint that a key of the metadata had when the draft began.
pub open spec fn meta_base(store: StoreView, key: Seq<char>) -> Option<Seq<char>> {
    store::meta_value(store, "changeset_base_meta:"@ + key)
}

/// The fingerprint, or that there was nothing.
pub open spec fn or_absent(mark: Option<Seq<char>>) -> Seq<char> {
    match mark {
        Some(found) => found,
        None => "absent"@,
    }
}

/// The pages that drafts touched, and their fingerprints before.
pub open spec fn touched_pages(store: StoreView) -> Seq<PairView> {
    text::sorted(page_targets(changesets::staged_anywhere(store))).map_values(
        |slug: Seq<char>| table::pair(slug, or_absent(page_base(store, slug))),
    )
}

/// The first `count` of a list of names that have a fingerprint, with it.
pub open spec fn with_bases(
    names: Seq<Seq<char>>,
    bases: spec_fn(Seq<char>) -> Option<Seq<char>>,
    count: nat,
) -> Seq<PairView>
    decreases count,
{
    if count == 0 || count > names.len() {
        Seq::empty()
    } else {
        let head = with_bases(names, bases, (count - 1) as nat);
        match bases(names[count - 1]) {
            Some(mark) => head.push(table::pair(names[count - 1], mark)),
            None => head,
        }
    }
}

/// The tags that drafts touched, and their fingerprints before.
pub open spec fn touched_tags(store: StoreView) -> Seq<PairView> {
    let names = text::sorted(tag_targets(changesets::staged_anywhere(store)));
    with_bases(names, |tag: Seq<char>| tag_base(store, tag), names.len())
}

/// The keys of the metadata that drafts set, and their fingerprints before.
pub open spec fn touched_meta(store: StoreView) -> Seq<PairView> {
    let names = text::sorted(meta_targets(changesets::staged_anywhere(store)));
    with_bases(names, |key: Seq<char>| meta_base(store, key), names.len())
}

impl Store {
    /// The pages that the drafts touched, and their fingerprints before.
    pub fn changeset_touched_pages(&self) -> (r: Vec<Pair>)
        ensures
            text::views(r@) == touched_pages(self@),
    {
        let operations = self.all_staged_operations();
        let slugs = list_page_targets(&operations);
        let ghost all = text::views(slugs@);
        let mut out: Vec<Pair> = Vec::new();
        let mut i: usize = 0;
        while i < slugs.len()
            invariant
                i <= slugs@.len() == all.len(),
                all == text::views(slugs@),
                out@.len() == i,
                forall|j: int|
                    0 <= j < i ==> (#[trigger] out@[j])@ == table::pair(
                        all[j],
                        or_absent(page_base(self@, all[j])),
                    ),
            decreases slugs@.len() - i,
        {
            let slug = slugs[i].as_str();
            assert(all[i as int] == slug@);
            let key = join2("changeset_base_page:", slug);
            let base = match self.meta_text(key.as_str()) {
                Some(base) => base,
                None => owned("absent"),
            };
            out.push(Pair { first: owned(slug), second: base });
            i += 1;
        }
        assert(text::views(out@) =~= touched_pages(self@));
        out
    }

    /// The tags that the drafts touched, and their fingerprints before.
    pub fn changeset_touched_tags(&self) -> (r: Vec<Pair>)
        ensures
            text::views(r@) == touched_tags(self@),
    {
        let operations = self.all_staged_operations();
        let names = list_tag_targets(&operations);
        let ghost bases = |tag: Seq<char>| tag_base(self@, tag);
        self.pair_with_bases("changeset_base_tag:", &names, Ghost(bases))
    }

    /// The keys of the metadata that the drafts set, and their fingerprints before.
    pub fn changeset_touched_meta(&self) -> (r: Vec<Pair>)
        ensures
            text::views(r@) == touched_meta(self@),
    {
        let operations = self.all_staged_operations();
        let ghost all = text::views(operations@);
        let mut names: Vec<String> = Vec::new();
        assert(text::views(names@).to_set() =~= Set::empty());
        let mut i: usize = 0;
        while i < operations.len()
            invariant
                i <= operations@.len() == all.len(),
                all == text::views(operations@),
                text::ascending(text::views(names@)),
                text::views(names@).to_set() == meta_targets(all.take(i as int)),
            decreases operations@.len() - i,
        {
            assert(all.take(i + 1).drop_last() =~= all.take(i as int));
            assert(all.take(i + 1).last() == operations@[i as int]@);
            if let Some(key) = meta_key_of(operations[i].action.as_str()) {
                text::add_text(&mut names, key);
            }
            i += 1;
        }
        proof {
            assert(all.take(i as int) =~= all);
            text::lemma_sorted_is(text::views(names@));
        }
        let ghost bases = |key: Seq<char>| meta_base(self@, key);
        self.pair_with_bases("changeset_base_meta:", &names, Ghost(bases))
    }

    /// The names that have a fingerprint under a prefix, with it.
    fn pair_with_bases(
        &self,
        prefix: &str,
        names: &Vec<String>,
        Ghost(bases): Ghost<spec_fn(Seq<char>) -> Option<Seq<char>>>,
    ) -> (r: Vec<Pair>)
        requires
            forall|name: Seq<char>| #[trigger]
                bases(name) == store::meta_value(self@, prefix@ + name),
        ensures
            text::views(r@) == with_bases(text::views(names@), bases, names@.len()),
    {
        let ghost all = text::views(names@);
        let mut out: Vec<Pair> = Vec::new();
        assert(text::views(out@) =~= Seq::empty());
        let mut i: usize = 0;
        while i < names.len()
            invariant
                i <= names@.len() == all.len(),
                all == text::views(names@),
                text::views(out@) == with_bases(all, bases, i as nat),
            decreases names@.len() - i,
        {
            let name = names[i].as_str();
            assert(all[i as int] == name@);
            let key = join2(prefix, name);
            if let Some(base) = self.meta_text(key.as_str()) {
                let one = Pair { first: owned(name), second: base };
                proof {
                    text::lemma_views_push(out@, one);
                }
                out.push(one);
            }
            i += 1;
        }
        out
    }

    /// The documents that the draft touched, for the graph.
    pub fn changeset_graph_documents(&self) -> (r: Result<Vec<Pair>, AppError>)
        ensures
            if changesets::draft_of(self@, None) is None {
                r matches Err(e) && e@ == store::no_rows()
            } else {
                r matches Ok(got) && text::views(got@) == table::ordered::<Pair>(
                    document_targets(changesets::staged(self@)),
                )
            },
    {
        if self.find_draft(None).is_none() {
            return Err(store::no_rows_error());
        }
        let operations = self.staged_operations();
        Ok(list_document_targets(&operations))
    }

    /// The paths at which the draft observed sources.
    pub fn changeset_touched_source_paths(&self) -> (r: Result<Vec<String>, AppError>)
        ensures
            if changesets::draft_of(self@, None) is None {
                r matches Err(e) && e@ == store::no_rows()
            } else {
                r matches Ok(got) && text::views(got@) == text::sorted(
                    path_targets(changesets::staged(self@)),
                )
            },
    {
        if self.find_draft(None).is_none() {
            return Err(store::no_rows_error());
        }
        let operations = self.staged_operations();
        Ok(list_path_targets(&operations))
    }

    /// Checks that a sparse draft can carry all of its operations over.
    pub fn validate_changeset_integrity(&self) -> (r: Result<(), AppError>)
        ensures
            if store::meta_value(self@, "changeset_storage"@) != Some("sparse-v1"@) {
                r is Ok
            } else {
                match first_unsupported(changesets::staged(self@)) {
                    Some(action) => r matches Err(e) && e@ == sparse_unsupported(action),
                    None => r is Ok,
                }
            },
    {
        let sparse = match self.changeset_storage_kind() {
            Some(kind) => same_text(kind.as_str(), "sparse-v1"),
            None => false,
        };
        if !sparse {
            return Ok(());
        }
        let operations = self.staged_operations();
        validate_sparse_operation_actions(&operations)
    }
}

} // verus!
