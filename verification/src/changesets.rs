//! Changesets: drafts in which changes are staged, and what a draft has touched.
use crate::digest;
use crate::digest::hash_content;
use crate::error;
use crate::error::{AppError, AppErrorView, ErrorCode};
use crate::json;
use crate::json::{Json, JsonView};
use crate::rows::{ChangesetRow, ChangesetView, OperationRow, OperationView};
use crate::store;
use crate::store::{IdentityView, Store, StoreIdentity, StoreView};
use crate::table;
use crate::table::{Record, Table};
use crate::text;
use crate::text::{comes_before, copy_opt, join2, owned, same_opt, same_text};
use vstd::prelude::*;

verus! {

// ---------------------------------------------------------------------------
// Drafts
// ---------------------------------------------------------------------------

/// A draft of a name, or of any.
pub open spec fn is_draft(row: ChangesetView, name: Option<Seq<char>>) -> bool {
    row.status == "draft"@ && (name is None || row.name == name->0)
}

/// The newest draft among the first `count` changesets; the first of equals.
pub open spec fn newest_draft(
    changesets: Map<Seq<char>, ChangesetView>,
    ids: Seq<Seq<char>>,
    name: Option<Seq<char>>,
    count: nat,
) -> Option<Seq<char>>
    decreases count,
{
    if count == 0 || count > ids.len() {
        None
    } else {
        let so_far = newest_draft(changesets, ids, name, (count - 1) as nat);
        let id = ids[count - 1];
        if is_draft(changesets[id], name) && (so_far is None || text::before(
            changesets[so_far->0].created_at,
            changesets[id].created_at,
        )) {
            Some(id)
        } else {
            so_far
        }
    }
}

/// The newest draft of a store, by its identifier.
pub open spec fn draft_of(store: StoreView, name: Option<Seq<char>>) -> Option<Seq<char>> {
    let ids = table::ordered::<String>(store.changesets.dom());
    newest_draft(store.changesets, ids, name, ids.len())
}

/// The operations that were staged in the newest draft, the oldest first.
pub open spec fn staged(store: StoreView) -> Seq<OperationView> {
    match draft_of(store, None) {
        Some(id) => store::operations_after(
            store.operations,
            store.changesets[id].begin_operation_id,
        ),
        None => Seq::empty(),
    }
}

/// Where the first of the drafts among the first `count` changesets began.
pub open spec fn earliest_begin(
    changesets: Map<Seq<char>, ChangesetView>,
    ids: Seq<Seq<char>>,
    count: nat,
) -> Option<i64>
    decreases count,
{
    if count == 0 || count > ids.len() {
        None
    } else {
        let so_far = earliest_begin(changesets, ids, (count - 1) as nat);
        let row = changesets[ids[count - 1]];
        if is_draft(row, None) && (so_far is None || row.begin_operation_id < so_far->0) {
            Some(row.begin_operation_id)
        } else {
            so_far
        }
    }
}

/// The operations that were staged in any draft, the oldest first: those behind the
/// beginning of the first one.
pub open spec fn staged_anywhere(store: StoreView) -> Seq<OperationView> {
    let ids = table::ordered::<String>(store.changesets.dom());
    match earliest_begin(store.changesets, ids, ids.len()) {
        Some(begin) => store::operations_after(store.operations, begin),
        None => Seq::empty(),
    }
}

/// A changeset, and what became of it.
pub struct ChangesetHistoryState {
    pub id: String,
    pub name: String,
    pub status: String,
    pub base_revision: String,
    pub base_operation_id: i64,
    pub begin_operation_id: i64,
    pub pre_commit_checkpoint: Option<String>,
    pub post_revision: Option<String>,
    pub created_at: String,
    pub committed_at: Option<String>,
    pub rolled_back_at: Option<String>,
}

#[verifier::ext_equal]
pub struct HistoryView {
    pub id: Seq<char>,
    pub name: Seq<char>,
    pub status: Seq<char>,
    pub base_revision: Seq<char>,
    pub base_operation_id: i64,
    pub begin_operation_id: i64,
    pub pre_commit_checkpoint: Option<Seq<char>>,
    pub post_revision: Option<Seq<char>>,
    pub created_at: Seq<char>,
    pub committed_at: Option<Seq<char>>,
    pub rolled_back_at: Option<Seq<char>>,
}

impl View for ChangesetHistoryState {
    type V = HistoryView;

    open spec fn view(&self) -> HistoryView {
        HistoryView {
            id: self.id@,
            name: self.name@,
            status: self.status@,
            base_revision: self.base_revision@,
            base_operation_id: self.base_operation_id,
            begin_operation_id: self.begin_operation_id,
            pre_commit_checkpoint: text::opt_text(self.pre_commit_checkpoint),
            post_revision: text::opt_text(self.post_revision),
            created_at: self.created_at@,
            committed_at: text::opt_text(self.committed_at),
            rolled_back_at: text::opt_text(self.rolled_back_at),
        }
    }
}

impl Record for ChangesetHistoryState {
    fn duplicate(&self) -> (r: Self) {
        ChangesetHistoryState {
            id: owned(self.id.as_str()),
            name: owned(self.name.as_str()),
            status: owned(self.status.as_str()),
            base_revision: owned(self.base_revision.as_str()),
            base_operation_id: self.base_operation_id,
            begin_operation_id: self.begin_operation_id,
            pre_commit_checkpoint: copy_opt(&self.pre_commit_checkpoint),
            post_revision: copy_opt(&self.post_revision),
            created_at: owned(self.created_at.as_str()),
            committed_at: copy_opt(&self.committed_at),
            rolled_back_at: copy_opt(&self.rolled_back_at),
        }
    }

    fn same(&self, other: &Self) -> (r: bool) {
        same_text(self.id.as_str(), other.id.as_str())
            && same_text(self.name.as_str(), other.name.as_str())
            && same_text(self.status.as_str(), other.status.as_str())
            && same_text(self.base_revision.as_str(), other.base_revision.as_str())
            && self.base_operation_id == other.base_operation_id
            && self.begin_operation_id == other.begin_operation_id
            && same_opt(&self.pre_commit_checkpoint, &other.pre_commit_checkpoint)
            && same_opt(&self.post_revision, &other.post_revision)
            && same_text(self.created_at.as_str(), other.created_at.as_str())
            && same_opt(&self.committed_at, &other.committed_at)
            && same_opt(&self.rolled_back_at, &other.rolled_back_at)
    }
}


/// A draft and what is staged in it.
pub struct ChangesetDraftState {
    pub id: String,
    pub name: String,
    pub status: String,
    pub base_revision: String,
    pub base_operation_id: i64,
    pub begin_operation_id: i64,
    pub draft_revision: String,
    pub draft_operation_id: i64,
    pub staged_operation_count: usize,
    pub action_counts: Table<String, usize>,
    pub operations: Vec<OperationRow>,
    pub created_at: String,
}

#[verifier::ext_equal]
pub struct DraftView {
    pub id: Seq<char>,
    pub name: Seq<char>,
    pub status: Seq<char>,
    pub base_revision: Seq<char>,
    pub base_operation_id: i64,
    pub begin_operation_id: i64,
    pub draft_revision: Seq<char>,
    pub draft_operation_id: i64,
    pub staged_operation_count: usize,
    pub action_counts: Map<Seq<char>, usize>,
    pub operations: Seq<OperationView>,
    pub created_at: Seq<char>,
}

impl View for ChangesetDraftState {
    type V = DraftView;

    open spec fn view(&self) -> DraftView {
        DraftView {
            id: self.id@,
            name: self.name@,
            status: self.status@,
            base_revision: self.base_revision@,
            base_operation_id: self.base_operation_id,
            begin_operation_id: self.begin_operation_id,
            draft_revision: self.draft_revision@,
            draft_operation_id: self.draft_operation_id,
            staged_operation_count: self.staged_operation_count,
            action_counts: self.action_counts@,
            operations: text::views(self.operations@),
            created_at: self.created_at@,
        }
    }
}


/// How often each action occurs.
pub open spec fn action_counts(operations: Seq<OperationView>) -> Map<Seq<char>, usize>
    decreases operations.len(),
{
    if operations.len() == 0 {
        Map::empty()
    } else {
        let counts = action_counts(operations.drop_last());
        let action = operations.last().action;
        counts.insert(
            action,
            if counts.dom().contains(action) {
                (counts[action] + 1) as usize
            } else {
                1
            },
        )
    }
}

/// The draft of a name with its newest operations.
pub open spec fn draft_state(store: StoreView, name: Seq<char>, limit: nat) -> Result<
    DraftView,
    AppErrorView,
> {
    match draft_of(store, Some(name)) {
        None => error::refused(
            ErrorCode::ChangesetNotFound,
            "draft changeset not found: "@ + name,
        ),
        Some(id) => match store::live_identity(store) {
            Err(e) => Err(e),
            Ok(identity) => {
                let row = store.changesets[id];
                let operations = store::operations_after(store.operations, row.begin_operation_id);
                Ok(
                    DraftView {
                        id,
                        name: row.name,
                        status: row.status,
                        base_revision: row.base_revision,
                        base_operation_id: row.base_operation_id,
                        begin_operation_id: row.begin_operation_id,
                        draft_revision: identity.revision,
                        draft_operation_id: identity.operation_id,
                        staged_operation_count: operations.len() as usize,
                        action_counts: action_counts(operations),
                        operations: store::newest(operations, limit),
                        created_at: row.created_at,
                    },
                )
            },
        },
    }
}

/// A text of spaces alone.
pub open spec fn is_spaces(s: Seq<char>) -> bool {
    forall|i: int| 0 <= i < s.len() ==> #[trigger] s[i] == ' '
}

/// A new draft that the table of changesets takes.
pub open spec fn draft_fits(store: StoreView, id: Seq<char>, row: ChangesetView) -> bool {
    &&& !store.changesets.dom().contains(id)
    &&& id.len() == 64
    &&& !is_spaces(row.name)
    &&& row.base_revision.len() == 64
    &&& 0 <= row.base_operation_id < row.begin_operation_id
}

/// The error of a statement whose values its table does not take.
pub open spec fn check_failed() -> AppErrorView {
    error::app_error(ErrorCode::DatabaseError, "CHECK constraint failed"@)
}

/// The row of a new draft.
pub open spec fn new_draft(
    name: Seq<char>,
    base: IdentityView,
    begin_operation_id: i64,
    now: Seq<char>,
) -> ChangesetView {
    ChangesetView {
        name,
        status: "draft"@,
        base_revision: base.revision,
        base_operation_id: base.operation_id,
        begin_operation_id,
        pre_commit_checkpoint: None,
        post_revision: None,
        created_at: now,
        committed_at: None,
        rolled_back_at: None,
    }
}

/// What the log says of a new draft.
pub open spec fn begin_detail(name: Seq<char>, base: IdentityView) -> JsonView {
    JsonView::Object(
        seq![
            json::entry("base_revision"@, JsonView::Text(base.revision)),
            json::entry("name"@, JsonView::Text(name)),
        ],
    )
}

/// What beginning a changeset comes to.
pub open spec fn begin_goal(
    store: StoreView,
    name: Seq<char>,
    base: IdentityView,
    id: Seq<char>,
    now: Seq<char>,
    revision: Seq<char>,
) -> Result<StoreView, AppErrorView> {
    match store::live_identity(store) {
        Err(e) => Err(e),
        Ok(found) => if found.store_id != base.store_id || found.revision != base.revision {
            error::refused(
                ErrorCode::ChangesetChanged,
                "draft snapshot does not match the captured live base"@,
            )
        } else {
            match store::recorded(
                store,
                "changeset_begin"@,
                id,
                begin_detail(name, base),
                now,
                revision,
            ) {
                Err(e) => Err(e),
                Ok(next) => {
                    let row = new_draft(name, base, next.operation_sequence, now);
                    if draft_fits(next, id, row) {
                        Ok(StoreView { changesets: next.changesets.insert(id, row), ..next })
                    } else {
                        Err(check_failed())
                    }
                },
            }
        },
    }
}

/// An empty store prepared to stage changes to another one.
pub open spec fn sparse_base(
    store: StoreView,
    base: IdentityView,
    schema: Seq<char>,
    purpose: Seq<char>,
    max_source_id: i64,
) -> StoreView {
    StoreView {
        operations: Seq::empty(),
        changesets: Map::empty(),
        operation_sequence: base.operation_id,
        source_sequence: max_source_id,
        meta: store.meta.insert("store_id"@, base.store_id).insert(
            "store_revision"@,
            base.revision,
        ).insert("schema"@, schema).insert("purpose"@, purpose).insert(
            "changeset_storage"@,
            "sparse-v1"@,
        ).insert("changeset_base_meta:schema"@, digest::text_digest(schema)).insert(
            "changeset_base_meta:purpose"@,
            digest::text_digest(purpose),
        ),
        ..store
    }
}

/// The operations of a store with identifiers above `id`.
pub fn operations_since(operations: &Vec<OperationRow>, id: i64) -> (r: Vec<OperationRow>)
    ensures
        text::views(r@) == store::operations_after(text::views(operations@), id),
{
    let ghost all = text::views(operations@);
    let mut out: Vec<OperationRow> = Vec::new();
    assert(text::views(out@) =~= Seq::empty());
    let mut i: usize = 0;
    while i < operations.len()
        invariant
            i <= operations@.len() == all.len(),
            all == text::views(operations@),
            text::views(out@) == store::operations_after(all.take(i as int), id),
        decreases operations@.len() - i,
    {
        assert(all.take(i + 1).drop_last() =~= all.take(i as int));
        assert(all.take(i + 1).last() == operations@[i as int]@);
        if operations[i].id > id {
            let copy = operations[i].duplicate();
            proof {
                text::lemma_views_push(out@, copy);
            }
            out.push(copy);
        }
        i += 1;
    }
    assert(all.take(i as int) =~= all);
    out
}

/// How often each action occurs.
pub fn count_actions(operations: &Vec<OperationRow>) -> (r: Table<String, usize>)
    ensures
        r@ == action_counts(text::views(operations@)),
{
    let ghost all = text::views(operations@);
    let mut counts: Table<String, usize> = Table::new();
    let mut i: usize = 0;
    while i < operations.len()
        invariant
            i <= operations@.len() == all.len(),
            all == text::views(operations@),
            counts@ == action_counts(all.take(i as int)),
            forall|a: Seq<char>| #[trigger] counts@.dom().contains(a) ==> counts@[a] <= i,
        decreases operations@.len() - i,
    {
        assert(all.take(i + 1).drop_last() =~= all.take(i as int));
        assert(all.take(i + 1).last() == operations@[i as int]@);
        let action = &operations[i].action;
        let count: usize = match counts.get(action) {
            Some(known) => *known + 1,
            None => 1,
        };
        counts.put(owned(action.as_str()), count);
        i += 1;
    }
    assert(all.take(i as int) =~= all);
    counts
}

/// The newest of a list of operations, the newest first.
fn newest_operations(operations: &Vec<OperationRow>, limit: usize) -> (r: Vec<OperationRow>)
    ensures
        text::views(r@) == store::newest(text::views(operations@), limit as nat),
{
    let n = operations.len();
    let mut out: Vec<OperationRow> = Vec::new();
    let mut i: usize = 0;
    while i < n && i < limit
        invariant
            n == operations@.len(),
            i <= n,
            i <= limit,
            out@.len() == i,
            forall|j: int| 0 <= j < i ==> (#[trigger] out@[j])@ == operations@[n - 1 - j]@,
        decreases n - i,
    {
        out.push(operations[n - 1 - i].duplicate());
        i += 1;
    }
    assert(text::views(out@) =~= store::newest(text::views(operations@), limit as nat));
    out
}

/// A new draft that the table of changesets takes.
pub fn fits_as_draft(live: &Store, id: &str, row: &ChangesetRow) -> (r: bool)
    ensures
        r == draft_fits(live@, id@, row@),
{
    !live.changesets.has(&owned(id)) && text::chars_of(id).len() == 64 && !only_spaces(
        row.name.as_str(),
    ) && text::chars_of(row.base_revision.as_str()).len() == 64 && 0 <= row.base_operation_id
        && row.base_operation_id < row.begin_operation_id
}

pub fn only_spaces(s: &str) -> (r: bool)
    ensures
        r == is_spaces(s@),
{
    let chars = text::chars_of(s);
    let mut i: usize = 0;
    while i < chars.len()
        invariant
            i <= chars@.len(),
            forall|j: int| 0 <= j < i ==> #[trigger] chars@[j] == ' ',
        decreases chars@.len() - i,
    {
        if chars[i] != ' ' {
            assert(s@[i as int] != ' ');
            return false;
        }
        i += 1;
    }
    true
}

impl Store {
    /// The newest draft of a name, or of any.
    pub fn find_draft(&self, name: Option<&str>) -> (r: Option<(&String, &ChangesetRow)>)
        ensures
            match draft_of(
                self@,
                match name {
                    Some(n) => Some(n@),
                    None => None,
                },
            ) {
                Some(id) => r matches Some(found) && found.0@ == id && found.1@
                    == self@.changesets[id] && self@.changesets.dom().contains(id),
                None => r is None,
            },
    {
        let n = self.changesets.len();
        let ghost ids = self.changesets.keys();
        let ghost wanted = match name {
            Some(n) => Some(n@),
            None => None,
        };
        proof {
            table::lemma_ordered_is::<String>(ids, self@.changesets.dom());
        }
        let mut best: Option<(&String, &ChangesetRow)> = None;
        let mut i: usize = 0;
        while i < n
            invariant
                i <= n == ids.len(),
                ids == self.changesets.keys(),
                match newest_draft(self@.changesets, ids, wanted, i as nat) {
                    Some(id) => best matches Some(found) && found.0@ == id && found.1@
                        == self@.changesets[id] && self@.changesets.dom().contains(id),
                    None => best is None,
                },
            decreases n - i,
        {
            let id = self.changesets.key_at(i);
            let row = self.changesets.value_at(i);
            let named = match name {
                Some(name) => same_text(row.name.as_str(), name),
                None => true,
            };
            if same_text(row.status.as_str(), "draft") && named {
                let newer = match best {
                    Some(so_far) => comes_before(
                        so_far.1.created_at.as_str(),
                        row.created_at.as_str(),
                    ),
                    None => true,
                };
                if newer {
                    best = Some((id, row));
                }
            }
            i += 1;
        }
        best
    }

    /// The operations that were staged in the newest draft.
    pub fn staged_operations(&self) -> (r: Vec<OperationRow>)
        ensures
            text::views(r@) == staged(self@),
    {
        match self.find_draft(None) {
            Some((_, row)) => operations_since(&self.operations, row.begin_operation_id),
            None => {
                let none: Vec<OperationRow> = Vec::new();
                assert(text::views(none@) =~= Seq::empty());
                none
            },
        }
    }

    /// The operations that were staged in any draft.
    pub fn all_staged_operations(&self) -> (r: Vec<OperationRow>)
        ensures
            text::views(r@) == staged_anywhere(self@),
    {
        let n = self.changesets.len();
        let ghost ids = self.changesets.keys();
        proof {
            table::lemma_ordered_is::<String>(ids, self@.changesets.dom());
        }
        let mut begin: Option<i64> = None;
        let mut i: usize = 0;
        while i < n
            invariant
                i <= n == ids.len(),
                ids == self.changesets.keys(),
                begin == earliest_begin(self@.changesets, ids, i as nat),
            decreases n - i,
        {
            let row = self.changesets.value_at(i);
            if same_text(row.status.as_str(), "draft") {
                let earlier = match begin {
                    Some(so_far) => row.begin_operation_id < so_far,
                    None => true,
                };
                if earlier {
                    begin = Some(row.begin_operation_id);
                }
            }
            i += 1;
        }
        match begin {
            Some(id) => operations_since(&self.operations, id),
            None => {
                let none: Vec<OperationRow> = Vec::new();
                assert(text::views(none@) =~= Seq::empty());
                none
            },
        }
    }

    /// The draft of a name with its newest operations.
    pub fn changeset_draft(&self, name: &str, limit: usize) -> (r: Result<
        ChangesetDraftState,
        AppError,
    >)
        ensures
            error::outcome(r) == draft_state(self@, name@, limit as nat),
    {
        let (id, row) = match self.find_draft(Some(name)) {
            Some(found) => found,
            None => {
                return Err(
                    AppError::new(
                        ErrorCode::ChangesetNotFound,
                        join2("draft changeset not found: ", name).as_str(),
                    ),
                );
            },
        };
        let identity = match self.identity() {
            Ok(identity) => identity,
            Err(e) => {
                return Err(e);
            },
        };
        let operations = operations_since(&self.operations, row.begin_operation_id);
        assert(text::views(operations@).len() == operations@.len());
        Ok(
            ChangesetDraftState {
                id: owned(id.as_str()),
                name: owned(row.name.as_str()),
                status: owned(row.status.as_str()),
                base_revision: owned(row.base_revision.as_str()),
                base_operation_id: row.base_operation_id,
                begin_operation_id: row.begin_operation_id,
                draft_revision: identity.revision,
                draft_operation_id: identity.operation_id,
                staged_operation_count: operations.len(),
                action_counts: count_actions(&operations),
                operations: newest_operations(&operations, limit),
                created_at: owned(row.created_at.as_str()),
            },
        )
    }

    /// Begins a changeset in a copy of the store that `base` identifies; `id` is the
    /// fresh identifier of the changeset.
    pub fn changeset_begin(
        &mut self,
        name: &str,
        base: &StoreIdentity,
        id: &str,
        now: &str,
        revision: &str,
    ) -> (r: Result<ChangesetDraftState, AppError>)
        ensures
            match begin_goal(old(self)@, name@, base@, id@, now@, revision@) {
                Ok(next) => final(self)@ == next && error::outcome(r) == draft_state(
                    next,
                    name@,
                    50,
                ),
                Err(e) => (r matches Err(got) && got@ == e) && final(self)@ == old(self)@,
            },
    {
        let found = match self.identity() {
            Ok(found) => found,
            Err(e) => {
                return Err(e);
            },
        };
        if !same_text(found.store_id.as_str(), base.store_id.as_str()) || !same_text(
            found.revision.as_str(),
            base.revision.as_str(),
        ) {
            return Err(
                AppError::new(
                    ErrorCode::ChangesetChanged,
                    "draft snapshot does not match the captured live base",
                ),
            );
        }
        let mut next = self.duplicate();
        let detail = Json::object2(
            "base_revision",
            Json::text(base.revision.as_str()),
            "name",
            Json::text(name),
        );
        if let Err(e) = next.record_operation("changeset_begin", id, detail, now, revision) {
            return Err(e);
        }
        let begin_operation_id = next.operation_sequence;
        let key = owned(id);
        let row = ChangesetRow {
            name: owned(name),
            status: owned("draft"),
            base_revision: owned(base.revision.as_str()),
            base_operation_id: base.operation_id,
            begin_operation_id,
            pre_commit_checkpoint: None,
            post_revision: None,
            created_at: owned(now),
            committed_at: None,
            rolled_back_at: None,
        };
        if !fits_as_draft(&next, id, &row) {
            return Err(AppError::new(ErrorCode::DatabaseError, "CHECK constraint failed"));
        }
        next.changesets.put(key, row);
        *self = next;
        self.changeset_draft(name, 50)
    }

    /// Begins a changeset in an empty store that is to hold the changes alone.
    pub fn changeset_begin_sparse(
        &mut self,
        name: &str,
        base: &StoreIdentity,
        schema: &str,
        purpose: &str,
        max_source_id: i64,
        id: &str,
        now: &str,
        revision: &str,
    ) -> (r: Result<ChangesetDraftState, AppError>)
        ensures
            ({
                let ready = sparse_base(old(self)@, base@, schema@, purpose@, max_source_id);
                match begin_goal(ready, name@, base@, id@, now@, revision@) {
                    Ok(next) => final(self)@ == next && error::outcome(r) == draft_state(
                        next,
                        name@,
                        50,
                    ),
                    Err(e) => (r matches Err(got) && got@ == e) && final(self)@ == ready,
                }
            }),
    {
        self.operations = Vec::new();
        assert(text::views(self.operations@) =~= Seq::empty());
        self.changesets = Table::new();
        self.operation_sequence = base.operation_id;
        self.source_sequence = max_source_id;
        self.meta.put(owned("store_id"), owned(base.store_id.as_str()));
        self.meta.put(owned("store_revision"), owned(base.revision.as_str()));
        self.meta.put(owned("schema"), owned(schema));
        self.meta.put(owned("purpose"), owned(purpose));
        self.meta.put(owned("changeset_storage"), owned("sparse-v1"));
        self.meta.put(owned("changeset_base_meta:schema"), hash_content(schema));
        self.meta.put(owned("changeset_base_meta:purpose"), hash_content(purpose));
        assert(self@ == sparse_base(old(self)@, base@, schema@, purpose@, max_source_id));
        self.changeset_begin(name, base, id, now, revision)
    }

    /// A changeset, and what became of it.
    pub fn changeset_history_by_id(&self, id: &str) -> (r: Option<ChangesetHistoryState>)
        ensures
            text::opt_view(r) == history_of(self@, id@),
    {
        match self.changesets.get(&owned(id)) {
            Some(row) => Some(
                ChangesetHistoryState {
                    id: owned(id),
                    name: owned(row.name.as_str()),
                    status: owned(row.status.as_str()),
                    base_revision: owned(row.base_revision.as_str()),
                    base_operation_id: row.base_operation_id,
                    begin_operation_id: row.begin_operation_id,
                    pre_commit_checkpoint: copy_opt(&row.pre_commit_checkpoint),
                    post_revision: copy_opt(&row.post_revision),
                    created_at: owned(row.created_at.as_str()),
                    committed_at: copy_opt(&row.committed_at),
                    rolled_back_at: copy_opt(&row.rolled_back_at),
                },
            ),
            None => None,
        }
    }

    /// Marks a draft as being committed; nothing more is staged in it.
    pub fn changeset_freeze(
        &mut self,
        id: &str,
        expected_revision: &str,
        expected_operation_id: i64,
        expected_operation_count: usize,
    ) -> (r: Result<(), AppError>)
        ensures
            store::settled(
                old(self)@,
                final(self)@,
                r,
                freeze_goal(
                    old(self)@,
                    id@,
                    expected_revision@,
                    expected_operation_id,
                    expected_operation_count as nat,
                ),
            ),
    {
        let identity = match self.identity() {
            Ok(identity) => identity,
            Err(e) => {
                return Err(e);
            },
        };
        let key = owned(id);
        let begin = match self.changesets.get(&key) {
            Some(row) => if same_text(row.status.as_str(), "draft") {
                Some(row.begin_operation_id)
            } else {
                None
            },
            None => None,
        };
        let begin = match begin {
            Some(begin) => begin,
            None => {
                return Err(
                    AppError::new(
                        ErrorCode::ChangesetChanged,
                        "draft changeset is no longer writable",
                    ),
                );
            },
        };
        let operations = operations_since(&self.operations, begin);
        assert(text::views(operations@).len() == operations@.len());
        if !same_text(identity.revision.as_str(), expected_revision) || identity.operation_id
            != expected_operation_id || operations.len() != expected_operation_count {
            return Err(
                AppError::new(
                    ErrorCode::ChangesetChanged,
                    "draft changeset changed during commit preflight",
                ),
            );
        }
        match self.meta_text(store::CHANGESET_FREEZE_KEY) {
            Some(value) => {
                if !same_text(value.as_str(), id) {
                    return Err(
                        AppError::new(
                            ErrorCode::ChangesetCorrupt,
                            "draft freeze marker belongs to another changeset",
                        ),
                    );
                }
            },
            None => {
                self.meta.put(owned(store::CHANGESET_FREEZE_KEY), key);
            },
        }
        Ok(())
    }
}

/// A changeset, and what became of it.
pub open spec fn history_of(store: StoreView, id: Seq<char>) -> Option<HistoryView> {
    if store.changesets.dom().contains(id) {
        let row = store.changesets[id];
        Some(
            HistoryView {
                id,
                name: row.name,
                status: row.status,
                base_revision: row.base_revision,
                base_operation_id: row.base_operation_id,
                begin_operation_id: row.begin_operation_id,
                pre_commit_checkpoint: row.pre_commit_checkpoint,
                post_revision: row.post_revision,
                created_at: row.created_at,
                committed_at: row.committed_at,
                rolled_back_at: row.rolled_back_at,
            },
        )
    } else {
        None
    }
}

/// What marking a draft as being committed comes to.
pub open spec fn freeze_goal(
    store: StoreView,
    id: Seq<char>,
    expected_revision: Seq<char>,
    expected_operation_id: i64,
    expected_count: nat,
) -> Result<StoreView, AppErrorView> {
    match store::live_identity(store) {
        Err(e) => Err(e),
        Ok(identity) => if !store.changesets.dom().contains(id) || store.changesets[id].status
            != "draft"@ {
            error::refused(
                ErrorCode::ChangesetChanged,
                "draft changeset is no longer writable"@,
            )
        } else if identity.revision != expected_revision || identity.operation_id
            != expected_operation_id || store::operations_after(
            store.operations,
            store.changesets[id].begin_operation_id,
        ).len() != expected_count {
            error::refused(
                ErrorCode::ChangesetChanged,
                "draft changeset changed during commit preflight"@,
            )
        } else {
            match store::meta_value(store, "changeset_frozen"@) {
                Some(value) => if value == id {
                    Ok(store)
                } else {
                    error::refused(
                        ErrorCode::ChangesetCorrupt,
                        "draft freeze marker belongs to another changeset"@,
                    )
                },
                None => Ok(
                    StoreView { meta: store.meta.insert("changeset_frozen"@, id), ..store },
                ),
            }
        },
    }
}

} // verus!
