//! Applying a batch of operations to a discussion.
use crate::discussion;
use crate::discussion::{
    discussion_active, discussion_error, discussion_text, invalidate_discussion, item_kind,
    BodyView, DiscussionBody, DiscussionItem, ItemView, Items, MAX_ID_BYTES,
};
use crate::error::{AppError, AppErrorView};
use crate::table;
use crate::table::{Record, Table};
use crate::text;
use crate::text::{byte_len, copy_opt, copy_texts, owned, same_opt, same_text, same_texts};
use vstd::prelude::*;

verus! {

/// One operation of a batch.
pub struct DiscussionOperation {
    pub op: String,
    pub id: Option<String>,
    pub parent: Option<String>,
    pub text: Option<String>,
    pub description: Option<String>,
    pub reason: Option<String>,
    pub refs: Vec<String>,
    pub ordinal: Option<i64>,
    pub confirmed: Option<bool>,
    pub message_id: Option<String>,
}

/// What an operation says.
#[verifier::ext_equal]
pub struct OperationView {
    pub op: Seq<char>,
    pub id: Option<Seq<char>>,
    pub parent: Option<Seq<char>>,
    pub text: Option<Seq<char>>,
    pub description: Option<Seq<char>>,
    pub reason: Option<Seq<char>>,
    pub refs: Seq<Seq<char>>,
    pub ordinal: Option<i64>,
    pub confirmed: Option<bool>,
    pub message_id: Option<Seq<char>>,
}

impl View for DiscussionOperation {
    type V = OperationView;

    open spec fn view(&self) -> OperationView {
        OperationView {
            op: self.op@,
            id: text::opt_text(self.id),
            parent: text::opt_text(self.parent),
            text: text::opt_text(self.text),
            description: text::opt_text(self.description),
            reason: text::opt_text(self.reason),
            refs: text::views(self.refs@),
            ordinal: self.ordinal,
            confirmed: self.confirmed,
            message_id: text::opt_text(self.message_id),
        }
    }
}

impl Record for DiscussionOperation {
    fn duplicate(&self) -> (r: Self) {
        DiscussionOperation {
            op: owned(self.op.as_str()),
            id: copy_opt(&self.id),
            parent: copy_opt(&self.parent),
            text: copy_opt(&self.text),
            description: copy_opt(&self.description),
            reason: copy_opt(&self.reason),
            refs: copy_texts(&self.refs),
            ordinal: self.ordinal,
            confirmed: self.confirmed,
            message_id: copy_opt(&self.message_id),
        }
    }

    fn same(&self, other: &Self) -> (r: bool) {
        let numbers = match (self.ordinal, other.ordinal) {
            (Some(a), Some(b)) => a == b,
            (None, None) => true,
            _ => false,
        };
        let flags = match (self.confirmed, other.confirmed) {
            (Some(a), Some(b)) => a == b,
            (None, None) => true,
            _ => false,
        };
        same_text(self.op.as_str(), other.op.as_str()) && same_opt(&self.id, &other.id) && same_opt(
            &self.parent,
            &other.parent,
        ) && same_opt(&self.text, &other.text) && same_opt(&self.description, &other.description)
            && same_opt(&self.reason, &other.reason) && same_texts(&self.refs, &other.refs)
            && numbers && flags && same_opt(&self.message_id, &other.message_id)
    }
}

// ---------------------------------------------------------------------------
// What one operation does
// ---------------------------------------------------------------------------

/// A discussion in the middle of a batch.
#[verifier::ext_equal]
pub struct StepView {
    pub body: BodyView,
    pub started: bool,
}

pub open spec fn refuse<T>(message: Seq<char>) -> Result<T, AppErrorView> {
    discussion::discussion_refused(message)
}

/// The message has been recorded with an item already.
pub open spec fn message_known(items: Items, message: Seq<char>) -> bool {
    exists|id: Seq<char>| #[trigger]
        items.dom().contains(id) && items[id].message_id == Some(message)
}

/// Some reference is to no item that can be referred to.
pub open spec fn has_bad_reference(items: Items, refs: Seq<Seq<char>>) -> bool {
    exists|k: int| 0 <= k < refs.len() && !discussion::is_current(items, #[trigger] refs[k])
}

/// There is an active summary.
pub open spec fn has_summary(items: Items) -> bool {
    exists|id: Seq<char>| #[trigger]
        items.dom().contains(id) && items[id].kind == "summary"@ && discussion::is_active(items[id])
}

/// Some active summary is stale.
pub open spec fn has_stale_summary(items: Items) -> bool {
    exists|id: Seq<char>| #[trigger]
        items.dom().contains(id) && items[id].kind == "summary"@ && discussion::is_active(items[id])
            && items[id].stale
}

/// Some active question has no active answer.
pub open spec fn has_unanswered(items: Items) -> bool {
    exists|id: Seq<char>| #[trigger]
        items.dom().contains(id) && discussion::is_open_question(items, id)
            && !discussion::is_answered(items, id)
}

/// Some active reply belongs to no question yet.
pub open spec fn has_loose_reply(items: Items) -> bool {
    exists|id: Seq<char>| #[trigger]
        items.dom().contains(id) && items[id].kind == "reply"@ && discussion::is_active(items[id])
}

/// The parent of an item, where it has one.
pub open spec fn parent_of(items: Items, id: Seq<char>) -> Option<Seq<char>> {
    if items.dom().contains(id) {
        items[id].parent
    } else {
        None
    }
}

/// An active summary refers to the item, or to an item whose parent it is.
pub open spec fn is_covered_by(items: Items, summary: Seq<char>, id: Seq<char>) -> bool {
    &&& items.dom().contains(summary)
    &&& items[summary].kind == "summary"@
    &&& discussion::is_active(items[summary])
    &&& exists|k: int|
        0 <= k < items[summary].refs.len() && (#[trigger] items[summary].refs[k] == id || parent_of(
            items,
            items[summary].refs[k],
        ) == Some(id))
}

pub open spec fn is_covered(items: Items, id: Seq<char>) -> bool {
    exists|summary: Seq<char>| #[trigger] is_covered_by(items, summary, id)
}

/// Some active question or gap is covered by no active summary.
pub open spec fn has_uncovered(items: Items) -> bool {
    exists|id: Seq<char>| #[trigger]
        items.dom().contains(id) && discussion::is_active(items[id]) && (items[id].kind
            == "question"@ || items[id].kind == "gap"@) && !is_covered(items, id)
}

/// What keeps a discussion from being closed, if anything.
pub open spec fn closing_obstacle(items: Items) -> Option<Seq<char>> {
    if !has_summary(items) || has_stale_summary(items) {
        Some("current summary required"@)
    } else if has_unanswered(items) {
        Some("unanswered question"@)
    } else if has_loose_reply(items) {
        Some("associate or withdraw unassigned replies before closing"@)
    } else if has_uncovered(items) {
        Some("summary must cover each active question and capture gap"@)
    } else {
        None
    }
}

/// A set of at most three seeds.
pub open spec fn seeds_of(
    first: Option<Seq<char>>,
    second: Option<Seq<char>>,
    third: Option<Seq<char>>,
) -> Set<Seq<char>> {
    Set::new(|id: Seq<char>| first == Some(id) || second == Some(id) || third == Some(id))
}

/// A new item as an operation makes it.
pub open spec fn fresh_item(
    op: OperationView,
    id: Seq<char>,
    said: Seq<char>,
    ordinal: int,
    revision: int,
) -> ItemView {
    ItemView {
        id,
        kind: op.op,
        original: said,
        text: said,
        parent: op.parent,
        refs: op.refs,
        stale: false,
        ordinal,
        revision: revision + 1,
        confirmed: false,
        withdrawn: false,
        message_id: op.message_id,
        delivery: "prepared"@,
    }
}

/// The items after an operation that adds one.
pub open spec fn with_new_item(
    items: Items,
    op: OperationView,
    id: Seq<char>,
    revision: int,
) -> Result<Items, AppErrorView> {
    let said = match op.text {
        Some(t) => t,
        None => Seq::empty(),
    };
    if !discussion::good_text(said) {
        discussion::text_needed()
    } else if text::byte_count(id) > MAX_ID_BYTES {
        refuse("item ID too long"@)
    } else if op.message_id is Some && message_known(items, op.message_id->0) {
        refuse("message already recorded; recover current state"@)
    } else if items.dom().contains(id) {
        refuse("item already exists"@)
    } else if (op.op == "answer"@ || op.op == "option"@) && !(op.parent is Some
        && items.dom().contains(op.parent->0) && items[op.parent->0].kind == "question"@) {
        refuse("parent question required"@)
    } else if op.op == "summary"@ && (op.refs.len() == 0 || has_bad_reference(items, op.refs)) {
        refuse("valid summary references required"@)
    } else if items.dom().len() > i64::MAX {
        refuse("discussion item limit exceeded; start a linked discussion"@)
    } else {
        let settled = if op.op == "summary"@ {
            items
        } else {
            discussion::invalidated(items, seeds_of(op.parent, None, None))
        };
        Ok(settled.insert(id, fresh_item(op, id, said, items.dom().len() as int, revision)))
    }
}

/// An item after it is moved.
pub open spec fn moved_item(item: ItemView, op: OperationView) -> Result<ItemView, AppErrorView> {
    if op.parent is Some && !(item.kind == "answer"@ || item.kind == "option"@ || item.kind
        == "reply"@) {
        refuse("only answers/options have parent questions"@)
    } else if op.ordinal is Some && op.ordinal->0 < 0 {
        refuse("negative ordinal"@)
    } else {
        Ok(
            ItemView {
                parent: if op.parent is Some {
                    op.parent
                } else {
                    item.parent
                },
                kind: if op.parent is Some && item.kind == "reply"@ {
                    "answer"@
                } else {
                    item.kind
                },
                ordinal: match op.ordinal {
                    Some(n) => n as int,
                    None => item.ordinal,
                },
                ..item
            },
        )
    }
}

/// An item after an operation that changes its standing.
pub open spec fn changed_item(
    item: ItemView,
    op: OperationView,
) -> Result<ItemView, AppErrorView> {
    if op.op == "withdraw"@ {
        Ok(ItemView { withdrawn: true, ..item })
    } else if op.op == "restore"@ {
        Ok(ItemView { withdrawn: false, ..item })
    } else if op.op == "move"@ {
        moved_item(item, op)
    } else if op.op == "confirm"@ {
        if item.kind != "summary"@ || item.stale {
            refuse("only current summaries can be confirmed"@)
        } else {
            match op.confirmed {
                Some(b) => Ok(ItemView { confirmed: b, ..item }),
                None => refuse("confirmed boolean required"@),
            }
        }
    } else if item.kind != "question"@ || op.message_id is None {
        refuse("question and host message evidence required"@)
    } else {
        Ok(
            ItemView {
                delivery: "reported_delivered"@,
                message_id: op.message_id,
                ..item
            },
        )
    }
}

/// The items after an operation that changes the standing of one.
pub open spec fn with_changed_item(
    items: Items,
    op: OperationView,
    id: Seq<char>,
    revision: int,
) -> Result<Items, AppErrorView> {
    if !discussion::good_opt(op.reason) {
        discussion::text_needed()
    } else if op.parent is Some && !discussion::is_open_question(items, op.parent->0) {
        refuse("active parent question required"@)
    } else if !items.dom().contains(id) {
        refuse("item missing"@)
    } else {
        match changed_item(items[id], op) {
            Err(e) => Err(e),
            Ok(item) => {
                let next = items.insert(id, ItemView { revision: revision + 1, ..item });
                if op.op == "confirm"@ || op.op == "delivery"@ {
                    Ok(next)
                } else {
                    Ok(
                        discussion::invalidated(
                            next,
                            seeds_of(Some(id), items[id].parent, op.parent),
                        ),
                    )
                }
            },
        }
    }
}

/// The items after an operation that rewords one.
pub open spec fn with_revised_item(
    items: Items,
    op: OperationView,
    id: Seq<char>,
    revision: int,
) -> Result<Items, AppErrorView> {
    let said = match op.text {
        Some(t) => t,
        None => Seq::empty(),
    };
    if !discussion::good_text(said) || !discussion::good_opt(op.reason) {
        discussion::text_needed()
    } else if !items.dom().contains(id) {
        refuse("item missing"@)
    } else {
        let item = items[id];
        let summary = item.kind == "summary"@;
        if summary && op.refs.len() == 0 {
            refuse("summary revision requires references"@)
        } else {
            let next = items.insert(
                id,
                ItemView {
                    text: said,
                    confirmed: false,
                    revision: revision + 1,
                    refs: if summary {
                        op.refs
                    } else {
                        item.refs
                    },
                    stale: if summary {
                        false
                    } else {
                        item.stale
                    },
                    ..item
                },
            );
            if has_bad_reference(next, op.refs) {
                refuse("unknown reference"@)
            } else {
                Ok(discussion::invalidated(next, seeds_of(Some(id), item.parent, None)))
            }
        }
    }
}

pub open spec fn is_change(op: Seq<char>) -> bool {
    op == "withdraw"@ || op == "restore"@ || op == "move"@ || op == "confirm"@ || op == "delivery"@
}

/// The items after an operation on one of them.
pub open spec fn with_item_operation(
    items: Items,
    op: OperationView,
    revision: int,
) -> Result<Items, AppErrorView> {
    if !discussion::good_opt(op.id) {
        discussion::text_needed()
    } else if discussion::is_item_kind(op.op) {
        with_new_item(items, op, op.id->0, revision)
    } else if is_change(op.op) {
        with_changed_item(items, op, op.id->0, revision)
    } else if op.op == "revise"@ {
        with_revised_item(items, op, op.id->0, revision)
    } else {
        refuse("unsupported operation"@)
    }
}

/// The discussion after one more operation.
pub open spec fn with_operation(
    step: StepView,
    op: OperationView,
    revision: int,
) -> Result<StepView, AppErrorView> {
    let body = step.body;
    if op.op == "start"@ {
        if step.started {
            refuse("already started"@)
        } else if !discussion::good_opt(op.text) {
            discussion::text_needed()
        } else {
            Ok(
                StepView {
                    body: BodyView {
                        title: op.text->0,
                        description: match op.description {
                            Some(d) => d,
                            None => Seq::empty(),
                        },
                        ..body
                    },
                    started: true,
                },
            )
        }
    } else if !step.started {
        refuse("start must be first"@)
    } else if op.op == "resume"@ {
        if !discussion::good_opt(op.reason) {
            discussion::text_needed()
        } else {
            Ok(StepView { body: BodyView { state: "active"@, ..body }, ..step })
        }
    } else if body.state != "active"@ {
        refuse("operation after terminal transition"@)
    } else if op.op == "pause"@ {
        if !discussion::good_opt(op.reason) {
            discussion::text_needed()
        } else {
            Ok(StepView { body: BodyView { state: "paused"@, ..body }, ..step })
        }
    } else if op.op == "metadata"@ {
        if !discussion::good_opt(op.reason) || op.text is Some && !discussion::good_opt(op.text) {
            discussion::text_needed()
        } else {
            Ok(
                StepView {
                    body: BodyView {
                        title: match op.text {
                            Some(t) => t,
                            None => body.title,
                        },
                        description: match op.description {
                            Some(d) => d,
                            None => body.description,
                        },
                        ..body
                    },
                    ..step
                },
            )
        }
    } else if op.op == "close"@ {
        match closing_obstacle(body.items) {
            Some(obstacle) => refuse(obstacle),
            None => Ok(StepView { body: BodyView { state: "closed"@, ..body }, ..step }),
        }
    } else {
        match with_item_operation(body.items, op, revision) {
            Ok(items) => Ok(StepView { body: BodyView { items, ..body }, ..step }),
            Err(e) => Err(e),
        }
    }
}

/// The discussion after the first `count` operations.
pub open spec fn with_operations(
    start: StepView,
    ops: Seq<OperationView>,
    revision: int,
    count: nat,
) -> Result<StepView, AppErrorView>
    decreases count,
{
    if count == 0 || count > ops.len() {
        Ok(start)
    } else {
        match with_operations(start, ops, revision, (count - 1) as nat) {
            Err(e) => Err(e),
            Ok(step) => with_operation(step, ops[count - 1], revision),
        }
    }
}

// ---------------------------------------------------------------------------
// Questions about the items
// ---------------------------------------------------------------------------

fn knows_message(items: &Table<String, DiscussionItem>, message: &str) -> (r: bool)
    ensures
        r == message_known(items@, message@),
{
    let n = items.len();
    let ghost keys = items.keys();
    let mut i: usize = 0;
    while i < n
        invariant
            i <= n == keys.len(),
            keys == items.keys(),
            forall|j: int|
                0 <= j < i ==> items@[#[trigger] keys[j]].message_id != Some(message@),
        decreases n - i,
    {
        let item = items.value_at(i);
        match &item.message_id {
            Some(known) => {
                if same_text(known.as_str(), message) {
                    assert(items@.dom().contains(keys[i as int]));
                    return true;
                }
            },
            None => {},
        }
        i += 1;
    }
    proof {
        lemma_none_of(items, |item: ItemView| item.message_id == Some(message@));
    }
    false
}

/// A property that no listed item has, no item has.
proof fn lemma_none_of(items: &Table<String, DiscussionItem>, p: spec_fn(ItemView) -> bool)
    requires
        table::lists::<String>(items.keys(), items@.dom()),
        forall|j: int| 0 <= j < items.keys().len() ==> !p(items@[#[trigger] items.keys()[j]]),
    ensures
        forall|id: Seq<char>| #[trigger] items@.dom().contains(id) ==> !p(items@[id]),
{
    assert forall|id: Seq<char>| #[trigger] items@.dom().contains(id) implies !p(items@[id]) by {
        assert(items.keys().to_set().contains(id));
        let j = items.keys().index_of(id);
        assert(!p(items@[items.keys()[j]]));
    }
}

fn is_current_item(items: &Table<String, DiscussionItem>, id: &String) -> (r: bool)
    ensures
        r == discussion::is_current(items@, id@),
{
    match items.get(id) {
        Some(item) => discussion_active(item) && !item.stale,
        None => false,
    }
}

fn finds_bad_reference(items: &Table<String, DiscussionItem>, refs: &Vec<String>) -> (r: bool)
    ensures
        r == has_bad_reference(items@, text::views(refs@)),
{
    let mut k: usize = 0;
    while k < refs.len()
        invariant
            k <= refs@.len(),
            forall|j: int|
                0 <= j < k ==> discussion::is_current(items@, #[trigger] text::views(refs@)[j]),
        decreases refs@.len() - k,
    {
        assert(text::views(refs@)[k as int] == refs@[k as int]@);
        if !is_current_item(items, &refs[k]) {
            return true;
        }
        k += 1;
    }
    false
}

/// Whether there is an active summary, and whether one of them is stale.
fn survey_summaries(items: &Table<String, DiscussionItem>) -> (r: (bool, bool))
    ensures
        r.0 == has_summary(items@),
        r.1 == has_stale_summary(items@),
{
    let n = items.len();
    let ghost keys = items.keys();
    let mut any: bool = false;
    let mut stale: bool = false;
    let mut i: usize = 0;
    while i < n
        invariant
            i <= n == keys.len(),
            keys == items.keys(),
            any ==> has_summary(items@),
            stale ==> has_stale_summary(items@),
            !any ==> forall|j: int|
                0 <= j < i ==> !(items@[#[trigger] keys[j]].kind == "summary"@
                    && discussion::is_active(items@[keys[j]])),
            !stale ==> forall|j: int|
                0 <= j < i ==> !(items@[#[trigger] keys[j]].kind == "summary"@
                    && discussion::is_active(items@[keys[j]]) && items@[keys[j]].stale),
        decreases n - i,
    {
        let item = items.value_at(i);
        if same_text(item.kind.as_str(), "summary") && discussion_active(item) {
            assert(items@.dom().contains(keys[i as int]));
            any = true;
            if item.stale {
                stale = true;
            }
        }
        i += 1;
    }
    proof {
        if !any {
            lemma_none_of(
                items,
                |item: ItemView| item.kind == "summary"@ && discussion::is_active(item),
            );
        }
        if !stale {
            lemma_none_of(
                items,
                |item: ItemView|
                    item.kind == "summary"@ && discussion::is_active(item) && item.stale,
            );
        }
    }
    (any, stale)
}

/// Whether a question has an active answer.
pub fn has_answer(items: &Table<String, DiscussionItem>, question: &str) -> (r: bool)
    ensures
        r == discussion::is_answered(items@, question@),
{
    let n = items.len();
    let ghost keys = items.keys();
    let mut i: usize = 0;
    while i < n
        invariant
            i <= n == keys.len(),
            keys == items.keys(),
            forall|j: int|
                0 <= j < i ==> !(discussion::is_active(items@[#[trigger] keys[j]])
                    && items@[keys[j]].kind == "answer"@ && items@[keys[j]].parent == Some(
                    question@,
                )),
        decreases n - i,
    {
        let item = items.value_at(i);
        if discussion_active(item) && same_text(item.kind.as_str(), "answer") {
            match &item.parent {
                Some(parent) => {
                    if same_text(parent.as_str(), question) {
                        assert(items@.dom().contains(keys[i as int]));
                        return true;
                    }
                },
                None => {},
            }
        }
        i += 1;
    }
    proof {
        lemma_none_of(
            items,
            |item: ItemView|
                discussion::is_active(item) && item.kind == "answer"@ && item.parent == Some(
                    question@,
                ),
        );
    }
    false
}

fn finds_unanswered(items: &Table<String, DiscussionItem>) -> (r: bool)
    ensures
        r == has_unanswered(items@),
{
    let n = items.len();
    let ghost keys = items.keys();
    let mut i: usize = 0;
    while i < n
        invariant
            i <= n == keys.len(),
            keys == items.keys(),
            forall|j: int|
                0 <= j < i ==> !(discussion::is_open_question(items@, #[trigger] keys[j])
                    && !discussion::is_answered(items@, keys[j])),
        decreases n - i,
    {
        let id = items.key_at(i);
        let item = items.value_at(i);
        if same_text(item.kind.as_str(), "question") && discussion_active(item) && !has_answer(
            items,
            id.as_str(),
        ) {
            assert(items@.dom().contains(id@));
            return true;
        }
        i += 1;
    }
    proof {
        assert forall|id: Seq<char>| #[trigger] items@.dom().contains(id) implies !(
        discussion::is_open_question(items@, id) && !discussion::is_answered(items@, id)) by {
            assert(keys.to_set().contains(id));
            let j = keys.index_of(id);
            assert(!(discussion::is_open_question(items@, keys[j]) && !discussion::is_answered(
                items@,
                keys[j],
            )));
        }
    }
    false
}

fn finds_loose_reply(items: &Table<String, DiscussionItem>) -> (r: bool)
    ensures
        r == has_loose_reply(items@),
{
    let n = items.len();
    let ghost keys = items.keys();
    let mut i: usize = 0;
    while i < n
        invariant
            i <= n == keys.len(),
            keys == items.keys(),
            forall|j: int|
                0 <= j < i ==> !(items@[#[trigger] keys[j]].kind == "reply"@
                    && discussion::is_active(items@[keys[j]])),
        decreases n - i,
    {
        let item = items.value_at(i);
        if discussion_active(item) && same_text(item.kind.as_str(), "reply") {
            assert(items@.dom().contains(keys[i as int]));
            return true;
        }
        i += 1;
    }
    proof {
        lemma_none_of(
            items,
            |item: ItemView| item.kind == "reply"@ && discussion::is_active(item),
        );
    }
    false
}

/// Whether an active summary covers the item.
fn finds_cover(items: &Table<String, DiscussionItem>, id: &str) -> (r: bool)
    ensures
        r == is_covered(items@, id@),
{
    let n = items.len();
    let ghost keys = items.keys();
    let mut i: usize = 0;
    while i < n
        invariant
            i <= n == keys.len(),
            keys == items.keys(),
            forall|j: int| 0 <= j < i ==> !is_covered_by(items@, #[trigger] keys[j], id@),
        decreases n - i,
    {
        let item = items.value_at(i);
        if discussion_active(item) && same_text(item.kind.as_str(), "summary") {
            let ghost refs = items@[keys[i as int]].refs;
            let mut k: usize = 0;
            while k < item.refs.len()
                invariant
                    k <= item.refs@.len(),
                    forall|x: int|
                        0 <= x < k ==> !(#[trigger] refs[x] == id@ || parent_of(items@, refs[x])
                            == Some(id@)),
                decreases item.refs@.len() - k,
            {
                assert(refs[k as int] == item.refs@[k as int]@);
                let direct = same_text(item.refs[k].as_str(), id);
                let through = match items.get(&item.refs[k]) {
                    Some(target) => match &target.parent {
                        Some(parent) => same_text(parent.as_str(), id),
                        None => false,
                    },
                    None => false,
                };
                if direct || through {
                    assert(is_covered_by(items@, keys[i as int], id@));
                    return true;
                }
                k += 1;
            }
        }
        assert(!is_covered_by(items@, keys[i as int], id@));
        i += 1;
    }
    proof {
        assert forall|summary: Seq<char>| !is_covered_by(items@, summary, id@) by {
            if items@.dom().contains(summary) {
                assert(keys.to_set().contains(summary));
                let j = keys.index_of(summary);
                assert(!is_covered_by(items@, keys[j], id@));
            }
        }
    }
    false
}

fn finds_uncovered(items: &Table<String, DiscussionItem>) -> (r: bool)
    ensures
        r == has_uncovered(items@),
{
    let n = items.len();
    let ghost keys = items.keys();
    let mut i: usize = 0;
    while i < n
        invariant
            i <= n == keys.len(),
            keys == items.keys(),
            forall|j: int|
                0 <= j < i ==> !(discussion::is_active(items@[#[trigger] keys[j]]) && (
                items@[keys[j]].kind == "question"@ || items@[keys[j]].kind == "gap"@)
                    && !is_covered(items@, keys[j])),
        decreases n - i,
    {
        let id = items.key_at(i);
        let item = items.value_at(i);
        if discussion_active(item) && (same_text(item.kind.as_str(), "question") || same_text(
            item.kind.as_str(),
            "gap",
        )) && !finds_cover(items, id.as_str()) {
            assert(items@.dom().contains(id@));
            return true;
        }
        i += 1;
    }
    proof {
        assert forall|id: Seq<char>| #[trigger] items@.dom().contains(id) implies !(
        discussion::is_active(items@[id]) && (items@[id].kind == "question"@ || items@[id].kind
            == "gap"@) && !is_covered(items@, id)) by {
            assert(keys.to_set().contains(id));
            let j = keys.index_of(id);
            assert(keys[j] == id);
        }
    }
    false
}

/// What keeps a discussion from being closed, if anything.
fn find_obstacle(items: &Table<String, DiscussionItem>) -> (r: Option<&'static str>)
    ensures
        text::opt_view(r) == closing_obstacle(items@),
{
    let (any, stale) = survey_summaries(items);
    if !any || stale {
        return Some("current summary required");
    }
    if finds_unanswered(items) {
        return Some("unanswered question");
    }
    if finds_loose_reply(items) {
        return Some("associate or withdraw unassigned replies before closing");
    }
    if finds_uncovered(items) {
        return Some("summary must cover each active question and capture gap");
    }
    None
}

// ---------------------------------------------------------------------------
// Applying operations
// ---------------------------------------------------------------------------

fn opt_str<'a>(value: &'a Option<String>) -> (r: Option<&'a str>)
    ensures
        text::opt_view(r) == text::opt_text(*value),
{
    match value {
        Some(s) => Some(s.as_str()),
        None => None,
    }
}

/// The identifiers of at most three seeds.
fn seed_list(first: Option<&str>, second: &Option<String>, third: &Option<String>) -> (r: Vec<
    String,
>)
    ensures
        text::views(r@).to_set() == seeds_of(
            text::opt_view(first),
            text::opt_text(*second),
            text::opt_text(*third),
        ),
{
    let mut out: Vec<String> = Vec::new();
    match first {
        Some(s) => {
            out.push(owned(s));
        },
        None => {},
    }
    match second {
        Some(s) => {
            out.push(owned(s.as_str()));
        },
        None => {},
    }
    match third {
        Some(s) => {
            out.push(owned(s.as_str()));
        },
        None => {},
    }
    proof {
        let all = text::views(out@);
        let goal = seeds_of(
            text::opt_view(first),
            text::opt_text(*second),
            text::opt_text(*third),
        );
        assert forall|id: Seq<char>| all.to_set().contains(id) == goal.contains(id) by {
            if all.contains(id) {
                let k = all.index_of(id);
                assert(all[k] == out@[k]@);
            }
            if first is Some && first->0@ == id {
                assert(all[0] == id);
            }
            if second is Some && second->0@ == id {
                assert(all[if first is Some {
                    1int
                } else {
                    0int
                }] == id);
            }
            if third is Some && third->0@ == id {
                assert(all[all.len() - 1] == id);
            }
        }
        assert(all.to_set() =~= goal);
    }
    out
}

/// Adds an item.
fn add_item(
    items: &mut Table<String, DiscussionItem>,
    op: &DiscussionOperation,
    id: &str,
    revision: i64,
) -> (r: Result<(), AppError>)
    requires
        revision < i64::MAX,
    ensures
        match with_new_item(old(items)@, op@, id@, revision as int) {
            Ok(after) => r is Ok && final(items)@ == after,
            Err(e) => r matches Err(got) && got@ == e,
        },
{
    let none = String::new();
    let said = match &op.text {
        Some(t) => t.as_str(),
        None => none.as_str(),
    };
    if let Err(e) = discussion_text(Some(said)) {
        return Err(e);
    }
    if byte_len(id) > MAX_ID_BYTES {
        return Err(discussion_error("item ID too long"));
    }
    match &op.message_id {
        Some(message) => {
            if knows_message(items, message.as_str()) {
                return Err(
                    discussion_error("message already recorded; recover current state"),
                );
            }
        },
        None => {},
    }
    let key = owned(id);
    if items.has(&key) {
        return Err(discussion_error("item already exists"));
    }
    if same_text(op.op.as_str(), "answer") || same_text(op.op.as_str(), "option") {
        let question = match &op.parent {
            Some(parent) => match items.get(parent) {
                Some(found) => same_text(found.kind.as_str(), "question"),
                None => false,
            },
            None => false,
        };
        if !question {
            return Err(discussion_error("parent question required"));
        }
    }
    let summary = same_text(op.op.as_str(), "summary");
    assert(text::views(op.refs@).len() == op.refs@.len());
    if summary && (op.refs.len() == 0 || finds_bad_reference(items, &op.refs)) {
        return Err(discussion_error("valid summary references required"));
    }
    let n = items.len();
    if n as u64 > 0x7fff_ffff_ffff_ffff {
        return Err(
            discussion_error("discussion item limit exceeded; start a linked discussion"),
        );
    }
    if !summary {
        let seeds = seed_list(None, &op.parent, &None);
        assert(seeds_of(None, text::opt_text(op.parent), None) =~= seeds_of(
            text::opt_text(op.parent),
            None,
            None,
        ));
        invalidate_discussion(items, &seeds);
    }
    let item = DiscussionItem {
        id: owned(id),
        kind: owned(op.op.as_str()),
        original: owned(said),
        text: owned(said),
        parent: copy_opt(&op.parent),
        refs: copy_texts(&op.refs),
        stale: false,
        ordinal: n as i64,
        revision: revision + 1,
        confirmed: false,
        withdrawn: false,
        message_id: copy_opt(&op.message_id),
        delivery: owned("prepared"),
    };
    items.put(key, item);
    Ok(())
}

/// Changes the standing of an item.
fn change_item(item: &mut DiscussionItem, op: &DiscussionOperation) -> (r: Result<(), AppError>)
    ensures
        match changed_item(old(item)@, op@) {
            Ok(after) => r is Ok && final(item)@ == after,
            Err(e) => r matches Err(got) && got@ == e,
        },
{
    let name = op.op.as_str();
    if same_text(name, "withdraw") {
        item.withdrawn = true;
        return Ok(());
    }
    if same_text(name, "restore") {
        item.withdrawn = false;
        return Ok(());
    }
    if same_text(name, "move") {
        match &op.parent {
            Some(parent) => {
                let reply = same_text(item.kind.as_str(), "reply");
                if !same_text(item.kind.as_str(), "answer") && !same_text(
                    item.kind.as_str(),
                    "option",
                ) && !reply {
                    return Err(discussion_error("only answers/options have parent questions"));
                }
                item.parent = Some(owned(parent.as_str()));
                if reply {
                    item.kind = owned("answer");
                }
            },
            None => {},
        }
        match op.ordinal {
            Some(ordinal) => {
                if ordinal < 0 {
                    return Err(discussion_error("negative ordinal"));
                }
                item.ordinal = ordinal;
            },
            None => {},
        }
        return Ok(());
    }
    if same_text(name, "confirm") {
        if !same_text(item.kind.as_str(), "summary") || item.stale {
            return Err(discussion_error("only current summaries can be confirmed"));
        }
        return match op.confirmed {
            Some(confirmed) => {
                item.confirmed = confirmed;
                Ok(())
            },
            None => Err(discussion_error("confirmed boolean required")),
        };
    }
    if !same_text(item.kind.as_str(), "question") || op.message_id.is_none() {
        return Err(discussion_error("question and host message evidence required"));
    }
    item.delivery = owned("reported_delivered");
    item.message_id = copy_opt(&op.message_id);
    Ok(())
}

/// Changes the standing of one of the items.
fn apply_change(
    items: &mut Table<String, DiscussionItem>,
    op: &DiscussionOperation,
    id: &str,
    revision: i64,
) -> (r: Result<(), AppError>)
    requires
        revision < i64::MAX,
    ensures
        match with_changed_item(old(items)@, op@, id@, revision as int) {
            Ok(after) => r is Ok && final(items)@ == after,
            Err(e) => r matches Err(got) && got@ == e,
        },
{
    if let Err(e) = discussion_text(opt_str(&op.reason)) {
        return Err(e);
    }
    match &op.parent {
        Some(parent) => {
            let open = match items.get(parent) {
                Some(found) => same_text(found.kind.as_str(), "question") && discussion_active(
                    found,
                ),
                None => false,
            };
            if !open {
                return Err(discussion_error("active parent question required"));
            }
        },
        None => {},
    }
    let key = owned(id);
    let mut item = match items.get(&key) {
        Some(item) => item.duplicate(),
        None => {
            return Err(discussion_error("item missing"));
        },
    };
    let old_parent = copy_opt(&item.parent);
    if let Err(e) = change_item(&mut item, op) {
        return Err(e);
    }
    item.revision = revision + 1;
    items.put(key, item);
    if !same_text(op.op.as_str(), "confirm") && !same_text(op.op.as_str(), "delivery") {
        let seeds = seed_list(Some(id), &old_parent, &op.parent);
        invalidate_discussion(items, &seeds);
    }
    Ok(())
}

/// Rewords an item.
fn revise_item(
    items: &mut Table<String, DiscussionItem>,
    op: &DiscussionOperation,
    id: &str,
    revision: i64,
) -> (r: Result<(), AppError>)
    requires
        revision < i64::MAX,
    ensures
        match with_revised_item(old(items)@, op@, id@, revision as int) {
            Ok(after) => r is Ok && final(items)@ == after,
            Err(e) => r matches Err(got) && got@ == e,
        },
{
    let none = String::new();
    let said = match &op.text {
        Some(t) => t.as_str(),
        None => none.as_str(),
    };
    if let Err(e) = discussion_text(Some(said)) {
        return Err(e);
    }
    if let Err(e) = discussion_text(opt_str(&op.reason)) {
        return Err(e);
    }
    let key = owned(id);
    let mut item = match items.get(&key) {
        Some(item) => item.duplicate(),
        None => {
            return Err(discussion_error("item missing"));
        },
    };
    let parent = copy_opt(&item.parent);
    item.text = owned(said);
    item.confirmed = false;
    item.revision = revision + 1;
    assert(text::views(op.refs@).len() == op.refs@.len());
    if same_text(item.kind.as_str(), "summary") {
        if op.refs.len() == 0 {
            return Err(discussion_error("summary revision requires references"));
        }
        item.refs = copy_texts(&op.refs);
        item.stale = false;
    }
    items.put(key, item);
    if finds_bad_reference(items, &op.refs) {
        return Err(discussion_error("unknown reference"));
    }
    let seeds = seed_list(Some(id), &parent, &None);
    invalidate_discussion(items, &seeds);
    Ok(())
}

/// Applies an operation on one of the items.
fn apply_item_operation(
    items: &mut Table<String, DiscussionItem>,
    op: &DiscussionOperation,
    revision: i64,
) -> (r: Result<(), AppError>)
    requires
        revision < i64::MAX,
    ensures
        match with_item_operation(old(items)@, op@, revision as int) {
            Ok(after) => r is Ok && final(items)@ == after,
            Err(e) => r matches Err(got) && got@ == e,
        },
{
    let id = match discussion_text(opt_str(&op.id)) {
        Ok(id) => id,
        Err(e) => {
            return Err(e);
        },
    };
    let name = op.op.as_str();
    if item_kind(name) {
        add_item(items, op, id, revision)
    } else if same_text(name, "withdraw") || same_text(name, "restore") || same_text(name, "move")
        || same_text(name, "confirm") || same_text(name, "delivery") {
        apply_change(items, op, id, revision)
    } else if same_text(name, "revise") {
        revise_item(items, op, id, revision)
    } else {
        Err(discussion_error("unsupported operation"))
    }
}

/// Applies one operation of a batch to the document of a discussion.
pub fn apply_operation(
    body: &mut DiscussionBody,
    started: &mut bool,
    op: &DiscussionOperation,
    revision: i64,
) -> (r: Result<(), AppError>)
    requires
        revision < i64::MAX,
    ensures
        match with_operation(
            (StepView { body: old(body)@, started: *old(started) }),
            op@,
            revision as int,
        ) {
            Ok(after) => r is Ok && after == (StepView {
                body: final(body)@,
                started: *final(started),
            }),
            Err(e) => r matches Err(got) && got@ == e,
        },
{
    let name = op.op.as_str();
    if same_text(name, "start") {
        if *started {
            return Err(discussion_error("already started"));
        }
        match discussion_text(opt_str(&op.text)) {
            Ok(title) => {
                body.title = owned(title);
            },
            Err(e) => {
                return Err(e);
            },
        }
        body.description = match &op.description {
            Some(d) => owned(d.as_str()),
            None => String::new(),
        };
        *started = true;
        return Ok(());
    }
    if !*started {
        return Err(discussion_error("start must be first"));
    }
    if same_text(name, "resume") {
        if let Err(e) = discussion_text(opt_str(&op.reason)) {
            return Err(e);
        }
        body.state = owned("active");
        return Ok(());
    }
    if !same_text(body.state.as_str(), "active") {
        return Err(discussion_error("operation after terminal transition"));
    }
    if same_text(name, "pause") {
        if let Err(e) = discussion_text(opt_str(&op.reason)) {
            return Err(e);
        }
        body.state = owned("paused");
        return Ok(());
    }
    if same_text(name, "metadata") {
        if let Err(e) = discussion_text(opt_str(&op.reason)) {
            return Err(e);
        }
        match &op.text {
            Some(title) => {
                if let Err(e) = discussion_text(Some(title.as_str())) {
                    return Err(e);
                }
                body.title = owned(title.as_str());
            },
            None => {},
        }
        match &op.description {
            Some(description) => {
                body.description = owned(description.as_str());
            },
            None => {},
        }
        return Ok(());
    }
    if same_text(name, "close") {
        match find_obstacle(&body.items) {
            Some(obstacle) => {
                return Err(discussion_error(obstacle));
            },
            None => {},
        }
        body.state = owned("closed");
        return Ok(());
    }
    apply_item_operation(&mut body.items, op, revision)
}

} // verus!
