//! Reading discussions: an overview, the history, a page of items, or all of it.
use crate::digest;
use crate::digest::hash_content;
use crate::discussion;
use crate::discussion::{
    discussion_active, discussion_error, BodyView, DiscussionBody, DiscussionItem, Items,
};
use crate::discussion_apply::{has_answer, DiscussionOperation, OperationView};
use crate::discussion_book;
use crate::discussion_book::{
    bounded_hook_text, normalize_agent_context, BookView, DiscussionBook, DiscussionInput,
    DiscussionRevision, InputView, RevisionView,
};
use crate::error;
use crate::error::{AppError, AppErrorView, ErrorCode};
use crate::paging;
use crate::paging::{copy_page, page_bounds, Rank, RankView};
use crate::table;
use crate::table::{Pair, PairView, Record, Table};
use crate::text;
use crate::text::{head_text, join2, join3, owned, same_text};
use vstd::prelude::*;

verus! {

/// How many pending questions an overview names.
pub const PENDING_SHOWN: usize = 20;

/// How many pending questions an overview quotes.
pub const PENDING_QUOTED: usize = 3;

/// The largest page.
pub const MAX_PAGE: usize = 100;

/// The largest offset.
pub const MAX_OFFSET: u64 = 0x7fff_ffff_ffff_ffff;

// ---------------------------------------------------------------------------
// The order of items
// ---------------------------------------------------------------------------

/// The places of all items.
pub open spec fn ranks(items: Items) -> Set<RankView> {
    Set::new(
        |rank: RankView| items.dom().contains(rank.id) && items[rank.id].ordinal == rank.ordinal,
    )
}

/// The items on a page, in the order of their ordinals.
pub open spec fn items_on_page(items: Items, offset: nat, limit: nat) -> Items {
    let page = paging::page_of(table::ordered::<Rank>(ranks(items)), offset, limit);
    items.restrict(
        Set::new(|id: Seq<char>| exists|k: int| 0 <= k < page.len() && (#[trigger] page[k]).id == id),
    )
}

// ---------------------------------------------------------------------------
// The overview
// ---------------------------------------------------------------------------

/// The open questions without an answer, in ascending order of their identifiers.
pub open spec fn pending(items: Items) -> Seq<Seq<char>> {
    text::sorted(
        Set::new(
            |id: Seq<char>|
                discussion::is_open_question(items, id) && !discussion::is_answered(items, id),
        ),
    )
}

/// The item with the highest revision among the first `count`; the last of equals.
pub open spec fn latest(items: Items, keys: Seq<Seq<char>>, count: nat) -> Option<Seq<char>>
    decreases count,
{
    if count == 0 || count > keys.len() {
        None
    } else {
        match latest(items, keys, (count - 1) as nat) {
            None => Some(keys[count - 1]),
            Some(best) => if items[keys[count - 1]].revision >= items[best].revision {
                Some(keys[count - 1])
            } else {
                Some(best)
            },
        }
    }
}

/// How many of the first `count` items are active replies.
pub open spec fn loose_replies(items: Items, keys: Seq<Seq<char>>, count: nat) -> nat
    decreases count,
{
    if count == 0 || count > keys.len() {
        0
    } else {
        loose_replies(items, keys, (count - 1) as nat) + (if items[keys[count - 1]].kind
            == "reply"@ && discussion::is_active(items[keys[count - 1]]) {
            1nat
        } else {
            0nat
        })
    }
}

/// An item quoted in an overview.
pub struct QuotedItem {
    pub id: String,
    pub kind: String,
    pub text: String,
}

#[verifier::ext_equal]
pub struct QuotedView {
    pub id: Seq<char>,
    pub kind: Seq<char>,
    pub text: Seq<char>,
}

impl View for QuotedItem {
    type V = QuotedView;

    open spec fn view(&self) -> QuotedView {
        QuotedView { id: self.id@, kind: self.kind@, text: self.text@ }
    }
}

/// An overview of a discussion.
pub struct CurrentDiscussion {
    pub id: String,
    pub title: String,
    pub description: String,
    pub revision: i64,
    pub state: String,
    pub pending: Vec<String>,
    pub pending_total: usize,
    pub pending_questions: Vec<Pair>,
    pub last_item: Option<QuotedItem>,
    pub unassigned: usize,
}

#[verifier::ext_equal]
pub struct CurrentView {
    pub id: Seq<char>,
    pub title: Seq<char>,
    pub description: Seq<char>,
    pub revision: int,
    pub state: Seq<char>,
    pub pending: Seq<Seq<char>>,
    pub pending_total: nat,
    pub pending_questions: Seq<PairView>,
    pub last_item: Option<QuotedView>,
    pub unassigned: nat,
}

impl View for CurrentDiscussion {
    type V = CurrentView;

    open spec fn view(&self) -> CurrentView {
        CurrentView {
            id: self.id@,
            title: self.title@,
            description: self.description@,
            revision: self.revision as int,
            state: self.state@,
            pending: text::views(self.pending@),
            pending_total: self.pending_total as nat,
            pending_questions: text::views(self.pending_questions@),
            last_item: text::opt_view(self.last_item),
            unassigned: self.unassigned as nat,
        }
    }
}

/// The overview of a discussion.
pub open spec fn overview(body: BodyView, id: Seq<char>) -> CurrentView {
    let keys = table::ordered::<String>(body.items.dom());
    let waiting = pending(body.items);
    CurrentView {
        id,
        title: discussion_book::hook_text(body.title),
        description: discussion_book::hook_text(body.description),
        revision: body.revision,
        state: body.state,
        pending: paging::page_of(waiting, 0, PENDING_SHOWN as nat),
        pending_total: waiting.len(),
        pending_questions: paging::page_of(waiting, 0, PENDING_QUOTED as nat).map_values(
            |q: Seq<char>| table::pair(q, discussion_book::hook_text(body.items[q].text)),
        ),
        last_item: match latest(body.items, keys, keys.len()) {
            Some(last) => Some(
                QuotedView {
                    id: body.items[last].id,
                    kind: body.items[last].kind,
                    text: discussion_book::hook_text(body.items[last].text),
                },
            ),
            None => None,
        },
        unassigned: loose_replies(body.items, keys, keys.len()),
    }
}

/// The open questions without an answer.
fn list_pending(items: &Table<String, DiscussionItem>) -> (r: Vec<String>)
    ensures
        text::views(r@) == pending(items@),
        forall|k: int| 0 <= k < r@.len() ==> items@.dom().contains(#[trigger] r@[k]@),
{
    let n = items.len();
    let ghost keys = items.keys();
    let mut out: Vec<String> = Vec::new();
    let mut i: usize = 0;
    while i < n
        invariant
            i <= n == keys.len(),
            keys == items.keys(),
            text::ascending(text::views(out@)),
            forall|t: Seq<char>|
                #[trigger] text::views(out@).to_set().contains(t) == (keys.take(
                    i as int,
                ).contains(t) && discussion::is_open_question(items@, t)
                    && !discussion::is_answered(items@, t)),
        decreases n - i,
    {
        let id = items.key_at(i);
        let item = items.value_at(i);
        let ghost known = text::views(out@).to_set();
        if same_text(item.kind.as_str(), "question") && discussion_active(item) && !has_answer(
            items,
            id.as_str(),
        ) {
            text::add_text(&mut out, id.as_str());
        }
        proof {
            assert(keys.take(i + 1) =~= keys.take(i as int).push(id@));
            assert forall|t: Seq<char>|
                #[trigger] text::views(out@).to_set().contains(t) == (keys.take(i + 1).contains(t)
                    && discussion::is_open_question(items@, t) && !discussion::is_answered(
                    items@,
                    t,
                )) by {
                assert(known.contains(t) == (keys.take(i as int).contains(t)
                    && discussion::is_open_question(items@, t) && !discussion::is_answered(
                    items@,
                    t,
                )));
                assert(keys.take(i + 1)[i as int] == id@);
                if keys.take(i as int).contains(t) {
                    let j = keys.take(i as int).index_of(t);
                    assert(keys.take(i + 1)[j] == t);
                }
                if keys.take(i + 1).contains(t) && t != id@ {
                    let j = keys.take(i + 1).index_of(t);
                    assert(keys.take(i as int)[j] == t);
                }
            }
        }
        i += 1;
    }
    proof {
        assert(keys.take(n as int) =~= keys);
        let goal = Set::new(
            |id: Seq<char>|
                discussion::is_open_question(items@, id) && !discussion::is_answered(items@, id),
        );
        assert forall|t: Seq<char>| text::views(out@).to_set().contains(t) == goal.contains(t) by {
            if goal.contains(t) {
                assert(keys.to_set().contains(t));
            }
        }
        assert(text::views(out@).to_set() =~= goal);
        text::lemma_sorted_is(text::views(out@));
        assert forall|k: int| 0 <= k < out@.len() implies items@.dom().contains(
            #[trigger] out@[k]@,
        ) by {
            assert(text::views(out@)[k] == out@[k]@);
            assert(text::views(out@).to_set().contains(out@[k]@));
        }
    }
    out
}

/// The item with the highest revision.
fn find_latest<'a>(items: &'a Table<String, DiscussionItem>) -> (r: Option<&'a DiscussionItem>)
    ensures
        ({
            let keys = table::ordered::<String>(items@.dom());
            match latest(items@, keys, keys.len()) {
                Some(last) => r matches Some(item) && item@ == items@[last],
                None => r is None,
            }
        }),
{
    let n = items.len();
    let ghost keys = items.keys();
    proof {
        table::lemma_ordered_is::<String>(keys, items@.dom());
    }
    let mut best: Option<&DiscussionItem> = None;
    let mut i: usize = 0;
    while i < n
        invariant
            i <= n == keys.len(),
            keys == items.keys(),
            match latest(items@, keys, i as nat) {
                Some(last) => best matches Some(item) && item@ == items@[last],
                None => best is None,
            },
        decreases n - i,
    {
        let item = items.value_at(i);
        let better = match best {
            Some(so_far) => item.revision >= so_far.revision,
            None => true,
        };
        if better {
            best = Some(item);
        }
        i += 1;
    }
    best
}

fn count_loose(items: &Table<String, DiscussionItem>) -> (r: usize)
    ensures
        ({
            let keys = table::ordered::<String>(items@.dom());
            r == loose_replies(items@, keys, keys.len())
        }),
{
    let n = items.len();
    let ghost keys = items.keys();
    proof {
        table::lemma_ordered_is::<String>(keys, items@.dom());
    }
    let mut count: usize = 0;
    let mut i: usize = 0;
    while i < n
        invariant
            i <= n == keys.len(),
            keys == items.keys(),
            count == loose_replies(items@, keys, i as nat),
            count <= i,
        decreases n - i,
    {
        let item = items.value_at(i);
        if same_text(item.kind.as_str(), "reply") && discussion_active(item) {
            count += 1;
        }
        i += 1;
    }
    count
}

/// The overview of a discussion.
pub fn current_discussion(body: &DiscussionBody, id: &str) -> (r: CurrentDiscussion)
    ensures
        r@ == overview(body@, id@),
{
    let waiting = list_pending(&body.items);
    let shown = copy_page(&waiting, 0, PENDING_SHOWN);
    let (from, to) = page_bounds(waiting.len(), 0, PENDING_QUOTED);
    let mut quoted: Vec<Pair> = Vec::new();
    let mut i: usize = 0;
    proof {
        paging::lemma_page(
            text::views(waiting@),
            0,
            PENDING_QUOTED as nat,
            from as int,
            to as int,
        );
    }
    while i < to
        invariant
            i <= to <= waiting@.len(),
            quoted@.len() == i,
            forall|j: int|
                0 <= j < i ==> (#[trigger] quoted@[j])@ == table::pair(
                    waiting@[j]@,
                    discussion_book::hook_text(body.items@[waiting@[j]@].text),
                ),
        decreases to - i,
    {
        let said = match body.items.get(&waiting[i]) {
            Some(item) => bounded_hook_text(item.text.as_str()),
            None => String::new(),
        };
        quoted.push(Pair { first: owned(waiting[i].as_str()), second: said });
        i += 1;
    }
    let last = match find_latest(&body.items) {
        Some(item) => Some(
            QuotedItem {
                id: owned(item.id.as_str()),
                kind: owned(item.kind.as_str()),
                text: bounded_hook_text(item.text.as_str()),
            },
        ),
        None => None,
    };
    let r = CurrentDiscussion {
        id: owned(id),
        title: bounded_hook_text(body.title.as_str()),
        description: bounded_hook_text(body.description.as_str()),
        revision: body.revision,
        state: owned(body.state.as_str()),
        pending: shown,
        pending_total: waiting.len(),
        pending_questions: quoted,
        last_item: last,
        unassigned: count_loose(&body.items),
    };
    proof {
        assert(r@.pending_questions =~= overview(body@, id@).pending_questions);
        assert(text::views(waiting@).len() == waiting@.len());
    }
    r
}

// ---------------------------------------------------------------------------
// Reading
// ---------------------------------------------------------------------------

/// What reading a discussion gives.
pub enum DiscussionReading {
    /// The context works on no discussion.
    Nothing,
    Current(CurrentDiscussion),
    History { id: String, revisions: Vec<DiscussionRevision>, total: usize },
    Export(DiscussionBody),
    Page { body: DiscussionBody, total: usize },
}

#[verifier::ext_equal]
pub enum ReadingView {
    Nothing,
    Current(CurrentView),
    History { id: Seq<char>, revisions: Seq<RevisionView>, total: nat },
    Export(BodyView),
    Page { body: BodyView, total: nat },
}

impl View for DiscussionReading {
    type V = ReadingView;

    open spec fn view(&self) -> ReadingView {
        match *self {
            DiscussionReading::Nothing => ReadingView::Nothing,
            DiscussionReading::Current(current) => ReadingView::Current(current@),
            DiscussionReading::History { id, revisions, total } => ReadingView::History {
                id: id@,
                revisions: text::views(revisions@),
                total: total as nat,
            },
            DiscussionReading::Export(body) => ReadingView::Export(body@),
            DiscussionReading::Page { body, total } => ReadingView::Page {
                body: body@,
                total: total as nat,
            },
        }
    }
}

/// A page that can be asked for.
pub open spec fn good_page(offset: nat, limit: nat) -> bool {
    1 <= limit <= MAX_PAGE && offset <= MAX_OFFSET
}

/// The discussion that is meant: the one named, or the one that the context works on.
pub open spec fn meant(book: BookView, id: Seq<char>, context: Seq<char>) -> Option<Seq<char>> {
    if id.len() > 0 {
        Some(id)
    } else if book.bindings.dom().contains(context) {
        Some(book.bindings[context])
    } else {
        None
    }
}

/// What reading a discussion gives.
pub open spec fn reading(
    book: BookView,
    id: Seq<char>,
    context: Seq<char>,
    mode: Seq<char>,
    offset: nat,
    limit: nat,
) -> Result<ReadingView, AppErrorView> {
    if !discussion_book::is_agent_context(context) {
        Err(discussion_book::bad_context())
    } else if !good_page(offset, limit) {
        discussion::discussion_refused("limit must be 1..100"@)
    } else {
        match meant(book, id, context) {
            None => Ok(ReadingView::Nothing),
            Some(id) => if !book.discussions.dom().contains(id) {
                discussion::discussion_refused("discussion not found"@)
            } else {
                let found = book.discussions[id];
                if found.context.len() > 0 && found.context != context {
                    discussion::discussion_refused("context mismatch"@)
                } else if mode == "current"@ {
                    Ok(ReadingView::Current(overview(found.body, id)))
                } else if mode == "history"@ {
                    let log = discussion_book::log_of(book, id);
                    Ok(
                        ReadingView::History {
                            id,
                            revisions: paging::page_of(log, offset, limit),
                            total: log.len(),
                        },
                    )
                } else if mode == "export"@ {
                    Ok(ReadingView::Export(found.body))
                } else {
                    Ok(
                        ReadingView::Page {
                            body: BodyView {
                                items: items_on_page(found.body.items, offset, limit),
                                ..found.body
                            },
                            total: found.body.items.dom().len(),
                        },
                    )
                }
            },
        }
    }
}

/// The items on a page.
fn page_items(items: &Table<String, DiscussionItem>, offset: usize, limit: usize) -> (r: Table<
    String,
    DiscussionItem,
>)
    ensures
        r@ == items_on_page(items@, offset as nat, limit as nat),
{
    let n = items.len();
    let ghost keys = items.keys();
    let mut order: Table<Rank, bool> = Table::new();
    let mut i: usize = 0;
    while i < n
        invariant
            i <= n == keys.len(),
            keys == items.keys(),
            forall|rank: RankView|
                #[trigger] order@.dom().contains(rank) == (keys.take(i as int).contains(rank.id)
                    && items@[rank.id].ordinal == rank.ordinal),
        decreases n - i,
    {
        let id = items.key_at(i);
        let item = items.value_at(i);
        let ghost was = order@.dom();
        order.put(Rank { ordinal: item.ordinal, id: owned(id.as_str()) }, true);
        proof {
            assert(keys.take(i + 1) =~= keys.take(i as int).push(id@));
            assert forall|rank: RankView|
                #[trigger] order@.dom().contains(rank) == (keys.take(i + 1).contains(rank.id)
                    && items@[rank.id].ordinal == rank.ordinal) by {
                assert(was.contains(rank) == (keys.take(i as int).contains(rank.id)
                    && items@[rank.id].ordinal == rank.ordinal));
                assert(keys.take(i + 1)[i as int] == id@);
                if keys.take(i as int).contains(rank.id) {
                    let j = keys.take(i as int).index_of(rank.id);
                    assert(keys.take(i + 1)[j] == rank.id);
                }
                if keys.take(i + 1).contains(rank.id) && rank.id != id@ {
                    let j = keys.take(i + 1).index_of(rank.id);
                    assert(keys.take(i as int)[j] == rank.id);
                }
            }
        }
        i += 1;
    }
    let m = order.len();
    let ghost all = order.keys();
    proof {
        assert(keys.take(n as int) =~= keys);
        assert forall|rank: RankView| order@.dom().contains(rank) == ranks(items@).contains(
            rank,
        ) by {
            assert(keys.to_set().contains(rank.id) == items@.dom().contains(rank.id));
        }
        assert(order@.dom() =~= ranks(items@));
        table::lemma_ordered_is::<Rank>(all, ranks(items@));
    }
    let (from, to) = page_bounds(m, offset, limit);
    let ghost page = paging::page_of(all, offset as nat, limit as nat);
    proof {
        paging::lemma_page(all, offset as nat, limit as nat, from as int, to as int);
    }
    let mut out: Table<String, DiscussionItem> = Table::new();
    let mut k: usize = from;
    while k < to
        invariant
            from <= k <= to <= m == all.len(),
            all == order.keys(),
            table::lists::<Rank>(all, ranks(items@)),
            page == all.subrange(from as int, to as int),
            forall|id: Seq<char>|
                #[trigger] out@.dom().contains(id) == exists|x: int|
                    0 <= x < k - from && (#[trigger] page[x]).id == id,
            forall|id: Seq<char>| #[trigger]
                out@.dom().contains(id) ==> items@.dom().contains(id) && out@[id] == items@[id],
        decreases to - k,
    {
        let rank = order.key_at(k);
        let ghost was = out@;
        proof {
            assert(page[k - from] == rank@);
            assert(all.to_set().contains(rank@));
            assert(ranks(items@).contains(rank@));
        }
        match items.get(&rank.id) {
            Some(item) => {
                out.put(owned(rank.id.as_str()), item.duplicate());
            },
            None => {},
        }
        proof {
            assert forall|id: Seq<char>|
                #[trigger] out@.dom().contains(id) == exists|x: int|
                    0 <= x < k + 1 - from && (#[trigger] page[x]).id == id by {
                assert(was.dom().contains(id) == exists|x: int|
                    0 <= x < k - from && (#[trigger] page[x]).id == id);
                if id == rank@.id {
                    assert(page[k - from].id == id);
                }
            }
        }
        k += 1;
    }
    proof {
        assert(page.len() == to - from);
        assert(out@ =~= items_on_page(items@, offset as nat, limit as nat));
    }
    out
}

/// One discussion of a list.
pub struct ListedDiscussion {
    pub id: String,
    pub unbound: bool,
    pub revision: i64,
    pub title: String,
    pub state: String,
}

#[verifier::ext_equal]
pub struct ListedView {
    pub id: Seq<char>,
    pub unbound: bool,
    pub revision: int,
    pub title: Seq<char>,
    pub state: Seq<char>,
}

impl View for ListedDiscussion {
    type V = ListedView;

    open spec fn view(&self) -> ListedView {
        ListedView {
            id: self.id@,
            unbound: self.unbound,
            revision: self.revision as int,
            title: self.title@,
            state: self.state@,
        }
    }
}

/// A page of the discussions that a context can see.
pub struct DiscussionList {
    pub discussions: Vec<ListedDiscussion>,
    pub total: usize,
}

/// The discussions that a context can see: its own, and those that nobody owns.
pub open spec fn visible(book: BookView, context: Seq<char>) -> Seq<Seq<char>> {
    text::sorted(
        Set::new(
            |id: Seq<char>|
                book.discussions.dom().contains(id) && (book.discussions[id].context == context
                    || book.discussions[id].context.len() == 0),
        ),
    )
}

/// A discussion as a list shows it.
pub open spec fn listed(book: BookView, id: Seq<char>) -> ListedView {
    let found = book.discussions[id];
    ListedView {
        id,
        unbound: found.context.len() == 0,
        revision: found.revision,
        title: discussion_book::hook_text(found.body.title),
        state: found.body.state,
    }
}

/// The first item with this message, in the order of identifiers.
pub open spec fn item_with_message(
    items: Items,
    keys: Seq<Seq<char>>,
    message: Seq<char>,
) -> Option<Seq<char>>
    decreases keys.len(),
{
    if keys.len() == 0 {
        None
    } else if items[keys[0]].message_id == Some(message) {
        Some(keys[0])
    } else {
        item_with_message(items, keys.drop_first(), message)
    }
}

/// The identifier under which a reply of the host is recorded.
pub open spec fn reply_key(id: Seq<char>, message: Seq<char>) -> Seq<char> {
    "host-"@ + text::first_chars(digest::text_digest(id + "\0"@ + message), 32)
}

/// The batch that records a reply of the host.
pub open spec fn reply_batch(
    id: Seq<char>,
    context: Seq<char>,
    message: Seq<char>,
    said: Seq<char>,
    revision: int,
) -> InputView {
    let key = reply_key(id, message);
    InputView {
        id,
        context,
        request_id: key,
        if_revision: revision,
        operations: seq![
            OperationView {
                op: "reply"@,
                id: Some(key),
                parent: None,
                text: Some(said),
                description: None,
                reason: None,
                refs: Seq::empty(),
                ordinal: None,
                confirmed: None,
                message_id: Some(message),
            },
        ],
        from_context: None,
    }
}

/// What a reply of the host calls for.
pub enum ReplyPlan {
    /// The context works on no discussion.
    Nothing,
    /// The reply is recorded already.
    Known,
    /// The batch that records the reply.
    Record(DiscussionInput),
}

#[verifier::ext_equal]
pub enum ReplyPlanView {
    Nothing,
    Known,
    Record(InputView),
}

impl View for ReplyPlan {
    type V = ReplyPlanView;

    open spec fn view(&self) -> ReplyPlanView {
        match *self {
            ReplyPlan::Nothing => ReplyPlanView::Nothing,
            ReplyPlan::Known => ReplyPlanView::Known,
            ReplyPlan::Record(input) => ReplyPlanView::Record(input@),
        }
    }
}

/// What a reply of the host calls for.
pub open spec fn reply_plan(
    book: BookView,
    context: Seq<char>,
    message: Seq<char>,
    said: Seq<char>,
) -> Result<ReplyPlanView, AppErrorView> {
    match reading(book, Seq::empty(), context, "export"@, 0, 20) {
        Err(e) => Err(e),
        Ok(ReadingView::Export(body)) => {
            let id = book.bindings[context];
            let keys = table::ordered::<String>(body.items.dom());
            match item_with_message(body.items, keys, message) {
                Some(known) => if body.items[known].original != said {
                    discussion::discussion_refused(
                        "host message changed; explicit correction required"@,
                    )
                } else {
                    Ok(ReplyPlanView::Known)
                },
                None => Ok(
                    ReplyPlanView::Record(
                        reply_batch(id, context, message, said, body.revision),
                    ),
                ),
            }
        },
        Ok(_) => Ok(ReplyPlanView::Nothing),
    }
}

fn find_message<'a>(items: &'a Table<String, DiscussionItem>, message: &str) -> (r: Option<
    &'a DiscussionItem,
>)
    ensures
        match item_with_message(items@, table::ordered::<String>(items@.dom()), message@) {
            Some(id) => r matches Some(item) && item@ == items@[id],
            None => r is None,
        },
{
    let n = items.len();
    let ghost keys = items.keys();
    proof {
        table::lemma_ordered_is::<String>(keys, items@.dom());
        assert(keys.skip(0) =~= keys);
    }
    let mut i: usize = 0;
    while i < n
        invariant
            i <= n == keys.len(),
            keys == items.keys(),
            item_with_message(items@, keys, message@) == item_with_message(
                items@,
                keys.skip(i as int),
                message@,
            ),
        decreases n - i,
    {
        let item = items.value_at(i);
        let hit = match &item.message_id {
            Some(known) => same_text(known.as_str(), message),
            None => false,
        };
        assert(keys.skip(i as int)[0] == keys[i as int]);
        assert(keys.skip(i as int).drop_first() =~= keys.skip(i + 1));
        if hit {
            return Some(item);
        }
        i += 1;
    }
    None
}

impl DiscussionBook {
    /// Reads a discussion: the one named, or the one that the context works on.
    pub fn read(
        &self,
        id: &str,
        context: &str,
        mode: &str,
        offset: usize,
        limit: usize,
    ) -> (r: Result<DiscussionReading, AppError>)
        ensures
            error::outcome(r) == reading(
                self@,
                id@,
                context@,
                mode@,
                offset as nat,
                limit as nat,
            ),
    {
        if let Err(e) = normalize_agent_context(context) {
            return Err(e);
        }
        if limit < 1 || limit > MAX_PAGE || offset as u64 > MAX_OFFSET {
            return Err(discussion_error("limit must be 1..100"));
        }
        let key: String = if id.is_empty() {
            match self.bindings.get(&owned(context)) {
                Some(bound) => owned(bound.as_str()),
                None => {
                    return Ok(DiscussionReading::Nothing);
                },
            }
        } else {
            owned(id)
        };
        let found = match self.discussions.get(&key) {
            Some(found) => found,
            None => {
                return Err(discussion_error("discussion not found"));
            },
        };
        if !found.context.as_str().is_empty() && !same_text(found.context.as_str(), context) {
            return Err(discussion_error("context mismatch"));
        }
        if same_text(mode, "current") {
            return Ok(DiscussionReading::Current(current_discussion(&found.body, key.as_str())));
        }
        if same_text(mode, "history") {
            let none: Vec<DiscussionRevision> = Vec::new();
            assert(text::views(none@) =~= Seq::empty());
            let log = match self.revisions.get(&key) {
                Some(log) => &log.list,
                None => &none,
            };
            assert(text::views(log@) == discussion_book::log_of(self@, key@));
            assert(text::views(log@).len() == log@.len());
            return Ok(
                DiscussionReading::History {
                    id: key,
                    revisions: copy_page(log, offset, limit),
                    total: log.len(),
                },
            );
        }
        if same_text(mode, "export") {
            return Ok(DiscussionReading::Export(found.body.duplicate()));
        }
        let total = found.body.items.len();
        let items = page_items(&found.body.items, offset, limit);
        let body = DiscussionBody {
            id: owned(found.body.id.as_str()),
            title: owned(found.body.title.as_str()),
            description: owned(found.body.description.as_str()),
            state: owned(found.body.state.as_str()),
            items,
            revision: found.body.revision,
        };
        Ok(DiscussionReading::Page { body, total })
    }

    /// A page of the discussions that a context can see.
    pub fn list(&self, context: &str, offset: usize, limit: usize) -> (r: Result<
        DiscussionList,
        AppError,
    >)
        ensures
            if !discussion_book::is_agent_context(context@) {
                r matches Err(e) && e@ == discussion_book::bad_context()
            } else if !good_page(offset as nat, limit as nat) {
                r matches Err(e) && e@ == error::app_error(
                    ErrorCode::InvalidDiscussion,
                    "invalid pagination"@,
                )
            } else {
                &&& r matches Ok(list)
                &&& list.total == visible(self@, context@).len()
                &&& text::views(list.discussions@) == paging::page_of(
                    visible(self@, context@),
                    offset as nat,
                    limit as nat,
                ).map_values(|id: Seq<char>| listed(self@, id))
            },
    {
        if let Err(e) = normalize_agent_context(context) {
            return Err(e);
        }
        if limit < 1 || limit > MAX_PAGE || offset as u64 > MAX_OFFSET {
            return Err(discussion_error("invalid pagination"));
        }
        let n = self.discussions.len();
        let ghost keys = self.discussions.keys();
        let ghost book = self@;
        let mut ids: Vec<String> = Vec::new();
        let mut i: usize = 0;
        while i < n
            invariant
                i <= n == keys.len(),
                keys == self.discussions.keys(),
                text::ascending(text::views(ids@)),
                forall|t: Seq<char>|
                    #[trigger] text::views(ids@).to_set().contains(t) == (keys.take(
                        i as int,
                    ).contains(t) && (book.discussions[t].context == context@
                        || book.discussions[t].context.len() == 0)),
            decreases n - i,
        {
            let id = self.discussions.key_at(i);
            let found = self.discussions.value_at(i);
            let ghost known = text::views(ids@).to_set();
            if same_text(found.context.as_str(), context) || found.context.as_str().is_empty() {
                text::add_text(&mut ids, id.as_str());
            }
            proof {
                assert(keys.take(i + 1) =~= keys.take(i as int).push(id@));
                assert forall|t: Seq<char>|
                    #[trigger] text::views(ids@).to_set().contains(t) == (keys.take(
                        i + 1,
                    ).contains(t) && (book.discussions[t].context == context@
                        || book.discussions[t].context.len() == 0)) by {
                    assert(known.contains(t) == (keys.take(i as int).contains(t) && (
                    book.discussions[t].context == context@ || book.discussions[t].context.len()
                        == 0)));
                    assert(keys.take(i + 1)[i as int] == id@);
                    if keys.take(i as int).contains(t) {
                        let j = keys.take(i as int).index_of(t);
                        assert(keys.take(i + 1)[j] == t);
                    }
                    if keys.take(i + 1).contains(t) && t != id@ {
                        let j = keys.take(i + 1).index_of(t);
                        assert(keys.take(i as int)[j] == t);
                    }
                }
            }
            i += 1;
        }
        proof {
            assert(keys.take(n as int) =~= keys);
            let goal = Set::new(
                |id: Seq<char>|
                    book.discussions.dom().contains(id) && (book.discussions[id].context
                        == context@ || book.discussions[id].context.len() == 0),
            );
            assert forall|t: Seq<char>| text::views(ids@).to_set().contains(t) == goal.contains(
                t,
            ) by {
                assert(keys.to_set().contains(t) == book.discussions.dom().contains(t));
            }
            assert(text::views(ids@).to_set() =~= goal);
            text::lemma_sorted_is(text::views(ids@));
            assert(text::views(ids@).len() == ids@.len());
        }
        let ghost all = visible(book, context@);
        let (from, to) = page_bounds(ids.len(), offset, limit);
        proof {
            paging::lemma_page(all, offset as nat, limit as nat, from as int, to as int);
        }
        let mut out: Vec<ListedDiscussion> = Vec::new();
        let mut k: usize = from;
        while k < to
            invariant
                from <= k <= to <= ids@.len(),
                all == text::views(ids@),
                out@.len() == k - from,
                forall|j: int|
                    0 <= j < k - from ==> (#[trigger] out@[j])@ == listed(book, all[from + j]),
            decreases to - k,
        {
            let ghost id = all[k as int];
            assert(text::views(ids@).to_set().contains(id));
            match self.discussions.get(&ids[k]) {
                Some(found) => {
                    out.push(
                        ListedDiscussion {
                            id: owned(ids[k].as_str()),
                            unbound: found.context.as_str().is_empty(),
                            revision: found.revision,
                            title: bounded_hook_text(found.body.title.as_str()),
                            state: owned(found.body.state.as_str()),
                        },
                    );
                },
                None => {
                    assert(false);
                },
            }
            k += 1;
        }
        proof {
            let page = paging::page_of(all, offset as nat, limit as nat);
            assert(text::views(out@) =~= page.map_values(|id: Seq<char>| listed(book, id)));
        }
        Ok(DiscussionList { discussions: out, total: ids.len() })
    }

    /// Works out what a reply of the host calls for.
    pub fn plan_reply(&self, context: &str, message_id: &str, said: &str) -> (r: Result<
        ReplyPlan,
        AppError,
    >)
        ensures
            error::outcome(r) == reply_plan(self@, context@, message_id@, said@),
    {
        proof {
            reveal_strlit("");
            assert(""@ =~= Seq::<char>::empty());
        }
        let body = match self.read("", context, "export", 0, 20) {
            Err(e) => {
                return Err(e);
            },
            Ok(DiscussionReading::Export(body)) => body,
            Ok(_) => {
                return Ok(ReplyPlan::Nothing);
            },
        };
        let id = match self.bindings.get(&owned(context)) {
            Some(id) => id,
            None => {
                assert(false);
                return Ok(ReplyPlan::Nothing);
            },
        };
        match find_message(&body.items, message_id) {
            Some(known) => {
                if !same_text(known.original.as_str(), said) {
                    return Err(
                        discussion_error("host message changed; explicit correction required"),
                    );
                }
                return Ok(ReplyPlan::Known);
            },
            None => {},
        }
        let named = hash_content(join3(id.as_str(), "\0", message_id).as_str());
        let key = join2("host-", head_text(named.as_str(), 32).as_str());
        let mut operations: Vec<DiscussionOperation> = Vec::new();
        let none: Vec<String> = Vec::new();
        assert(text::views(none@) =~= Seq::empty());
        operations.push(
            DiscussionOperation {
                op: owned("reply"),
                id: Some(owned(key.as_str())),
                parent: None,
                text: Some(owned(said)),
                description: None,
                reason: None,
                refs: none,
                ordinal: None,
                confirmed: None,
                message_id: Some(owned(message_id)),
            },
        );
        let input = DiscussionInput {
            id: owned(id.as_str()),
            context: owned(context),
            request_id: key,
            if_revision: body.revision,
            operations,
            from_context: None,
        };
        assert(input@.operations =~= reply_batch(
            id@,
            context@,
            message_id@,
            said@,
            body@.revision,
        ).operations);
        Ok(ReplyPlan::Record(input))
    }
}

} // verus!
