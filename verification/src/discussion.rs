//! Discussions: questions, answers and summaries with the references between
//! them, and the rules that every discussion keeps.
use crate::error;
use crate::error::{AppError, AppErrorView, ErrorCode};
use crate::table;
use crate::table::{Record, Table};
use crate::text;
use crate::text::{blank, byte_len, copy_opt, copy_texts, has_text, owned, same_opt, same_text, same_texts};
use vstd::prelude::*;

verus! {

/// The most bytes a text of a discussion may have.
pub const MAX_TEXT_BYTES: usize = 65536;

/// The most bytes an identifier may have.
pub const MAX_ID_BYTES: usize = 256;

/// The most items a discussion may have.
pub const MAX_ITEMS: usize = 10000;

pub open spec fn discussion_refused<T>(message: Seq<char>) -> Result<T, AppErrorView> {
    error::refused(ErrorCode::InvalidDiscussion, message)
}

/// The complaint about a text that is missing, blank or too long.
pub open spec fn text_needed<T>() -> Result<T, AppErrorView> {
    discussion_refused("nonempty text up to 65536 bytes required"@)
}

/// The error of a discussion with this message.
pub fn discussion_error(message: &str) -> (r: AppError)
    ensures
        r@ == error::app_error(ErrorCode::InvalidDiscussion, message@),
{
    AppError::new(ErrorCode::InvalidDiscussion, message)
}

/// A text that a discussion accepts: not blank, and not too long.
pub open spec fn good_text(s: Seq<char>) -> bool {
    !text::is_blank(s) && text::byte_count(s) <= MAX_TEXT_BYTES
}

pub open spec fn good_opt(s: Option<Seq<char>>) -> bool {
    s is Some && good_text(s->0)
}

/// The text, where a discussion accepts it.
pub fn discussion_text(value: Option<&str>) -> (r: Result<&str, AppError>)
    ensures
        good_opt(text::opt_view(value)) ==> (r matches Ok(t) && Some(t@) == text::opt_view(value)),
        !good_opt(text::opt_view(value)) ==> (r matches Err(e) && Err::<(), AppErrorView>(e@)
            == text_needed::<()>()),
{
    match value {
        Some(s) => {
            if !blank(s) && byte_len(s) <= MAX_TEXT_BYTES {
                return Ok(s);
            }
        },
        None => {},
    }
    Err(discussion_error("nonempty text up to 65536 bytes required"))
}

// ---------------------------------------------------------------------------
// Items
// ---------------------------------------------------------------------------

/// An item of a discussion.
pub struct DiscussionItem {
    pub id: String,
    pub kind: String,
    pub original: String,
    pub text: String,
    pub parent: Option<String>,
    pub refs: Vec<String>,
    pub stale: bool,
    pub ordinal: i64,
    pub revision: i64,
    pub confirmed: bool,
    pub withdrawn: bool,
    pub message_id: Option<String>,
    pub delivery: String,
}

/// What an item says.
#[verifier::ext_equal]
pub struct ItemView {
    pub id: Seq<char>,
    pub kind: Seq<char>,
    pub original: Seq<char>,
    pub text: Seq<char>,
    pub parent: Option<Seq<char>>,
    pub refs: Seq<Seq<char>>,
    pub stale: bool,
    pub ordinal: int,
    pub revision: int,
    pub confirmed: bool,
    pub withdrawn: bool,
    pub message_id: Option<Seq<char>>,
    pub delivery: Seq<char>,
}

impl View for DiscussionItem {
    type V = ItemView;

    open spec fn view(&self) -> ItemView {
        ItemView {
            id: self.id@,
            kind: self.kind@,
            original: self.original@,
            text: self.text@,
            parent: text::opt_text(self.parent),
            refs: text::views(self.refs@),
            stale: self.stale,
            ordinal: self.ordinal as int,
            revision: self.revision as int,
            confirmed: self.confirmed,
            withdrawn: self.withdrawn,
            message_id: text::opt_text(self.message_id),
            delivery: self.delivery@,
        }
    }
}

impl Record for DiscussionItem {
    fn duplicate(&self) -> (r: Self) {
        DiscussionItem {
            id: owned(self.id.as_str()),
            kind: owned(self.kind.as_str()),
            original: owned(self.original.as_str()),
            text: owned(self.text.as_str()),
            parent: copy_opt(&self.parent),
            refs: copy_texts(&self.refs),
            stale: self.stale,
            ordinal: self.ordinal,
            revision: self.revision,
            confirmed: self.confirmed,
            withdrawn: self.withdrawn,
            message_id: copy_opt(&self.message_id),
            delivery: owned(self.delivery.as_str()),
        }
    }

    fn same(&self, other: &Self) -> (r: bool) {
        same_text(self.id.as_str(), other.id.as_str()) && same_text(
            self.kind.as_str(),
            other.kind.as_str(),
        ) && same_text(self.original.as_str(), other.original.as_str()) && same_text(
            self.text.as_str(),
            other.text.as_str(),
        ) && same_opt(&self.parent, &other.parent) && same_texts(&self.refs, &other.refs)
            && self.stale == other.stale && self.ordinal == other.ordinal && self.revision
            == other.revision && self.confirmed == other.confirmed && self.withdrawn
            == other.withdrawn && same_opt(&self.message_id, &other.message_id) && same_text(
            self.delivery.as_str(),
            other.delivery.as_str(),
        )
    }
}

/// The items of a discussion by their identifiers.
pub type Items = Map<Seq<char>, ItemView>;

/// The item counts: it has not been withdrawn.
pub open spec fn is_active(item: ItemView) -> bool {
    !item.withdrawn
}

/// Whether the item counts: it has not been withdrawn.
pub fn discussion_active(item: &DiscussionItem) -> (r: bool)
    ensures
        r == is_active(item@),
{
    !item.withdrawn
}

/// The item is an active question.
pub open spec fn is_open_question(items: Items, id: Seq<char>) -> bool {
    items.dom().contains(id) && items[id].kind == "question"@ && is_active(items[id])
}

/// The question has an active answer.
pub open spec fn is_answered(items: Items, question: Seq<char>) -> bool {
    exists|id: Seq<char>| #[trigger]
        items.dom().contains(id) && is_active(items[id]) && items[id].kind == "answer"@
            && items[id].parent == Some(question)
}

/// The item can be referred to: it is active and not stale.
pub open spec fn is_current(items: Items, id: Seq<char>) -> bool {
    items.dom().contains(id) && is_active(items[id]) && !items[id].stale
}

// ---------------------------------------------------------------------------
// What a change makes stale
// ---------------------------------------------------------------------------

/// What changes with the seeds: the items whose parent changes, found in one
/// pass over the first `count` identifiers.
pub open spec fn touched(
    items: Items,
    keys: Seq<Seq<char>>,
    seeds: Set<Seq<char>>,
    count: nat,
) -> Set<Seq<char>>
    decreases count,
{
    if count == 0 || count > keys.len() {
        seeds
    } else {
        let before = touched(items, keys, seeds, (count - 1) as nat);
        let id = keys[count - 1];
        if items[id].parent is Some && before.contains(items[id].parent->0) {
            before.insert(id)
        } else {
            before
        }
    }
}

/// The items that change with the seeds themselves.
pub open spec fn first_touched(items: Items, seeds: Set<Seq<char>>) -> Set<Seq<char>> {
    let keys = table::ordered::<String>(items.dom());
    touched(items, keys, seeds, keys.len())
}

/// The summary refers to something in `changed`, and is not itself a seed.
pub open spec fn relies_on(
    items: Items,
    seeds: Set<Seq<char>>,
    changed: Set<Seq<char>>,
    id: Seq<char>,
) -> bool {
    &&& items.dom().contains(id)
    &&& items[id].kind == "summary"@
    &&& !seeds.contains(id)
    &&& exists|k: int|
        0 <= k < items[id].refs.len() && changed.contains(#[trigger] items[id].refs[k])
}

/// What has changed after `rounds` rounds of summaries following what they rely on.
pub open spec fn spread(
    items: Items,
    seeds: Set<Seq<char>>,
    start: Set<Seq<char>>,
    rounds: nat,
) -> Set<Seq<char>>
    decreases rounds,
{
    if rounds == 0 {
        start
    } else {
        let before = spread(items, seeds, start, (rounds - 1) as nat);
        before + Set::new(|id: Seq<char>| relies_on(items, seeds, before, id))
    }
}

/// Everything that changes with the seeds, directly or through summaries of summaries.
pub open spec fn all_changed(items: Items, seeds: Set<Seq<char>>) -> Set<Seq<char>> {
    Set::new(
        |id: Seq<char>|
            exists|rounds: nat| #[trigger]
                spread(items, seeds, first_touched(items, seeds), rounds).contains(id),
    )
}

/// An item as a change of the seeds leaves it: a summary that relies on what
/// changed is stale, and no longer confirmed.
pub open spec fn item_after(items: Items, seeds: Set<Seq<char>>, id: Seq<char>) -> ItemView {
    if relies_on(items, seeds, all_changed(items, seeds), id) {
        ItemView { stale: true, confirmed: false, ..items[id] }
    } else {
        items[id]
    }
}

/// The items as a change of the seeds leaves them.
pub open spec fn invalidated(items: Items, seeds: Set<Seq<char>>) -> Items {
    Map::new(|id: Seq<char>| items.dom().contains(id), |id: Seq<char>| item_after(items, seeds, id))
}

/// What has changed stays changed from round to round.
proof fn lemma_spread_grows(
    items: Items,
    seeds: Set<Seq<char>>,
    start: Set<Seq<char>>,
    a: nat,
    b: nat,
)
    requires
        a <= b,
    ensures
        spread(items, seeds, start, a).subset_of(spread(items, seeds, start, b)),
    decreases b,
{
    if a < b {
        lemma_spread_grows(items, seeds, start, a, (b - 1) as nat);
    }
}

/// What relies on something changed is changed itself.
pub proof fn lemma_changed_closed(items: Items, seeds: Set<Seq<char>>, id: Seq<char>)
    requires
        relies_on(items, seeds, all_changed(items, seeds), id),
    ensures
        all_changed(items, seeds).contains(id),
{
    let start = first_touched(items, seeds);
    let all = all_changed(items, seeds);
    let k = choose|k: int|
        0 <= k < items[id].refs.len() && all.contains(#[trigger] items[id].refs[k]);
    let target = items[id].refs[k];
    let rounds = choose|rounds: nat| #[trigger]
        spread(items, seeds, start, rounds).contains(target);
    assert(relies_on(items, seeds, spread(items, seeds, start, rounds), id));
    assert(spread(items, seeds, start, (rounds + 1) as nat).contains(id));
}

/// A set that holds what is touched first and everything that relies on its own
/// members holds everything that changes.
proof fn lemma_spread_within(
    items: Items,
    seeds: Set<Seq<char>>,
    start: Set<Seq<char>>,
    whole: Set<Seq<char>>,
    rounds: nat,
)
    requires
        start.subset_of(whole),
        forall|id: Seq<char>| #[trigger] relies_on(items, seeds, whole, id) ==> whole.contains(id),
    ensures
        spread(items, seeds, start, rounds).subset_of(whole),
    decreases rounds,
{
    if rounds > 0 {
        lemma_spread_within(items, seeds, start, whole, (rounds - 1) as nat);
        let before = spread(items, seeds, start, (rounds - 1) as nat);
        assert forall|id: Seq<char>| spread(items, seeds, start, rounds).contains(
            id,
        ) implies whole.contains(id) by {
            if !before.contains(id) {
                let k = choose|k: int|
                    0 <= k < items[id].refs.len() && before.contains(#[trigger] items[id].refs[k]);
                assert(whole.contains(items[id].refs[k]));
                assert(relies_on(items, seeds, whole, id));
            }
        }
    }
}

/// Whether some of the references stand in an ascending list.
fn refers_into(refs: &Vec<String>, changed: &Table<String, bool>) -> (r: bool)
    ensures
        r == exists|k: int|
            0 <= k < text::views(refs@).len() && changed@.dom().contains(
                #[trigger] text::views(refs@)[k],
            ),
{
    let mut k: usize = 0;
    while k < refs.len()
        invariant
            k <= refs@.len(),
            forall|j: int| 0 <= j < k ==> !changed@.dom().contains(#[trigger] text::views(refs@)[j]),
        decreases refs@.len() - k,
    {
        assert(text::views(refs@)[k as int] == refs@[k as int]@);
        if changed.has(&refs[k]) {
            return true;
        }
        k += 1;
    }
    false
}

/// Everything that the seeds touch directly.
fn touch(items: &Table<String, DiscussionItem>, seeds: &Vec<String>) -> (r: Table<String, bool>)
    ensures
        r@.dom() == first_touched(items@, text::views(seeds@).to_set()),
        forall|id: Seq<char>| #[trigger] r@.dom().contains(id) ==> items@.dom().contains(id)
            || text::views(seeds@).contains(id),
{
    let ghost seed_set = text::views(seeds@).to_set();
    let mut changed: Table<String, bool> = Table::new();
    let mut s: usize = 0;
    assert(changed@.dom() =~= text::views(seeds@).take(0).to_set());
    while s < seeds.len()
        invariant
            s <= seeds@.len(),
            changed@.dom() == text::views(seeds@).take(s as int).to_set(),
        decreases seeds@.len() - s,
    {
        changed.put(owned(seeds[s].as_str()), true);
        proof {
            let all = text::views(seeds@);
            assert(all.take(s + 1) =~= all.take(s as int).push(all[s as int]));
            all.take(s as int).lemma_push_to_set_commute(all[s as int]);
        }
        s += 1;
    }
    assert(text::views(seeds@).take(seeds@.len() as int) =~= text::views(seeds@));
    let n = items.len();
    let ghost keys = items.keys();
    proof {
        table::lemma_ordered_is::<String>(keys, items@.dom());
    }
    let mut i: usize = 0;
    while i < n
        invariant
            i <= n == keys.len(),
            keys == items.keys(),
            changed@.dom() == touched(items@, keys, seed_set, i as nat),
            forall|id: Seq<char>| #[trigger] changed@.dom().contains(id) ==> items@.dom().contains(
                id,
            ) || text::views(seeds@).contains(id),
        decreases n - i,
    {
        let item = items.value_at(i);
        match &item.parent {
            Some(parent) => {
                if changed.has(parent) {
                    changed.put(owned(items.key_at(i).as_str()), true);
                    assert(changed@.dom() =~= touched(items@, keys, seed_set, (i + 1) as nat));
                }
            },
            None => {},
        }
        i += 1;
    }
    changed
}

/// Marks the summaries that rely on what the seeds change as stale and no longer
/// confirmed.
#[verifier::rlimit(50)]
pub fn invalidate_discussion(items: &mut Table<String, DiscussionItem>, seeds: &Vec<String>)
    ensures
        final(items)@ == invalidated(old(items)@, text::views(seeds@).to_set()),
{
    let ghost was = items@;
    let ghost seed_set = text::views(seeds@).to_set();
    let ghost start = first_touched(was, seed_set);
    let ghost goal = all_changed(was, seed_set);
    let mut changed = touch(items, seeds);
    let ghost bound = was.dom() + seed_set;
    let n = items.len();
    proof {
        vstd::seq_lib::seq_to_set_is_finite(text::views(seeds@));
        assert(bound.finite());
        assert forall|id: Seq<char>| start.contains(id) implies goal.contains(id) by {
            assert(spread(was, seed_set, start, 0).contains(id));
        }
    }
    let mut settled: bool = false;
    while !settled
        invariant
            items@.dom() == was.dom(),
            n == items.keys().len(),
            table::lists::<String>(items.keys(), was.dom()),
            changed@.dom().subset_of(bound),
            bound.finite(),
            start.subset_of(changed@.dom()),
            changed@.dom().subset_of(goal),
            forall|id: Seq<char>| #[trigger]
                was.dom().contains(id) ==> items@[id] == was[id] || (items@[id] == (ItemView {
                    stale: true,
                    confirmed: false,
                    ..was[id]
                }) && relies_on(was, seed_set, changed@.dom(), id)),
            settled ==> forall|id: Seq<char>| #[trigger]
                relies_on(was, seed_set, changed@.dom(), id) ==> changed@.dom().contains(id)
                    && items@[id] == (ItemView { stale: true, confirmed: false, ..was[id] }),
        decreases bound.len() - changed@.dom().len(), (if settled {
            0int
        } else {
            1int
        }),
    {
        let before = changed.len();
        let ghost first = changed@.dom();
        let n = items.len();
        let ghost keys = items.keys();
        let mut i: usize = 0;
        while i < n
            invariant
                i <= n == keys.len(),
                keys == items.keys(),
                table::lists::<String>(keys, was.dom()),
                items@.dom() == was.dom(),
                first.subset_of(changed@.dom()),
                first.finite(),
                changed@.dom().finite(),
                before == first.len(),
                changed@.dom().subset_of(bound),
                start.subset_of(changed@.dom()),
                changed@.dom().subset_of(goal),
                forall|id: Seq<char>| #[trigger]
                    was.dom().contains(id) ==> items@[id] == was[id] || (items@[id] == (ItemView {
                        stale: true,
                        confirmed: false,
                        ..was[id]
                    }) && relies_on(was, seed_set, changed@.dom(), id)),
                forall|j: int|
                    0 <= j < i && relies_on(was, seed_set, first, #[trigger] keys[j])
                        ==> changed@.dom().contains(keys[j]) && items@[keys[j]] == (ItemView {
                        stale: true,
                        confirmed: false,
                        ..was[keys[j]]
                    }),
            decreases n - i,
        {
            let key = owned(items.key_at(i).as_str());
            let item = items.value_at(i);
            let ghost id = keys[i as int];
            let ghost now = changed@.dom();
            proof {
                assert(was.dom().contains(id)) by {
                    assert(keys.to_set().contains(id));
                }
                assert(items@[id].refs == was[id].refs && items@[id].kind == was[id].kind);
            }
            if same_text(item.kind.as_str(), "summary") && !has_text(seeds, key.as_str())
                && refers_into(&item.refs, &changed) {
                let mut next = item.duplicate();
                next.stale = true;
                next.confirmed = false;
                proof {
                    assert(relies_on(was, seed_set, now, id));
                    let k = choose|k: int|
                        0 <= k < was[id].refs.len() && now.contains(#[trigger] was[id].refs[k]);
                    assert(goal.contains(was[id].refs[k]));
                    assert(relies_on(was, seed_set, goal, id));
                    lemma_changed_closed(was, seed_set, id);
                }
                let ghost old_items = items@;
                items.put(owned(key.as_str()), next);
                changed.put(key, true);
                let m = items.len();
                proof {
                    assert(items@.dom() =~= was.dom());
                    table::lemma_lists_unique::<String>(keys, items.keys(), was.dom());
                    assert forall|x: Seq<char>| #[trigger] was.dom().contains(x) implies items@[x]
                        == was[x] || (items@[x] == (ItemView {
                        stale: true,
                        confirmed: false,
                        ..was[x]
                    }) && relies_on(was, seed_set, changed@.dom(), x)) by {
                        if x == id {
                            lemma_relies_grows(was, seed_set, now, changed@.dom(), id);
                        } else if items@[x] != was[x] {
                            lemma_relies_grows(was, seed_set, now, changed@.dom(), x);
                        }
                    }
                    assert forall|j: int| 0 <= j < i + 1 && relies_on(
                        was,
                        seed_set,
                        first,
                        #[trigger] keys[j],
                    ) implies changed@.dom().contains(keys[j]) && items@[keys[j]] == (ItemView {
                        stale: true,
                        confirmed: false,
                        ..was[keys[j]]
                    }) by {
                        if j < i && keys[j] != id {
                            assert(old_items[keys[j]] == items@[keys[j]]);
                        }
                    }
                }
            } else {
                proof {
                    if relies_on(was, seed_set, first, id) {
                        lemma_relies_grows(was, seed_set, first, now, id);
                        assert(false);
                    }
                }
            }
            i += 1;
        }
        let after = changed.len();
        proof {
            vstd::set_lib::lemma_len_subset(first, changed@.dom());
            vstd::set_lib::lemma_len_subset(changed@.dom(), bound);
            if after == before {
                vstd::set_lib::lemma_subset_equality(first, changed@.dom());
                assert forall|id: Seq<char>| #[trigger]
                    relies_on(was, seed_set, changed@.dom(), id) implies changed@.dom().contains(
                    id,
                ) && items@[id] == (ItemView { stale: true, confirmed: false, ..was[id] }) by {
                    assert(keys.to_set().contains(id));
                    let j = keys.index_of(id);
                    assert(relies_on(was, seed_set, first, keys[j]));
                }
            }
        }
        if after == before {
            settled = true;
        }
    }
    proof {
        let found = changed@.dom();
        assert forall|id: Seq<char>| goal.contains(id) implies found.contains(id) by {
            let rounds = choose|rounds: nat| #[trigger]
                spread(was, seed_set, start, rounds).contains(id);
            lemma_spread_within(was, seed_set, start, found, rounds);
        }
        assert(found =~= goal);
        assert forall|id: Seq<char>| was.dom().contains(id) implies items@[id] == item_after(
            was,
            seed_set,
            id,
        ) by {
            if relies_on(was, seed_set, goal, id) {
                assert(relies_on(was, seed_set, found, id));
            }
        }
        assert(items@ =~= invalidated(was, seed_set));
    }
}

proof fn lemma_relies_grows(
    items: Items,
    seeds: Set<Seq<char>>,
    a: Set<Seq<char>>,
    b: Set<Seq<char>>,
    id: Seq<char>,
)
    requires
        a.subset_of(b),
        relies_on(items, seeds, a, id),
    ensures
        relies_on(items, seeds, b, id),
{
    let k = choose|k: int|
        0 <= k < items[id].refs.len() && a.contains(#[trigger] items[id].refs[k]);
    assert(b.contains(items[id].refs[k]));
}


// ---------------------------------------------------------------------------
// What a discussion must be
// ---------------------------------------------------------------------------

/// The current document of a discussion.
pub struct DiscussionBody {
    pub id: String,
    pub title: String,
    pub description: String,
    pub state: String,
    pub items: Table<String, DiscussionItem>,
    pub revision: i64,
}

/// What the document of a discussion says.
#[verifier::ext_equal]
pub struct BodyView {
    pub id: Seq<char>,
    pub title: Seq<char>,
    pub description: Seq<char>,
    pub state: Seq<char>,
    pub items: Items,
    pub revision: int,
}

impl View for DiscussionBody {
    type V = BodyView;

    open spec fn view(&self) -> BodyView {
        BodyView {
            id: self.id@,
            title: self.title@,
            description: self.description@,
            state: self.state@,
            items: self.items@,
            revision: self.revision as int,
        }
    }
}

impl Record for DiscussionBody {
    fn duplicate(&self) -> (r: Self) {
        DiscussionBody {
            id: owned(self.id.as_str()),
            title: owned(self.title.as_str()),
            description: owned(self.description.as_str()),
            state: owned(self.state.as_str()),
            items: self.items.copy(),
            revision: self.revision,
        }
    }

    fn same(&self, other: &Self) -> (r: bool) {
        same_text(self.id.as_str(), other.id.as_str()) && same_text(
            self.title.as_str(),
            other.title.as_str(),
        ) && same_text(self.description.as_str(), other.description.as_str()) && same_text(
            self.state.as_str(),
            other.state.as_str(),
        ) && self.items.equals(&other.items) && self.revision == other.revision
    }
}

/// The references of a summary; other items have none to follow.
pub open spec fn links(items: Items, id: Seq<char>) -> Set<Seq<char>> {
    if items.dom().contains(id) && items[id].kind == "summary"@ {
        items[id].refs.to_set()
    } else {
        Set::empty()
    }
}

/// What is reached from a summary in at most `steps` further steps.
pub open spec fn reached(items: Items, id: Seq<char>, steps: nat) -> Set<Seq<char>>
    decreases steps,
{
    if steps == 0 {
        items[id].refs.to_set()
    } else {
        let before = reached(items, id, (steps - 1) as nat);
        before + Set::new(
            |t: Seq<char>|
                exists|via: Seq<char>| #[trigger]
                    before.contains(via) && links(items, via).contains(t),
        )
    }
}

/// Following references leads from one item to the other.
pub open spec fn leads_to(items: Items, id: Seq<char>, target: Seq<char>) -> bool {
    exists|steps: nat| #[trigger] reached(items, id, steps).contains(target)
}

/// The summary refers to itself, directly or through other summaries.
pub open spec fn is_cyclic(items: Items, id: Seq<char>) -> bool {
    leads_to(items, id, id)
}

/// The summary leads to an item that is not there.
pub open spec fn is_dangling(items: Items, id: Seq<char>) -> bool {
    exists|target: Seq<char>| #[trigger]
        leads_to(items, id, target) && !items.dom().contains(target)
}

pub open spec fn is_item_kind(kind: Seq<char>) -> bool {
    ||| kind == "question"@
    ||| kind == "answer"@
    ||| kind == "option"@
    ||| kind == "summary"@
    ||| kind == "gap"@
    ||| kind == "reply"@
}

/// The item's parent, where it has one, is a question.
pub open spec fn parent_sound(items: Items, id: Seq<char>) -> bool {
    items[id].parent matches Some(parent) ==> items.dom().contains(parent) && items[parent].kind
        == "question"@
}

/// The item keeps every rule.
pub open spec fn item_sound(items: Items, id: Seq<char>) -> bool {
    let item = items[id];
    &&& good_text(item.text)
    &&& good_text(item.original)
    &&& is_item_kind(item.kind)
    &&& text::byte_count(id) <= MAX_ID_BYTES
    &&& item.ordinal >= 0
    &&& item.id == id
    &&& parent_sound(items, id)
    &&& item.kind == "summary"@ ==> item.refs.len() > 0 && !is_cyclic(items, id) && !is_dangling(
        items,
        id,
    )
}

pub open spec fn is_state(state: Seq<char>) -> bool {
    state == "active"@ || state == "paused"@ || state == "closed"@
}

/// The discussion keeps every rule.
pub open spec fn body_sound(body: BodyView) -> bool {
    &&& good_text(body.title)
    &&& is_state(body.state)
    &&& body.items.dom().len() <= MAX_ITEMS
    &&& forall|id: Seq<char>| #[trigger]
        body.items.dom().contains(id) ==> item_sound(body.items, id)
}

/// What following references comes upon first: the summary itself, or an item that is not
/// there. The reference that was noted last is followed first.
pub open spec fn walk_fault(
    items: Items,
    id: Seq<char>,
    stack: Seq<Seq<char>>,
    visited: Set<Seq<char>>,
) -> Option<Seq<char>>
    decreases items.dom().difference(visited).len(), stack.len(),
    when items.dom().finite()
{
    if stack.len() == 0 {
        None
    } else {
        let target = stack.last();
        if target == id {
            Some("cyclic summary reference"@)
        } else if visited.contains(target) {
            walk_fault(items, id, stack.drop_last(), visited)
        } else if !items.dom().contains(target) {
            Some("unknown reference"@)
        } else {
            proof {
                let left = items.dom().difference(visited);
                assert(items.dom().difference(visited.insert(target)) =~= left.remove(target));
                assert(left.contains(target));
            }
            walk_fault(
                items,
                id,
                if items[target].kind == "summary"@ {
                    stack.drop_last() + items[target].refs
                } else {
                    stack.drop_last()
                },
                visited.insert(target),
            )
        }
    }
}

/// The first rule that an item breaks.
pub open spec fn item_fault(items: Items, id: Seq<char>) -> Option<Seq<char>> {
    let item = items[id];
    if !good_text(item.text) || !good_text(item.original) {
        Some("nonempty text up to 65536 bytes required"@)
    } else if !is_item_kind(item.kind) {
        Some("invalid item kind"@)
    } else if text::byte_count(id) > MAX_ID_BYTES || item.ordinal < 0 {
        Some("invalid item order or ID"@)
    } else if item.id != id {
        Some("item ID mismatch"@)
    } else if !parent_sound(items, id) {
        Some("parent question missing"@)
    } else if item.kind != "summary"@ {
        None
    } else if item.refs.len() == 0 {
        Some("summary references required"@)
    } else {
        walk_fault(items, id, item.refs, Set::empty())
    }
}

/// The first rule that one of some items breaks.
pub open spec fn items_fault(items: Items, ids: Seq<Seq<char>>) -> Option<Seq<char>>
    decreases ids.len(),
{
    if ids.len() == 0 {
        None
    } else {
        match item_fault(items, ids[0]) {
            Some(fault) => Some(fault),
            None => items_fault(items, ids.drop_first()),
        }
    }
}

/// The first rule that a discussion breaks; its items are looked at in ascending order.
pub open spec fn body_fault(body: BodyView) -> Option<Seq<char>> {
    if !good_text(body.title) {
        Some("nonempty text up to 65536 bytes required"@)
    } else if !is_state(body.state) {
        Some("invalid discussion state"@)
    } else if body.items.dom().len() > MAX_ITEMS {
        Some("discussion item limit exceeded; start a linked discussion"@)
    } else {
        items_fault(body.items, table::ordered::<String>(body.items.dom()))
    }
}

/// The outcome of a check that found a fault, or none.
pub open spec fn checked(fault: Option<Seq<char>>) -> Result<(), AppErrorView> {
    match fault {
        Some(message) => discussion_refused(message),
        None => Ok(()),
    }
}

/// Everything reached from a summary stands in a set that holds its references
/// and everything that its members link to.
proof fn lemma_reached_within(
    items: Items,
    id: Seq<char>,
    whole: Set<Seq<char>>,
    steps: nat,
)
    requires
        items[id].refs.to_set().subset_of(whole),
        forall|via: Seq<char>| #[trigger]
            whole.contains(via) ==> links(items, via).subset_of(whole),
    ensures
        reached(items, id, steps).subset_of(whole),
    decreases steps,
{
    if steps > 0 {
        lemma_reached_within(items, id, whole, (steps - 1) as nat);
        let before = reached(items, id, (steps - 1) as nat);
        assert forall|t: Seq<char>| reached(items, id, steps).contains(t) implies whole.contains(
            t,
        ) by {
            if !before.contains(t) {
                let via = choose|via: Seq<char>| #[trigger]
                    before.contains(via) && links(items, via).contains(t);
                assert(whole.contains(via));
            }
        }
    }
}

/// What an item on the way links to is on the way too.
proof fn lemma_leads_on(items: Items, id: Seq<char>, via: Seq<char>, target: Seq<char>)
    requires
        leads_to(items, id, via),
        links(items, via).contains(target),
    ensures
        leads_to(items, id, target),
{
    let steps = choose|steps: nat| #[trigger] reached(items, id, steps).contains(via);
    assert(reached(items, id, (steps + 1) as nat).contains(target));
}

/// The text stands on the stack.
spec fn stacked(stack: Seq<String>, t: Seq<char>) -> bool {
    exists|k: int| 0 <= k < stack.len() && #[trigger] stack[k]@ == t
}

/// Follows the references of a summary; says what is wrong with them, if anything.
#[verifier::rlimit(40)]
fn follow_references(items: &Table<String, DiscussionItem>, id: &String) -> (r: Result<
    (),
    AppError,
>)
    requires
        items@.dom().contains(id@),
    ensures
        r is Ok == (!is_cyclic(items@, id@) && !is_dangling(items@, id@)),
        error::value_outcome(r) == checked(
            walk_fault(items@, id@, items@[id@].refs, Set::empty()),
        ),
{
    let ghost all = items@;
    let total = items.len();
    let mut stack: Vec<String> = match items.get(id) {
        Some(item) => copy_texts(&item.refs),
        None => Vec::new(),
    };
    let mut visited: Table<String, bool> = Table::new();
    let ghost fault = walk_fault(all, id@, all[id@].refs, Set::empty());
    assert(text::views(stack@) =~= all[id@].refs);
    assert(visited@.dom() =~= Set::empty());
    proof {
        assert forall|k: int| 0 <= k < stack@.len() implies leads_to(
            all,
            id@,
            #[trigger] stack@[k]@,
        ) by {
            assert(text::views(stack@)[k] == stack@[k]@);
            assert(all[id@].refs.contains(stack@[k]@));
            assert(reached(all, id@, 0).contains(stack@[k]@));
        }
        assert forall|t: Seq<char>| #[trigger] all[id@].refs.contains(t) implies stacked(
            stack@,
            t,
        ) by {
            let k = all[id@].refs.index_of(t);
            assert(text::views(stack@)[k] == stack@[k]@);
        }
    }
    while stack.len() > 0
        invariant
            forall|k: int| 0 <= k < stack@.len() ==> leads_to(all, id@, #[trigger] stack@[k]@),
            forall|v: Seq<char>| #[trigger]
                visited@.dom().contains(v) ==> v != id@ && all.dom().contains(v),
            visited@.dom().finite(),
            visited@.dom().len() <= all.dom().len(),
            all.dom().finite(),
            walk_fault(all, id@, text::views(stack@), visited@.dom()) == fault,
            forall|t: Seq<char>| #[trigger]
                all[id@].refs.contains(t) ==> visited@.dom().contains(t) || stacked(stack@, t),
            forall|v: Seq<char>, t: Seq<char>|
                #![trigger visited@.dom().contains(v), links(all, v).contains(t)]
                visited@.dom().contains(v) && links(all, v).contains(t)
                    ==> visited@.dom().contains(t) || stacked(stack@, t),
        decreases all.dom().len() - visited@.dom().len(), stack@.len(),
    {
        let ghost was = stack@;
        let ghost seen = visited@.dom();
        let target = match stack.pop() {
            Some(target) => target,
            None => String::new(),
        };
        let ghost top = target@;
        assert(was[was.len() - 1]@ == top);
        assert(text::views(was).last() == top);
        assert(text::views(stack@) =~= text::views(was).drop_last());
        proof {
            assert forall|t: Seq<char>| #[trigger] stacked(was, t) && t != top implies stacked(
                stack@,
                t,
            ) by {
                let k = choose|k: int| 0 <= k < was.len() && #[trigger] was[k]@ == t;
                assert(stack@[k]@ == t);
            }
        }
        if same_text(target.as_str(), id.as_str()) {
            return Err(discussion_error("cyclic summary reference"));
        }
        if visited.has(&target) {
            continue;
        }
        match items.get(&target) {
            None => {
                return Err(discussion_error("unknown reference"));
            },
            Some(linked) => {
                visited.put(target, true);
                let ghost base = stack@;
                let ghost refs = linked@.refs;
                let mut k: usize = 0;
                if same_text(linked.kind.as_str(), "summary") {
                    while k < linked.refs.len()
                        invariant
                            k <= linked.refs@.len(),
                            stack@.len() == base.len() + k,
                            forall|j: int| 0 <= j < base.len() ==> stack@[j] == base[j],
                            forall|j: int|
                                0 <= j < k ==> (#[trigger] stack@[base.len() + j])@
                                    == linked.refs@[j]@,
                        decreases linked.refs@.len() - k,
                    {
                        stack.push(owned(linked.refs[k].as_str()));
                        k += 1;
                    }
                    proof {
                        let whole = text::views(base) + refs;
                        assert forall|j: int| 0 <= j < stack@.len() implies text::views(stack@)[j]
                            == #[trigger] whole[j] by {
                            if j >= base.len() {
                                let m = j - base.len();
                                assert(stack@[base.len() + m]@ == linked.refs@[m]@);
                            }
                        }
                        assert(text::views(stack@) =~= whole);
                    }
                }
                let known = visited.len();
                assert(walk_fault(all, id@, text::views(stack@), seen.insert(top)) == fault);
                proof {
                    assert(visited@.dom() =~= seen.insert(top));
                    assert(seen.insert(top).len() == seen.len() + 1);
                    assert(visited@.dom().subset_of(all.dom()));
                    vstd::set_lib::lemma_len_subset(visited@.dom(), all.dom());
                    assert forall|j: int| 0 <= j < stack@.len() implies leads_to(
                        all,
                        id@,
                        #[trigger] stack@[j]@,
                    ) by {
                        if j < base.len() {
                            assert(stack@[j] == base[j]);
                            assert(base[j] == was[j]);
                        } else {
                            let m = j - base.len();
                            assert(stack@[base.len() + m]@ == linked.refs@[m]@);
                            assert(text::views(linked.refs@)[m] == linked.refs@[m]@);
                            assert(links(all, top).contains(stack@[j]@));
                            lemma_leads_on(all, id@, top, stack@[j]@);
                        }
                    }
                    assert forall|t: Seq<char>| #[trigger] stacked(base, t) implies stacked(
                        stack@,
                        t,
                    ) by {
                        let x = choose|x: int| 0 <= x < base.len() && #[trigger] base[x]@ == t;
                        assert(stack@[x]@ == t);
                    }
                    assert forall|v: Seq<char>, t: Seq<char>|
                        #![trigger visited@.dom().contains(v), links(all, v).contains(t)]
                        visited@.dom().contains(v) && links(all, v).contains(
                            t,
                        ) implies visited@.dom().contains(t) || stacked(stack@, t) by {
                        if v == top {
                            let m = refs.index_of(t);
                            assert(text::views(linked.refs@)[m] == linked.refs@[m]@);
                            assert(stack@[base.len() + m]@ == t);
                        } else {
                            assert(seen.contains(v));
                        }
                    }
                }
            },
        }
    }
    proof {
        let whole = visited@.dom();
        assert forall|t: Seq<char>| !stacked(stack@, t) by {}
        assert(all[id@].refs.to_set().subset_of(whole));
        assert forall|via: Seq<char>| #[trigger] whole.contains(via) implies links(
            all,
            via,
        ).subset_of(whole) by {
            assert forall|t: Seq<char>| links(all, via).contains(t) implies whole.contains(t) by {
                assert(visited@.dom().contains(via) && links(all, via).contains(t));
            }
        }
        assert forall|t: Seq<char>| #[trigger] leads_to(all, id@, t) implies whole.contains(t) by {
            let steps = choose|steps: nat| #[trigger] reached(all, id@, steps).contains(t);
            lemma_reached_within(all, id@, whole, steps);
        }
        if is_cyclic(all, id@) {
            assert(whole.contains(id@));
        }
    }
    Ok(())
}

/// Whether a text names a kind of item.
pub fn item_kind(kind: &str) -> (r: bool)
    ensures
        r == is_item_kind(kind@),
{
    same_text(kind, "question") || same_text(kind, "answer") || same_text(kind, "option")
        || same_text(kind, "summary") || same_text(kind, "gap") || same_text(kind, "reply")
}

/// Checks one item.
fn validate_item(items: &Table<String, DiscussionItem>, id: &String, item: &DiscussionItem) -> (r:
    Result<(), AppError>)
    requires
        items@.dom().contains(id@),
        items@[id@] == item@,
    ensures
        r is Ok == item_sound(items@, id@),
        error::value_outcome(r) == checked(item_fault(items@, id@)),
{
    if let Err(e) = discussion_text(Some(item.text.as_str())) {
        return Err(e);
    }
    if let Err(e) = discussion_text(Some(item.original.as_str())) {
        return Err(e);
    }
    if !item_kind(item.kind.as_str()) {
        return Err(discussion_error("invalid item kind"));
    }
    if byte_len(id.as_str()) > MAX_ID_BYTES || item.ordinal < 0 {
        return Err(discussion_error("invalid item order or ID"));
    }
    if !same_text(item.id.as_str(), id.as_str()) {
        return Err(discussion_error("item ID mismatch"));
    }
    match &item.parent {
        Some(parent) => {
            let question = match items.get(parent) {
                Some(found) => same_text(found.kind.as_str(), "question"),
                None => false,
            };
            if !question {
                return Err(discussion_error("parent question missing"));
            }
        },
        None => {},
    }
    if same_text(item.kind.as_str(), "summary") {
        assert(text::views(item.refs@).len() == item.refs@.len());
        if item.refs.len() == 0 {
            return Err(discussion_error("summary references required"));
        }
        return follow_references(items, id);
    }
    Ok(())
}

/// Checks that a discussion keeps every rule.
pub fn validate_discussion_body(body: &DiscussionBody) -> (r: Result<(), AppError>)
    ensures
        r is Ok == body_sound(body@),
        error::value_outcome(r) == checked(body_fault(body@)),
{
    if let Err(e) = discussion_text(Some(body.title.as_str())) {
        return Err(e);
    }
    let state = body.state.as_str();
    if !same_text(state, "active") && !same_text(state, "paused") && !same_text(state, "closed") {
        return Err(discussion_error("invalid discussion state"));
    }
    let n = body.items.len();
    if n > MAX_ITEMS {
        return Err(
            discussion_error("discussion item limit exceeded; start a linked discussion"),
        );
    }
    let ghost keys = body.items.keys();
    proof {
        table::lemma_ordered_is::<String>(keys, body@.items.dom());
    }
    assert(keys.skip(0) =~= keys);
    let mut i: usize = 0;
    while i < n
        invariant
            i <= n == keys.len(),
            keys == body.items.keys(),
            forall|j: int| 0 <= j < i ==> item_sound(body.items@, #[trigger] keys[j]),
            items_fault(body@.items, keys.skip(i as int)) == body_fault(body@),
        decreases n - i,
    {
        assert(keys.skip(i as int)[0] == keys[i as int]);
        assert(keys.skip(i as int).drop_first() =~= keys.skip(i + 1));
        let id = body.items.key_at(i);
        let item = body.items.value_at(i);
        let checked = validate_item(&body.items, id, item);
        match checked {
            Ok(()) => {},
            Err(e) => {
                assert(body@.items.dom().contains(id@));
                return Err(e);
            },
        }
        i += 1;
    }
    proof {
        assert forall|id: Seq<char>| #[trigger]
            body@.items.dom().contains(id) implies item_sound(body@.items, id) by {
            assert(keys.to_set().contains(id));
            let j = keys.index_of(id);
            assert(item_sound(body.items@, keys[j]));
        }
    }
    Ok(())
}

} // verus!
