//! What the tables of a store do not take: rows that stand there already, that refer to
//! nothing, or whose values are out of bounds.
use crate::changesets;
use crate::changesets::only_spaces;
use crate::error::{AppError, AppErrorView, ErrorCode};
use crate::ingest;
use crate::ingest::validate_ingest_status;
use crate::pages;
use crate::pages::dedupe_i64;
use crate::rows::{
    IngestRow, IngestView, PageRow, PageView, TagPolicy, TagPolicyView,
};
use crate::sparse_merge;
use crate::store;
use crate::store::{Store, StoreView};
use crate::table;
use crate::table::Record;
use crate::text;
use crate::text::{same_text, sorted_texts};
use vstd::prelude::*;

verus! {

pub(crate) fn unique_failed() -> (r: AppError)
    ensures
        r@ == sparse_merge::unique_failed(),
{
    AppError::new(ErrorCode::DatabaseError, "UNIQUE constraint failed")
}

pub(crate) fn check_failed() -> (r: AppError)
    ensures
        r@ == changesets::check_failed(),
{
    AppError::new(ErrorCode::DatabaseError, "CHECK constraint failed")
}

// ---------------------------------------------------------------------------
// Pages
// ---------------------------------------------------------------------------

/// The first of the first `count` citations that the table does not take.
pub open spec fn citations_refused(store: StoreView, ids: Seq<i64>, count: nat) -> Option<
    AppErrorView,
>
    decreases count,
{
    if count == 0 || count > ids.len() {
        None
    } else {
        match citations_refused(store, ids, (count - 1) as nat) {
            Some(e) => Some(e),
            None => if ids.take(count - 1).contains(ids[count - 1]) {
                Some(sparse_merge::unique_failed())
            } else if !store.sources.dom().contains(ids[count - 1]) {
                Some(store::broken_reference())
            } else {
                None
            },
        }
    }
}

/// The first of the first `count` statements of provenance that the table does not take.
pub open spec fn provenance_refused(values: Seq<Seq<char>>, count: nat) -> Option<AppErrorView>
    decreases count,
{
    if count == 0 || count > values.len() {
        None
    } else {
        match provenance_refused(values, (count - 1) as nat) {
            Some(e) => Some(e),
            None => if !pages::is_explicit(values[count - 1]) {
                Some(changesets::check_failed())
            } else if values.take(count - 1).contains(values[count - 1]) {
                Some(sparse_merge::unique_failed())
            } else {
                None
            },
        }
    }
}

/// The first of the first `count` links that the table does not take.
pub open spec fn links_refused(values: Seq<Seq<char>>, count: nat) -> Option<AppErrorView>
    decreases count,
{
    if count == 0 || count > values.len() {
        None
    } else {
        match links_refused(values, (count - 1) as nat) {
            Some(e) => Some(e),
            None => if values.take(count - 1).contains(values[count - 1]) {
                Some(sparse_merge::unique_failed())
            } else {
                None
            },
        }
    }
}

/// Why the tables do not take a page with its citations, provenance and links.
pub open spec fn page_refused(store: StoreView, page: PageView) -> Option<AppErrorView> {
    match citations_refused(store, page.source_ids, page.source_ids.len()) {
        Some(e) => Some(e),
        None => match provenance_refused(page.provenance, page.provenance.len()) {
            Some(e) => Some(e),
            None => links_refused(page.links, page.links.len()),
        },
    }
}

/// A page as the tables give it back: its lists in ascending order.
pub open spec fn page_kept(page: PageView) -> PageView {
    PageView {
        source_ids: pages::distinct(page.source_ids),
        provenance: text::sorted(page.provenance.to_set()),
        links: text::sorted(page.links.to_set()),
        ..page
    }
}

/// A page whose lists are in ascending order.
pub open spec fn well_kept(page: PageView) -> bool {
    &&& table::in_order::<i64>(page.source_ids)
    &&& text::ascending(page.provenance)
    &&& text::ascending(page.links)
}

/// A page whose lists are in ascending order is given back as it is.
pub proof fn lemma_well_kept(page: PageView)
    requires
        well_kept(page),
    ensures
        page_kept(page) == page,
{
    table::lemma_ordered_is::<i64>(page.source_ids, page.source_ids.to_set());
    text::lemma_sorted_is(page.provenance);
    text::lemma_sorted_is(page.links);
}

proof fn lemma_citations_stop(store: StoreView, ids: Seq<i64>, count: nat, more: nat)
    requires
        count <= more <= ids.len(),
        citations_refused(store, ids, count) is Some,
    ensures
        citations_refused(store, ids, more) == citations_refused(store, ids, count),
    decreases more,
{
    if count < more {
        lemma_citations_stop(store, ids, count, (more - 1) as nat);
    }
}

proof fn lemma_provenance_stop(values: Seq<Seq<char>>, count: nat, more: nat)
    requires
        count <= more <= values.len(),
        provenance_refused(values, count) is Some,
    ensures
        provenance_refused(values, more) == provenance_refused(values, count),
    decreases more,
{
    if count < more {
        lemma_provenance_stop(values, count, (more - 1) as nat);
    }
}

proof fn lemma_links_stop(values: Seq<Seq<char>>, count: nat, more: nat)
    requires
        count <= more <= values.len(),
        links_refused(values, count) is Some,
    ensures
        links_refused(values, more) == links_refused(values, count),
    decreases more,
{
    if count < more {
        lemma_links_stop(values, count, (more - 1) as nat);
    }
}

/// The members of a list in ascending order are those of the list.
pub proof fn lemma_distinct(ids: Seq<i64>)
    ensures
        table::in_order::<i64>(pages::distinct(ids)),
        pages::distinct(ids).to_set() == ids.to_set(),
        forall|k: int|
            0 <= k < pages::distinct(ids).len() ==> ids.contains(#[trigger] pages::distinct(ids)[k]),
{
    vstd::seq_lib::seq_to_set_is_finite(ids);
    table::lemma_has_order::<i64>(ids.to_set());
    let ordered = pages::distinct(ids);
    assert forall|k: int| 0 <= k < ordered.len() implies ids.contains(#[trigger] ordered[k]) by {
        assert(ordered.to_set().contains(ordered[k]));
    }
}

fn repeats_id(list: &Vec<i64>, at: usize) -> (r: bool)
    requires
        at < list@.len(),
    ensures
        r == list@.take(at as int).contains(list@[at as int]),
{
    let mut i: usize = 0;
    while i < at
        invariant
            i <= at < list@.len(),
            forall|j: int| 0 <= j < i ==> list@[j] != list@[at as int],
        decreases at - i,
    {
        if list[i] == list[at] {
            assert(list@.take(at as int)[i as int] == list@[at as int]);
            return true;
        }
        i += 1;
    }
    false
}

fn repeats_text(list: &Vec<String>, at: usize) -> (r: bool)
    requires
        at < list@.len(),
    ensures
        r == text::views(list@).take(at as int).contains(text::views(list@)[at as int]),
{
    let ghost all = text::views(list@);
    let mut i: usize = 0;
    while i < at
        invariant
            i <= at < list@.len(),
            all == text::views(list@),
            forall|j: int| 0 <= j < i ==> all[j] != all[at as int],
        decreases at - i,
    {
        assert(all[i as int] == list@[i as int]@ && all[at as int] == list@[at as int]@);
        if same_text(list[i].as_str(), list[at].as_str()) {
            assert(all.take(at as int)[i as int] == all[at as int]);
            return true;
        }
        i += 1;
    }
    false
}

/// Why the tables do not take a page with its citations, provenance and links.
pub fn refuse_page(live: &Store, page: &PageRow) -> (r: Option<AppError>)
    ensures
        text::opt_view(r) == page_refused(live@, page@),
{
    let ids = &page.source_ids;
    let mut i: usize = 0;
    while i < ids.len()
        invariant
            i <= ids@.len(),
            ids@ == page@.source_ids,
            citations_refused(live@, ids@, i as nat) is None,
        decreases ids@.len() - i,
    {
        proof {
            if citations_refused(live@, ids@, (i + 1) as nat) is Some {
                lemma_citations_stop(live@, ids@, (i + 1) as nat, ids@.len());
            }
        }
        if repeats_id(ids, i) {
            return Some(unique_failed());
        }
        if !live.sources.has(&ids[i]) {
            return Some(store::broken_reference_error());
        }
        i += 1;
    }
    let ghost said = text::views(page.provenance@);
    let mut i: usize = 0;
    while i < page.provenance.len()
        invariant
            i <= page.provenance@.len() == said.len(),
            said == text::views(page.provenance@),
            provenance_refused(said, i as nat) is None,
        decreases page.provenance@.len() - i,
    {
        assert(said[i as int] == page.provenance@[i as int]@);
        proof {
            if provenance_refused(said, (i + 1) as nat) is Some {
                lemma_provenance_stop(said, (i + 1) as nat, said.len());
            }
        }
        let one = page.provenance[i].as_str();
        if !(same_text(one, "user-provided") || same_text(one, "agent-observed") || same_text(
            one,
            "hypothesis",
        )) {
            return Some(check_failed());
        }
        if repeats_text(&page.provenance, i) {
            return Some(unique_failed());
        }
        i += 1;
    }
    let ghost links = text::views(page.links@);
    let mut i: usize = 0;
    while i < page.links.len()
        invariant
            i <= page.links@.len() == links.len(),
            links == text::views(page.links@),
            links_refused(links, i as nat) is None,
        decreases page.links@.len() - i,
    {
        proof {
            if links_refused(links, (i + 1) as nat) is Some {
                lemma_links_stop(links, (i + 1) as nat, links.len());
            }
        }
        if repeats_text(&page.links, i) {
            return Some(unique_failed());
        }
        i += 1;
    }
    None
}

/// A page as the tables give it back.
pub fn keep_page(page: &PageRow) -> (r: PageRow)
    ensures
        r@ == page_kept(page@),
{
    let mut kept = page.duplicate();
    kept.source_ids = dedupe_i64(&page.source_ids);
    kept.provenance = sorted_texts(&page.provenance);
    kept.links = sorted_texts(&page.links);
    kept
}

// ---------------------------------------------------------------------------
// Tags and jobs
// ---------------------------------------------------------------------------

/// The table of tags takes a policy.
pub open spec fn policy_fits(policy: TagPolicyView) -> bool {
    1 <= policy.autoload_limit <= 100 && 1 <= policy.autoload_max_chars <= 100000
}

pub fn fits_as_policy(policy: &TagPolicy) -> (r: bool)
    ensures
        r == policy_fits(policy@),
{
    1 <= policy.autoload_limit && policy.autoload_limit <= 100 && 1 <= policy.autoload_max_chars
        && policy.autoload_max_chars <= 100000
}

/// The table of jobs takes a job.
pub open spec fn job_fits(job: IngestView) -> bool {
    ingest::is_status(job.status) && job.attempts >= 0
}

pub fn fits_as_job(job: &IngestRow) -> (r: bool)
    ensures
        r == job_fits(job@),
{
    validate_ingest_status(job.status.as_str()).is_ok() && job.attempts >= 0
}

/// The table of observations takes one at a path.
pub open spec fn observation_fits(path: Seq<char>, revision: i64) -> bool {
    !changesets::is_spaces(path) && revision >= 1
}

pub fn fits_as_observation(path: &str, revision: i64) -> (r: bool)
    ensures
        r == observation_fits(path@, revision),
{
    !only_spaces(path) && revision >= 1
}

} // verus!
