//! What a search hands out, whatever was found.
use crate::error::ErrorCode;
use crate::markdown;
use crate::pages;
use crate::search;
use crate::search::{
    HitGroupView, HitView, SearchGranularity, SearchMode, SearchOptionsView, SpanChoice,
};
use crate::store::StoreView;
use crate::table::PairView;
use crate::text;
use vstd::prelude::*;

verus! {

/// The document that a hit is in, or is itself, has a type.
pub open spec fn lies_in(hit: HitView, document_type: Seq<char>) -> bool {
    match hit.document {
        Some(document) => document.document_type == document_type,
        None => hit.result_type == document_type,
    }
}

/// One of the kinds that are asked for is that of the hit, in whatever case, and with blanks
/// round it.
pub open spec fn has_kind(hit: HitView, kinds: Seq<Seq<char>>) -> bool {
    exists|k: int|
        0 <= k < kinds.len() && hit.kind is Some && markdown::lowered(
            text::trimmed(#[trigger] kinds[k]),
        ) == markdown::lowered(hit.kind->0)
}

/// A hit answers a request: it lies in a page where pages are asked for, in a source where
/// sources are, and has one of the kinds where kinds are asked for, sources aside.
pub open spec fn answers(hit: HitView, options: SearchOptionsView) -> bool {
    &&& options.mode == SearchMode::Page ==> lies_in(hit, "page"@)
    &&& options.mode == SearchMode::Source ==> lies_in(hit, "source"@)
    &&& options.kinds.len() > 0 ==> lies_in(hit, "source"@) || has_kind(hit, options.kinds)
}

/// A page among the hits stands for a source: its kind says so, in whatever case, and it is
/// paired with the source.
pub open spec fn stands_for(hit: HitView, id: i64) -> bool {
    &&& hit.result_type == "page"@
    &&& hit.kind is Some
    &&& markdown::ascii_lowered(hit.kind->0) == "source"@
    &&& hit.paired_source_ids.contains(id)
}

proof fn lemma_answers(hit: HitView, options: SearchOptionsView)
    ensures
        search::is_asked_for(hit, options.mode, search::plain_kinds(options.kinds)) == answers(
            hit,
            options,
        ),
{
    let plain = search::plain_kinds(options.kinds);
    assert(plain.len() == options.kinds.len());
    if hit.kind is Some {
        let kind = markdown::lowered(hit.kind->0);
        if plain.contains(kind) {
            let k = plain.index_of(kind);
            assert(markdown::lowered(text::trimmed(options.kinds[k])) == kind);
        }
        if has_kind(hit, options.kinds) {
            let k = choose|k: int|
                0 <= k < options.kinds.len() && hit.kind is Some && markdown::lowered(
                    text::trimmed(#[trigger] options.kinds[k]),
                ) == markdown::lowered(hit.kind->0);
            assert(plain[k] == kind);
        }
    }
}

proof fn lemma_asked(hits: Seq<HitView>, options: SearchOptionsView, count: nat)
    requires
        count <= hits.len(),
    ensures
        search::asked_for(hits, options.mode, search::plain_kinds(options.kinds), count)
            == hits.take(count as int).filter(|hit: HitView| answers(hit, options)),
    decreases count,
{
    reveal(Seq::filter);
    let part = hits.take(count as int);
    if count > 0 {
        lemma_asked(hits, options, (count - 1) as nat);
        lemma_answers(hits[count - 1], options);
        assert(part.drop_last() =~= hits.take(count - 1));
        assert(part.last() == hits[count - 1]);
    } else {
        assert(part =~= Seq::empty());
    }
}

proof fn lemma_uncovered(hits: Seq<HitView>, count: nat)
    requires
        count <= hits.len(),
    ensures
        search::uncovered(hits, count) == hits.take(count as int).filter(
            |hit: HitView| !says_nothing_new(hits, hit),
        ),
    decreases count,
{
    reveal(Seq::filter);
    let part = hits.take(count as int);
    if count > 0 {
        lemma_uncovered(hits, (count - 1) as nat);
        assert(part.drop_last() =~= hits.take(count - 1));
        assert(part.last() == hits[count - 1]);
        let hit = hits[count - 1];
        assert(search::is_covered(hits, hit) == says_nothing_new(hits, hit)) by {
            if search::is_covered(hits, hit) {
                let id = text::reads_as_i64(hit.identifier)->0 as i64;
                let i = choose|i: int|
                    0 <= i < hits.len() && search::sums_up(#[trigger] hits[i])
                        && hits[i].paired_source_ids.contains(id);
                assert(stands_for(hits[i], id));
            }
            if says_nothing_new(hits, hit) {
                let id = text::reads_as_i64(hit.identifier)->0 as i64;
                let i = choose|i: int| 0 <= i < hits.len() && stands_for(#[trigger] hits[i], id);
                assert(search::sums_up(hits[i]));
            }
        }
    } else {
        assert(part =~= Seq::empty());
    }
}

/// A hit is a source for which a page among the hits stands.
pub open spec fn says_nothing_new(hits: Seq<HitView>, hit: HitView) -> bool {
    &&& hit.result_type == "source"@
    &&& text::reads_as_i64(hit.identifier) is Some
    &&& exists|i: int|
        0 <= i < hits.len() && stands_for(
            #[trigger] hits[i],
            text::reads_as_i64(hit.identifier)->0 as i64,
        )
}

/// The hits that stay are those that answer the request, in their order, and all of them. A
/// search that chooses by itself leaves out the sources for which a page among them stands.
pub proof fn law_hits_that_answer_stay(hits: Seq<HitView>, options: SearchOptionsView)
    ensures
        ({
            let fitting = hits.filter(|hit: HitView| answers(hit, options));
            search::retained(hits, options) == (if options.mode == SearchMode::Auto {
                fitting.filter(|hit: HitView| !says_nothing_new(fitting, hit))
            } else {
                fitting
            })
        }),
{
    lemma_asked(hits, options, hits.len());
    assert(hits.take(hits.len() as int) =~= hits);
    let fitting = hits.filter(|hit: HitView| answers(hit, options));
    lemma_uncovered(fitting, fitting.len());
    assert(fitting.take(fitting.len() as int) =~= fitting);
}

/// Every hit that a search for sources keeps is in a source, and every hit that a search for
/// pages keeps is in a page.
pub proof fn law_search_keeps_to_its_mode(
    hits: Seq<HitView>,
    options: SearchOptionsView,
    k: int,
)
    requires
        0 <= k < search::retained(hits, options).len(),
    ensures
        hits.contains(search::retained(hits, options)[k]),
        options.mode == SearchMode::Source ==> lies_in(
            search::retained(hits, options)[k],
            "source"@,
        ),
        options.mode == SearchMode::Page ==> lies_in(search::retained(hits, options)[k], "page"@),
        options.kinds.len() > 0 && !lies_in(search::retained(hits, options)[k], "source"@)
            ==> has_kind(search::retained(hits, options)[k], options.kinds),
{
    law_hits_that_answer_stay(hits, options);
    let kept = search::retained(hits, options);
    let fits = |hit: HitView| answers(hit, options);
    let fitting = hits.filter(fits);
    let hit = kept[k];
    assert(fitting.contains(hit)) by {
        if options.mode == SearchMode::Auto {
            let new = |hit: HitView| !says_nothing_new(fitting, hit);
            fitting.lemma_filter_contains_rev(new, hit);
        } else {
            assert(fitting[k] == hit);
        }
    }
    let i = fitting.index_of(hit);
    hits.lemma_filter_contains_rev(fits, fitting[i]);
}

// ---------------------------------------------------------------------------
// What is looked up
// ---------------------------------------------------------------------------

/// What is looked up for a request: nothing where there are no words, and a refusal where there
/// are more than sixty-four. Four candidates for each result, eight where the request leaves
/// some out, and a thousand at most. The granularity says whether documents, passages or
/// sentences are looked up.
pub proof fn law_request_is_planned(
    terms: Seq<Seq<char>>,
    limit: int,
    options: SearchOptionsView,
)
    ensures
        terms.len() > 64 <==> search::planned(terms, limit, options) is Err,
        search::planned(terms, limit, options) matches Err(e) ==> e.code
            == ErrorCode::InvalidQuery,
        search::planned(terms, limit, options) matches Ok(plan) ==> {
            let narrow = options.kinds.len() > 0 || options.mode == SearchMode::Page
                || options.mode == SearchMode::Source;
            &&& plan.query is None <==> terms.len() == 0
            &&& plan.limit <= 1000
            &&& narrow && 8 * limit <= 1000 ==> plan.limit == 8 * limit
            &&& narrow && 8 * limit > 1000 ==> plan.limit == 1000
            &&& !narrow && 4 * limit <= 1000 ==> plan.limit == 4 * limit
            &&& !narrow && 4 * limit > 1000 ==> plan.limit == 1000
            &&& options.granularity == SearchGranularity::Document ==> plan.documents && plan.spans
                == SpanChoice::Nothing
            &&& options.granularity == SearchGranularity::Passage ==> !plan.documents && plan.spans
                == SpanChoice::Passages
            &&& options.granularity == SearchGranularity::Sentence ==> !plan.documents
                && plan.spans == SpanChoice::Sentences
            &&& options.granularity == SearchGranularity::All ==> plan.documents && plan.spans
                == SpanChoice::Both
        },
{
}

/// Words are quoted one by one, with every quote in them doubled, so that none of them is read
/// as anything but a word, and any of them will do.
pub proof fn law_words_are_quoted(terms: Seq<Seq<char>>, a: Seq<char>, b: Seq<char>)
    ensures
        search::doubled(Seq::empty()) == Seq::<char>::empty(),
        forall|c: char| c != '"' ==> #[trigger] search::doubled(seq![c]) == seq![c],
        search::doubled(seq!['"']) == seq!['"', '"'],
        search::doubled(a + b) == search::doubled(a) + search::doubled(b),
        search::match_text(seq![a]) == seq!['"'] + search::doubled(a) + seq!['"'],
        terms.len() > 0 ==> search::match_text(terms.push(a)) == search::match_text(terms)
            + seq![' ', 'O', 'R', ' ', '"'] + search::doubled(a) + seq!['"'],
    decreases b.len(),
{
    reveal_strlit("\"");
    reveal_strlit(" OR ");
    assert forall|c: char| c != '"' implies #[trigger] search::doubled(seq![c]) == seq![c] by {
        assert(seq![c].drop_last() =~= Seq::<char>::empty());
        assert(search::doubled(seq![c].drop_last()) =~= Seq::<char>::empty());
        assert(search::doubled(seq![c]) =~= seq![c]);
    }
    assert(seq!['"'].drop_last() =~= Seq::<char>::empty());
    assert(search::doubled(seq!['"'].drop_last()) =~= Seq::<char>::empty());
    assert(search::doubled(seq!['"']) =~= seq!['"', '"']);
    if b.len() == 0 {
        assert(a + b =~= a);
        assert(search::doubled(b) =~= Seq::<char>::empty());
    } else {
        law_words_are_quoted(terms, a, b.drop_last());
        assert((a + b).drop_last() =~= a + b.drop_last());
        assert((a + b).last() == b.last());
        assert(search::doubled(a + b) =~= search::doubled(a) + search::doubled(b));
    }
    let quote = "\""@;
    assert(quote =~= seq!['"']);
    assert(search::match_text(seq![a]) =~= seq!['"'] + search::doubled(a) + seq!['"']);
    if terms.len() > 0 {
        let more = terms.push(a);
        assert(more.drop_last() =~= terms);
        assert(more.last() == a);
        assert(" OR "@ =~= seq![' ', 'O', 'R', ' ']);
        assert(search::match_text(more) =~= search::match_text(terms) + seq![
            ' ',
            'O',
            'R',
            ' ',
            '"',
        ] + search::doubled(a) + seq!['"']);
    }
}

// ---------------------------------------------------------------------------
// The order
// ---------------------------------------------------------------------------

/// Where pages and sources are looked for alike, pages stand before sources. Otherwise the hit
/// with the lower rank stands first, and of equals the one whose type, and last whose
/// identifier, is the lower.
pub proof fn law_lower_rank_stands_first(hits: Seq<HitView>, mode: SearchMode, i: int, j: int)
    requires
        0 <= i < j < hits.len(),
    ensures
        ({
            let list = search::sorted(hits, search::last_for(mode), hits.len());
            let a = list[i];
            let b = list[j];
            let apart = (mode == SearchMode::Auto || mode == SearchMode::All) && ((a.result_type
                == "source"@) != (b.result_type == "source"@));
            &&& list.len() == hits.len()
            &&& list.to_multiset() == hits.to_multiset()
            &&& apart ==> b.result_type == "source"@
            &&& !apart ==> {
                &&& a.rank <= b.rank
                &&& a.rank == b.rank ==> !text::before(b.result_type, a.result_type)
                &&& a.rank == b.rank && a.result_type == b.result_type ==> !text::before(
                    b.identifier,
                    a.identifier,
                )
            }
        }),
{
    search::law_hits_come_in_order(hits, search::last_for(mode), hits.len());
    assert(hits.take(hits.len() as int) =~= hits);
    let list = search::sorted(hits, search::last_for(mode), hits.len());
    assert(!search::hit_before(list[j], list[i], search::last_for(mode)));
}

/// As many results as are asked for are shown, the first in order, and where there are fewer
/// all of them. A result is the hit as it was found: only why it fits is left out unless that
/// was asked for, and a page is shown with its provenance.
pub proof fn law_best_hits_are_shown(
    store: StoreView,
    hits: Seq<HitView>,
    limit: nat,
    options: SearchOptionsView,
)
    ensures
        ({
            let list = search::sorted(hits, search::last_for(options.mode), hits.len());
            let shown = search::results(store, hits, limit, options);
            &&& shown.len() <= limit
            &&& shown.len() <= hits.len()
            &&& shown.len() == limit || shown.len() == hits.len()
            &&& forall|k: int|
                0 <= k < shown.len() ==> {
                    let result = #[trigger] shown[k];
                    let hit = list[k];
                    &&& result.result_type == hit.result_type
                    &&& result.identifier == hit.identifier
                    &&& result.document == hit.document
                    &&& result.span == hit.span
                    &&& result.title == hit.title
                    &&& result.kind == hit.kind
                    &&& result.summary == hit.summary
                    &&& result.snippet == hit.snippet
                    &&& result.paired_source_ids == hit.paired_source_ids
                    &&& result.rank == hit.rank
                    &&& options.explain ==> result.explanation == hit.explanation
                    &&& !options.explain ==> result.explanation is None
                    &&& hit.result_type != "page"@ ==> result.provenance == hit.provenance
                    &&& hit.result_type == "page"@ && !store.pages.dom().contains(hit.identifier)
                        ==> result.provenance.len() == 0
                    &&& hit.result_type == "page"@ && store.pages.dom().contains(hit.identifier)
                        ==> result.provenance == pages::shown_provenance(
                        store.pages[hit.identifier].source_ids.len() > 0,
                        store.pages[hit.identifier].provenance,
                    )
                }
        }),
{
    search::law_hits_come_in_order(hits, search::last_for(options.mode), hits.len());
}

/// Related pages are looked up from the first three pages among the hits.
pub proof fn law_first_pages_lead_on(hits: Seq<HitView>)
    ensures
        ({
            let found = hits.filter(|hit: HitView| hit.result_type == "page"@);
            let seeds = search::seeds(hits, hits.len());
            &&& seeds.len() <= 3
            &&& seeds.len() <= found.len()
            &&& seeds.len() == 3 || seeds.len() == found.len()
            &&& forall|k: int| 0 <= k < seeds.len() ==> #[trigger] seeds[k] == found[k].identifier
        }),
{
    lemma_seeds(hits, hits.len());
    assert(hits.take(hits.len() as int) =~= hits);
}

proof fn lemma_seeds(hits: Seq<HitView>, count: nat)
    requires
        count <= hits.len(),
    ensures
        ({
            let found = hits.take(count as int).filter(
                |hit: HitView| hit.result_type == "page"@,
            );
            let seeds = search::seeds(hits, count);
            &&& seeds.len() <= 3
            &&& seeds.len() <= found.len()
            &&& seeds.len() == 3 || seeds.len() == found.len()
            &&& forall|k: int| 0 <= k < seeds.len() ==> #[trigger] seeds[k] == found[k].identifier
        }),
    decreases count,
{
    reveal(Seq::filter);
    let part = hits.take(count as int);
    if count > 0 {
        lemma_seeds(hits, (count - 1) as nat);
        assert(part.drop_last() =~= hits.take(count - 1));
        assert(part.last() == hits[count - 1]);
    } else {
        assert(part =~= Seq::empty());
    }
}

/// The place of a hit among those of its type: a better one has a lower place, and hits of
/// another type do not count.
pub proof fn law_better_hits_have_lower_places(hits: Seq<HitView>, i: int, j: int)
    requires
        0 <= i < hits.len(),
        0 <= j < hits.len(),
        hits[i].result_type == hits[j].result_type,
        hits[i].rank < hits[j].rank || hits[i].rank == hits[j].rank && (text::before(
            hits[i].identifier,
            hits[j].identifier,
        ) || hits[i].identifier == hits[j].identifier && i < j),
    ensures
        search::ranked_above(hits, i, hits.len()) < search::ranked_above(hits, j, hits.len()),
        search::ranked_above(hits, j, hits.len()) < hits.filter(
            |hit: HitView| hit.result_type == hits[j].result_type,
        ).len(),
{
    lemma_places(hits, i, j, hits.len());
    lemma_place_within(hits, j, hits.len());
    assert(hits.take(hits.len() as int) =~= hits);
}

proof fn lemma_places(hits: Seq<HitView>, i: int, j: int, count: nat)
    requires
        0 <= i < hits.len(),
        0 <= j < hits.len(),
        count <= hits.len(),
        search::ranked_before(hits, i, j),
    ensures
        search::ranked_above(hits, i, count) + (if i < count {
            1int
        } else {
            0int
        }) <= search::ranked_above(hits, j, count),
    decreases count,
{
    if count > 0 {
        lemma_places(hits, i, j, (count - 1) as nat);
        let k = count - 1;
        text::lemma_before_irreflexive(hits[i].identifier);
        if search::ranked_before(hits, k, i) {
            if text::before(hits[k].identifier, hits[i].identifier) && text::before(
                hits[i].identifier,
                hits[j].identifier,
            ) {
                text::lemma_before_transitive(
                    hits[k].identifier,
                    hits[i].identifier,
                    hits[j].identifier,
                );
            }
            assert(search::ranked_before(hits, k, j));
        }
    }
}

proof fn lemma_place_within(hits: Seq<HitView>, j: int, count: nat)
    requires
        0 <= j < hits.len(),
        count <= hits.len(),
    ensures
        search::ranked_above(hits, j, count) + (if j < count {
            1int
        } else {
            0int
        }) <= hits.take(count as int).filter(
            |hit: HitView| hit.result_type == hits[j].result_type,
        ).len(),
    decreases count,
{
    reveal(Seq::filter);
    let part = hits.take(count as int);
    if count > 0 {
        lemma_place_within(hits, j, (count - 1) as nat);
        assert(part.drop_last() =~= hits.take(count - 1));
        assert(part.last() == hits[count - 1]);
        text::lemma_before_irreflexive(hits[j].identifier);
    } else {
        assert(part =~= Seq::empty());
    }
}

// ---------------------------------------------------------------------------
// Groups
// ---------------------------------------------------------------------------

/// A hit lies in one document.
pub open spec fn lies_at(hit: HitView, document: PairView) -> bool {
    match hit.document {
        Some(at) => at.document_type == document.first && at.identifier == document.second,
        None => hit.result_type == document.first && hit.identifier == document.second,
    }
}

proof fn lemma_hits_in(hits: Seq<HitView>, document: PairView, count: nat)
    requires
        count <= hits.len(),
    ensures
        search::hits_in(hits, document, count) == hits.take(count as int).filter(
            |hit: HitView| lies_at(hit, document),
        ),
    decreases count,
{
    reveal(Seq::filter);
    let part = hits.take(count as int);
    if count > 0 {
        lemma_hits_in(hits, document, (count - 1) as nat);
        assert(part.drop_last() =~= hits.take(count - 1));
        assert(part.last() == hits[count - 1]);
    } else {
        assert(part =~= Seq::empty());
    }
}

proof fn lemma_own_hit(matches: Seq<HitView>, document: PairView, count: nat, k: int)
    requires
        count <= matches.len(),
        matches.len() > 0,
        matches.len() - count <= k < matches.len(),
    ensures
        0 <= search::own_hit(matches, document, count) < matches.len(),
        is_itself(matches[k], document) ==> is_itself(
            matches[search::own_hit(matches, document, count)],
            document,
        ),
    decreases count,
{
    if count > 1 && k > matches.len() - count {
        lemma_own_hit(matches, document, (count - 1) as nat, k);
    }
    if count > 0 {
        lemma_own_hit_within(matches, document, (count - 1) as nat);
    }
}

proof fn lemma_own_hit_within(matches: Seq<HitView>, document: PairView, count: nat)
    requires
        count <= matches.len(),
        matches.len() > 0,
    ensures
        0 <= search::own_hit(matches, document, count) < matches.len(),
    decreases count,
{
    if count > 0 {
        lemma_own_hit_within(matches, document, (count - 1) as nat);
    }
}

/// A hit is a document itself.
pub open spec fn is_itself(hit: HitView, document: PairView) -> bool {
    hit.result_type == document.first && hit.identifier == document.second
}

/// The hits in one document as a group: its base is the hit that is the document itself, where
/// there is one, its best hit is one that no other of them comes before, and up to three of
/// them are selected, the best first.
pub proof fn law_hits_are_grouped(hits: Seq<HitView>, document: PairView, k: int)
    requires
        0 <= k < hits.len(),
        lies_at(hits[k], document),
    ensures
        ({
            let group = search::group_of(hits, document);
            let found = hits.filter(|hit: HitView| lies_at(hit, document));
            &&& group.document == document
            &&& found.to_multiset().contains(group.base)
            &&& found.to_multiset().contains(group.best)
            &&& is_itself(hits[k], document) ==> is_itself(group.base, document)
            &&& group.best.rank <= hits[k].rank
            &&& group.selected.len() <= 3
            &&& group.selected.len() == 3 || group.selected.len() == found.len()
            &&& group.selected.len() > 0
            &&& group.selected[0] == group.best
            &&& forall|n: int|
                0 <= n < group.selected.len() ==> found.to_multiset().contains(
                    #[trigger] group.selected[n],
                )
            &&& forall|m: int, n: int|
                0 <= m < n < group.selected.len() ==> group.selected[m].rank
                    <= group.selected[n].rank
        }),
{
    broadcast use vstd::seq_lib::group_to_multiset_ensures;

    lemma_hits_in(hits, document, hits.len());
    assert(hits.take(hits.len() as int) =~= hits);
    let fits = |hit: HitView| lies_at(hit, document);
    let found = hits.filter(fits);
    let matches = search::sorted(found, false, found.len());
    search::law_hits_come_in_order(found, false, found.len());
    assert(found.take(found.len() as int) =~= found);
    hits.lemma_filter_contains(fits, k);
    assert(found.contains(hits[k]));
    assert(found.to_multiset().contains(hits[k]));
    assert(matches.to_multiset().contains(hits[k]));
    assert(matches.contains(hits[k]));
    let at = matches.index_of(hits[k]);
    assert(matches.len() > 0);
    lemma_own_hit(matches, document, matches.len(), at);
    assert(matches.contains(matches[0]));
    let own = search::own_hit(matches, document, matches.len());
    assert(matches.contains(matches[own]));
    let group = search::group_of(hits, document);
    assert forall|n: int| 0 <= n < group.selected.len() implies found.to_multiset().contains(
        #[trigger] group.selected[n],
    ) by {
        assert(group.selected[n] == matches[n]);
        assert(matches.contains(matches[n]));
    }
    if at > 0 {
        assert(!search::hit_before(matches[at], matches[0], false));
    }
    assert forall|m: int, n: int|
        0 <= m < n < group.selected.len() implies group.selected[m].rank
        <= group.selected[n].rank by {
        assert(!search::hit_before(matches[n], matches[m], false));
    }
}

/// A group as one hit: it is of the document, is called as its base is, and quotes its best
/// hit.
pub proof fn law_group_shows_its_best(group: HitGroupView, rank: i64)
    ensures
        ({
            let hit = search::grouped(group, rank);
            &&& hit.result_type == group.document.first
            &&& hit.identifier == group.document.second
            &&& hit.document is None
            &&& hit.span is None
            &&& hit.title == group.base.title
            &&& hit.kind == group.base.kind
            &&& hit.summary == group.base.summary
            &&& hit.paired_source_ids == group.base.paired_source_ids
            &&& hit.provenance == group.base.provenance
            &&& hit.snippet == group.best.snippet
            &&& hit.explanation == group.best.explanation
            &&& hit.rank == rank
        }),
{
}

} // verus!
