//! What a report of issues is worth: which pages it complains of, and why.
use crate::lint;
use crate::lint::{HeadingView, IssueView, LintSeverity};
use crate::markdown;
use crate::markdown::{MarkKindView, MarkView};
use crate::paging;
use crate::store::StoreView;
use crate::table;
use crate::text;
use vstd::prelude::*;

verus! {

/// One of the issues has this code.
pub open spec fn has_code(list: Seq<IssueView>, code: Seq<char>) -> bool {
    exists|k: int| 0 <= k < list.len() && (#[trigger] list[k]).code == code
}

proof fn lemma_codes()
    ensures
        "long_unsectioned_region"@ != "body_h1_title_mismatch"@,
        "long_unsectioned_region"@ != "duplicate_body_h1"@,
        "long_unsectioned_region"@ != "heading_level_jump"@,
        "body_h1_title_mismatch"@ != "duplicate_body_h1"@,
        "body_h1_title_mismatch"@ != "heading_level_jump"@,
        "duplicate_body_h1"@ != "heading_level_jump"@,
{
    reveal_strlit("long_unsectioned_region");
    reveal_strlit("body_h1_title_mismatch");
    reveal_strlit("duplicate_body_h1");
    reveal_strlit("heading_level_jump");
    assert("long_unsectioned_region"@.len() == 23);
    assert("body_h1_title_mismatch"@.len() == 22);
    assert("duplicate_body_h1"@.len() == 17);
    assert("heading_level_jump"@.len() == 18);
}

// ---------------------------------------------------------------------------
// Reading a page
// ---------------------------------------------------------------------------

proof fn lemma_scan_prefix(slug: Seq<char>, marks: Seq<MarkView>, more: Seq<MarkView>, count: nat)
    requires
        count <= marks.len() <= more.len(),
        forall|i: int| 0 <= i < marks.len() ==> more[i] == #[trigger] marks[i],
    ensures
        lint::scanned(slug, more, count) == lint::scanned(slug, marks, count),
    decreases count,
{
    if count > 0 {
        lemma_scan_prefix(slug, marks, more, (count - 1) as nat);
        assert(more[count - 1] == marks[count - 1]);
    }
}

/// Outside of headings and code the characters of a text count as prose, and the end of a line
/// as one more; in code nothing does. Nothing but text and breaks does.
pub proof fn law_prose_is_counted(slug: Seq<char>, marks: Seq<MarkView>, mark: MarkView)
    requires
        lint::scanned(slug, marks, marks.len()).current is None,
    ensures
        ({
            let before = lint::scanned(slug, marks, marks.len());
            let after = lint::scanned(slug, marks.push(mark), marks.len() + 1);
            let said: nat = match mark.kind {
                MarkKindView::Text(said) => said.len(),
                MarkKindView::Code(said) => said.len(),
                MarkKindView::SoftBreak => 1,
                MarkKindView::HardBreak => 1,
                _ => 0,
            };
            &&& mark.kind !is HeadingStart ==> {
                &&& after.chars == before.chars + (if before.depth == 0 {
                    said
                } else {
                    0nat
                })
                &&& after.headings == before.headings
                &&& after.issues == before.issues
                &&& after.region == before.region
                &&& after.current is None
            }
            &&& after.depth == (match mark.kind {
                MarkKindView::CodeStart => before.depth as int + 1,
                MarkKindView::CodeEnd => if before.depth == 0 {
                    0int
                } else {
                    before.depth - 1
                },
                _ => before.depth as int,
            })
        }),
{
    lemma_scan_prefix(slug, marks, marks.push(mark), marks.len());
}

/// A heading is read with its level and its text, and the prose before it has come to its end:
/// more than four thousand characters of it are worth a remark, which names the heading above.
pub proof fn law_heading_is_read(
    slug: Seq<char>,
    marks: Seq<MarkView>,
    start: MarkView,
    middle: MarkView,
    end: MarkView,
    said: Seq<char>,
)
    requires
        lint::scanned(slug, marks, marks.len()).current is None,
        start.kind is HeadingStart,
        middle.kind == MarkKindView::Text(said),
        end.kind == MarkKindView::HeadingEnd,
    ensures
        ({
            let before = lint::scanned(slug, marks, marks.len());
            let after = lint::scanned(
                slug,
                marks.push(start).push(middle).push(end),
                marks.len() + 3,
            );
            let plain = markdown::heading(said);
            &&& after.headings == before.headings.push(
                HeadingView { level: start.kind->HeadingStart_0, text: plain },
            )
            &&& after.chars == 0
            &&& after.current is None
            &&& after.depth == before.depth
            &&& after.region == (if plain.len() > 0 {
                Some(plain)
            } else {
                None
            })
            &&& before.chars <= 4000 ==> after.issues == before.issues
            &&& before.chars > 4000 ==> {
                &&& after.issues.len() == before.issues.len() + 1
                &&& after.issues.drop_last() == before.issues
                &&& after.issues.last().code == "long_unsectioned_region"@
                &&& after.issues.last().severity == LintSeverity::Info
                &&& after.issues.last().page == Some(slug)
                &&& after.issues.last().target == before.region
            }
        }),
{
    let one = marks.push(start);
    let two = one.push(middle);
    let all = two.push(end);
    lemma_scan_prefix(slug, marks, one, marks.len());
    lemma_scan_prefix(slug, one, two, one.len());
    lemma_scan_prefix(slug, two, all, two.len());
    let before = lint::scanned(slug, marks, marks.len());
    assert(lint::scanned(slug, one, one.len()) == lint::scan_step(slug, before, start.kind));
    assert(lint::scanned(slug, two, two.len()) == lint::scan_step(
        slug,
        lint::scanned(slug, one, one.len()),
        middle.kind,
    ));
    assert(Seq::<char>::empty() + said =~= said);
    let after = lint::scanned(slug, all, all.len());
    if before.chars > 4000 {
        assert(after.issues.drop_last() =~= before.issues);
    } else {
        assert(after.issues =~= before.issues);
    }
}

/// A page without marks has no headings, no prose and no issues.
pub proof fn law_empty_page_is_fine(slug: Seq<char>, title: Seq<char>)
    ensures
        lint::page_issues(slug, title, Seq::empty()).len() == 0,
        lint::scanned(slug, Seq::empty(), 0).headings.len() == 0,
        lint::scanned(slug, Seq::empty(), 0).chars == 0,
        lint::scanned(slug, Seq::empty(), 0).depth == 0,
        lint::scanned(slug, Seq::empty(), 0).current is None,
        lint::scanned(slug, Seq::empty(), 0).region is None,
{
}

// ---------------------------------------------------------------------------
// What is wrong with a page
// ---------------------------------------------------------------------------

proof fn lemma_scan_issues(slug: Seq<char>, marks: Seq<MarkView>, count: nat)
    ensures
        forall|k: int|
            0 <= k < lint::scanned(slug, marks, count).issues.len() ==> {
                let one = #[trigger] lint::scanned(slug, marks, count).issues[k];
                &&& one.code == "long_unsectioned_region"@
                &&& one.page == Some(slug)
                &&& one.severity == LintSeverity::Info
            },
    decreases count,
{
    if 0 < count <= marks.len() {
        lemma_scan_issues(slug, marks, (count - 1) as nat);
    }
}

/// The level that a heading may be one below: that of the heading right before it, or the
/// first level.
pub open spec fn level_before(headings: Seq<HeadingView>, i: int) -> u8 {
    if i == 0 {
        1
    } else {
        headings[i - 1].level
    }
}

/// A heading is more than one level below the one right before it.
pub open spec fn jumps(headings: Seq<HeadingView>, i: int) -> bool {
    0 <= i < headings.len() && headings[i].level > level_before(headings, i) + 1
}

proof fn lemma_jump(slug: Seq<char>, headings: Seq<HeadingView>, at: int)
    requires
        0 <= at <= headings.len(),
        forall|i: int| 0 <= i < at ==> !#[trigger] jumps(headings, i),
    ensures
        ({
            let found = lint::level_jump(
                slug,
                headings.skip(at),
                level_before(headings, at),
            );
            &&& found.len() <= 1
            &&& found.len() == 1 <==> exists|i: int| jumps(headings, i)
            &&& found.len() == 1 ==> {
                &&& found[0].code == "heading_level_jump"@
                &&& found[0].severity == LintSeverity::Warning
                &&& found[0].page == Some(slug)
                &&& exists|i: int| #[trigger]
                    jumps(headings, i) && is_jump_at(found[0], headings, i)
            }
        }),
    decreases headings.len() - at,
{
    let rest = headings.skip(at);
    if at < headings.len() {
        assert(rest[0] == headings[at]);
        if jumps(headings, at) {
            assert(is_jump_at(
                lint::level_jump(slug, rest, level_before(headings, at))[0],
                headings,
                at,
            ));
        } else {
            assert(rest.drop_first() =~= headings.skip(at + 1));
            lemma_jump(slug, headings, at + 1);
        }
    }
}

/// An issue is about this jump, which is the first.
pub open spec fn is_jump_at(issue: IssueView, headings: Seq<HeadingView>, i: int) -> bool {
    &&& forall|j: int| 0 <= j < i ==> !#[trigger] jumps(headings, j)
    &&& issue.target == (if headings[i].text.len() > 0 {
        Some(headings[i].text)
    } else {
        None
    })
    &&& issue.message == "heading level jumps from H"@ + text::natural(
        level_before(headings, i) as nat,
    ) + " to H"@ + text::natural(headings[i].level as nat)
}

proof fn lemma_tops(headings: Seq<HeadingView>)
    ensures
        lint::top_headings(headings).len() == headings.filter(|h: HeadingView| h.level == 1).len(),
        forall|t: Seq<char>|
            lint::top_headings(headings).contains(t) <==> exists|i: int|
                0 <= i < headings.len() && (#[trigger] headings[i]).level == 1 && headings[i].text
                    == t,
    decreases headings.len(),
{
    reveal(Seq::filter);
    if headings.len() > 0 {
        let head = headings.drop_last();
        lemma_tops(head);
        let tops = lint::top_headings(headings);
        let less = lint::top_headings(head);
        assert forall|t: Seq<char>|
            tops.contains(t) <==> exists|i: int|
                0 <= i < headings.len() && (#[trigger] headings[i]).level == 1 && headings[i].text
                    == t by {
            if tops.contains(t) {
                let k = tops.index_of(t);
                if headings.last().level == 1 && k == less.len() {
                    assert(headings[headings.len() - 1].text == t);
                } else {
                    assert(less[k] == t);
                    assert(less.contains(t));
                    let i = choose|i: int|
                        0 <= i < head.len() && (#[trigger] head[i]).level == 1 && head[i].text
                            == t;
                    assert(headings[i] == head[i]);
                }
            }
            if exists|i: int|
                0 <= i < headings.len() && (#[trigger] headings[i]).level == 1 && headings[i].text
                    == t {
                let i = choose|i: int|
                    0 <= i < headings.len() && (#[trigger] headings[i]).level == 1
                        && headings[i].text == t;
                if i < head.len() {
                    assert(head[i].level == 1);
                    assert(less.contains(t));
                    let k = less.index_of(t);
                    assert(tops[k] == t);
                } else {
                    assert(tops[less.len() as int] == t);
                }
            }
        }
    }
}

proof fn lemma_first_other(list: Seq<Seq<char>>, title: Seq<char>)
    ensures
        lint::first_other(list, title) is Some <==> exists|i: int|
            0 <= i < list.len() && #[trigger] list[i] != title,
        lint::first_other(list, title) matches Some(found) ==> list.contains(found) && found
            != title,
    decreases list.len(),
{
    if list.len() > 0 && list[0] == title {
        let rest = list.drop_first();
        lemma_first_other(rest, title);
        if lint::first_other(list, title) is Some {
            let i = choose|i: int| 0 <= i < rest.len() && #[trigger] rest[i] != title;
            assert(list[i + 1] == rest[i]);
            let found = lint::first_other(list, title)->0;
            let k = rest.index_of(found);
            assert(list[k + 1] == found);
        }
        if exists|i: int| 0 <= i < list.len() && #[trigger] list[i] != title {
            let i = choose|i: int| 0 <= i < list.len() && #[trigger] list[i] != title;
            assert(rest[i - 1] == list[i]);
        }
    }
}

/// What is said of the headings and the prose of a page, and when. A jump is reported exactly
/// where some heading is more than one level below the one right before it, and then the first
/// one is named. A heading of the first level must be the title, and there is at most one. A
/// long stretch of prose is reported where it ends at a heading or at the end of the page.
pub proof fn law_issues_of_a_page(slug: Seq<char>, title: Seq<char>, marks: Seq<MarkView>)
    ensures
        ({
            let issues = lint::page_issues(slug, title, marks);
            let end = lint::scanned(slug, marks, marks.len());
            let headings = end.headings;
            &&& has_code(issues, "heading_level_jump"@) <==> exists|i: int| jumps(headings, i)
            &&& has_code(issues, "body_h1_title_mismatch"@) <==> exists|i: int|
                0 <= i < headings.len() && (#[trigger] headings[i]).level == 1 && headings[i].text
                    != markdown::heading(title)
            &&& has_code(issues, "duplicate_body_h1"@) <==> headings.filter(
                |h: HeadingView| h.level == 1,
            ).len() > 1
            &&& has_code(issues, "long_unsectioned_region"@) <==> end.issues.len() > 0 || end.chars
                > 4000
            &&& forall|k: int|
                0 <= k < issues.len() ==> {
                    let one = #[trigger] issues[k];
                    &&& one.page == Some(slug)
                    &&& one.code == "heading_level_jump"@ ==> one.severity == LintSeverity::Warning
                        && exists|i: int| #[trigger]
                        jumps(headings, i) && is_jump_at(one, headings, i)
                    &&& one.code == "body_h1_title_mismatch"@ ==> one.severity
                        == LintSeverity::Warning && exists|i: int|
                        0 <= i < headings.len() && (#[trigger] headings[i]).level == 1
                            && headings[i].text != markdown::heading(title) && one.target == Some(
                            headings[i].text,
                        )
                    &&& one.code == "duplicate_body_h1"@ ==> one.severity == LintSeverity::Warning
                    &&& one.code == "long_unsectioned_region"@ ==> one.severity
                        == LintSeverity::Info
                    &&& {
                        ||| one.code == "heading_level_jump"@
                        ||| one.code == "body_h1_title_mismatch"@
                        ||| one.code == "duplicate_body_h1"@
                        ||| one.code == "long_unsectioned_region"@
                    }
                }
        }),
{
    lemma_codes();
    let issues = lint::page_issues(slug, title, marks);
    let end = lint::scanned(slug, marks, marks.len());
    let headings = end.headings;
    lemma_scan_issues(slug, marks, marks.len());
    let a = end.issues;
    let b = lint::long_region(slug, end.region, end.chars);
    let tops = lint::top_headings(headings);
    let plain = markdown::heading(title);
    let c = lint::top_issues(slug, title, tops);
    let d = lint::level_jump(slug, headings, 1);
    assert(headings.skip(0) =~= headings);
    lemma_jump(slug, headings, 0);
    lemma_tops(headings);
    lemma_first_other(tops, plain);
    assert(issues == a + b + c + d);
    let x = a.len() as int;
    let y = x + b.len();
    let z = y + c.len();
    assert(forall|k: int| 0 <= k < x ==> issues[k] == a[k]);
    assert(forall|k: int| x <= k < y ==> issues[k] == b[k - x]);
    assert(forall|k: int| y <= k < z ==> issues[k] == c[k - y]);
    assert(forall|k: int| z <= k < issues.len() ==> issues[k] == d[k - z]);
    if exists|i: int|
        0 <= i < headings.len() && (#[trigger] headings[i]).level == 1 && headings[i].text != plain {
        let i = choose|i: int|
            0 <= i < headings.len() && (#[trigger] headings[i]).level == 1 && headings[i].text
                != plain;
        assert(tops.contains(headings[i].text));
        let k = tops.index_of(headings[i].text);
        assert(tops[k] != plain);
        assert(c[0].code == "body_h1_title_mismatch"@);
        assert(issues[y].code == "body_h1_title_mismatch"@);
    }
    if lint::first_other(tops, plain) is Some {
        let found = lint::first_other(tops, plain)->0;
        assert(tops.contains(found));
        let i = choose|i: int|
            0 <= i < headings.len() && (#[trigger] headings[i]).level == 1 && headings[i].text
                == found;
        assert(headings[i].text != plain);
        assert(c[0].target == Some(headings[i].text));
    }
    if tops.len() > 1 {
        let last = c.len() - 1;
        assert(c[last].code == "duplicate_body_h1"@);
        assert(issues[y + last].code == "duplicate_body_h1"@);
    }
    if end.issues.len() > 0 {
        assert(issues[0].code == "long_unsectioned_region"@);
    }
    if end.chars > 4000 {
        assert(b[0].code == "long_unsectioned_region"@);
        assert(issues[x].code == "long_unsectioned_region"@);
    }
    if d.len() == 1 {
        assert(issues[z].code == "heading_level_jump"@);
    }
}

// ---------------------------------------------------------------------------
// The report
// ---------------------------------------------------------------------------

proof fn lemma_structure(store: StoreView, slugs: Seq<Seq<char>>, count: nat, at: int, k: int)
    requires
        count <= slugs.len(),
        0 <= at < count,
        0 <= k < lint::page_issues(
            slugs[at],
            store.pages[slugs[at]].title,
            markdown::markdown_marks(store.pages[slugs[at]].body),
        ).len(),
    ensures
        lint::structure_among(store, slugs, count).contains(
            lint::page_issues(
                slugs[at],
                store.pages[slugs[at]].title,
                markdown::markdown_marks(store.pages[slugs[at]].body),
            )[k],
        ),
    decreases count,
{
    let one = lint::page_issues(
        slugs[at],
        store.pages[slugs[at]].title,
        markdown::markdown_marks(store.pages[slugs[at]].body),
    )[k];
    let all = lint::structure_among(store, slugs, count);
    let less = lint::structure_among(store, slugs, (count - 1) as nat);
    if at == count - 1 {
        assert(all[less.len() + k] == one);
    } else {
        lemma_structure(store, slugs, (count - 1) as nat, at, k);
        assert(all[less.index_of(one)] == one);
    }
}

proof fn lemma_structure_from(store: StoreView, slugs: Seq<Seq<char>>, count: nat, one: IssueView)
    requires
        count <= slugs.len(),
        lint::structure_among(store, slugs, count).contains(one),
    ensures
        exists|at: int|
            0 <= at < count && lint::page_issues(
                #[trigger] slugs[at],
                store.pages[slugs[at]].title,
                markdown::markdown_marks(store.pages[slugs[at]].body),
            ).contains(one),
    decreases count,
{
    let all = lint::structure_among(store, slugs, count);
    let less = lint::structure_among(store, slugs, (count - 1) as nat);
    let i = all.index_of(one);
    let last = slugs[count - 1];
    if i < less.len() {
        assert(less[i] == one);
        lemma_structure_from(store, slugs, (count - 1) as nat, one);
    } else {
        let issues = lint::page_issues(
            last,
            store.pages[last].title,
            markdown::markdown_marks(store.pages[last].body),
        );
        assert(issues[i - less.len()] == one);
        assert(issues.contains(one));
    }
}

proof fn lemma_same_members(a: Seq<IssueView>, b: Seq<IssueView>, one: IssueView)
    requires
        a.to_multiset() == b.to_multiset(),
    ensures
        a.contains(one) == b.contains(one),
{
    broadcast use vstd::seq_lib::group_to_multiset_ensures;

    assert(a.to_multiset().count(one) > 0 <==> a.contains(one));
    assert(b.to_multiset().count(one) > 0 <==> b.contains(one));
}

/// The report of a store holds what was found in its tables and what is wrong with each of its
/// pages, and nothing else. It has as many entries as these are.
pub proof fn law_report_is_complete(store: StoreView, found: Seq<IssueView>, one: IssueView)
    requires
        store.pages.dom().finite(),
    ensures
        lint::all_issues(store, found).contains(one) <==> found.contains(one) || exists|
            slug: Seq<char>,
        | #[trigger]
            store.pages.dom().contains(slug) && lint::page_issues(
                slug,
                store.pages[slug].title,
                markdown::markdown_marks(store.pages[slug].body),
            ).contains(one),
{
    let slugs = table::ordered::<String>(store.pages.dom());
    table::lemma_has_order::<String>(store.pages.dom());
    let made = lint::structure_issues(store);
    let all = found + made;
    lint::law_sorted_is_in_order(all, all.len());
    assert(all.take(all.len() as int) =~= all);
    lemma_same_members(lint::all_issues(store, found), all, one);
    if all.contains(one) {
        let i = all.index_of(one);
        if i < found.len() {
            assert(found[i] == one);
        } else {
            assert(made[i - found.len()] == one);
            assert(made.contains(one));
            lemma_structure_from(store, slugs, slugs.len(), one);
            let at = choose|at: int|
                0 <= at < slugs.len() && lint::page_issues(
                    #[trigger] slugs[at],
                    store.pages[slugs[at]].title,
                    markdown::markdown_marks(store.pages[slugs[at]].body),
                ).contains(one);
            assert(slugs.to_set().contains(slugs[at]));
            assert(store.pages.dom().contains(slugs[at]));
        }
    }
    if found.contains(one) {
        assert(all[found.index_of(one)] == one);
    }
    if exists|slug: Seq<char>| #[trigger]
        store.pages.dom().contains(slug) && lint::page_issues(
            slug,
            store.pages[slug].title,
            markdown::markdown_marks(store.pages[slug].body),
        ).contains(one) {
        let slug = choose|slug: Seq<char>| #[trigger]
            store.pages.dom().contains(slug) && lint::page_issues(
                slug,
                store.pages[slug].title,
                markdown::markdown_marks(store.pages[slug].body),
            ).contains(one);
        assert(slugs.to_set().contains(slug));
        let at = slugs.index_of(slug);
        let issues = lint::page_issues(
            slug,
            store.pages[slug].title,
            markdown::markdown_marks(store.pages[slug].body),
        );
        lemma_structure(store, slugs, slugs.len(), at, issues.index_of(one));
        assert(all[found.len() + made.index_of(one)] == one);
    }
}

/// What a report shows first: errors, then warnings, then remarks; among those of one severity
/// the codes ascend, and among those of one code the pages do, issues without a page first.
pub proof fn law_worst_comes_first(store: StoreView, found: Seq<IssueView>, i: int, j: int)
    requires
        0 <= i < j < lint::all_issues(store, found).len(),
    ensures
        ({
            let a = lint::all_issues(store, found)[i];
            let b = lint::all_issues(store, found)[j];
            &&& b.severity == LintSeverity::Error ==> a.severity == LintSeverity::Error
            &&& b.severity == LintSeverity::Warning ==> a.severity != LintSeverity::Info
            &&& a.severity == b.severity ==> !text::before(b.code, a.code)
            &&& a.severity == b.severity && a.code == b.code ==> {
                &&& b.page is None ==> a.page is None
                &&& a.page is Some && b.page is Some ==> !text::before(b.page->0, a.page->0)
                &&& a.page == b.page ==> {
                    &&& b.target is None ==> a.target is None
                    &&& a.target is Some && b.target is Some ==> !text::before(
                        b.target->0,
                        a.target->0,
                    )
                }
            }
        }),
{
    let all = found + lint::structure_issues(store);
    lint::law_sorted_is_in_order(all, all.len());
    let list = lint::all_issues(store, found);
    assert(!lint::issue_before(list[j], list[i]));
}

/// The counts of a report are those of its issues: of each code, and of the errors, which keep
/// a changeset from being committed.
pub proof fn law_counts_add_up(list: Seq<IssueView>)
    requires
        list.len() <= usize::MAX,
    ensures
        lint::blocking_count(list) == list.filter(
            |one: IssueView| one.severity == LintSeverity::Error,
        ).len(),
        forall|code: Seq<char>| #[trigger]
            lint::code_counts(list).dom().contains(code) <==> has_code(list, code),
        forall|code: Seq<char>| #[trigger]
            lint::code_counts(list).dom().contains(code) ==> lint::code_counts(list)[code]
                == list.filter(|one: IssueView| one.code == code).len(),
    decreases list.len(),
{
    reveal(Seq::filter);
    if list.len() > 0 {
        let head = list.drop_last();
        law_counts_add_up(head);
        let counts = lint::code_counts(list);
        let less = lint::code_counts(head);
        assert forall|code: Seq<char>| #[trigger] counts.dom().contains(code) <==> has_code(
            list,
            code,
        ) by {
            if has_code(list, code) {
                let k = choose|k: int| 0 <= k < list.len() && (#[trigger] list[k]).code == code;
                if k < head.len() {
                    assert(head[k].code == code);
                    assert(less.dom().contains(code));
                }
            }
            if counts.dom().contains(code) {
                if code == list.last().code {
                    assert(list[list.len() - 1].code == code);
                } else {
                    assert(less.dom().contains(code));
                    let k = choose|k: int| 0 <= k < head.len() && (#[trigger] head[k]).code == code;
                    assert(list[k].code == code);
                }
            }
        }
        assert forall|code: Seq<char>| #[trigger] counts.dom().contains(code) implies counts[code]
            == list.filter(|one: IssueView| one.code == code).len() by {
            let p = |one: IssueView| one.code == code;
            lemma_filter_len(head, p);
            assert(less.dom().contains(code) || !less.dom().contains(code));
            if !less.dom().contains(code) {
                assert(!has_code(head, code));
                lemma_filter_none(head, p);
            }
        }
    }
}

proof fn lemma_filter_len(list: Seq<IssueView>, p: spec_fn(IssueView) -> bool)
    ensures
        list.filter(p).len() <= list.len(),
    decreases list.len(),
{
    reveal(Seq::filter);
    if list.len() > 0 {
        lemma_filter_len(list.drop_last(), p);
    }
}

proof fn lemma_filter_none(list: Seq<IssueView>, p: spec_fn(IssueView) -> bool)
    requires
        forall|k: int| 0 <= k < list.len() ==> !p(#[trigger] list[k]),
    ensures
        list.filter(p).len() == 0,
    decreases list.len(),
{
    reveal(Seq::filter);
    if list.len() > 0 {
        assert(!p(list[list.len() - 1]));
        assert forall|k: int| 0 <= k < list.drop_last().len() implies !p(
            #[trigger] list.drop_last()[k],
        ) by {
            assert(list.drop_last()[k] == list[k]);
        }
        lemma_filter_none(list.drop_last(), p);
    }
}

/// A page of a list is its part from the offset on, as long as the list goes and no longer than
/// the limit.
pub proof fn law_page_is_a_part<T>(list: Seq<T>, offset: nat, limit: nat)
    ensures
        ({
            let page = paging::page_of(list, offset, limit);
            &&& page.len() <= limit
            &&& offset <= list.len() ==> page.len() == (if list.len() - offset < limit {
                list.len() - offset
            } else {
                limit as int
            })
            &&& offset > list.len() ==> page.len() == 0
            &&& forall|k: int| 0 <= k < page.len() ==> #[trigger] page[k] == list[offset + k]
        }),
{
}

} // verus!
