//! What is wrong with the pages of a store: what was found in its tables, and what the
//! structure of its Markdown shows.
use crate::error;
use crate::error::{AppError, AppErrorView};
use crate::markdown;
use crate::markdown::{normalize_heading, parse_markdown, Mark, MarkKind, MarkKindView, MarkView};
use crate::paging;
use crate::paging::copy_page;
use crate::spans::{Segments, SegmentsView};
use crate::sparse_merge;
use crate::sparse_merge::merge_sparse_candidate;
use crate::store;
use crate::store::{Store, StoreView};
use crate::table;
use crate::table::{Record, Table};
use crate::text;
use crate::text::{
    chars_of, comes_before, copy_opt, join2, join3, join4, natural_text, owned, same_opt,
    same_text,
};
use vstd::prelude::*;

verus! {

/// More prose than this without a heading is worth a remark.
pub const LONG_UNSECTIONED_PROSE_CHARS: u128 = 4000;

/// How bad an issue is.
#[derive(Clone, Copy, PartialEq, Eq, Structural, Debug)]
pub enum LintSeverity {
    Error,
    Warning,
    Info,
}

impl LintSeverity {
    /// The place of a severity: the worst comes first.
    pub open spec fn rank(self) -> int {
        match self {
            LintSeverity::Error => 0,
            LintSeverity::Warning => 1,
            LintSeverity::Info => 2,
        }
    }

    fn order(self) -> (r: u8)
        ensures
            r == self.rank(),
    {
        match self {
            LintSeverity::Error => 0,
            LintSeverity::Warning => 1,
            LintSeverity::Info => 2,
        }
    }

    /// An issue of this severity keeps a changeset from being committed.
    pub fn is_blocking(self) -> (r: bool)
        ensures
            r == (self == LintSeverity::Error),
    {
        match self {
            LintSeverity::Error => true,
            _ => false,
        }
    }
}

/// Something that is wrong with a page.
pub struct LintIssue {
    pub severity: LintSeverity,
    pub code: String,
    pub page: Option<String>,
    pub target: Option<String>,
    pub message: String,
}

#[verifier::ext_equal]
pub struct IssueView {
    pub severity: LintSeverity,
    pub code: Seq<char>,
    pub page: Option<Seq<char>>,
    pub target: Option<Seq<char>>,
    pub message: Seq<char>,
}

impl View for LintIssue {
    type V = IssueView;

    open spec fn view(&self) -> IssueView {
        IssueView {
            severity: self.severity,
            code: self.code@,
            page: text::opt_text(self.page),
            target: text::opt_text(self.target),
            message: self.message@,
        }
    }
}

impl Record for LintIssue {
    fn duplicate(&self) -> (r: Self) {
        LintIssue {
            severity: self.severity,
            code: owned(self.code.as_str()),
            page: copy_opt(&self.page),
            target: copy_opt(&self.target),
            message: owned(self.message.as_str()),
        }
    }

    fn same(&self, other: &Self) -> (r: bool) {
        self.severity == other.severity
            && same_text(self.code.as_str(), other.code.as_str())
            && same_opt(&self.page, &other.page)
            && same_opt(&self.target, &other.target)
            && same_text(self.message.as_str(), other.message.as_str())
    }
}

/// A heading of a page, in the form in which headings are compared.
pub struct Heading {
    pub level: u8,
    pub text: String,
}

#[verifier::ext_equal]
pub struct HeadingView {
    pub level: u8,
    pub text: Seq<char>,
}

impl View for Heading {
    type V = HeadingView;

    open spec fn view(&self) -> HeadingView {
        HeadingView {
            level: self.level,
            text: self.text@,
        }
    }
}

impl Record for Heading {
    fn duplicate(&self) -> (r: Self) {
        Heading {
            level: self.level,
            text: owned(self.text.as_str()),
        }
    }

    fn same(&self, other: &Self) -> (r: bool) {
        self.level == other.level
            && same_text(self.text.as_str(), other.text.as_str())
    }
}

// ---------------------------------------------------------------------------
// The structure of a page
// ---------------------------------------------------------------------------

/// A long stretch of prose without a heading, where it is one.
pub open spec fn long_region(slug: Seq<char>, heading: Option<Seq<char>>, chars: nat) -> Seq<
    IssueView,
> {
    if chars <= LONG_UNSECTIONED_PROSE_CHARS {
        Seq::empty()
    } else {
        seq![
            IssueView {
                severity: LintSeverity::Info,
                code: "long_unsectioned_region"@,
                page: Some(slug),
                target: heading,
                message: "prose region has "@ + text::natural(chars)
                    + " characters without a subheading; consider splitting it"@,
            },
        ]
    }
}

/// How far the marks of a page have been read.
#[verifier::ext_equal]
pub struct ScanView {
    pub headings: Seq<HeadingView>,
    /// The heading that is being read: its level, and its text so far.
    pub current: Option<HeadingView>,
    /// How many code blocks are open.
    pub depth: nat,
    /// The characters of prose since the last heading.
    pub chars: nat,
    /// The last heading.
    pub region: Option<Seq<char>>,
    pub issues: Seq<IssueView>,
}

pub open spec fn scan_start() -> ScanView {
    ScanView {
        headings: Seq::empty(),
        current: None,
        depth: 0,
        chars: 0,
        region: None,
        issues: Seq::empty(),
    }
}

/// A heading with more text.
pub open spec fn heading_said(heading: HeadingView, said: Seq<char>) -> HeadingView {
    HeadingView {
        level: heading.level,
        text: (if heading.text.len() > 0 {
            heading.text.push(' ')
        } else {
            heading.text
        }) + said,
    }
}

/// Some text of a page.
pub open spec fn scan_said(state: ScanView, said: Seq<char>) -> ScanView {
    match state.current {
        Some(heading) => ScanView { current: Some(heading_said(heading, said)), ..state },
        None => if state.depth == 0 {
            ScanView { chars: state.chars + said.len(), ..state }
        } else {
            state
        },
    }
}

/// The end of a line of a page.
pub open spec fn scan_break(state: ScanView) -> ScanView {
    match state.current {
        Some(heading) => ScanView {
            current: Some(HeadingView { level: heading.level, text: heading.text.push(' ') }),
            ..state
        },
        None => if state.depth == 0 {
            ScanView { chars: state.chars + 1, ..state }
        } else {
            state
        },
    }
}

/// One mark of a page.
pub open spec fn scan_step(slug: Seq<char>, state: ScanView, kind: MarkKindView) -> ScanView {
    match kind {
        MarkKindView::HeadingStart(level) => ScanView {
            issues: state.issues + long_region(slug, state.region, state.chars),
            region: None,
            chars: 0,
            current: Some(HeadingView { level, text: Seq::empty() }),
            ..state
        },
        MarkKindView::HeadingEnd => match state.current {
            None => state,
            Some(heading) => {
                let plain = markdown::heading(heading.text);
                ScanView {
                    current: None,
                    region: if plain.len() > 0 {
                        Some(plain)
                    } else {
                        None
                    },
                    headings: state.headings.push(
                        HeadingView { level: heading.level, text: plain },
                    ),
                    ..state
                }
            },
        },
        MarkKindView::CodeStart => ScanView { depth: state.depth + 1, ..state },
        MarkKindView::CodeEnd => ScanView {
            depth: if state.depth > 0 {
                (state.depth - 1) as nat
            } else {
                0
            },
            ..state
        },
        MarkKindView::Text(said) => scan_said(state, said),
        MarkKindView::Code(said) => scan_said(state, said),
        MarkKindView::SoftBreak => scan_break(state),
        MarkKindView::HardBreak => scan_break(state),
        _ => state,
    }
}

/// The first `count` marks of a page.
pub open spec fn scanned(slug: Seq<char>, marks: Seq<MarkView>, count: nat) -> ScanView
    decreases count,
{
    if count == 0 || count > marks.len() {
        scan_start()
    } else {
        scan_step(slug, scanned(slug, marks, (count - 1) as nat), marks[count - 1].kind)
    }
}

/// The headings of the first level.
pub open spec fn top_headings(headings: Seq<HeadingView>) -> Seq<Seq<char>>
    decreases headings.len(),
{
    if headings.len() == 0 {
        Seq::empty()
    } else {
        let head = top_headings(headings.drop_last());
        if headings.last().level == 1 {
            head.push(headings.last().text)
        } else {
            head
        }
    }
}

/// The first of a list of headings that is not the title.
pub open spec fn first_other(list: Seq<Seq<char>>, title: Seq<char>) -> Option<Seq<char>>
    decreases list.len(),
{
    if list.len() == 0 {
        None
    } else if list[0] != title {
        Some(list[0])
    } else {
        first_other(list.drop_first(), title)
    }
}

/// What is wrong with the headings of the first level.
pub open spec fn top_issues(slug: Seq<char>, title: Seq<char>, tops: Seq<Seq<char>>) -> Seq<
    IssueView,
> {
    (match first_other(tops, markdown::heading(title)) {
        Some(mismatch) => seq![
            IssueView {
                severity: LintSeverity::Warning,
                code: "body_h1_title_mismatch"@,
                page: Some(slug),
                target: Some(mismatch),
                message: "body H1 differs from the canonical page title"@,
            },
        ],
        None => Seq::empty(),
    }) + (if tops.len() > 1 {
        seq![
            IssueView {
                severity: LintSeverity::Warning,
                code: "duplicate_body_h1"@,
                page: Some(slug),
                target: None,
                message: "body contains "@ + text::natural(tops.len()) + " H1 headings"@,
            },
        ]
    } else {
        Seq::empty()
    })
}

/// The first heading that is more than one level below the one before it.
pub open spec fn level_jump(slug: Seq<char>, headings: Seq<HeadingView>, previous: u8) -> Seq<
    IssueView,
>
    decreases headings.len(),
{
    if headings.len() == 0 {
        Seq::empty()
    } else if headings[0].level > previous + 1 {
        seq![
            IssueView {
                severity: LintSeverity::Warning,
                code: "heading_level_jump"@,
                page: Some(slug),
                target: if headings[0].text.len() > 0 {
                    Some(headings[0].text)
                } else {
                    None
                },
                message: "heading level jumps from H"@ + text::natural(previous as nat) + " to H"@
                    + text::natural(headings[0].level as nat),
            },
        ]
    } else {
        level_jump(slug, headings.drop_first(), headings[0].level)
    }
}

/// What is wrong with the structure of a page, by its marks.
pub open spec fn page_issues(slug: Seq<char>, title: Seq<char>, marks: Seq<MarkView>) -> Seq<
    IssueView,
> {
    let end = scanned(slug, marks, marks.len());
    end.issues + long_region(slug, end.region, end.chars) + top_issues(
        slug,
        title,
        top_headings(end.headings),
    ) + level_jump(slug, end.headings, 1)
}

/// How far the marks of a page have been read.
struct Scan {
    headings: Vec<Heading>,
    current: Option<Heading>,
    depth: usize,
    chars: u128,
    region: Option<String>,
    issues: Vec<LintIssue>,
}

impl View for Scan {
    type V = ScanView;

    closed spec fn view(&self) -> ScanView {
        ScanView {
            headings: text::views(self.headings@),
            current: text::opt_view(self.current),
            depth: self.depth as nat,
            chars: self.chars as nat,
            region: text::opt_text(self.region),
            issues: text::views(self.issues@),
        }
    }
}

fn push_issue(issues: &mut Vec<LintIssue>, one: LintIssue)
    ensures
        text::views(final(issues)@) == text::views(old(issues)@) + seq![one@],
{
    proof {
        text::lemma_views_push(issues@, one);
        assert(text::views(issues@).push(one@) =~= text::views(issues@) + seq![one@]);
    }
    issues.push(one);
}

fn push_long_unsectioned_issue(
    issues: &mut Vec<LintIssue>,
    slug: &str,
    heading: Option<String>,
    chars: u128,
)
    ensures
        text::views(final(issues)@) == text::views(old(issues)@) + long_region(
            slug@,
            text::opt_text(heading),
            chars as nat,
        ),
{
    if chars <= LONG_UNSECTIONED_PROSE_CHARS {
        assert(text::views(issues@) + Seq::<IssueView>::empty() =~= text::views(issues@));
        return;
    }
    push_issue(
        issues,
        LintIssue {
            severity: LintSeverity::Info,
            code: owned("long_unsectioned_region"),
            page: Some(owned(slug)),
            target: heading,
            message: join3(
                "prose region has ",
                natural_text(chars).as_str(),
                " characters without a subheading; consider splitting it",
            ),
        },
    );
}

impl Scan {
    fn start() -> (r: Scan)
        ensures
            r@ == scan_start(),
            r.depth == 0,
            r.chars == 0,
    {
        let r = Scan {
            headings: Vec::new(),
            current: None,
            depth: 0,
            chars: 0,
            region: None,
            issues: Vec::new(),
        };
        assert(text::views(r.headings@) =~= Seq::empty());
        assert(text::views(r.issues@) =~= Seq::empty());
        r
    }

    fn say(&mut self, said: &str)
        requires
            old(self).chars as int + usize::MAX <= u128::MAX,
        ensures
            final(self)@ == scan_said(old(self)@, said@),
            final(self).depth == old(self).depth,
            final(self).chars <= old(self).chars + usize::MAX,
    {
        match self.current.take() {
            Some(heading) => {
                let mut line = heading.text;
                if chars_of(line.as_str()).len() > 0 {
                    line.push(' ');
                }
                let longer = join2(line.as_str(), said);
                self.current = Some(Heading { level: heading.level, text: longer });
            },
            None => {
                if self.depth == 0 {
                    self.chars = self.chars + chars_of(said).len() as u128;
                }
            },
        }
    }

    fn end_line(&mut self)
        requires
            old(self).chars < u128::MAX,
        ensures
            final(self)@ == scan_break(old(self)@),
            final(self).depth == old(self).depth,
            final(self).chars <= old(self).chars + 1,
    {
        match self.current.take() {
            Some(heading) => {
                let mut line = heading.text;
                line.push(' ');
                self.current = Some(Heading { level: heading.level, text: line });
            },
            None => {
                if self.depth == 0 {
                    self.chars = self.chars + 1;
                }
            },
        }
    }

    fn end_heading(&mut self)
        ensures
            final(self)@ == scan_step(Seq::empty(), old(self)@, MarkKindView::HeadingEnd),
            final(self).depth == old(self).depth,
            final(self).chars == old(self).chars,
    {
        match self.current.take() {
            None => {},
            Some(heading) => {
                let plain = normalize_heading(heading.text.as_str());
                self.region = if chars_of(plain.as_str()).len() > 0 {
                    Some(owned(plain.as_str()))
                } else {
                    None
                };
                let one = Heading { level: heading.level, text: plain };
                proof {
                    text::lemma_views_push(self.headings@, one);
                }
                self.headings.push(one);
            },
        }
    }

    fn start_heading(&mut self, slug: &str, level: u8)
        ensures
            final(self)@ == scan_step(slug@, old(self)@, MarkKindView::HeadingStart(level)),
            final(self).depth == old(self).depth,
            final(self).chars == 0,
    {
        let region = self.region.take();
        push_long_unsectioned_issue(&mut self.issues, slug, region, self.chars);
        self.chars = 0;
        let none = owned("");
        proof {
            reveal_strlit("");
            assert(none@ =~= Seq::<char>::empty());
        }
        self.current = Some(Heading { level, text: none });
    }
}

/// Reads the marks of a page.
fn scan(slug: &str, marks: &Vec<Mark>) -> (r: Scan)
    ensures
        r@ == scanned(slug@, text::views(marks@), marks@.len()),
{
    let ghost all = text::views(marks@);
    let mut state = Scan::start();
    let mut i: usize = 0;
    while i < marks.len()
        invariant
            i <= marks@.len() == all.len(),
            all == text::views(marks@),
            state@ == scanned(slug@, all, i as nat),
            state.depth <= i,
            state.chars <= i * (usize::MAX as int),
        decreases marks@.len() - i,
    {
        assert(all[i as int] == marks@[i as int]@);
        proof {
            let n = i as int;
            let m = usize::MAX as int;
            assert(n * m + m <= u128::MAX && (n + 1) * m == n * m + m) by (nonlinear_arith)
                requires
                    0 <= n < m,
                    0 < m <= 0xffff_ffff_ffff_ffff,
            ;
        }
        match &marks[i].kind {
            MarkKind::HeadingStart(level) => state.start_heading(slug, *level),
            MarkKind::HeadingEnd => state.end_heading(),
            MarkKind::CodeStart => {
                state.depth = state.depth + 1;
            },
            MarkKind::CodeEnd => {
                if state.depth > 0 {
                    state.depth = state.depth - 1;
                }
            },
            MarkKind::Text(said) => state.say(said.as_str()),
            MarkKind::Code(said) => state.say(said.as_str()),
            MarkKind::SoftBreak => state.end_line(),
            MarkKind::HardBreak => state.end_line(),
            _ => {},
        }
        i += 1;
    }
    state
}

fn list_tops(headings: &Vec<Heading>) -> (r: Vec<String>)
    ensures
        text::views(r@) == top_headings(text::views(headings@)),
{
    let ghost all = text::views(headings@);
    let mut out: Vec<String> = Vec::new();
    assert(text::views(out@) =~= Seq::empty());
    let mut i: usize = 0;
    while i < headings.len()
        invariant
            i <= headings@.len() == all.len(),
            all == text::views(headings@),
            text::views(out@) == top_headings(all.take(i as int)),
        decreases headings@.len() - i,
    {
        assert(all.take(i + 1).drop_last() =~= all.take(i as int));
        assert(all.take(i + 1).last() == headings@[i as int]@);
        if headings[i].level == 1 {
            let one = owned(headings[i].text.as_str());
            proof {
                text::lemma_views_push(out@, one);
            }
            out.push(one);
        }
        i += 1;
    }
    assert(all.take(i as int) =~= all);
    out
}

fn find_other(list: &Vec<String>, title: &str) -> (r: Option<String>)
    ensures
        text::opt_text(r) == first_other(text::views(list@), title@),
{
    let ghost all = text::views(list@);
    let mut i: usize = 0;
    assert(all.skip(0) =~= all);
    while i < list.len()
        invariant
            i <= list@.len() == all.len(),
            all == text::views(list@),
            first_other(all, title@) == first_other(all.skip(i as int), title@),
        decreases list@.len() - i,
    {
        assert(all.skip(i as int)[0] == list@[i as int]@);
        assert(all.skip(i as int).drop_first() =~= all.skip(i + 1));
        if !same_text(list[i].as_str(), title) {
            return Some(owned(list[i].as_str()));
        }
        i += 1;
    }
    None
}

fn push_top_issues(issues: &mut Vec<LintIssue>, slug: &str, title: &str, tops: &Vec<String>)
    ensures
        text::views(final(issues)@) == text::views(old(issues)@) + top_issues(
            slug@,
            title@,
            text::views(tops@),
        ),
{
    let ghost start = text::views(issues@);
    assert(text::views(tops@).len() == tops@.len());
    if let Some(mismatch) = find_other(tops, normalize_heading(title).as_str()) {
        push_issue(
            issues,
            LintIssue {
                severity: LintSeverity::Warning,
                code: owned("body_h1_title_mismatch"),
                page: Some(owned(slug)),
                target: Some(mismatch),
                message: owned("body H1 differs from the canonical page title"),
            },
        );
    }
    if tops.len() > 1 {
        push_issue(
            issues,
            LintIssue {
                severity: LintSeverity::Warning,
                code: owned("duplicate_body_h1"),
                page: Some(owned(slug)),
                target: None,
                message: join3(
                    "body contains ",
                    natural_text(tops.len() as u128).as_str(),
                    " H1 headings",
                ),
            },
        );
    }
    assert(text::views(issues@) =~= start + top_issues(slug@, title@, text::views(tops@)));
}

fn push_level_jump(issues: &mut Vec<LintIssue>, slug: &str, headings: &Vec<Heading>)
    ensures
        text::views(final(issues)@) == text::views(old(issues)@) + level_jump(
            slug@,
            text::views(headings@),
            1,
        ),
{
    let ghost all = text::views(headings@);
    let ghost start = text::views(issues@);
    let mut previous: u8 = 1;
    let mut i: usize = 0;
    assert(all.skip(0) =~= all);
    while i < headings.len()
        invariant
            i <= headings@.len() == all.len(),
            all == text::views(headings@),
            text::views(issues@) == start,
            level_jump(slug@, all, 1) == level_jump(slug@, all.skip(i as int), previous),
        decreases headings@.len() - i,
    {
        assert(all.skip(i as int)[0] == headings@[i as int]@);
        assert(all.skip(i as int).drop_first() =~= all.skip(i + 1));
        let one = &headings[i];
        if one.level as u16 > previous as u16 + 1 {
            let target = if chars_of(one.text.as_str()).len() > 0 {
                Some(owned(one.text.as_str()))
            } else {
                None
            };
            push_issue(
                issues,
                LintIssue {
                    severity: LintSeverity::Warning,
                    code: owned("heading_level_jump"),
                    page: Some(owned(slug)),
                    target,
                    message: join4(
                        "heading level jumps from H",
                        natural_text(previous as u128).as_str(),
                        " to H",
                        natural_text(one.level as u128).as_str(),
                    ),
                },
            );
            return;
        }
        previous = one.level;
        i += 1;
    }
    assert(start + Seq::<IssueView>::empty() =~= start);
}

/// What is wrong with the structure of a page, by its marks.
pub fn check_page(slug: &str, title: &str, marks: &Vec<Mark>) -> (r: Vec<LintIssue>)
    ensures
        text::views(r@) == page_issues(slug@, title@, text::views(marks@)),
{
    assert(text::views(marks@).len() == marks@.len());
    let end = scan(slug, marks);
    let tops = list_tops(&end.headings);
    let mut issues = end.issues;
    push_long_unsectioned_issue(&mut issues, slug, end.region, end.chars);
    push_top_issues(&mut issues, slug, title, &tops);
    push_level_jump(&mut issues, slug, &end.headings);
    issues
}

/// What is wrong with the structure of the first `count` pages.
pub open spec fn structure_among(store: StoreView, slugs: Seq<Seq<char>>, count: nat) -> Seq<
    IssueView,
>
    decreases count,
{
    if count == 0 || count > slugs.len() {
        Seq::empty()
    } else {
        let page = store.pages[slugs[count - 1]];
        structure_among(store, slugs, (count - 1) as nat) + page_issues(
            slugs[count - 1],
            page.title,
            markdown::markdown_marks(page.body),
        )
    }
}

/// What is wrong with the structure of the pages of a store.
pub open spec fn structure_issues(store: StoreView) -> Seq<IssueView> {
    let slugs = table::ordered::<String>(store.pages.dom());
    structure_among(store, slugs, slugs.len())
}

fn append_issues(all: &mut Vec<LintIssue>, more: Vec<LintIssue>)
    ensures
        text::views(final(all)@) == text::views(old(all)@) + text::views(more@),
{
    let ghost start = text::views(all@);
    let ghost extra = text::views(more@);
    let mut i: usize = 0;
    assert(start + extra.take(0) =~= start);
    while i < more.len()
        invariant
            i <= more@.len() == extra.len(),
            extra == text::views(more@),
            text::views(all@) =~= start + extra.take(i as int),
        decreases more@.len() - i,
    {
        let one = more[i].duplicate();
        proof {
            text::lemma_views_push(all@, one);
            assert(extra.take(i + 1) =~= extra.take(i as int).push(extra[i as int]));
        }
        all.push(one);
        i += 1;
    }
    assert(extra.take(i as int) =~= extra);
}

impl Store {
    /// What is wrong with the structure of the pages.
    pub fn markdown_structure_issues(&self) -> (r: Vec<LintIssue>)
        ensures
            text::views(r@) == structure_issues(self@),
    {
        let n = self.pages.len();
        let ghost slugs = self.pages.keys();
        proof {
            table::lemma_ordered_is::<String>(slugs, self@.pages.dom());
        }
        let mut all: Vec<LintIssue> = Vec::new();
        assert(text::views(all@) =~= Seq::empty());
        let mut i: usize = 0;
        while i < n
            invariant
                i <= n == slugs.len(),
                slugs == self.pages.keys(),
                text::views(all@) == structure_among(self@, slugs, i as nat),
            decreases n - i,
        {
            let slug = self.pages.key_at(i);
            let page = self.pages.value_at(i);
            let marks = parse_markdown(page.body.as_str());
            let found = check_page(slug.as_str(), page.title.as_str(), &marks);
            append_issues(&mut all, found);
            i += 1;
        }
        all
    }
}

// ---------------------------------------------------------------------------
// The order of issues
// ---------------------------------------------------------------------------

/// Nothing comes before something.
pub open spec fn opt_before(a: Option<Seq<char>>, b: Option<Seq<char>>) -> bool {
    match (a, b) {
        (None, Some(_)) => true,
        (Some(a), Some(b)) => text::before(a, b),
        _ => false,
    }
}

/// One issue is to stand before another: by severity, code, page and target.
pub open spec fn issue_before(a: IssueView, b: IssueView) -> bool {
    ||| a.severity.rank() < b.severity.rank()
    ||| a.severity == b.severity && text::before(a.code, b.code)
    ||| a.severity == b.severity && a.code == b.code && opt_before(a.page, b.page)
    ||| a.severity == b.severity && a.code == b.code && a.page == b.page && opt_before(
        a.target,
        b.target,
    )
}

/// How many issues at the start of a list do not have to give way to another.
pub open spec fn place_for(list: Seq<IssueView>, one: IssueView) -> nat
    decreases list.len(),
{
    if list.len() == 0 {
        0
    } else if issue_before(one, list.last()) {
        place_for(list.drop_last(), one)
    } else {
        list.len()
    }
}

/// The first `count` issues in order; those that nothing tells apart stay as they were.
pub open spec fn sorted(list: Seq<IssueView>, count: nat) -> Seq<IssueView>
    decreases count,
{
    if count == 0 || count > list.len() {
        Seq::empty()
    } else {
        let head = sorted(list, (count - 1) as nat);
        head.insert(place_for(head, list[count - 1]) as int, list[count - 1])
    }
}

proof fn lemma_place(list: Seq<IssueView>, one: IssueView)
    ensures
        place_for(list, one) <= list.len(),
    decreases list.len(),
{
    if list.len() > 0 {
        lemma_place(list.drop_last(), one);
    }
}

fn opt_comes_before(a: &Option<String>, b: &Option<String>) -> (r: bool)
    ensures
        r == opt_before(text::opt_text(*a), text::opt_text(*b)),
{
    match (a, b) {
        (None, Some(_)) => true,
        (Some(a), Some(b)) => comes_before(a.as_str(), b.as_str()),
        _ => false,
    }
}

fn issue_comes_before(a: &LintIssue, b: &LintIssue) -> (r: bool)
    ensures
        r == issue_before(a@, b@),
{
    let x = a.severity.order();
    let y = b.severity.order();
    if x < y {
        return true;
    }
    if x > y {
        return false;
    }
    assert(a.severity == b.severity);
    if comes_before(a.code.as_str(), b.code.as_str()) {
        return true;
    }
    if !same_text(a.code.as_str(), b.code.as_str()) {
        return false;
    }
    if opt_comes_before(&a.page, &b.page) {
        return true;
    }
    if !same_opt(&a.page, &b.page) {
        return false;
    }
    opt_comes_before(&a.target, &b.target)
}

/// Puts issues in order.
fn sort_issues(list: &Vec<LintIssue>) -> (r: Vec<LintIssue>)
    ensures
        text::views(r@) == sorted(text::views(list@), list@.len()),
        r@.len() == list@.len(),
{
    let ghost all = text::views(list@);
    let mut out: Vec<LintIssue> = Vec::new();
    assert(text::views(out@) =~= Seq::empty());
    let mut i: usize = 0;
    while i < list.len()
        invariant
            i <= list@.len() == all.len(),
            all == text::views(list@),
            out@.len() == i,
            text::views(out@) == sorted(all, i as nat),
        decreases list@.len() - i,
    {
        let ghost head = text::views(out@);
        assert(all[i as int] == list@[i as int]@);
        let mut at: usize = out.len();
        assert(head.take(at as int) =~= head);
        while at > 0 && issue_comes_before(&list[i], &out[at - 1])
            invariant
                at <= out@.len() == head.len(),
                head == text::views(out@),
                i < list@.len(),
                place_for(head, all[i as int]) == place_for(head.take(at as int), all[i as int]),
                all[i as int] == list@[i as int]@,
            decreases at,
        {
            assert(head.take(at as int).drop_last() =~= head.take(at - 1));
            assert(head.take(at as int).last() == out@[at - 1]@);
            at -= 1;
        }
        proof {
            if at > 0 {
                assert(head.take(at as int).last() == out@[at - 1]@);
            }
            assert(place_for(head, all[i as int]) == at);
        }
        let one = list[i].duplicate();
        let ghost seen = one@;
        out.insert(at, one);
        assert(text::views(out@) =~= head.insert(at as int, seen));
        i += 1;
    }
    out
}

// ---------------------------------------------------------------------------
// The report
// ---------------------------------------------------------------------------

/// How often each code occurs.
pub open spec fn code_counts(list: Seq<IssueView>) -> Map<Seq<char>, usize>
    decreases list.len(),
{
    if list.len() == 0 {
        Map::empty()
    } else {
        let head = code_counts(list.drop_last());
        let code = list.last().code;
        head.insert(
            code,
            if head.dom().contains(code) {
                (head[code] + 1) as usize
            } else {
                1
            },
        )
    }
}

/// How many issues keep a changeset from being committed.
pub open spec fn blocking_count(list: Seq<IssueView>) -> nat
    decreases list.len(),
{
    if list.len() == 0 {
        0
    } else {
        blocking_count(list.drop_last()) + (if list.last().severity == LintSeverity::Error {
            1nat
        } else {
            0nat
        })
    }
}

/// A count, as a value of a table.
pub struct Count {
    pub value: usize,
}

impl View for Count {
    type V = usize;

    open spec fn view(&self) -> usize {
        self.value
    }
}

/// A page of the list of issues, and how many there are.
pub struct LintResponse {
    pub scope: String,
    pub database: String,
    pub issues: Vec<LintIssue>,
    pub counts: Table<String, Count>,
    pub total: usize,
    pub blocking_total: usize,
    pub advisory_total: usize,
    pub limit: usize,
    pub offset: usize,
    pub has_more: bool,
}

/// All issues of a store, in order: those that were found in its tables, and those of the
/// structure of its pages.
pub open spec fn all_issues(store: StoreView, found: Seq<IssueView>) -> Seq<IssueView> {
    let all = found + structure_issues(store);
    sorted(all, all.len())
}

/// A response reports the issues of a store.
pub open spec fn reports(
    response: LintResponse,
    store: StoreView,
    database: Seq<char>,
    found: Seq<IssueView>,
    limit: usize,
    offset: usize,
) -> bool {
    let all = all_issues(store, found);
    &&& response.scope@ == store.scope
    &&& response.database@ == database
    &&& text::views(response.issues@) == paging::page_of(all, offset as nat, limit as nat)
    &&& response.counts@ == code_counts(all)
    &&& response.total == all.len()
    &&& response.blocking_total == blocking_count(all)
    &&& response.advisory_total == all.len() - blocking_count(all)
    &&& response.limit == limit
    &&& response.offset == offset
    &&& response.has_more == (offset + paging::page_of(all, offset as nat, limit as nat).len()
        < all.len())
}

proof fn lemma_counts(list: Seq<IssueView>)
    requires
        list.len() <= usize::MAX,
    ensures
        forall|code: Seq<char>| #[trigger]
            code_counts(list).dom().contains(code) ==> 1 <= code_counts(list)[code] <= list.len(),
        blocking_count(list) <= list.len(),
    decreases list.len(),
{
    if list.len() > 0 {
        let head = code_counts(list.drop_last());
        lemma_counts(list.drop_last());
        assert forall|code: Seq<char>| #[trigger]
            code_counts(list).dom().contains(code) implies 1 <= code_counts(list)[code]
            <= list.len() by {
            if code != list.last().code {
                assert(head.dom().contains(code));
            } else if head.dom().contains(code) {
                assert(1 <= head[code] <= list.len() - 1);
            }
        }
    }
}

fn count_codes(list: &Vec<LintIssue>) -> (r: (Table<String, Count>, usize))
    ensures
        r.0@ == code_counts(text::views(list@)),
        r.1 == blocking_count(text::views(list@)),
        r.1 <= list@.len(),
{
    let ghost all = text::views(list@);
    let mut counts: Table<String, Count> = Table::new();
    let mut blocking: usize = 0;
    let mut i: usize = 0;
    while i < list.len()
        invariant
            i <= list@.len() == all.len(),
            all == text::views(list@),
            counts@ == code_counts(all.take(i as int)),
            blocking == blocking_count(all.take(i as int)),
            blocking <= i,
        decreases list@.len() - i,
    {
        proof {
            assert(all.take(i + 1).drop_last() =~= all.take(i as int));
            assert(all.take(i + 1).last() == list@[i as int]@);
            lemma_counts(all.take(i as int));
        }
        let one = &list[i];
        let value: usize = match counts.get(&one.code) {
            Some(count) => count.value + 1,
            None => 1,
        };
        counts.put(owned(one.code.as_str()), Count { value });
        if one.severity.is_blocking() {
            blocking += 1;
        }
        i += 1;
    }
    assert(all.take(i as int) =~= all);
    (counts, blocking)
}

/// Reports the issues of a store: those that were found in its tables, and those of the
/// structure of its pages.
fn lint_connection(
    live: &Store,
    database: &str,
    found: &Vec<LintIssue>,
    limit: usize,
    offset: usize,
) -> (r: LintResponse)
    ensures
        reports(r, live@, database@, text::views(found@), limit, offset),
{
    let mut all = table::copy_records(found);
    append_issues(&mut all, live.markdown_structure_issues());
    assert(text::views(all@).len() == all@.len());
    let list = sort_issues(&all);
    assert(text::views(list@).len() == list@.len());
    let (counts, blocking_total) = count_codes(&list);
    let total = list.len();
    let issues = copy_page(&list, offset, limit);
    assert(text::views(issues@).len() == issues@.len());
    let has_more = offset < total && issues.len() < total - offset;
    LintResponse {
        scope: owned(live.scope.as_str()),
        database: owned(database),
        issues,
        counts,
        total,
        blocking_total,
        advisory_total: total - blocking_total,
        limit,
        offset,
        has_more,
    }
}

impl Store {
    /// Reports the issues of the store; `found` holds those that were found in its
    /// tables.
    pub fn lint(&self, found: &Vec<LintIssue>, limit: usize, offset: usize) -> (r: LintResponse)
        ensures
            reports(r, self@, self@.database, text::views(found@), limit, offset),
    {
        lint_connection(self, self.database.as_str(), found, limit, offset)
    }

    /// The store as it would be with a sparse draft merged in.
    pub fn changeset_sparse_preview(
        &self,
        draft: &Store,
        segments: &Segments,
        now: &str,
        revision: &str,
    ) -> (r: Result<Store, AppError>)
        ensures
            error::outcome(r) == preview(self@, draft@, segments@, now@, revision@),
    {
        let begin = match draft.find_draft(None) {
            Some((_, row)) => row.begin_operation_id,
            None => {
                return Err(store::no_rows_error());
            },
        };
        let mut merged = self.duplicate();
        match merge_sparse_candidate(&mut merged, draft, segments, begin, false, now, revision) {
            Ok(_) => Ok(merged),
            Err(e) => Err(e),
        }
    }

    /// Reports the issues that the store would have with a sparse draft merged in;
    /// `found` holds those that were found in the tables of that preview.
    pub fn changeset_sparse_lint(
        &self,
        draft: &Store,
        segments: &Segments,
        found: &Vec<LintIssue>,
        limit: usize,
        offset: usize,
        now: &str,
        revision: &str,
    ) -> (r: Result<LintResponse, AppError>)
        ensures
            match preview(self@, draft@, segments@, now@, revision@) {
                Ok(merged) => r matches Ok(got) && reports(
                    got,
                    merged,
                    draft@.database,
                    text::views(found@),
                    limit,
                    offset,
                ),
                Err(e) => r matches Err(got) && got@ == e,
            },
    {
        match self.changeset_sparse_preview(draft, segments, now, revision) {
            Ok(merged) => Ok(
                lint_connection(&merged, draft.database.as_str(), found, limit, offset),
            ),
            Err(e) => Err(e),
        }
    }
}

/// The store as it would be with a sparse draft merged in.
pub open spec fn preview(
    live: StoreView,
    draft: StoreView,
    segments: SegmentsView,
    now: Seq<char>,
    revision: Seq<char>,
) -> Result<StoreView, AppErrorView> {
    match crate::changesets::draft_of(draft, None) {
        None => Err(store::no_rows()),
        Some(id) => match sparse_merge::merge_goal(
            live,
            draft,
            segments,
            draft.changesets[id].begin_operation_id,
            false,
            now,
            revision,
        ) {
            Ok(merged) => Ok(merged.store),
            Err(e) => Err(e),
        },
    }
}

// ---------------------------------------------------------------------------
// Laws
// ---------------------------------------------------------------------------

pub open spec fn in_order(list: Seq<IssueView>) -> bool {
    forall|i: int, j: int| 0 <= i < j < list.len() ==> !issue_before(list[j], list[i])
}

proof fn lemma_text_asymmetric(a: Seq<char>, b: Seq<char>)
    ensures
        !(text::before(a, b) && text::before(b, a)),
{
    if text::before(a, b) {
        text::lemma_before_asymmetric(a, b);
    }
}

proof fn lemma_opt_before(a: Option<Seq<char>>, b: Option<Seq<char>>, c: Option<Seq<char>>)
    ensures
        opt_before(a, b) && opt_before(b, c) ==> opt_before(a, c),
        !(opt_before(a, b) && opt_before(b, a)),
        opt_before(a, b) || opt_before(b, a) || a == b,
{
    if a is Some && b is Some {
        text::lemma_before_total(a->0, b->0);
        lemma_text_asymmetric(a->0, b->0);
        if c is Some && opt_before(a, b) && opt_before(b, c) {
            text::lemma_before_transitive(a->0, b->0, c->0);
        }
    }
}

/// An issue that has to stand before a second one has to stand before all that do not
/// have to stand before the second.
proof fn lemma_issue_before(a: IssueView, b: IssueView, c: IssueView)
    requires
        issue_before(a, b),
        !issue_before(c, b),
    ensures
        issue_before(a, c),
{
    text::lemma_before_total(b.code, c.code);
    lemma_text_asymmetric(b.code, c.code);
    lemma_opt_before(a.page, b.page, c.page);
    lemma_opt_before(b.page, c.page, a.page);
    lemma_opt_before(c.page, b.page, a.page);
    lemma_opt_before(a.target, b.target, c.target);
    lemma_opt_before(b.target, c.target, a.target);
    lemma_opt_before(c.target, b.target, a.target);
    if text::before(a.code, b.code) && text::before(b.code, c.code) {
        text::lemma_before_transitive(a.code, b.code, c.code);
    }
}

proof fn lemma_place_parts(list: Seq<IssueView>, one: IssueView)
    requires
        in_order(list),
    ensures
        forall|k: int| 0 <= k < place_for(list, one) ==> !issue_before(one, #[trigger] list[k]),
        forall|k: int| place_for(list, one) <= k < list.len() ==> issue_before(one, #[trigger] list[k]),
    decreases list.len(),
{
    lemma_place(list, one);
    if list.len() > 0 {
        if issue_before(one, list.last()) {
            let head = list.drop_last();
            assert(in_order(head));
            lemma_place_parts(head, one);
            lemma_place(head, one);
            assert forall|k: int| place_for(list, one) <= k < list.len() implies issue_before(
                one,
                #[trigger] list[k],
            ) by {
                if k < list.len() - 1 {
                    assert(head[k] == list[k]);
                }
            }
            assert forall|k: int| 0 <= k < place_for(list, one) implies !issue_before(
                one,
                #[trigger] list[k],
            ) by {
                assert(head[k] == list[k]);
            }
        } else {
            assert forall|k: int| 0 <= k < list.len() implies !issue_before(
                one,
                #[trigger] list[k],
            ) by {
                if issue_before(one, list[k]) && k < list.len() - 1 {
                    lemma_issue_before(one, list[k], list.last());
                }
            }
        }
    }
}

/// The report shows the issues in order, and each of them once: what is sorted is in
/// order and holds the same issues.
pub proof fn law_sorted_is_in_order(list: Seq<IssueView>, count: nat)
    requires
        count <= list.len(),
    ensures
        in_order(sorted(list, count)),
        sorted(list, count).to_multiset() == list.take(count as int).to_multiset(),
        sorted(list, count).len() == count,
    decreases count,
{
    broadcast use vstd::seq_lib::group_to_multiset_ensures;

    if count == 0 {
        assert(list.take(0) =~= Seq::<IssueView>::empty());
    } else {
        let head = sorted(list, (count - 1) as nat);
        let one = list[count - 1];
        law_sorted_is_in_order(list, (count - 1) as nat);
        lemma_place(head, one);
        lemma_place_parts(head, one);
        let at = place_for(head, one) as int;
        let next = head.insert(at, one);
        assert(list.take(count as int) =~= list.take(count - 1).push(one));
        assert(next.remove(at) =~= head);
        assert(next[at] == one);
        assert(next.to_multiset().remove(one) =~= head.to_multiset());
        assert(next.contains(one));
        assert(next.to_multiset() =~= head.to_multiset().insert(one));
        assert forall|i: int, j: int| 0 <= i < j < next.len() implies !issue_before(
            next[j],
            next[i],
        ) by {
            if i == at {
                let other = head[j - 1];
                assert(next[j] == other);
                assert(issue_before(one, other));
                lemma_asymmetric(one, other);
            } else if j == at {
                assert(next[i] == head[i]);
            } else {
                let a = if i < at {
                    i
                } else {
                    i - 1
                };
                let b = if j < at {
                    j
                } else {
                    j - 1
                };
                assert(next[i] == head[a] && next[j] == head[b]);
            }
        }
    }
}

proof fn lemma_asymmetric(a: IssueView, b: IssueView)
    ensures
        !(issue_before(a, b) && issue_before(b, a)),
{
    lemma_text_asymmetric(a.code, b.code);
    text::lemma_before_irreflexive(a.code);
    lemma_opt_before(a.page, b.page, a.page);
    lemma_opt_before(a.target, b.target, a.target);
}

} // verus!
