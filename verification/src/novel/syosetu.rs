//! syosetu.com: the novel API's answer, the chapter list and chapter pages.
use vstd::prelude::*;
use vstd::string::*;

use crate::http::HttpError;
use crate::utils::{str_eq, str_starts_with, trim, trim_str};
use super::html::{
    attribute, child_count, descendant_count, document_matches, element_attr, element_children,
    element_descendants, element_inner_html, element_name, element_texts, element_value,
    first_match_html, parse_document, parse_selector, parsed_selector, reached, select_all,
    selector_parses, selector_text, tag_name, text_nodes, CssSelector, Document, PageElement,
    Step, CHILD, DESCENDANT, SELECT,
};
use super::kakuyomu::opt_str_view;
use super::{
    decimal, index_url, line_views, BackendKind, Chapter, Id, Line, LineView, NovelError,
    Title, novel_error_from_http,
};

verus! {

/// The chapters `start..=end` that are still to come, by number.
pub struct ChapterIter {
    start: u32,
    end: u32,
}

/// The number of chapters that `ChapterIter::len` reports: those from
/// `start` to `end`, none when `start` is past `end`, and at most
/// `u32::MAX`.
pub open spec fn reported_len(start: u32, end: u32) -> nat {
    if start > end {
        0
    } else if end - start + 1 > u32::MAX {
        u32::MAX as nat
    } else {
        (end - start + 1) as nat
    }
}

impl ChapterIter {
    /// The next chapter number.
    pub closed spec fn spec_start(&self) -> u32 {
        self.start
    }

    /// The last chapter number.
    pub closed spec fn spec_end(&self) -> u32 {
        self.end
    }

    /// The chapters `start..=end`.
    pub fn new(start: u32, end: u32) -> (r: Self)
        ensures
            r.spec_start() == start,
            r.spec_end() == end,
    {
        Self { start, end }
    }

    /// The next chapter, named by its number, while there is one.
    pub fn next(&mut self) -> (r: Option<Chapter>)
        ensures
            final(self).spec_end() == old(self).spec_end(),
            match next_step(old(self).spec_start(), old(self).spec_end()) {
                Some((n, start)) => r matches Some(c) && c.spec_text() == decimal(n)
                    && final(self).spec_start() == start,
                None => r is None && final(self).spec_start() == old(self).spec_start(),
            },
    {
        if self.start <= self.end {
            let result = self.start;
            self.start = self.start.saturating_add(1);
            Some(Chapter::from_number(result))
        } else {
            None
        }
    }

    /// The number of chapters to come, counting as `reported_len` does.
    pub fn len(&self) -> (r: usize)
        ensures
            r == reported_len(self.spec_start(), self.spec_end()),
    {
        if self.start > self.end {
            0
        } else {
            (self.end - self.start).saturating_add(1) as usize
        }
    }
}

/// The chapter numbers that `next` yields from `start` on, up to `end`.
pub open spec fn numbers_to_come(start: nat, end: nat) -> Seq<nat>
    decreases (if end + 1 >= start {
        end + 1 - start
    } else {
        0
    }),
{
    if start > end {
        seq![]
    } else {
        seq![start] + numbers_to_come(start + 1, end)
    }
}

/// What one call of `ChapterIter::next` does on `start..=end`: the number
/// it yields and the start it leaves behind, or `None` once past `end`.
pub open spec fn next_step(start: u32, end: u32) -> Option<(nat, u32)> {
    if start <= end {
        Some(
            (
                start as nat,
                if start == u32::MAX {
                    u32::MAX
                } else {
                    (start + 1) as u32
                },
            ),
        )
    } else {
        None
    }
}

/// The numbers that `calls` successive calls of `ChapterIter::next` yield
/// on `start..=end`.
pub open spec fn numbers_yielded(start: u32, end: u32, calls: nat) -> Seq<nat>
    decreases calls,
{
    if calls == 0 {
        seq![]
    } else {
        match next_step(start, end) {
            Some((n, next)) => seq![n] + numbers_yielded(next, end, (calls - 1) as nat),
            None => seq![],
        }
    }
}

/// Law: on chapters `start..=end`, successive calls of `ChapterIter::next`
/// yield the numbers from `start` to `end` in order, each once, and nothing
/// after them however many calls follow; so the chapters of a syosetu novel
/// come as `1..=n`. `end` stays below `u32::MAX`, where the saturating
/// count would yield the last number again and again.
pub proof fn lemma_iteration_yields_range(start: u32, end: u32, calls: nat)
    requires
        end < u32::MAX,
        calls >= end + 1 - start,
    ensures
        numbers_yielded(start, end, calls) == numbers_to_come(start as nat, end as nat),
    decreases calls,
{
    if calls > 0 && start <= end {
        lemma_iteration_yields_range((start + 1) as u32, end, (calls - 1) as nat);
    }
}

/// Law: for chapters counted from one, the length that `ChapterIter::len`
/// reports is the number of chapters still to come, zero once none is.
pub proof fn lemma_len_counts_chapters(start: u32, end: u32)
    requires
        1 <= start,
    ensures
        reported_len(start, end) == numbers_to_come(start as nat, end as nat).len(),
{
    if start <= end {
        lemma_numbers_to_come_len(start as nat, end as nat);
    }
}

proof fn lemma_numbers_to_come_len(start: nat, end: nat)
    requires
        start <= end + 1,
    ensures
        numbers_to_come(start, end).len() == end + 1 - start,
    decreases end + 1 - start,
{
    if start <= end {
        lemma_numbers_to_come_len(start + 1, end);
    }
}

/// The count of novels that the syosetu API found.
#[derive(Debug)]
pub struct Meta {
    count: usize,
}

impl Meta {
    /// The count `count`.
    pub fn new(count: usize) -> (r: Self)
        ensures
            r.spec_count() == count,
    {
        Self { count }
    }

    /// The count.
    pub closed spec fn spec_count(&self) -> usize {
        self.count
    }

    /// The count.
    pub fn count(&self) -> (r: usize)
        ensures
            r == self.spec_count(),
    {
        self.count
    }
}

/// What the syosetu API tells of a novel.
#[derive(Debug)]
pub struct Info {
    pub title: String,
    pub writer: String,
    pub chapter_count: u32,
    pub updated_at: str_buf::StrBuf<20>,
}

/// One entry of the syosetu API's answer.
#[derive(Debug)]
pub enum ApiResponse {
    Meta(Meta),
    Info(Info),
}

/// The selectors of a syosetu chapter page. A selector that failed to
/// parse matches nothing.
pub struct ChapterSelector {
    body: Option<CssSelector>,
    title: Option<CssSelector>,
}

impl ChapterSelector {
    #[verifier::type_invariant]
    spec fn parsed(self) -> bool {
        &&& selector_text(self.body) == parsed_selector(".p-novel__text"@)
        &&& selector_text(self.title) == parsed_selector(".p-novel__title"@)
    }

    /// The selectors of the chapter text and its title.
    pub fn new() -> Self {
        Self { body: parse_selector(".p-novel__text"), title: parse_selector(".p-novel__title") }
    }
}

/// A syosetu novel: its id and what the API told of it.
pub struct NovelInfo {
    id: Id,
    novel: Info,
    selectors: ChapterSelector,
}

/// The extra headers that chapter requests carry: the R18 site wants its
/// age cookie.
pub open spec fn chapter_headers(kind: BackendKind) -> Seq<(Seq<char>, Seq<char>)> {
    if kind == BackendKind::R18Syosetu {
        seq![("Cookie"@, "over18=yes"@)]
    } else {
        seq![]
    }
}

impl NovelInfo {
    /// The novel.
    pub closed spec fn spec_id(&self) -> Id {
        self.id
    }

    /// What the API told of the novel.
    pub closed spec fn spec_info(&self) -> Info {
        self.novel
    }

    fn new(id: Id, novel: Info) -> (r: Self)
        ensures
            r.spec_id() == id,
            r.spec_info() == novel,
    {
        Self { id, novel, selectors: ChapterSelector::new() }
    }

    /// Returns novel id
    pub fn id(&self) -> (r: &Id)
        ensures
            *r == self.spec_id(),
    {
        &self.id
    }

    /// What the API told of the novel.
    pub fn info(&self) -> (r: &Info)
        ensures
            *r == self.spec_info(),
    {
        &self.novel
    }

    /// The novel's title and its writer.
    pub fn title(&self) -> (r: Result<Title<'_>, NovelError>)
        ensures
            r matches Ok(t) && t.name@ == self.spec_info().title@ && (t.author matches Some(a)
                && a@ == self.spec_info().writer@),
    {
        Ok(Title { name: self.novel.title.as_str(), author: Some(self.novel.writer.as_str()) })
    }

    /// The chapters `1..=chapter_count`.
    pub fn chapters(&self) -> (r: Result<ChapterIter, NovelError>)
        ensures
            r matches Ok(it) && it.spec_start() == 1 && it.spec_end()
                == self.spec_info().chapter_count,
    {
        Ok(ChapterIter::new(1, self.novel.chapter_count))
    }

    /// The extra headers that chapter requests carry.
    pub fn headers(&self) -> (r: Vec<(&'static str, &'static str)>)
        ensures
            r@.map_values(|h: (&str, &str)| (h.0@, h.1@)) == chapter_headers(
                self.spec_id().spec_kind(),
            ),
    {
        let mut headers: Vec<(&'static str, &'static str)> = Vec::new();
        if self.id.kind().is_syosetu_r18() {
            headers.push(("Cookie", "over18=yes"));
        }
        proof {
            assert(headers@.map_values(|h: (&str, &str)| (h.0@, h.1@)) =~= chapter_headers(
                self.spec_id().spec_kind(),
            ));
        }
        headers
    }

    /// Retrieves chapter content extractor: the page `body`, parsed, read
    /// with the novel's selectors.
    pub fn extract_chapter_content<'a>(&'a self, body: &'a str) -> (r: ChapterContent<'a>)
        ensures
            r.spec_page() == body@,
    {
        ChapterContent { html: parse_document(body), selectors: &self.selectors }
    }
}

/// An element below a paragraph of a syosetu chapter: its tag name and its
/// `src` and `alt` attributes.
#[derive(Clone, Copy)]
pub struct DescendantParts<'a> {
    pub name: &'a str,
    pub src: Option<&'a str>,
    pub alt: Option<&'a str>,
}

/// A child element of a syosetu chapter text: its tag name, all its text,
/// and itself with the elements below it, in the order `scraper` yields
/// them.
pub struct ChildParts<'a> {
    pub name: &'a str,
    pub text: String,
    pub descendants: Vec<DescendantParts<'a>>,
}

/// An element below a paragraph as plain text: its tag name, `src` and
/// `alt`.
pub type DescendantView = (Seq<char>, Option<Seq<char>>, Option<Seq<char>>);

/// A child of a chapter text as plain text: its tag name, all its text, and
/// itself with the elements below it.
pub type ChildView = (Seq<char>, Seq<char>, Seq<DescendantView>);

/// The plain text of an element below a paragraph.
pub open spec fn descendant_view(d: DescendantParts) -> DescendantView {
    (d.name@, opt_str_view(d.src), opt_str_view(d.alt))
}

/// The plain text of a child of a chapter text.
pub open spec fn child_view(c: ChildParts) -> ChildView {
    (c.name@, c.text@, c.descendants@.map_values(|d: DescendantParts| descendant_view(d)))
}

/// The plain text of the children of some chapter texts.
pub open spec fn bodies_view(bodies: Seq<Vec<ChildParts>>) -> Seq<Seq<ChildView>> {
    bodies.map_values(|b: Vec<ChildParts>| b@.map_values(|c: ChildParts| child_view(c)))
}

/// Texts one after another.
pub open spec fn concat_texts(texts: Seq<Seq<char>>) -> Seq<char>
    decreases texts.len(),
{
    if texts.len() == 0 {
        seq![]
    } else {
        concat_texts(texts.drop_last()) + texts.last()
    }
}

/// The child that `at` reaches in the chapter page `page`, as plain text.
pub open spec fn page_child(page: Seq<char>, at: Seq<Step>) -> ChildView {
    (
        tag_name(page, false, at),
        concat_texts(text_nodes(page, false, at)),
        Seq::new(
            descendant_count(page, false, at),
            |k: int|
                {
                    let d = at.push((DESCENDANT, Seq::empty(), k as nat));
                    (
                        tag_name(page, false, d),
                        attribute(page, false, d, "src"@),
                        attribute(page, false, d, "alt"@),
                    )
                },
        ),
    )
}

/// The children of each chapter text (`.p-novel__text`) of the chapter page
/// `page`, in the order `scraper` yields them, as plain text.
pub open spec fn page_bodies(page: Seq<char>) -> Seq<Seq<ChildView>> {
    let text = ".p-novel__text"@;
    if selector_parses(text) {
        Seq::new(
            document_matches(page, false, text),
            |i: int|
                {
                    let body = seq![(SELECT, text, i as nat)];
                    Seq::new(
                        child_count(page, false, body),
                        |j: int| page_child(page, body.push((CHILD, Seq::empty(), j as nat))),
                    )
                },
        )
    } else {
        Seq::empty()
    }
}

/// Law: texts put one after another keep each text whole and in order:
/// no texts give nothing, one text gives itself, and the texts of two runs
/// give the first run's then the second's.
pub proof fn lemma_concat_texts(a: Seq<Seq<char>>, b: Seq<Seq<char>>, t: Seq<char>)
    ensures
        concat_texts(Seq::empty()) == Seq::<char>::empty(),
        concat_texts(seq![t]) == t,
        concat_texts(a + b) == concat_texts(a) + concat_texts(b),
    decreases b.len(),
{
    assert(seq![t].drop_last() =~= Seq::<Seq<char>>::empty());
    assert(Seq::<char>::empty() + t =~= t);
    if b.len() == 0 {
        assert(a + b =~= a);
        assert(concat_texts(a) + Seq::<char>::empty() =~= concat_texts(a));
    } else {
        lemma_concat_texts(a, b.drop_last(), t);
        assert((a + b).drop_last() =~= a + b.drop_last());
        assert((a + b).last() == b.last());
        assert(concat_texts(a) + concat_texts(b.drop_last()) + b.last() =~= concat_texts(a) + (
        concat_texts(b.drop_last()) + b.last()));
    }
}

/// Law: each child of each chapter text of a syosetu chapter page is read
/// whole: its tag name, all of its text nodes put one after another (not a
/// part of them), and every element from itself down.
pub proof fn lemma_syosetu_child_is_whole(page: Seq<char>, i: int, j: int)
    requires
        selector_parses(".p-novel__text"@),
        0 <= i < document_matches(page, false, ".p-novel__text"@),
        0 <= j < child_count(page, false, seq![(SELECT, ".p-novel__text"@, i as nat)]),
    ensures
        ({
            let at = seq![(SELECT, ".p-novel__text"@, i as nat)].push(
                (CHILD, Seq::<char>::empty(), j as nat),
            );
            let child = page_bodies(page)[i][j];
            &&& page_bodies(page).len() == document_matches(page, false, ".p-novel__text"@)
            &&& page_bodies(page)[i].len() == child_count(
                page,
                false,
                seq![(SELECT, ".p-novel__text"@, i as nat)],
            )
            &&& child.0 == tag_name(page, false, at)
            &&& child.1 == concat_texts(text_nodes(page, false, at))
            &&& child.2.len() == descendant_count(page, false, at)
            &&& forall|k: int|
                0 <= k < child.2.len() ==> #[trigger] child.2[k] == (
                    tag_name(page, false, at.push((DESCENDANT, Seq::<char>::empty(), k as nat))),
                    attribute(
                        page,
                        false,
                        at.push((DESCENDANT, Seq::<char>::empty(), k as nat)),
                        "src"@,
                    ),
                    attribute(
                        page,
                        false,
                        at.push((DESCENDANT, Seq::<char>::empty(), k as nat)),
                        "alt"@,
                    ),
                )
        }),
{
}

/// Law: a `<p>` child of a chapter text with some text that is not only
/// whitespace ends its lines with a paragraph holding all of that text.
pub proof fn lemma_paragraph_holds_its_text(child: ChildView)
    requires
        child.0 == "p"@,
        trim(child.1).len() > 0,
    ensures
        child_lines(child).len() > 0,
        child_lines(child).last() == LineView::Paragraph(child.1),
{
}

/// `s` without its leading `c`s.
pub open spec fn trim_start_char(s: Seq<char>, c: char) -> Seq<char>
    decreases s.len(),
{
    if s.len() > 0 && s[0] == c {
        trim_start_char(s.drop_first(), c)
    } else {
        s
    }
}

/// Where an image of a syosetu chapter is: an `http` URL as it is, any
/// other source as an `https` URL without its leading slashes.
pub open spec fn image_url(src: Seq<char>) -> Seq<char> {
    if "http"@.is_prefix_of(src) {
        src
    } else {
        "https://"@ + trim_start_char(src, '/')
    }
}

/// The line that an element below a paragraph gives: a line break for
/// `<br>`, an image for `<img>` with a source, nothing otherwise.
pub open spec fn descendant_line(d: DescendantView) -> Seq<LineView> {
    if d.0 == "br"@ {
        seq![LineView::Break]
    } else if d.0 == "img"@ {
        match d.1 {
            Some(src) => seq![
                LineView::Img(
                    image_url(src),
                    match d.2 {
                        Some(alt) => alt,
                        None => Seq::empty(),
                    },
                ),
            ],
            None => seq![],
        }
    } else {
        seq![]
    }
}

/// The lines that elements below a paragraph give, in order.
pub open spec fn descendant_lines(ds: Seq<DescendantView>) -> Seq<LineView>
    decreases ds.len(),
{
    if ds.len() == 0 {
        seq![]
    } else {
        descendant_lines(ds.drop_last()) + descendant_line(ds.last())
    }
}

/// The paragraph that a text gives, unless it is only whitespace.
pub open spec fn text_line(text: Seq<char>) -> Seq<LineView> {
    if trim(text).len() == 0 {
        seq![]
    } else {
        seq![LineView::Paragraph(text)]
    }
}

/// All elements of `s` but the first; none when `s` is empty.
pub open spec fn skip_first<T>(s: Seq<T>) -> Seq<T> {
    if s.len() == 0 {
        s
    } else {
        s.drop_first()
    }
}

/// The lines that a child element of a chapter text gives: for a `<p>`,
/// the lines of the elements below it, then its text; nothing otherwise.
pub open spec fn child_lines(child: ChildView) -> Seq<LineView> {
    if child.0 == "p"@ {
        descendant_lines(skip_first(child.2)) + text_line(child.1)
    } else {
        seq![]
    }
}

/// The lines that the children of a chapter text give, in order.
pub open spec fn children_lines(children: Seq<ChildView>) -> Seq<LineView>
    decreases children.len(),
{
    if children.len() == 0 {
        seq![]
    } else {
        children_lines(children.drop_last()) + child_lines(children.last())
    }
}

/// The lines of a syosetu chapter: each chapter text opens a new part.
pub open spec fn chapter_lines(bodies: Seq<Seq<ChildView>>) -> Seq<LineView>
    decreases bodies.len(),
{
    if bodies.len() == 0 {
        seq![]
    } else {
        chapter_lines(bodies.drop_last()) + seq![LineView::ChapterDiv] + children_lines(
            bodies.last(),
        )
    }
}

/// Law: the lines of the elements below a paragraph are the lines of each
/// element in turn: none for none, an element's own lines for one, and for
/// two runs of elements the first run's lines then the second's.
pub proof fn lemma_descendant_lines_in_turn(
    a: Seq<DescendantView>,
    b: Seq<DescendantView>,
    d: DescendantView,
)
    ensures
        descendant_lines(Seq::empty()) == Seq::<LineView>::empty(),
        descendant_lines(seq![d]) == descendant_line(d),
        descendant_lines(a + b) == descendant_lines(a) + descendant_lines(b),
    decreases b.len(),
{
    assert(seq![d].drop_last() =~= Seq::<DescendantView>::empty());
    assert(seq![d].last() == d);
    assert(descendant_lines(Seq::<DescendantView>::empty()) == Seq::<LineView>::empty());
    assert(descendant_lines(seq![d]) == descendant_lines(seq![d].drop_last()) + descendant_line(d));
    assert(Seq::<LineView>::empty() + descendant_line(d) =~= descendant_line(d));
    if b.len() == 0 {
        assert(a + b =~= a);
        assert(descendant_lines(a) + Seq::<LineView>::empty() =~= descendant_lines(a));
    } else {
        lemma_descendant_lines_in_turn(a, b.drop_last(), d);
        assert((a + b).drop_last() =~= a + b.drop_last());
        assert((a + b).last() == b.last());
        assert(descendant_lines(a) + descendant_lines(b.drop_last()) + descendant_line(b.last())
            =~= descendant_lines(a) + (descendant_lines(b.drop_last()) + descendant_line(b.last())));
    }
}

/// Law: the lines of the children of a chapter text are the lines of each
/// child in turn.
pub proof fn lemma_children_lines_in_turn(a: Seq<ChildView>, b: Seq<ChildView>, c: ChildView)
    ensures
        children_lines(Seq::empty()) == Seq::<LineView>::empty(),
        children_lines(seq![c]) == child_lines(c),
        children_lines(a + b) == children_lines(a) + children_lines(b),
    decreases b.len(),
{
    assert(seq![c].drop_last() =~= Seq::<ChildView>::empty());
    assert(Seq::<LineView>::empty() + child_lines(c) =~= child_lines(c));
    if b.len() == 0 {
        assert(a + b =~= a);
        assert(children_lines(a) + Seq::<LineView>::empty() =~= children_lines(a));
    } else {
        lemma_children_lines_in_turn(a, b.drop_last(), c);
        assert((a + b).drop_last() =~= a + b.drop_last());
        assert((a + b).last() == b.last());
        assert(children_lines(a) + children_lines(b.drop_last()) + child_lines(b.last())
            =~= children_lines(a) + (children_lines(b.drop_last()) + child_lines(b.last())));
    }
}

/// Law: the lines of a syosetu chapter are, for each chapter text in turn,
/// a part divider and then the lines of its children.
pub proof fn lemma_chapter_lines_in_turn(
    a: Seq<Seq<ChildView>>,
    b: Seq<Seq<ChildView>>,
    body: Seq<ChildView>,
)
    ensures
        chapter_lines(Seq::empty()) == Seq::<LineView>::empty(),
        chapter_lines(seq![body]) == seq![LineView::ChapterDiv] + children_lines(body),
        chapter_lines(a + b) == chapter_lines(a) + chapter_lines(b),
    decreases b.len(),
{
    assert(seq![body].drop_last() =~= Seq::<Seq<ChildView>>::empty());
    assert(Seq::<LineView>::empty() + seq![LineView::ChapterDiv] + children_lines(body)
        =~= seq![LineView::ChapterDiv] + children_lines(body));
    if b.len() == 0 {
        assert(a + b =~= a);
        assert(chapter_lines(a) + Seq::<LineView>::empty() =~= chapter_lines(a));
    } else {
        lemma_chapter_lines_in_turn(a, b.drop_last(), body);
        assert((a + b).drop_last() =~= a + b.drop_last());
        assert((a + b).last() == b.last());
        assert(chapter_lines(a) + chapter_lines(b.drop_last()) + seq![LineView::ChapterDiv]
            + children_lines(b.last()) =~= chapter_lines(a) + (chapter_lines(b.drop_last())
            + seq![LineView::ChapterDiv] + children_lines(b.last())));
    }
}

/// Law: what a child of a chapter text gives: nothing unless it is a `<p>`;
/// for a `<p>`, the lines of the elements below it (not itself), then a
/// paragraph of all its text unless that is only whitespace.
pub proof fn lemma_child_lines(child: ChildView)
    ensures
        child.0 != "p"@ ==> child_lines(child) == Seq::<LineView>::empty(),
        child.0 == "p"@ && trim(child.1).len() == 0 ==> child_lines(child) == descendant_lines(
            skip_first(child.2),
        ),
        child.0 == "p"@ && trim(child.1).len() > 0 ==> child_lines(child) == descendant_lines(
            skip_first(child.2),
        ).push(LineView::Paragraph(child.1)),
        child.2.len() > 0 ==> skip_first(child.2) == child.2.subrange(1, child.2.len() as int),
{
    if child.0 == "p"@ && trim(child.1).len() == 0 {
        assert(descendant_lines(skip_first(child.2)) + Seq::<LineView>::empty()
            =~= descendant_lines(skip_first(child.2)));
    }
    if child.0 == "p"@ && trim(child.1).len() > 0 {
        assert(descendant_lines(skip_first(child.2)) + seq![LineView::Paragraph(child.1)]
            =~= descendant_lines(skip_first(child.2)).push(LineView::Paragraph(child.1)));
    }
    if child.2.len() > 0 {
        assert(child.2.drop_first() =~= child.2.subrange(1, child.2.len() as int));
    }
}

/// Law: what an element below a paragraph gives: a line break for `<br>`;
/// for `<img>` with a source, an image at that source's URL with its `alt`
/// text (empty without one); nothing for an `<img>` without a source or any
/// other element.
pub proof fn lemma_descendant_line(d: DescendantView)
    ensures
        d.0 == "br"@ ==> descendant_line(d) == seq![LineView::Break],
        d.0 == "img"@ && d.1 is Some ==> descendant_line(d) == seq![
            LineView::Img(
                image_url(d.1.unwrap()),
                if d.2 is Some {
                    d.2.unwrap()
                } else {
                    Seq::empty()
                },
            ),
        ],
        d.0 == "img"@ && d.1 is None ==> descendant_line(d) == Seq::<LineView>::empty(),
        d.0 != "br"@ && d.0 != "img"@ ==> descendant_line(d) == Seq::<LineView>::empty(),
{
    reveal_strlit("br");
    reveal_strlit("img");
    assert("br"@.len() == 2 && "img"@.len() == 3);
    if d.0 == "img"@ {
        assert(d.0 != "br"@);
    }
}

proof fn lemma_trim_start_char_shape(s: Seq<char>, c: char) -> (k: int)
    ensures
        0 <= k <= s.len(),
        trim_start_char(s, c) == s.skip(k),
        forall|i: int| 0 <= i < k ==> s[i] == c,
        k < s.len() ==> s[k] != c,
    decreases s.len(),
{
    if s.len() > 0 && s[0] == c {
        let k = lemma_trim_start_char_shape(s.drop_first(), c);
        assert(s.drop_first().skip(k) =~= s.skip(k + 1));
        assert forall|i: int| 0 <= i < k + 1 implies s[i] == c by {
            if i > 0 {
                assert(s[i] == s.drop_first()[i - 1]);
            }
        }
        if k + 1 < s.len() {
            assert(s[k + 1] == s.drop_first()[k]);
        }
        k + 1
    } else {
        assert(s.skip(0) =~= s);
        0
    }
}

/// Law: an image source that starts with `http` is its own URL; any other
/// source is made an `https` URL: `https://` followed by the source without
/// the slashes it starts with (so `//host/a.png` and `host/a.png` lead to
/// the same place).
pub proof fn lemma_image_url(src: Seq<char>)
    ensures
        "http"@.is_prefix_of(src) ==> image_url(src) == src,
        !"http"@.is_prefix_of(src) ==> exists|k: int|
            0 <= k <= src.len() && (forall|i: int| 0 <= i < k ==> src[i] == '/') && (k < src.len()
                ==> src[k] != '/') && image_url(src) == "https://"@ + #[trigger] src.skip(k),
{
    let k = lemma_trim_start_char_shape(src, '/');
    assert(image_url(src) == "https://"@ + src.skip(k) || "http"@.is_prefix_of(src));
}

/// `s` without its leading `c`s.
fn str_trim_start_char(s: &str, c: char) -> (r: &str)
    ensures
        r@ == trim_start_char(s@, c),
{
    let len = s.unicode_len();
    let mut start: usize = 0;
    assert(s@.skip(0) =~= s@);
    while start < len && s.get_char(start) == c
        invariant
            len == s@.len(),
            start <= len,
            trim_start_char(s@, c) == trim_start_char(s@.skip(start as int), c),
        decreases len - start,
    {
        proof {
            assert(s@.skip(start as int).drop_first() =~= s@.skip(start + 1));
        }
        start += 1;
    }
    proof {
        assert(s@.skip(start as int) =~= s@.subrange(start as int, len as int));
    }
    s.substring_char(start, len)
}

/// Where an image of a syosetu chapter is.
pub fn image_location(src: &str) -> (r: String)
    ensures
        r@ == image_url(src@),
{
    if str_starts_with(src, "http") {
        src.to_owned()
    } else {
        let mut url = String::from_str("https://");
        url.append(str_trim_start_char(src, '/'));
        url
    }
}

/// The lines that elements below a paragraph give.
pub fn lines_of_descendants(ds: &[DescendantParts], out: &mut Vec<Line>)
    ensures
        line_views(final(out)@) == line_views(old(out)@) + descendant_lines(
            ds@.map_values(|d: DescendantParts| descendant_view(d)),
        ),
{
    let ghost views = ds@.map_values(|d: DescendantParts| descendant_view(d));
    let mut i: usize = 0;
    assert(views.take(0) =~= Seq::<DescendantView>::empty());
    assert(line_views(out@) =~= line_views(old(out)@) + descendant_lines(views.take(0)));
    while i < ds.len()
        invariant
            i <= ds@.len(),
            views == ds@.map_values(|d: DescendantParts| descendant_view(d)),
            line_views(out@) == line_views(old(out)@) + descendant_lines(views.take(i as int)),
        decreases ds@.len() - i,
    {
        let d = ds[i];
        let ghost before = out@;
        if str_eq(d.name, "br") {
            out.push(Line::Break);
        } else if str_eq(d.name, "img") {
            if let Some(src) = d.src {
                let alt = match d.alt {
                    Some(a) => a.to_owned(),
                    None => String::new(),
                };
                out.push(Line::Img(image_location(src), alt));
            }
        }
        proof {
            assert(views.take(i + 1).drop_last() =~= views.take(i as int));
            assert(views.take(i + 1).last() == descendant_view(d));
            assert(line_views(out@) =~= line_views(before) + descendant_line(descendant_view(d)));
        }
        i += 1;
    }
    assert(views.take(ds@.len() as int) =~= views);
}

/// The lines of a syosetu chapter, from what its chapter texts hold.
pub fn lines_of_chapter(bodies: &Vec<Vec<ChildParts>>) -> (r: Vec<Line>)
    ensures
        line_views(r@) == chapter_lines(bodies_view(bodies@)),
{
    let ghost views = bodies_view(bodies@);
    let mut out: Vec<Line> = Vec::new();
    let mut b: usize = 0;
    assert(views.take(0) =~= Seq::<Seq<ChildView>>::empty());
    assert(line_views(out@) =~= chapter_lines(views.take(0)));
    while b < bodies.len()
        invariant
            b <= bodies@.len(),
            views == bodies_view(bodies@),
            line_views(out@) == chapter_lines(views.take(b as int)),
        decreases bodies@.len() - b,
    {
        let children = &bodies[b];
        let ghost cviews = views[b as int];
        assert(cviews == children@.map_values(|c: ChildParts| child_view(c)));
        let ghost start = out@;
        out.push(Line::ChapterDiv);
        proof {
            assert(line_views(out@) =~= line_views(start) + seq![LineView::ChapterDiv]);
        }
        let ghost opened = out@;
        let mut c: usize = 0;
        assert(cviews.take(0) =~= Seq::<ChildView>::empty());
        assert(line_views(out@) =~= line_views(opened) + children_lines(cviews.take(0)));
        while c < children.len()
            invariant
                c <= children@.len(),
                cviews == children@.map_values(|c: ChildParts| child_view(c)),
                line_views(out@) == line_views(opened) + children_lines(cviews.take(c as int)),
            decreases children@.len() - c,
        {
            let child = &children[c];
            let ghost before = out@;
            if str_eq(child.name, "p") {
                let ds = child.descendants.as_slice();
                let rest = slice_skip_first(ds);
                proof {
                    assert(rest@.map_values(|d: DescendantParts| descendant_view(d)) =~= skip_first(
                        child.descendants@.map_values(|d: DescendantParts| descendant_view(d)),
                    ));
                }
                lines_of_descendants(rest, &mut out);
                let ghost mid = out@;
                let text = trim_str(child.text.as_str());
                if text.unicode_len() > 0 {
                    out.push(Line::Paragraph(child.text.clone()));
                }
                proof {
                    assert(line_views(out@) =~= line_views(mid) + text_line(child.text@));
                }
            }
            proof {
                assert(cviews.take(c + 1).drop_last() =~= cviews.take(c as int));
                assert(cviews.take(c + 1).last() == child_view(*child));
                assert(line_views(out@) =~= line_views(before) + child_lines(child_view(*child)));
            }
            c += 1;
        }
        proof {
            assert(cviews.take(children@.len() as int) =~= cviews);
            assert(views.take(b + 1).drop_last() =~= views.take(b as int));
            assert(views.take(b + 1).last() == cviews);
            assert(line_views(out@) =~= chapter_lines(views.take(b + 1)));
        }
        b += 1;
    }
    assert(views.take(bodies@.len() as int) =~= views);
    out
}

/// All elements of `s` but the first; none when `s` is empty.
fn slice_skip_first<'a, T>(s: &'a [T]) -> (r: &'a [T])
    ensures
        r@ == skip_first(s@),
{
    if s.len() == 0 {
        s
    } else {
        vstd::slice::slice_subrange(s, 1, s.len())
    }
}

/// A parsed syosetu chapter page.
pub struct ChapterContent<'a> {
    html: Document,
    selectors: &'a ChapterSelector,
}

impl<'a> ChapterContent<'a> {
    #[verifier::type_invariant]
    spec fn parsed_as_document(self) -> bool {
        !self.html.spec_fragment()
    }

    /// The text of the page.
    pub closed spec fn spec_page(&self) -> Seq<char> {
        self.html.spec_page()
    }
}

impl<'a> ChapterContent<'a> {
    /// Extracts Chapter title: the content of the first `.p-novel__title`.
    pub fn title(&self) -> (r: Result<String, NovelError>)
        ensures
            match first_match_html(self.spec_page(), false, ".p-novel__title"@) {
                Some(t) => r matches Ok(title) && title@ == t,
                None => r matches Err(e) && e matches NovelError::InvalidChapterContent(m) && m@
                    == "Cannot find .p-novel__title with title"@,
            },
    {
        proof {
            use_type_invariant(self);
            use_type_invariant(self.selectors);
        }
        let titles = select_all(&self.html, &self.selectors.title);
        if titles.len() > 0 {
            proof {
                assert(titles@[0].spec_path() =~= seq![(SELECT, ".p-novel__title"@, 0nat)]);
            }
            Ok(element_inner_html(&titles[0]))
        } else {
            Err(NovelError::invalid_chapter_content(
                String::from_str("Cannot find .p-novel__title with title"),
            ))
        }
    }

    /// What a child element of a chapter text holds.
    fn child_parts<'b>(element: &PageElement<'b>) -> (r: ChildParts<'b>)
        requires
            !element.spec_fragment(),
        ensures
            child_view(r) == page_child(element.spec_page(), element.spec_path()),
    {
        let ghost page = element.spec_page();
        let ghost at = element.spec_path();
        let name = element_name(&element_value(element));
        let texts = element_texts(element);
        let ghost tviews = texts@.map_values(|t: &str| t@);
        let mut text = String::new();
        let mut i: usize = 0;
        assert(tviews.take(0) =~= Seq::<Seq<char>>::empty());
        while i < texts.len()
            invariant
                i <= texts@.len(),
                tviews == texts@.map_values(|t: &str| t@),
                text@ == concat_texts(tviews.take(i as int)),
            decreases texts@.len() - i,
        {
            text.append(texts[i]);
            proof {
                assert(tviews.take(i + 1).drop_last() =~= tviews.take(i as int));
                assert(tviews.take(i + 1).last() == texts@[i as int]@);
            }
            i += 1;
        }
        assert(tviews.take(texts@.len() as int) =~= tviews);
        let elements = element_descendants(element);
        let ghost expected = page_child(page, at).2;
        let mut descendants: Vec<DescendantParts<'b>> = Vec::new();
        let mut j: usize = 0;
        while j < elements.len()
            invariant
                j <= elements@.len(),
                expected == page_child(page, at).2,
                reached(elements@, page, false, at, DESCENDANT, Seq::empty(), descendant_count(page, false, at)),
                descendants@.map_values(|d: DescendantParts| descendant_view(d)) =~= expected.take(j as int),
            decreases elements@.len() - j,
        {
            let d = &elements[j];
            let parts = DescendantParts {
                name: element_name(&element_value(d)),
                src: element_attr(d, "src"),
                alt: element_attr(d, "alt"),
            };
            let ghost before = descendants@;
            descendants.push(parts);
            proof {
                assert(d.spec_path() == at.push((DESCENDANT, Seq::<char>::empty(), j as nat)));
                assert(descendant_view(parts) == expected[j as int]);
                assert(descendants@.map_values(|d: DescendantParts| descendant_view(d)) =~= before.map_values(|d: DescendantParts| descendant_view(d)).push(descendant_view(parts)));
                assert(expected.take(j + 1) =~= expected.take(j as int).push(expected[j as int]));
            }
            j += 1;
        }
        assert(expected.take(j as int) =~= expected);
        ChildParts { name, text, descendants }
    }

    /// Extracts Chapter content: each chapter text opens a part, whose
    /// paragraphs give line breaks, images and text.
    pub fn lines(&self) -> (r: Result<Vec<Line>, NovelError>)
        ensures
            r matches Ok(lines) && line_views(lines@) == chapter_lines(page_bodies(self.spec_page())),
    {
        proof {
            use_type_invariant(self);
            use_type_invariant(self.selectors);
        }
        let ghost page = self.spec_page();
        let ghost expected = page_bodies(page);
        let elements = select_all(&self.html, &self.selectors.body);
        let mut bodies: Vec<Vec<ChildParts>> = Vec::new();
        let mut i: usize = 0;
        proof {
            if !selector_parses(".p-novel__text"@) {
                assert(expected =~= Seq::<Seq<ChildView>>::empty());
            }
        }
        while i < elements.len()
            invariant
                i <= elements@.len(),
                expected == page_bodies(page),
                elements@.len() == expected.len(),
                selector_parses(".p-novel__text"@) ==> reached(elements@, page, false, Seq::empty(), SELECT, ".p-novel__text"@, document_matches(page, false, ".p-novel__text"@)),
                bodies_view(bodies@) =~= expected.take(i as int),
            decreases elements@.len() - i,
        {
            let element = &elements[i];
            let ghost body = seq![(SELECT, ".p-novel__text"@, i as nat)];
            proof {
                assert(element.spec_path() =~= body);
            }
            let children = element_children(element);
            let ghost cexpected = expected[i as int];
            let mut parts: Vec<ChildParts> = Vec::new();
            let mut j: usize = 0;
            while j < children.len()
                invariant
                    j <= children@.len(),
                    cexpected == expected[i as int],
                    cexpected.len() == children@.len(),
                    reached(children@, page, false, body, CHILD, Seq::empty(), child_count(page, false, body)),
                    forall|k: int| 0 <= k < cexpected.len() ==> #[trigger] cexpected[k] == page_child(page, body.push((CHILD, Seq::<char>::empty(), k as nat))),
                    parts@.map_values(|c: ChildParts| child_view(c)) =~= cexpected.take(j as int),
                decreases children@.len() - j,
            {
                let child = Self::child_parts(&children[j]);
                let ghost before = parts@;
                parts.push(child);
                proof {
                    assert(children@[j as int].spec_path() == body.push((CHILD, Seq::<char>::empty(), j as nat)));
                    assert(child_view(child) == cexpected[j as int]);
                    assert(parts@.map_values(|c: ChildParts| child_view(c)) =~= before.map_values(|c: ChildParts| child_view(c)).push(child_view(child)));
                    assert(cexpected.take(j + 1) =~= cexpected.take(j as int).push(cexpected[j as int]));
                }
                j += 1;
            }
            let ghost bbefore = bodies@;
            bodies.push(parts);
            proof {
                assert(parts@.map_values(|c: ChildParts| child_view(c)) =~= cexpected);
                assert(bodies_view(bodies@) =~= bodies_view(bbefore).push(cexpected));
                assert(expected.take(i + 1) =~= expected.take(i as int).push(expected[i as int]));
            }
            i += 1;
        }
        proof {
            assert(expected.take(i as int) =~= expected);
        }
        Ok(lines_of_chapter(&bodies))
    }
}

/// Looking a novel up on the syosetu API: first on the site its id names,
/// then once on the other syosetu site.
pub struct Lookup {
    id: Id,
    retried: bool,
}

/// What an answer of the syosetu API leads to.
pub enum LookupStep {
    /// The novel was found.
    Found(NovelInfo),
    /// Ask again, on the other site.
    Retry(Lookup),
    /// The request failed.
    Failed(NovelError),
}

impl Lookup {
    /// The novel looked up.
    pub closed spec fn spec_id(&self) -> Id {
        self.id
    }

    /// Whether this is the second request.
    pub closed spec fn spec_retried(&self) -> bool {
        self.retried
    }

    /// Starts looking up a syosetu novel.
    pub fn new(id: Id) -> (r: Self)
        requires
            id.spec_kind() != BackendKind::Kakuyomu,
        ensures
            r.spec_id() == id,
            !r.spec_retried(),
    {
        Self { id, retried: false }
    }

    /// The URL to ask.
    pub fn url(&self) -> (r: String)
        ensures
            r@ == index_url(self.spec_id().spec_kind(), self.spec_id().spec_text()),
    {
        self.id.url().to_string()
    }

    /// Decides on the API's answer: the last entry, when it describes a
    /// novel, is the novel; otherwise the other site is asked once, and
    /// after that there is no such novel.
    pub fn on_response(self, response: Result<Vec<ApiResponse>, HttpError>) -> (r: LookupStep)
        requires
            self.spec_id().spec_kind() != BackendKind::Kakuyomu,
        ensures
            response matches Err(e) ==> (r matches LookupStep::Failed(f) && f
                == novel_error_from_http(e)),
            response matches Ok(entries) ==> {
                if entries@.len() > 0 && entries@.last() is Info {
                    r matches LookupStep::Found(info) && info.spec_id() == self.spec_id()
                        && info.spec_info() == entries@.last()->Info_0
                } else if !self.spec_retried() {
                    r matches LookupStep::Retry(next) && next.spec_retried()
                        && next.spec_id().spec_text() == self.spec_id().spec_text()
                        && next.spec_id().spec_kind() != self.spec_id().spec_kind()
                        && next.spec_id().spec_kind() != BackendKind::Kakuyomu
                } else {
                    r matches LookupStep::Failed(f) && f == NovelError::NotFound
                }
            },
    {
        match response {
            Err(error) => LookupStep::Failed(NovelError::from_http(error)),
            Ok(mut entries) => {
                match entries.pop() {
                    Some(ApiResponse::Info(novel)) => LookupStep::Found(NovelInfo::new(self.id, novel)),
                    _ => if !self.retried {
                        LookupStep::Retry(Lookup { id: self.id.other_syosetu(), retried: true })
                    } else {
                        LookupStep::Failed(NovelError::NotFound)
                    },
                }
            },
        }
    }
}

} // verus!
