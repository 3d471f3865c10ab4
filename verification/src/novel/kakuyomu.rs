//! kakuyomu.jp: titles, the chapter list and chapter pages.
use vstd::prelude::*;
use vstd::string::*;

use crate::http::HttpError;
use crate::utils::{
    last_index, str_eq, str_rfind_char, str_strip_prefix, str_strip_suffix, trim, trim_str,
};
use super::html::{
    attribute, document_matches, element_attr, element_inner_html, element_matches,
    element_texts, first_match_html, inner_html, parse_document, parse_fragment, parse_selector,
    parsed_selector, reached, select_all, select_in_document, select_in_element, selector_parses,
    selector_text, text_nodes, CssSelector, Document, SELECT,
};
use super::{Chapter, Id, Line, LineView, NovelError, Title, line_views, utf8_len, ID_CAPACITY};

verus! {

/// What a kakuyomu page title names: the novel's title and, when the title
/// ends in a bracketed name, its author.
pub open spec fn kakuyomu_title(s: Seq<char>) -> (Seq<char>, Option<Seq<char>>) {
    let trimmed = trim(s);
    let t = if " - カクヨム"@.is_suffix_of(trimmed) {
        trimmed.take(trimmed.len() - " - カクヨム"@.len())
    } else {
        trimmed
    };
    match last_index(t, '）') {
        None => (t, None),
        Some(end) => match last_index(t.take(end), '（') {
            None => (t, None),
            Some(start) => (t.take(start), Some(t.take(end).skip(start + 1))),
        },
    }
}

/// The view of an optional string slice.
pub open spec fn opt_str_view(s: Option<&str>) -> Option<Seq<char>> {
    match s {
        Some(t) => Some(t@),
        None => None,
    }
}

impl<'a> Title<'a> {
    /// Reads a kakuyomu page title: `<title>（<author>） - カクヨム`.
    pub fn new_kakuyomu(title: &'a str) -> (r: Self)
        ensures
            (r.name@, opt_str_view(r.author)) == kakuyomu_title(title@),
    {
        let mut t = trim_str(title);
        if let Some(stripped) = str_strip_suffix(t, " - カクヨム") {
            t = stripped;
        }
        let ghost stripped_title = t@;
        let author = match str_rfind_char(t, '）') {
            Some(idx) => {
                let before = t.substring_char(0, idx);
                match str_rfind_char(before, '（') {
                    Some(start_idx) => {
                        let author = before.substring_char(start_idx + 1, before.unicode_len());
                        t = t.substring_char(0, start_idx);
                        Some(author)
                    },
                    None => None,
                }
            },
            None => None,
        };
        proof {
            let s = stripped_title;
            assert(s == kakuyomu_title_base(title@));
            if let Some(end) = last_index(s, '）') {
                assert(s.take(end) =~= s.subrange(0, end));
                if let Some(start) = last_index(s.take(end), '（') {
                    assert(s.take(end).take(start) =~= s.take(start));
                }
            }
        }
        Self { name: t, author }
    }
}

/// The page title without whitespace and site suffix.
pub open spec fn kakuyomu_title_base(s: Seq<char>) -> Seq<char> {
    let trimmed = trim(s);
    if " - カクヨム"@.is_suffix_of(trimmed) {
        trimmed.take(trimmed.len() - " - カクヨム"@.len())
    } else {
        trimmed
    }
}


/// The chapter that a key of kakuyomu's `__APOLLO_STATE__` names: keys
/// `Episode:<id>` name chapters, other keys name nothing.
pub open spec fn episode_of_key(key: Seq<char>) -> Option<Result<Seq<char>, Seq<char>>> {
    if "Episode:"@.is_prefix_of(key) {
        let id = key.skip("Episode:"@.len() as int);
        if utf8_len(id) <= ID_CAPACITY {
            Some(Ok(id))
        } else {
            Some(Err(id + ": not a valid chapter id"@))
        }
    } else {
        None
    }
}

impl Chapter {
    /// Reads a key of kakuyomu's `__APOLLO_STATE__`: `None` for keys that
    /// name no chapter, an error message for a chapter id that does not fit.
    pub fn from_episode_key(key: &str) -> (r: Option<Result<Chapter, String>>)
        ensures
            match (r, episode_of_key(key@)) {
                (None, None) => true,
                (Some(Ok(c)), Some(Ok(id))) => c.spec_text() == id,
                (Some(Err(m)), Some(Err(e))) => m@ == e,
                _ => false,
            },
    {
        match str_strip_prefix(key, "Episode:") {
            Some(id) => match Chapter::from_id(id) {
                Some(chapter) => Some(Ok(chapter)),
                None => {
                    let mut message = id.to_owned();
                    message.append(": not a valid chapter id");
                    Some(Err(message))
                },
            },
            None => None,
        }
    }
}

/// What locates a `<script>` element that may hold the chapter list: its
/// `type` and `id` attributes and its first text.
#[derive(Clone, Copy)]
pub struct ScriptAttrs<'a> {
    pub kind: Option<&'a str>,
    pub id: Option<&'a str>,
    pub text: Option<&'a str>,
}

/// A `<script>` element as plain text: its `type`, its `id` and its first
/// text.
pub type ScriptView = (Option<Seq<char>>, Option<Seq<char>>, Option<Seq<char>>);

/// The plain text of what locates a `<script>` element.
pub open spec fn script_view(script: ScriptAttrs) -> ScriptView {
    (opt_str_view(script.kind), opt_str_view(script.id), opt_str_view(script.text))
}

/// Whether a `<script>` element holds the page's data.
pub open spec fn is_next_data(script: ScriptView) -> bool {
    &&& script.0 == Some("application/json"@)
    &&& script.1 == Some("__NEXT_DATA__"@)
    &&& script.2 is Some
}

/// The text of the first `<script>` element that holds the page's data.
pub open spec fn first_next_data(scripts: Seq<ScriptView>) -> Option<Seq<char>>
    decreases scripts.len(),
{
    if scripts.len() == 0 {
        None
    } else if is_next_data(scripts[0]) {
        scripts[0].2
    } else {
        first_next_data(scripts.drop_first())
    }
}

/// The first of some texts, if there is one.
pub open spec fn first_text(texts: Seq<Seq<char>>) -> Option<Seq<char>> {
    if texts.len() > 0 {
        Some(texts[0])
    } else {
        None
    }
}

/// The `<script>` elements of the index page `page`, in the order that
/// `scraper` yields them.
pub open spec fn page_scripts(page: Seq<char>) -> Seq<ScriptView> {
    let script = "script"@;
    if selector_parses(script) {
        Seq::new(
            document_matches(page, false, script),
            |i: int|
                {
                    let at = seq![(SELECT, script, i as nat)];
                    (
                        attribute(page, false, at, "type"@),
                        attribute(page, false, at, "id"@),
                        first_text(text_nodes(page, false, at)),
                    )
                },
        )
    } else {
        Seq::empty()
    }
}

/// The first text of the first `<title>` of the index page `page`.
pub open spec fn page_title_text(page: Seq<char>) -> Option<Seq<char>> {
    let title = "title"@;
    if selector_parses(title) && document_matches(page, false, title) > 0 {
        first_text(text_nodes(page, false, seq![(SELECT, title, 0nat)]))
    } else {
        None
    }
}

proof fn lemma_first_next_data_step(scripts: Seq<ScriptView>, i: int)
    requires
        0 <= i < scripts.len(),
        forall|j: int| 0 <= j < i ==> !is_next_data(#[trigger] scripts[j]),
    ensures
        first_next_data(scripts) == first_next_data(scripts.skip(i)),
    decreases i,
{
    if i > 0 {
        assert(scripts.drop_first().skip(i - 1) =~= scripts.skip(i));
        lemma_first_next_data_step(scripts.drop_first(), i - 1);
    } else {
        assert(scripts.skip(0) =~= scripts);
    }
}

/// Finds the text of the first `<script>` element that holds the page's
/// data: `type="application/json"`, `id="__NEXT_DATA__"`, and some text.
pub fn find_next_data<'a>(scripts: &Vec<ScriptAttrs<'a>>) -> (r: Option<&'a str>)
    ensures
        opt_str_view(r) == first_next_data(scripts@.map_values(|s: ScriptAttrs<'a>| script_view(s))),
{
    let ghost views = scripts@.map_values(|s: ScriptAttrs<'a>| script_view(s));
    let mut i: usize = 0;
    while i < scripts.len()
        invariant
            i <= scripts@.len(),
            views == scripts@.map_values(|s: ScriptAttrs<'a>| script_view(s)),
            forall|j: int| 0 <= j < i ==> !is_next_data(#[trigger] views[j]),
        decreases scripts@.len() - i,
    {
        let script = scripts[i];
        let matches_kind = match script.kind {
            Some(k) => str_eq(k, "application/json"),
            None => false,
        };
        let matches_id = match script.id {
            Some(d) => str_eq(d, "__NEXT_DATA__"),
            None => false,
        };
        assert(views[i as int] == script_view(script));
        if matches_kind && matches_id {
            if let Some(text) = script.text {
                proof {
                    lemma_first_next_data_step(views, i as int);
                }
                return Some(text);
            }
        }
        i += 1;
    }
    proof {
        assert forall|k: int| 0 <= k <= views.len() implies first_next_data(views.skip(k)) is None by {
            lemma_no_next_data_suffix(views, k);
        }
        assert(views.skip(0) =~= views);
    }
    None
}

proof fn lemma_no_next_data_suffix(s: Seq<ScriptView>, k: int)
    requires
        0 <= k <= s.len(),
        forall|j: int| 0 <= j < s.len() ==> !is_next_data(#[trigger] s[j]),
    ensures
        first_next_data(s.skip(k)) is None,
    decreases s.len() - k,
{
    if k < s.len() {
        assert(s.skip(k).drop_first() =~= s.skip(k + 1));
        assert(s.skip(k)[0] == s[k]);
        lemma_no_next_data_suffix(s, k + 1);
    }
}

/// The novel title that a page's first `<title>` text gives.
pub fn title_from_text<'a>(text: Option<&'a str>) -> (r: Result<Title<'a>, NovelError>)
    ensures
        text is None ==> r == Err::<Title<'a>, NovelError>(NovelError::MissingTitle),
        text matches Some(t) ==> (r matches Ok(title) && (title.name@, opt_str_view(title.author))
            == kakuyomu_title(t@)),
{
    match text {
        Some(t) => Ok(Title::new_kakuyomu(t)),
        None => Err(NovelError::MissingTitle),
    }
}

/// A paragraph of a kakuyomu chapter: class `blank` marks a line break.
pub open spec fn kakuyomu_line(class: Option<Seq<char>>, inner_html: Seq<char>) -> LineView {
    if class == Some("blank"@) {
        LineView::Break
    } else {
        LineView::Paragraph(inner_html)
    }
}

impl Line {
    /// The line for a kakuyomu paragraph with the given class and content.
    pub fn from_kakuyomu_parts(class: Option<&str>, inner_html: String) -> (r: Line)
        ensures
            r@ == kakuyomu_line(opt_str_view(class), inner_html@),
    {
        match class {
            Some(c) => if str_eq(c, "blank") {
                Line::Break
            } else {
                Line::Paragraph(inner_html)
            },
            None => Line::Paragraph(inner_html),
        }
    }

}

/// The lines of a kakuyomu chapter page `page`, parsed as a fragment: one
/// per paragraph of its first chapter body; `None` when it has no chapter
/// body.
pub open spec fn kakuyomu_page_lines(page: Seq<char>) -> Option<Seq<LineView>> {
    let body = ".widget-episodeBody.js-episode-body"@;
    let p = "p"@;
    if selector_parses(body) && document_matches(page, true, body) > 0 {
        let at = seq![(SELECT, body, 0nat)];
        if selector_parses(p) {
            Some(
                Seq::new(
                    element_matches(page, true, at, p),
                    |i: int|
                        {
                            let line = at.push((SELECT, p, i as nat));
                            kakuyomu_line(
                                attribute(page, true, line, "class"@),
                                inner_html(page, true, line),
                            )
                        },
                ),
            )
        } else {
            Some(Seq::empty())
        }
    } else {
        None
    }
}

/// Law: the lines of a kakuyomu chapter page are its chapter body's
/// paragraphs, one line each and in order: a paragraph of class `blank` is a
/// line break, any other is a paragraph holding exactly the paragraph's
/// whole inner HTML; a page without a chapter body has no lines.
pub proof fn lemma_kakuyomu_lines_are_paragraphs(page: Seq<char>)
    ensures
        ({
            let body = ".widget-episodeBody.js-episode-body"@;
            let at = seq![(SELECT, body, 0nat)];
            &&& (kakuyomu_page_lines(page) is None) <==> !(selector_parses(body) && document_matches(
                page,
                true,
                body,
            ) > 0)
            &&& (kakuyomu_page_lines(page) is Some && selector_parses("p"@)) ==> {
                let lines = kakuyomu_page_lines(page).unwrap();
                &&& lines.len() == element_matches(page, true, at, "p"@)
                &&& forall|k: int|
                    0 <= k < lines.len() ==> {
                        let p = at.push((SELECT, "p"@, k as nat));
                        #[trigger] lines[k] == if attribute(page, true, p, "class"@) == Some(
                            "blank"@,
                        ) {
                            LineView::Break
                        } else {
                            LineView::Paragraph(inner_html(page, true, p))
                        }
                    }
            }
        }),
{
}

/// The selectors of a kakuyomu chapter page. A selector that failed to
/// parse matches nothing.
pub struct ChapterSelector {
    body: Option<CssSelector>,
    line: Option<CssSelector>,
    title: Option<CssSelector>,
}

impl ChapterSelector {
    #[verifier::type_invariant]
    spec fn parsed(self) -> bool {
        &&& selector_text(self.body) == parsed_selector(".widget-episodeBody.js-episode-body"@)
        &&& selector_text(self.line) == parsed_selector("p"@)
        &&& selector_text(self.title) == parsed_selector(".widget-episodeTitle"@)
    }

    /// The selectors of the chapter body, its paragraphs and its title.
    pub fn new() -> Self {
        Self {
            body: parse_selector(".widget-episodeBody.js-episode-body"),
            line: parse_selector("p"),
            title: parse_selector(".widget-episodeTitle"),
        }
    }
}

/// A kakuyomu novel: its id and its index page.
pub struct NovelInfo {
    id: Id,
    inner: Document,
    selectors: ChapterSelector,
}

impl NovelInfo {
    /// The novel.
    pub closed spec fn spec_id(&self) -> Id {
        self.id
    }

    /// The text of the index page.
    pub closed spec fn spec_page(&self) -> Seq<char> {
        self.inner.spec_page()
    }

    #[verifier::type_invariant]
    spec fn parsed_as_document(self) -> bool {
        !self.inner.spec_fragment()
    }

    /// The novel `id` with index page `html`.
    pub fn new(id: Id, html: &str) -> (r: Self)
        ensures
            r.spec_id() == id,
            r.spec_page() == html@,
    {
        Self { id, inner: parse_document(html), selectors: ChapterSelector::new() }
    }

    /// Returns novel id
    pub fn id(&self) -> (r: &Id)
        ensures
            *r == self.spec_id(),
    {
        &self.id
    }

    /// The novel's title, from the first text of the page's `<title>`.
    pub fn title(&self) -> (r: Result<Title<'_>, NovelError>)
        ensures
            match page_title_text(self.spec_page()) {
                Some(t) => r matches Ok(title) && (title.name@, opt_str_view(title.author))
                    == kakuyomu_title(t),
                None => r == Err::<Title<'_>, NovelError>(NovelError::MissingTitle),
            },
    {
        title_from_text(self.title_text())
    }

    /// The first text of the page's first `<title>`, as it stands.
    pub fn title_text(&self) -> (r: Option<&str>)
        ensures
            opt_str_view(r) == page_title_text(self.spec_page()),
    {
        proof {
            use_type_invariant(self);
        }
        match parse_selector("title") {
            Some(selector) => {
                let titles = select_in_document(&self.inner, &selector);
                if titles.len() > 0 {
                    let texts = element_texts(&titles[0]);
                    proof {
                        assert(titles@[0].spec_path() =~= seq![(SELECT, "title"@, 0nat)]);
                        assert(texts@.len() == text_nodes(self.spec_page(), false, titles@[0].spec_path()).len());
                    }
                    if texts.len() > 0 {
                        proof {
                            assert(texts@.map_values(|t: &str| t@)[0] == texts@[0]@);
                        }
                        Some(texts[0])
                    } else {
                        None
                    }
                } else {
                    None
                }
            },
            None => None,
        }
    }

    /// The `<script>` elements of the page, as what locates the data.
    fn scripts(&self) -> (r: Vec<ScriptAttrs<'_>>)
        ensures
            r@.map_values(|s: ScriptAttrs<'_>| script_view(s)) == page_scripts(self.spec_page()),
    {
        proof {
            use_type_invariant(self);
        }
        let mut result: Vec<ScriptAttrs<'_>> = Vec::new();
        let ghost page = self.spec_page();
        if let Some(selector) = parse_selector("script") {
            let elements = select_in_document(&self.inner, &selector);
            let mut i: usize = 0;
            while i < elements.len()
                invariant
                    i <= elements@.len(),
                    selector.spec_text() == "script"@,
                    selector_parses("script"@),
                    page == self.spec_page(),
                    !self.inner.spec_fragment(),
                    reached(elements@, page, false, Seq::empty(), SELECT, "script"@, document_matches(page, false, "script"@)),
                    result@.map_values(|s: ScriptAttrs<'_>| script_view(s)) =~= page_scripts(page).take(i as int),
                decreases elements@.len() - i,
            {
                let element = &elements[i];
                let texts = element_texts(element);
                proof {
                    assert(element.spec_path() =~= seq![(SELECT, "script"@, i as nat)]);
                    assert(texts@.len() == text_nodes(page, false, element.spec_path()).len());
                }
                let text = if texts.len() > 0 {
                    proof {
                        assert(texts@.map_values(|t: &str| t@)[0] == texts@[0]@);
                    }
                    Some(texts[0])
                } else {
                    None
                };
                let attrs = ScriptAttrs {
                    kind: element_attr(element, "type"),
                    id: element_attr(element, "id"),
                    text,
                };
                let ghost before = result@;
                result.push(attrs);
                proof {
                    assert(script_view(attrs) == page_scripts(page)[i as int]);
                    assert(result@.map_values(|s: ScriptAttrs<'_>| script_view(s)) =~= before.map_values(|s: ScriptAttrs<'_>| script_view(s)).push(script_view(attrs)));
                    assert(page_scripts(page).take(i + 1) =~= page_scripts(page).take(i as int).push(page_scripts(page)[i as int]));
                }
                i += 1;
            }
            proof {
                assert(page_scripts(page).take(i as int) =~= page_scripts(page));
            }
        } else {
            proof {
                assert(page_scripts(page) =~= Seq::<ScriptView>::empty());
                assert(result@.map_values(|s: ScriptAttrs<'_>| script_view(s)) =~= Seq::<ScriptView>::empty());
            }
        }
        result
    }

    /// The JSON text of the page's data, which holds the chapter list.
    pub fn next_data_json(&self) -> (r: Option<&str>)
        ensures
            opt_str_view(r) == first_next_data(page_scripts(self.spec_page())),
    {
        let scripts = self.scripts();
        find_next_data(&scripts)
    }

    /// Retrieves chapter content extractor: the page `body`, parsed as a
    /// fragment, read with the novel's selectors.
    pub fn extract_chapter_content<'a>(&'a self, body: &'a str) -> (r: ChapterContent<'a>)
        ensures
            r.spec_page() == body@,
    {
        ChapterContent { html: parse_fragment(body), selectors: &self.selectors }
    }
}

/// The chapter list that the page's data gives: without the data there is
/// no list, and data that does not decode as the list is an error. `parsed`
/// is what decoding the text of [`NovelInfo::next_data_json`] gave, if
/// there was one.
pub fn chapters_outcome(parsed: Option<Result<Vec<Chapter>, serde_json::Error>>) -> (r: Result<
    Vec<Chapter>,
    NovelError,
>)
    ensures
        match parsed {
            None => r == Err::<Vec<Chapter>, NovelError>(NovelError::MissingChapters),
            Some(Err(e)) => r == Err::<Vec<Chapter>, NovelError>(
                NovelError::InvalidKakuyomuChapters(e),
            ),
            Some(Ok(chapters)) => r == Ok::<Vec<Chapter>, NovelError>(chapters),
        },
{
    match parsed {
        None => Err(NovelError::MissingChapters),
        Some(Err(e)) => Err(NovelError::InvalidKakuyomuChapters(e)),
        Some(Ok(chapters)) => Ok(chapters),
    }
}

/// What fetching a kakuyomu index page leads to: the page makes the novel,
/// a missing page (status 404) means there is no such novel, and any other
/// failure is transient.
pub fn fetch_outcome(id: Id, response: Result<String, HttpError>) -> (r: Result<
    NovelInfo,
    NovelError,
>)
    ensures
        response matches Ok(html) ==> (r matches Ok(info) && info.spec_id() == id
            && info.spec_page() == html@),
        response matches Err(e) ==> (if e == HttpError::StatusFailed(404) {
            r == Err::<NovelInfo, NovelError>(NovelError::NotFound)
        } else {
            r == Err::<NovelInfo, NovelError>(NovelError::Transient(e))
        }),
{
    match response {
        Ok(html) => Ok(NovelInfo::new(id, html.as_str())),
        Err(HttpError::StatusFailed(404)) => Err(NovelError::NotFound),
        Err(error) => Err(NovelError::Transient(error)),
    }
}

/// A parsed kakuyomu chapter page.
pub struct ChapterContent<'a> {
    html: Document,
    selectors: &'a ChapterSelector,
}

impl<'a> ChapterContent<'a> {
    #[verifier::type_invariant]
    spec fn parsed_as_fragment(self) -> bool {
        self.html.spec_fragment()
    }

    /// The text of the page.
    pub closed spec fn spec_page(&self) -> Seq<char> {
        self.html.spec_page()
    }

    /// Extracts Chapter title: the content of the first `.widget-episodeTitle`.
    pub fn title(&self) -> (r: Result<String, NovelError>)
        ensures
            match first_match_html(self.spec_page(), true, ".widget-episodeTitle"@) {
                Some(t) => r matches Ok(title) && title@ == t,
                None => r matches Err(e) && e matches NovelError::InvalidChapterContent(m) && m@
                    == "Cannot find .widget-episodeTitle with title"@,
            },
    {
        proof {
            use_type_invariant(self);
            use_type_invariant(self.selectors);
        }
        let titles = select_all(&self.html, &self.selectors.title);
        if titles.len() > 0 {
            proof {
                assert(titles@[0].spec_path() =~= seq![(SELECT, ".widget-episodeTitle"@, 0nat)]);
            }
            Ok(element_inner_html(&titles[0]))
        } else {
            Err(NovelError::invalid_chapter_content(
                String::from_str("Cannot find .widget-episodeTitle with title"),
            ))
        }
    }

    /// Extracts Chapter content: the paragraphs of the first chapter body.
    pub fn lines(&self) -> (r: Result<Vec<Line>, NovelError>)
        ensures
            match kakuyomu_page_lines(self.spec_page()) {
                Some(ls) => r matches Ok(lines) && line_views(lines@) == ls,
                None => r matches Err(e) && e matches NovelError::InvalidChapterContent(m) && m@
                    == "Cannot find .widget-episodeBody.js-episode-body with text"@,
            },
    {
        proof {
            use_type_invariant(self);
            use_type_invariant(self.selectors);
        }
        let ghost page = self.spec_page();
        let bodies = select_all(&self.html, &self.selectors.body);
        if bodies.len() == 0 {
            return Err(NovelError::invalid_chapter_content(
                String::from_str("Cannot find .widget-episodeBody.js-episode-body with text"),
            ));
        }
        let ghost at = seq![(SELECT, ".widget-episodeBody.js-episode-body"@, 0nat)];
        proof {
            assert(bodies@[0].spec_path() =~= at);
        }
        let ghost expected = kakuyomu_page_lines(page).unwrap();
        let paragraphs = match &self.selectors.line {
            Some(selector) => {
                let found = select_in_element(&bodies[0], selector);
                proof {
                    assert forall|k: int| 0 <= k < found@.len() implies {
                        &&& (#[trigger] found@[k]).spec_page() == page
                        &&& found@[k].spec_fragment()
                        &&& kakuyomu_line(
                            attribute(page, true, found@[k].spec_path(), "class"@),
                            inner_html(page, true, found@[k].spec_path()),
                        ) == expected[k]
                    } by {
                        assert(found@[k].spec_path() == at.push((SELECT, "p"@, k as nat)));
                    }
                }
                found
            },
            None => Vec::new(),
        };
        let mut lines: Vec<Line> = Vec::new();
        let mut i: usize = 0;
        while i < paragraphs.len()
            invariant
                i <= paragraphs@.len(),
                paragraphs@.len() == expected.len(),
                forall|k: int| 0 <= k < paragraphs@.len() ==> {
                    &&& (#[trigger] paragraphs@[k]).spec_page() == page
                    &&& paragraphs@[k].spec_fragment()
                    &&& kakuyomu_line(
                        attribute(page, true, paragraphs@[k].spec_path(), "class"@),
                        inner_html(page, true, paragraphs@[k].spec_path()),
                    ) == expected[k]
                },
                line_views(lines@) =~= expected.take(i as int),
            decreases paragraphs@.len() - i,
        {
            let p = &paragraphs[i];
            let class = element_attr(p, "class");
            let inner = element_inner_html(p);
            let line = Line::from_kakuyomu_parts(class, inner);
            let ghost old_lines = lines@;
            lines.push(line);
            proof {
                assert(paragraphs@[i as int].spec_page() == page);
                assert(line@ == expected[i as int]);
                assert(line_views(lines@) =~= line_views(old_lines).push(line@));
                assert(expected.take(i + 1) =~= expected.take(i as int).push(expected[i as int]));
            }
            i += 1;
        }
        proof {
            assert(expected.take(i as int) =~= expected);
        }
        Ok(lines)
    }
}

} // verus!
