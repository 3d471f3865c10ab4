//! The decisions of the download: the answers to the interactive prompts,
//! which chapters to fetch, and the Markdown that the novel is written as.
use vstd::prelude::*;
use vstd::string::*;

use crate::novel::{decimal, Id, Line, LineView, NovelError, parse_id};
use crate::utils::{trim, trim_str};

verus! {

#[verifier::external_type_specification]
#[verifier::external_body]
pub struct ExParseIntError(core::num::ParseIntError);

/// Whether `c` is an ASCII decimal digit.
pub open spec fn is_digit(c: char) -> bool {
    '0' <= c <= '9'
}

/// The value of a string of decimal digits.
pub open spec fn digits_value(s: Seq<char>) -> nat
    decreases s.len(),
{
    if s.len() == 0 {
        0
    } else {
        10 * digits_value(s.drop_last()) + ((s.last() as nat) - 48) as nat
    }
}

/// The number that `s` spells as `str::parse` reads unsigned integers: an
/// optional `+`, then one or more decimal digits and nothing else.
pub open spec fn parse_unsigned(s: Seq<char>) -> Option<nat> {
    let digits = if s.len() > 0 && s[0] == '+' {
        s.drop_first()
    } else {
        s
    };
    if digits.len() > 0 && forall|i: int| 0 <= i < digits.len() ==> is_digit(#[trigger] digits[i]) {
        Some(digits_value(digits))
    } else {
        None
    }
}

/// Reads a `usize` through `str::parse`, which succeeds exactly when the
/// text spells a number that fits, and then gives that number.
#[verifier::external_body]
fn parse_usize(s: &str) -> (r: Result<usize, core::num::ParseIntError>)
    ensures
        r is Ok <==> (parse_unsigned(s@) matches Some(v) && v <= usize::MAX),
        r matches Ok(v) ==> parse_unsigned(s@) == Some(v as nat),
{
    s.parse::<usize>()
}

/// Reads a `u16` through `str::parse`, which succeeds exactly when the text
/// spells a number that fits, and then gives that number.
#[verifier::external_body]
fn parse_u16(s: &str) -> (r: Result<u16, core::num::ParseIntError>)
    ensures
        r is Ok <==> (parse_unsigned(s@) matches Some(v) && v <= u16::MAX),
        r matches Ok(v) ==> parse_unsigned(s@) == Some(v as nat),
{
    s.parse::<u16>()
}

/// Reads a `u64` through `str::parse`, which succeeds exactly when the text
/// spells a number that fits, and then gives that number.
#[verifier::external_body]
fn parse_u64(s: &str) -> (r: Result<u64, core::num::ParseIntError>)
    ensures
        r is Ok <==> (parse_unsigned(s@) matches Some(v) && v <= u64::MAX),
        r matches Ok(v) ==> parse_unsigned(s@) == Some(v as nat),
{
    s.parse::<u64>()
}

/// The answer to the prompt for the novel.
pub enum NovelAnswer {
    /// Nothing was typed: ask again.
    Empty,
    /// The novel.
    Novel(Id),
    /// The text names no novel: say so and ask again.
    Unrecognized,
}

/// Reads the answer to the prompt for the novel.
pub fn answer_novel(line: &str) -> (r: NovelAnswer)
    ensures
        trim(line@).len() == 0 ==> r is Empty,
        trim(line@).len() > 0 ==> match parse_id(trim(line@)) {
            Some((kind, text)) => r matches NovelAnswer::Novel(id) && id.spec_kind() == kind
                && id.spec_text() == text,
            None => r is Unrecognized,
        },
{
    let line = trim_str(line);
    if line.unicode_len() == 0 {
        return NovelAnswer::Empty;
    }
    match Id::try_parse(line) {
        Some(id) => NovelAnswer::Novel(id),
        None => NovelAnswer::Unrecognized,
    }
}

/// The answer to the prompt for the first chapter.
pub enum FromAnswer {
    /// The first chapter to fetch.
    Chapter(usize),
    /// Zero was typed: say that chapters start at one and ask again.
    Zero,
    /// No number was typed: say why and ask again.
    Invalid(core::num::ParseIntError),
}

/// Reads the answer to the prompt for the first chapter; nothing typed
/// means the first one.
pub fn answer_from(line: &str) -> (r: FromAnswer)
    ensures
        trim(line@).len() == 0 ==> r == FromAnswer::Chapter(1),
        trim(line@).len() > 0 ==> match parse_unsigned(trim(line@)) {
            Some(v) => if v > usize::MAX {
                r is Invalid
            } else if v == 0 {
                r is Zero
            } else {
                r == FromAnswer::Chapter(v as usize)
            },
            None => r is Invalid,
        },
{
    let line = trim_str(line);
    if line.unicode_len() == 0 {
        return FromAnswer::Chapter(1);
    }
    match parse_usize(line) {
        Ok(0) => FromAnswer::Zero,
        Ok(chapter) => FromAnswer::Chapter(chapter),
        Err(error) => FromAnswer::Invalid(error),
    }
}

/// The answer to the prompt for the last chapter.
pub enum ToAnswer {
    /// The last chapter to fetch; `None` for all.
    Chapter(Option<usize>),
    /// The number is not after the first chapter: say so and ask again.
    NotAfterFrom,
    /// No number was typed: say why and ask again.
    Invalid(core::num::ParseIntError),
}

/// Reads the answer to the prompt for the last chapter, which must come
/// after chapter `from`; nothing typed means all chapters.
pub fn answer_to(line: &str, from: usize) -> (r: ToAnswer)
    ensures
        trim(line@).len() == 0 ==> r == ToAnswer::Chapter(None),
        trim(line@).len() > 0 ==> match parse_unsigned(trim(line@)) {
            Some(v) => if v > usize::MAX {
                r is Invalid
            } else if v > from {
                r == ToAnswer::Chapter(Some(v as usize))
            } else {
                r is NotAfterFrom
            },
            None => r is Invalid,
        },
{
    let line = trim_str(line);
    if line.unicode_len() == 0 {
        return ToAnswer::Chapter(None);
    }
    match parse_usize(line) {
        Ok(chapter) => if chapter > from {
            ToAnswer::Chapter(Some(chapter))
        } else {
            ToAnswer::NotAfterFrom
        },
        Err(error) => ToAnswer::Invalid(error),
    }
}

/// Reads the answer to the prompt for the rate limit; nothing typed means
/// no limit.
pub fn answer_rate(line: &str) -> (r: Result<u16, core::num::ParseIntError>)
    ensures
        trim(line@).len() == 0 ==> r == Ok::<u16, core::num::ParseIntError>(0),
        trim(line@).len() > 0 ==> (r is Ok <==> (parse_unsigned(trim(line@)) matches Some(v) && v
            <= u16::MAX)),
        trim(line@).len() > 0 ==> (r matches Ok(v) ==> parse_unsigned(trim(line@)) == Some(
            v as nat,
        )),
{
    let line = trim_str(line);
    if line.unicode_len() == 0 {
        return Ok(0);
    }
    parse_u16(line)
}

/// Reads the answer to the prompt for the interval between rate limited
/// downloads, in seconds; nothing typed means one second.
pub fn answer_interval(line: &str) -> (r: Result<u64, core::num::ParseIntError>)
    ensures
        trim(line@).len() == 0 ==> r == Ok::<u64, core::num::ParseIntError>(1),
        trim(line@).len() > 0 ==> (r is Ok <==> (parse_unsigned(trim(line@)) matches Some(v) && v
            <= u64::MAX)),
        trim(line@).len() > 0 ==> (r matches Ok(v) ==> parse_unsigned(trim(line@)) == Some(
            v as nat,
        )),
{
    let line = trim_str(line);
    if line.unicode_len() == 0 {
        return Ok(1);
    }
    parse_u64(line)
}

/// Reads the answer to the prompt for the output file; nothing typed means
/// the default file.
pub fn answer_out(line: &str) -> (r: Option<String>)
    ensures
        trim(line@).len() == 0 ==> r is None,
        trim(line@).len() > 0 ==> (r matches Some(out) && out@ == trim(line@)),
{
    let line = trim_str(line);
    if line.unicode_len() == 0 {
        None
    } else {
        Some(line.to_owned())
    }
}

/// The Markdown file named `name` in the directory `dir`: `dir`, a `/`,
/// `name` and `.md`, as the text stands.
pub open spec fn markdown_file(dir: Seq<char>, name: Seq<char>) -> Seq<char> {
    dir + "/"@ + name + ".md"@
}

/// The Markdown file that the novel `name` is written to in the directory
/// `dir`: `<dir>/<name>.md`, with `name` taken as it is.
pub fn construct_file_path(dir: &str, name: &str) -> (r: String)
    ensures
        r@ == markdown_file(dir@, name@),
{
    let mut path = dir.to_owned();
    path.append("/");
    path.append(name);
    path.append(".md");
    path
}

/// What the user asked of a download: the first chapter and the last one
/// (all of them without it), whether to stop at the index, and the output
/// file (by default the Markdown file named after the novel's title).
pub struct DownloadPlan {
    pub from: usize,
    pub to: Option<usize>,
    pub dry: bool,
    pub out: Option<String>,
}

/// Where a download stands.
#[derive(Debug, Clone, Copy, PartialEq, Eq, Structural)]
pub enum DownloadState {
    /// The novel's index is being fetched.
    Index,
    /// Chapter `position` (counted from one) is being fetched; the last to
    /// fetch is `last`.
    Chapter { position: usize, last: usize },
    /// Nothing is left to do.
    Finished,
}

/// What happened since the last decision.
pub enum DownloadEvent {
    /// The index was read: the novel is titled `title` and has `chapters`
    /// chapters.
    IndexRead { title: String, chapters: usize },
    /// The index, its title or its chapter list could not be had.
    IndexFailed(NovelError),
    /// The chapter being fetched could not be downloaded.
    ChapterNotDownloaded,
    /// The chapter being fetched was read and written.
    ChapterWritten,
    /// The chapter being fetched was downloaded, but its title or its lines
    /// could not be read.
    ChapterUnreadable(NovelError),
}

/// What to do next.
pub enum DownloadAction {
    /// Fetch the index again.
    RetryIndex,
    /// Show the index and stop: a dry run.
    ShowIndex,
    /// Stop with this error.
    Fail(NovelError),
    /// Stop: the last chapter asked for is beyond the novel's chapters,
    /// whose number this holds.
    TooFewChapters(usize),
    /// Create the file `output` and write the novel's header to it, then
    /// fetch chapter `first` (counted from one), or finish without one.
    Begin { output: String, first: Option<usize> },
    /// Fetch the chapter at this position, counted from one.
    Fetch(usize),
    /// All chapters asked for are done: close the file.
    Finish,
    /// The event does not fit the state: nothing to do.
    Nothing,
}

/// A decision as plain values: a [`DownloadAction`] with the output file as
/// text.
pub enum Decision {
    /// See [`DownloadAction::RetryIndex`].
    RetryIndex,
    /// See [`DownloadAction::ShowIndex`].
    ShowIndex,
    /// See [`DownloadAction::Fail`].
    Fail(NovelError),
    /// See [`DownloadAction::TooFewChapters`].
    TooFewChapters(usize),
    /// See [`DownloadAction::Begin`].
    Begin { output: Seq<char>, first: Option<usize> },
    /// See [`DownloadAction::Fetch`].
    Fetch(usize),
    /// See [`DownloadAction::Finish`].
    Finish,
    /// See [`DownloadAction::Nothing`].
    Nothing,
}

/// The plain values of an action.
pub open spec fn decision_of(action: DownloadAction) -> Decision {
    match action {
        DownloadAction::RetryIndex => Decision::RetryIndex,
        DownloadAction::ShowIndex => Decision::ShowIndex,
        DownloadAction::Fail(e) => Decision::Fail(e),
        DownloadAction::TooFewChapters(n) => Decision::TooFewChapters(n),
        DownloadAction::Begin { output, first } => Decision::Begin { output: output@, first },
        DownloadAction::Fetch(p) => Decision::Fetch(p),
        DownloadAction::Finish => Decision::Finish,
        DownloadAction::Nothing => Decision::Nothing,
    }
}

/// The chapters fetched out of `count`, counted from one, for chapters
/// `from..=until`: those that the window selects and that exist.
pub open spec fn fetched_range(from: usize, until: usize, count: usize) -> (int, int) {
    let (skip, take) = window(from, until);
    let end = if skip + take > count {
        count as int
    } else {
        skip + take
    };
    (skip + 1, end)
}

/// Law: when the last chapter asked for exists (`until <= count`), the
/// chapters fetched are exactly `from..=until`, counted from one, and none
/// when `until` comes before `from`.
pub proof fn lemma_fetched_range_is_asked(from: usize, until: usize, count: usize)
    requires
        1 <= from,
        until <= count,
    ensures
        from <= until ==> fetched_range(from, until, count) == (from as int, until as int),
        until < from ==> fetched_range(from, until, count).0 > fetched_range(from, until, count).1,
{
}

/// What follows `event` in `state` under `plan`: the next state and what to
/// do. A transient failure of the index is retried and any other ends the
/// download; a dry run stops at the index; a last chapter beyond the novel
/// ends it; otherwise the output (`out`, by default the Markdown file named
/// after the novel's title) is begun and the chapters `from..=until` are
/// fetched in order. A chapter that cannot be downloaded is passed over,
/// one that cannot be read ends the download.
pub open spec fn download_spec(
    from: usize,
    to: Option<usize>,
    dry: bool,
    out: Option<Seq<char>>,
    state: DownloadState,
    event: DownloadEvent,
) -> (DownloadState, Decision) {
    match (state, event) {
        (DownloadState::Index, DownloadEvent::IndexFailed(e)) => if e is Transient {
            (DownloadState::Index, Decision::RetryIndex)
        } else {
            (DownloadState::Finished, Decision::Fail(e))
        },
        (DownloadState::Index, DownloadEvent::IndexRead { title, chapters }) => if dry {
            (DownloadState::Finished, Decision::ShowIndex)
        } else {
            let until = match to {
                Some(max) => if max > chapters {
                    None
                } else {
                    Some(max)
                },
                None => Some(chapters),
            };
            match until {
                None => (DownloadState::Finished, Decision::TooFewChapters(chapters)),
                Some(u) => {
                    let output = match out {
                        Some(o) => o,
                        None => markdown_file("."@, title@),
                    };
                    let (first, last) = fetched_range(from, u, chapters);
                    if first <= last {
                        (
                            DownloadState::Chapter { position: first as usize, last: last as usize },
                            Decision::Begin { output, first: Some(first as usize) },
                        )
                    } else {
                        (DownloadState::Finished, Decision::Begin { output, first: None })
                    }
                },
            }
        },
        (DownloadState::Chapter { position, last }, DownloadEvent::ChapterUnreadable(e)) => (
            DownloadState::Finished,
            Decision::Fail(e),
        ),
        (DownloadState::Chapter { position, last }, DownloadEvent::ChapterNotDownloaded)
        | (DownloadState::Chapter { position, last }, DownloadEvent::ChapterWritten) => if position
            < last {
            (
                DownloadState::Chapter { position: (position + 1) as usize, last },
                Decision::Fetch((position + 1) as usize),
            )
        } else {
            (DownloadState::Finished, Decision::Finish)
        },
        (s, _) => (s, Decision::Nothing),
    }
}

/// The chapters that `n` successive chapters written lead the download to
/// fetch next, from `state`.
pub open spec fn chapters_fetched(
    from: usize,
    to: Option<usize>,
    dry: bool,
    out: Option<Seq<char>>,
    state: DownloadState,
    n: nat,
) -> Seq<usize>
    decreases n,
{
    if n == 0 {
        seq![]
    } else {
        let (next, decision) = download_spec(from, to, dry, out, state, DownloadEvent::ChapterWritten);
        match decision {
            Decision::Fetch(p) => seq![p] + chapters_fetched(from, to, dry, out, next, (n - 1) as nat),
            _ => seq![],
        }
    }
}

/// Law: once chapter `position` is being fetched with `last` the last one,
/// each chapter written leads to the next, so the chapters fetched after it
/// are exactly `position + 1..=last`, in order, and then the download
/// finishes, however many more events come.
pub proof fn lemma_chapters_follow_in_order(
    from: usize,
    to: Option<usize>,
    dry: bool,
    out: Option<Seq<char>>,
    position: usize,
    last: usize,
    n: nat,
)
    requires
        position <= last,
        n >= last - position,
    ensures
        chapters_fetched(from, to, dry, out, DownloadState::Chapter { position, last }, n)
            == Seq::new((last - position) as nat, |i: int| (position + 1 + i) as usize),
    decreases last - position,
{
    let s = Seq::new((last - position) as nat, |i: int| (position + 1 + i) as usize);
    if position < last {
        let next = (position + 1) as usize;
        lemma_chapters_follow_in_order(from, to, dry, out, next, last, (n - 1) as nat);
        let rest = Seq::new((last - next) as nat, |i: int| (next + 1 + i) as usize);
        assert(s =~= seq![next] + rest);
    } else {
        assert(s =~= Seq::<usize>::empty());
    }
}

/// Law: once the index is read (and the run is not dry), the download is
/// refused exactly when `--to` names a chapter beyond the novel's last; a
/// `--to` up to the number of chapters (or none, for all of them) begins
/// the output, by default `./<title>.md`, and fetches chapter `from` first
/// and `--to` (or the last chapter) last.
pub proof fn lemma_index_read_begins_asked_chapters(
    from: usize,
    to: Option<usize>,
    out: Option<Seq<char>>,
    title: String,
    chapters: usize,
)
    requires
        1 <= from,
    ensures
        ({
            let (state, decision) = download_spec(
                from,
                to,
                false,
                out,
                DownloadState::Index,
                DownloadEvent::IndexRead { title, chapters },
            );
            let output = match out {
                Some(o) => o,
                None => "./"@ + title@ + ".md"@,
            };
            let last: int = match to {
                Some(m) => m as int,
                None => chapters as int,
            };
            &&& (decision is TooFewChapters) <==> (to matches Some(m) && m > chapters)
            &&& decision is TooFewChapters ==> decision == Decision::TooFewChapters(chapters)
                && state == DownloadState::Finished
            &&& (last <= chapters && from <= last) ==> state == DownloadState::Chapter {
                position: from,
                last: last as usize,
            } && decision == Decision::Begin { output, first: Some(from) }
            &&& (last <= chapters && from > last) ==> state == DownloadState::Finished
                && decision == Decision::Begin { output, first: None }
        }),
{
    reveal_strlit("./");
    reveal_strlit("/");
    reveal_strlit(".");
    assert("."@ + "/"@ =~= "./"@);
    assert(markdown_file("."@, title@) =~= "./"@ + title@ + ".md"@);
}

/// Law: what the other events lead to. A failed index is fetched again when
/// the failure was transient and ends the download with that error
/// otherwise; a dry run stops at the index; a chapter that cannot be read
/// ends the download with its error; a chapter that cannot be downloaded is
/// passed over just as a written one is followed by the next.
pub proof fn lemma_download_events(
    from: usize,
    to: Option<usize>,
    dry: bool,
    out: Option<Seq<char>>,
    error: NovelError,
    title: String,
    chapters: usize,
    position: usize,
    last: usize,
)
    ensures
        download_spec(from, to, dry, out, DownloadState::Index, DownloadEvent::IndexFailed(error))
            == if error is Transient {
            (DownloadState::Index, Decision::RetryIndex)
        } else {
            (DownloadState::Finished, Decision::Fail(error))
        },
        download_spec(
            from,
            to,
            true,
            out,
            DownloadState::Index,
            DownloadEvent::IndexRead { title, chapters },
        ) == (DownloadState::Finished, Decision::ShowIndex),
        download_spec(
            from,
            to,
            dry,
            out,
            DownloadState::Chapter { position, last },
            DownloadEvent::ChapterUnreadable(error),
        ) == (DownloadState::Finished, Decision::Fail(error)),
        download_spec(
            from,
            to,
            dry,
            out,
            DownloadState::Chapter { position, last },
            DownloadEvent::ChapterNotDownloaded,
        ) == download_spec(
            from,
            to,
            dry,
            out,
            DownloadState::Chapter { position, last },
            DownloadEvent::ChapterWritten,
        ),
        download_spec(
            from,
            to,
            dry,
            out,
            DownloadState::Chapter { position, last },
            DownloadEvent::ChapterWritten,
        ) == if position < last {
            (
                DownloadState::Chapter { position: (position + 1) as usize, last },
                Decision::Fetch((position + 1) as usize),
            )
        } else {
            (DownloadState::Finished, Decision::Finish)
        },
{
}

/// Law: a chapter's number is written in decimal digits that read back as
/// the number itself.
pub proof fn lemma_decimal_reads_back(n: nat)
    ensures
        digits_value(decimal(n)) == n,
        decimal(n).len() > 0,
        forall|i: int| 0 <= i < decimal(n).len() ==> is_digit(#[trigger] decimal(n)[i]),
    decreases n,
{
    let d = decimal(n);
    if n >= 10 {
        lemma_decimal_reads_back(n / 10);
        assert(d.drop_last() =~= decimal(n / 10));
        assert(d.last() == crate::novel::digit_char(n % 10));
        assert((d.last() as nat) == 48 + n % 10);
        assert(10 * (n / 10) + n % 10 == n) by (nonlinear_arith);
        assert(digits_value(d) == 10 * digits_value(d.drop_last()) + ((d.last() as nat) - 48) as nat);
        assert forall|i: int| 0 <= i < d.len() implies is_digit(#[trigger] d[i]) by {
            if i < d.len() - 1 {
                assert(d[i] == decimal(n / 10)[i]);
            }
        }
    } else {
        assert(d.drop_last() =~= Seq::<char>::empty());
        assert(digits_value(Seq::<char>::empty()) == 0);
        assert(d.last() == crate::novel::digit_char(n));
        assert((d.last() as nat) == 48 + n);
        assert(digits_value(d) == 10 * digits_value(d.drop_last()) + ((d.last() as nat) - 48) as nat);
        assert(is_digit(d[0]));
    }
}

/// Law: the Markdown of a line is written the same whether or not a part
/// divider came before, except for the divider itself: a paragraph is its
/// text and a blank line, a line break is `<br/>` and a blank line, an
/// image is `![alt](url)` and a blank line; a divider writes nothing the
/// first time and a divider after that.
pub proof fn lemma_line_markdown(line: LineView, parted: bool)
    ensures
        !(line is ChapterDiv) ==> line_markdown(line, parted) == line_markdown(line, !parted),
        line matches LineView::Paragraph(t) ==> line_markdown(line, parted) == t + "\n\n"@,
        line is Break ==> line_markdown(line, parted) == "<br/>\n\n"@,
        line matches LineView::Img(url, alt) ==> line_markdown(line, parted) == "!["@ + alt + "]("@
            + url + ")\n\n"@,
        line is ChapterDiv ==> (line_markdown(line, false) == Seq::<char>::empty()
            && line_markdown(line, true) == "\n<div class=\"ch_div\">-------</div>\n\n"@),
{
}

/// Decides what a download does after `event`: see [`download_spec`].
pub fn download_step(plan: &DownloadPlan, state: DownloadState, event: DownloadEvent) -> (r: (
    DownloadState,
    DownloadAction,
))
    ensures
        (r.0, decision_of(r.1)) == download_spec(
            plan.from,
            plan.to,
            plan.dry,
            match plan.out {
                Some(o) => Some(o@),
                None => None,
            },
            state,
            event,
        ),
{
    match (state, event) {
        (DownloadState::Index, DownloadEvent::IndexFailed(e)) => if retry_fetch(&e) {
            (DownloadState::Index, DownloadAction::RetryIndex)
        } else {
            (DownloadState::Finished, DownloadAction::Fail(e))
        },
        (DownloadState::Index, DownloadEvent::IndexRead { title, chapters }) => {
            if plan.dry {
                return (DownloadState::Finished, DownloadAction::ShowIndex);
            }
            match last_chapter(plan.to, chapters) {
                None => (DownloadState::Finished, DownloadAction::TooFewChapters(chapters)),
                Some(until) => {
                    let output = match &plan.out {
                        Some(o) => o.as_str().to_owned(),
                        None => construct_file_path(".", title.as_str()),
                    };
                    let (skip, take) = chapter_window(plan.from, until);
                    let end = if skip >= chapters || take > chapters - skip {
                        chapters
                    } else {
                        skip + take
                    };
                    if skip < end {
                        (
                            DownloadState::Chapter { position: skip + 1, last: end },
                            DownloadAction::Begin { output, first: Some(skip + 1) },
                        )
                    } else {
                        (DownloadState::Finished, DownloadAction::Begin { output, first: None })
                    }
                },
            }
        },
        (DownloadState::Chapter { position, last }, DownloadEvent::ChapterUnreadable(e)) => (
            DownloadState::Finished,
            DownloadAction::Fail(e),
        ),
        (DownloadState::Chapter { position, last }, DownloadEvent::ChapterNotDownloaded)
        | (DownloadState::Chapter { position, last }, DownloadEvent::ChapterWritten) => if position
            < last {
            (
                DownloadState::Chapter { position: position + 1, last },
                DownloadAction::Fetch(position + 1),
            )
        } else {
            (DownloadState::Finished, DownloadAction::Finish)
        },
        (s, _) => (s, DownloadAction::Nothing),
    }
}

/// Whether fetching the novel's index is tried again after `error`: only
/// after transient failures.
pub fn retry_fetch(error: &NovelError) -> (r: bool)
    ensures
        r == (error is Transient),
{
    match error {
        NovelError::Transient(_) => true,
        _ => false,
    }
}

/// The last chapter to fetch: `to` when the novel has that many chapters,
/// all of them without `to`; `None` when `to` is beyond the last chapter.
pub fn last_chapter(to: Option<usize>, count: usize) -> (r: Option<usize>)
    ensures
        match to {
            Some(max) => if max > count {
                r is None
            } else {
                r == Some(max)
            },
            None => r == Some(count),
        },
{
    match to {
        Some(max) => if max > count {
            None
        } else {
            Some(max)
        },
        None => Some(count),
    }
}

/// How many chapters to pass over and how many to fetch after them, for
/// chapters `from..=until` counted from one: none are fetched when `until`
/// comes before `from`.
pub open spec fn window(from: usize, until: usize) -> (usize, usize) {
    let skip: int = if from >= 1 {
        from - 1
    } else {
        0
    };
    let take: int = if until < from {
        0
    } else if until - from + 1 > usize::MAX {
        usize::MAX as int
    } else {
        until - from + 1
    };
    (skip as usize, take as usize)
}

/// How many chapters to pass over and how many to fetch after them.
pub fn chapter_window(from: usize, until: usize) -> (r: (usize, usize))
    ensures
        r == window(from, until),
{
    let take = if until < from {
        0
    } else {
        (until - from).saturating_add(1)
    };
    (from.saturating_sub(1), take)
}

/// Law: for chapters counted from one, the window fetches exactly the
/// chapters `from..=until`: the chapter at position `i` (from zero) is
/// fetched exactly when `from <= i + 1 <= until`, and none when `until`
/// comes before `from`.
pub proof fn lemma_window_selects_range(from: usize, until: usize, i: int)
    requires
        1 <= from,
        0 <= i,
    ensures
        (window(from, until).0 <= i < window(from, until).0 + window(from, until).1) <==> (from
            <= i + 1 <= until),
{
}

/// The decimal digits `0` to `9`.
fn digit_str(d: usize) -> (r: &'static str)
    requires
        d < 10,
    ensures
        r@ == seq![crate::novel::digit_char(d as nat)],
{
    let digits = "0123456789";
    proof {
        reveal_strlit("0123456789");
    }
    let r = digits.substring_char(d, d + 1);
    proof {
        assert(r@.len() == 1);
        assert(r@[0] == digits@[d as int]);
    }
    r
}

/// The decimal representation of `n`.
pub fn decimal_string(n: usize) -> (r: String)
    ensures
        r@ == decimal(n as nat),
    decreases n,
{
    if n < 10 {
        let mut s = String::new();
        s.append(digit_str(n));
        s
    } else {
        let mut s = decimal_string(n / 10);
        s.append(digit_str(n % 10));
        s
    }
}

/// The heading of the output file: the novel's title, underlined, and
/// where the novel is found.
pub open spec fn novel_header(title: Seq<char>, original_url: Seq<char>) -> Seq<char> {
    title + "\n===================\n"@ + "Original: "@ + original_url + "\n\n"@
}

/// Writes the heading of the output file.
pub fn write_novel_header(out: &mut String, title: &str, original_url: &str)
    ensures
        final(out)@ == old(out)@ + novel_header(title@, original_url@),
{
    out.append(title);
    out.append("\n===================\n");
    out.append("Original: ");
    out.append(original_url);
    out.append("\n\n");
}

/// The heading of a chapter: its number and its title, underlined.
pub open spec fn chapter_header(number: nat, title: Seq<char>) -> Seq<char> {
    "\n"@ + decimal(number) + " "@ + title + "\n-------------------\n"@
}

/// The Markdown of a line. The first part divider of a chapter writes
/// nothing; each later one writes a divider.
pub open spec fn line_markdown(line: LineView, parted: bool) -> Seq<char> {
    match line {
        LineView::Break => "<br/>\n\n"@,
        LineView::Paragraph(text) => text + "\n\n"@,
        LineView::Img(url, alt) => "!["@ + alt + "]("@ + url + ")\n\n"@,
        LineView::ChapterDiv => if parted {
            "\n<div class=\"ch_div\">-------</div>\n\n"@
        } else {
            Seq::empty()
        },
    }
}

/// Writes one chapter as Markdown, line by line.
pub struct ChapterWriter {
    parted: bool,
}

impl ChapterWriter {
    /// Whether a part divider has come already.
    pub closed spec fn spec_parted(&self) -> bool {
        self.parted
    }

    /// Starts a chapter: writes its heading.
    pub fn start(out: &mut String, number: usize, title: &str) -> (r: Self)
        ensures
            final(out)@ == old(out)@ + chapter_header(number as nat, title@),
            !r.spec_parted(),
    {
        out.append("\n");
        let digits = decimal_string(number);
        out.append(digits.as_str());
        out.append(" ");
        out.append(title);
        out.append("\n-------------------\n");
        Self { parted: false }
    }

    /// Writes a line; an image's URL is written as the line holds it.
    pub fn write_line(&mut self, out: &mut String, line: &Line)
        ensures
            final(out)@ == old(out)@ + line_markdown(line@, old(self).spec_parted()),
            final(self).spec_parted() == (old(self).spec_parted() || line@ is ChapterDiv),
    {
        match line {
            Line::Break => out.append("<br/>\n\n"),
            Line::Paragraph(text) => {
                out.append(text.as_str());
                out.append("\n\n");
            },
            Line::Img(url, alt) => {
                out.append("![");
                out.append(alt.as_str());
                out.append("](");
                out.append(url.as_str());
                out.append(")\n\n");
            },
            Line::ChapterDiv => if self.parted {
                out.append("\n<div class=\"ch_div\">-------</div>\n\n");
            } else {
                self.parted = true;
                assert(old(out)@ + Seq::<char>::empty() =~= old(out)@);
            },
        }
    }
}

/// The command that turns the output file into an EPUB with pandoc.
pub open spec fn pandoc_command(title: Seq<char>, file_name: Seq<char>) -> Seq<char> {
    "Pandoc command to generate EPUB:\npandoc --metadata title=\""@ + title
        + "\" --embed-resources --standalone --shift-heading-level-by=-1 --from=gfm -o \""@
        + file_name + ".epub\" \""@ + file_name + ".md\""@
}

/// The command that turns the output file into an EPUB with pandoc.
pub fn pandoc_hint(title: &str, file_name: &str) -> (r: String)
    ensures
        r@ == pandoc_command(title@, file_name@),
{
    let mut r = String::from_str("Pandoc command to generate EPUB:\npandoc --metadata title=\"");
    r.append(title);
    r.append("\" --embed-resources --standalone --shift-heading-level-by=-1 --from=gfm -o \"");
    r.append(file_name);
    r.append(".epub\" \"");
    r.append(file_name);
    r.append(".md\"");
    r
}

} // verus!
