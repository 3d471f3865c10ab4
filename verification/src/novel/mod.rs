//! Novel identifiers, chapters, titles and the lines of a chapter.
use core::fmt::Write;
use vstd::prelude::*;
use vstd::string::*;
use vstd::utf8::*;

use crate::http::{http_message, HttpError};
use crate::utils::{
    last_index, lemma_last_index_props, rsplit_pieces, str_ends_with, str_starts_with_char,
    str_strip_suffix, StrExt,
};

pub mod html;
pub mod kakuyomu;
pub mod syosetu;

verus! {

#[verifier::external_type_specification]
#[verifier::external_body]
pub struct ExJsonError(serde_json::Error);

#[verifier::external_type_specification]
#[verifier::external_body]
pub struct ExStrBuf<const N: usize>(str_buf::StrBuf<N>);

/// Why a novel or one of its chapters could not be had.
#[derive(Debug)]
pub enum NovelError {
    /// The novel's index page holds no index.
    MissingIndex,
    /// The novel's page holds no title.
    MissingTitle,
    /// The novel's page holds no chapter list.
    MissingChapters,
    /// The kakuyomu chapter list could not be decoded.
    InvalidKakuyomuChapters(serde_json::Error),
    /// A request failed, possibly only for now.
    Transient(HttpError),
    /// A response could not be decoded.
    Internal(HttpError),
    /// There is no such novel.
    NotFound,
    /// A chapter page lacks what a chapter holds.
    InvalidChapterContent(String),
}

/// The error that a failed request becomes.
pub open spec fn novel_error_from_http(error: HttpError) -> NovelError {
    match error {
        HttpError::Internal(_) => NovelError::Internal(error),
        _ => NovelError::Transient(error),
    }
}

impl NovelError {
    /// A request failure: undecodable responses are internal errors, all
    /// others transient.
    pub fn from_http(error: HttpError) -> (r: Self)
        ensures
            r == novel_error_from_http(error),
    {
        match &error {
            HttpError::Internal(_) => Self::Internal(error),
            _ => Self::Transient(error),
        }
    }

    /// A chapter page that lacks what a chapter holds.
    pub fn invalid_chapter_content(error: String) -> (r: Self)
        ensures
            r == NovelError::InvalidChapterContent(error),
    {
        Self::InvalidChapterContent(error)
    }

    /// The message that describes the error to a user.
    pub fn message(&self) -> (r: String)
        ensures
            novel_message(*self, r@),
    {
        proof {
            reveal_strlit("Failed to parse APOLLO_STATE: ");
            reveal_strlit("Unable to make request: ");
            reveal_strlit("Internal error: ");
        }
        match self {
            NovelError::MissingIndex => String::from_str("Unable to find novel's index"),
            NovelError::MissingTitle => String::from_str("Unable to find novel's title"),
            NovelError::MissingChapters => String::from_str("Unable to find novel's chapter"),
            NovelError::InvalidKakuyomuChapters(error) => {
                let mut text = String::from_str("Failed to parse APOLLO_STATE: ");
                text.append(json_error_text(error).as_str());
                text
            },
            NovelError::Transient(error) => {
                let mut text = String::from_str("Unable to make request: ");
                let inner = error.message();
                text.append(inner.as_str());
                proof {
                    assert(text@.skip("Unable to make request: "@.len() as int) =~= inner@);
                }
                text
            },
            NovelError::Internal(error) => {
                let mut text = String::from_str("Internal error: ");
                let inner = error.message();
                text.append(inner.as_str());
                proof {
                    assert(text@.skip("Internal error: "@.len() as int) =~= inner@);
                }
                text
            },
            NovelError::NotFound => String::from_str("No such novel found"),
            NovelError::InvalidChapterContent(error) => {
                let mut text = String::from_str("Unable to parse chapter body: ");
                text.append(error.as_str());
                text
            },
        }
    }
}

/// The text that `serde_json::Error`'s `Display` gives: its message and,
/// where it has one, the line and column it was found at.
pub uninterp spec fn json_error_message(error: serde_json::Error) -> Seq<char>;

/// The text that `serde_json::Error`'s `Display` gives, through `format!`.
#[verifier::external_body]
fn json_error_text(error: &serde_json::Error) -> (r: String)
    ensures
        r@ == json_error_message(*error),
{
    format!("{}", error)
}

/// What the message of an error says: the fixed sentence of each error, the
/// reason of an unreadable chapter, the JSON error's own text, and for
/// failed requests a prefix before the underlying message.
pub open spec fn novel_message(error: NovelError, text: Seq<char>) -> bool {
    match error {
        NovelError::MissingIndex => text == "Unable to find novel's index"@,
        NovelError::MissingTitle => text == "Unable to find novel's title"@,
        NovelError::MissingChapters => text == "Unable to find novel's chapter"@,
        NovelError::InvalidKakuyomuChapters(e) => text == "Failed to parse APOLLO_STATE: "@
            + json_error_message(e),
        NovelError::Transient(e) => "Unable to make request: "@.is_prefix_of(text) && http_message(
            e,
            text.skip("Unable to make request: "@.len() as int),
        ),
        NovelError::Internal(e) => "Internal error: "@.is_prefix_of(text) && http_message(
            e,
            text.skip("Internal error: "@.len() as int),
        ),
        NovelError::NotFound => text == "No such novel found"@,
        NovelError::InvalidChapterContent(reason) => text == "Unable to parse chapter body: "@ + reason@,
    }
}

/// Buffer for a novel or chapter id: `str_buf::capacity(20)` bytes of
/// storage, which hold up to 20 bytes of text.
pub type IdBuffer = str_buf::StrBuf<21>;

/// The most bytes an id holds.
pub const ID_CAPACITY: usize = 20;

/// The text that an id buffer holds.
pub uninterp spec fn id_buffer_text(buffer: str_buf::StrBuf<21>) -> Seq<char>;

/// The number of bytes that `s` takes in UTF-8.
pub open spec fn utf8_len(s: Seq<char>) -> nat {
    encode_utf8(s).len()
}

/// Copies `text` into a buffer through `StrBuf::from_str_checked`, which
/// refuses text of more than 20 bytes and otherwise holds exactly `text`.
#[verifier::external_body]
fn id_buffer_from_str(text: &str) -> (r: Option<IdBuffer>)
    ensures
        r is Some <==> text.spec_bytes().len() <= ID_CAPACITY,
        r matches Some(b) ==> id_buffer_text(b) == text@,
{
    IdBuffer::from_str_checked(text).ok()
}

/// The text of a buffer, through `StrBuf::as_str`.
#[verifier::external_body]
fn id_buffer_as_str(buffer: &IdBuffer) -> (r: &str)
    ensures
        r@ == id_buffer_text(*buffer),
{
    buffer.as_str()
}

/// An empty buffer, through `StrBuf::new`.
#[verifier::external_body]
fn id_buffer_new() -> (r: IdBuffer)
    ensures
        id_buffer_text(r) == Seq::<char>::empty(),
{
    IdBuffer::new()
}

/// The decimal digit `d`.
pub open spec fn digit_char(d: nat) -> char {
    (48 + d) as char
}

/// The decimal representation of `n`, as `Display` writes integers.
pub open spec fn decimal(n: nat) -> Seq<char>
    decreases n,
{
    if n < 10 {
        seq![digit_char(n)]
    } else {
        decimal(n / 10) + seq![digit_char(n % 10)]
    }
}

/// Appends the decimal representation of `n` through `core::fmt::Write` on
/// `StrBuf`, which appends the whole text when it fits; it fits because a
/// `u32` has at most 10 digits and the buffer holds at most 10 bytes before.
#[verifier::external_body]
fn id_buffer_write_u32(buffer: &mut IdBuffer, n: u32)
    requires
        utf8_len(id_buffer_text(*old(buffer))) + 10 <= ID_CAPACITY,
    ensures
        id_buffer_text(*final(buffer)) == id_buffer_text(*old(buffer)) + decimal(n as nat),
{
    let _ = write!(buffer, "{}", n);
}

/// The sites that novels come from.
#[derive(Debug, Copy, Clone, PartialEq, Eq, Structural)]
pub enum BackendKind {
    ///https://kakuyomu.jp/works/<id>
    Kakuyomu,
    //Syosetu uses range from `N0000A` to `N9999Z`
    ///https://ncode.syosetu.com/<id>
    Syosetu,
    ///https://novel18.syosetu.com/<id>
    R18Syosetu,
}

impl BackendKind {
    ///Returns whether kind belongs kakuyomu
    pub fn is_kakuyomu(&self) -> (r: bool)
        ensures
            r == (*self == BackendKind::Kakuyomu),
    {
        matches!(self, Self::Kakuyomu)
    }

    ///Returns whether kind belongs to either of syosetu novels
    pub fn is_syosetu(&self) -> (r: bool)
        ensures
            r == (*self == BackendKind::Syosetu || *self == BackendKind::R18Syosetu),
    {
        matches!(self, Self::Syosetu | Self::R18Syosetu)
    }

    ///Returns whether it is syosetu r18 novel
    pub fn is_syosetu_r18(&self) -> (r: bool)
        ensures
            r == (*self == BackendKind::R18Syosetu),
    {
        matches!(self, Self::R18Syosetu)
    }
}

/// The site that a URL prefix (what comes before the last `/`) names.
pub open spec fn kind_of_prefix(prefix: Seq<char>) -> Option<BackendKind> {
    if "ncode.syosetu.com"@.is_suffix_of(prefix) {
        Some(BackendKind::Syosetu)
    } else if "novel18.syosetu.com"@.is_suffix_of(prefix) {
        Some(BackendKind::R18Syosetu)
    } else if "kakuyomu.jp/works"@.is_suffix_of(prefix) {
        Some(BackendKind::Kakuyomu)
    } else {
        None
    }
}

/// `s` without one trailing `/`.
pub open spec fn strip_one_slash(s: Seq<char>) -> Seq<char> {
    if s.len() > 0 && s.last() == '/' {
        s.drop_last()
    } else {
        s
    }
}

/// What `Id::try_parse` recognises in `input`: the site and the id.
pub open spec fn parse_id(input: Seq<char>) -> Option<(BackendKind, Seq<char>)> {
    let s = strip_one_slash(input);
    let pieces = rsplit_pieces(s, '/', 2);
    let found: Option<(BackendKind, Seq<char>)> = if pieces.len() == 2 {
        match kind_of_prefix(pieces[1]) {
            Some(kind) => Some((kind, pieces[0])),
            None => None,
        }
    } else if s.len() > 0 && s[0] == 'n' {
        Some((BackendKind::Syosetu, s))
    } else {
        Some((BackendKind::Kakuyomu, s))
    };
    match found {
        Some((kind, id)) => if utf8_len(id) <= ID_CAPACITY {
            Some((kind, id))
        } else {
            None
        },
        None => None,
    }
}

/// Where the index of a novel is fetched from.
pub open spec fn index_url(kind: BackendKind, id: Seq<char>) -> Seq<char> {
    match kind {
        BackendKind::Syosetu => "https://api.syosetu.com/novelapi/api/?out=json&ncode="@ + id,
        BackendKind::R18Syosetu => "https://api.syosetu.com/novel18api/api/?out=json&ncode="@ + id,
        BackendKind::Kakuyomu => "https://kakuyomu.jp/works/"@ + id,
    }
}

/// Where a reader finds a novel.
pub open spec fn original_url(kind: BackendKind, id: Seq<char>) -> Seq<char> {
    match kind {
        BackendKind::Syosetu => "https://ncode.syosetu.com/"@ + id,
        BackendKind::R18Syosetu => "https://novel18.syosetu.com/"@ + id,
        BackendKind::Kakuyomu => "https://kakuyomu.jp/works/"@ + id,
    }
}

/// Where a chapter of a novel is fetched from.
pub open spec fn chapter_url(kind: BackendKind, novel: Seq<char>, chapter: Seq<char>) -> Seq<
    char,
> {
    match kind {
        BackendKind::Syosetu => "https://ncode.syosetu.com/"@ + novel + "/"@ + chapter,
        BackendKind::R18Syosetu => "https://novel18.syosetu.com/"@ + novel + "/"@ + chapter,
        BackendKind::Kakuyomu => "https://kakuyomu.jp/works/"@ + novel + "/episodes/"@ + chapter,
    }
}

/// Whether `s` holds no `/`.
pub open spec fn no_slash(s: Seq<char>) -> bool {
    forall|i: int| 0 <= i < s.len() ==> s[i] != '/'
}

/// Law: an id that `Id::try_parse` recognises holds no `/`.
pub proof fn lemma_parsed_id_has_no_slash(input: Seq<char>)
    ensures
        parse_id(input) matches Some((kind, id)) ==> no_slash(id),
{
    let s = strip_one_slash(input);
    lemma_last_index_props(s, '/');
    if let Some(i) = last_index(s, '/') {
        let id = s.skip(i + 1);
        assert(rsplit_pieces(s.take(i), '/', 1) == seq![s.take(i)]);
        assert(rsplit_pieces(s, '/', 2) =~= seq![id, s.take(i)]);
        assert forall|j: int| 0 <= j < id.len() implies id[j] != '/' by {
            assert(id[j] == s[i + 1 + j]);
        }
    } else {
        assert(rsplit_pieces(s, '/', 2) =~= seq![s]);
    }
}

/// The prefix of an original URL up to the last `/`, and the site it names.
proof fn lemma_original_prefix(kind: BackendKind)
    ensures
        kind_of_prefix(original_url(kind, seq![]).drop_last()) == Some(kind),
        original_url(kind, seq![]).len() > 0,
        original_url(kind, seq![]).last() == '/',
{
    reveal_strlit("https://ncode.syosetu.com/");
    reveal_strlit("https://novel18.syosetu.com/");
    reveal_strlit("https://kakuyomu.jp/works/");
    reveal_strlit("ncode.syosetu.com");
    reveal_strlit("novel18.syosetu.com");
    reveal_strlit("kakuyomu.jp/works");
    let ncode = "ncode.syosetu.com"@;
    let novel18 = "novel18.syosetu.com"@;
    let works = "kakuyomu.jp/works"@;
    let base = original_url(kind, seq![]);
    assert(base =~= match kind {
        BackendKind::Syosetu => "https://ncode.syosetu.com/"@,
        BackendKind::R18Syosetu => "https://novel18.syosetu.com/"@,
        BackendKind::Kakuyomu => "https://kakuyomu.jp/works/"@,
    });
    let p = base.drop_last();
    match kind {
        BackendKind::Syosetu => {
            assert(ncode =~= p.subrange(p.len() - ncode.len(), p.len() as int));
        },
        BackendKind::R18Syosetu => {
            assert(p.subrange(p.len() - ncode.len(), p.len() as int)[0] != ncode[0]);
            assert(novel18 =~= p.subrange(p.len() - novel18.len(), p.len() as int));
        },
        BackendKind::Kakuyomu => {
            assert(p.subrange(p.len() - ncode.len(), p.len() as int)[0] != ncode[0]);
            assert(p.subrange(p.len() - novel18.len(), p.len() as int)[0] != novel18[0]);
            assert(works =~= p.subrange(p.len() - works.len(), p.len() as int));
        },
    }
}

/// Law: the original URL of a novel is recognised as that novel, for any
/// id that `Id::try_parse` can give except the empty one.
pub proof fn lemma_original_url_round_trip(kind: BackendKind, id: Seq<char>)
    requires
        id.len() > 0,
        no_slash(id),
        utf8_len(id) <= ID_CAPACITY,
    ensures
        parse_id(original_url(kind, id)) == Some((kind, id)),
{
    lemma_original_prefix(kind);
    let base = original_url(kind, seq![]);
    let u = original_url(kind, id);
    assert(u =~= base + id);
    let k = base.len() - 1;
    assert(u.last() == id.last());
    assert(strip_one_slash(u) == u);
    assert(u[k] == '/');
    assert forall|j: int| k < j < u.len() implies u[j] != '/' by {
        assert(u[j] == id[j - base.len()]);
    }
    crate::utils::lemma_last_index_at_pub(u, '/', k);
    assert(u.skip(k + 1) =~= id);
    assert(u.take(k) =~= base.drop_last());
    assert(rsplit_pieces(u.take(k), '/', 1) == seq![u.take(k)]);
    let pieces = rsplit_pieces(u, '/', 2);
    assert(pieces =~= seq![id, base.drop_last()]);
}

///Novel ID
#[derive(Debug, Clone, Copy)]
pub struct Id {
    kind: BackendKind,
    id: IdBuffer,
}

impl Id {
    #[verifier::type_invariant]
    spec fn fits(self) -> bool {
        &&& utf8_len(id_buffer_text(self.id)) <= ID_CAPACITY
        &&& no_slash(id_buffer_text(self.id))
    }

    /// The site of the novel.
    pub closed spec fn spec_kind(&self) -> BackendKind {
        self.kind
    }

    /// The id of the novel on its site.
    pub closed spec fn spec_text(&self) -> Seq<char> {
        id_buffer_text(self.id)
    }

    ///Attempts to infer id from the string input
    pub fn try_parse(input: &str) -> (r: Option<Self>)
        ensures
            r is None <==> parse_id(input@) is None,
            r matches Some(id) ==> parse_id(input@) == Some((id.spec_kind(), id.spec_text())),
    {
        let mut s = input;
        if let Some(stripped) = str_strip_suffix(input, "/") {
            s = stripped;
        }
        proof {
            reveal_strlit("/");
            assert("/"@.len() == 1 && "/"@[0] == '/');
            if input@.len() > 0 && input@.last() == '/' {
                assert("/"@ =~= input@.subrange(input@.len() - 1, input@.len() as int));
                assert(input@.take(input@.len() - 1) =~= input@.drop_last());
            } else if "/"@.is_suffix_of(input@) {
                assert(input@.subrange(input@.len() - 1, input@.len() as int)[0] == input@.last());
            }
            assert(s@ == strip_one_slash(input@));
        }
        let (kind, text) = match s.rsplit_exact_by::<2>('/') {
            Some(parts) => {
                let id = parts[0];
                let prefix = parts[1];
                let kind = if str_ends_with(prefix, "ncode.syosetu.com") {
                    BackendKind::Syosetu
                } else if str_ends_with(prefix, "novel18.syosetu.com") {
                    BackendKind::R18Syosetu
                } else if str_ends_with(prefix, "kakuyomu.jp/works") {
                    BackendKind::Kakuyomu
                } else {
                    return None;
                };
                (kind, id)
            },
            None => {
                let kind = if str_starts_with_char(s, 'n') {
                    BackendKind::Syosetu
                } else {
                    BackendKind::Kakuyomu
                };
                (kind, s)
            },
        };
        proof {
            lemma_parsed_id_has_no_slash(input@);
        }
        match id_buffer_from_str(text) {
            Some(id) => Some(Self { kind, id }),
            None => None,
        }
    }

    /// The site of the novel.
    pub fn kind(&self) -> (r: BackendKind)
        ensures
            r == self.spec_kind(),
    {
        self.kind
    }

    /// The id of the novel on its site.
    pub fn id(&self) -> (r: &str)
        ensures
            r@ == self.spec_text(),
            utf8_len(r@) <= ID_CAPACITY,
            no_slash(r@),
    {
        proof {
            use_type_invariant(self);
        }
        id_buffer_as_str(&self.id)
    }

    /// The URL of the novel's index.
    pub fn url(&self) -> (r: Url<'_>)
        ensures
            r.spec_id() == *self,
    {
        Url(self)
    }

    /// Where a reader finds the novel.
    pub fn original_url(&self) -> (r: String)
        ensures
            r@ == original_url(self.spec_kind(), self.spec_text()),
    {
        let mut out = String::new();
        match self.kind {
            BackendKind::Syosetu => out.append("https://ncode.syosetu.com/"),
            BackendKind::R18Syosetu => out.append("https://novel18.syosetu.com/"),
            BackendKind::Kakuyomu => out.append("https://kakuyomu.jp/works/"),
        }
        out.append(self.id());
        out
    }

    /// The same novel looked up on the other syosetu site.
    pub fn other_syosetu(&self) -> (r: Self)
        requires
            self.spec_kind() != BackendKind::Kakuyomu,
        ensures
            r.spec_text() == self.spec_text(),
            r.spec_kind() == (if self.spec_kind() == BackendKind::Syosetu {
                BackendKind::R18Syosetu
            } else {
                BackendKind::Syosetu
            }),
    {
        proof {
            use_type_invariant(self);
        }
        let kind = match self.kind {
            BackendKind::Syosetu => BackendKind::R18Syosetu,
            _ => BackendKind::Syosetu,
        };
        Self { kind, id: self.id }
    }
}

impl core::str::FromStr for Id {
    type Err = ();

    /// Recognises a novel as `Id::try_parse` does.
    fn from_str(id: &str) -> (r: Result<Self, Self::Err>)
        ensures
            r is Err <==> parse_id(id@) is None,
            r matches Ok(parsed) ==> parse_id(id@) == Some((parsed.spec_kind(), parsed.spec_text())),
    {
        match Self::try_parse(id) {
            Some(id) => Ok(id),
            None => Err(()),
        }
    }
}

/// The URL of a novel's index.
#[derive(Clone, Copy)]
pub struct Url<'a>(&'a Id);

impl<'a> Url<'a> {
    /// The novel whose URL this is.
    pub closed spec fn spec_id(&self) -> Id {
        *self.0
    }

    /// Appends the URL to `out`.
    pub fn write_to(&self, out: &mut String)
        ensures
            final(out)@ == old(out)@ + index_url(self.spec_id().spec_kind(), self.spec_id().spec_text()),
    {
        match self.0.kind {
            BackendKind::Syosetu => out.append("https://api.syosetu.com/novelapi/api/?out=json&ncode="),
            BackendKind::R18Syosetu => out.append("https://api.syosetu.com/novel18api/api/?out=json&ncode="),
            BackendKind::Kakuyomu => out.append("https://kakuyomu.jp/works/"),
        }
        out.append(self.0.id());
    }

    /// The URL as text.
    pub fn to_string(&self) -> (r: String)
        ensures
            r@ == index_url(self.spec_id().spec_kind(), self.spec_id().spec_text()),
    {
        let mut out = String::new();
        self.write_to(&mut out);
        out
    }
}

/// A novel's title and, when known, its author.
pub struct Title<'a> {
    pub name: &'a str,
    pub author: Option<&'a str>,
}

/// A chapter of a novel.
#[derive(Debug)]
pub struct Chapter {
    id: IdBuffer,
}

impl Chapter {
    #[verifier::type_invariant]
    spec fn fits(self) -> bool {
        utf8_len(id_buffer_text(self.id)) <= ID_CAPACITY
    }

    /// The chapter's id.
    pub closed spec fn spec_text(&self) -> Seq<char> {
        id_buffer_text(self.id)
    }

    /// The chapter with the given id, when the id fits.
    pub fn from_id(text: &str) -> (r: Option<Self>)
        ensures
            r is Some <==> utf8_len(text@) <= ID_CAPACITY,
            r matches Some(c) ==> c.spec_text() == text@,
    {
        match id_buffer_from_str(text) {
            Some(id) => Some(Self { id }),
            None => None,
        }
    }

    /// The chapter whose id is the decimal representation of `n`.
    pub fn from_number(n: u32) -> (r: Self)
        ensures
            r.spec_text() == decimal(n as nat),
    {
        let mut id = id_buffer_new();
        proof {
            assert(encode_utf8(Seq::<char>::empty()) =~= Seq::<u8>::empty());
        }
        id_buffer_write_u32(&mut id, n);
        proof {
            assert(Seq::<char>::empty() + decimal(n as nat) =~= decimal(n as nat));
            lemma_decimal_fits(n as nat);
        }
        Self { id }
    }

    /// The chapter's id.
    pub fn id(&self) -> (r: &str)
        ensures
            r@ == self.spec_text(),
    {
        id_buffer_as_str(&self.id)
    }

    ///Generates URL to fetch chapter
    pub fn preapre_url(&self, id: &Id, out: &mut String)
        ensures
            final(out)@ == old(out)@ + chapter_url(id.spec_kind(), id.spec_text(), self.spec_text()),
    {
        let novel_id = id.id();
        let chapter_id = self.id();
        match id.kind() {
            BackendKind::Syosetu => {
                out.append("https://ncode.syosetu.com/");
                out.append(novel_id);
                out.append("/");
                out.append(chapter_id);
            },
            BackendKind::R18Syosetu => {
                out.append("https://novel18.syosetu.com/");
                out.append(novel_id);
                out.append("/");
                out.append(chapter_id);
            },
            BackendKind::Kakuyomu => {
                out.append("https://kakuyomu.jp/works/");
                out.append(novel_id);
                out.append("/episodes/");
                out.append(chapter_id);
            },
        }
    }
}

/// The decimal digits of a number are ASCII, one byte each, and a `u32` has
/// at most ten of them.
proof fn lemma_decimal_fits(n: nat)
    requires
        n <= u32::MAX,
    ensures
        utf8_len(decimal(n)) <= ID_CAPACITY,
{
    assert(u32::MAX < pow10(10)) by {
        reveal_with_fuel(pow10, 11);
    }
    lemma_decimal_ascii(n, 10);
    is_ascii_chars_encode_utf8(decimal(n));
}

/// Ten to the power `k`.
pub open spec fn pow10(k: nat) -> nat
    decreases k,
{
    if k == 0 {
        1
    } else {
        10 * pow10((k - 1) as nat)
    }
}

/// The decimal representation of a number below `10^k` is ASCII and has at
/// most `k` digits.
proof fn lemma_decimal_ascii(n: nat, k: nat)
    requires
        k >= 1,
        n < pow10(k),
    ensures
        is_ascii_chars(decimal(n)),
        decimal(n).len() <= k,
    decreases n,
{
    if n >= 10 {
        assert(k >= 2) by {
            if k == 1 {
                reveal_with_fuel(pow10, 2);
            }
        }
        assert(n / 10 < pow10((k - 1) as nat)) by (nonlinear_arith)
            requires
                n < pow10(k),
                pow10(k) == 10 * pow10((k - 1) as nat),
        ;
        lemma_decimal_ascii(n / 10, (k - 1) as nat);
        assert(is_ascii_chars(decimal(n))) by {
            let d = decimal(n);
            assert forall|i| 0 <= i < d.len() implies '\0' <= #[trigger] d[i] <= '\u{7f}' by {
                if i < decimal(n / 10).len() {
                    assert(d[i] == decimal(n / 10)[i]);
                }
            }
        }
    }
}

///Possible variants for novel's body line
#[derive(Debug, Clone, PartialEq, Eq)]
pub enum Line {
    ///Line of text to write
    Paragraph(String),
    ///URL with image and alt title
    Img(String, String),
    ///Indicates empty line/line break
    Break,
    ///Indicates the start of a part of the chapter
    ChapterDiv,
}

/// What a line holds, as plain values.
pub enum LineView {
    Paragraph(Seq<char>),
    Img(Seq<char>, Seq<char>),
    Break,
    ChapterDiv,
}

impl View for Line {
    type V = LineView;

    open spec fn view(&self) -> LineView {
        match self {
            Line::Paragraph(text) => LineView::Paragraph(text@),
            Line::Img(url, alt) => LineView::Img(url@, alt@),
            Line::Break => LineView::Break,
            Line::ChapterDiv => LineView::ChapterDiv,
        }
    }
}

/// The views of a sequence of lines.
pub open spec fn line_views(lines: Seq<Line>) -> Seq<LineView> {
    lines.map_values(|l: Line| l@)
}

} // verus!
