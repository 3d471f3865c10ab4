//! HTTP errors and the decisions made on HTTP responses.
use vstd::prelude::*;
use vstd::string::*;

verus! {

#[verifier::external_type_specification]
#[verifier::external_body]
pub struct ExUreqError(ureq::Error);

#[verifier::external_type_specification]
#[verifier::external_body]
pub struct ExIoError(std::io::Error);

/// Failure of an HTTP request.
#[derive(Debug)]
pub enum HttpError {
    /// The server answered with a status other than 200.
    StatusFailed(u16),
    /// The request could not be made.
    Transport(ureq::Error),
    /// The response could not be decoded.
    Internal(ureq::Error),
    /// The response body could not be read.
    Read(std::io::Error),
}

/// Which kind of `ureq::Error` a value is, as far as this crate tells them apart.
#[derive(Debug, Clone, Copy, PartialEq, Eq, Structural)]
pub enum UreqErrorKind {
    /// `ureq::Error::StatusCode` with its status.
    StatusCode(u16),
    /// `ureq::Error::Json`.
    Json,
    /// Any other variant.
    Other,
}

/// Which kind of `ureq::Error` a value is: its variant, and the status of a
/// `StatusCode` error.
pub uninterp spec fn ureq_kind_of(error: ureq::Error) -> UreqErrorKind;

/// Tells the variants of a `ureq::Error` apart, by matching on them.
#[verifier::external_body]
fn ureq_error_kind(error: &ureq::Error) -> (r: UreqErrorKind)
    ensures
        r == ureq_kind_of(*error),
{
    match error {
        ureq::Error::StatusCode(code) => UreqErrorKind::StatusCode(*code),
        ureq::Error::Json(_) => UreqErrorKind::Json,
        _ => UreqErrorKind::Other,
    }
}

/// The error that a `ureq::Error` of the given kind becomes.
pub open spec fn error_of_kind(kind: UreqErrorKind, error: ureq::Error) -> HttpError {
    match kind {
        UreqErrorKind::StatusCode(code) => HttpError::StatusFailed(code),
        UreqErrorKind::Json => HttpError::Internal(error),
        UreqErrorKind::Other => HttpError::Transport(error),
    }
}

impl HttpError {
    /// Classifies a `ureq::Error` whose kind is already known: a status code
    /// stays a failed status, a decoding failure is internal, the rest is
    /// transport.
    pub fn from_ureq_kind(kind: UreqErrorKind, error: ureq::Error) -> (r: Self)
        ensures
            r == error_of_kind(kind, error),
    {
        match kind {
            UreqErrorKind::StatusCode(code) => HttpError::StatusFailed(code),
            UreqErrorKind::Json => HttpError::Internal(error),
            UreqErrorKind::Other => HttpError::Transport(error),
        }
    }

    /// Classifies a `ureq::Error`.
    pub fn from_ureq(error: ureq::Error) -> (r: Self)
        ensures
            r == error_of_kind(ureq_kind_of(error), error),
    {
        let kind = ureq_error_kind(&error);
        Self::from_ureq_kind(kind, error)
    }

    /// A failure to read the response body.
    pub fn from_io(error: std::io::Error) -> (r: Self)
        ensures
            r == HttpError::Read(error),
    {
        HttpError::Read(error)
    }
}

/// A response body decoded from JSON.
pub struct Json<T>(pub T);

/// The most redirects that resolving a URL follows: the limit `ureq` puts
/// on the redirects it follows by default.
pub const MAX_REDIRECTS: usize = 10;

/// Where an answer to a request that does not follow redirects sends the
/// client on: for a redirect status (300 to 399) that names a location,
/// that location; otherwise nowhere. `status` is `None` when the request
/// failed, and `location` is the readable `location` header, if any.
pub open spec fn redirect_target(status: Option<u16>, location: Option<Seq<char>>) -> Option<
    Seq<char>,
> {
    match (status, location) {
        (Some(code), Some(loc)) => if 300 <= code <= 399 {
            Some(loc)
        } else {
            None
        },
        _ => None,
    }
}

/// One answer while resolving `url`, after `hops` redirects: either the next
/// URL to ask and the redirects followed then, or the URL that the
/// resolution ends on (`url` itself when the answer redirects nowhere or
/// the limit is reached).
pub open spec fn redirect_step(
    url: Seq<char>,
    hops: nat,
    status: Option<u16>,
    location: Option<Seq<char>>,
) -> Result<(Seq<char>, nat), Seq<char>> {
    match redirect_target(status, location) {
        Some(next) => if hops < MAX_REDIRECTS {
            Ok((next, hops + 1))
        } else {
            Err(url)
        },
        None => Err(url),
    }
}

/// Where resolving `url`, after `hops` redirects, ends when the answers
/// come in the order of `answers`; `None` when they run out first.
pub open spec fn resolution(
    url: Seq<char>,
    hops: nat,
    answers: Seq<(Option<u16>, Option<Seq<char>>)>,
) -> Option<Seq<char>>
    decreases answers.len(),
{
    if answers.len() == 0 {
        None
    } else {
        match redirect_step(url, hops, answers[0].0, answers[0].1) {
            Err(end) => Some(end),
            Ok((next, h)) => resolution(next, h, answers.drop_first()),
        }
    }
}

/// Law: resolving a URL asks at most `MAX_REDIRECTS + 1` times: whatever
/// the answers, it has ended once that many have come.
pub proof fn lemma_resolution_ends(
    url: Seq<char>,
    hops: nat,
    answers: Seq<(Option<u16>, Option<Seq<char>>)>,
)
    requires
        hops <= MAX_REDIRECTS,
        answers.len() >= MAX_REDIRECTS + 1 - hops,
    ensures
        resolution(url, hops, answers) is Some,
    decreases MAX_REDIRECTS - hops,
{
    match redirect_step(url, hops, answers[0].0, answers[0].1) {
        Err(_) => {},
        Ok((next, h)) => lemma_resolution_ends(next, h, answers.drop_first()),
    }
}

/// Following the redirects of a URL: the URL to ask next and how many
/// redirects led to it.
pub struct Redirects {
    url: String,
    hops: usize,
}

/// What an answer leads to while following redirects.
pub enum RedirectStep {
    /// Ask the next URL.
    Follow(Redirects),
    /// The URL that the redirects lead to.
    Done(String),
}

impl Redirects {
    #[verifier::type_invariant]
    spec fn within_limit(self) -> bool {
        self.hops <= MAX_REDIRECTS
    }

    /// The URL to ask next.
    pub closed spec fn spec_url(&self) -> Seq<char> {
        self.url@
    }

    /// How many redirects led to it.
    pub closed spec fn spec_hops(&self) -> nat {
        self.hops as nat
    }

    /// Starts resolving `url`.
    pub fn start(url: &str) -> (r: Self)
        ensures
            r.spec_url() == url@,
            r.spec_hops() == 0,
    {
        Redirects { url: url.to_owned(), hops: 0 }
    }

    /// The URL to ask next, with a request that does not follow redirects.
    pub fn url(&self) -> (r: &str)
        ensures
            r@ == self.spec_url(),
    {
        self.url.as_str()
    }

    /// Decides on the answer to the request for [`Redirects::url`]: see
    /// [`redirect_step`].
    pub fn on_answer(self, status: Option<u16>, location: Option<&str>) -> (r: RedirectStep)
        ensures
            match redirect_step(
                self.spec_url(),
                self.spec_hops(),
                status,
                match location {
                    Some(l) => Some(l@),
                    None => None,
                },
            ) {
                Ok((next, hops)) => r matches RedirectStep::Follow(f) && f.spec_url() == next
                    && f.spec_hops() == hops,
                Err(end) => r matches RedirectStep::Done(u) && u@ == end,
            },
    {
        proof {
            use_type_invariant(&self);
        }
        let target = match (status, location) {
            (Some(code), Some(loc)) => if 300 <= code && code <= 399 {
                Some(loc)
            } else {
                None
            },
            _ => None,
        };
        match target {
            Some(next) => if self.hops < MAX_REDIRECTS {
                RedirectStep::Follow(Redirects { url: next.to_owned(), hops: self.hops + 1 })
            } else {
                RedirectStep::Done(self.url)
            },
            None => RedirectStep::Done(self.url),
        }
    }
}

/// The text that `ureq::Error`'s `Display` gives, through `format!`. What
/// it holds is `ureq`'s to word and is left unsaid.
#[verifier::external_body]
fn ureq_error_text(error: &ureq::Error) -> String {
    format!("{}", error)
}

/// The text that `std::io::Error`'s `Display` gives, through `format!`.
/// What it holds is left unsaid.
#[verifier::external_body]
fn io_error_text(error: &std::io::Error) -> String {
    format!("{}", error)
}

/// What the message of a failed request says: the status for a status
/// failure, and for the others a prefix that names the kind of failure
/// before the underlying error's own text.
pub open spec fn http_message(error: HttpError, text: Seq<char>) -> bool {
    match error {
        HttpError::StatusFailed(code) => text == "Request failed with status="@ + crate::novel::decimal(
            code as nat,
        ),
        HttpError::Transport(_) => "Unable to fetch: "@.is_prefix_of(text),
        HttpError::Internal(_) => "Internal error: "@.is_prefix_of(text),
        HttpError::Read(_) => "Unable to read response: "@.is_prefix_of(text),
    }
}

impl HttpError {
    /// The message that describes the failure to a user.
    pub fn message(&self) -> (r: String)
        ensures
            http_message(*self, r@),
    {
        proof {
            reveal_strlit("Unable to fetch: ");
            reveal_strlit("Internal error: ");
            reveal_strlit("Unable to read response: ");
        }
        match self {
            HttpError::StatusFailed(code) => {
                let mut text = String::from_str("Request failed with status=");
                text.append(crate::download::decimal_string(*code as usize).as_str());
                text
            },
            HttpError::Transport(reason) => {
                let mut text = String::from_str("Unable to fetch: ");
                text.append(ureq_error_text(reason).as_str());
                text
            },
            HttpError::Internal(reason) => {
                let mut text = String::from_str("Internal error: ");
                text.append(ureq_error_text(reason).as_str());
                text
            },
            HttpError::Read(reason) => {
                let mut text = String::from_str("Unable to read response: ");
                text.append(io_error_text(reason).as_str());
                text
            },
        }
    }
}

} // verus!
