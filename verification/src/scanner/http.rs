//! One probe of one address: which requests are sent, and what is kept of
//! the response.
//!
//! A probe sends `HEAD`, unless `GET` is preferred, and falls back to `GET`
//! once if the server answers `HEAD` with 405. Nothing of the response is
//! kept but its status and two headers. The requests themselves are sent by
//! the driver, which hands each reply to [`Probe::advance`].

use vstd::prelude::*;
use crate::error::DirustError;

verus! {

/// The status with which a server refuses a request's method.
pub const METHOD_NOT_ALLOWED: u16 = 405;

/// The method of a request.
#[derive(Debug, Clone, Copy, PartialEq, Eq)]
pub enum Method {
    Head,
    Get,
}

/// What a probe reads of a response: its status and the raw bytes of the two
/// headers that a report shows, each absent where the response has none.
#[derive(Debug)]
pub struct ResponseHead {
    pub status: u16,
    pub content_length: Option<Vec<u8>>,
    pub location: Option<Vec<u8>>,
}

/// A response head, as plain values.
pub struct HeadView {
    pub status: u16,
    pub content_length: Option<Seq<u8>>,
    pub location: Option<Seq<u8>>,
}

impl View for ResponseHead {
    type V = HeadView;

    open spec fn view(&self) -> HeadView {
        HeadView {
            status: self.status,
            content_length: self.content_length.deep_view(),
            location: self.location.deep_view(),
        }
    }
}

/// What a probe reports of an address: the status, and the two headers as
/// text, each absent where the response had none or had one that is no text.
#[derive(Debug)]
pub struct HttpSummary {
    pub status: u16,
    pub content_length: Option<String>,
    pub location: Option<String>,
}

/// A summary, as plain values.
pub struct SummaryView {
    pub status: u16,
    pub content_length: Option<Seq<char>>,
    pub location: Option<Seq<char>>,
}

impl View for HttpSummary {
    type V = SummaryView;

    open spec fn view(&self) -> SummaryView {
        SummaryView {
            status: self.status,
            content_length: self.content_length.deep_view(),
            location: self.location.deep_view(),
        }
    }
}

/// Whether a byte of a header value is text: visible ASCII, a space or a tab.
pub open spec fn is_visible(byte: u8) -> bool {
    32 <= byte < 127 || byte == 9
}

/// Whether a header value is text throughout.
pub open spec fn is_header_text(raw: Seq<u8>) -> bool {
    forall|i: int| 0 <= i < raw.len() ==> is_visible(#[trigger] raw[i])
}

/// The text of a header value: each byte is one character.
pub open spec fn header_chars(raw: Seq<u8>) -> Seq<char> {
    Seq::new(raw.len(), |i: int| raw[i] as char)
}

/// A header as a report shows it: its text where it is there and is text,
/// and absent otherwise.
pub open spec fn decoded(raw: Option<Seq<u8>>) -> Option<Seq<char>> {
    match raw {
        Some(bytes) => if is_header_text(bytes) {
            Some(header_chars(bytes))
        } else {
            None
        },
        None => None,
    }
}

/// What is kept of a response.
pub open spec fn summary_of(head: HeadView) -> SummaryView {
    SummaryView {
        status: head.status,
        content_length: decoded(head.content_length),
        location: decoded(head.location),
    }
}

/// The text of a header value, by `HeaderValue::to_str` on the value that
/// `HeaderValue::from_bytes` makes of the bytes: every byte that is visible
/// ASCII, a space or a tab is one character of the text, and a value with any
/// other byte in it has no text.
#[verifier::external_body]
fn header_text(raw: &[u8]) -> (text: Option<String>)
    ensures
        text is Some <==> is_header_text(raw@),
        text matches Some(t) ==> t@ == header_chars(raw@),
{
    let value = reqwest::header::HeaderValue::from_bytes(raw).ok()?;
    value.to_str().ok().map(String::from)
}

/// A header as a report shows it: a value that is no text counts as absent,
/// and is no error.
fn decode_header(raw: &Option<Vec<u8>>) -> (text: Option<String>)
    ensures
        text.deep_view() == decoded(raw.deep_view()),
{
    match raw {
        Some(bytes) => {
            assert(bytes.deep_view() =~= bytes@);
            header_text(bytes.as_slice())
        },
        None => None,
    }
}

/// Reduces a response to what a report shows: the status as it is, and the
/// two headers decoded.
pub fn summarize_response(head: &ResponseHead) -> (summary: HttpSummary)
    ensures
        summary@ == summary_of(head@),
{
    HttpSummary {
        status: head.status,
        content_length: decode_header(&head.content_length),
        location: decode_header(&head.location),
    }
}

/// A probe that waits for the reply to a request it has asked for.
#[derive(Debug)]
pub struct Probe {
    url: String,
    use_get: bool,
    fell_back: bool,
}

/// A probe in progress, as plain values.
pub struct ProbeView {
    /// The address that every request of the probe goes to.
    pub url: Seq<char>,
    /// Whether the probe was told to use `GET` from the start.
    pub use_get: bool,
    /// Whether the request under way is the fallback `GET`.
    pub fell_back: bool,
}

impl View for Probe {
    type V = ProbeView;

    closed spec fn view(&self) -> ProbeView {
        ProbeView { url: self.url@, use_get: self.use_get, fell_back: self.fell_back }
    }
}

/// What happens next in a probe.
#[derive(Debug)]
pub enum ProbeStep {
    /// Send a request with this method to the probe's address, and hand the
    /// reply to the probe.
    Send(Probe, Method),
    /// The probe is over, with this outcome.
    Done(Result<HttpSummary, DirustError>),
}

/// A step of a probe, as plain values.
pub enum StepView {
    Send(ProbeView, Method),
    Report(SummaryView),
    Fail(DirustError),
}

impl View for ProbeStep {
    type V = StepView;

    open spec fn view(&self) -> StepView {
        match *self {
            ProbeStep::Send(probe, method) => StepView::Send(probe@, method),
            ProbeStep::Done(Ok(summary)) => StepView::Report(summary@),
            ProbeStep::Done(Err(e)) => StepView::Fail(e),
        }
    }
}

/// A reply to a request, as plain values: the head of a response, or the
/// error of the transport.
pub open spec fn reply_view(reply: Result<ResponseHead, reqwest::Error>) -> Result<
    HeadView,
    reqwest::Error,
> {
    match reply {
        Ok(head) => Ok(head@),
        Err(e) => Err(e),
    }
}

/// The method of the first request: `GET` if it is preferred, else `HEAD`.
pub open spec fn first_method(use_get: bool) -> Method {
    if use_get {
        Method::Get
    } else {
        Method::Head
    }
}

/// How a probe of `url` begins: with its first request.
pub open spec fn begin(url: Seq<char>, use_get: bool) -> StepView {
    StepView::Send(ProbeView { url, use_get, fell_back: false }, first_method(use_get))
}

/// Whether a reply calls for the fallback: it answers a `HEAD` that was not
/// itself a fallback, and its status is 405.
pub open spec fn needs_fallback(probe: ProbeView, reply: Result<HeadView, reqwest::Error>) -> bool {
    &&& !probe.use_get
    &&& !probe.fell_back
    &&& reply matches Ok(head) && head.status == METHOD_NOT_ALLOWED
}

/// The outcome that a reply gives a probe that ends with it: the summary of
/// a response whatever its status, and the error of a failed request.
pub open spec fn outcome_of(reply: Result<HeadView, reqwest::Error>) -> StepView {
    match reply {
        Ok(head) => StepView::Report(summary_of(head)),
        Err(e) => StepView::Fail(DirustError::Http(e)),
    }
}

/// How a probe goes on after a reply: with one `GET` to the same address
/// where the reply calls for the fallback, and otherwise to its end.
pub open spec fn advance(probe: ProbeView, reply: Result<HeadView, reqwest::Error>) -> StepView {
    if needs_fallback(probe, reply) {
        StepView::Send(ProbeView { fell_back: true, ..probe }, Method::Get)
    } else {
        outcome_of(reply)
    }
}

/// A `HEAD` answered with 405 is followed by exactly one `GET` to the same
/// address, and the probe reports what that `GET` gave, its response or its
/// failure, and nothing of the `HEAD`: whatever the `GET` is answered with,
/// no third request is sent.
pub proof fn lemma_fallback_reports_second_reply(
    url: Seq<char>,
    first: HeadView,
    second: Result<HeadView, reqwest::Error>,
)
    requires
        first.status == METHOD_NOT_ALLOWED,
    ensures
        begin(url, false) matches StepView::Send(head_probe, Method::Head) && (head_probe.url
            == url && (advance(head_probe, Ok(first)) matches StepView::Send(
            get_probe,
            Method::Get,
        ) && (get_probe.url == url && advance(get_probe, second) == outcome_of(second)))),
        !(outcome_of(second) is Send),
{
}

/// Without a 405 to a `HEAD`, and always where `GET` is preferred, a probe
/// sends one request and ends with what that request gave.
pub proof fn lemma_no_fallback_reports_first_reply(
    url: Seq<char>,
    use_get: bool,
    first: Result<HeadView, reqwest::Error>,
)
    requires
        use_get || !(first matches Ok(head) && head.status == METHOD_NOT_ALLOWED),
    ensures
        begin(url, use_get) matches StepView::Send(probe, method) && (probe.url == url && method
            == first_method(use_get) && advance(probe, first) == outcome_of(first)),
{
}

/// Begins a probe of `url`: the step it returns asks for the first request.
pub fn probe(url: &str, use_get: bool) -> (step: ProbeStep)
    ensures
        step@ == begin(url@, use_get),
{
    let method = if use_get {
        Method::Get
    } else {
        Method::Head
    };
    ProbeStep::Send(Probe { url: url.to_owned(), use_get, fell_back: false }, method)
}

impl Probe {
    /// The address that the request asked for goes to.
    pub fn url(&self) -> (url: &str)
        ensures
            url@ == self@.url,
    {
        self.url.as_str()
    }

    /// Takes the reply to the request that the probe asked for, and says how
    /// the probe goes on.
    pub fn advance(self, reply: Result<ResponseHead, reqwest::Error>) -> (step: ProbeStep)
        ensures
            step@ == advance(self@, reply_view(reply)),
    {
        match reply {
            Ok(head) => {
                if head.status == METHOD_NOT_ALLOWED && !self.use_get && !self.fell_back {
                    ProbeStep::Send(
                        Probe { url: self.url, use_get: self.use_get, fell_back: true },
                        Method::Get,
                    )
                } else {
                    ProbeStep::Done(Ok(summarize_response(&head)))
                }
            },
            Err(e) => ProbeStep::Done(Err(DirustError::Http(e))),
        }
    }
}

} // verus!
