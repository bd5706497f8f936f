//! The one error type of the scanner.
//!
//! Failures of the transport, of the file system and of a task are carried
//! as the values their own libraries made; nothing here looks inside them.

use vstd::prelude::*;
use vstd::string::*;
use vstd::std_specs::convert::FromSpecImpl;

verus! {

/// `std::io::Error`, carried through unread.
#[verifier::external_type_specification]
#[verifier::external_body]
pub struct ExIoError(std::io::Error);

/// `reqwest::Error`, carried through unread.
#[verifier::external_type_specification]
#[verifier::external_body]
pub struct ExHttpError(reqwest::Error);

/// `reqwest::header::ToStrError`, carried through unread.
#[verifier::external_type_specification]
#[verifier::external_body]
pub struct ExToStrError(reqwest::header::ToStrError);

/// `tokio::task::JoinError`, carried through unread.
#[verifier::external_type_specification]
#[verifier::external_body]
pub struct ExJoinError(tokio::task::JoinError);

/// Everything that can end a scan early.
#[derive(Debug)]
pub enum DirustError {
    /// The base address does not begin with `http://` or `https://`.
    InvalidBaseUrl,
    /// The concurrency limit is zero, so that no probe could ever start.
    InvalidConcurrency,
    /// Reading the wordlist failed.
    Io(std::io::Error),
    /// A request failed in the transport: DNS, TLS, connect, timeout.
    Http(reqwest::Error),
    /// A header value was not text.
    HeaderToStr(reqwest::header::ToStrError),
    /// A unit of work panicked or was cancelled.
    Join(tokio::task::JoinError),
}

impl DirustError {
    /// The message shown to the operator: a fixed sentence for the errors of
    /// the configuration, and for a carried error a fixed label followed by
    /// that error's own `Display` text.
    pub fn message(&self) -> (msg: String)
        ensures
            self is InvalidBaseUrl ==> msg@ == "base must start with http:// or https://"@,
            self is InvalidConcurrency ==> msg@ == "concurrency must be at least 1"@,
            self matches DirustError::Io(e) ==> exists|detail: String|
                to_string_from_display_ensures::<std::io::Error>(e, detail) && msg@
                    == "io error: "@ + detail@,
            self matches DirustError::Http(e) ==> exists|detail: String|
                to_string_from_display_ensures::<reqwest::Error>(e, detail) && msg@
                    == "http error: "@ + detail@,
            self matches DirustError::HeaderToStr(e) ==> exists|detail: String|
                to_string_from_display_ensures::<reqwest::header::ToStrError>(e, detail) && msg@
                    == "header to_str error: "@ + detail@,
            self matches DirustError::Join(e) ==> exists|detail: String|
                to_string_from_display_ensures::<tokio::task::JoinError>(e, detail) && msg@
                    == "task join error: "@ + detail@,
    {
        match self {
            DirustError::InvalidBaseUrl => String::from_str(
                "base must start with http:// or https://",
            ),
            DirustError::InvalidConcurrency => String::from_str("concurrency must be at least 1"),
            DirustError::Io(e) => String::from_str("io error: ").concat(e.to_string().as_str()),
            DirustError::Http(e) => String::from_str("http error: ").concat(
                e.to_string().as_str(),
            ),
            DirustError::HeaderToStr(e) => String::from_str("header to_str error: ").concat(
                e.to_string().as_str(),
            ),
            DirustError::Join(e) => String::from_str("task join error: ").concat(
                e.to_string().as_str(),
            ),
        }
    }
}

impl From<std::io::Error> for DirustError {
    fn from(e: std::io::Error) -> (err: Self) {
        DirustError::Io(e)
    }
}

impl FromSpecImpl<std::io::Error> for DirustError {
    open spec fn obeys_from_spec() -> bool {
        true
    }

    open spec fn from_spec(e: std::io::Error) -> Self {
        DirustError::Io(e)
    }
}

impl From<reqwest::Error> for DirustError {
    fn from(e: reqwest::Error) -> (err: Self) {
        DirustError::Http(e)
    }
}

impl FromSpecImpl<reqwest::Error> for DirustError {
    open spec fn obeys_from_spec() -> bool {
        true
    }

    open spec fn from_spec(e: reqwest::Error) -> Self {
        DirustError::Http(e)
    }
}

impl From<reqwest::header::ToStrError> for DirustError {
    fn from(e: reqwest::header::ToStrError) -> (err: Self) {
        DirustError::HeaderToStr(e)
    }
}

impl FromSpecImpl<reqwest::header::ToStrError> for DirustError {
    open spec fn obeys_from_spec() -> bool {
        true
    }

    open spec fn from_spec(e: reqwest::header::ToStrError) -> Self {
        DirustError::HeaderToStr(e)
    }
}

impl From<tokio::task::JoinError> for DirustError {
    fn from(e: tokio::task::JoinError) -> (err: Self) {
        DirustError::Join(e)
    }
}

impl FromSpecImpl<tokio::task::JoinError> for DirustError {
    open spec fn obeys_from_spec() -> bool {
        true
    }

    open spec fn from_spec(e: tokio::task::JoinError) -> Self {
        DirustError::Join(e)
    }
}

} // verus!
