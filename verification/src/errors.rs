//! What can go wrong in the library.

use vstd::prelude::*;
use vstd::string::*;

verus! {

/// The failures that the library reports.
#[derive(Debug, PartialEq, Eq)]
pub enum Error {
    /// Text that is not base64.
    Base64,
    /// Key material with fewer bytes than a key holds.
    KeyLength,
    /// A stored key pair that cannot be read back.
    Crypto,
    /// A message that is malformed or truncated.
    Codec,
    /// No agent of that serial or id is registered.
    NotFound,
    /// The serial is registered already.
    Duplicate,
    /// The registry has no id left to give.
    Exhausted,
    /// The secret of a publish request is not the configured one.
    Unauthorized,
    /// Something happened that was not waited for.
    Unexpected,
    /// The system could not carry out a payload; the text is its message.
    Execution(String),
}

/// A failure as a plain value.
pub enum ErrorView {
    Base64,
    KeyLength,
    Crypto,
    Codec,
    NotFound,
    Duplicate,
    Exhausted,
    Unauthorized,
    Unexpected,
    Execution(Seq<char>),
}

impl View for Error {
    type V = ErrorView;

    open spec fn view(&self) -> ErrorView {
        match self {
            Error::Base64 => ErrorView::Base64,
            Error::KeyLength => ErrorView::KeyLength,
            Error::Crypto => ErrorView::Crypto,
            Error::Codec => ErrorView::Codec,
            Error::NotFound => ErrorView::NotFound,
            Error::Duplicate => ErrorView::Duplicate,
            Error::Exhausted => ErrorView::Exhausted,
            Error::Unauthorized => ErrorView::Unauthorized,
            Error::Unexpected => ErrorView::Unexpected,
            Error::Execution(message) => ErrorView::Execution(message@),
        }
    }
}

impl DeepView for Error {
    type V = ErrorView;

    open spec fn deep_view(&self) -> ErrorView {
        self@
    }
}

/// Shorthand for a result with the library's error.
pub type Result<T> = core::result::Result<T, Error>;

/// A result as a plain value: what was computed, or the failure.
pub open spec fn plain<T: DeepView>(r: core::result::Result<T, Error>) -> core::result::Result<
    T::V,
    ErrorView,
> {
    match r {
        Ok(value) => Ok(value.deep_view()),
        Err(e) => Err(e@),
    }
}

/// A failure in words.
pub open spec fn error_text(e: ErrorView) -> Seq<char> {
    match e {
        ErrorView::Base64 => "text is not base64"@,
        ErrorView::KeyLength => "key is too short"@,
        ErrorView::Crypto => "key pair cannot be read"@,
        ErrorView::Codec => "message is malformed"@,
        ErrorView::NotFound => "agent is not registered"@,
        ErrorView::Duplicate => "agent is registered already"@,
        ErrorView::Exhausted => "registry is full"@,
        ErrorView::Unauthorized => "auth failed"@,
        ErrorView::Unexpected => "unexpected event"@,
        ErrorView::Execution(message) => message,
    }
}

impl Error {
    /// The failure in words.
    pub fn to_string(&self) -> (r: String)
        ensures
            r@ == error_text(self@),
    {
        match self {
            Error::Base64 => "text is not base64".to_owned(),
            Error::KeyLength => "key is too short".to_owned(),
            Error::Crypto => "key pair cannot be read".to_owned(),
            Error::Codec => "message is malformed".to_owned(),
            Error::NotFound => "agent is not registered".to_owned(),
            Error::Duplicate => "agent is registered already".to_owned(),
            Error::Exhausted => "registry is full".to_owned(),
            Error::Unauthorized => "auth failed".to_owned(),
            Error::Unexpected => "unexpected event".to_owned(),
            Error::Execution(message) => message.clone(),
        }
    }
}

} // verus!
