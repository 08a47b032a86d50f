//! The error type of the codec.

use vstd::prelude::*;
use crate::text::{cat, lit};

verus! {

/// What went wrong while reading or writing Cinepak data.
#[derive(Debug, Clone, PartialEq, Eq)]
pub enum CinepakError {
    /// The data breaks the format's rules.
    InvalidData(String),
    /// The data asks for something that the codec does not do.
    Unsupported(String),
    /// Anything else, such as a bad argument to the encoder.
    Other(String),
}

/// A [`CinepakError`] with its message as a sequence of characters.
pub enum ErrorView {
    InvalidData(Seq<char>),
    Unsupported(Seq<char>),
    Other(Seq<char>),
}

/// Result type of the codec.
pub type Result<T> = core::result::Result<T, CinepakError>;

impl View for CinepakError {
    type V = ErrorView;

    open spec fn view(&self) -> ErrorView {
        match self {
            CinepakError::InvalidData(s) => ErrorView::InvalidData(s@),
            CinepakError::Unsupported(s) => ErrorView::Unsupported(s@),
            CinepakError::Other(s) => ErrorView::Other(s@),
        }
    }
}

/// The text that an error displays as.
pub open spec fn display(e: ErrorView) -> Seq<char> {
    match e {
        ErrorView::InvalidData(s) => "cinepak: invalid data: "@ + s,
        ErrorView::Unsupported(s) => "cinepak: unsupported: "@ + s,
        ErrorView::Other(s) => "cinepak: "@ + s,
    }
}

impl CinepakError {
    /// An [`CinepakError::InvalidData`] error.
    pub fn invalid(msg: String) -> (r: Self)
        ensures
            r == CinepakError::InvalidData(msg),
    {
        CinepakError::InvalidData(msg)
    }

    /// An [`CinepakError::Unsupported`] error.
    pub fn unsupported(msg: String) -> (r: Self)
        ensures
            r == CinepakError::Unsupported(msg),
    {
        CinepakError::Unsupported(msg)
    }

    /// An [`CinepakError::Other`] error.
    pub fn other(msg: String) -> (r: Self)
        ensures
            r == CinepakError::Other(msg),
    {
        CinepakError::Other(msg)
    }

    /// The error as text.
    pub fn to_string(&self) -> (r: String)
        ensures
            r@ == display(self@),
    {
        match self {
            CinepakError::InvalidData(s) => cat(lit("cinepak: invalid data: "), s.as_str()),
            CinepakError::Unsupported(s) => cat(lit("cinepak: unsupported: "), s.as_str()),
            CinepakError::Other(s) => cat(lit("cinepak: "), s.as_str()),
        }
    }
}

/// A result with its error replaced by the error's view.
pub open spec fn outcome<T>(r: core::result::Result<T, CinepakError>) -> core::result::Result<
    T,
    ErrorView,
> {
    match r {
        Ok(v) => Ok(v),
        Err(e) => Err(e@),
    }
}

/// An `InvalidData` error with a fixed message.
pub(crate) fn invalid(msg: &str) -> (r: CinepakError)
    ensures
        r@ == ErrorView::InvalidData(msg@),
{
    CinepakError::InvalidData(lit(msg))
}

/// An `Other` error with a fixed message.
pub(crate) fn other(msg: &str) -> (r: CinepakError)
    ensures
        r@ == ErrorView::Other(msg@),
{
    CinepakError::Other(lit(msg))
}

} // verus!
