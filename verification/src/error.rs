//! What decoding and encoding report when they fail.

use crate::term::{
    Atom, BigInteger, BigIntegerView, ImproperList, ImproperListView, Reference, ReferenceView,
    Term, TermView,
};
use std::ops::Range;
use vstd::prelude::*;

verus! {

/// Why input could not be read as it stands.
#[derive(Debug, Clone, Copy, PartialEq, Eq, Hash, Structural)]
pub enum IoErrorKind {
    /// The input ended inside a term.
    UnexpectedEof,
    /// Bytes that the format does not allow where they stand.
    InvalidData,
    /// Any other failure: the name of an atom in the Latin-1 form that is
    /// not UTF-8 as well, among them.
    Other,
}

/// A failure of the byte source, the byte sink or the bytes themselves.
#[derive(Debug, PartialEq, Eq, Hash)]
pub struct IoError {
    pub kind: IoErrorKind,
    pub message: String,
}

/// The view of an [`IoError`]: its kind and the text of its message.
pub struct IoErrorView {
    pub kind: IoErrorKind,
    pub message: Seq<char>,
}

impl View for IoError {
    type V = IoErrorView;

    open spec fn view(&self) -> IoErrorView {
        IoErrorView { kind: self.kind, message: self.message@ }
    }
}

/// Errors which can occur when decoding a term.
#[allow(inconsistent_fields)]
#[derive(Debug, PartialEq, Eq, Hash)]
pub enum DecodeError {
    Io(IoError),
    /// The first byte is not the version that this codec reads.
    UnsupportedVersion { version: u8 },
    /// A term starts with a tag that this codec does not read.
    UnknownTag { tag: u8 },
    /// A field holds a term of another type than the format asks for.
    UnexpectedType { value: Term, expected: String },
    /// An integer field lies outside `range.start ..= range.end`.
    OutOfRange { value: i32, range: Range<i32> },
    /// The bits of a float are an infinity or a NaN.
    NonFiniteFloat,
    /// A float in the text form, which the decoder was given no conversion of.
    UnconvertedFloat { text: Vec<u8> },
}

/// The view of a [`DecodeError`]: the same failure, with the views of what
/// it holds.
#[allow(inconsistent_fields)]
pub enum DecodeErrorView {
    Io(IoErrorView),
    UnsupportedVersion { version: u8 },
    UnknownTag { tag: u8 },
    UnexpectedType { value: TermView, expected: Seq<char> },
    OutOfRange { value: i32, start: i32, end: i32 },
    NonFiniteFloat,
    UnconvertedFloat { text: Seq<u8> },
}

impl View for DecodeError {
    type V = DecodeErrorView;

    open spec fn view(&self) -> DecodeErrorView {
        match *self {
            DecodeError::Io(e) => DecodeErrorView::Io(e@),
            DecodeError::UnsupportedVersion { version } => DecodeErrorView::UnsupportedVersion {
                version,
            },
            DecodeError::UnknownTag { tag } => DecodeErrorView::UnknownTag { tag },
            DecodeError::UnexpectedType { value, expected } => DecodeErrorView::UnexpectedType {
                value: value@,
                expected: expected@,
            },
            DecodeError::OutOfRange { value, range } => DecodeErrorView::OutOfRange {
                value,
                start: range.start,
                end: range.end,
            },
            DecodeError::NonFiniteFloat => DecodeErrorView::NonFiniteFloat,
            DecodeError::UnconvertedFloat { text } => DecodeErrorView::UnconvertedFloat {
                text: text@,
            },
        }
    }
}

/// Errors which can occur when encoding a term.
#[derive(Debug, PartialEq, Eq, Hash)]
pub enum EncodeError {
    Io(IoError),
    /// The name of an atom takes more than 65535 bytes.
    TooLongAtomName(Atom),
    /// The magnitude of an integer takes more than 4294967295 bytes.
    TooLargeInteger(BigInteger),
    /// The identifier of a reference has more than 65535 words.
    TooLargeReferenceId(Reference),
    /// An improper list has no element before its tail: such a list is its
    /// tail alone, and is to be written as that.
    EmptyImproperList(ImproperList),
}

/// The view of an [`EncodeError`]: the same refusal, with the view of the
/// value that was refused.
pub enum EncodeErrorView {
    Io(IoErrorView),
    TooLongAtomName(Seq<char>),
    TooLargeInteger(BigIntegerView),
    TooLargeReferenceId(ReferenceView),
    EmptyImproperList(ImproperListView),
}

impl View for EncodeError {
    type V = EncodeErrorView;

    open spec fn view(&self) -> EncodeErrorView {
        match *self {
            EncodeError::Io(e) => EncodeErrorView::Io(e@),
            EncodeError::TooLongAtomName(x) => EncodeErrorView::TooLongAtomName(x@),
            EncodeError::TooLargeInteger(x) => EncodeErrorView::TooLargeInteger(x@),
            EncodeError::TooLargeReferenceId(x) => EncodeErrorView::TooLargeReferenceId(x@),
            EncodeError::EmptyImproperList(x) => EncodeErrorView::EmptyImproperList(x@),
        }
    }
}

impl From<IoError> for DecodeError {
    fn from(err: IoError) -> (r: DecodeError) {
        DecodeError::Io(err)
    }
}

impl vstd::std_specs::convert::FromSpecImpl<IoError> for DecodeError {
    open spec fn obeys_from_spec() -> bool {
        true
    }

    open spec fn from_spec(err: IoError) -> DecodeError {
        DecodeError::Io(err)
    }
}

impl From<IoError> for EncodeError {
    fn from(err: IoError) -> (r: EncodeError) {
        EncodeError::Io(err)
    }
}

impl vstd::std_specs::convert::FromSpecImpl<IoError> for EncodeError {
    open spec fn obeys_from_spec() -> bool {
        true
    }

    open spec fn from_spec(err: IoError) -> EncodeError {
        EncodeError::Io(err)
    }
}

/// What decoding returns: the term, or why there is none.
pub type DecodeResult = Result<Term, DecodeError>;

/// What encoding returns: the bytes, or why there are none.
pub type EncodeResult = Result<Vec<u8>, EncodeError>;

/// The failure to say when the input ends inside a term.
pub open spec fn unexpected_eof() -> DecodeErrorView {
    DecodeErrorView::Io(
        IoErrorView { kind: IoErrorKind::UnexpectedEof, message: "failed to fill whole buffer"@ },
    )
}

/// The failure to say of bytes that the format does not allow.
pub open spec fn invalid_data(message: Seq<char>) -> DecodeErrorView {
    DecodeErrorView::Io(IoErrorView { kind: IoErrorKind::InvalidData, message })
}

/// An error of the kind `InvalidData` with the given message.
pub fn invalid_data_error<T>(message: String) -> (r: Result<T, IoError>)
    ensures
        r matches Err(e) && e@ == (IoErrorView {
            kind: IoErrorKind::InvalidData,
            message: message@,
        }),
{
    Err(IoError { kind: IoErrorKind::InvalidData, message })
}

/// An error of the kind `Other` with the given message.
pub fn other_error<T>(message: String) -> (r: Result<T, IoError>)
    ensures
        r matches Err(e) && e@ == (IoErrorView { kind: IoErrorKind::Other, message: message@ }),
{
    Err(IoError { kind: IoErrorKind::Other, message })
}

/// The error to return when the input ends inside a term.
pub fn eof_error() -> (e: DecodeError)
    ensures
        e@ == unexpected_eof(),
{
    DecodeError::Io(
        IoError {
            kind: IoErrorKind::UnexpectedEof,
            message: "failed to fill whole buffer".to_owned(),
        },
    )
}

} // verus!
