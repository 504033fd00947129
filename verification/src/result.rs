//! Error values returned by encoding, decoding and tree accessors.

use vstd::prelude::*;

use crate::context::Context;

verus! {

/// Spec-level mirror of [`DataError`], with string payloads as `Seq<char>`.
pub enum ErrView {
    UnexpectedType { expected: Seq<char> },
    KeyNotFoundInMap { key: Seq<char> },
    ListIndexOutOfBounds { list_length: int, index: int },
    Custom { message: Seq<char> },
}

/// The error value produced when a tree accessor or a codec rejects its input.
#[derive(Debug)]
pub enum DataError {
    /// An accessor was called on a tree node of the wrong shape.
    UnexpectedType { expected: String },
    /// A required map entry was missing.
    KeyNotFoundInMap { key: String },
    /// A list accessor was called with an index past the end.
    ListIndexOutOfBounds { list_length: usize, index: usize },
    /// A failure of a combinator or of user logic, described by a message.
    Custom { message: String },
}

impl View for DataError {
    type V = ErrView;

    open spec fn view(&self) -> ErrView {
        match self {
            DataError::UnexpectedType { expected } => ErrView::UnexpectedType {
                expected: expected@,
            },
            DataError::KeyNotFoundInMap { key } => ErrView::KeyNotFoundInMap { key: key@ },
            DataError::ListIndexOutOfBounds { list_length, index } => ErrView::ListIndexOutOfBounds {
                list_length: *list_length as int,
                index: *index as int,
            },
            DataError::Custom { message } => ErrView::Custom { message: message@ },
        }
    }
}

impl DataError {
    /// Builds a `Custom` error from a message.
    pub fn new_custom(message: &str) -> (r: DataError)
        ensures
            r@ == (ErrView::Custom { message: message@ }),
    {
        DataError::Custom { message: message.to_owned() }
    }

    /// Builds an `UnexpectedType` error naming the shape that was expected.
    pub fn unexpected_type(expected: &str) -> (r: DataError)
        ensures
            r@ == (ErrView::UnexpectedType { expected: expected@ }),
    {
        DataError::UnexpectedType { expected: expected.to_owned() }
    }

    /// Builds a `KeyNotFoundInMap` error naming the missing key.
    pub fn key_not_found(key: &str) -> (r: DataError)
        ensures
            r@ == (ErrView::KeyNotFoundInMap { key: key@ }),
    {
        DataError::KeyNotFoundInMap { key: key.to_owned() }
    }

    /// Builds a `ListIndexOutOfBounds` error from the index and the length.
    pub fn list_index_out_of_bounds(index: usize, list_length: usize) -> (r: DataError)
        ensures
            r@ == (ErrView::ListIndexOutOfBounds {
                list_length: list_length as int,
                index: index as int,
            }),
    {
        DataError::ListIndexOutOfBounds { list_length, index }
    }
}

pub type DataResult<T> = Result<T, DataError>;

/// An error paired with the trace of the descent that produced it; returned
/// only at the top-level boundary of an encode or a decode.
#[derive(Debug)]
pub struct CodecError {
    pub error: DataError,
    pub span: Context,
}

impl CodecError {
    /// Pairs an error with the context it was produced under.
    pub fn new(error: DataError, span: Context) -> (r: CodecError)
        ensures
            r.error@ == error@,
            r.span@ == span@,
    {
        CodecError { error, span }
    }

    /// The error itself.
    pub fn error(&self) -> (r: &DataError)
        ensures
            r@ == self.error@,
    {
        &self.error
    }

    /// The trace of the descent at the point of failure.
    pub fn span(&self) -> (r: &Context)
        ensures
            r@ == self.span@,
    {
        &self.span
    }
}

pub type CodecResult<T> = Result<T, CodecError>;

} // verus!
