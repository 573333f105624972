//! Reading stored records back.
//!
//! The scanning itself is [`crate::jparse`]; this module holds the small
//! pieces around it: a typed wrapper for a stream whose source may already
//! have failed to open, so that a caller can treat "could not open" as one
//! more item of the stream.
use vstd::prelude::*;

verus! {

#[verifier::external_type_specification]
#[verifier::external_body]
pub struct ExIoError(std::io::Error);

/// A stream that either failed at the door or carries an inner iterator:
/// keeps call sites uniform when opening a source can fail. A failed open
/// yields its error as the stream's single item, then the stream is done.
pub enum TryOpenStream<I> {
    /// Opening the source failed; the error is handed out once.
    OpenError(Option<std::io::Error>),
    /// The source opened; items come from the inner iterator.
    Success(I),
}

impl<I> TryOpenStream<I> {
    /// The stream a failed open leaves behind: it holds the error, to be
    /// handed out as the stream's single item.
    pub fn err_on_open(e: std::io::Error) -> (r: TryOpenStream<I>)
        ensures
            r == TryOpenStream::<I>::OpenError(Some(e)),
    {
        TryOpenStream::OpenError(Some(e))
    }

    /// The stream a successful open leaves behind.
    pub fn success(i: I) -> (r: TryOpenStream<I>)
        ensures
            r is Success,
    {
        TryOpenStream::Success(i)
    }

    /// Take the stream apart: the inner iterator, or whatever is left of
    /// the open error, both unchanged.
    pub fn into_inner(self) -> (r: Result<I, Option<std::io::Error>>)
        ensures
            self matches TryOpenStream::Success(i) ==> r == Ok::<I, Option<std::io::Error>>(i),
            self matches TryOpenStream::OpenError(e) ==> r == Err::<I, Option<std::io::Error>>(e),
    {
        match self {
            TryOpenStream::Success(i) => Ok(i),
            TryOpenStream::OpenError(e) => Err(e),
        }
    }
}

} // verus!
