//! What came of one attempt to read from a connection.

use vstd::prelude::*;

verus! {

/// The most bytes that a read buffer may hold while something is awaited.
pub const BUFFER_LIMIT: usize = 524288;

/// The outcome of one read.
pub enum ReadOutcome {
    /// The bytes read; none at the end of the stream.
    Data(Vec<u8>),
    /// Nothing came in time.
    TimedOut,
    /// The read failed, with the words of the error.
    Failed(String),
}

/// A read outcome without its representation.
pub enum ReadView {
    Data(Seq<u8>),
    TimedOut,
    Failed(Seq<char>),
}

impl View for ReadOutcome {
    type V = ReadView;

    open spec fn view(&self) -> ReadView {
        match self {
            ReadOutcome::Data(b) => ReadView::Data(b@),
            ReadOutcome::TimedOut => ReadView::TimedOut,
            ReadOutcome::Failed(e) => ReadView::Failed(e@),
        }
    }
}

} // verus!
