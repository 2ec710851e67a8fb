//! Structural errors, each with the place where it was found.

use vstd::prelude::*;

verus! {

/// The ways in which a stream can fail to be a chunk tree.
#[derive(Clone, Copy, Debug, PartialEq, Eq, Structural)]
pub enum ErrorKind {
    /// Fewer bytes are available than a header, a form type, a payload or
    /// a pad byte between two chunks needs.
    TruncatedInput,
    /// A chunk claims more bytes than the region that encloses it has
    /// left, or a container declares fewer bytes than its form type takes.
    ChunkOverflow,
    /// Containers are nested more deeply than the configured bound allows.
    RecursionLimitExceeded,
}

/// What an error is, mathematically.
pub struct ErrorView {
    pub kind: ErrorKind,
    /// Absolute offset of the first byte of the chunk at which the
    /// violation was found.
    pub offset: nat,
    /// Tag of the container whose children were being read.
    pub parent: Seq<u8>,
}

/// The first structural violation met while reading a stream.
#[derive(Clone, Copy, Debug, PartialEq, Eq)]
pub struct ParsingError {
    kind: ErrorKind,
    offset: u64,
    parent: [u8; 4],
}

impl View for ParsingError {
    type V = ErrorView;

    closed spec fn view(&self) -> ErrorView {
        ErrorView { kind: self.kind, offset: self.offset as nat, parent: self.parent@ }
    }
}

impl ParsingError {
    /// An error of the given kind, found at `offset` among the children of
    /// `parent`.
    pub fn new(kind: ErrorKind, offset: u64, parent: [u8; 4]) -> (error: Self)
        ensures
            error@ == (ErrorView { kind, offset: offset as nat, parent: parent@ }),
    {
        ParsingError { kind, offset, parent }
    }

    /// Which violation this is.
    pub fn kind(&self) -> (kind: ErrorKind)
        ensures
            kind == self@.kind,
    {
        self.kind
    }

    /// Absolute offset of the first byte of the offending chunk.
    pub fn offset(&self) -> (offset: u64)
        ensures
            offset == self@.offset,
    {
        self.offset
    }

    /// Tag of the container whose children were being read.
    pub fn parent(&self) -> (parent: [u8; 4])
        ensures
            parent@ == self@.parent,
    {
        self.parent
    }
}

} // verus!
