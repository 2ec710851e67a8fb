//! The chunk tree: containers that hold chunks, and leaves that point at
//! their payload.

use crate::format::header::{HeaderView, RiffHeader};
use vstd::prelude::*;

verus! {

/// What a chunk is, mathematically.
pub struct ChunkView {
    pub header: HeaderView,
    /// Absolute offset of the first byte of the chunk's header.
    pub offset: nat,
    pub kind: KindView,
}

/// What the payload of a chunk is, mathematically.
pub enum KindView {
    Container { form_type: Seq<u8>, children: Seq<ChunkView> },
    Leaf { payload_offset: nat, payload_length: nat },
}

/// The payload of a chunk: nested chunks behind a form type, or a span of
/// opaque bytes.
#[derive(Debug, PartialEq, Eq)]
pub enum ChunkKind {
    /// A `RIFF` or `LIST` chunk. Its payload starts with a four-byte form
    /// type, and the chunks that follow it are its children, in stream
    /// order.
    Container { form_type: [u8; 4], children: Vec<ChunkNode> },
    /// Any other chunk. The payload is not read; the span says where it
    /// lies in the stream.
    Leaf { payload_offset: u64, payload_length: u32 },
}

/// One chunk of the stream, with everything nested in it.
#[derive(Debug, PartialEq, Eq)]
pub struct ChunkNode {
    header: RiffHeader,
    offset: u64,
    kind: ChunkKind,
}

impl ChunkKind {
    /// The view, by recursion over the tree.
    pub open spec fn model(self) -> KindView
        decreases self,
    {
        match self {
            ChunkKind::Container { form_type, children } => KindView::Container {
                form_type: form_type@,
                children: Seq::new(
                    children@.len(),
                    |i: int|
                        if 0 <= i < children@.len() {
                            children@[i].model()
                        } else {
                            arbitrary()
                        },
                ),
            },
            ChunkKind::Leaf { payload_offset, payload_length } => KindView::Leaf {
                payload_offset: payload_offset as nat,
                payload_length: payload_length as nat,
            },
        }
    }
}

impl ChunkNode {
    /// The view, by recursion over the tree.
    pub closed spec fn model(self) -> ChunkView
        decreases self,
    {
        ChunkView { header: self.header@, offset: self.offset as nat, kind: self.kind.model() }
    }
}

impl View for ChunkKind {
    type V = KindView;

    open spec fn view(&self) -> KindView {
        self.model()
    }
}

impl View for ChunkNode {
    type V = ChunkView;

    open spec fn view(&self) -> ChunkView {
        self.model()
    }
}

/// The views of a row of chunks, in the same order.
pub open spec fn forest_view(nodes: Seq<ChunkNode>) -> Seq<ChunkView> {
    Seq::new(nodes.len(), |i: int| nodes[i]@)
}

/// A container's view holds its form type and the views of its children.
pub proof fn lemma_container_view(form_type: [u8; 4], children: Vec<ChunkNode>)
    ensures
        (ChunkKind::Container { form_type, children })@ == (KindView::Container {
            form_type: form_type@,
            children: forest_view(children@),
        }),
{
    let kind = ChunkKind::Container { form_type, children };
    assert(kind@ is Container);
    assert(kind@->children.len() == children@.len());
    assert forall|i: int| 0 <= i < children@.len() implies kind@->children[i] == forest_view(children@)[i] by {
    }
    assert(kind@->children =~= forest_view(children@));
}

impl ChunkNode {
    /// A node made of its three parts.
    pub(crate) fn new(header: RiffHeader, offset: u64, kind: ChunkKind) -> (node: ChunkNode)
        ensures
            node@ == (ChunkView { header: header@, offset: offset as nat, kind: kind@ }),
    {
        ChunkNode { header, offset, kind }
    }

    /// The header that the chunk starts with.
    pub fn header(&self) -> (header: &RiffHeader)
        ensures
            header@ == self@.header,
    {
        &self.header
    }

    /// Absolute offset of the first byte of the chunk's header in the
    /// stream.
    pub fn offset(&self) -> (offset: u64)
        ensures
            offset == self@.offset,
    {
        self.offset
    }

    /// What the chunk holds: children or a payload span.
    pub fn kind(&self) -> (kind: &ChunkKind)
        ensures
            kind@ == self@.kind,
    {
        &self.kind
    }

    /// True for a container, false for a leaf.
    pub fn is_container(&self) -> (container: bool)
        ensures
            container == (self@.kind is Container),
    {
        match &self.kind {
            ChunkKind::Container { .. } => true,
            ChunkKind::Leaf { .. } => false,
        }
    }

    /// For a leaf, the absolute offset and the length of its payload in
    /// the stream; `None` for a container.
    pub fn payload_span(&self) -> (span: Option<(u64, u32)>)
        ensures
            match span {
                Some((start, length)) => self@.kind == (KindView::Leaf {
                    payload_offset: start as nat,
                    payload_length: length as nat,
                }),
                None => self@.kind is Container,
            },
    {
        match &self.kind {
            ChunkKind::Container { .. } => None,
            ChunkKind::Leaf { payload_offset, payload_length } => Some(
                (*payload_offset, *payload_length),
            ),
        }
    }
}

} // verus!
