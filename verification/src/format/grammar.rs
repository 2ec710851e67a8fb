//! The grammar of a chunk stream, as a function from bytes to the tree
//! they spell out or to the first violation in them.

use crate::error::{ErrorKind, ErrorView};
use crate::format::header::{header_at, is_container_tag, tag_at};
use crate::format::node::{ChunkView, KindView};
use vstd::prelude::*;

verus! {

/// The number of pad bytes that follow a payload of `length` bytes in a
/// region that has `room` bytes left at the chunk's header: one after an
/// odd payload, unless the chunk ends exactly where the region ends.
pub open spec fn pad_after(length: nat, room: nat) -> nat {
    if length % 2 == 1 && 8 + length < room {
        1
    } else {
        0
    }
}

/// The bytes that a chunk takes up inside its region: header, payload and
/// pad byte.
pub open spec fn chunk_span(length: nat, room: nat) -> nat {
    8 + length + pad_after(length, room)
}

/// What is left of `room` bytes once `span` of them are used.
pub open spec fn room_after(room: nat, span: nat) -> nat {
    if span < room {
        (room - span) as nat
    } else {
        0
    }
}

/// The error of the given kind, found at the chunk at `offset` among the
/// children of `parent`.
pub open spec fn violation(kind: ErrorKind, offset: nat, parent: Seq<u8>) -> ErrorView {
    ErrorView { kind, offset, parent }
}

/// The chunk that starts at index `at` of `data`, in a region that has
/// `room` bytes left, or the first violation met while reading it.
///
/// `offset` is the absolute offset that index `at` stands for, `parent`
/// the tag of the enclosing container and `depth` the number of container
/// levels that may still be entered.
///
/// The checks come in stream order: the header must be there, the declared
/// length must fit in the room, a container must have room for its form
/// type and the form type must be there, the nesting bound must allow the
/// descent, the children must fill the rest of the container, and last the
/// payload and the pad byte must be there.
pub open spec fn chunk_at(
    data: Seq<u8>,
    at: nat,
    room: nat,
    offset: nat,
    parent: Seq<u8>,
    depth: nat,
) -> Result<ChunkView, ErrorView>
    decreases room, 0int,
{
    let header = header_at(data, at);
    let span = chunk_span(header.length, room);
    if data.len() - at < 8 {
        Err(violation(ErrorKind::TruncatedInput, offset, parent))
    } else if 8 + header.length > room {
        Err(violation(ErrorKind::ChunkOverflow, offset, parent))
    } else if is_container_tag(header.tag) {
        if header.length < 4 {
            Err(violation(ErrorKind::ChunkOverflow, offset, parent))
        } else if data.len() - at < 12 {
            Err(violation(ErrorKind::TruncatedInput, offset, parent))
        } else if depth == 0 {
            Err(violation(ErrorKind::RecursionLimitExceeded, offset, parent))
        } else {
            match chunks_in(
                data,
                at + 12,
                (header.length - 4) as nat,
                offset + 12,
                header.tag,
                (depth - 1) as nat,
            ) {
                Err(error) => Err(error),
                Ok(children) => if data.len() - at < span {
                    Err(violation(ErrorKind::TruncatedInput, offset, parent))
                } else {
                    Ok(
                        ChunkView {
                            header,
                            offset,
                            kind: KindView::Container {
                                form_type: tag_at(data, at + 8),
                                children,
                            },
                        },
                    )
                },
            }
        }
    } else if data.len() - at < span {
        Err(violation(ErrorKind::TruncatedInput, offset, parent))
    } else {
        Ok(
            ChunkView {
                header,
                offset,
                kind: KindView::Leaf { payload_offset: offset + 8, payload_length: header.length },
            },
        )
    }
}

/// The chunks that fill the `region` bytes of `data` starting at index
/// `at`, in stream order, or the first violation met on the way, going
/// left to right and into each container before its next sibling.
///
/// `base` is the absolute offset that index `at` stands for.
pub open spec fn chunks_in(
    data: Seq<u8>,
    at: nat,
    region: nat,
    base: nat,
    parent: Seq<u8>,
    depth: nat,
) -> Result<Seq<ChunkView>, ErrorView>
    decreases region, 1int,
{
    if region == 0 {
        Ok(Seq::empty())
    } else {
        let span = chunk_span(header_at(data, at).length, region);
        match chunk_at(data, at, region, base, parent, depth) {
            Err(error) => Err(error),
            Ok(first) => prepend(
                seq![first],
                chunks_in(data, at + span, room_after(region, span), base + span, parent, depth),
            ),
        }
    }
}

/// `rest` with the chunks of `front` put before it, or the error that
/// `rest` is.
pub open spec fn prepend(front: Seq<ChunkView>, rest: Result<Seq<ChunkView>, ErrorView>) -> Result<
    Seq<ChunkView>,
    ErrorView,
> {
    match rest {
        Err(error) => Err(error),
        Ok(chunks) => Ok(front + chunks),
    }
}

} // verus!
