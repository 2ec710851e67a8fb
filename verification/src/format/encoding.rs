//! Writing a tree out and reading it back: the bytes that a tree is
//! written as are read as that tree, or refused where it nests too deeply.

use crate::error::{ErrorKind, ErrorView};
use crate::format::endian::{le_bytes, lemma_le_bytes_read_back};
use crate::format::grammar::{chunk_at, chunk_span, chunks_in, room_after};
use crate::format::header::{header_at, is_container_tag, tag_at, HeaderView};
use crate::format::node::{ChunkView, KindView};
use vstd::prelude::*;

verus! {

/// A chunk as its writer sees it: a leaf with its payload bytes, or a
/// container with its form type and the chunks in it.
pub enum Outline {
    Leaf { tag: Seq<u8>, payload: Seq<u8> },
    Container { tag: Seq<u8>, form_type: Seq<u8>, children: Seq<Outline> },
}

impl Outline {
    /// The four tag bytes.
    pub open spec fn tag(self) -> Seq<u8> {
        match self {
            Outline::Leaf { tag, .. } => tag,
            Outline::Container { tag, .. } => tag,
        }
    }
}

/// The payload of a chunk: the bytes of a leaf, or the form type of a
/// container followed by its children as they are written.
pub open spec fn payload_of(outline: Outline) -> Seq<u8>
    decreases outline, 0int,
{
    match outline {
        Outline::Leaf { tag, payload } => payload,
        Outline::Container { tag, form_type, children } => form_type + encode_all(children),
    }
}

/// The zero pad byte that follows an odd payload.
pub open spec fn pad_bytes(length: nat) -> Seq<u8> {
    if length % 2 == 1 {
        seq![0u8]
    } else {
        Seq::empty()
    }
}

/// A chunk as it is written: tag, little-endian payload length, payload,
/// and a zero byte after an odd payload.
pub open spec fn encode(outline: Outline) -> Seq<u8>
    decreases outline, 1int,
{
    let payload = payload_of(outline);
    outline.tag() + le_bytes(payload.len()) + payload + pad_bytes(payload.len())
}

/// A row of chunks as it is written: one after the other.
pub open spec fn encode_all(outlines: Seq<Outline>) -> Seq<u8>
    decreases outlines, 2int,
{
    if outlines.len() == 0 {
        Seq::empty()
    } else {
        encode(outlines[0]) + encode_all(outlines.drop_first())
    }
}

/// The node that a written chunk is to be read as when its first byte
/// stands at `offset`.
pub open spec fn tree_of(outline: Outline, offset: nat) -> ChunkView
    decreases outline, 1int,
{
    let header = HeaderView { tag: outline.tag(), length: payload_of(outline).len() };
    match outline {
        Outline::Leaf { tag, payload } => ChunkView {
            header,
            offset,
            kind: KindView::Leaf { payload_offset: offset + 8, payload_length: payload.len() },
        },
        Outline::Container { tag, form_type, children } => ChunkView {
            header,
            offset,
            kind: KindView::Container { form_type, children: trees_of(children, offset + 12) },
        },
    }
}

/// The nodes that a written row of chunks is to be read as when its first
/// byte stands at `base`.
pub open spec fn trees_of(outlines: Seq<Outline>, base: nat) -> Seq<ChunkView>
    decreases outlines, 2int,
{
    if outlines.len() == 0 {
        Seq::empty()
    } else {
        seq![tree_of(outlines[0], base)] + trees_of(
            outlines.drop_first(),
            base + encode(outlines[0]).len(),
        )
    }
}

/// What a chunk must have to be written: a tag of four bytes, one of the
/// two container tags on a container and on nothing else, a form type of
/// four bytes, and a payload short enough for a 32-bit length, in itself
/// and in every chunk nested in it.
pub open spec fn writable_chunk(outline: Outline) -> bool
    decreases outline, 0int,
{
    &&& outline.tag().len() == 4
    &&& payload_of(outline).len() <= u32::MAX
    &&& match outline {
        Outline::Leaf { tag, payload } => !is_container_tag(tag),
        Outline::Container { tag, form_type, children } => {
            &&& is_container_tag(tag)
            &&& form_type.len() == 4
            &&& writable(children)
        },
    }
}

/// Every chunk of the row can be written.
pub open spec fn writable(outlines: Seq<Outline>) -> bool
    decreases outlines, 1int,
{
    outlines.len() > 0 ==> writable_chunk(outlines[0]) && writable(outlines.drop_first())
}

/// The number of container levels in a chunk: zero for a leaf, one more
/// than its children for a container.
pub open spec fn nesting_of(outline: Outline) -> nat
    decreases outline, 0int,
{
    match outline {
        Outline::Leaf { .. } => 0,
        Outline::Container { tag, form_type, children } => 1 + nesting(children),
    }
}

/// The number of container levels in a row of chunks: that of its deepest
/// chunk.
pub open spec fn nesting(outlines: Seq<Outline>) -> nat
    decreases outlines, 1int,
{
    if outlines.len() == 0 {
        0
    } else {
        let first = nesting_of(outlines[0]);
        let rest = nesting(outlines.drop_first());
        if first >= rest {
            first
        } else {
            rest
        }
    }
}

/// `data` holds `bytes` from index `at` on.
pub open spec fn holds_at(data: Seq<u8>, at: nat, bytes: Seq<u8>) -> bool {
    at + bytes.len() <= data.len() && data.subrange(at as int, at as int + bytes.len()) == bytes
}

/// A written chunk is its eight header bytes, its payload and its pad.
pub proof fn lemma_encode_len(outline: Outline)
    requires
        outline.tag().len() == 4,
    ensures
        encode(outline).len() == 8 + payload_of(outline).len() + payload_of(outline).len() % 2,
{
}

/// Where a written chunk stands in `data`, its header reads as the tag and
/// the payload length that were written, all of its bytes are there, and
/// for a container the form type and the written children follow.
proof fn lemma_header_reads_back(data: Seq<u8>, at: nat, outline: Outline)
    requires
        writable_chunk(outline),
        holds_at(data, at, encode(outline)),
    ensures
        header_at(data, at) == (HeaderView {
            tag: outline.tag(),
            length: payload_of(outline).len(),
        }),
        encode(outline).len() == 8 + payload_of(outline).len() + payload_of(outline).len() % 2,
        at + encode(outline).len() <= data.len(),
        outline matches Outline::Container { tag, form_type, children } ==> {
            &&& payload_of(outline).len() == 4 + encode_all(children).len()
            &&& tag_at(data, at + 8) == form_type
            &&& holds_at(data, at + 12, encode_all(children))
        },
{
    let written = encode(outline);
    let payload = payload_of(outline);
    lemma_le_bytes_read_back(payload.len());
    assert forall|j: int| 0 <= j < written.len() implies data[at + j] == written[j] by {
        assert(data.subrange(at as int, at as int + written.len())[j] == data[at + j]);
    }
    assert(tag_at(data, at) =~= outline.tag()) by {
        assert forall|k: int| 0 <= k < 4 implies tag_at(data, at)[k] == outline.tag()[k] by {
            assert(written[k] == outline.tag()[k]);
        }
    }
    assert(written[4] == le_bytes(payload.len())[0]);
    assert(written[5] == le_bytes(payload.len())[1]);
    assert(written[6] == le_bytes(payload.len())[2]);
    assert(written[7] == le_bytes(payload.len())[3]);
    match outline {
        Outline::Leaf { .. } => {},
        Outline::Container { tag, form_type, children } => {
            let inner = encode_all(children);
            assert(tag_at(data, at + 8) =~= form_type) by {
                assert forall|k: int| 0 <= k < 4 implies tag_at(data, at + 8)[k]
                    == form_type[k] by {
                    assert(written[8 + k] == payload[k]);
                }
            }
            assert(data.subrange(at as int + 12, at as int + 12 + inner.len()) =~= inner) by {
                assert forall|k: int| 0 <= k < inner.len() implies data[at + 12 + k]
                    == inner[k] by {
                    assert(written[12 + k] == payload[4 + k]);
                }
            }
        },
    }
}

/// Where a written row stands in `data`, its first chunk stands at the
/// start and the rest of the row right behind it.
proof fn lemma_row_splits(data: Seq<u8>, at: nat, outlines: Seq<Outline>)
    requires
        outlines.len() > 0,
        holds_at(data, at, encode_all(outlines)),
    ensures
        encode_all(outlines).len() == encode(outlines[0]).len() + encode_all(
            outlines.drop_first(),
        ).len(),
        holds_at(data, at, encode(outlines[0])),
        holds_at(data, at + encode(outlines[0]).len(), encode_all(outlines.drop_first())),
{
    let first = encode(outlines[0]);
    let rest = encode_all(outlines.drop_first());
    let row = encode_all(outlines);
    assert(row == first + rest);
    assert forall|j: int| 0 <= j < row.len() implies data[at + j] == row[j] by {
        assert(data.subrange(at as int, at as int + row.len())[j] == data[at + j]);
    }
    assert(data.subrange(at as int, at as int + first.len()) =~= first) by {
        assert forall|k: int| 0 <= k < first.len() implies data[at + k] == first[k] by {
            assert(row[k] == first[k]);
        }
    }
    assert(data.subrange(at as int + first.len(), at as int + first.len() + rest.len()) =~= rest) by {
        assert forall|k: int| 0 <= k < rest.len() implies data[at + first.len() + k]
            == rest[k] by {
            assert(row[first.len() + k] == rest[k]);
        }
    }
}

/// A written chunk that nests no deeper than the bound is read as the
/// chunk that was written, wherever it stands and whatever follows it in
/// its region.
pub proof fn lemma_chunk_reads_back(
    data: Seq<u8>,
    at: nat,
    outline: Outline,
    room: nat,
    offset: nat,
    parent: Seq<u8>,
    depth: nat,
)
    requires
        writable_chunk(outline),
        nesting_of(outline) <= depth,
        holds_at(data, at, encode(outline)),
        encode(outline).len() <= room,
    ensures
        chunk_at(data, at, room, offset, parent, depth) == Ok::<ChunkView, ErrorView>(
            tree_of(outline, offset),
        ),
        chunk_span(header_at(data, at).length, room) == encode(outline).len(),
    decreases outline, 0int,
{
    lemma_header_reads_back(data, at, outline);
    match outline {
        Outline::Leaf { .. } => {},
        Outline::Container { tag, form_type, children } => {
            lemma_row_reads_back(data, at + 12, children, offset + 12, tag, (depth - 1) as nat);
        },
    }
}

/// A written row of chunks that nests no deeper than the bound is read as
/// the row that was written, wherever it stands.
pub proof fn lemma_row_reads_back(
    data: Seq<u8>,
    at: nat,
    outlines: Seq<Outline>,
    base: nat,
    parent: Seq<u8>,
    depth: nat,
)
    requires
        writable(outlines),
        nesting(outlines) <= depth,
        holds_at(data, at, encode_all(outlines)),
    ensures
        chunks_in(data, at, encode_all(outlines).len(), base, parent, depth) == Ok::<
            Seq<ChunkView>,
            ErrorView,
        >(trees_of(outlines, base)),
    decreases outlines, 1int,
{
    if outlines.len() > 0 {
        let first = encode(outlines[0]);
        let region = encode_all(outlines).len();
        assert(writable_chunk(outlines[0]) && writable(outlines.drop_first()));
        lemma_row_splits(data, at, outlines);
        lemma_encode_len(outlines[0]);
        lemma_chunk_reads_back(data, at, outlines[0], region, base, parent, depth);
        lemma_row_reads_back(
            data,
            at + first.len(),
            outlines.drop_first(),
            base + first.len(),
            parent,
            depth,
        );
        assert(room_after(region, first.len()) == encode_all(outlines.drop_first()).len());
    }
}

/// Writing a tree and reading the bytes back gives the same tree: the same
/// shape, tags, form types, offsets and payload spans.
pub proof fn lemma_round_trip(outlines: Seq<Outline>, base: nat, parent: Seq<u8>, depth: nat)
    requires
        writable(outlines),
        nesting(outlines) <= depth,
    ensures
        chunks_in(
            encode_all(outlines),
            0,
            encode_all(outlines).len(),
            base,
            parent,
            depth,
        ) == Ok::<Seq<ChunkView>, ErrorView>(trees_of(outlines, base)),
{
    let data = encode_all(outlines);
    assert(data.subrange(0, data.len() as int) =~= data);
    lemma_row_reads_back(data, 0, outlines, base, parent, depth);
}

/// A written chunk that nests deeper than the bound is refused for its
/// nesting.
pub proof fn lemma_chunk_too_deep(
    data: Seq<u8>,
    at: nat,
    outline: Outline,
    room: nat,
    offset: nat,
    parent: Seq<u8>,
    depth: nat,
)
    requires
        writable_chunk(outline),
        nesting_of(outline) > depth,
        holds_at(data, at, encode(outline)),
        encode(outline).len() <= room,
    ensures
        chunk_at(data, at, room, offset, parent, depth) matches Err(error) && error.kind
            == ErrorKind::RecursionLimitExceeded,
    decreases outline, 0int,
{
    lemma_header_reads_back(data, at, outline);
    match outline {
        Outline::Leaf { .. } => {},
        Outline::Container { tag, form_type, children } => {
            if depth > 0 {
                lemma_row_too_deep(data, at + 12, children, offset + 12, tag, (depth - 1) as nat);
            }
        },
    }
}

/// A written row of chunks that nests deeper than the bound is refused
/// for its nesting.
pub proof fn lemma_row_too_deep(
    data: Seq<u8>,
    at: nat,
    outlines: Seq<Outline>,
    base: nat,
    parent: Seq<u8>,
    depth: nat,
)
    requires
        writable(outlines),
        nesting(outlines) > depth,
        holds_at(data, at, encode_all(outlines)),
    ensures
        chunks_in(data, at, encode_all(outlines).len(), base, parent, depth) matches Err(error)
            && error.kind == ErrorKind::RecursionLimitExceeded,
    decreases outlines, 1int,
{
    let first = encode(outlines[0]);
    let region = encode_all(outlines).len();
    assert(outlines.len() > 0);
    assert(writable_chunk(outlines[0]) && writable(outlines.drop_first()));
    lemma_row_splits(data, at, outlines);
    lemma_encode_len(outlines[0]);
    if nesting_of(outlines[0]) > depth {
        lemma_chunk_too_deep(data, at, outlines[0], region, base, parent, depth);
    } else {
        lemma_chunk_reads_back(data, at, outlines[0], region, base, parent, depth);
        lemma_row_too_deep(
            data,
            at + first.len(),
            outlines.drop_first(),
            base + first.len(),
            parent,
            depth,
        );
        assert(room_after(region, first.len()) == encode_all(outlines.drop_first()).len());
    }
}

/// Writing a tree that nests deeper than the bound and reading the bytes
/// back is refused for its nesting, however deep the tree is.
pub proof fn lemma_deep_nesting_is_refused(
    outlines: Seq<Outline>,
    base: nat,
    parent: Seq<u8>,
    depth: nat,
)
    requires
        writable(outlines),
        nesting(outlines) > depth,
    ensures
        chunks_in(encode_all(outlines), 0, encode_all(outlines).len(), base, parent, depth)
            matches Err(error) && error.kind == ErrorKind::RecursionLimitExceeded,
{
    let data = encode_all(outlines);
    assert(data.subrange(0, data.len() as int) =~= data);
    lemma_row_too_deep(data, 0, outlines, base, parent, depth);
}

} // verus!
