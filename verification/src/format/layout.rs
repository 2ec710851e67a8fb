//! What holds of every tree that the grammar yields: the chunks tile their
//! region, the children of a container fill it, siblings sit one padded
//! chunk apart, and nesting stays within the bound.

use crate::format::grammar::{chunk_at, chunk_span, chunks_in, room_after};
use crate::format::header::{header_at, is_container_tag};
use crate::format::node::{ChunkView, KindView};
use vstd::prelude::*;

verus! {

/// `nodes` are laid out back to back from offset `base` and use up exactly
/// `region` bytes, every container among them holds a form type and
/// children that use up the rest of its declared length in the same way,
/// every leaf points at the payload behind its header, and no container
/// sits more than `depth` levels deep.
pub open spec fn well_formed(nodes: Seq<ChunkView>, base: nat, region: nat, depth: nat) -> bool
    decreases region,
{
    if nodes.len() == 0 {
        region == 0
    } else {
        let first = nodes[0];
        let length = first.header.length;
        let span = chunk_span(length, region);
        &&& first.offset == base
        &&& first.header.tag.len() == 4
        &&& length <= u32::MAX
        &&& 8 + length <= region
        &&& match first.kind {
            KindView::Container { form_type, children } => {
                &&& is_container_tag(first.header.tag)
                &&& form_type.len() == 4
                &&& length >= 4
                &&& depth > 0
                &&& well_formed(children, base + 12, (length - 4) as nat, (depth - 1) as nat)
            },
            KindView::Leaf { payload_offset, payload_length } => {
                &&& !is_container_tag(first.header.tag)
                &&& payload_offset == base + 8
                &&& payload_length == length
            },
        }
        &&& well_formed(nodes.drop_first(), base + span, room_after(region, span), depth)
    }
}

/// The bytes that `nodes` take up when they are laid out one after the
/// other in a region of `region` bytes: for each of them its header, its
/// declared length and its pad byte.
pub open spec fn spans_sum(nodes: Seq<ChunkView>, region: nat) -> nat
    decreases nodes.len(),
{
    if nodes.len() == 0 {
        0
    } else {
        let span = chunk_span(nodes[0].header.length, region);
        span + spans_sum(nodes.drop_first(), room_after(region, span))
    }
}

/// The number of container levels in `nodes`: zero for a row of leaves, one
/// more than its children for a container.
pub open spec fn height(nodes: Seq<ChunkView>) -> nat
    decreases nodes,
{
    if nodes.len() == 0 {
        0
    } else {
        let first: nat = match nodes[0].kind {
            KindView::Container { form_type, children } => 1 + height(children),
            KindView::Leaf { .. } => 0,
        };
        let rest = height(nodes.drop_first());
        if first >= rest {
            first
        } else {
            rest
        }
    }
}

/// Every tree that the grammar yields is well formed.
pub proof fn lemma_parsed_is_well_formed(
    data: Seq<u8>,
    at: nat,
    region: nat,
    base: nat,
    parent: Seq<u8>,
    depth: nat,
)
    requires
        chunks_in(data, at, region, base, parent, depth) is Ok,
    ensures
        well_formed(chunks_in(data, at, region, base, parent, depth)->Ok_0, base, region, depth),
    decreases region,
{
    if region > 0 {
        let nodes = chunks_in(data, at, region, base, parent, depth)->Ok_0;
        let header = header_at(data, at);
        let span = chunk_span(header.length, region);
        let first = chunk_at(data, at, region, base, parent, depth)->Ok_0;
        let rest = chunks_in(data, at + span, room_after(region, span), base + span, parent, depth);
        assert(nodes =~= seq![first] + rest->Ok_0);
        assert(nodes[0] == first);
        assert(nodes.drop_first() =~= rest->Ok_0);
        if is_container_tag(header.tag) {
            lemma_parsed_is_well_formed(
                data,
                at + 12,
                (header.length - 4) as nat,
                base + 12,
                header.tag,
                (depth - 1) as nat,
            );
        }
        lemma_parsed_is_well_formed(
            data,
            at + span,
            room_after(region, span),
            base + span,
            parent,
            depth,
        );
    }
}

/// Well-formed chunks add up to their region: the sum over them of header,
/// declared length and pad byte is the size of the region.
pub proof fn lemma_spans_fill_region(nodes: Seq<ChunkView>, base: nat, region: nat, depth: nat)
    requires
        well_formed(nodes, base, region, depth),
    ensures
        spans_sum(nodes, region) == region,
    decreases nodes.len(),
{
    if nodes.len() > 0 {
        let span = chunk_span(nodes[0].header.length, region);
        lemma_spans_fill_region(nodes.drop_first(), base + span, room_after(region, span), depth);
    }
}

/// The chunks that the grammar finds in a region add up to the region.
pub proof fn lemma_chunks_fill_region(
    data: Seq<u8>,
    at: nat,
    region: nat,
    base: nat,
    parent: Seq<u8>,
    depth: nat,
)
    requires
        chunks_in(data, at, region, base, parent, depth) is Ok,
    ensures
        spans_sum(chunks_in(data, at, region, base, parent, depth)->Ok_0, region) == region,
{
    lemma_parsed_is_well_formed(data, at, region, base, parent, depth);
    lemma_spans_fill_region(
        chunks_in(data, at, region, base, parent, depth)->Ok_0,
        base,
        region,
        depth,
    );
}

/// The children of a container that the grammar yields add up to the
/// container's declared length less the four bytes of its form type.
pub proof fn lemma_children_fill_container(
    data: Seq<u8>,
    at: nat,
    room: nat,
    offset: nat,
    parent: Seq<u8>,
    depth: nat,
)
    requires
        chunk_at(data, at, room, offset, parent, depth) matches Ok(node) && node.kind is Container,
    ensures
        ({
            let node = chunk_at(data, at, room, offset, parent, depth)->Ok_0;
            &&& node.header.length >= 4
            &&& spans_sum(node.kind->children, (node.header.length - 4) as nat)
                == node.header.length - 4
        }),
{
    let header = header_at(data, at);
    lemma_chunks_fill_region(
        data,
        at + 12,
        (header.length - 4) as nat,
        offset + 12,
        header.tag,
        (depth - 1) as nat,
    );
}

/// In a well-formed row every container is itself filled by its children,
/// at every level.
pub proof fn lemma_nested_containers_filled(
    nodes: Seq<ChunkView>,
    base: nat,
    region: nat,
    depth: nat,
    i: int,
)
    requires
        well_formed(nodes, base, region, depth),
        0 <= i < nodes.len(),
        nodes[i].kind is Container,
    ensures
        nodes[i].header.length >= 4,
        depth > 0,
        well_formed(
            nodes[i].kind->children,
            nodes[i].offset + 12,
            (nodes[i].header.length - 4) as nat,
            (depth - 1) as nat,
        ),
        spans_sum(nodes[i].kind->children, (nodes[i].header.length - 4) as nat)
            == nodes[i].header.length - 4,
    decreases i,
{
    let span = chunk_span(nodes[0].header.length, region);
    if i == 0 {
        lemma_spans_fill_region(
            nodes[0].kind->children,
            base + 12,
            (nodes[0].header.length - 4) as nat,
            (depth - 1) as nat,
        );
    } else {
        lemma_nested_containers_filled(
            nodes.drop_first(),
            base + span,
            room_after(region, span),
            depth,
            i - 1,
        );
    }
}

/// Between two siblings lies exactly one padded chunk: the later one
/// starts where header, payload and, after an odd payload, one pad byte of
/// the earlier one end.
pub proof fn lemma_sibling_offsets(
    nodes: Seq<ChunkView>,
    base: nat,
    region: nat,
    depth: nat,
    i: int,
)
    requires
        well_formed(nodes, base, region, depth),
        0 <= i,
        i + 1 < nodes.len(),
    ensures
        nodes[i + 1].offset == nodes[i].offset + 8 + nodes[i].header.length
            + nodes[i].header.length % 2,
    decreases i,
{
    let span = chunk_span(nodes[0].header.length, region);
    let rest = nodes.drop_first();
    assert(well_formed(rest, base + span, room_after(region, span), depth));
    if i == 0 {
        assert(rest[0] == nodes[1]);
        assert(rest[0].offset == base + span);
        assert(room_after(region, span) > 0);
    } else {
        lemma_sibling_offsets(rest, base + span, room_after(region, span), depth, i - 1);
        assert(rest[i - 1] == nodes[i]);
        assert(rest[i] == nodes[i + 1]);
    }
}

/// Well-formed chunks never nest more than `depth` container levels.
pub proof fn lemma_height_within_bound(nodes: Seq<ChunkView>, base: nat, region: nat, depth: nat)
    requires
        well_formed(nodes, base, region, depth),
    ensures
        height(nodes) <= depth,
    decreases region,
{
    if nodes.len() > 0 {
        let length = nodes[0].header.length;
        let span = chunk_span(length, region);
        match nodes[0].kind {
            KindView::Container { form_type, children } => {
                lemma_height_within_bound(
                    children,
                    base + 12,
                    (length - 4) as nat,
                    (depth - 1) as nat,
                );
            },
            KindView::Leaf { .. } => {},
        }
        lemma_height_within_bound(nodes.drop_first(), base + span, room_after(region, span), depth);
    }
}

/// The grammar never yields a tree that nests more deeply than the bound
/// it was given.
pub proof fn lemma_parsed_height_within_bound(
    data: Seq<u8>,
    at: nat,
    region: nat,
    base: nat,
    parent: Seq<u8>,
    depth: nat,
)
    requires
        chunks_in(data, at, region, base, parent, depth) is Ok,
    ensures
        height(chunks_in(data, at, region, base, parent, depth)->Ok_0) <= depth,
{
    lemma_parsed_is_well_formed(data, at, region, base, parent, depth);
    lemma_height_within_bound(
        chunks_in(data, at, region, base, parent, depth)->Ok_0,
        base,
        region,
        depth,
    );
}

} // verus!
