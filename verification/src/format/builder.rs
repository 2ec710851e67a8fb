//! The recursive descent that turns a byte stream into a chunk tree.

use crate::error::{ErrorKind, ErrorView, ParsingError};
use crate::format::cursor::ByteCursor;
use crate::format::grammar::{chunk_at, chunk_span, chunks_in, prepend};
use crate::format::header::{tag_at, RiffHeader};
use crate::format::layout::{lemma_parsed_is_well_formed, well_formed};
use crate::format::node::{forest_view, lemma_container_view, ChunkKind, ChunkNode, ChunkView};
use vstd::prelude::*;

verus! {

/// The nesting bound of a builder made with `new`.
pub const DEFAULT_MAX_DEPTH: usize = 64;

/// Walks a stream of chunks and builds the tree they form. The only thing
/// it holds is the number of container levels it is willing to enter.
#[derive(Clone, Copy, Debug, PartialEq, Eq)]
pub struct ChunkTreeBuilder {
    max_depth: usize,
}

impl ChunkTreeBuilder {
    /// The number of container levels that the builder may enter.
    pub closed spec fn depth(&self) -> nat {
        self.max_depth as nat
    }

    /// A builder that enters up to `DEFAULT_MAX_DEPTH` container levels.
    pub fn new() -> (builder: Self)
        ensures
            builder.depth() == DEFAULT_MAX_DEPTH,
    {
        ChunkTreeBuilder { max_depth: DEFAULT_MAX_DEPTH }
    }

    /// A builder that enters up to `max_depth` container levels. With a
    /// bound of zero every container is refused.
    pub fn with_max_depth(max_depth: usize) -> (builder: Self)
        ensures
            builder.depth() == max_depth,
    {
        ChunkTreeBuilder { max_depth }
    }

    /// The number of container levels that the builder may enter.
    pub fn max_depth(&self) -> (max_depth: usize)
        ensures
            max_depth == self.depth(),
    {
        self.max_depth
    }

    /// Reads the chunks that fill the next `region_size` bytes of `cursor`
    /// and returns them in stream order, each container with its children.
    ///
    /// `base_offset` is the absolute offset that the cursor's position
    /// stands for; `parent_tag` is only carried into errors. On success the
    /// chunks tile the region, every container is filled by its children,
    /// and the cursor has moved past the whole region. On failure the
    /// error is the first violation in stream order, and the cursor has
    /// stopped somewhere at or after its starting point.
    pub fn build_tree(
        &self,
        cursor: &mut ByteCursor<'_>,
        region_size: u64,
        base_offset: u64,
        parent_tag: [u8; 4],
    ) -> (built: Result<Vec<ChunkNode>, ParsingError>)
        requires
            base_offset + region_size <= u64::MAX,
        ensures
            final(cursor)@.bytes == old(cursor)@.bytes,
            match built {
                Ok(nodes) => {
                    &&& chunks_in(
                        old(cursor)@.bytes,
                        old(cursor)@.position,
                        region_size as nat,
                        base_offset as nat,
                        parent_tag@,
                        self.depth(),
                    ) == Ok::<Seq<ChunkView>, ErrorView>(forest_view(nodes@))
                    &&& well_formed(
                        forest_view(nodes@),
                        base_offset as nat,
                        region_size as nat,
                        self.depth(),
                    )
                    &&& final(cursor)@ == old(cursor)@.advance(region_size as int)
                },
                Err(error) => {
                    &&& chunks_in(
                        old(cursor)@.bytes,
                        old(cursor)@.position,
                        region_size as nat,
                        base_offset as nat,
                        parent_tag@,
                        self.depth(),
                    ) == Err::<Seq<ChunkView>, ErrorView>(error@)
                    &&& old(cursor)@.position <= final(cursor)@.position <= old(cursor)@.bytes.len()
                },
            },
        decreases region_size, 1int,
    {
        let ghost start = cursor@;
        let ghost whole = chunks_in(
            start.bytes,
            start.position,
            region_size as nat,
            base_offset as nat,
            parent_tag@,
            self.depth(),
        );
        let mut nodes: Vec<ChunkNode> = Vec::new();
        let mut consumed: u64 = 0;
        proof {
            use_type_invariant(&*cursor);
            assert(forest_view(nodes@) =~= Seq::<ChunkView>::empty());
            if whole is Ok {
                assert(forest_view(nodes@) + whole->Ok_0 =~= whole->Ok_0);
            }
        }
        while consumed < region_size
            invariant
                start == old(cursor)@,
                consumed <= region_size,
                base_offset + region_size <= u64::MAX,
                cursor@ == start.advance(consumed as int),
                start.position + consumed <= start.bytes.len(),
                chunks_in(
                    start.bytes,
                    start.position,
                    region_size as nat,
                    base_offset as nat,
                    parent_tag@,
                    self.depth(),
                ) == prepend(
                    forest_view(nodes@),
                    chunks_in(
                        start.bytes,
                        start.position + consumed as nat,
                        (region_size - consumed) as nat,
                        (base_offset + consumed) as nat,
                        parent_tag@,
                        self.depth(),
                    ),
                ),
            decreases region_size - consumed,
        {
            let room: u64 = region_size - consumed;
            let ghost before = nodes@;
            match self.parse_chunk(cursor, room, base_offset + consumed, parent_tag) {
                Err(error) => {
                    return Err(error);
                },
                Ok(node) => {
                    let span: u64 = span_of(node.header().get_length(), room);
                    proof {
                        use_type_invariant(&*cursor);
                        let rest = chunks_in(
                            start.bytes,
                            start.position + consumed as nat + span as nat,
                            (room - span) as nat,
                            (base_offset + consumed + span) as nat,
                            parent_tag@,
                            self.depth(),
                        );
                        assert(forest_view(before.push(node)) =~= forest_view(before).push(node@));
                        if rest is Ok {
                            assert(forest_view(before) + (seq![node@] + rest->Ok_0) =~= forest_view(
                                before,
                            ).push(node@) + rest->Ok_0);
                        }
                    }
                    nodes.push(node);
                    consumed = consumed + span;
                },
            }
        }
        proof {
            lemma_parsed_is_well_formed(
                start.bytes,
                start.position,
                region_size as nat,
                base_offset as nat,
                parent_tag@,
                self.depth(),
            );
        }
        Ok(nodes)
    }

    /// Reads the one chunk that starts at the cursor, in a region that has
    /// `room` bytes left, together with everything nested in it and the
    /// pad byte that follows it.
    ///
    /// `offset` is the absolute offset that the cursor's position stands
    /// for; `parent_tag` is only carried into errors.
    pub fn parse_chunk(
        &self,
        cursor: &mut ByteCursor<'_>,
        room: u64,
        offset: u64,
        parent_tag: [u8; 4],
    ) -> (parsed: Result<ChunkNode, ParsingError>)
        requires
            offset + room <= u64::MAX,
        ensures
            final(cursor)@.bytes == old(cursor)@.bytes,
            match parsed {
                Ok(node) => {
                    &&& chunk_at(
                        old(cursor)@.bytes,
                        old(cursor)@.position,
                        room as nat,
                        offset as nat,
                        parent_tag@,
                        self.depth(),
                    ) == Ok::<ChunkView, ErrorView>(node@)
                    &&& final(cursor)@ == old(cursor)@.advance(
                        chunk_span(node@.header.length, room as nat) as int,
                    )
                },
                Err(error) => {
                    &&& chunk_at(
                        old(cursor)@.bytes,
                        old(cursor)@.position,
                        room as nat,
                        offset as nat,
                        parent_tag@,
                        self.depth(),
                    ) == Err::<ChunkView, ErrorView>(error@)
                    &&& old(cursor)@.position <= final(cursor)@.position <= old(cursor)@.bytes.len()
                },
            },
        decreases room, 0int,
    {
        let ghost start = cursor@;
        proof {
            use_type_invariant(&*cursor);
        }
        let header = match RiffHeader::parse(cursor, offset, parent_tag) {
            Ok(header) => header,
            Err(error) => {
                return Err(error);
            },
        };
        let length: u32 = header.get_length();
        if 8 + (length as u64) > room {
            return Err(ParsingError::new(ErrorKind::ChunkOverflow, offset, parent_tag));
        }
        let kind = if header.is_container() {
            if length < 4 {
                return Err(ParsingError::new(ErrorKind::ChunkOverflow, offset, parent_tag));
            }
            let form_type: [u8; 4] = match cursor.take(4) {
                Some(raw) => [raw[0], raw[1], raw[2], raw[3]],
                None => {
                    return Err(ParsingError::new(ErrorKind::TruncatedInput, offset, parent_tag));
                },
            };
            if self.max_depth == 0 {
                return Err(
                    ParsingError::new(ErrorKind::RecursionLimitExceeded, offset, parent_tag),
                );
            }
            let inner = ChunkTreeBuilder { max_depth: self.max_depth - 1 };
            let children = match inner.build_tree(
                cursor,
                (length - 4) as u64,
                offset + 12,
                *header.get_name_bytes(),
            ) {
                Ok(children) => children,
                Err(error) => {
                    return Err(error);
                },
            };
            proof {
                lemma_container_view(form_type, children);
                assert(form_type@ =~= tag_at(start.bytes, start.position + 8));
            }
            ChunkKind::Container { form_type, children }
        } else {
            if !cursor.skip(length as u64) {
                return Err(ParsingError::new(ErrorKind::TruncatedInput, offset, parent_tag));
            }
            ChunkKind::Leaf { payload_offset: offset + 8, payload_length: length }
        };
        proof {
            use_type_invariant(&*cursor);
        }
        if length % 2 == 1 && 8 + (length as u64) < room {
            if !cursor.skip(1) {
                return Err(ParsingError::new(ErrorKind::TruncatedInput, offset, parent_tag));
            }
        }
        Ok(ChunkNode::new(header, offset, kind))
    }
}

/// The bytes that a chunk with a payload of `length` bytes takes up in a
/// region that has `room` bytes left.
fn span_of(length: u32, room: u64) -> (span: u64)
    requires
        8 + length <= room,
    ensures
        span == chunk_span(length as nat, room as nat),
        span <= room,
{
    let unpadded: u64 = 8 + (length as u64);
    if length % 2 == 1 && unpadded < room {
        unpadded + 1
    } else {
        unpadded
    }
}

impl Default for ChunkTreeBuilder {
    fn default() -> (builder: Self)
        ensures
            builder.depth() == DEFAULT_MAX_DEPTH,
    {
        ChunkTreeBuilder::new()
    }
}

} // verus!
