//! When the grammar refuses a stream: a chunk that claims more than its
//! region has left, and a header that the stream ends in.

use crate::error::{ErrorKind, ErrorView};
use crate::format::grammar::{chunk_at, chunk_span, chunks_in, room_after, violation};
use crate::format::header::header_at;
use crate::format::node::ChunkView;
use vstd::prelude::*;

verus! {

/// The bytes that the first `count` chunks of a region take up, if each of
/// them reads without a violation; `None` if one of them does not, or if
/// the region ends before `count` chunks are read.
pub open spec fn consumed_by(
    data: Seq<u8>,
    at: nat,
    region: nat,
    base: nat,
    parent: Seq<u8>,
    depth: nat,
    count: nat,
) -> Option<nat>
    decreases count,
{
    if count == 0 {
        Some(0)
    } else if region == 0 {
        None
    } else {
        let span = chunk_span(header_at(data, at).length, region);
        match chunk_at(data, at, region, base, parent, depth) {
            Err(_) => None,
            Ok(_) => match consumed_by(
                data,
                at + span,
                room_after(region, span),
                base + span,
                parent,
                depth,
                (count - 1) as nat,
            ) {
                None => None,
                Some(more) => Some(span + more),
            },
        }
    }
}

/// The chunks read so far never take up more than the region.
pub proof fn lemma_consumed_within_region(
    data: Seq<u8>,
    at: nat,
    region: nat,
    base: nat,
    parent: Seq<u8>,
    depth: nat,
    count: nat,
)
    requires
        consumed_by(data, at, region, base, parent, depth, count) is Some,
    ensures
        consumed_by(data, at, region, base, parent, depth, count)->Some_0 <= region,
    decreases count,
{
    if count > 0 {
        let span = chunk_span(header_at(data, at).length, region);
        lemma_consumed_within_region(
            data,
            at + span,
            room_after(region, span),
            base + span,
            parent,
            depth,
            (count - 1) as nat,
        );
    }
}

/// Where a chunk is refused after `count` good ones, the region is refused
/// with the same error.
pub proof fn lemma_first_violation_wins(
    data: Seq<u8>,
    at: nat,
    region: nat,
    base: nat,
    parent: Seq<u8>,
    depth: nat,
    count: nat,
)
    requires
        consumed_by(data, at, region, base, parent, depth, count) matches Some(consumed)
            && consumed < region && chunk_at(
            data,
            at + consumed,
            (region - consumed) as nat,
            base + consumed,
            parent,
            depth,
        ) is Err,
    ensures
        ({
            let consumed = consumed_by(data, at, region, base, parent, depth, count)->Some_0;
            chunks_in(data, at, region, base, parent, depth) == Err::<Seq<ChunkView>, ErrorView>(
                chunk_at(
                    data,
                    at + consumed,
                    (region - consumed) as nat,
                    base + consumed,
                    parent,
                    depth,
                )->Err_0,
            )
        }),
    decreases count,
{
    if count > 0 {
        let span = chunk_span(header_at(data, at).length, region);
        lemma_first_violation_wins(
            data,
            at + span,
            room_after(region, span),
            base + span,
            parent,
            depth,
            (count - 1) as nat,
        );
    }
}

/// A header whose declared length reaches beyond the end of the region is
/// refused as an overflow at that header, whatever the size of the region
/// and however many chunks were read before it.
pub proof fn lemma_overflow_is_refused(
    data: Seq<u8>,
    at: nat,
    region: nat,
    base: nat,
    parent: Seq<u8>,
    depth: nat,
    count: nat,
)
    requires
        consumed_by(data, at, region, base, parent, depth, count) matches Some(consumed)
            && consumed < region && data.len() - (at + consumed) >= 8 && consumed + 8 + header_at(
            data,
            at + consumed,
        ).length > region,
    ensures
        chunks_in(data, at, region, base, parent, depth) == Err::<Seq<ChunkView>, ErrorView>(
            violation(
                ErrorKind::ChunkOverflow,
                base + consumed_by(data, at, region, base, parent, depth, count)->Some_0,
                parent,
            ),
        ),
{
    lemma_first_violation_wins(data, at, region, base, parent, depth, count);
}

/// A stream that ends less than eight bytes into a header is refused as
/// truncated at that header, however many chunks were read before it.
pub proof fn lemma_truncated_header_is_refused(
    data: Seq<u8>,
    at: nat,
    region: nat,
    base: nat,
    parent: Seq<u8>,
    depth: nat,
    count: nat,
)
    requires
        consumed_by(data, at, region, base, parent, depth, count) matches Some(consumed)
            && consumed < region && data.len() - (at + consumed) < 8,
    ensures
        chunks_in(data, at, region, base, parent, depth) == Err::<Seq<ChunkView>, ErrorView>(
            violation(
                ErrorKind::TruncatedInput,
                base + consumed_by(data, at, region, base, parent, depth, count)->Some_0,
                parent,
            ),
        ),
{
    lemma_first_violation_wins(data, at, region, base, parent, depth, count);
}

} // verus!
