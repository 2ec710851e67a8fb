//! Payloads are opaque: what the grammar yields depends on the headers,
//! the form types and the length of the stream, never on the bytes of a
//! leaf's payload or on a pad byte.

use crate::format::grammar::{chunk_at, chunk_span, chunks_in, room_after};
use crate::format::header::{header_at, is_container_tag, tag_at};
use vstd::prelude::*;

verus! {

/// `data` and `other` hold the same `count` bytes from index `at` on, as
/// far as `data` has them.
pub open spec fn same_bytes(data: Seq<u8>, other: Seq<u8>, at: nat, count: nat) -> bool {
    forall|k: int| at <= k < at + count && k < data.len() ==> data[k] == other[k]
}

/// `data` and `other` agree on every byte that belongs to the structure of
/// the region of `region` bytes at index `at`: on each header that fits in
/// the region, on the form type of each container, and, in the same way,
/// on the structure of what each container holds. Nothing is asked of
/// payloads and pad bytes.
pub open spec fn same_structure(data: Seq<u8>, other: Seq<u8>, at: nat, region: nat) -> bool
    decreases region,
{
    let header = header_at(data, at);
    let span = chunk_span(header.length, region);
    region > 0 ==> {
        &&& same_bytes(data, other, at, 8)
        &&& data.len() - at >= 8 && 8 + header.length <= region ==> {
            &&& is_container_tag(header.tag) && header.length >= 4 ==> {
                &&& same_bytes(data, other, at + 8, 4)
                &&& same_structure(data, other, at + 12, (header.length - 4) as nat)
            }
            &&& same_structure(data, other, at + span, room_after(region, span))
        }
    }
}

/// Two streams of the same length that agree on their structure are read
/// alike, whatever their payloads and pad bytes hold.
pub proof fn lemma_payload_is_opaque(
    data: Seq<u8>,
    other: Seq<u8>,
    at: nat,
    region: nat,
    base: nat,
    parent: Seq<u8>,
    depth: nat,
)
    requires
        data.len() == other.len(),
        same_structure(data, other, at, region),
    ensures
        chunks_in(data, at, region, base, parent, depth) == chunks_in(
            other,
            at,
            region,
            base,
            parent,
            depth,
        ),
    decreases region,
{
    if region > 0 {
        let header = header_at(data, at);
        let span = chunk_span(header.length, region);
        if data.len() - at >= 8 {
            assert(tag_at(data, at) =~= tag_at(other, at));
            assert(header_at(other, at) == header);
            if 8 + header.length <= region {
                if is_container_tag(header.tag) && header.length >= 4 {
                    if data.len() - at >= 12 {
                        assert(tag_at(data, at + 8) =~= tag_at(other, at + 8));
                    }
                    if depth > 0 {
                        lemma_payload_is_opaque(
                            data,
                            other,
                            at + 12,
                            (header.length - 4) as nat,
                            base + 12,
                            header.tag,
                            (depth - 1) as nat,
                        );
                    }
                }
                lemma_payload_is_opaque(
                    data,
                    other,
                    at + span,
                    room_after(region, span),
                    base + span,
                    parent,
                    depth,
                );
            }
        }
        assert(chunk_at(data, at, region, base, parent, depth) == chunk_at(
            other,
            at,
            region,
            base,
            parent,
            depth,
        ));
    }
}

} // verus!
