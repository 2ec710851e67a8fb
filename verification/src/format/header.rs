//! The eight-byte header that starts every chunk: a tag and a length.

use crate::error::{ErrorKind, ErrorView, ParsingError};
use crate::format::cursor::ByteCursor;
use crate::format::endian::{le_u32_at, read_u32_le};
use vstd::prelude::*;
use vstd::slice::slice_subrange;
use vstd::utf8::{decode_utf8, encode_utf8, encode_utf8_decode_utf8, valid_utf8};

verus! {

/// What a header is, mathematically: its four tag bytes and the payload
/// length it declares.
pub struct HeaderView {
    pub tag: Seq<u8>,
    pub length: nat,
}

/// The four bytes of `data` that start at `at`.
pub open spec fn tag_at(data: Seq<u8>, at: nat) -> Seq<u8> {
    data.subrange(at as int, at as int + 4)
}

/// The header that the eight bytes of `data` starting at `at` spell out.
pub open spec fn header_at(data: Seq<u8>, at: nat) -> HeaderView {
    HeaderView { tag: tag_at(data, at), length: le_u32_at(data, at as int + 4) as nat }
}

/// The tag `RIFF`.
pub open spec fn riff_tag() -> Seq<u8> {
    seq![0x52u8, 0x49u8, 0x46u8, 0x46u8]
}

/// The tag `LIST`.
pub open spec fn list_tag() -> Seq<u8> {
    seq![0x4Cu8, 0x49u8, 0x53u8, 0x54u8]
}

/// The two tags whose payload is a form type followed by nested chunks.
pub open spec fn is_container_tag(tag: Seq<u8>) -> bool {
    tag == riff_tag() || tag == list_tag()
}

/// Common structure of a header in a RIFF file: the name of the chunk and
/// the length of the data that follows.
#[derive(Clone, Copy, Debug, PartialEq, Eq)]
pub struct RiffHeader {
    name: [u8; 4],
    length: u32,
}

impl View for RiffHeader {
    type V = HeaderView;

    closed spec fn view(&self) -> HeaderView {
        HeaderView { tag: self.name@, length: self.length as nat }
    }
}

/// Turns bytes into text with std's `String::from_utf8`.
///
/// Trusted: the call is taken to succeed exactly on well-formed UTF-8, and
/// the text it yields to be stored as the very bytes it was given.
#[verifier::external_body]
fn text_from_utf8(bytes: Vec<u8>) -> (text: Option<String>)
    ensures
        text is Some <==> valid_utf8(bytes@),
        text is Some ==> encode_utf8(text->0@) == bytes@,
{
    match String::from_utf8(bytes) {
        Ok(text) => Some(text),
        Err(_) => None,
    }
}

impl RiffHeader {
    /// Every header is four tag bytes, and its length fits in 32 bits.
    pub proof fn lemma_view_shape(self)
        ensures
            self@.tag.len() == 4,
            self@.length <= u32::MAX,
    {
    }

    /// Reads a header from the next eight bytes of `input`.
    ///
    /// With fewer than eight bytes left nothing is consumed and the result
    /// is a `TruncatedInput` error that carries `offset` and `parent`.
    pub fn parse(input: &mut ByteCursor<'_>, offset: u64, parent: [u8; 4]) -> (parsed: Result<
        RiffHeader,
        ParsingError,
    >)
        ensures
            match parsed {
                Ok(header) => {
                    &&& old(input)@.remaining() >= 8
                    &&& header@ == header_at(old(input)@.bytes, old(input)@.position)
                    &&& final(input)@ == old(input)@.advance(8)
                },
                Err(error) => {
                    &&& old(input)@.remaining() < 8
                    &&& error@ == (ErrorView {
                        kind: ErrorKind::TruncatedInput,
                        offset: offset as nat,
                        parent: parent@,
                    })
                    &&& final(input)@ == old(input)@
                },
            },
    {
        match input.take(8) {
            None => Err(ParsingError::new(ErrorKind::TruncatedInput, offset, parent)),
            Some(raw) => {
                let name: [u8; 4] = [raw[0], raw[1], raw[2], raw[3]];
                let length: u32 = read_u32_le(slice_subrange(raw, 4, 8));
                let header = RiffHeader { name, length };
                assert(header@.tag =~= tag_at(old(input)@.bytes, old(input)@.position));
                Ok(header)
            },
        }
    }

    /// The size of the header itself on disk, which is always eight bytes.
    pub fn size(&self) -> (size: u32)
        ensures
            size == 8,
    {
        8
    }

    /// True for containers, which hold other chunks. A container's header
    /// is directly followed by a form type that the header does not store.
    pub fn is_container(&self) -> (container: bool)
        ensures
            container == is_container_tag(self@.tag),
    {
        let n = &self.name;
        let riff = n[0] == 0x52 && n[1] == 0x49 && n[2] == 0x46 && n[3] == 0x46;
        let list = n[0] == 0x4C && n[1] == 0x49 && n[2] == 0x53 && n[3] == 0x54;
        proof {
            assert(riff == (self.name@ =~= riff_tag()));
            assert(list == (self.name@ =~= list_tag()));
        }
        riff || list
    }

    /// The four bytes of the header name.
    pub fn get_name_bytes(&self) -> (name: &[u8; 4])
        ensures
            name@ == self@.tag,
    {
        &self.name
    }

    /// The header name as text, or `None` when the four bytes are not
    /// well-formed UTF-8.
    pub fn get_name(&self) -> (name: Option<String>)
        ensures
            name is Some <==> valid_utf8(self@.tag),
            name is Some ==> encode_utf8(name->0@) == self@.tag,
            name is Some ==> name->0@ == decode_utf8(self@.tag),
    {
        let mut bytes: Vec<u8> = Vec::new();
        bytes.push(self.name[0]);
        bytes.push(self.name[1]);
        bytes.push(self.name[2]);
        bytes.push(self.name[3]);
        assert(bytes@ =~= self.name@);
        let name = text_from_utf8(bytes);
        proof {
            if name is Some {
                encode_utf8_decode_utf8(name->0@);
            }
        }
        name
    }

    /// The length of the data following the header, as the header
    /// declares it.
    pub fn get_length(&self) -> (length: u32)
        ensures
            length == self@.length,
    {
        self.length
    }
}

} // verus!
