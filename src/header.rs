//! The 12-byte archive header: a tag, then the directory's offset and size.
use vstd::prelude::*;
use vstd::utf8::{decode_utf8, encode_utf8, valid_utf8};

use crate::buf::push_bytes;
use crate::error::PakFileError;
use crate::le::{le_bytes, le_value, push_le_u32, read_le_u32};
use crate::text::string_from_utf8;

verus! {

/// The archive header.
#[derive(Debug)]
pub struct PakHeader {
    /// Should be "PACK" (not NUL-terminated).
    pub id: String,
    /// Where the directory table begins.
    pub offset: u32,
    /// The byte size of the directory table.
    pub size: u32,
}

/// What a header holds.
pub struct HeaderView {
    pub id: Seq<char>,
    pub offset: u32,
    pub size: u32,
}

impl View for PakHeader {
    type V = HeaderView;

    open spec fn view(&self) -> HeaderView {
        HeaderView { id: self.id@, offset: self.offset, size: self.size }
    }
}

/// The tag that a fresh header carries.
pub open spec fn pack_tag() -> Seq<char> {
    seq!['P', 'A', 'C', 'K']
}

/// What the first bytes of an archive say as a header.
pub open spec fn decode_header(b: Seq<u8>) -> Result<HeaderView, PakFileError> {
    if b.len() < 12 || !valid_utf8(b.subrange(0, 4)) {
        Err(PakFileError::MalformedHeader)
    } else {
        Ok(
            HeaderView {
                id: decode_utf8(b.subrange(0, 4)),
                offset: le_value(b.subrange(4, 8)) as u32,
                size: le_value(b.subrange(8, 12)) as u32,
            },
        )
    }
}

/// The bytes of a header: its tag as written, then offset and size.
pub open spec fn header_bytes(h: HeaderView) -> Seq<u8> {
    encode_utf8(h.id) + le_bytes(h.offset) + le_bytes(h.size)
}

impl PakHeader {
    /// A header with the "PACK" tag and an empty directory.
    pub fn new() -> (r: PakHeader)
        ensures
            r@ == (HeaderView { id: pack_tag(), offset: 0, size: 0 }),
    {
        proof {
            reveal_strlit("PACK");
        }
        let id = "PACK".to_owned();
        assert(id@ =~= pack_tag());
        PakHeader { id, offset: 0, size: 0 }
    }

    /// Reads a header from the start of `buf`.
    pub fn from_u8(buf: &Vec<u8>) -> (r: Result<PakHeader, PakFileError>)
        ensures
            r matches Ok(h) ==> decode_header(buf@) == Ok::<HeaderView, PakFileError>(h@),
            r matches Err(e) ==> decode_header(buf@) == Err::<HeaderView, PakFileError>(e),
    {
        if buf.len() < 12 {
            return Err(PakFileError::MalformedHeader);
        }
        let mut tag: Vec<u8> = Vec::new();
        let mut i: usize = 0;
        while i < 4
            invariant
                i <= 4,
                buf@.len() >= 12,
                tag@ == buf@.subrange(0, i as int),
            decreases 4 - i,
        {
            tag.push(buf[i]);
            i = i + 1;
            assert(tag@ =~= buf@.subrange(0, i as int));
        }
        match string_from_utf8(tag) {
            None => Err(PakFileError::MalformedHeader),
            Some(id) => {
                let offset = read_le_u32(buf, 4);
                let size = read_le_u32(buf, 8);
                Ok(PakHeader { id, offset, size })
            },
        }
    }

    /// Appends the header's bytes: the tag as it stands, then offset and size.
    pub fn write_to(&self, out: &mut Vec<u8>)
        ensures
            final(out)@ == old(out)@ + header_bytes(self@),
    {
        let tag = self.id.as_str().as_bytes();
        push_bytes(out, tag);
        push_le_u32(out, self.offset);
        push_le_u32(out, self.size);
        assert(final(out)@ =~= old(out)@ + header_bytes(self@));
    }
}

} // verus!
