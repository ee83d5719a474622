//! Directory records: a 56-byte name field, then the data's offset and size.
use vstd::prelude::*;
use vstd::utf8::{decode_utf8, encode_utf8, valid_utf8};

use crate::buf::{push_bytes, push_zeros, zeros};
use crate::error::PakFileError;
use crate::le::{le_bytes, le_value, push_le_u32, read_le_u32};
use crate::text::{string_from_utf8, trim_str, trim_ws};

verus! {

/// One file held in an archive.
#[derive(Debug)]
pub struct PakFileEntry {
    /// The file's path inside the archive, such as "maps/e1m1.bsp".
    pub name: String,
    /// Where the file's contents begin, from the start of the archive.
    pub offset: u32,
    /// The byte size of the file.
    pub size: u32,
    pub(crate) data: Vec<u8>,
}

/// What an entry holds.
pub struct EntryView {
    pub name: Seq<char>,
    pub offset: u32,
    pub size: u32,
    pub data: Seq<u8>,
}

impl EntryView {
    /// The size field agrees with the data.
    pub open spec fn wf(self) -> bool {
        self.size == self.data.len()
    }
}

impl View for PakFileEntry {
    type V = EntryView;

    open(crate) spec fn view(&self) -> EntryView {
        EntryView { name: self.name@, offset: self.offset, size: self.size, data: self.data@ }
    }
}

/// The position of the first zero byte of `s`, or its length if it has none.
pub open spec fn name_end(s: Seq<u8>) -> nat
    decreases s.len(),
{
    if s.len() == 0 || s[0] == 0 {
        0
    } else {
        1 + name_end(s.drop_first())
    }
}

/// The bytes of a record's name: the name field up to its first zero byte.
pub open spec fn name_field(rec: Seq<u8>) -> Seq<u8> {
    rec.subrange(0, name_end(rec.subrange(0, 56)) as int)
}

/// What a 64-byte record says as an entry, its data taken from `buf`.
pub open spec fn decode_entry(rec: Seq<u8>, buf: Seq<u8>) -> Result<EntryView, PakFileError> {
    let offset = le_value(rec.subrange(56, 60));
    let size = le_value(rec.subrange(60, 64));
    if offset + size > buf.len() {
        Err(PakFileError::OutOfBounds)
    } else if !valid_utf8(name_field(rec)) {
        Err(PakFileError::InvalidEncoding)
    } else {
        Ok(
            EntryView {
                name: trim_ws(decode_utf8(name_field(rec))),
                offset: offset as u32,
                size: size as u32,
                data: buf.subrange(offset, offset + size),
            },
        )
    }
}

/// The name's bytes fit the 56-byte field.
pub open spec fn name_fits(name: Seq<char>) -> bool {
    encode_utf8(name).len() <= 56
}

/// The 64 bytes of an entry's record: the name padded with zero bytes to 56,
/// then offset and size.
pub open spec fn record_bytes(e: EntryView) -> Seq<u8> {
    let n = encode_utf8(e.name);
    n + zeros((56 - n.len()) as nat) + le_bytes(e.offset) + le_bytes(e.size)
}

/// `name_end` is the first zero byte, or the end.
pub proof fn lemma_name_end(s: Seq<u8>, p: int)
    requires
        0 <= p <= s.len(),
        forall|k: int| 0 <= k < p ==> s[k] != 0,
        p == s.len() || s[p] == 0,
    ensures
        name_end(s) == p,
    decreases s.len(),
{
    if s.len() > 0 && s[0] != 0 {
        assert(p > 0);
        lemma_name_end(s.drop_first(), p - 1);
    }
}

impl PakFileEntry {
    /// An entry of `name` whose data is `data`, to be stored at `offset`.
    pub fn new(name: String, offset: u32, data: Vec<u8>) -> (r: PakFileEntry)
        requires
            data@.len() <= u32::MAX,
        ensures
            r@ == (EntryView { name: name@, offset, size: data@.len() as u32, data: data@ }),
    {
        let size = data.len() as u32;
        PakFileEntry { name, offset, size, data }
    }

    /// The entry's data.
    pub fn data(&self) -> (r: &Vec<u8>)
        ensures
            r@ == self@.data,
    {
        &self.data
    }

    /// Reads the entry that the 64-byte record `header_buf` describes, with
    /// its data copied out of the archive bytes `file_buf`.
    pub fn from_u8(header_buf: &Vec<u8>, file_buf: &Vec<u8>) -> (r: Result<
        PakFileEntry,
        PakFileError,
    >)
        requires
            header_buf@.len() == 64,
        ensures
            r matches Ok(e) ==> decode_entry(header_buf@, file_buf@) == Ok::<
                EntryView,
                PakFileError,
            >(e@),
            r matches Err(e) ==> decode_entry(header_buf@, file_buf@) == Err::<
                EntryView,
                PakFileError,
            >(e),
    {
        let offset = read_le_u32(header_buf, 56);
        let size = read_le_u32(header_buf, 60);
        if offset as u64 + size as u64 > file_buf.len() as u64 {
            return Err(PakFileError::OutOfBounds);
        }
        let mut end: usize = 0;
        while end < 56 && header_buf[end] != 0
            invariant
                end <= 56,
                header_buf@.len() == 64,
                forall|k: int| 0 <= k < end ==> header_buf@[k] != 0,
            decreases 56 - end,
        {
            end = end + 1;
        }
        proof {
            lemma_name_end(header_buf@.subrange(0, 56), end as int);
        }
        let mut name_bytes: Vec<u8> = Vec::new();
        let mut i: usize = 0;
        while i < end
            invariant
                i <= end <= 56,
                header_buf@.len() == 64,
                name_bytes@ == header_buf@.subrange(0, i as int),
            decreases end - i,
        {
            name_bytes.push(header_buf[i]);
            i = i + 1;
            assert(name_bytes@ =~= header_buf@.subrange(0, i as int));
        }
        let text = match string_from_utf8(name_bytes) {
            None => {
                return Err(PakFileError::InvalidEncoding);
            },
            Some(t) => t,
        };
        let name = trim_str(text.as_str()).to_owned();
        let start = offset as usize;
        let stop = start + size as usize;
        let mut data: Vec<u8> = Vec::new();
        let mut j: usize = start;
        while j < stop
            invariant
                start <= j <= stop <= file_buf@.len(),
                data@ == file_buf@.subrange(start as int, j as int),
            decreases stop - j,
        {
            data.push(file_buf[j]);
            j = j + 1;
            assert(data@ =~= file_buf@.subrange(start as int, j as int));
        }
        Ok(PakFileEntry { name, offset, size, data })
    }

    /// Appends the entry's 64-byte record; fails, appending nothing, when the
    /// name's bytes do not fit the 56-byte field.
    pub fn write_to(&self, out: &mut Vec<u8>) -> (r: Result<(), PakFileError>)
        ensures
            r is Ok <==> name_fits(self@.name),
            r matches Ok(_) ==> final(out)@ == old(out)@ + record_bytes(self@),
            r matches Err(e) ==> e == PakFileError::NameTooLong && final(out)@ == old(out)@,
    {
        let name = self.name.as_str().as_bytes();
        if name.len() > 56 {
            return Err(PakFileError::NameTooLong);
        }
        push_bytes(out, name);
        push_zeros(out, 56 - name.len());
        push_le_u32(out, self.offset);
        push_le_u32(out, self.size);
        assert(final(out)@ =~= old(out)@ + record_bytes(self@));
        Ok(())
    }
}

} // verus!
