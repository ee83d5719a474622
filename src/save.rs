//! Writing an archive out as bytes.
use vstd::prelude::*;

use crate::archive::{entries_view, Pak};
use crate::buf::zeros;
use crate::entry::{name_fits, record_bytes, EntryView};
use crate::error::PakFileError;
use crate::header::{header_bytes, pack_tag, HeaderView, PakHeader};

verus! {

/// The records of `files`, one after another.
pub open spec fn directory_bytes(files: Seq<EntryView>) -> Seq<u8>
    decreases files.len(),
{
    if files.len() == 0 {
        Seq::empty()
    } else {
        directory_bytes(files.drop_last()) + record_bytes(files.last())
    }
}

/// `b` after writing `d` at position `off`: a gap past the end reads as
/// zero bytes, and bytes under `d` are overwritten.
pub open spec fn place(b: Seq<u8>, off: int, d: Seq<u8>) -> Seq<u8> {
    let len = if b.len() >= off + d.len() {
        b.len() as int
    } else {
        off + d.len()
    };
    Seq::new(
        len as nat,
        |k: int|
            if off <= k < off + d.len() {
                d[k - off]
            } else if k < b.len() {
                b[k]
            } else {
                0u8
            },
    )
}

/// `b` after writing the data of each of `files`, in order, at its offset.
pub open spec fn place_all(b: Seq<u8>, files: Seq<EntryView>) -> Seq<u8>
    decreases files.len(),
{
    if files.len() == 0 {
        b
    } else {
        place(place_all(b, files.drop_last()), files.last().offset as int, files.last().data)
    }
}

/// The header that a save writes for `n` entries.
pub open spec fn saved_header(n: nat) -> HeaderView {
    HeaderView { id: pack_tag(), offset: 12, size: (64 * n) as u32 }
}

/// Every name fits its field.
pub open spec fn names_fit(files: Seq<EntryView>) -> bool {
    forall|i: int| 0 <= i < files.len() ==> name_fits(#[trigger] files[i].name)
}

/// The bytes of a saved archive: the header and the directory, then each
/// entry's data written at its own offset.
pub open spec fn archive_image(files: Seq<EntryView>) -> Seq<u8> {
    place_all(header_bytes(saved_header(files.len())) + directory_bytes(files), files)
}

/// Writes `d` into `out` at `off`, as a seek and a write on a file would.
fn place_data(out: &mut Vec<u8>, off: u32, d: &Vec<u8>)
    requires
        off + d@.len() <= usize::MAX,
    ensures
        final(out)@ == place(old(out)@, off as int, d@),
{
    let ghost b0 = out@;
    let start = off as usize;
    while out.len() < start
        invariant
            b0.len() <= out@.len() <= start || out@.len() == b0.len(),
            out@ =~= b0 + zeros((out@.len() - b0.len()) as nat),
        decreases start - out@.len(),
    {
        out.push(0u8);
        assert(out@ =~= b0 + zeros((out@.len() - b0.len()) as nat));
    }
    assert(out@ =~= place(b0, off as int, d@.subrange(0, 0)));
    let mut k: usize = 0;
    while k < d.len()
        invariant
            k <= d@.len(),
            start == off,
            off + d@.len() <= usize::MAX,
            out@ == place(b0, off as int, d@.subrange(0, k as int)),
        decreases d@.len() - k,
    {
        let pos = start + k;
        if pos < out.len() {
            out.set(pos, d[k]);
        } else {
            out.push(d[k]);
        }
        k = k + 1;
        assert(out@ =~= place(b0, off as int, d@.subrange(0, k as int)));
    }
    assert(d@.subrange(0, k as int) =~= d@);
}

impl Pak {
    /// The bytes of the archive as a save writes them: a fresh header with
    /// the directory at 12 and 64 bytes per entry, the records in order,
    /// and each entry's data at the offset the entry holds. Fails when a
    /// name does not fit its field.
    pub fn to_bytes(&self) -> (r: Result<Vec<u8>, PakFileError>)
        requires
            64 * self@.files.len() <= u32::MAX,
            forall|i: int|
                0 <= i < self@.files.len() ==> self@.files[i].offset + self@.files[i].data.len()
                    <= usize::MAX,
        ensures
            r is Ok <==> names_fit(self@.files),
            r matches Ok(b) ==> b@ == archive_image(self@.files),
            r matches Err(e) ==> e == PakFileError::NameTooLong,
    {
        let ghost files = self@.files;
        let n = self.files.len();
        let mut hdr = PakHeader::new();
        hdr.offset = 12;
        hdr.size = (n * 64) as u32;
        assert(hdr@ == saved_header(n as nat));
        let mut out: Vec<u8> = Vec::new();
        hdr.write_to(&mut out);
        let ghost head = out@;
        assert(head =~= header_bytes(saved_header(n as nat)));
        let mut i: usize = 0;
        while i < n
            invariant
                i <= n == files.len(),
                files == self@.files,
                out@ == head + directory_bytes(files.take(i as int)),
                forall|j: int| 0 <= j < i ==> name_fits(#[trigger] files[j].name),
            decreases n - i,
        {
            match self.files[i].write_to(&mut out) {
                Err(e) => {
                    assert(!name_fits(files[i as int].name));
                    return Err(e);
                },
                Ok(_) => {},
            }
            assert(files.take(i + 1).drop_last() =~= files.take(i as int));
            i = i + 1;
        }
        assert(files.take(n as int) =~= files);
        let ghost base = out@;
        let mut j: usize = 0;
        while j < n
            invariant
                j <= n == files.len(),
                files == self@.files,
                forall|i: int|
                    0 <= i < files.len() ==> files[i].offset + files[i].data.len() <= usize::MAX,
                out@ == place_all(base, files.take(j as int)),
            decreases n - j,
        {
            let f = &self.files[j];
            assert(files[j as int] == f@);
            place_data(&mut out, f.offset, &f.data);
            assert(files.take(j + 1).drop_last() =~= files.take(j as int));
            j = j + 1;
        }
        assert(files.take(n as int) =~= files);
        Ok(out)
    }
}

} // verus!
