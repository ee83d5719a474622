//! Reading an archive out of its bytes.
use vstd::prelude::*;

use crate::archive::{entries_view, Pak, PakView};
use crate::entry::{decode_entry, EntryView, PakFileEntry};
use crate::error::PakFileError;
use crate::header::{decode_header, HeaderView, PakHeader};

verus! {

/// The 64-byte record at position `i` of the table that starts at `table`.
pub open spec fn record_at(b: Seq<u8>, table: int, i: int) -> Seq<u8> {
    b.subrange(table + 64 * i, table + 64 * i + 64)
}

/// The first `n` records of the table at `table`, decoded in order; the
/// first record that fails decides the error.
pub open spec fn decode_entries(b: Seq<u8>, table: int, n: nat) -> Result<
    Seq<EntryView>,
    PakFileError,
>
    decreases n,
{
    if n == 0 {
        Ok(Seq::empty())
    } else {
        match decode_entries(b, table, (n - 1) as nat) {
            Err(e) => Err(e),
            Ok(prev) => match decode_entry(record_at(b, table, n - 1), b) {
                Err(e) => Err(e),
                Ok(e) => Ok(prev.push(e)),
            },
        }
    }
}

/// What the bytes `b` say as an archive: its header and its entries.
pub open spec fn decode_pak(b: Seq<u8>) -> Result<(HeaderView, Seq<EntryView>), PakFileError> {
    match decode_header(b) {
        Err(e) => Err(e),
        Ok(h) => if h.size % 64 != 0 || h.offset + h.size > b.len() {
            Err(PakFileError::MalformedDirectory)
        } else {
            match decode_entries(b, h.offset as int, (h.size / 64) as nat) {
                Err(e) => Err(e),
                Ok(es) => Ok((h, es)),
            }
        },
    }
}

/// Once a record fails, the longer tables fail with the same error.
pub proof fn lemma_decode_entries_err(b: Seq<u8>, table: int, m: nat, n: nat)
    requires
        m <= n,
        decode_entries(b, table, m) is Err,
    ensures
        decode_entries(b, table, n) == decode_entries(b, table, m),
    decreases n - m,
{
    if m < n {
        lemma_decode_entries_err(b, table, m, (n - 1) as nat);
    }
}

impl Pak {
    /// Reads the archive whose bytes are `bytes`, bound to `path`. Every
    /// entry's data is copied out of `bytes`.
    pub fn from_bytes(path: String, bytes: &Vec<u8>) -> (r: Result<Pak, PakFileError>)
        ensures
            r matches Ok(p) ==> p@.path == path@ && decode_pak(bytes@) == Ok::<
                (HeaderView, Seq<EntryView>),
                PakFileError,
            >((p@.header, p@.files)),
            r matches Err(e) ==> decode_pak(bytes@) == Err::<
                (HeaderView, Seq<EntryView>),
                PakFileError,
            >(e),
    {
        let header = match PakHeader::from_u8(bytes) {
            Err(e) => {
                return Err(e);
            },
            Ok(h) => h,
        };
        if header.size % 64 != 0 || header.offset as u64 + header.size as u64 > bytes.len() as u64 {
            return Err(PakFileError::MalformedDirectory);
        }
        let n: u32 = header.size / 64;
        let table: usize = header.offset as usize;
        let ghost b = bytes@;
        assert(b.len() == bytes.len());
        let mut files: Vec<PakFileEntry> = Vec::new();
        let mut i: u32 = 0;
        assert(entries_view(files@) =~= Seq::<EntryView>::empty());
        while i < n
            invariant
                i <= n,
                n == header.size / 64,
                header.size % 64 == 0,
                table == header.offset,
                table + header.size <= b.len(),
                b == bytes@,
                b.len() <= usize::MAX,
                decode_header(b) == Ok::<HeaderView, PakFileError>(header@),
                decode_entries(b, table as int, i as nat) == Ok::<Seq<EntryView>, PakFileError>(
                    entries_view(files@),
                ),
            decreases n - i,
        {
            assert(64 * (i as int) + 64 <= header.size as int) by (nonlinear_arith)
                requires
                    i < n,
                    n == header.size / 64,
            ;
            let at: usize = table + 64 * (i as usize);
            let mut rec: Vec<u8> = Vec::new();
            let mut k: usize = 0;
            while k < 64
                invariant
                    k <= 64,
                    at + 64 <= bytes@.len() <= usize::MAX,
                    rec@ == bytes@.subrange(at as int, at + k),
                decreases 64 - k,
            {
                rec.push(bytes[at + k]);
                k = k + 1;
                assert(rec@ =~= bytes@.subrange(at as int, at + k));
            }
            assert(rec@ == record_at(b, table as int, i as int));
            let ghost before = entries_view(files@);
            match PakFileEntry::from_u8(&rec, bytes) {
                Err(e) => {
                    assert(decode_entries(b, table as int, (i + 1) as nat) == Err::<
                        Seq<EntryView>,
                        PakFileError,
                    >(e));
                    proof {
                        lemma_decode_entries_err(b, table as int, (i + 1) as nat, n as nat);
                    }
                    return Err(e);
                },
                Ok(e) => {
                    let ghost ev = e@;
                    files.push(e);
                    assert(entries_view(files@) =~= before.push(ev));
                },
            }
            i = i + 1;
        }
        let ghost files_v = entries_view(files@);
        let p = Pak { pak_path: path, header, files };
        assert(p@.files == files_v);
        Ok(p)
    }
}

} // verus!
