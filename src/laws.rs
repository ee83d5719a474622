//! What holds of saving and reading back.
use vstd::prelude::*;
use vstd::utf8::{
    char_u32_cast, decode_utf8, encode_scalar, encode_utf8, encode_utf8_decode_utf8,
    encode_utf8_valid_utf8, has_width_1_encoding,
};

use crate::buf::zeros;
use crate::entry::{decode_entry, lemma_name_end, name_field, name_fits, record_bytes, EntryView};
use crate::error::PakFileError;
use crate::header::{decode_header, header_bytes, pack_tag, HeaderView};
use crate::le::{lemma_le_round_trip, le_bytes, le_value};
use crate::load::{decode_entries, decode_pak, record_at};
use crate::save::{archive_image, directory_bytes, names_fit, place, place_all, saved_header};
use crate::text::{is_trimmed, lemma_trim_trimmed, trim_ws};

verus! {

/// A name that reads back as it was written: its bytes fit the field, it
/// holds no NUL character and has no surrounding white space.
pub open spec fn name_survives(name: Seq<char>) -> bool {
    &&& name_fits(name)
    &&& forall|i: int| 0 <= i < name.len() ==> name[i] != '\0'
    &&& is_trimmed(name)
}

/// The data ranges of `a` and `b` do not overlap.
pub open spec fn disjoint(a: EntryView, b: EntryView) -> bool {
    a.offset + a.data.len() <= b.offset || b.offset + b.data.len() <= a.offset
}

/// Each entry's data lies past the header and directory that a save writes,
/// and no two entries' data overlap.
pub open spec fn layout_ok(files: Seq<EntryView>) -> bool {
    &&& forall|i: int| 0 <= i < files.len() ==> 12 + 64 * files.len() <= #[trigger] files[i].offset
    &&& forall|i: int, j: int|
        0 <= i < files.len() && 0 <= j < files.len() && i != j ==> disjoint(
            #[trigger] files[i],
            #[trigger] files[j],
        )
}

/// The UTF-8 encoding of a character other than NUL holds no zero byte.
proof fn lemma_scalar_no_zero(c: char)
    requires
        c != '\0',
    ensures
        forall|k: int|
            0 <= k < encode_scalar(c as u32).len() ==> #[trigger] encode_scalar(c as u32)[k] != 0,
{
    let v = c as u32;
    if v == 0 {
        char_u32_cast(c, v);
        char_u32_cast('\0', v);
    }
    let x1 = (v & 0x7F) as u8;
    let x2 = ((v >> 6) & 0x1F) as u8;
    let x3 = ((v >> 12) & 0x0F) as u8;
    let x4 = ((v >> 18) & 0x7) as u8;
    let y1 = (v & 0x3F) as u8;
    let y2 = ((v >> 6) & 0x3F) as u8;
    let y3 = ((v >> 12) & 0x3F) as u8;
    if has_width_1_encoding(v) {
        assert(x1 != 0) by (bit_vector)
            requires
                x1 == (v & 0x7F) as u8,
                v != 0,
                v <= 0x7F,
        ;
    }
    assert(0xC0 | x2 != 0) by (bit_vector);
    assert(0xE0 | x3 != 0) by (bit_vector);
    assert(0xF0 | x4 != 0) by (bit_vector);
    assert(0x80 | y1 != 0) by (bit_vector);
    assert(0x80 | y2 != 0) by (bit_vector);
    assert(0x80 | y3 != 0) by (bit_vector);
}

/// A text without NUL characters encodes without zero bytes.
proof fn lemma_encode_no_zero(s: Seq<char>)
    requires
        forall|i: int| 0 <= i < s.len() ==> s[i] != '\0',
    ensures
        forall|k: int| 0 <= k < encode_utf8(s).len() ==> #[trigger] encode_utf8(s)[k] != 0,
    decreases s.len(),
{
    if s.len() > 0 {
        lemma_scalar_no_zero(s[0]);
        lemma_encode_no_zero(s.drop_first());
        let a = encode_scalar(s[0] as u32);
        let rest = encode_utf8(s.drop_first());
        assert(encode_utf8(s) == a + rest);
        assert forall|k: int| 0 <= k < encode_utf8(s).len() implies #[trigger] encode_utf8(s)[k]
            != 0 by {
            if k < a.len() {
                assert(encode_utf8(s)[k] == a[k]);
            } else {
                assert(encode_utf8(s)[k] == rest[k - a.len()]);
            }
        }
    }
}

/// A record whose data would end past the archive's bytes is refused as
/// out of bounds, whatever its name holds.
pub proof fn lemma_out_of_bounds_rejected(rec: Seq<u8>, buf: Seq<u8>)
    requires
        le_value(rec.subrange(56, 60)) + le_value(rec.subrange(60, 64)) > buf.len(),
    ensures
        decode_entry(rec, buf) == Err::<EntryView, PakFileError>(PakFileError::OutOfBounds),
{
}

/// A record is 64 bytes when its name fits.
proof fn lemma_record_len(e: EntryView)
    requires
        name_fits(e.name),
    ensures
        record_bytes(e).len() == 64,
{
    lemma_le_round_trip(e.offset);
    lemma_le_round_trip(e.size);
}

/// A record written for an entry reads back as that entry, given the
/// entry's data at its offset in `buf`; a name of the full 56 bytes is
/// written with no NUL after it.
pub proof fn lemma_record_round_trip(e: EntryView, buf: Seq<u8>)
    requires
        e.wf(),
        name_survives(e.name),
        e.offset + e.size <= buf.len(),
        buf.subrange(e.offset as int, e.offset + e.size) == e.data,
    ensures
        decode_entry(record_bytes(e), buf) == Ok::<EntryView, PakFileError>(e),
        encode_utf8(e.name).len() == 56 ==> forall|k: int|
            0 <= k < 56 ==> #[trigger] record_bytes(e)[k] != 0,
{
    let rec = record_bytes(e);
    let nb = encode_utf8(e.name);
    lemma_record_len(e);
    lemma_le_round_trip(e.offset);
    lemma_le_round_trip(e.size);
    lemma_encode_no_zero(e.name);
    assert(rec.subrange(56, 60) =~= le_bytes(e.offset));
    assert(rec.subrange(60, 64) =~= le_bytes(e.size));
    let field = rec.subrange(0, 56);
    assert forall|k: int| 0 <= k < nb.len() implies field[k] != 0 by {
        assert(field[k] == nb[k]);
    }
    if nb.len() < 56 {
        assert(field[nb.len() as int] == zeros((56 - nb.len()) as nat)[0]);
    }
    lemma_name_end(field, nb.len() as int);
    assert(name_field(rec) =~= nb);
    encode_utf8_valid_utf8(e.name);
    encode_utf8_decode_utf8(e.name);
    lemma_trim_trimmed(e.name);
    assert(trim_ws(decode_utf8(name_field(rec))) == e.name);
    if nb.len() == 56 {
        assert forall|k: int| 0 <= k < 56 implies #[trigger] rec[k] != 0 by {
            assert(rec[k] == nb[k]);
        }
    }
}

/// A character below 0x80 encodes as its own byte.
proof fn lemma_ascii_scalar(v: u32)
    requires
        v <= 0x7F,
    ensures
        encode_scalar(v) == seq![v as u8],
{
    assert(v & 0x7F == v) by (bit_vector)
        requires
            v <= 0x7F,
    ;
    assert(encode_scalar(v) =~= seq![v as u8]);
}

/// The tag "PACK" encodes as its four ASCII bytes.
proof fn lemma_pack_tag_bytes()
    ensures
        encode_utf8(pack_tag()) == seq![0x50u8, 0x41u8, 0x43u8, 0x4Bu8],
{
    let t = pack_tag();
    let t1 = t.drop_first();
    let t2 = t1.drop_first();
    let t3 = t2.drop_first();
    let t4 = t3.drop_first();
    assert(t1 =~= seq!['A', 'C', 'K']);
    assert(t2 =~= seq!['C', 'K']);
    assert(t3 =~= seq!['K']);
    assert(t4 =~= Seq::<char>::empty());
    lemma_ascii_scalar(0x50);
    lemma_ascii_scalar(0x41);
    lemma_ascii_scalar(0x43);
    lemma_ascii_scalar(0x4B);
    assert(encode_utf8(t4) == Seq::<u8>::empty());
    assert(encode_utf8(t3) =~= seq![0x4Bu8]);
    assert(encode_utf8(t2) =~= seq![0x43u8, 0x4Bu8]);
    assert(encode_utf8(t1) =~= seq![0x41u8, 0x43u8, 0x4Bu8]);
    assert(encode_utf8(t) =~= seq![0x50u8, 0x41u8, 0x43u8, 0x4Bu8]);
}

/// Writing data at or past `bound` keeps the bytes below it.
proof fn lemma_place_all_keeps(b: Seq<u8>, files: Seq<EntryView>, bound: int)
    requires
        0 <= bound <= b.len(),
        forall|i: int| 0 <= i < files.len() ==> bound <= #[trigger] files[i].offset,
    ensures
        place_all(b, files).len() >= b.len(),
        forall|k: int| 0 <= k < bound ==> #[trigger] place_all(b, files)[k] == b[k],
    decreases files.len(),
{
    if files.len() > 0 {
        let prev = files.drop_last();
        assert forall|i: int| 0 <= i < prev.len() implies bound <= #[trigger] prev[i].offset by {
            assert(prev[i] == files[i]);
        }
        lemma_place_all_keeps(b, prev, bound);
    }
}

/// After the data of entries with disjoint ranges past the end of `b` is
/// written, each entry's range holds its data.
proof fn lemma_place_all_data(b: Seq<u8>, files: Seq<EntryView>)
    requires
        forall|i: int| 0 <= i < files.len() ==> b.len() <= #[trigger] files[i].offset,
        forall|i: int, j: int|
            0 <= i < files.len() && 0 <= j < files.len() && i != j ==> disjoint(
                #[trigger] files[i],
                #[trigger] files[j],
            ),
    ensures
        forall|i: int|
            0 <= i < files.len() ==> #[trigger] files[i].offset + files[i].data.len()
                <= place_all(b, files).len() && place_all(b, files).subrange(
                files[i].offset as int,
                files[i].offset + files[i].data.len(),
            ) == files[i].data,
    decreases files.len(),
{
    if files.len() > 0 {
        let prev = files.drop_last();
        assert forall|i: int| 0 <= i < prev.len() implies b.len() <= #[trigger] prev[i].offset by {
            assert(prev[i] == files[i]);
        }
        assert forall|i: int, j: int|
            0 <= i < prev.len() && 0 <= j < prev.len() && i != j implies disjoint(
            #[trigger] prev[i],
            #[trigger] prev[j],
        ) by {
            assert(prev[i] == files[i]);
            assert(prev[j] == files[j]);
        }
        lemma_place_all_data(b, prev);
        let p = place_all(b, prev);
        let last = files.last();
        let q = place_all(b, files);
        assert(q == place(p, last.offset as int, last.data));
        assert forall|i: int| 0 <= i < files.len() implies #[trigger] files[i].offset
            + files[i].data.len() <= q.len() && q.subrange(
            files[i].offset as int,
            files[i].offset + files[i].data.len(),
        ) == files[i].data by {
            let f = files[i];
            if i == files.len() - 1 {
                assert(q.subrange(f.offset as int, f.offset + f.data.len()) =~= f.data);
            } else {
                assert(f == prev[i]);
                assert(disjoint(files[i], files[files.len() - 1]));
                let ps = p.subrange(f.offset as int, f.offset + f.data.len());
                assert forall|k: int| 0 <= k < f.data.len() implies q[f.offset + k] == f.data[k] by {
                    assert(ps[k] == p[f.offset + k]);
                }
                assert(q.subrange(f.offset as int, f.offset + f.data.len()) =~= f.data);
            }
        }
    }
}

/// The directory is the records of the entries, 64 bytes each.
proof fn lemma_directory(files: Seq<EntryView>)
    requires
        names_fit(files),
    ensures
        directory_bytes(files).len() == 64 * files.len(),
        forall|i: int|
            0 <= i < files.len() ==> directory_bytes(files).subrange(64 * i, 64 * i + 64)
                == record_bytes(#[trigger] files[i]),
    decreases files.len(),
{
    if files.len() > 0 {
        let prev = files.drop_last();
        assert forall|i: int| 0 <= i < prev.len() implies name_fits(#[trigger] prev[i].name) by {
            assert(prev[i] == files[i]);
        }
        lemma_directory(prev);
        lemma_record_len(files.last());
        let d = directory_bytes(files);
        let dp = directory_bytes(prev);
        assert(d == dp + record_bytes(files.last()));
        assert forall|i: int| 0 <= i < files.len() implies d.subrange(64 * i, 64 * i + 64)
            == record_bytes(#[trigger] files[i]) by {
            if i == files.len() - 1 {
                assert(d.subrange(64 * i, 64 * i + 64) =~= record_bytes(files.last()));
            } else {
                assert(prev[i] == files[i]);
                assert(d.subrange(64 * i, 64 * i + 64) =~= dp.subrange(64 * i, 64 * i + 64));
            }
        }
    }
}

/// The first `m` records of a table that holds the records of `files`
/// decode to the first `m` entries.
proof fn lemma_decode_table(img: Seq<u8>, files: Seq<EntryView>, m: nat)
    requires
        m <= files.len(),
        forall|i: int|
            0 <= i < files.len() ==> decode_entry(record_at(img, 12, i), img) == Ok::<
                EntryView,
                PakFileError,
            >(#[trigger] files[i]),
    ensures
        decode_entries(img, 12, m) == Ok::<Seq<EntryView>, PakFileError>(files.take(m as int)),
    decreases m,
{
    if m > 0 {
        lemma_decode_table(img, files, (m - 1) as nat);
        assert(files.take(m - 1).push(files[m - 1]) =~= files.take(m as int));
        assert(decode_entry(record_at(img, 12, m - 1), img) == Ok::<EntryView, PakFileError>(
            files[m - 1],
        ));
    } else {
        assert(files.take(0) =~= Seq::<EntryView>::empty());
    }
}

/// The header of a saved archive reads as the "PACK" tag, the directory
/// at 12 and 64 bytes per entry, whenever no entry's data is written over
/// the first 12 bytes.
pub proof fn lemma_saved_header(files: Seq<EntryView>)
    requires
        64 * files.len() <= u32::MAX,
        forall|i: int| 0 <= i < files.len() ==> 12 <= #[trigger] files[i].offset,
    ensures
        archive_image(files).len() >= 12,
        archive_image(files).subrange(0, 4) == encode_utf8(pack_tag()),
        le_value(archive_image(files).subrange(4, 8)) == 12,
        le_value(archive_image(files).subrange(8, 12)) == 64 * files.len(),
{
    let n = files.len();
    let h = header_bytes(saved_header(n));
    let base = h + directory_bytes(files);
    lemma_pack_tag_bytes();
    lemma_le_round_trip(12);
    lemma_le_round_trip((64 * n) as u32);
    assert(h.len() == 12);
    lemma_place_all_keeps(base, files, 12);
    let img = archive_image(files);
    assert(img.subrange(0, 4) =~= encode_utf8(pack_tag()));
    assert(img.subrange(4, 8) =~= le_bytes(12));
    assert(img.subrange(8, 12) =~= le_bytes((64 * n) as u32));
}

/// In the bytes of a save, the header reads as the one the save wrote and
/// the table at 12 holds the entries' records, each entry's data at its
/// offset.
proof fn lemma_image_layout(files: Seq<EntryView>)
    requires
        64 * files.len() <= u32::MAX,
        names_fit(files),
        layout_ok(files),
    ensures
        decode_header(archive_image(files)) == Ok::<HeaderView, PakFileError>(
            saved_header(files.len()),
        ),
        archive_image(files).len() >= 12 + 64 * files.len(),
        forall|i: int|
            0 <= i < files.len() ==> record_at(archive_image(files), 12, i) == record_bytes(
                #[trigger] files[i],
            ),
        forall|i: int|
            0 <= i < files.len() ==> #[trigger] files[i].offset + files[i].data.len()
                <= archive_image(files).len() && archive_image(files).subrange(
                files[i].offset as int,
                files[i].offset + files[i].data.len(),
            ) == files[i].data,
{
    let n = files.len();
    let hv = saved_header(n);
    let h = header_bytes(hv);
    lemma_directory(files);
    lemma_pack_tag_bytes();
    lemma_le_round_trip(12);
    lemma_le_round_trip((64 * n) as u32);
    let base = h + directory_bytes(files);
    assert(h.len() == 12);
    lemma_place_all_keeps(base, files, base.len() as int);
    lemma_place_all_data(base, files);
    let img = archive_image(files);
    lemma_saved_header(files);
    encode_utf8_valid_utf8(pack_tag());
    encode_utf8_decode_utf8(pack_tag());
    assert(decode_header(img) == Ok::<HeaderView, PakFileError>(hv));
    assert forall|i: int| 0 <= i < n implies record_at(img, 12, i) == record_bytes(
        #[trigger] files[i],
    ) by {
        assert(record_at(img, 12, i) =~= base.subrange(12 + 64 * i, 12 + 64 * i + 64));
        assert(base.subrange(12 + 64 * i, 12 + 64 * i + 64) =~= directory_bytes(files).subrange(
            64 * i,
            64 * i + 64,
        ));
    }
}

/// Saving entries and reading the bytes back gives the same entries, in
/// the same order, with the same data, under the header that the save
/// wrote; for names that read back as they are and data laid out past the
/// directory without overlap.
pub proof fn lemma_save_load_round_trip(files: Seq<EntryView>)
    requires
        64 * files.len() <= u32::MAX,
        forall|i: int| 0 <= i < files.len() ==> (#[trigger] files[i]).wf(),
        forall|i: int| 0 <= i < files.len() ==> name_survives(#[trigger] files[i].name),
        layout_ok(files),
    ensures
        decode_pak(archive_image(files)) == Ok::<(HeaderView, Seq<EntryView>), PakFileError>(
            (saved_header(files.len()), files),
        ),
{
    let n = files.len();
    assert forall|i: int| 0 <= i < n implies name_fits(#[trigger] files[i].name) by {
        assert(name_survives(files[i].name));
    }
    lemma_image_layout(files);
    let img = archive_image(files);
    assert forall|i: int| 0 <= i < n implies decode_entry(record_at(img, 12, i), img) == Ok::<
        EntryView,
        PakFileError,
    >(#[trigger] files[i]) by {
        assert(files[i].wf());
        assert(name_survives(files[i].name));
        assert(record_at(img, 12, i) == record_bytes(files[i]));
        lemma_record_round_trip(files[i], img);
    }
    lemma_decode_table(img, files, n);
    assert(files.take(n as int) =~= files);
    assert((64 * n) as u32 / 64 == n);
}

} // verus!
