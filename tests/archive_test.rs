use rustpak::archive::Pak;
use rustpak::entry::PakFileEntry;
use rustpak::error::PakFileError;
use rustpak::header::PakHeader;

fn le(n: u32) -> Vec<u8> {
    n.to_le_bytes().to_vec()
}

/// A record: the name bytes padded with zeros to 56, then offset and size.
fn record(name: &[u8], offset: u32, size: u32) -> Vec<u8> {
    let mut r = name.to_vec();
    r.resize(56, 0);
    r.extend(le(offset));
    r.extend(le(size));
    r
}

/// An archive whose directory is at 12 and holds `records`, followed by `data`.
fn archive(records: &[Vec<u8>], data: &[u8]) -> Vec<u8> {
    let mut b = b"PACK".to_vec();
    b.extend(le(12));
    b.extend(le(64 * records.len() as u32));
    for r in records {
        b.extend(r.iter().copied());
    }
    b.extend(data.iter().copied());
    b
}

#[test]
fn saved_hello_world_reads_back() {
    let mut pak = Pak::new();
    pak.add_file(PakFileEntry::new("test.txt".to_string(), 76, b"Hello World".to_vec()))
        .unwrap();
    let bytes = pak.to_bytes().unwrap();
    assert_eq!(bytes.len(), 76 + 11);
    assert_eq!(&bytes[0..4], b"PACK");
    assert_eq!(&bytes[4..8], &le(12)[..]);
    assert_eq!(&bytes[8..12], &le(64)[..]);
    assert_eq!(&bytes[76..], b"Hello World");
    let back = Pak::from_bytes("test.pak".to_string(), &bytes).unwrap();
    assert_eq!(back.pak_path, "test.pak");
    assert_eq!(back.header.id, "PACK");
    assert_eq!(back.header.offset, 12);
    assert_eq!(back.header.size, 64);
    assert_eq!(back.files.len(), 1);
    assert_eq!(back.files[0].name, "test.txt");
    assert_eq!(back.files[0].offset, 76);
    assert_eq!(back.files[0].size, 11);
    assert_eq!(back.files[0].data(), &b"Hello World".to_vec());
}

#[test]
fn round_trip_keeps_order_and_binary_data() {
    let mut pak = Pak::new();
    let table_end = 12 + 64 * 3;
    let blobs: Vec<(&str, Vec<u8>)> = vec![
        ("maps/e1m1.bsp", vec![0, 255, 0, 1, 2]),
        ("sound/é.wav", vec![]),
        ("progs.dat", (0..=255u8).collect()),
    ];
    let mut offset = table_end;
    for (name, data) in &blobs {
        pak.add_file(PakFileEntry::new(name.to_string(), offset, data.clone())).unwrap();
        offset += data.len() as u32;
    }
    let bytes = pak.to_bytes().unwrap();
    assert_eq!(bytes.len() as u32, offset);
    let back = Pak::from_bytes(String::new(), &bytes).unwrap();
    assert_eq!(back.files.len(), 3);
    for (i, (name, data)) in blobs.iter().enumerate() {
        assert_eq!(back.files[i].name, *name);
        assert_eq!(back.files[i].data(), data);
        assert_eq!(back.files[i].size as usize, data.len());
    }
}

#[test]
fn save_writes_a_fresh_header() {
    let mut pak = Pak::from_bytes(String::new(), &archive(&[], b"")).unwrap();
    pak.header.offset = 999;
    pak.header.size = 5;
    for (i, name) in ["a", "b"].iter().enumerate() {
        let at = 12 + 128 + i as u32;
        pak.add_file(PakFileEntry::new(name.to_string(), at, vec![b'x'])).unwrap();
    }
    let bytes = pak.to_bytes().unwrap();
    assert_eq!(&bytes[4..8], &le(12)[..]);
    assert_eq!(&bytes[8..12], &le(128)[..]);
    assert_eq!(bytes.len(), 12 + 128 + 2);
}

#[test]
fn save_fills_a_gap_with_zeros_and_overwrites_in_place() {
    let mut pak = Pak::new();
    pak.add_file(PakFileEntry::new("far".to_string(), 150, vec![7, 7, 7])).unwrap();
    pak.add_file(PakFileEntry::new("near".to_string(), 151, vec![9])).unwrap();
    let bytes = pak.to_bytes().unwrap();
    assert_eq!(bytes.len(), 153);
    assert!(bytes[140..150].iter().all(|&b| b == 0));
    assert_eq!(&bytes[150..], &[7, 9, 7]);
}

#[test]
fn name_of_56_bytes_has_no_terminator() {
    let name = "n".repeat(56);
    let mut pak = Pak::new();
    pak.add_file(PakFileEntry::new(name.clone(), 76, vec![1, 2, 3])).unwrap();
    let bytes = pak.to_bytes().unwrap();
    assert!(bytes[12..12 + 56].iter().all(|&b| b == b'n'));
    let back = Pak::from_bytes(String::new(), &bytes).unwrap();
    assert_eq!(back.files[0].name, name);
    assert_eq!(back.files[0].data(), &vec![1, 2, 3]);
}

#[test]
fn name_of_57_bytes_is_rejected() {
    let mut pak = Pak::new();
    pak.add_file(PakFileEntry::new("n".repeat(57), 76, vec![1])).unwrap();
    assert_eq!(pak.to_bytes(), Err(PakFileError::NameTooLong));
    let entry = PakFileEntry::new("é".repeat(29), 0, vec![]);
    let mut out = vec![1u8];
    assert_eq!(entry.write_to(&mut out), Err(PakFileError::NameTooLong));
    assert_eq!(out, vec![1u8]);
}

#[test]
fn record_bytes_are_name_offset_size() {
    let entry = PakFileEntry::new("ab".to_string(), 0x01020304, vec![0; 5]);
    let mut out = Vec::new();
    entry.write_to(&mut out).unwrap();
    assert_eq!(out, record(b"ab", 0x01020304, 5));
}

#[test]
fn header_bytes_are_tag_offset_size() {
    let mut h = PakHeader::new();
    assert_eq!(h.id, "PACK");
    assert_eq!((h.offset, h.size), (0, 0));
    h.offset = 0x0A0B0C0D;
    h.size = 64;
    let mut out = Vec::new();
    h.write_to(&mut out);
    assert_eq!(out, vec![b'P', b'A', b'C', b'K', 0x0D, 0x0C, 0x0B, 0x0A, 64, 0, 0, 0]);
    let back = PakHeader::from_u8(&out).unwrap();
    assert_eq!((back.id.as_str(), back.offset, back.size), ("PACK", 0x0A0B0C0D, 64));
}

#[test]
fn decoded_name_is_trimmed() {
    let rec = record(b"  a b\t ", 0, 0);
    let e = PakFileEntry::from_u8(&rec, &vec![]).unwrap();
    assert_eq!(e.name, "a b");
}

#[test]
fn decoded_name_stops_at_nul() {
    let mut rec = record(b"one", 1, 2);
    rec[10] = b'z';
    let e = PakFileEntry::from_u8(&rec, &vec![5, 6, 7, 8]).unwrap();
    assert_eq!(e.name, "one");
    assert_eq!((e.offset, e.size), (1, 2));
    assert_eq!(e.data(), &vec![6, 7]);
}

#[test]
fn record_past_the_end_is_out_of_bounds() {
    let rec = record(b"x", 3, 2);
    assert_eq!(PakFileEntry::from_u8(&rec, &vec![0; 4]).err(), Some(PakFileError::OutOfBounds));
    assert!(PakFileEntry::from_u8(&rec, &vec![0; 5]).is_ok());
    let huge = record(b"x", u32::MAX, u32::MAX);
    assert_eq!(PakFileEntry::from_u8(&huge, &vec![0; 4]).err(), Some(PakFileError::OutOfBounds));
}

#[test]
fn record_name_not_utf8_is_invalid_encoding() {
    let rec = record(&[0xFF, 0xFE], 0, 0);
    assert_eq!(PakFileEntry::from_u8(&rec, &vec![]).err(), Some(PakFileError::InvalidEncoding));
}

#[test]
fn short_or_non_text_header_is_malformed() {
    assert_eq!(PakHeader::from_u8(&vec![b'P'; 11]).err(), Some(PakFileError::MalformedHeader));
    let mut b = archive(&[], b"");
    b[0] = 0xC3;
    assert_eq!(PakHeader::from_u8(&b).err(), Some(PakFileError::MalformedHeader));
    assert_eq!(Pak::from_bytes(String::new(), &b).err(), Some(PakFileError::MalformedHeader));
    assert_eq!(Pak::from_bytes(String::new(), &vec![]).err(), Some(PakFileError::MalformedHeader));
}

#[test]
fn other_tag_is_kept() {
    let mut b = archive(&[], b"");
    b[0..4].copy_from_slice(b"WAD2");
    let pak = Pak::from_bytes(String::new(), &b).unwrap();
    assert_eq!(pak.header.id, "WAD2");
    assert_eq!(pak.files.len(), 0);
}

#[test]
fn bad_directory_is_malformed() {
    let mut b = archive(&[record(b"a", 0, 0)], b"");
    b[8..12].copy_from_slice(&le(63));
    assert_eq!(Pak::from_bytes(String::new(), &b).err(), Some(PakFileError::MalformedDirectory));
    let mut c = archive(&[record(b"a", 0, 0)], b"");
    c[8..12].copy_from_slice(&le(128));
    assert_eq!(Pak::from_bytes(String::new(), &c).err(), Some(PakFileError::MalformedDirectory));
}

#[test]
fn first_bad_record_decides_the_error() {
    let b = archive(&[record(b"ok", 0, 1), record(&[0xFF], 0, 1), record(b"far", 0, 9999)], b"");
    assert_eq!(Pak::from_bytes(String::new(), &b).err(), Some(PakFileError::InvalidEncoding));
    let c = archive(&[record(b"ok", 0, 1), record(b"far", 0, 9999), record(&[0xFF], 0, 1)], b"");
    assert_eq!(Pak::from_bytes(String::new(), &c).err(), Some(PakFileError::OutOfBounds));
}

#[test]
fn duplicate_leaves_entries_unchanged() {
    let mut pak = Pak::new();
    pak.add_file(PakFileEntry::new("a".to_string(), 0, vec![1])).unwrap();
    pak.add_file(PakFileEntry::new("b".to_string(), 1, vec![2])).unwrap();
    let r = pak.add_file(PakFileEntry::new("a".to_string(), 5, vec![3, 3]));
    assert_eq!(r, Err(PakFileError::DuplicateName));
    assert_eq!(pak.files.len(), 2);
    assert_eq!(pak.files[0].data(), &vec![1]);
    assert_eq!(pak.files[1].name, "b");
    assert!(pak.add_file(PakFileEntry::new("A".to_string(), 0, vec![])).is_ok());
}

#[test]
fn remove_and_find() {
    let mut pak = Pak::new();
    for name in ["x", "y", "z"] {
        pak.add_file(PakFileEntry::new(name.to_string(), 0, vec![])).unwrap();
    }
    assert_eq!(pak.find_file("y"), Some(1));
    assert_eq!(pak.find_file("w"), None);
    assert_eq!(pak.remove_file("y"), Ok(()));
    assert_eq!(pak.files.len(), 2);
    assert_eq!(pak.files[1].name, "z");
    assert_eq!(pak.remove_file("y"), Err(PakFileError::NotFound));
    assert_eq!(pak.files.len(), 2);
}

#[test]
fn append_stores_data_at_archive_end() {
    let mut pak = Pak::new();
    assert_eq!(pak.append_file("new.txt".to_string(), vec![4, 2], 300), Ok(()));
    assert_eq!(pak.files[0].offset, 300);
    assert_eq!(pak.files[0].size, 2);
    assert_eq!(
        pak.append_file("new.txt".to_string(), vec![1], 302),
        Err(PakFileError::DuplicateName)
    );
}

#[test]
fn error_messages() {
    assert_eq!(PakFileError::DuplicateName.msg(), "File already exists");
    assert_eq!(PakFileError::NotFound.msg(), "file entry not found");
}
