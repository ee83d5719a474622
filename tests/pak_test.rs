use rustpak::archive::Pak;
use rustpak::entry::PakFileEntry;

#[test]
fn pak_add_file() {
    let mut pak = Pak::new();
    let result = pak.add_file(PakFileEntry::new("test.txt".to_string(), 0, vec![b'H']));
    assert!(result.is_ok());
}

#[test]
fn pak_add_duplicate_file() {
    let mut pak = Pak::new();
    pak.add_file(PakFileEntry::new("test.txt".to_string(), 0, vec![b'H']))
        .unwrap();
    let result = pak.add_file(PakFileEntry::new("test.txt".to_string(), 0, vec![b'H']));
    if !result.is_err() {
        panic!("Failed");
    }
}

#[test]
fn pak_delete_file() {
    let mut pak = Pak::new();
    pak.add_file(PakFileEntry::new("test.txt".to_string(), 0, vec![b'H']))
        .unwrap();
    pak.remove_file("test.txt").unwrap();
}

#[test]
#[should_panic]
fn pak_delete_file_nonexisting() {
    let mut pak = Pak::new();
    pak.add_file(PakFileEntry::new("test.txt".to_string(), 0, vec![b'H']))
        .unwrap();
    pak.remove_file("doesnotexist.txt").unwrap();
}

#[test]
fn pak_save() {
    let mut pak = Pak::new();
    pak.add_file(PakFileEntry::new(
        "test.txt".to_string(),
        12 + 64,
        "Hello World".as_bytes().to_vec(),
    ))
    .unwrap();
    let bytes = pak.to_bytes().unwrap();
    assert_eq!(bytes.len(), 12 + 64 + 11);
}
