//! The archive: a header and an ordered list of entries with unique names.
use vstd::prelude::*;

use crate::entry::{EntryView, PakFileEntry};
use crate::error::PakFileError;
use crate::header::{pack_tag, HeaderView, PakHeader};

verus! {

/// An archive held in memory.
#[derive(Debug)]
pub struct Pak {
    /// The file it was read from or is bound to; empty if none.
    pub pak_path: String,
    /// The header as read; a save writes a fresh one.
    pub header: PakHeader,
    /// The entries, in the order of the directory table.
    pub files: Vec<PakFileEntry>,
}

/// What an archive holds.
pub struct PakView {
    pub path: Seq<char>,
    pub header: HeaderView,
    pub files: Seq<EntryView>,
}

/// The views of a list of entries.
pub open spec fn entries_view(v: Seq<PakFileEntry>) -> Seq<EntryView> {
    v.map_values(|e: PakFileEntry| e@)
}

impl View for Pak {
    type V = PakView;

    open spec fn view(&self) -> PakView {
        PakView { path: self.pak_path@, header: self.header@, files: entries_view(self.files@) }
    }
}

/// Some entry of `files` is called `name`.
pub open spec fn has_name(files: Seq<EntryView>, name: Seq<char>) -> bool {
    exists|i: int| 0 <= i < files.len() && files[i].name == name
}

/// No two entries of `files` share a name.
pub open spec fn names_unique(files: Seq<EntryView>) -> bool {
    forall|i: int, j: int|
        0 <= i < files.len() && 0 <= j < files.len() && i != j ==> files[i].name != files[j].name
}

/// `i` is the first position of `files` whose entry is called `name`.
pub open spec fn first_named(files: Seq<EntryView>, name: Seq<char>, i: int) -> bool {
    &&& 0 <= i < files.len()
    &&& files[i].name == name
    &&& forall|j: int| 0 <= j < i ==> files[j].name != name
}

impl Pak {
    /// An empty archive, bound to no file.
    pub fn new() -> (r: Pak)
        ensures
            r@.path.len() == 0,
            r@.header == (HeaderView { id: pack_tag(), offset: 0, size: 0 }),
            r@.files.len() == 0,
    {
        Pak { pak_path: String::new(), header: PakHeader::new(), files: Vec::new() }
    }

    /// The position of the first entry called `name`, if there is one.
    pub fn find_file(&self, name: &str) -> (r: Option<usize>)
        ensures
            r matches Some(i) ==> first_named(self@.files, name@, i as int),
            r is None <==> !has_name(self@.files, name@),
    {
        let target = name.to_owned();
        let mut i: usize = 0;
        while i < self.files.len()
            invariant
                i <= self.files@.len(),
                target@ == name@,
                forall|j: int| 0 <= j < i ==> self@.files[j].name != name@,
            decreases self.files@.len() - i,
        {
            if self.files[i].name == target {
                assert(self@.files[i as int].name == name@);
                return Some(i);
            }
            i = i + 1;
        }
        None
    }

    /// Appends `file`, unless an entry of the same name is already there.
    pub fn add_file(&mut self, file: PakFileEntry) -> (r: Result<(), PakFileError>)
        ensures
            r is Ok <==> !has_name(old(self)@.files, file@.name),
            r matches Err(e) ==> e == PakFileError::DuplicateName,
            r is Ok ==> final(self)@ == (PakView {
                path: old(self)@.path,
                header: old(self)@.header,
                files: old(self)@.files.push(file@),
            }),
            r is Err ==> final(self)@ == old(self)@,
            names_unique(old(self)@.files) ==> names_unique(final(self)@.files),
    {
        match self.find_file(file.name.as_str()) {
            Some(_) => Err(PakFileError::DuplicateName),
            None => {
                self.files.push(file);
                assert(entries_view(self.files@) =~= old(self)@.files.push(file@));
                Ok(())
            },
        }
    }

    /// Removes the first entry called `filename`.
    pub fn remove_file(&mut self, filename: &str) -> (r: Result<(), PakFileError>)
        ensures
            r is Ok <==> has_name(old(self)@.files, filename@),
            r matches Err(e) ==> e == PakFileError::NotFound,
            r is Ok ==> exists|i: int|
                first_named(old(self)@.files, filename@, i) && final(self)@ == (PakView {
                    path: old(self)@.path,
                    header: old(self)@.header,
                    files: old(self)@.files.remove(i),
                }),
            r is Err ==> final(self)@ == old(self)@,
            names_unique(old(self)@.files) ==> names_unique(final(self)@.files),
    {
        match self.find_file(filename) {
            Some(i) => {
                self.files.remove(i);
                assert(entries_view(self.files@) =~= old(self)@.files.remove(i as int));
                assert(first_named(old(self)@.files, filename@, i as int));
                Ok(())
            },
            None => Err(PakFileError::NotFound),
        }
    }

    /// Adds a file read from disk as `name`, its data to be stored at
    /// `archive_len`, the length of the archive file it is appended to.
    pub fn append_file(&mut self, name: String, data: Vec<u8>, archive_len: u32) -> (r: Result<
        (),
        PakFileError,
    >)
        requires
            data@.len() <= u32::MAX,
        ensures
            r is Ok <==> !has_name(old(self)@.files, name@),
            r matches Err(e) ==> e == PakFileError::DuplicateName,
            r is Ok ==> final(self)@ == (PakView {
                path: old(self)@.path,
                header: old(self)@.header,
                files: old(self)@.files.push(
                    EntryView {
                        name: name@,
                        offset: archive_len,
                        size: data@.len() as u32,
                        data: data@,
                    },
                ),
            }),
            r is Err ==> final(self)@ == old(self)@,
    {
        let entry = PakFileEntry::new(name, archive_len, data);
        self.add_file(entry)
    }
}

} // verus!
