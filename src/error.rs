use vstd::prelude::*;

verus! {

/// Why an archive operation failed.
#[derive(Debug, Clone, Copy, PartialEq, Eq, Structural)]
pub enum PakFileError {
    /// Fewer than 12 bytes, or a tag that is not text.
    MalformedHeader,
    /// A directory size that is not a multiple of 64, or a table past the end.
    MalformedDirectory,
    /// A record whose data lies past the end of the archive.
    OutOfBounds,
    /// A record whose name is not UTF-8.
    InvalidEncoding,
    /// A name longer than the 56 bytes of its field.
    NameTooLong,
    /// An entry of that name is already in the archive.
    DuplicateName,
    /// No entry of that name is in the archive.
    NotFound,
}

impl PakFileError {
    /// A short description of the error, for people.
    pub fn msg(&self) -> (r: &'static str) {
        match self {
            PakFileError::MalformedHeader => "malformed pak header",
            PakFileError::MalformedDirectory => "malformed pak directory",
            PakFileError::OutOfBounds => "file entry lies outside the pak",
            PakFileError::InvalidEncoding => "file entry name is not valid UTF-8",
            PakFileError::NameTooLong => "file entry name is longer than 56 bytes",
            PakFileError::DuplicateName => "File already exists",
            PakFileError::NotFound => "file entry not found",
        }
    }
}

} // verus!
