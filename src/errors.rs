//! The error kinds that the library reports.
use vstd::prelude::*;

verus! {

/// Every failure of the library, each with the values that identify it.
#[derive(Debug, Clone, PartialEq, Eq)]
pub enum CustomError {
    /// A line of the mount table named by the field lacks a device or a mount path.
    FileParseFailed(String),
    /// The `.trashinfo` file at the given location does not hold valid metadata.
    TrashInfoParseFailure(String),
    /// No single mounted filesystem holds the home trash; carries the number found.
    HomeTrashNotDetermined(usize),
    /// The file to trash does not exist.
    BadQueryFileNotFound(String),
    /// No mounted filesystem holds the file to trash.
    TrashDirNotFound(String),
    /// The mandatory trash directory (first field) could not be created while
    /// trashing the file (second field).
    CreateDirectoryFailed(String, String),
    /// Every suffixed name for the file is taken.
    UnableToFindSuitableName(String),
    /// A file name could not be taken from the path.
    CouldNotRetrieveFileName(String),
    /// The file (first field) does not lie below the parent of the trash directory (second field).
    FileNotRelative(String, String),
    /// A required configuration value (the named environment variable) is absent.
    ConfigurationMissing(String),
    /// A path could not be represented as text.
    PathInvalidUnicode,
    /// The local date and time could not be determined.
    LocalTimeUnavailable,
    /// The filesystem refused a step of placing a file (an exclusive creation,
    /// the write of the record, the move or the copy); carries its message.
    PlacementFailed(String),
}

} // verus!
