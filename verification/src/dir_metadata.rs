//! The metadata of a directory, in the plain form in which it is handed to
//! callers of other languages.

use vstd::prelude::*;

verus! {

/// The metadata of a directory: its name, what the user attached to it,
/// whether it is private, and when it was created and last modified. Each
/// time is given in whole seconds and the nanoseconds beyond them.
#[derive(Debug, PartialEq, Eq)]
pub struct DirMetadata {
    /// The name of the directory, as UTF-8.
    pub name: Vec<u8>,
    /// What the user attached to the directory.
    pub user_metadata: Vec<u8>,
    /// Whether the directory is encrypted.
    pub is_private: bool,
    /// The seconds of the time of creation.
    pub creation_time_sec: i64,
    /// The nanoseconds of the time of creation.
    pub creation_time_nsec: i64,
    /// The seconds of the time of the last modification.
    pub modification_time_sec: i64,
    /// The nanoseconds of the time of the last modification.
    pub modification_time_nsec: i64,
}

impl DirMetadata {
    /// The metadata of the directory `name` that was created at `created`
    /// and last modified at `modified`, each given as seconds and
    /// nanoseconds.
    pub fn new(
        name: Vec<u8>,
        user_metadata: Vec<u8>,
        is_private: bool,
        created: (i64, i32),
        modified: (i64, i32),
    ) -> (metadata: DirMetadata)
        ensures
            metadata.name@ == name@,
            metadata.user_metadata@ == user_metadata@,
            metadata.is_private == is_private,
            metadata.creation_time_sec == created.0,
            metadata.creation_time_nsec == created.1,
            metadata.modification_time_sec == modified.0,
            metadata.modification_time_nsec == modified.1,
    {
        DirMetadata {
            name,
            user_metadata,
            is_private,
            creation_time_sec: created.0,
            creation_time_nsec: created.1 as i64,
            modification_time_sec: modified.0,
            modification_time_nsec: modified.1 as i64,
        }
    }

    /// The number of bytes of the name.
    pub fn name_len(&self) -> (n: usize)
        ensures
            n == self.name@.len(),
    {
        self.name.len()
    }

    /// The number of bytes of what the user attached.
    pub fn user_metadata_len(&self) -> (n: usize)
        ensures
            n == self.user_metadata@.len(),
    {
        self.user_metadata.len()
    }
}

} // verus!
