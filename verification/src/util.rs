//! Files that are in the way when a request fails.

use std::path::Path;

use vstd::prelude::*;

verus! {

/// `std::path::Path`: the place of a file.
#[verifier::external_type_specification]
#[verifier::external_body]
pub struct ExPath(std::path::Path);

/// `std::path::PathBuf`: the place of a file, owned.
#[verifier::external_type_specification]
#[verifier::external_body]
pub struct ExPathBuf(std::path::PathBuf);

/// A file that is deleted at the end, unless it is kept.
pub struct DeleteOnDrop<'a> {
    path: Option<&'a Path>,
}

impl<'a> DeleteOnDrop<'a> {
    /// The file that is deleted at the end, if one is.
    pub closed spec fn doomed(&self) -> Option<&'a Path> {
        self.path
    }

    /// Has a file deleted at the end.
    pub fn new(path: &'a Path) -> (guard: Self)
        ensures
            guard.doomed() == Some(path),
    {
        Self { path: Some(path) }
    }

    /// Spares the file.
    pub fn keep(&mut self)
        ensures
            final(self).doomed() is None,
    {
        self.path = None;
    }

    /// The file to delete now that the end has come, if there is one.
    pub fn on_drop(&self) -> (path: Option<&'a Path>)
        ensures
            path == self.doomed(),
    {
        self.path
    }
}

/// A file is deleted at the end exactly if it has not been kept.
pub proof fn kept_files_stay<'a>(
    path: &'a Path,
    fresh: DeleteOnDrop<'a>,
    at_once: Option<&'a Path>,
    guard: &mut DeleteOnDrop<'a>,
    kept: DeleteOnDrop<'a>,
    after: Option<&'a Path>,
)
    requires
        call_ensures(DeleteOnDrop::<'a>::new, (path,), fresh),
        call_ensures(DeleteOnDrop::<'a>::on_drop, (&fresh,), at_once),
        call_ensures(DeleteOnDrop::<'a>::keep, (guard,), ()),
        kept == *final(guard),
        call_ensures(DeleteOnDrop::<'a>::on_drop, (&kept,), after),
    ensures
        at_once == Some(path),
        after is None,
{
}

} // verus!
