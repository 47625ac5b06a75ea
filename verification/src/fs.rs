//! The filesystem that the library works on, and the host's way with paths.
//!
//! The library never touches a disk itself. It asks a `Filesystem`, and
//! states what it does in terms of what that filesystem holds.

use crate::error::Error;
use crate::error::Failure;
use crate::matching::glob_accepts;
use crate::matching::glob_compiles;
use crate::matching::glob_match;
use crate::path::is_absolute;
use crate::path::join;
use crate::path::joined;
use crate::path::leaves;
use crate::path::path_leaves;
use crate::path::path_is_absolute;
use crate::path::relativize_path;
use crate::path::relativized;
use vstd::prelude::*;
use vstd::string::StringExecFns;

verus! {

/// A tree of files under one root.
///
/// The spec functions say what the tree holds; a value of the type stands
/// for the tree in one state. An implementation owns its tree: nothing else
/// changes it while the value lives, a path names one file, and a file has
/// one path. Reading leaves the tree as it is.
pub trait Filesystem: Sized {
    /// The directory that relative paths start from, where there is one.
    spec fn root(&self) -> Option<Seq<char>>;

    /// Whether the path names a regular file.
    spec fn is_file(&self, path: Seq<char>) -> bool;

    /// What asking for a regular file at the path gives: whether there is
    /// one, or why that cannot be said.
    spec fn has_file(&self, path: Seq<char>) -> Result<bool, Failure>;

    /// What the file at the path holds, or why it cannot be read.
    spec fn content(&self, path: Seq<char>) -> Result<Seq<u8>, Failure>;

    /// The paths that a glob pattern yields, or why it yields none.
    spec fn glob(&self, pattern: Seq<char>) -> Result<Seq<Seq<char>>, Failure>;

    /// Whether a glob pattern accepts the path, or why it cannot be asked.
    spec fn glob_match(&self, pattern: Seq<char>, path: Seq<char>) -> Result<bool, Failure>;

    /// The paths that name a regular file.
    spec fn files(&self) -> Set<Seq<char>>;

    /// What asking for the filesystem below a directory comes to: done, or
    /// the error.
    spec fn opens(&self, sub_directory: Seq<char>) -> Result<(), crate::error::ErrorView>;

    /// What writing the content to the file at the path comes to: done, or
    /// why it cannot be done.
    spec fn accepts(&self, path: Seq<char>, content: Seq<u8>) -> Result<(), Failure>;

    /// A tree holds finitely many files, and finds none but those.
    proof fn files_are_finite(&self)
        ensures
            self.files().finite(),
            forall|path: Seq<char>| self.is_file(path) <==> self.files().contains(path),
            forall|path: Seq<char>| self.has_file(path) == Ok::<bool, Failure>(true) ==> self.is_file(path),
    ;

    /// The directory that relative paths start from.
    fn working_directory(&self) -> (r: Option<String>)
        ensures
            r.deep_view() == self.root(),
    ;

    /// The same kind of filesystem, rooted at a directory below this one:
    /// a path there names what the directory and the path name here. It is
    /// given, or refused, as `opens` says.
    fn sub_system(&self, sub_directory: &str) -> (r: Result<Self, Error>)
        ensures
            match r {
                Ok(_) => self.opens(sub_directory@) is Ok,
                Err(e) => self.opens(sub_directory@) == Err::<(), crate::error::ErrorView>(e@),
            },
            r matches Ok(below) ==> forall|path: Seq<char>|
                path.len() > 0 && !is_absolute(path) ==> #[trigger] below.content(path)
                    == self.content(joined(sub_directory@, path)),
    ;

    /// Whether the path names a regular file; a directory does not.
    fn file_exists(&self, path: &str) -> (r: Result<bool, Failure>)
        ensures
            r == self.has_file(path@),
    ;

    /// Forgets what is known of the tree, which something else may have
    /// changed.
    fn refresh(&mut self)
    ;

    /// Everything that the file at the path holds.
    fn read_file(&self, path: &str) -> (r: Result<Vec<u8>, Failure>)
        ensures
            match r {
                Ok(bytes) => self.content(path@) == Ok::<Seq<u8>, Failure>(bytes@),
                Err(failure) => self.content(path@) == Err::<Seq<u8>, Failure>(failure),
            },
    ;

    /// Makes the file at the path hold exactly the content, creating it
    /// where there is none. No other file changes. The write is done, or
    /// refused, as `accepts` says.
    fn write_file(&mut self, path: &str, content: &[u8]) -> (r: Result<(), Failure>)
        ensures
            r == old(self).accepts(path@, content@),
            r is Ok ==> final(self).content(path@) == Ok::<Seq<u8>, Failure>(content@),
            forall|other: Seq<char>|
                other != path@ ==> final(self).content(other) == old(self).content(other),
            final(self).root() == old(self).root(),
    ;

    /// Deletes the file at the path. No other file changes.
    fn remove_file(&mut self, path: &str) -> (r: Result<(), Failure>)
        ensures
            r is Ok ==> final(self).content(path@) is Err,
            forall|other: Seq<char>|
                other != path@ ==> final(self).content(other) == old(self).content(other),
            final(self).root() == old(self).root(),
    ;

    /// Gives the file at `from_path` the name `to_path`, at once: where it
    /// fails, nothing has changed. No other file changes.
    fn move_from_to(&mut self, from_path: &str, to_path: &str) -> (r: Result<(), Failure>)
        ensures
            r is Ok ==> old(self).content(from_path@) is Ok && final(self).content(to_path@)
                == old(self).content(from_path@),
            r is Ok && from_path@ != to_path@ ==> final(self).content(from_path@) is Err,
            r is Err ==> final(self).content(from_path@) == old(self).content(from_path@)
                && final(self).content(to_path@) == old(self).content(to_path@),
            forall|other: Seq<char>|
                other != from_path@ && other != to_path@ ==> final(self).content(other) == old(
                    self,
                ).content(other),
            final(self).root() == old(self).root(),
    ;

    /// Creates the directory at the path and those above it. No file
    /// changes.
    fn create_directories(&mut self, path: &str) -> (r: Result<(), Failure>)
        ensures
            forall|other: Seq<char>| final(self).content(other) == old(self).content(other),
            final(self).root() == old(self).root(),
    ;

    /// Lets the owner of the file at the path execute it. No file's content
    /// changes.
    fn mark_as_executable(&mut self, path: &str) -> (r: Result<(), Failure>)
        ensures
            forall|other: Seq<char>| final(self).content(other) == old(self).content(other),
            final(self).root() == old(self).root(),
    ;

    /// The paths that a glob pattern yields, each relative to the root.
    fn execute_glob(&self, pattern: &str) -> (r: Result<Vec<String>, Failure>)
        ensures
            match r {
                Ok(paths) => self.glob(pattern@) == Ok::<Seq<Seq<char>>, Failure>(
                    paths.deep_view(),
                ),
                Err(failure) => self.glob(pattern@) == Err::<Seq<Seq<char>>, Failure>(failure),
            },
    ;

    /// Whether a glob pattern accepts the path; the directory is not read.
    fn glob_matches(&self, pattern: &str, path: &str) -> (r: Result<bool, Failure>)
        ensures
            r == self.glob_match(pattern@, path@),
    ;
}

/// Whether every relative path of `below` holds what the same path below
/// the directory holds in `above`.
pub open spec fn shows_below<F: Filesystem>(above: F, below: F, directory: Seq<char>) -> bool {
    forall|path: Seq<char>|
        path.len() > 0 && !is_absolute(path) ==> #[trigger] below.content(path) == above.content(
            joined(directory, path),
        )
}

/// Why a file could not be copied from one filesystem to another.
#[derive(Clone, Copy, Debug, PartialEq, Eq, Structural)]
pub enum IoError {
    /// It could not be read.
    SourceError(Failure),
    /// It could not be written.
    DestinationError(Failure),
}

/// What copying a file comes to: the error of the source where the file
/// cannot be read; else the error of the destination where it refuses the
/// write of what the file holds; else done.
pub open spec fn copied<S: Filesystem, D: Filesystem>(
    source: S,
    destination: D,
    source_path: Seq<char>,
    destination_path: Seq<char>,
) -> Result<(), IoError> {
    match source.content(source_path) {
        Err(failure) => Err(IoError::SourceError(failure)),
        Ok(bytes) => match destination.accepts(destination_path, bytes) {
            Err(failure) => Err(IoError::DestinationError(failure)),
            Ok(_) => Ok(()),
        },
    }
}

/// Makes the file at `destination_path` of one filesystem hold what the
/// file at `source_path` of another holds. No other file changes, and none
/// at all where the source cannot be read.
pub fn copy_file_to<S: Filesystem, D: Filesystem>(
    source_filesystem: &S,
    destination_filesystem: &mut D,
    source_path: &str,
    destination_path: &str,
) -> (r: Result<(), IoError>)
    ensures
        r == copied(
            *source_filesystem,
            *old(destination_filesystem),
            source_path@,
            destination_path@,
        ),
        source_filesystem.content(source_path@) is Err ==> *final(destination_filesystem) == *old(
            destination_filesystem,
        ),
        match r {
            Ok(_) => source_filesystem.content(source_path@) is Ok
                && final(destination_filesystem).content(destination_path@)
                == source_filesystem.content(source_path@),
            Err(IoError::SourceError(failure)) => source_filesystem.content(source_path@) == Err::<
                Seq<u8>,
                Failure,
            >(failure) && forall|path: Seq<char>|
                final(destination_filesystem).content(path) == old(destination_filesystem).content(
                    path,
                ),
            Err(IoError::DestinationError(_)) => source_filesystem.content(source_path@) is Ok,
        },
        forall|other: Seq<char>|
            other != destination_path@ ==> final(destination_filesystem).content(other)
                == old(destination_filesystem).content(other),
{
    let content = match source_filesystem.read_file(source_path) {
        Ok(content) => content,
        Err(failure) => {
            return Err(IoError::SourceError(failure));
        },
    };
    match destination_filesystem.write_file(destination_path, content.as_slice()) {
        Ok(_) => Ok(()),
        Err(failure) => Err(IoError::DestinationError(failure)),
    }
}

/// Makes the file at the path of one filesystem hold what the file at the
/// same path of another holds. No other file changes, and none at all
/// where the source cannot be read.
pub fn copy_file<S: Filesystem, D: Filesystem>(
    source_filesystem: &S,
    destination_filesystem: &mut D,
    path: &str,
) -> (r: Result<(), IoError>)
    ensures
        r == copied(*source_filesystem, *old(destination_filesystem), path@, path@),
        source_filesystem.content(path@) is Err ==> *final(destination_filesystem) == *old(
            destination_filesystem,
        ),
        match r {
            Ok(_) => source_filesystem.content(path@) is Ok
                && final(destination_filesystem).content(path@)
                == source_filesystem.content(path@),
            Err(IoError::SourceError(failure)) => source_filesystem.content(path@) == Err::<
                Seq<u8>,
                Failure,
            >(failure) && forall|other: Seq<char>|
                final(destination_filesystem).content(other) == old(destination_filesystem).content(
                    other,
                ),
            Err(IoError::DestinationError(_)) => source_filesystem.content(path@) is Ok,
        },
        forall|other: Seq<char>|
            other != path@ ==> final(destination_filesystem).content(other)
                == old(destination_filesystem).content(other),
{
    copy_file_to(source_filesystem, destination_filesystem, path, path)
}

/// The host's filesystem, as far as paths go: a working directory, and what
/// paths and patterns mean from there. Reading and writing is the caller's.
#[derive(Clone, Debug)]
pub struct HostFilesystem {
    working_directory: String,
}

/// A glob pattern as the host is asked it: the pattern itself where it is
/// absolute, else the working directory, `/`, and the pattern.
pub open spec fn host_pattern(working_directory: Seq<char>, pattern: Seq<char>) -> Seq<char> {
    if is_absolute(pattern) {
        pattern
    } else {
        working_directory + seq!['/'] + pattern
    }
}

/// A path as the host sees it from the working directory.
pub open spec fn host_path(working_directory: Seq<char>, path: Seq<char>) -> Seq<char> {
    if is_absolute(path) {
        path
    } else {
        joined(working_directory, path)
    }
}

impl View for HostFilesystem {
    type V = Seq<char>;

    /// The working directory.
    closed spec fn view(&self) -> Seq<char> {
        self.working_directory@
    }
}

impl HostFilesystem {
    /// A host filesystem rooted at the working directory, which must be
    /// absolute.
    pub fn try_new(working_directory: String) -> (r: Result<Self, Error>)
        ensures
            match r {
                Ok(filesystem) => is_absolute(working_directory@) && filesystem@
                    == working_directory@,
                Err(e) => !is_absolute(working_directory@) && e@
                    == (crate::error::ErrorView::RelativeWorkingDirectory {
                    path: working_directory@,
                }),
            },
    {
        if !path_is_absolute(working_directory.as_str()) {
            return Err(Error::RelativeWorkingDirectory { path: working_directory });
        }
        Ok(Self { working_directory })
    }

    /// The working directory.
    pub fn working_directory(&self) -> (r: &String)
        ensures
            r@ == self@,
    {
        &self.working_directory
    }

    /// Replaces the working directory, and returns the one before.
    pub fn set_working_directory(&mut self, working_directory: String) -> (r: String)
        ensures
            final(self)@ == working_directory@,
            r@ == old(self)@,
    {
        let mut previous = working_directory;
        std::mem::swap(&mut previous, &mut self.working_directory);
        previous
    }

    /// The path from the root: the path itself where it is absolute, else
    /// the path as seen from the working directory. The path is joined as
    /// it is written; `path_within` is for a path that must stay within the
    /// working directory.
    pub fn get_absolute_path(&self, path: &str) -> (r: String)
        ensures
            r@ == host_path(self@, path@),
    {
        if path_is_absolute(path) {
            path.to_owned()
        } else {
            join(self.working_directory.as_str(), path)
        }
    }

    /// The filesystem rooted at a directory below this one; it is refused
    /// where the directory leaves this one by `..`, and where that root is
    /// not absolute.
    pub fn sub_system(&self, sub_directory: &str) -> (r: Result<Self, Error>)
        ensures
            match r {
                Ok(filesystem) => !leaves(sub_directory@) && filesystem@ == joined(
                    self@,
                    sub_directory@,
                ) && is_absolute(filesystem@),
                Err(e) => if leaves(sub_directory@) {
                    e@ == (crate::error::ErrorView::OutsideRoot { path: sub_directory@ })
                } else {
                    !is_absolute(joined(self@, sub_directory@)) && e@
                        == (crate::error::ErrorView::RelativeWorkingDirectory {
                        path: joined(self@, sub_directory@),
                    })
                },
            },
    {
        if path_leaves(sub_directory) {
            return Err(Error::OutsideRoot { path: sub_directory.to_owned() });
        }
        Self::try_new(join(self.working_directory.as_str(), sub_directory))
    }

    /// The path as the host sees it from the working directory, for a path
    /// that stays within: a relative path that leaves the working directory
    /// by `..` is refused. An absolute path is taken as it is.
    pub fn path_within(&self, path: &str) -> (r: Result<String, Error>)
        ensures
            match r {
                Ok(full) => !leaves(path@) && full@ == host_path(self@, path@),
                Err(e) => leaves(path@) && e@ == (crate::error::ErrorView::OutsideRoot {
                    path: path@,
                }),
            },
    {
        if path_leaves(path) {
            return Err(Error::OutsideRoot { path: path.to_owned() });
        }
        Ok(self.get_absolute_path(path))
    }

    /// The pattern that the host is asked when this filesystem is asked
    /// `pattern`.
    pub fn glob_pattern(&self, pattern: &str) -> (r: String)
        ensures
            r@ == host_pattern(self@, pattern@),
    {
        if path_is_absolute(pattern) {
            pattern.to_owned()
        } else {
            let mut r = self.working_directory.clone();
            proof {
                reveal_strlit("/");
            }
            r.append("/");
            assert("/"@ =~= seq!['/']);
            r.append(pattern);
            r
        }
    }

    /// A path that the host found, as a path relative to the working
    /// directory; `None` where either of the two is not absolute.
    pub fn relative_path(&self, found: &str) -> (r: Option<String>)
        ensures
            r is Some <==> is_absolute(self@) && is_absolute(found@),
            r matches Some(path) ==> path@ == relativized(self@, found@),
    {
        if path_is_absolute(self.working_directory.as_str()) && path_is_absolute(found) {
            Some(relativize_path(self.working_directory.as_str(), found))
        } else {
            None
        }
    }

    /// Whether a glob pattern accepts the path, both seen from the working
    /// directory. A pattern that does not compile is an error.
    pub fn glob_matches(&self, pattern: &str, path: &str) -> (r: Result<bool, Failure>)
        ensures
            r == if glob_compiles(host_pattern(self@, pattern@)) {
                Ok::<bool, Failure>(
                    glob_accepts(host_pattern(self@, pattern@), host_path(self@, path@)),
                )
            } else {
                Err::<bool, Failure>(Failure::MalformedPattern)
            },
    {
        let full_path = self.get_absolute_path(path);
        let full_pattern = self.glob_pattern(pattern);
        match glob_match(full_pattern.as_str(), full_path.as_str()) {
            Some(accepted) => Ok(accepted),
            None => Err(Failure::MalformedPattern),
        }
    }
}

} // verus!
