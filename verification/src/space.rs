//! Storage spaces in the filesystem.

use vstd::prelude::*;

use crate::error::{ErrorView, FileSystemError};
use crate::handle::{
    child_url, escape_error, escapes, handle_result, is_child, is_directory_handle,
    message_result, resolved, FileSystemHandle,
};
use crate::location::{
    handle_of_location, is_location_handle, location_path, Location, PlatformDirs,
};
use crate::model::{
    is_literal_segment, is_named_child, is_normal_path, is_plain_segment, is_unbroken, UrlView,
};
use crate::target::Target;
use crate::text::{chars_of, ends_with_slash, is_slash_terminated};

verus! {

/// Filesystem-based storage provider.
///
/// A transparent wrapper over the root location of a space. Each space is a
/// directory, and everything in it is resolved below the root: attempts to
/// escape it fail, via `..`, be it as a URL or as the native path that it stands
/// for, and via absolute paths.
#[derive(Debug)]
pub struct FileSystem(FileSystemHandle);

impl View for FileSystem {
    type V = UrlView;

    closed spec fn view(&self) -> UrlView {
        self.0@
    }
}

impl Clone for FileSystem {
    fn clone(&self) -> (r: FileSystem)
        ensures
            r@ == self@,
    {
        proof {
            use_type_invariant(self);
        }
        FileSystem(self.0.clone())
    }
}

/// The model of a space or of the error why there is none.
pub open spec fn space_result(r: Result<FileSystem, FileSystemError>) -> Result<
    UrlView,
    ErrorView,
> {
    match r {
        Ok(space) => Ok(space@),
        Err(error) => Err(error@),
    }
}

/// A segment that would be an absolute path if it were a reference of its own.
pub open spec fn is_absolute_segment(segment: Seq<char>) -> bool {
    segment.len() > 0 && (segment[0] == '/' || segment[0] == '\\')
}

/// What a segment resolves to under the root of a space.
pub open spec fn space_resolved(separator: char, root: UrlView, segment: Seq<char>) -> Result<
    UrlView,
    ErrorView,
> {
    if is_absolute_segment(segment) {
        Err(escapes(root, segment))
    } else {
        resolved(separator, root, segment)
    }
}

impl FileSystem {
    /// The root of a space is a directory.
    #[verifier::type_invariant]
    closed spec fn inv(self) -> bool {
        is_directory_handle(self.0@)
    }

    /// Opens the space at a location.
    pub fn open(target: &Target, location: &Location, dirs: &PlatformDirs) -> (r: Result<
        FileSystem,
        FileSystemError,
    >)
        ensures
            space_result(r) == handle_of_location(target@, *location, *dirs),
            location_path(target@, *location, *dirs) matches Ok(path) ==> is_location_handle(
                target@,
                path,
                message_result(dirs.current),
                space_result(r),
            ),
    {
        match FileSystemHandle::from_location(target, location, dirs) {
            Ok(handle) => Ok(FileSystem(handle)),
            Err(error) => Err(error),
        }
    }

    /// The space whose root is the directory at a handle. The handle of a file
    /// is the root of none.
    pub fn at(handle: FileSystemHandle) -> (r: Option<FileSystem>)
        ensures
            match r {
                Some(space) => ends_with_slash(handle@.path) && space@ == handle@,
                None => !ends_with_slash(handle@.path),
            },
    {
        if is_slash_terminated(handle.url().path()) {
            Some(FileSystem(handle))
        } else {
            None
        }
    }

    /// The handle for this provider's root location.
    pub fn handle(&self) -> (r: &FileSystemHandle)
        ensures
            r@ == self@,
            is_directory_handle(r@),
    {
        proof {
            use_type_invariant(self);
        }
        &self.0
    }

    /// Resolve a path segment under this space's root. An absolute segment is an
    /// attempt to escape it.
    pub fn resolve(&self, segment: &str) -> (r: Result<FileSystemHandle, FileSystemError>)
        ensures
            handle_result(r) == space_resolved('/', self@, segment@) || handle_result(r)
                == space_resolved('\\', self@, segment@),
            is_absolute_segment(segment@) ==> handle_result(r) == Err::<UrlView, ErrorView>(
                escapes(self@, segment@),
            ),
            !is_absolute_segment(segment@) ==> handle_result(r) == resolved('/', self@, segment@)
                || handle_result(r) == resolved('\\', self@, segment@),
            r matches Ok(child) ==> is_child('/', self@, child@) || is_child('\\', self@, child@),
            r matches Ok(child) ==> is_normal_path(self@.path) && is_unbroken(segment@)
                ==> is_normal_path(child@.path),
            is_plain_segment(segment@) ==> (r matches Ok(child) && child@ == child_url(
                self@,
                segment@,
            ) && child@.path == self@.path + segment@),
            is_literal_segment(segment@) ==> (r matches Ok(child) && is_named_child(
                self@,
                child@,
                segment@,
            )),
    {
        let chars = chars_of(segment);
        if chars.len() > 0 && (chars[0] == '/' || chars[0] == '\\') {
            proof {
                let rooted = seq!['/'] + segment@;
                assert(rooted[1] == segment@[0]);
            }
            return Err(escape_error(self.handle().url(), segment));
        }
        self.handle().resolve(segment)
    }
}

} // verus!
