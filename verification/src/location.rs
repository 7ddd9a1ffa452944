//! Named storage locations and the directories they lie in.

use vstd::prelude::*;

use crate::error::{ErrorView, FileSystemError};
use crate::handle::{
    absolute_path, handle_of_path, handle_result, is_directory_handle, is_path_handle,
    message_result, FileSystemHandle,
};
use crate::model::UrlView;
use crate::target::{is_adjoined, join, joined_path, option_view, with_separator, Target};
use crate::text::name_views;

verus! {

/// The directory that a storage location lies in.
#[derive(Debug, PartialEq, Eq)]
pub enum Directory {
    /// The storage directory below the platform's data directory.
    Profile,
    /// The current directory.
    Current,
    /// The platform's directory for temporary files.
    Temp,
    /// The directory with the given native path.
    At(String),
}

/// A storage location: a name in a directory.
#[derive(Debug, PartialEq, Eq)]
pub struct Location {
    /// The directory that the location lies in.
    pub directory: Directory,
    /// The name in the directory, or nothing for the directory itself.
    pub name: String,
}

/// The directories of the platform, as the running program found them.
#[derive(Debug, PartialEq, Eq)]
pub struct PlatformDirs {
    /// The data directory of the user, where the platform has one.
    pub data: Option<String>,
    /// The current directory, or why it could not be found.
    pub current: Result<String, String>,
    /// The directory for temporary files.
    pub temp: String,
}

/// The native path of the platform directory that a directory lies in or is, or
/// the message why it has none.
pub open spec fn directory_base(directory: Directory, dirs: PlatformDirs) -> Result<
    Seq<char>,
    Seq<char>,
> {
    match directory {
        Directory::Profile => match option_view(dirs.data) {
            Some(data) => Ok(data),
            None => Err("could not determine platform data directory"@),
        },
        Directory::Current => message_result(dirs.current),
        Directory::Temp => Ok(dirs.temp@),
        Directory::At(path) => Ok(path@),
    }
}

/// The names that lead from the platform directory to a location: that of the
/// storage directory in the data directory, and that of the location, if it has
/// one.
pub open spec fn location_names(location: Location) -> Seq<Seq<char>> {
    let directory = match location.directory {
        Directory::Profile => seq!["dialog"@],
        _ => Seq::empty(),
    };
    if location.name@.len() == 0 {
        directory
    } else {
        directory.push(location.name@)
    }
}

/// A native path with names joined to it, one after the other.
pub open spec fn joined_names(separator: char, base: Seq<char>, names: Seq<Seq<char>>) -> Seq<char>
    decreases names.len(),
{
    if names.len() == 0 {
        base
    } else {
        joined_path(separator, joined_names(separator, base, names.drop_last()), names.last())
    }
}

/// The native path of a location, or the message why it has none.
pub open spec fn location_path(separator: char, location: Location, dirs: PlatformDirs) -> Result<
    Seq<char>,
    Seq<char>,
> {
    match directory_base(location.directory, dirs) {
        Ok(base) => Ok(joined_names(separator, base, location_names(location))),
        Err(message) => Err(message),
    }
}

/// The handle of a location.
pub open spec fn handle_of_location(
    separator: char,
    location: Location,
    dirs: PlatformDirs,
) -> Result<UrlView, ErrorView> {
    match location_path(separator, location, dirs) {
        Ok(path) => handle_of_path(separator, path, message_result(dirs.current)),
        Err(message) => Err(ErrorView::Io(message)),
    }
}

impl Location {
    /// The location with a name in a directory.
    pub fn new(directory: Directory, name: &str) -> (r: Location)
        ensures
            r.directory == directory,
            r.name@ == name@,
    {
        Location { directory, name: name.to_string() }
    }

    /// The names that lead from the platform directory to the location.
    pub fn names(&self) -> (r: Vec<String>)
        ensures
            name_views(r@) == location_names(*self),
    {
        let mut names: Vec<String> = Vec::new();
        match &self.directory {
            Directory::Profile => names.push("dialog".to_string()),
            _ => {},
        }
        if !self.name.as_str().is_empty() {
            names.push(self.name.clone());
        }
        assert(name_views(names@) =~= location_names(*self));
        names
    }

    /// The native path of the location.
    pub fn path(&self, target: &Target, dirs: &PlatformDirs) -> (r: Result<String, FileSystemError>)
        ensures
            match r {
                Ok(path) => location_path(target@, *self, *dirs) == Ok::<Seq<char>, Seq<char>>(
                    path@,
                ),
                Err(error) => location_path(target@, *self, *dirs) matches Err(message) && error@
                    == ErrorView::Io(message),
            },
    {
        let base = match &self.directory {
            Directory::Profile => match &dirs.data {
                Some(data) => data.clone(),
                None => return Err(
                    FileSystemError::Io("could not determine platform data directory".to_string()),
                ),
            },
            Directory::Current => match &dirs.current {
                Ok(current) => current.clone(),
                Err(message) => return Err(FileSystemError::Io(message.clone())),
            },
            Directory::Temp => dirs.temp.clone(),
            Directory::At(path) => path.clone(),
        };
        let names = self.names();
        let ghost views = name_views(names@);
        let mut path = base.clone();
        let mut i: usize = 0;
        assert(views.take(0) =~= Seq::empty());
        while i < names.len()
            invariant
                i <= names.len(),
                views == name_views(names@),
                path@ == joined_names(target@, base@, views.take(i as int)),
            decreases names.len() - i,
        {
            assert(views.take(i + 1).drop_last() =~= views.take(i as int));
            path = join(target, path.as_str(), names[i].as_str());
            i = i + 1;
        }
        assert(views.take(i as int) =~= views);
        Ok(path)
    }
}

impl FileSystemHandle {
    /// Resolve a location to a filesystem handle.
    pub fn from_location(target: &Target, location: &Location, dirs: &PlatformDirs) -> (r: Result<
        FileSystemHandle,
        FileSystemError,
    >)
        ensures
            handle_result(r) == handle_of_location(target@, *location, *dirs),
            r matches Ok(handle) ==> is_directory_handle(handle@),
            location_path(target@, *location, *dirs) matches Ok(path) ==> is_location_handle(
                target@,
                path,
                message_result(dirs.current),
                handle_result(r),
            ),
    {
        match location.path(target, dirs) {
            Ok(path) => FileSystemHandle::from_path(target, path.as_str(), &dirs.current),
            Err(error) => Err(error),
        }
    }
}

/// What comes of the native path of a location: what comes of its absolute form.
pub open spec fn is_location_handle(
    separator: char,
    path: Seq<char>,
    current: Result<Seq<char>, Seq<char>>,
    outcome: Result<UrlView, ErrorView>,
) -> bool {
    absolute_path(separator, path, current) matches Ok(absolute) ==> is_path_handle(
        separator,
        absolute,
        outcome,
    )
}

/// The native path of a directory in which locations lie.
pub open spec fn directory_text(separator: char, directory: Directory, base: Seq<char>) -> Seq<
    char,
> {
    match directory {
        Directory::Profile => with_separator(separator, base) + "dialog"@,
        _ => base,
    }
}

/// A location lies in its directory under its name, and one without a name is
/// the directory. The directory of a profile lies in the data directory, every
/// other one is what it is called.
pub proof fn law_location_lies_in_its_directory(
    separator: char,
    location: Location,
    dirs: PlatformDirs,
    base: Seq<char>,
)
    requires
        directory_base(location.directory, dirs) == Ok::<Seq<char>, Seq<char>>(base),
        location.directory is Profile ==> is_adjoined(separator, base, "dialog"@),
        location.name@.len() > 0 ==> is_adjoined(
            separator,
            directory_text(separator, location.directory, base),
            location.name@,
        ),
    ensures
        location_path(separator, location, dirs) == Ok::<Seq<char>, Seq<char>>(
            if location.name@.len() == 0 {
                directory_text(separator, location.directory, base)
            } else {
                with_separator(separator, directory_text(separator, location.directory, base))
                    + location.name@
            },
        ),
{
    let names = location_names(location);
    reveal_with_fuel(joined_names, 3);
    if names.len() > 0 {
        assert(names.drop_last().len() == names.len() - 1);
        if names.len() == 2 {
            assert(names.drop_last().last() == "dialog"@);
        }
    }
}

} // verus!
