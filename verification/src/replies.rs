//! What the answers of the filesystem mean for operations on a location.

use vstd::prelude::*;

use crate::error::{ErrorView, FileSystemError, IoFailure};
use crate::handle::{native_path, FileSystemHandle};
use crate::model::found_path;
use crate::promises::law_names_are_listed_one_by_one;
use crate::reserved::{decode_reserved, decoded, encoded, law_decode_inverts_encode};
use crate::target::{is_parent_of, option_view, parent, path_parent, Target};
use crate::text::name_views;

verus! {

/// The outcome of an operation whose every failure is an error.
pub fn complete<T>(outcome: Result<T, IoFailure>) -> (r: Result<T, FileSystemError>)
    ensures
        match outcome {
            Ok(value) => r == Ok::<T, FileSystemError>(value),
            Err(failure) => r matches Err(error) && error@ == ErrorView::Io(failure.message@),
        },
{
    match outcome {
        Ok(value) => Ok(value),
        Err(failure) => Err(FileSystemError::Io(failure.message)),
    }
}

/// The outcome of reading a file that may be absent.
pub fn complete_read_optional(outcome: Result<Vec<u8>, IoFailure>) -> (r: Result<
    Option<Vec<u8>>,
    FileSystemError,
>)
    ensures
        match outcome {
            Ok(contents) => r == Ok::<Option<Vec<u8>>, FileSystemError>(Some(contents)),
            Err(failure) => if failure.not_found {
                r == Ok::<Option<Vec<u8>>, FileSystemError>(None)
            } else {
                r matches Err(error) && error@ == ErrorView::Io(failure.message@)
            },
        },
{
    match outcome {
        Ok(contents) => Ok(Some(contents)),
        Err(failure) => if failure.not_found {
            Ok(None)
        } else {
            Err(FileSystemError::Io(failure.message))
        },
    }
}

/// The outcome of removing a file, which succeeds if the file is already absent.
pub fn complete_remove(outcome: Result<(), IoFailure>) -> (r: Result<(), FileSystemError>)
    ensures
        match outcome {
            Ok(()) => r is Ok,
            Err(failure) => if failure.not_found {
                r is Ok
            } else {
                r matches Err(error) && error@ == ErrorView::Io(failure.message@)
            },
        },
{
    match outcome {
        Ok(()) => Ok(()),
        Err(failure) => if failure.not_found {
            Ok(())
        } else {
            Err(FileSystemError::Io(failure.message))
        },
    }
}

/// The model of one step in reading a directory: the name of an entry, an entry
/// whose name is not UTF-8, or a failure.
pub enum EntryView {
    Name(Seq<char>),
    NotText,
    Failure(Seq<char>),
}

/// The model of what one step in reading a directory gave.
pub open spec fn entry_view(entry: Result<Option<String>, IoFailure>) -> EntryView {
    match entry {
        Ok(Some(name)) => EntryView::Name(name@),
        Ok(None) => EntryView::NotText,
        Err(failure) => EntryView::Failure(failure.message@),
    }
}

/// The models of the steps in reading a directory.
pub open spec fn entry_views(entries: Seq<Result<Option<String>, IoFailure>>) -> Seq<EntryView> {
    entries.map_values(|e: Result<Option<String>, IoFailure>| entry_view(e))
}

/// The logical name of an entry with the given name on disk.
pub open spec fn logical_name(separator: char, name: Seq<char>) -> Seq<char> {
    if separator == '\\' {
        decoded(name)
    } else {
        name
    }
}

/// The names in a directory: the logical names of all entries with a UTF-8
/// name, in order, or the first failure.
pub open spec fn listed(separator: char, entries: Seq<EntryView>) -> Result<
    Seq<Seq<char>>,
    ErrorView,
>
    decreases entries.len(),
{
    if entries.len() == 0 {
        Ok(Seq::empty())
    } else {
        match entries.last() {
            EntryView::Name(name) => match listed(separator, entries.drop_last()) {
                Ok(names) => Ok(names.push(logical_name(separator, name))),
                Err(error) => Err(error),
            },
            EntryView::NotText => listed(separator, entries.drop_last()),
            EntryView::Failure(message) => match listed(separator, entries.drop_last()) {
                Ok(_) => Err(ErrorView::Io(message)),
                Err(error) => Err(error),
            },
        }
    }
}

/// The model of the names in a directory or of the error why there are none.
pub open spec fn names_result(r: Result<Vec<String>, FileSystemError>) -> Result<
    Seq<Seq<char>>,
    ErrorView,
> {
    match r {
        Ok(names) => Ok(name_views(names@)),
        Err(error) => Err(error@),
    }
}

/// Whether a step in reading a directory gave an entry with a name.
pub open spec fn is_named(entry: Result<Option<String>, IoFailure>) -> bool {
    entry matches Ok(Some(_))
}

/// A failure stays the outcome, whatever is read after it.
proof fn lemma_failure_is_final(separator: char, entries: Seq<EntryView>, count: int)
    requires
        0 <= count <= entries.len(),
        listed(separator, entries.take(count)) is Err,
    ensures
        listed(separator, entries) == listed(separator, entries.take(count)),
    decreases entries.len(),
{
    if count == entries.len() {
        assert(entries.take(count) =~= entries);
    } else {
        assert(entries.drop_last().take(count) =~= entries.take(count));
        lemma_failure_is_final(separator, entries.drop_last(), count);
    }
}

/// The outcome of listing a directory, given what opening it and reading its
/// entries one by one gave. A directory that does not exist has no names.
pub fn complete_list(
    target: &Target,
    outcome: Result<Vec<Result<Option<String>, IoFailure>>, IoFailure>,
) -> (r: Result<Vec<String>, FileSystemError>)
    ensures
        match outcome {
            Ok(entries) => {
                &&& names_result(r) == listed(target@, entry_views(entries@))
                &&& (forall|i: int| 0 <= i < entries@.len() ==> is_named(#[trigger] entries@[i]))
                    ==> (r matches Ok(names) && names@.len() == entries@.len() && forall|i: int|
                    0 <= i < names@.len() ==> (#[trigger] names@[i])@ == if target@ == '\\' {
                        decoded(entries@[i]->Ok_0->Some_0@)
                    } else {
                        entries@[i]->Ok_0->Some_0@
                    })
            },
            Err(failure) => if failure.not_found {
                r matches Ok(names) && names@.len() == 0
            } else {
                r matches Err(error) && error@ == ErrorView::Io(failure.message@)
            },
        },
{
    let entries = match outcome {
        Ok(entries) => entries,
        Err(failure) => {
            if failure.not_found {
                return Ok(Vec::new());
            }
            return Err(FileSystemError::Io(failure.message));
        },
    };
    let mut names: Vec<String> = Vec::new();
    let ghost views = entry_views(entries@);
    let mut i: usize = 0;
    assert(name_views(names@) =~= Seq::empty());
    while i < entries.len()
        invariant
            i <= entries.len(),
            outcome == Ok::<Vec<Result<Option<String>, IoFailure>>, IoFailure>(entries),
            views == entry_views(entries@),
            listed(target@, views.take(i as int)) == Ok::<Seq<Seq<char>>, ErrorView>(
                name_views(names@),
            ),
        decreases entries.len() - i,
    {
        let ghost before = names@;
        proof {
            assert(views.take(i + 1).drop_last() =~= views.take(i as int));
            assert(views.take(i + 1).last() == entry_view(entries@[i as int]));
        }
        match &entries[i] {
            Ok(Some(name)) => {
                let logical = if target.is_windows() {
                    decode_reserved(name.as_str())
                } else {
                    name.clone()
                };
                names.push(logical);
                assert(name_views(names@) =~= name_views(before).push(
                    logical_name(target@, name@),
                ));
            },
            Ok(None) => {},
            Err(failure) => {
                proof {
                    lemma_failure_is_final(target@, views, i + 1);
                }
                return Err(FileSystemError::Io(failure.message.clone()));
            },
        }
        i = i + 1;
    }
    assert(views.take(i as int) =~= views);
    proof {
        use_type_invariant(target);
        if forall|k: int| 0 <= k < entries@.len() ==> is_named(#[trigger] entries@[k]) {
            let texts = Seq::new(entries@.len(), |k: int| entries@[k]->Ok_0->Some_0@);
            assert(views =~= texts.map_values(|text: Seq<char>| EntryView::Name(text))) by {
                assert forall|k: int| 0 <= k < views.len() implies views[k] == EntryView::Name(
                    texts[k],
                ) by {
                    assert(is_named(entries@[k]));
                }
            }
            law_names_are_listed_one_by_one(target@, texts);
            assert forall|k: int| 0 <= k < names@.len() implies (#[trigger] names@[k])@
                == name_views(names@)[k] by {}
        }
    }
    Ok(names)
}

/// Listing a Windows directory whose entries were created under the encoded
/// forms of some names gives back those names.
pub proof fn law_list_recovers_names(names: Seq<Seq<char>>)
    ensures
        listed('\\', names.map_values(|name: Seq<char>| EntryView::Name(encoded(name)))) == Ok::<
            Seq<Seq<char>>,
            ErrorView,
        >(names),
    decreases names.len(),
{
    let entries = names.map_values(|name: Seq<char>| EntryView::Name(encoded(name)));
    if names.len() > 0 {
        law_list_recovers_names(names.drop_last());
        law_decode_inverts_encode(names.last());
        assert(entries.drop_last() =~= names.drop_last().map_values(
            |name: Seq<char>| EntryView::Name(encoded(name)),
        ));
        assert(names.drop_last().push(names.last()) =~= names);
    } else {
        assert(names =~= Seq::empty());
    }
}

/// The native paths that writing a file needs.
#[derive(Debug, PartialEq, Eq)]
pub struct WritePaths {
    /// The directory to create first, if the path has one.
    pub parent: Option<String>,
    /// The file to write.
    pub path: String,
}

impl FileSystemHandle {
    /// The paths for writing the file at this location, parent directories
    /// included.
    pub fn write_paths(&self, target: &Target) -> (r: Result<WritePaths, FileSystemError>)
        ensures
            match native_path(target@, found_path(target@, self@)) {
                Ok(path) => r matches Ok(paths) && paths.path@ == path && option_view(paths.parent)
                    == path_parent(target@, path),
                Err(error) => r matches Err(e) && e@ == error,
            },
            r matches Ok(paths) ==> is_parent_of(target@, option_view(paths.parent), paths.path@),
    {
        match self.to_path(target) {
            Ok(path) => {
                let parent = parent(target, path.as_str());
                Ok(WritePaths { parent, path })
            },
            Err(error) => Err(error),
        }
    }

    /// The paths for renaming this location to another: from and to.
    pub fn rename_paths(&self, to: &FileSystemHandle, target: &Target) -> (r: Result<
        (String, String),
        FileSystemError,
    >)
        ensures
            match (
                native_path(target@, found_path(target@, self@)),
                native_path(target@, found_path(target@, to@)),
            ) {
                (Ok(source), Ok(destination)) => r matches Ok(paths) && paths.0@ == source
                    && paths.1@ == destination,
                (Err(error), _) => r matches Err(e) && e@ == error,
                (Ok(_), Err(error)) => r matches Err(e) && e@ == error,
            },
    {
        let source = match self.to_path(target) {
            Ok(path) => path,
            Err(error) => return Err(error),
        };
        match to.to_path(target) {
            Ok(destination) => Ok((source, destination)),
            Err(error) => Err(error),
        }
    }
}

} // verus!
