//! Handles of filesystem locations.

use vstd::prelude::*;
use vstd::utf8::encode_utf8;

use crate::error::{ErrorView, FileSystemError};
use crate::laws::{
    law_named_children_lie_within, law_native_path_round_trips, law_plain_segments_resolve,
    law_slash_makes_a_handle, lemma_normal_directory, lemma_separator_behind, with_slash,
};
use crate::model::{
    directory_path, directory_url, file_path_url, found_path, is_literal_segment,
    is_named_child, is_normal_path, is_ordinary_path, is_plain_native, is_plain_segment,
    is_rooted_path, is_stable_path, is_unbroken, is_usual_path, joined_url, parsed_url,
    plain_url_path, slashed_url, stands_for, tidy_path, with_upper_drive, UrlView, MAX_URL_LEN,
};
use crate::percent::{leads_on, percent_decode, percent_decoded, places, places_of};
use crate::promises::{lemma_tidy_is_short, lemma_url_of_path_is_short};
use crate::record::{record_option, record_result, UrlRecord};
use crate::target::{
    are_file_names, file_path_result, is_absolute, is_absolute_path, is_path_of, is_prefix,
    join, joined_path, prefixed_path, starts_at_root, with_separator, Target,
};
use crate::text::{
    concat, ends_with_slash, is_slash_terminated, starts_with, trim_trailing_slashes,
    without_trailing_slashes,
};
use crate::windows::{
    are_legal, encode_windows_path, encoded_names, law_legal_names_are_kept, windows_path,
};

verus! {

/// A location in the filesystem, represented as a `file:` URL.
///
/// Resolves child paths with containment validation, and converts to native
/// filesystem paths.
#[derive(Debug)]
pub struct FileSystemHandle(UrlRecord);

impl View for FileSystemHandle {
    type V = UrlView;

    closed spec fn view(&self) -> UrlView {
        self.0@
    }
}

impl Clone for FileSystemHandle {
    fn clone(&self) -> (r: FileSystemHandle)
        ensures
            r@ == self@,
    {
        proof {
            use_type_invariant(self);
        }
        FileSystemHandle(self.0.clone())
    }
}

/// The model of a handle or of the error why there is none.
pub open spec fn handle_result(r: Result<FileSystemHandle, FileSystemError>) -> Result<
    UrlView,
    ErrorView,
> {
    match r {
        Ok(handle) => Ok(handle@),
        Err(error) => Err(error@),
    }
}

/// The handle of a URL: the directory at the URL, which has to be a `file:` URL.
pub open spec fn handle_of_url(url: UrlView) -> Result<UrlView, ErrorView> {
    if url.scheme != "file"@ {
        Err(ErrorView::Io("Expected file: URL, got "@ + url.scheme + ":"@))
    } else {
        match directory_url(url) {
            Some(directory) => Ok(directory),
            None => Err(ErrorView::Io("URL too long"@)),
        }
    }
}

/// What every handle of a directory is: a `file:` URL whose path starts with
/// one slash and ends with a slash.
pub open spec fn is_directory_handle(url: UrlView) -> bool {
    url.scheme == "file"@ && is_rooted_path(url.path) && ends_with_slash(url.path)
}

/// The handle of a text that was parsed as a URL.
pub open spec fn handle_of_parsed(parsed: Result<UrlView, Seq<char>>) -> Result<
    UrlView,
    ErrorView,
> {
    match parsed {
        Ok(url) => handle_of_url(url),
        Err(message) => Err(ErrorView::Io("Invalid URL: "@ + message)),
    }
}

/// The absolute form of a native path: the path itself, or the path below the
/// current directory.
pub open spec fn absolute_path(
    separator: char,
    path: Seq<char>,
    current: Result<Seq<char>, Seq<char>>,
) -> Result<Seq<char>, Seq<char>> {
    if is_absolute_path(separator, path) {
        Ok(path)
    } else {
        match current {
            Ok(directory) => Ok(joined_path(separator, directory, path)),
            Err(message) => Err(message),
        }
    }
}

/// The handle of an absolute native path that was turned into a URL.
pub open spec fn handle_of_file_url(url: Option<UrlView>) -> Result<UrlView, ErrorView> {
    match url {
        Some(found) => handle_of_url(found),
        None => Err(ErrorView::Io("Invalid path for URL conversion"@)),
    }
}

/// The handle of a native path.
pub open spec fn handle_of_path(
    separator: char,
    path: Seq<char>,
    current: Result<Seq<char>, Seq<char>>,
) -> Result<UrlView, ErrorView> {
    match absolute_path(separator, path, current) {
        Ok(absolute) => handle_of_file_url(file_path_url(separator, absolute)),
        Err(message) => Err(ErrorView::Io(message)),
    }
}

/// Whether a URL path lies in the directory of another one: it starts with it,
/// slash included, and so do the native paths that the two stand for, for the
/// target with the given separator, once `.` and `..` are resolved in them.
pub open spec fn is_within(separator: char, base: Seq<char>, path: Seq<char>) -> bool {
    let directory = directory_path(base);
    directory.is_prefix_of(path) && places(separator, percent_decoded(directory)).is_prefix_of(
        places(separator, percent_decoded(path)),
    )
}

/// The error for a segment that leads out of a base.
pub open spec fn escapes(base: UrlView, segment: Seq<char>) -> ErrorView {
    ErrorView::Containment("Path '"@ + segment + "' escapes base '"@ + base.href() + "'"@)
}

/// What becomes of a joined URL: it is kept if its path lies within the base.
pub open spec fn contained(
    separator: char,
    base: UrlView,
    segment: Seq<char>,
    joined: Result<UrlView, Seq<char>>,
) -> Result<UrlView, ErrorView> {
    match joined {
        Ok(url) => if is_within(separator, base.path, url.path) {
            Ok(url)
        } else {
            Err(escapes(base, segment))
        },
        Err(message) => Err(ErrorView::Io("Invalid path segment: "@ + message)),
    }
}

/// What a segment resolves to against a location. The base is the directory at
/// the location. Where giving the path a slash would change anything else in
/// it, the base lies elsewhere, and so would everything in it.
pub open spec fn resolved(separator: char, url: UrlView, segment: Seq<char>) -> Result<
    UrlView,
    ErrorView,
> {
    match directory_url(url) {
        Some(base) => if base.path == directory_path(url.path) {
            contained(separator, base, segment, joined_url(base, "./"@ + segment))
        } else {
            Err(escapes(base, segment))
        },
        None => Err(ErrorView::Io("URL too long"@)),
    }
}

/// The URL of what a plain segment names in the directory at a URL.
pub open spec fn child_url(url: UrlView, segment: Seq<char>) -> UrlView {
    UrlView { path: directory_path(url.path) + segment, suffix: Seq::empty(), ..url }
}

/// What everything that is resolved against a location is: a `file:` URL of the
/// same host, whose path starts with one slash and lies within the location.
pub open spec fn is_child(separator: char, base: UrlView, url: UrlView) -> bool {
    &&& url.scheme == "file"@ && url.prefix == base.prefix && is_rooted_path(url.path)
    &&& is_within(separator, base.path, url.path)
}

/// The model of a native path with the given text.
pub open spec fn native_text(text: Seq<char>) -> Result<Option<Seq<char>>, ()> {
    Ok(Some(text))
}

/// Whether a URL was turned into the Windows path with the given prefix and
/// names.
pub open spec fn gives(
    found: Result<Option<Seq<char>>, ()>,
    prefix: Seq<char>,
    names: Seq<Seq<char>>,
) -> bool {
    found matches Ok(Some(path)) && is_path_of(path, prefix, names)
}

/// A native Unix path without the slashes at its end. The root keeps one.
pub open spec fn clean_path(path: Seq<char>) -> Seq<char> {
    if ends_with_slash(path) && without_trailing_slashes(path).len() == 0 {
        seq!['/']
    } else {
        without_trailing_slashes(path)
    }
}

/// The native path that a URL stands for, given what the URL was turned into.
pub open spec fn native_path(separator: char, found: Result<Option<Seq<char>>, ()>) -> Result<
    Seq<char>,
    ErrorView,
> {
    match found {
        Ok(Some(path)) => if separator == '\\' {
            Ok(windows_path(separator, path))
        } else {
            Ok(clean_path(path))
        },
        Ok(None) => Err(ErrorView::Io("Path is not valid UTF-8 and cannot be normalized"@)),
        Err(()) => Err(ErrorView::Io("Failed to convert URL to path"@)),
    }
}

/// Whether a URL is that of a directory with the given native path. A path that
/// needs no escapes is written in it as it is.
pub open spec fn is_handle_of(separator: char, url: UrlView, path: Seq<char>) -> bool {
    &&& url.scheme == "file"@ && url.prefix == "file://"@ && url.suffix.len() == 0
    &&& is_normal_path(url.path) && ends_with_slash(url.path)
    &&& is_plain_native(separator, path) ==> url.path == directory_path(
        plain_url_path(separator, path),
    )
    &&& found_path(separator, url) == native_text(with_separator(separator, path))
}

/// What comes of an absolute native path. On Unix it always has a handle,
/// unless its URL is too long. A path in its usual form has one that gives back
/// the path, a drive perhaps in upper case, if three characters for each of its
/// bytes are not too long. On Unix doubled slashes, `.` and a slash at the end
/// make no difference.
pub open spec fn is_path_handle(
    separator: char,
    path: Seq<char>,
    outcome: Result<UrlView, ErrorView>,
) -> bool {
    &&& separator == '/' && starts_at_root(path) ==> (outcome matches Err(error) ==> error
        == ErrorView::Io("URL too long"@) && (file_path_url(separator, path) matches Some(url)
        && url.href().len() > MAX_URL_LEN))
    &&& is_usual_path(separator, path) ==> (outcome matches Ok(url) ==> is_handle_of(
        separator,
        url,
        path,
    ) || is_handle_of(separator, url, with_upper_drive(separator, path)))
    &&& separator == '/' && starts_at_root(path) && is_usual_path(separator, tidy_path(path)) ==> (
    outcome matches Ok(url) ==> is_handle_of(separator, url, tidy_path(path)))
    &&& separator == '/' && starts_at_root(path) && is_usual_path(separator, tidy_path(path)) && 8
        + 3 * encode_utf8(path).len() <= MAX_URL_LEN ==> outcome is Ok
    &&& is_usual_path(separator, path) && 8 + 3 * encode_utf8(path).len() <= MAX_URL_LEN
        ==> outcome is Ok
}

/// The model of a text or of the error why there is none.
pub open spec fn text_result(r: Result<String, FileSystemError>) -> Result<Seq<char>, ErrorView> {
    match r {
        Ok(text) => Ok(text@),
        Err(error) => Err(error@),
    }
}

/// The model of a text or of the message why there is none.
pub open spec fn message_result(r: Result<String, String>) -> Result<Seq<char>, Seq<char>> {
    match r {
        Ok(text) => Ok(text@),
        Err(message) => Err(message@),
    }
}

/// Whether a URL path lies in the directory of another one.
fn within(target: &Target, base: &str, path: &str) -> (r: bool)
    ensures
        r == is_within(target@, base@, path@),
{
    let mut directory = base.to_string();
    if !is_slash_terminated(base) {
        directory.push('/');
    }
    if !starts_with(path, directory.as_str()) {
        return false;
    }
    let outer = places_of(target, &percent_decode(directory.as_str()));
    let inner = places_of(target, &percent_decode(path));
    leads_on(&inner, &outer)
}

/// The error for a segment that leads out of a base.
pub(crate) fn escape_error(base: &UrlRecord, segment: &str) -> (r: FileSystemError)
    ensures
        r@ == escapes(base@, segment@),
{
    let message = concat("Path '", segment);
    let message = concat(message.as_str(), "' escapes base '");
    let message = concat(message.as_str(), base.as_str());
    FileSystemError::Containment(concat(message.as_str(), "'"))
}

/// Accepts the URL that a segment was joined to, if its path lies within the
/// base.
pub fn check_containment(
    target: &Target,
    base: &UrlRecord,
    segment: &str,
    joined: Result<UrlRecord, String>,
) -> (r: Result<UrlRecord, FileSystemError>)
    ensures
        match r {
            Ok(url) => contained(target@, base@, segment@, record_result(joined)) == Ok::<
                UrlView,
                ErrorView,
            >(url@),
            Err(error) => contained(target@, base@, segment@, record_result(joined)) == Err::<
                UrlView,
                ErrorView,
            >(error@),
        },
{
    match joined {
        Ok(url) => {
            if within(target, base.path(), url.path()) {
                Ok(url)
            } else {
                Err(escape_error(base, segment))
            }
        },
        Err(message) => Err(
            FileSystemError::Io(concat("Invalid path segment: ", message.as_str())),
        ),
    }
}

/// Turns what a URL gave as its native path into the path to use.
///
/// On Windows, characters that are illegal in file names are escaped. On Unix,
/// the trailing slash of the URL is stripped. A path that is not UTF-8, which
/// only a Unix path can be, is an error: lossy substitutions could collide.
pub fn normalize_path(target: &Target, found: Result<Option<String>, ()>) -> (r: Result<
    String,
    FileSystemError,
>)
    ensures
        text_result(r) == native_path(target@, file_path_result(found)),
        forall|prefix: Seq<char>, names: Seq<Seq<char>>|
            target@ == '\\' && #[trigger] gives(file_path_result(found), prefix, names)
                ==> text_result(r) == Ok::<Seq<char>, ErrorView>(
                prefixed_path(prefix, encoded_names(names)),
            ),
{
    match found {
        Ok(Some(path)) => {
            if target.is_windows() {
                Ok(encode_windows_path(target, path.as_str()))
            } else {
                let trimmed = trim_trailing_slashes(path.as_str());
                if is_slash_terminated(path.as_str()) && trimmed.as_str().is_empty() {
                    proof {
                        reveal_strlit("/");
                    }
                    assert("/"@ =~= seq!['/']);
                    Ok("/".to_string())
                } else {
                    Ok(trimmed)
                }
            }
        },
        Ok(None) => Err(
            FileSystemError::Io(
                "Path is not valid UTF-8 and cannot be normalized".to_string(),
            ),
        ),
        Err(()) => Err(FileSystemError::Io("Failed to convert URL to path".to_string())),
    }
}

impl TryFrom<UrlRecord> for FileSystemHandle {
    type Error = FileSystemError;

    fn try_from(url: UrlRecord) -> (r: Result<FileSystemHandle, FileSystemError>)
        ensures
            handle_result(r) == handle_of_url(url@),
            r matches Ok(handle) ==> is_directory_handle(handle@),
            r matches Ok(handle) ==> handle@.prefix == url@.prefix && handle@.suffix == url@.suffix,
            r is Ok == (url@.scheme == "file"@ && (ends_with_slash(url@.path) || url@.href().len()
                <= MAX_URL_LEN)),
            r matches Ok(handle) ==> is_stable_path(url@.path) ==> handle@.path == directory_path(
                url@.path,
            ),
    {
        let expected = "file".to_string();
        if url.scheme().to_string() != expected {
            let message = concat("Expected file: URL, got ", url.scheme());
            return Err(FileSystemError::Io(concat(message.as_str(), ":")));
        }
        match url.into_directory() {
            Some(directory) => Ok(FileSystemHandle(directory)),
            None => Err(FileSystemError::Io("URL too long".to_string())),
        }
    }
}

impl vstd::std_specs::convert::TryFromSpecImpl<UrlRecord> for FileSystemHandle {
    open spec fn obeys_try_from_spec() -> bool {
        false
    }

    open spec fn try_from_spec(url: UrlRecord) -> Result<Self, FileSystemError> {
        arbitrary()
    }
}

impl<'a> TryFrom<&'a str> for FileSystemHandle {
    type Error = FileSystemError;

    fn try_from(text: &'a str) -> (r: Result<FileSystemHandle, FileSystemError>)
        ensures
            handle_result(r) == handle_of_parsed(parsed_url(text@)),
            r matches Ok(handle) ==> is_directory_handle(handle@),
            is_unbroken(text@) ==> (parsed_url(text@) matches Ok(url) ==> url.scheme == "file"@
                ==> is_normal_path(url.path)),
            r is Ok == (parsed_url(text@) matches Ok(url) && url.scheme == "file"@ && (
            ends_with_slash(url.path) || url.href().len() <= MAX_URL_LEN)),
            r matches Ok(handle) ==> (parsed_url(text@) matches Ok(url) && handle@.prefix
                == url.prefix && handle@.suffix == url.suffix),
    {
        FileSystemHandle::from_parsed(UrlRecord::parse(text))
    }
}

impl<'a> vstd::std_specs::convert::TryFromSpecImpl<&'a str> for FileSystemHandle {
    open spec fn obeys_try_from_spec() -> bool {
        false
    }

    open spec fn try_from_spec(text: &'a str) -> Result<Self, FileSystemError> {
        arbitrary()
    }
}

impl TryFrom<String> for FileSystemHandle {
    type Error = FileSystemError;

    fn try_from(text: String) -> (r: Result<FileSystemHandle, FileSystemError>)
        ensures
            handle_result(r) == handle_of_parsed(parsed_url(text@)),
            r matches Ok(handle) ==> is_directory_handle(handle@),
            is_unbroken(text@) ==> (parsed_url(text@) matches Ok(url) ==> url.scheme == "file"@
                ==> is_normal_path(url.path)),
            r is Ok == (parsed_url(text@) matches Ok(url) && url.scheme == "file"@ && (
            ends_with_slash(url.path) || url.href().len() <= MAX_URL_LEN)),
            r matches Ok(handle) ==> (parsed_url(text@) matches Ok(url) && handle@.prefix
                == url.prefix && handle@.suffix == url.suffix),
    {
        FileSystemHandle::try_from(text.as_str())
    }
}

impl vstd::std_specs::convert::TryFromSpecImpl<String> for FileSystemHandle {
    open spec fn obeys_try_from_spec() -> bool {
        false
    }

    open spec fn try_from_spec(text: String) -> Result<Self, FileSystemError> {
        arbitrary()
    }
}

impl FileSystemHandle {
    /// A handle is a `file:` URL, whose path starts with exactly one slash.
    #[verifier::type_invariant]
    closed spec fn inv(self) -> bool {
        self.0@.scheme == "file"@ && is_rooted_path(self.0@.path)
    }

    /// The handle of a text that was parsed as a URL.
    pub fn from_parsed(parsed: Result<UrlRecord, String>) -> (r: Result<
        FileSystemHandle,
        FileSystemError,
    >)
        ensures
            handle_result(r) == handle_of_parsed(record_result(parsed)),
            r matches Ok(handle) ==> is_directory_handle(handle@),
            r is Ok == (parsed matches Ok(url) && url@.scheme == "file"@ && (ends_with_slash(
                url@.path,
            ) || url@.href().len() <= MAX_URL_LEN)),
            r matches Ok(handle) ==> (parsed matches Ok(url) && handle@.prefix == url@.prefix
                && handle@.suffix == url@.suffix),
    {
        match parsed {
            Ok(url) => FileSystemHandle::try_from(url),
            Err(message) => Err(FileSystemError::Io(concat("Invalid URL: ", message.as_str()))),
        }
    }

    /// The handle of an absolute native path that was turned into a URL.
    pub fn from_file_url(url: Option<UrlRecord>) -> (r: Result<FileSystemHandle, FileSystemError>)
        ensures
            handle_result(r) == handle_of_file_url(record_option(url)),
            r matches Ok(handle) ==> is_directory_handle(handle@),
            r is Ok == (url matches Some(found) && found@.scheme == "file"@ && (ends_with_slash(
                found@.path,
            ) || found@.href().len() <= MAX_URL_LEN)),
            r matches Ok(handle) ==> (url matches Some(found) && handle@.prefix == found@.prefix
                && handle@.suffix == found@.suffix),
    {
        match url {
            Some(found) => FileSystemHandle::try_from(found),
            None => Err(FileSystemError::Io("Invalid path for URL conversion".to_string())),
        }
    }

    /// Returns the underlying URL.
    pub fn url(&self) -> (r: &UrlRecord)
        ensures
            r@ == self@,
            r@.scheme == "file"@ && is_rooted_path(r@.path),
    {
        proof {
            use_type_invariant(self);
        }
        &self.0
    }

    /// Returns the URL path component of this location.
    pub fn path(&self) -> (r: &str)
        ensures
            r@ == self@.path,
            is_rooted_path(r@),
    {
        self.url().path()
    }

    /// Resolves a path segment relative to this location, validating containment.
    ///
    /// Returns an error if the resulting path escapes this location (e.g., via
    /// `..`), be it as a URL or, once it is decoded, as a native path. The
    /// segment is prefixed with `./` to ensure it is interpreted as a relative
    /// path, preventing segments containing `:` from being parsed as URL schemes.
    ///
    /// Which characters separate the names in a native path depends on the system
    /// that the program runs on; [`FileSystemHandle::resolve_on`] names it.
    pub fn resolve(&self, segment: &str) -> (r: Result<FileSystemHandle, FileSystemError>)
        ensures
            handle_result(r) == resolved('/', self@, segment@) || handle_result(r) == resolved(
                '\\',
                self@,
                segment@,
            ),
            r matches Ok(child) ==> is_child('/', self@, child@) || is_child('\\', self@, child@),
            r matches Ok(child) ==> is_normal_path(self@.path) && is_stable_path(self@.path)
                && is_unbroken(segment@) ==> is_normal_path(child@.path),
            is_plain_segment(segment@) && is_stable_path(self@.path) && directory_url(self@) is Some
                ==> (r matches Ok(child) && child@ == child_url(self@, segment@)),
            is_literal_segment(segment@) && is_stable_path(self@.path) && directory_url(
                self@,
            ) is Some ==> (r matches Ok(child) && is_named_child(self@, child@, segment@)),
    {
        self.resolve_on(&Target::current(), segment)
    }

    /// Resolves a path segment relative to this location, for paths under the
    /// rules of the given target.
    pub fn resolve_on(&self, target: &Target, segment: &str) -> (r: Result<
        FileSystemHandle,
        FileSystemError,
    >)
        ensures
            handle_result(r) == resolved(target@, self@, segment@),
            r matches Ok(child) ==> is_child(target@, self@, child@),
            r matches Ok(child) ==> is_normal_path(self@.path) && is_stable_path(self@.path)
                && is_unbroken(segment@) ==> is_normal_path(child@.path),
            is_plain_segment(segment@) && is_stable_path(self@.path) && directory_url(self@) is Some
                ==> (r matches Ok(child) && child@ == child_url(self@, segment@)),
            is_literal_segment(segment@) && is_stable_path(self@.path) && directory_url(
                self@,
            ) is Some ==> (r matches Ok(child) && is_named_child(self@, child@, segment@)),
    {
        proof {
            use_type_invariant(self);
            if is_plain_segment(segment@) && is_stable_path(self@.path) && directory_url(
                self@,
            ) is Some {
                law_plain_segments_resolve(target@, self@, segment@);
            }
        }
        let base = match self.0.clone().into_directory() {
            Some(base) => base,
            None => return Err(FileSystemError::Io("URL too long".to_string())),
        };
        let mut directory = self.path().to_string();
        if !is_slash_terminated(directory.as_str()) {
            directory.push('/');
        }
        if base.path().to_string() != directory {
            return Err(escape_error(&base, segment));
        }
        let relative = concat("./", segment);
        proof {
            reveal_strlit("./");
            if is_normal_path(self@.path) {
                lemma_normal_directory(self@.path);
            }
            if is_unbroken(segment@) {
                assert forall|i: int| 0 <= i < relative@.len() implies #[trigger] relative@[i]
                    != '\t' && relative@[i] != '\n' && relative@[i] != '\r' by {
                    if i >= 2 {
                        assert(relative@[i] == segment@[i - 2]);
                    }
                }
            }
        }
        let joined = base.join(relative.as_str());
        proof {
            assert(relative@.skip(2) =~= segment@);
            if is_literal_segment(segment@) && is_stable_path(self@.path) {
                let child = record_result(joined)->Ok_0;
                law_named_children_lie_within(target@, base@, child, segment@);
            }
        }
        match check_containment(target, &base, segment, joined) {
            Ok(url) => Ok(FileSystemHandle(url)),
            Err(error) => Err(error),
        }
    }

    /// The handle of a native path. A relative path is taken from the current
    /// directory, which is only needed then.
    pub fn from_path(target: &Target, path: &str, current: &Result<String, String>) -> (r: Result<
        FileSystemHandle,
        FileSystemError,
    >)
        ensures
            handle_result(r) == handle_of_path(target@, path@, message_result(*current)),
            r matches Ok(handle) ==> is_directory_handle(handle@),
            absolute_path(target@, path@, message_result(*current)) matches Ok(absolute)
                ==> is_path_handle(target@, absolute, handle_result(r)),
            target@ == '/' && !starts_at_root(path@) ==> match message_result(*current) {
                Ok(directory) => starts_at_root(directory) ==> forall|
                    other: Result<Seq<char>, Seq<char>>,
                |
                    handle_result(r) == #[trigger] handle_of_path(
                        target@,
                        joined_path(target@, directory, path@),
                        other,
                    ),
                Err(message) => handle_result(r) == Err::<UrlView, ErrorView>(
                    ErrorView::Io(message),
                ),
            },
    {
        let absolute = if is_absolute(target, path) {
            path.to_string()
        } else {
            match current {
                Ok(directory) => join(target, directory.as_str(), path),
                Err(message) => return Err(FileSystemError::Io(message.clone())),
            }
        };
        let url = UrlRecord::from_file_path(target, absolute.as_str());
        proof {
            use_type_invariant(target);
            reveal_strlit("file://");
            if is_usual_path(target@, absolute@) {
                let found = record_option(url)->0;
                let usual = if stands_for(target@, found, absolute@) {
                    absolute@
                } else {
                    with_upper_drive(target@, absolute@)
                };
                assert(directory_url(found) == Some(with_slash(found)) || directory_url(
                    found,
                ) is None) by {
                    assert(slashed_url(found) =~= with_slash(found) || ends_with_slash(found.path));
                    assert(ends_with_slash(found.path) ==> found =~= with_slash(found));
                }
                law_slash_makes_a_handle(target@, found, usual);
            }
            if target@ == '/' && is_usual_path(target@, tidy_path(absolute@)) && url is Some {
                let found = record_option(url)->0;
                assert(slashed_url(found) =~= with_slash(found) || ends_with_slash(found.path));
                assert(ends_with_slash(found.path) ==> found =~= with_slash(found));
                law_slash_makes_a_handle(target@, found, tidy_path(absolute@));
                lemma_url_of_path_is_short(target@, found, tidy_path(absolute@));
                lemma_tidy_is_short(absolute@);
            }
        }
        FileSystemHandle::from_file_url(url)
    }

    /// The native path of this location, without a trailing slash.
    ///
    /// On Windows a location on a drive or a share gives that and the encoded names.
    /// The handle of a path in its usual form gives back the path; on Windows it
    /// does so where no name holds a reserved character.
    pub fn to_path(&self, target: &Target) -> (r: Result<String, FileSystemError>)
        ensures
            text_result(r) == native_path(target@, found_path(target@, self@)),
            forall|prefix: Seq<char>, names: Seq<Seq<char>>|
                target@ == '\\' && #[trigger] gives(found_path(target@, self@), prefix, names)
                    ==> text_result(r) == Ok::<Seq<char>, ErrorView>(
                    prefixed_path(prefix, encoded_names(names)),
                ),
            forall|path: Seq<char>|
                target@ == '/' && (path == seq!['/'] || is_ordinary_path(path))
                    && #[trigger] is_handle_of(target@, self@, path) ==> text_result(r) == Ok::<
                    Seq<char>,
                    ErrorView,
                >(path),
            forall|prefix: Seq<char>, names: Seq<Seq<char>>|
                target@ == '\\' && is_prefix(prefix) && are_file_names(names) && are_legal(names)
                    && is_handle_of(target@, self@, #[trigger] prefixed_path(prefix, names))
                    ==> text_result(r) == Ok::<Seq<char>, ErrorView>(prefixed_path(prefix, names)),
    {
        proof {
            use_type_invariant(self);
        }
        let found = self.0.to_file_path(target);
        let r = normalize_path(target, found);
        proof {
            assert forall|path: Seq<char>|
                target@ == '/' && (path == seq!['/'] || is_ordinary_path(path))
                    && #[trigger] is_handle_of(target@, self@, path) implies text_result(r)
                == Ok::<Seq<char>, ErrorView>(path) by {
                law_native_path_round_trips(self@, path);
            }
            assert forall|prefix: Seq<char>, names: Seq<Seq<char>>|
                target@ == '\\' && is_prefix(prefix) && are_file_names(names) && are_legal(names)
                    && is_handle_of(
                    target@,
                    self@,
                    #[trigger] prefixed_path(prefix, names),
                ) implies text_result(r) == Ok::<Seq<char>, ErrorView>(
                prefixed_path(prefix, names),
            ) by {
                law_legal_names_are_kept(names);
                lemma_separator_behind(prefix, names);
                assert(gives(found_path(target@, self@), prefix, names));
            }
        }
        r
    }
}

} // verus!
