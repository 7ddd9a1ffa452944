//! The model of URLs and of what is done with them.

use vstd::prelude::*;
use vstd::utf8::*;

use crate::percent::percent_decoded;
use crate::target::{are_file_names, is_drive, prefixed_path, starts_at_root, with_separator};
use crate::text::ends_with_slash;

verus! {

/// The model of a URL: its scheme, and its text in three parts, which are all
/// that stands before the path, the path, and all that stands behind it.
#[verifier::ext_equal]
pub struct UrlView {
    pub scheme: Seq<char>,
    pub prefix: Seq<char>,
    pub path: Seq<char>,
    pub suffix: Seq<char>,
}

impl UrlView {
    /// The whole text of the URL.
    pub open spec fn href(self) -> Seq<char> {
        self.prefix + self.path + self.suffix
    }
}

/// Whether `path[start..end]` is what stands between two slashes of a path, or
/// behind its last one.
pub open spec fn is_segment(path: Seq<char>, start: int, end: int) -> bool {
    &&& 0 < start <= end <= path.len()
    &&& path[start - 1] == '/'
    &&& end == path.len() || path[end] == '/'
    &&& forall|k: int| start <= k < end ==> path[k] != '/'
}

/// A dot, plain or percent-encoded.
pub open spec fn is_dot(s: Seq<char>) -> bool {
    ||| s.len() == 1 && s[0] == '.'
    ||| s.len() == 3 && s[0] == '%' && s[1] == '2' && (s[2] == 'e' || s[2] == 'E')
}

/// A segment that stands for the parent of the directory.
pub open spec fn is_double_dot(s: Seq<char>) -> bool {
    ||| s.len() >= 1 && is_dot(s.take(1)) && is_dot(s.skip(1))
    ||| s.len() >= 3 && is_dot(s.take(3)) && is_dot(s.skip(3))
}

/// A segment that stands for the directory itself or for its parent.
pub open spec fn is_dot_segment(s: Seq<char>) -> bool {
    is_dot(s) || is_double_dot(s)
}

/// A path without dot segments.
pub open spec fn is_dotless(path: Seq<char>) -> bool {
    forall|start: int, end: int| #[trigger]
        is_segment(path, start, end) ==> !is_dot_segment(path.subrange(start, end))
}

/// A path that starts with exactly one slash.
pub open spec fn is_rooted_path(path: Seq<char>) -> bool {
    starts_at_root(path) && (path.len() > 1 ==> path[1] != '/')
}

/// A path that starts with exactly one slash and has no dot segment.
pub open spec fn is_normal_path(path: Seq<char>) -> bool {
    is_rooted_path(path) && is_dotless(path)
}

/// An ASCII letter.
pub open spec fn is_letter(c: char) -> bool {
    'a' <= c <= 'z' || 'A' <= c <= 'Z'
}

/// A path whose first segment is a letter and a bar, an old way to write a
/// Windows drive.
pub open spec fn has_bar_drive(path: Seq<char>) -> bool {
    &&& path.len() >= 3
    &&& path[0] == '/' && is_letter(path[1]) && path[2] == '|'
    &&& path.len() == 3 || path[3] == '/'
}

/// A path that keeps its form when a slash is put behind it, or that has one
/// there.
pub open spec fn is_stable_path(path: Seq<char>) -> bool {
    ends_with_slash(path) || is_normal_path(path) && !has_bar_drive(path)
}

/// A path with a slash at its end.
pub open spec fn directory_path(path: Seq<char>) -> Seq<char> {
    if ends_with_slash(path) {
        path
    } else {
        path.push('/')
    }
}

/// A character that stands for itself in the path of a URL.
pub open spec fn is_plain_char(c: char) -> bool {
    ||| is_letter(c)
    ||| '0' <= c <= '9'
    ||| c == '-' || c == '.' || c == '_' || c == '~'
    ||| c == '!' || c == '$' || c == '&' || c == '\'' || c == '(' || c == ')'
    ||| c == '*' || c == '+' || c == ',' || c == ';' || c == '='
    ||| c == ':' || c == '@'
}

/// A normal path that holds nothing but slashes and characters that stand for
/// themselves.
pub open spec fn is_plain_path(path: Seq<char>) -> bool {
    &&& is_normal_path(path)
    &&& forall|i: int| 0 <= i < path.len() ==> path[i] == '/' || is_plain_char(#[trigger] path[i])
}

/// A relative path that keeps its form when it is put behind a directory.
pub open spec fn is_plain_segment(segment: Seq<char>) -> bool {
    is_plain_path(seq!['/'] + segment)
}

/// A text that a URL path takes as it is: nothing but slashes, percent signs and
/// characters that stand for themselves.
pub open spec fn is_written_text(text: Seq<char>) -> bool {
    forall|i: int|
        0 <= i < text.len() ==> text[i] == '/' || text[i] == '%' || is_plain_char(
            #[trigger] text[i],
        )
}

/// A path that is written in a URL as it is.
pub open spec fn is_written_path(path: Seq<char>) -> bool {
    is_normal_path(path) && is_written_text(path)
}

/// The part of a text up to its last slash, slash included.
pub open spec fn up_to_slash(text: Seq<char>) -> Seq<char>
    decreases text.len(),
{
    if text.len() == 0 || ends_with_slash(text) {
        text
    } else {
        up_to_slash(text.drop_last())
    }
}

/// The directory that a directory lies in.
pub open spec fn parent_directory(directory: Seq<char>) -> Seq<char> {
    up_to_slash(directory.drop_last())
}

/// A directory that `..` leads out of: not the root, and not called like a
/// Windows drive.
pub open spec fn has_parent(directory: Seq<char>) -> bool {
    let name = directory.drop_last().skip(parent_directory(directory).len() as int);
    &&& directory.len() > 1
    &&& !(name.len() == 2 && is_letter(name[0]) && (name[1] == ':' || name[1] == '|'))
}

/// Where `..` leads from a directory.
pub open spec fn climbed(directory: Seq<char>) -> Seq<char> {
    if has_parent(directory) {
        parent_directory(directory)
    } else {
        directory
    }
}

/// The directory that a segment and a slash lead to from a directory.
pub open spec fn passed(directory: Seq<char>, name: Seq<char>) -> Seq<char> {
    if is_double_dot(name) {
        climbed(directory)
    } else if is_dot(name) {
        directory
    } else {
        directory + name.push('/')
    }
}

/// The directory that a relative path leads through last, and the segment that
/// is left there.
pub open spec fn trail(directory: Seq<char>, segment: Seq<char>) -> (Seq<char>, Seq<char>)
    decreases segment.len(),
{
    if segment.len() == 0 {
        (directory, Seq::empty())
    } else {
        let (reached, name) = trail(directory, segment.drop_last());
        if segment.last() == '/' {
            (passed(reached, name), Seq::empty())
        } else {
            (reached, name.push(segment.last()))
        }
    }
}

/// Where a relative path leads from a directory, with its dot segments resolved.
pub open spec fn arrival(directory: Seq<char>, segment: Seq<char>) -> Seq<char> {
    let (reached, name) = trail(directory, segment);
    if is_double_dot(name) {
        climbed(reached)
    } else if is_dot(name) {
        reached
    } else {
        reached + name
    }
}

/// A path with one slash in place of those that it starts with.
pub open spec fn with_one_root(path: Seq<char>) -> Seq<char>
    decreases path.len(),
{
    if path.len() > 1 && path[0] == '/' && path[1] == '/' {
        with_one_root(path.skip(1))
    } else {
        path
    }
}

/// A text without tabs and line breaks, which the parser of URLs drops.
pub open spec fn is_unbroken(text: Seq<char>) -> bool {
    forall|i: int|
        0 <= i < text.len() ==> #[trigger] text[i] != '\t' && text[i] != '\n' && text[i] != '\r'
}

/// A relative path that names what it is, without escapes and without anything
/// that means more in a reference than in a path.
pub open spec fn is_literal_segment(segment: Seq<char>) -> bool {
    &&& is_normal_path(seq!['/'] + segment) && !has_bar_drive(seq!['/'] + segment)
    &&& percent_decoded(segment) == encode_utf8(segment)
    &&& is_unbroken(segment) && (segment.len() > 0 ==> segment.last() > ' ')
    &&& forall|i: int|
        0 <= i < segment.len() ==> #[trigger] segment[i] != '?' && segment[i] != '#' && segment[i]
            != '\\'
}

/// Whether a URL is what a segment names in the directory at another one: the
/// same host, nothing behind the path, and a path below the directory that
/// stands for the segment.
pub open spec fn is_named_child(base: UrlView, child: UrlView, segment: Seq<char>) -> bool {
    let directory = directory_path(base.path);
    &&& child.scheme == base.scheme && child.prefix == base.prefix && child.suffix.len() == 0
    &&& directory.is_prefix_of(child.path)
    &&& percent_decoded(child.path.skip(directory.len() as int)) == encode_utf8(segment)
}

/// A literal reference, behind `./`, and the `file:` URL of a directory.
pub open spec fn joins_literally(base: UrlView, input: Seq<char>) -> bool {
    &&& base.scheme == "file"@ && is_rooted_path(base.path) && ends_with_slash(base.path)
    &&& is_dotted(input) && is_literal_segment(input.skip(2))
}

/// A reference that starts with `./`.
pub open spec fn is_dotted(input: Seq<char>) -> bool {
    input.len() >= 2 && input[0] == '.' && input[1] == '/'
}

/// The longest text of a URL whose path is given a slash. `Url::set_path`
/// counts the bytes of the text in 32 bits and panics beyond. The text of a URL
/// is ASCII, so it has as many bytes as characters.
pub const MAX_URL_LEN: usize = 0xffff_fffe;

/// What `Url::parse` makes of a text: a URL, or the text of its error.
pub uninterp spec fn url_parse(input: Seq<char>) -> Result<UrlView, Seq<char>>;

/// The local `file:` URL with a path and nothing else.
pub open spec fn path_url(path: Seq<char>) -> UrlView {
    UrlView { scheme: "file"@, prefix: "file://"@, path, suffix: Seq::empty() }
}

/// Whether a text is `file://` and a path that is written as it is.
pub open spec fn is_path_text(text: Seq<char>) -> bool {
    text.len() >= 7 && text.take(7) == "file://"@ && is_written_path(text.skip(7))
}

/// The URL that a text is parsed as, or the text of the error why it is none.
pub open spec fn parsed_url(text: Seq<char>) -> Result<UrlView, Seq<char>> {
    if is_path_text(text) {
        Ok(path_url(text.skip(7)))
    } else {
        url_parse(text)
    }
}

/// The path that `Url::set_path` leaves in the URL with the given text, given
/// a new path.
pub uninterp spec fn url_path_set(href: Seq<char>, path: Seq<char>) -> Seq<char>;

/// What `Url::join` makes of the URL with the given text and of a relative
/// reference: a URL, or the text of its error.
pub uninterp spec fn url_join(href: Seq<char>, input: Seq<char>) -> Result<UrlView, Seq<char>>;

/// What `Url::from_file_path` makes of a native path, under the rules of the
/// target with the given separator.
pub uninterp spec fn file_path_url(separator: char, path: Seq<char>) -> Option<UrlView>;

/// A `file:` URL with a slash put behind its path, which has none. A normal
/// path takes the slash and stays as it is, unless it starts with a drive that
/// is written with a bar.
pub open spec fn slashed_url(url: UrlView) -> UrlView {
    UrlView {
        path: if is_stable_path(url.path) {
            url.path.push('/')
        } else {
            url_path_set(url.href(), url.path.push('/'))
        },
        ..url
    }
}

/// The URL of a directory: the same URL with a slash at the end of its path, or
/// nothing where the URL is too long to be given one.
pub open spec fn directory_url(url: UrlView) -> Option<UrlView> {
    if ends_with_slash(url.path) {
        Some(url)
    } else if url.href().len() <= MAX_URL_LEN {
        Some(slashed_url(url))
    } else {
        None
    }
}

/// A reference that a URL path takes as it is, behind `./`, and the `file:` URL
/// of a directory.
pub open spec fn joins_plainly(base: UrlView, input: Seq<char>) -> bool {
    &&& base.scheme == "file"@ && is_rooted_path(base.path) && ends_with_slash(base.path)
    &&& is_dotted(input) && is_written_text(input.skip(2))
}

/// The URL that a relative reference leads to. One that a URL path takes as it
/// is leads on from the path of a directory, in place of what stood behind it.
pub open spec fn joined_url(base: UrlView, input: Seq<char>) -> Result<UrlView, Seq<char>> {
    if joins_plainly(base, input) {
        Ok(
            UrlView {
                path: with_one_root(arrival(base.path, input.skip(2))),
                suffix: Seq::empty(),
                ..base
            },
        )
    } else {
        url_join(base.href(), input)
    }
}

/// An absolute native Unix path in its usual form: below the root, without
/// empty, `.` or `..` components and without a slash at its end.
pub open spec fn is_ordinary_path(path: Seq<char>) -> bool {
    &&& path.len() > 1 && path[0] == '/' && path.last() != '/'
    &&& forall|start: int, end: int| #[trigger]
        is_segment(path, start, end) ==> start < end && path.subrange(start, end) != seq!['.']
            && path.subrange(start, end) != seq!['.', '.']
}

/// A `file:` URL of the local system.
pub open spec fn is_local(url: UrlView) -> bool {
    url.prefix == "file://"@ || url.prefix == "file://localhost"@
}

/// A path with backslashes in place of its slashes.
pub open spec fn backslashed(path: Seq<char>) -> Seq<char> {
    path.map_values(
        |c: char|
            if c == '/' {
                '\\'
            } else {
                c
            },
    )
}

/// The bytes of the native path that a `file:` URL stands for. On Windows it
/// starts with the drive, so the first slash is left out, or with the server.
pub open spec fn native_bytes(separator: char, url: UrlView) -> Seq<u8> {
    if separator != '\\' {
        percent_decoded(url.path)
    } else if is_local(url) {
        percent_decoded(backslashed(url.path.skip(1)))
    } else {
        encode_utf8(seq!['\\', '\\'] + url.prefix.skip(7)) + percent_decoded(
            backslashed(url.path),
        )
    }
}

/// How many characters of a URL path write a Windows drive, slash included: the
/// colon may be percent-encoded.
pub open spec fn drive_len(path: Seq<char>) -> int {
    if path.len() >= 3 && path[0] == '/' && is_letter(path[1]) && path[2] == ':' {
        3
    } else if path.len() >= 5 && path[0] == '/' && is_letter(path[1]) && path[2] == '%' && path[3]
        == '3' && (path[4] == 'A' || path[4] == 'a') {
        5
    } else {
        0
    }
}

/// A URL path that is a Windows drive and nothing else.
pub open spec fn is_bare_drive(path: Seq<char>) -> bool {
    drive_len(path) > 0 && path.len() == drive_len(path)
}

/// A URL path below a Windows drive.
pub open spec fn is_on_drive(path: Seq<char>) -> bool {
    drive_len(path) > 0 && path.len() > drive_len(path) && path[drive_len(path)] == '/'
}

/// Whether the native path of a URL is absolute, if it has one. Otherwise a
/// Windows drive stands alone, or there is no share behind a Windows server.
pub open spec fn is_absolute_url(separator: char, url: UrlView) -> bool {
    separator == '\\' ==> if is_local(url) {
        !is_bare_drive(url.path)
    } else {
        let bytes = percent_decoded(url.path);
        bytes.len() > 1 && bytes[1] != 0x2f && bytes[1] != 0x5c
    }
}

/// The text of bytes that are UTF-8.
pub open spec fn text_of(bytes: Seq<u8>) -> Option<Seq<char>> {
    if valid_utf8(bytes) {
        Some(decode_utf8(bytes))
    } else {
        None
    }
}

/// Bytes that end with a letter and a colon or a bar, as a Windows drive does.
pub open spec fn ends_like_drive(bytes: Seq<u8>) -> bool {
    &&& bytes.len() > 2
    &&& 0x41 <= bytes[bytes.len() - 2] <= 0x5a || 0x61 <= bytes[bytes.len() - 2] <= 0x7a
    &&& bytes.last() == 0x3a || bytes.last() == 0x7c
}

/// The native path of a `file:` URL: an error where it has none, and its text
/// where it is UTF-8.
///
/// On Unix the bytes of the path are those that its text stands for, and one
/// that ends like a drive is given a slash. On Windows the path has to start
/// with a drive or follow a server, and has to be UTF-8.
pub open spec fn found_path(separator: char, url: UrlView) -> Result<Option<Seq<char>>, ()> {
    let bytes = native_bytes(separator, url);
    if separator != '\\' {
        if !is_local(url) {
            Err(())
        } else if ends_like_drive(bytes) {
            Ok(text_of(bytes.push(0x2f)))
        } else {
            Ok(text_of(bytes))
        }
    } else if !is_absolute_url(separator, url) || is_local(url) && !is_on_drive(url.path) {
        Err(())
    } else {
        match text_of(bytes) {
            Some(text) => Ok(Some(text)),
            None => Err(()),
        }
    }
}

/// Whether a native path holds nothing but separators and characters that stand
/// for themselves in a URL.
pub open spec fn is_plain_native(separator: char, path: Seq<char>) -> bool {
    forall|i: int|
        0 <= i < path.len() ==> #[trigger] path[i] == separator || is_plain_char(path[i])
}

/// A path with slashes in place of its backslashes.
pub open spec fn slashed(path: Seq<char>) -> Seq<char> {
    path.map_values(
        |c: char|
            if c == '\\' {
                '/'
            } else {
                c
            },
    )
}

/// The URL path of a native path that needs no escapes: on Unix the path itself,
/// on Windows the path on a drive behind a slash, with slashes.
pub open spec fn plain_url_path(separator: char, path: Seq<char>) -> Seq<char> {
    if separator == '\\' {
        seq!['/'] + slashed(path)
    } else {
        path
    }
}

/// Whether a local URL stands for a native path in its usual form.
pub open spec fn stands_for(separator: char, url: UrlView, path: Seq<char>) -> bool {
    &&& url.scheme == "file"@ && url.prefix == "file://"@ && url.suffix.len() == 0
    &&& native_bytes(separator, url) == encode_utf8(path)
    &&& is_plain_native(separator, path) ==> url.path == plain_url_path(separator, path)
    &&& is_normal_path(url.path) && !has_bar_drive(url.path)
    &&& ends_with_slash(url.path) == (path == with_separator(separator, path))
    &&& separator == '\\' ==> is_on_drive(url.path)
}

/// A native path in its usual form, which its URL stands for: on Unix the root,
/// or one that does not start with a drive that is written with a bar; on
/// Windows a path on a drive.
pub open spec fn is_usual_path(separator: char, path: Seq<char>) -> bool {
    if separator == '\\' {
        exists|drive: Seq<char>, names: Seq<Seq<char>>|
            is_drive(drive) && are_file_names(names) && path == #[trigger] prefixed_path(
                drive,
                names,
            )
    } else {
        path == seq!['/'] || is_ordinary_path(path) && !has_bar_drive(path)
    }
}

/// The start of a native Unix path with a name behind it and a slash, unless the
/// name is empty or `.`.
pub open spec fn tidy_step(done: Seq<char>, name: Seq<char>) -> Seq<char> {
    if name.len() == 0 || name == seq!['.'] {
        done
    } else {
        done + seq!['/'] + name
    }
}

/// A native Unix path up to its last slash, with one slash before every name and
/// without `.`, and the name that follows that slash.
pub open spec fn tidy_walk(path: Seq<char>) -> (Seq<char>, Seq<char>)
    decreases path.len(),
{
    if path.len() == 0 {
        (Seq::empty(), Seq::empty())
    } else {
        let (done, name) = tidy_walk(path.drop_last());
        if path.last() == '/' {
            (tidy_step(done, name), Seq::empty())
        } else {
            (done, name.push(path.last()))
        }
    }
}

/// An absolute native Unix path with one slash before every name, without `.`
/// and without a slash at its end, unless it is the root.
pub open spec fn tidy_path(path: Seq<char>) -> Seq<char> {
    let tidy = tidy_step(tidy_walk(path).0, tidy_walk(path).1);
    if tidy.len() == 0 {
        seq!['/']
    } else {
        tidy
    }
}

/// A native path with the letter of its drive, if it starts with one, in upper
/// case.
pub open spec fn with_upper_drive(separator: char, path: Seq<char>) -> Seq<char> {
    if separator == '\\' && path.len() > 1 && 'a' <= path[0] <= 'z' && path[1] == ':' {
        path.update(0, (path[0] as int - 32) as char)
    } else {
        path
    }
}

} // verus!
