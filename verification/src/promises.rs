//! What the operations promise, in terms of what goes in and what comes out.

use vstd::prelude::*;
use vstd::utf8::*;

use crate::error::{ErrorView, FileSystemError, IoFailure};
use crate::handle::{
    contained, handle_of_parsed, handle_of_path, handle_of_url, handle_result, is_handle_of,
    message_result, native_path, resolved, text_result, FileSystemHandle,
};
use crate::laws::{
    law_plain_segments_resolve, law_slash_makes_a_handle, law_written_segments_resolve,
    lemma_encode_one, lemma_way_extends, slash_text, with_slash,
};
use crate::location::{
    handle_of_location, joined_names, location_names, location_path, Directory, Location,
    PlatformDirs,
};
use crate::model::{
    arrival, backslashed, directory_path, directory_url, file_path_url, found_path,
    has_bar_drive, is_dot_segment, is_dotless, is_plain_char, is_plain_native, is_plain_path,
    is_plain_segment, is_rooted_path, is_segment, is_stable_path, is_written_path,
    is_written_text, joined_url, parsed_url, slashed_url, stands_for, tidy_path, tidy_step,
    tidy_walk, url_join, url_parse, url_path_set, with_one_root, UrlView,
};
use crate::percent::{
    byte_views, hex_value, leading_byte, lemma_encode_ascii, lemma_encode_concat,
    percent_decoded, places, unescaped, way,
};
use crate::record::{record_option, record_result, UrlRecord};
use crate::replies::{entry_view, entry_views, listed, logical_name, names_result, EntryView};
use crate::reserved::{decoded, encoded, escaped, is_reserved};
use crate::space::{space_resolved, space_result, FileSystem};
use crate::target::{
    component_views, file_path_result, is_absolute_path, is_adjoined, is_prefixed_path,
    joined_path, option_view, path_components, path_is_absolute, path_join, path_of_components,
    starts_at_root, with_separator, ComponentView, PathComponent,
};
use crate::text::{ends_with_slash, name_views, without_trailing_slashes};
use crate::windows::{encoded_component, encoded_names, windows_path};

verus! {

/// A text that starts with a slash of either kind.
pub open spec fn starts_with_a_slash(text: Seq<char>) -> bool {
    text.len() > 0 && (text[0] == '/' || text[0] == '\\')
}

/// The error message for a segment that leads out of a location.
pub open spec fn escape_message(base: UrlView, segment: Seq<char>) -> Seq<char> {
    "Path '"@ + segment + "' escapes base '"@ + (base.prefix + base.path + base.suffix) + "'"@
}

/// Resolving under a space and against its root handle give the same, for every
/// segment that does not start with a slash.
pub proof fn law_space_resolves_like_its_root(separator: char, root: UrlView, segment: Seq<char>)
    requires
        segment.len() > 0 ==> segment[0] != '/' && segment[0] != '\\',
    ensures
        space_resolved(separator, root, segment) == resolved(separator, root, segment),
{
}

/// Every segment that starts with a slash is refused under a space.
pub proof fn law_space_refuses_absolute_segments(
    separator: char,
    root: UrlView,
    segment: Seq<char>,
)
    requires
        starts_with_a_slash(segment),
    ensures
        space_resolved(separator, root, segment) == Err::<UrlView, ErrorView>(
            ErrorView::Containment(escape_message(root, segment)),
        ),
{
}

/// Under a space, a segment of slashes, percent signs and plain characters that
/// does not start with a slash is accepted exactly where it leads, with its dot
/// segments resolved, into the root.
pub proof fn law_space_accepts_what_stays_inside(
    separator: char,
    root: UrlView,
    segment: Seq<char>,
)
    requires
        root.scheme == "file"@ && is_rooted_path(root.path) && ends_with_slash(root.path),
        !starts_with_a_slash(segment),
        is_written_text(segment),
    ensures
        ({
            let path = with_one_root(arrival(root.path, segment));
            let inside = root.path.is_prefix_of(path) && places(
                separator,
                percent_decoded(root.path),
            ).is_prefix_of(places(separator, percent_decoded(path)));
            space_resolved(separator, root, segment) == if inside {
                Ok::<UrlView, ErrorView>(UrlView { path, suffix: Seq::empty(), ..root })
            } else {
                Err::<UrlView, ErrorView>(ErrorView::Containment(escape_message(root, segment)))
            }
        }),
{
    law_written_segments_resolve(separator, root, segment);
}

/// A segment resolves to the URL that it is joined to behind `./`, if and only
/// if the path of that URL starts with the path of the directory, and its native
/// path leads through the places of the directory. What fails is an error that
/// says why.
pub proof fn law_resolving_is_joining_inside(
    separator: char,
    url: UrlView,
    base: UrlView,
    segment: Seq<char>,
)
    requires
        directory_url(url) == Some(base),
        base.path == (if url.path.len() > 0 && url.path.last() == '/' {
            url.path
        } else {
            url.path.push('/')
        }),
    ensures
        joined_url(base, "./"@ + segment) matches Ok(joined) ==> resolved(separator, url, segment)
            == if base.path.is_prefix_of(joined.path) && places(
            separator,
            percent_decoded(base.path),
        ).is_prefix_of(places(separator, percent_decoded(joined.path))) {
            Ok::<UrlView, ErrorView>(joined)
        } else {
            Err::<UrlView, ErrorView>(ErrorView::Containment(escape_message(base, segment)))
        },
        joined_url(base, "./"@ + segment) matches Err(message) ==> resolved(
            separator,
            url,
            segment,
        ) == Err::<UrlView, ErrorView>(ErrorView::Io("Invalid path segment: "@ + message)),
{
    assert(directory_path(base.path) == base.path);
}

/// The directory at a URL is the URL itself where its path ends with a slash,
/// and otherwise the same URL with a slash put behind its path, unless it is too
/// long for that. A path that does not keep its form becomes what `Url::set_path`
/// makes of it.
pub proof fn law_directories_end_with_a_slash(url: UrlView)
    ensures
        url.path.len() > 0 && url.path.last() == '/' ==> directory_url(url) == Some(url),
        url.path.len() == 0 || url.path.last() != '/' ==> if (url.prefix + url.path
            + url.suffix).len() > 0xffff_fffe {
            directory_url(url) is None
        } else {
            directory_url(url) == Some(
                UrlView {
                    path: if is_stable_path(url.path) {
                        url.path.push('/')
                    } else {
                        url_path_set(url.prefix + url.path + url.suffix, url.path.push('/'))
                    },
                    ..url
                },
            )
        },
{
}

/// Whatever is accepted lies in the directory: its path starts with the path of
/// the directory, slash included, and so does its native path.
pub proof fn law_accepted_segments_lie_inside(
    separator: char,
    url: UrlView,
    segment: Seq<char>,
    child: UrlView,
)
    requires
        resolved(separator, url, segment) == Ok::<UrlView, ErrorView>(child) || space_resolved(
            separator,
            url,
            segment,
        ) == Ok::<UrlView, ErrorView>(child),
    ensures
        ({
            let directory = if url.path.len() > 0 && url.path.last() == '/' {
                url.path
            } else {
                url.path.push('/')
            };
            &&& directory.is_prefix_of(child.path)
            &&& places(separator, percent_decoded(directory)).is_prefix_of(
                places(separator, percent_decoded(child.path)),
            )
        }),
{
}

/// A base whose path would change when it is given a slash refuses everything,
/// and one that is too long to be given a slash says so.
pub proof fn law_unfit_bases_are_refused(separator: char, url: UrlView, segment: Seq<char>)
    requires
        !ends_with_slash(url.path),
    ensures
        url.href().len() > 0xffff_fffe ==> resolved(separator, url, segment) == Err::<
            UrlView,
            ErrorView,
        >(ErrorView::Io("URL too long"@)),
        directory_url(url) matches Some(base) ==> base.path != url.path.push('/') ==> resolved(
            separator,
            url,
            segment,
        ) == Err::<UrlView, ErrorView>(ErrorView::Containment(escape_message(base, segment))),
{
}

/// A joined URL is kept exactly where it lies in the directory at the base.
pub proof fn law_containment_is_checked(
    separator: char,
    base: UrlView,
    segment: Seq<char>,
    joined: Result<UrlView, Seq<char>>,
)
    ensures
        ({
            let directory = if base.path.len() > 0 && base.path.last() == '/' {
                base.path
            } else {
                base.path.push('/')
            };
            joined matches Ok(url) ==> contained(separator, base, segment, joined)
                == if directory.is_prefix_of(url.path) && places(
                separator,
                percent_decoded(directory),
            ).is_prefix_of(places(separator, percent_decoded(url.path))) {
                Ok::<UrlView, ErrorView>(url)
            } else {
                Err::<UrlView, ErrorView>(ErrorView::Containment(escape_message(base, segment)))
            }
        }),
        joined matches Err(message) ==> contained(separator, base, segment, joined) == Err::<
            UrlView,
            ErrorView,
        >(ErrorView::Io("Invalid path segment: "@ + message)),
{
}

/// Joining is what `Url::join` does, and for what a URL path takes as it is it
/// is following the segments.
pub proof fn law_joining_follows_the_segments(base: UrlView, segment: Seq<char>)
    requires
        base.scheme == "file"@ && is_rooted_path(base.path) && ends_with_slash(base.path),
    ensures
        is_written_text(segment) ==> joined_url(base, "./"@ + segment) == Ok::<UrlView, Seq<char>>(
            UrlView {
                path: with_one_root(arrival(base.path, segment)),
                suffix: Seq::empty(),
                ..base
            },
        ),
        !is_written_text(segment) ==> joined_url(base, "./"@ + segment) == url_join(
            base.prefix + base.path + base.suffix,
            "./"@ + segment,
        ),
{
    reveal_strlit("./");
    assert(("./"@ + segment).skip(2) =~= segment);
}

/// Every `file:` URL has a handle, unless it is too long to be given the slash
/// that it lacks: the same URL, with a slash at the end of its path.
pub proof fn law_file_urls_have_handles(url: UrlView)
    requires
        url.scheme == "file"@,
    ensures
        ends_with_slash(url.path) ==> handle_of_url(url) == Ok::<UrlView, ErrorView>(url),
        !ends_with_slash(url.path) && url.href().len() <= 0xffff_fffe ==> (handle_of_url(
            url,
        ) matches Ok(handle) && {
            &&& handle.scheme == url.scheme
            &&& handle.prefix == url.prefix
            &&& handle.suffix == url.suffix
            &&& is_stable_path(url.path) ==> handle.path == url.path.push('/')
            &&& !is_stable_path(url.path) ==> handle.path == url_path_set(
                url.prefix + url.path + url.suffix,
                url.path.push('/'),
            )
        }),
        !ends_with_slash(url.path) && url.href().len() > 0xffff_fffe ==> handle_of_url(url)
            == Err::<UrlView, ErrorView>(ErrorView::Io("URL too long"@)),
{
}

/// No other URL has a handle.
pub proof fn law_other_urls_have_no_handles(url: UrlView)
    requires
        url.scheme != "file"@,
    ensures
        handle_of_url(url) == Err::<UrlView, ErrorView>(
            ErrorView::Io("Expected file: URL, got "@ + url.scheme + ":"@),
        ),
        handle_of_parsed(Ok(url)) == Err::<UrlView, ErrorView>(
            ErrorView::Io("Expected file: URL, got "@ + url.scheme + ":"@),
        ),
{
}

/// A text that parses as a `file:` URL has a handle with the same host, query
/// and fragment, unless the URL is too long to be given the slash that it lacks.
/// A text that does not parse has none.
pub proof fn law_parsed_texts_have_handles(text: Seq<char>)
    ensures
        parsed_url(text) matches Ok(url) ==> url.scheme == "file"@ && (ends_with_slash(url.path)
            || url.href().len() <= 0xffff_fffe) ==> (handle_of_parsed(
            parsed_url(text),
        ) matches Ok(handle) && {
            &&& handle.scheme == "file"@
            &&& handle.prefix == url.prefix
            &&& handle.suffix == url.suffix
            &&& ends_with_slash(url.path) ==> handle.path == url.path
            &&& !ends_with_slash(url.path) && is_stable_path(url.path) ==> handle.path
                == url.path.push('/')
        }),
        parsed_url(text) matches Ok(url) ==> url.scheme == "file"@ && !ends_with_slash(url.path)
            && url.href().len() > 0xffff_fffe ==> handle_of_parsed(parsed_url(text)) == Err::<
            UrlView,
            ErrorView,
        >(ErrorView::Io("URL too long"@)),
        parsed_url(text) matches Ok(url) ==> handle_of_parsed(parsed_url(text)) == handle_of_url(
            url,
        ),
        parsed_url(text) matches Err(message) ==> handle_of_parsed(parsed_url(text)) == Err::<
            UrlView,
            ErrorView,
        >(ErrorView::Io("Invalid URL: "@ + message)),
{
}

/// `file://` and a path that is written as it is, with or without a slash at its
/// end, is the text of the handle with that path and a slash at its end.
pub proof fn law_written_texts_have_handles(path: Seq<char>)
    requires
        is_written_path(path),
        7 + path.len() <= 0xffff_fffe,
    ensures
        handle_of_parsed(parsed_url("file://"@ + path)) == Ok::<UrlView, ErrorView>(
            UrlView {
                scheme: "file"@,
                prefix: "file://"@,
                path: if path.last() == '/' {
                    path
                } else {
                    path.push('/')
                },
                suffix: Seq::empty(),
            },
        ),
{
    reveal_strlit("file://");
    let text = "file://"@ + path;
    assert(text.take(7) =~= "file://"@);
    assert(text.skip(7) =~= path);
    let url = parsed_url(text)->Ok_0;
    assert(url.href() =~= text);
    if !ends_with_slash(path) {
        assert(is_stable_path(path)) by {
            if has_bar_drive(path) {
                assert(path[2] == '/' || path[2] == '%' || is_plain_char(path[2]));
            }
        }
        assert(slashed_url(url) =~= UrlView { path: path.push('/'), ..url });
    }
}

/// An absolute native path has the handle of its URL, whatever the current
/// directory is, and none if it has no URL.
pub proof fn law_absolute_paths_go_through_their_url(
    separator: char,
    path: Seq<char>,
    current: Result<Seq<char>, Seq<char>>,
)
    requires
        is_absolute_path(separator, path),
    ensures
        file_path_url(separator, path) matches Some(url) ==> handle_of_path(
            separator,
            path,
            current,
        ) == handle_of_url(url),
        file_path_url(separator, path) is None ==> handle_of_path(separator, path, current)
            == Err::<UrlView, ErrorView>(ErrorView::Io("Invalid path for URL conversion"@)),
{
}

/// A relative native path has the handle of the URL of the path below the
/// current directory, and none if that cannot be found or has no URL.
pub proof fn law_relative_paths_go_through_the_current_directory(
    separator: char,
    path: Seq<char>,
    current: Result<Seq<char>, Seq<char>>,
)
    requires
        !is_absolute_path(separator, path),
    ensures
        current matches Err(message) ==> handle_of_path(separator, path, current) == Err::<
            UrlView,
            ErrorView,
        >(ErrorView::Io(message)),
        current matches Ok(directory) ==> match file_path_url(
            separator,
            joined_path(separator, directory, path),
        ) {
            Some(url) => handle_of_path(separator, path, current) == handle_of_url(url),
            None => handle_of_path(separator, path, current) == Err::<UrlView, ErrorView>(
                ErrorView::Io("Invalid path for URL conversion"@),
            ),
        },
{
}

/// A native path whose URL stands for some path in its usual form, be it the
/// path itself or its tidy form, has a handle that gives back that path, if
/// three characters for each byte of it fit in a URL.
pub proof fn law_usual_paths_have_handles(
    separator: char,
    path: Seq<char>,
    current: Result<Seq<char>, Seq<char>>,
    url: UrlView,
    usual: Seq<char>,
)
    requires
        separator == '/' || separator == '\\',
        is_absolute_path(separator, path),
        file_path_url(separator, path) == Some(url),
        stands_for(separator, url, usual),
        8 + 3 * encode_utf8(usual).len() <= 0xffff_fffe,
    ensures
        handle_of_path(separator, path, current) matches Ok(handle) && is_handle_of(
            separator,
            handle,
            usual,
        ) && handle.path == (if url.path.last() == '/' {
            url.path
        } else {
            url.path.push('/')
        }),
{
    reveal_strlit("file://");
    lemma_url_of_path_is_short(separator, url, usual);
    law_slash_makes_a_handle(separator, url, usual);
    assert(ends_with_slash(url.path) ==> with_slash(url) =~= url);
    assert(!ends_with_slash(url.path) ==> slashed_url(url) =~= with_slash(url));
}

/// A native path is said to be too long only where its URL is.
pub proof fn law_too_long_is_too_long(
    separator: char,
    path: Seq<char>,
    current: Result<Seq<char>, Seq<char>>,
    url: UrlView,
)
    requires
        is_absolute_path(separator, path),
        file_path_url(separator, path) == Some(url),
        url.scheme == "file"@,
    ensures
        handle_of_path(separator, path, current) is Err == ((url.path.len() == 0 || url.path.last()
            != '/') && url.href().len() > 0xffff_fffe),
        handle_of_path(separator, path, current) matches Err(error) ==> error == ErrorView::Io(
            "URL too long"@,
        ),
{
}

/// Two handles of one native path have the same native path, and are the same
/// where the path needs no escapes.
pub proof fn law_handles_of_one_path_agree(
    separator: char,
    a: UrlView,
    b: UrlView,
    path: Seq<char>,
)
    requires
        is_handle_of(separator, a, path),
        is_handle_of(separator, b, path),
    ensures
        found_path(separator, a) == found_path(separator, b),
        native_path(separator, found_path(separator, a)) == native_path(
            separator,
            found_path(separator, b),
        ),
        is_plain_native(separator, path) ==> a == b,
{
    if is_plain_native(separator, path) {
        assert(a =~= b);
    }
}

/// On Unix a path is absolute if it starts with a slash. On Windows one with a
/// prefix and the root is, and of any other `Path::is_absolute` decides.
pub proof fn law_absolute_paths_start_at_a_root(path: Seq<char>)
    ensures
        is_absolute_path('/', path) == (path.len() > 0 && path[0] == '/'),
        is_prefixed_path(path) ==> is_absolute_path('\\', path),
        !is_prefixed_path(path) ==> is_absolute_path('\\', path) == path_is_absolute('\\', path),
{
}

/// What is neither adjoined nor absolute is joined as `Path::join` does it.
pub proof fn law_other_paths_are_joined(separator: char, base: Seq<char>, name: Seq<char>)
    requires
        !is_adjoined(separator, base, name),
    ensures
        is_absolute_path(separator, name) ==> joined_path(separator, base, name) == name,
        !is_absolute_path(separator, name) ==> joined_path(separator, base, name) == path_join(
            separator,
            base,
            name,
        ),
{
}

/// A text that is not `file://` and a path that is written as it is parses as
/// `Url::parse` does it.
pub proof fn law_other_texts_are_parsed(text: Seq<char>)
    requires
        text.len() < 7 || text.take(7) != "file://"@ || !is_written_path(text.skip(7)),
    ensures
        parsed_url(text) == url_parse(text),
{
}

/// On Windows a local URL has a native path exactly where its path lies below a
/// drive, whose colon may be written as an escape, and is UTF-8: the drive and
/// what follows, decoded, with backslashes.
pub proof fn law_drive_urls_have_native_paths(url: UrlView, text: Seq<char>)
    requires
        url.prefix == "file://"@ || url.prefix == "file://localhost"@,
    ensures
        ({
            let path = url.path;
            let lettered = path.len() > 3 && path[0] == '/' && ('a' <= path[1] <= 'z' || 'A'
                <= path[1] <= 'Z');
            let below = lettered && (path[2] == ':' && path[3] == '/' || path.len() > 5 && path[2]
                == '%' && path[3] == '3' && (path[4] == 'A' || path[4] == 'a') && path[5] == '/');
            let bytes = percent_decoded(backslashed(path.skip(1)));
            &&& below && bytes == encode_utf8(text) ==> found_path('\\', url) == Ok::<
                Option<Seq<char>>,
                (),
            >(Some(text))
            &&& !below || !valid_utf8(bytes) ==> found_path('\\', url) == Err::<
                Option<Seq<char>>,
                (),
            >(())
        }),
{
    encode_utf8_valid_utf8(text);
    encode_utf8_decode_utf8(text);
}

/// On Windows the URL of a server has a native path exactly where a share stands
/// behind the server, and the path is UTF-8: two backslashes, the server and what
/// follows, decoded, with backslashes.
pub proof fn law_server_urls_have_native_paths(url: UrlView, server: Seq<char>, text: Seq<char>)
    requires
        url.prefix == "file://"@ + server,
        server.len() > 0 && server != "localhost"@,
    ensures
        ({
            let decoded = percent_decoded(url.path);
            let shared = decoded.len() > 1 && decoded[1] != 0x2f && decoded[1] != 0x5c;
            let bytes = percent_decoded(backslashed(url.path));
            &&& shared && bytes == encode_utf8(text) ==> found_path('\\', url) == Ok::<
                Option<Seq<char>>,
                (),
            >(Some(seq!['\\', '\\'] + server + text))
            &&& !shared || !valid_utf8(bytes) ==> found_path('\\', url) == Err::<
                Option<Seq<char>>,
                (),
            >(())
        }),
{
    reveal_strlit("file://");
    reveal_strlit("file://localhost");
    reveal_strlit("localhost");
    assert(url.prefix.skip(7) =~= server);
    assert("file://localhost"@.skip(7) =~= "localhost"@);
    let front = seq!['\\', '\\'] + server;
    lemma_encode_concat(front, text);
    encode_utf8_valid_utf8(front + text);
    encode_utf8_decode_utf8(front + text);
    assert(seq!['\\', '\\'] + server + text =~= front + text);
    let bytes = percent_decoded(backslashed(url.path));
    if !valid_utf8(bytes) {
        let head = encode_utf8(front);
        let all = head + bytes;
        encode_utf8_valid_utf8(front);
        assert(all.subrange(0, head.len() as int) =~= head);
        assert(all.subrange(head.len() as int, all.len() as int) =~= bytes);
        partial_valid_partial_invalid_utf8(all, head.len() as int);
    }
}

/// On Unix a relative path is joined behind a directory, with one slash between
/// them unless the directory ends with one, and an absolute path is taken alone.
pub proof fn law_unix_paths_are_joined_by_a_slash(base: Seq<char>, name: Seq<char>)
    requires
        name.len() > 0,
    ensures
        name[0] == '/' ==> joined_path('/', base, name) == name,
        name[0] != '/' && base.len() > 0 && base.last() == '/' ==> joined_path('/', base, name)
            == base + name,
        name[0] != '/' && base.len() > 0 && base.last() != '/' ==> joined_path('/', base, name)
            == base + seq!['/'] + name,
{
    assert(base.push('/') + name =~= base + seq!['/'] + name);
}

/// On Windows a relative path is joined behind a path with a prefix and the
/// root, with one backslash between them unless that ends with one.
pub proof fn law_windows_paths_are_joined_by_a_backslash(base: Seq<char>, name: Seq<char>)
    requires
        is_adjoined('\\', base, name),
    ensures
        base.len() > 0 && base.last() == '\\' ==> joined_path('\\', base, name) == base + name,
        base.len() > 0 && base.last() != '\\' ==> joined_path('\\', base, name) == base
            + seq!['\\'] + name,
{
    assert(base.push('\\') + name =~= base + seq!['\\'] + name);
}

/// The path of a URL takes no more than three characters for each byte that it
/// stands for.
pub(crate) proof fn lemma_url_of_path_is_short(separator: char, url: UrlView, path: Seq<char>)
    requires
        stands_for(separator, url, path),
    ensures
        url.path.len() <= 1 + 3 * encode_utf8(path).len(),
{
    let text = if separator == '\\' {
        backslashed(url.path.skip(1))
    } else {
        url.path
    };
    reveal_strlit("file://");
    lemma_bytes_cover_chars(text);
    lemma_escapes_are_short(encode_utf8(text));
}

proof fn lemma_bytes_cover_chars(text: Seq<char>)
    ensures
        encode_utf8(text).len() >= text.len(),
    decreases text.len(),
{
    if text.len() > 0 {
        lemma_bytes_cover_chars(text.drop_first());
    }
}

proof fn lemma_escapes_are_short(bytes: Seq<u8>)
    ensures
        bytes.len() <= 3 * unescaped(bytes).len(),
    decreases bytes.len(),
{
    if bytes.len() > 0 {
        match leading_byte(bytes) {
            Some(b) => lemma_escapes_are_short(bytes.skip(3)),
            None => lemma_escapes_are_short(bytes.skip(1)),
        }
    }
}

/// The tidy form of a path is no longer than the path.
pub(crate) proof fn lemma_tidy_is_short(path: Seq<char>)
    requires
        starts_at_root(path),
    ensures
        encode_utf8(tidy_path(path)).len() <= encode_utf8(path).len(),
{
    lemma_tidy_walk_is_short(path);
    let (done, name) = tidy_walk(path);
    lemma_tidy_step_is_short(done, name);
    lemma_encode_ascii('/');
    assert(encode_utf8(seq!['/']).len() == 1);
}

proof fn lemma_tidy_step_is_short(done: Seq<char>, name: Seq<char>)
    ensures
        encode_utf8(tidy_step(done, name)).len() <= encode_utf8(done).len() + 1 + encode_utf8(
            name,
        ).len(),
{
    lemma_encode_ascii('/');
    lemma_encode_concat(done, seq!['/']);
    lemma_encode_concat(done + seq!['/'], name);
}

proof fn lemma_tidy_walk_is_short(path: Seq<char>)
    requires
        starts_at_root(path),
    ensures
        encode_utf8(tidy_walk(path).0).len() + 1 + encode_utf8(tidy_walk(path).1).len()
            <= encode_utf8(path).len(),
    decreases path.len(),
{
    let head = path.drop_last();
    let c = path.last();
    let (done, name) = tidy_walk(head);
    lemma_encode_concat(head, seq![c]);
    assert(head + seq![c] =~= path);
    lemma_encode_ascii('/');
    if head.len() > 0 {
        lemma_tidy_walk_is_short(head);
        if c == '/' {
            lemma_tidy_step_is_short(done, name);
        } else {
            lemma_encode_concat(name, seq![c]);
            assert(name + seq![c] =~= name.push(c));
        }
    } else {
        assert(head =~= Seq::empty());
        assert(c == '/');
        assert(tidy_step(done, name) =~= Seq::empty());
    }
}

/// A location in the directory for temporary files lies there under its name,
/// whatever the other directories are.
pub proof fn law_temporary_locations(separator: char, location: Location, dirs: PlatformDirs)
    requires
        location.directory is Temp,
    ensures
        location.name@.len() == 0 ==> location_path(separator, location, dirs) == Ok::<
            Seq<char>,
            Seq<char>,
        >(dirs.temp@),
        location.name@.len() > 0 ==> location_path(separator, location, dirs) == Ok::<
            Seq<char>,
            Seq<char>,
        >(joined_path(separator, dirs.temp@, location.name@)),
        location.name@.len() > 0 && is_adjoined(separator, dirs.temp@, location.name@)
            ==> location_path(separator, location, dirs) == Ok::<Seq<char>, Seq<char>>(
            with_separator(separator, dirs.temp@) + location.name@,
        ),
{
    lemma_one_name(separator, location, dirs.temp@);
}

/// A location in a given directory lies there under its name, whatever the
/// directories of the platform are.
pub proof fn law_given_locations(
    separator: char,
    location: Location,
    dirs: PlatformDirs,
    path: String,
)
    requires
        location.directory == Directory::At(path),
    ensures
        location.name@.len() == 0 ==> location_path(separator, location, dirs) == Ok::<
            Seq<char>,
            Seq<char>,
        >(path@),
        location.name@.len() > 0 ==> location_path(separator, location, dirs) == Ok::<
            Seq<char>,
            Seq<char>,
        >(joined_path(separator, path@, location.name@)),
        location.name@.len() > 0 && is_adjoined(separator, path@, location.name@)
            ==> location_path(separator, location, dirs) == Ok::<Seq<char>, Seq<char>>(
            with_separator(separator, path@) + location.name@,
        ),
{
    lemma_one_name(separator, location, path@);
}

/// A location in the current directory lies there under its name, and nowhere if
/// there is no such directory, whatever the other directories are.
pub proof fn law_current_locations(separator: char, location: Location, dirs: PlatformDirs)
    requires
        location.directory is Current,
    ensures
        dirs.current matches Ok(current) ==> {
            &&& location.name@.len() == 0 ==> location_path(separator, location, dirs) == Ok::<
                Seq<char>,
                Seq<char>,
            >(current@)
            &&& location.name@.len() > 0 ==> location_path(separator, location, dirs) == Ok::<
                Seq<char>,
                Seq<char>,
            >(joined_path(separator, current@, location.name@))
            &&& location.name@.len() > 0 && is_adjoined(separator, current@, location.name@)
                ==> location_path(separator, location, dirs) == Ok::<Seq<char>, Seq<char>>(
                with_separator(separator, current@) + location.name@,
            )
        },
        dirs.current matches Err(message) ==> location_path(separator, location, dirs) == Err::<
            Seq<char>,
            Seq<char>,
        >(message@),
{
    if let Ok(current) = dirs.current {
        lemma_one_name(separator, location, current@);
    }
}

/// A location in the profile lies under its name in the directory `dialog` of
/// the data directory, and nowhere if there is no such directory, whatever the
/// other directories are.
pub proof fn law_profile_locations(separator: char, location: Location, dirs: PlatformDirs)
    requires
        location.directory is Profile,
    ensures
        dirs.data matches Some(data) ==> {
            let directory = joined_path(separator, data@, "dialog"@);
            &&& location.name@.len() == 0 ==> location_path(separator, location, dirs) == Ok::<
                Seq<char>,
                Seq<char>,
            >(directory)
            &&& location.name@.len() > 0 ==> location_path(separator, location, dirs) == Ok::<
                Seq<char>,
                Seq<char>,
            >(joined_path(separator, directory, location.name@))
            &&& is_adjoined(separator, data@, "dialog"@) ==> directory == with_separator(
                separator,
                data@,
            ) + "dialog"@
            &&& location.name@.len() > 0 && is_adjoined(separator, data@, "dialog"@) && is_adjoined(
                separator,
                directory,
                location.name@,
            ) ==> location_path(separator, location, dirs) == Ok::<Seq<char>, Seq<char>>(
                with_separator(separator, with_separator(separator, data@) + "dialog"@)
                    + location.name@,
            )
        },
        dirs.data is None ==> location_path(separator, location, dirs) == Err::<
            Seq<char>,
            Seq<char>,
        >("could not determine platform data directory"@),
{
    if let Some(data) = dirs.data {
        let names = location_names(location);
        reveal_with_fuel(joined_names, 3);
        assert(names.drop_last().len() == names.len() - 1);
        assert(names[0] == "dialog"@);
    }
}

proof fn lemma_one_name(separator: char, location: Location, base: Seq<char>)
    requires
        !(location.directory is Profile),
    ensures
        location.name@.len() == 0 ==> joined_names(separator, base, location_names(location))
            == base,
        location.name@.len() > 0 ==> joined_names(separator, base, location_names(location))
            == joined_path(separator, base, location.name@),
{
    reveal_with_fuel(joined_names, 2);
    let names = location_names(location);
    if names.len() > 0 {
        assert(names.drop_last().len() == 0);
    }
}

/// The names that lead to a location are its name, if it has one, and before it
/// `dialog` in the profile.
pub proof fn law_names_lead_to_a_location(location: Location)
    ensures
        location.directory is Profile ==> location_names(location) == (if location.name@.len()
            == 0 {
            seq!["dialog"@]
        } else {
            seq!["dialog"@, location.name@]
        }),
        !(location.directory is Profile) ==> location_names(location) == (if location.name@.len()
            == 0 {
            Seq::empty()
        } else {
            seq![location.name@]
        }),
{
    if location.name@.len() > 0 {
        if location.directory is Profile {
            assert(location_names(location) =~= seq!["dialog"@, location.name@]);
        } else {
            assert(location_names(location) =~= seq![location.name@]);
        }
    }
}

/// A location is opened at the handle of its path, and a location without a path
/// not at all.
pub proof fn law_locations_open_at_their_path(
    separator: char,
    location: Location,
    dirs: PlatformDirs,
)
    ensures
        location_path(separator, location, dirs) matches Err(message) ==> handle_of_location(
            separator,
            location,
            dirs,
        ) == Err::<UrlView, ErrorView>(ErrorView::Io(message)),
        location_path(separator, location, dirs) matches Ok(path) ==> match dirs.current {
            Ok(current) => handle_of_location(separator, location, dirs) == handle_of_path(
                separator,
                path,
                Ok(current@),
            ),
            Err(message) => handle_of_location(separator, location, dirs) == handle_of_path(
                separator,
                path,
                Err(message@),
            ),
        },
{
}

/// On Unix the native path of a location is what its URL stands for, without
/// the slashes at its end; the root keeps one. A path that is not UTF-8, or that
/// a URL does not have, is an error.
pub proof fn law_native_paths_are_trimmed(text: Seq<char>)
    ensures
        native_path('/', Ok(None)) == Err::<Seq<char>, ErrorView>(
            ErrorView::Io("Path is not valid UTF-8 and cannot be normalized"@),
        ),
        native_path('/', Err(())) == Err::<Seq<char>, ErrorView>(
            ErrorView::Io("Failed to convert URL to path"@),
        ),
        native_path('\\', Ok(None)) == Err::<Seq<char>, ErrorView>(
            ErrorView::Io("Path is not valid UTF-8 and cannot be normalized"@),
        ),
        native_path('\\', Err(())) == Err::<Seq<char>, ErrorView>(
            ErrorView::Io("Failed to convert URL to path"@),
        ),
        text.len() > 0 && text.last() != '/' ==> native_path('/', Ok(Some(text))) == Ok::<
            Seq<char>,
            ErrorView,
        >(text),
        text.len() > 0 ==> native_path('/', Ok(Some(text.push('/')))) == native_path(
            '/',
            Ok(Some(text)),
        ),
        native_path('/', Ok(Some(seq!['/']))) == Ok::<Seq<char>, ErrorView>(seq!['/']),
        native_path('/', Ok(Some(Seq::empty()))) == Ok::<Seq<char>, ErrorView>(Seq::empty()),
{
    assert(text.push('/').drop_last() =~= text);
    assert(seq!['/'].drop_last() =~= Seq::<char>::empty());
    reveal_with_fuel(without_trailing_slashes, 2);
    if text.len() > 0 && without_trailing_slashes(text).len() == 0 {
        assert(ends_with_slash(text));
    }
}

/// On Unix a local URL has a native path: what its path stands for, with a slash
/// behind what looks like a drive, as a text where that is UTF-8. A URL of
/// another host has none.
pub proof fn law_local_urls_have_native_paths(url: UrlView, text: Seq<char>)
    ensures
        ({
            let local = url.prefix == "file://"@ || url.prefix == "file://localhost"@;
            let bytes = percent_decoded(url.path);
            let n = bytes.len() as int;
            let drive = n > 2 && (0x41 <= bytes[n - 2] <= 0x5a || 0x61 <= bytes[n - 2] <= 0x7a) && (
            bytes[n - 1] == 0x3a || bytes[n - 1] == 0x7c);
            &&& !local ==> found_path('/', url) == Err::<Option<Seq<char>>, ()>(())
            &&& local && bytes == encode_utf8(text) && !drive ==> found_path('/', url) == Ok::<
                Option<Seq<char>>,
                (),
            >(Some(text))
            &&& local && bytes == encode_utf8(text) && drive ==> found_path('/', url) == Ok::<
                Option<Seq<char>>,
                (),
            >(Some(text.push('/')))
            &&& local && !valid_utf8(bytes) ==> found_path('/', url) == Ok::<
                Option<Seq<char>>,
                (),
            >(None)
        }),
{
    let bytes = percent_decoded(url.path);
    encode_utf8_valid_utf8(text);
    encode_utf8_decode_utf8(text);
    lemma_encode_ascii('/');
    lemma_encode_concat(text, seq!['/']);
    assert(text + seq!['/'] =~= text.push('/'));
    assert(encode_utf8(text).push(0x2f) =~= encode_utf8(text.push('/')));
    encode_utf8_valid_utf8(text.push('/'));
    encode_utf8_decode_utf8(text.push('/'));
    if valid_utf8(bytes.push(0x2f)) {
        lemma_valid_without_slash(bytes);
    }
}

/// Bytes that are UTF-8 with a slash behind them are so without it.
proof fn lemma_valid_without_slash(bytes: Seq<u8>)
    requires
        valid_utf8(bytes.push(0x2f)),
    ensures
        valid_utf8(bytes),
{
    let whole = bytes.push(0x2f);
    let text = decode_utf8(whole);
    decode_utf8_encode_utf8(whole);
    if text.len() == 0 {
        assert(encode_utf8(text) =~= Seq::<u8>::empty());
    }
    let c = text.last();
    let scalar = c as u32;
    lemma_encode_concat(text.drop_last(), seq![c]);
    assert(text.drop_last() + seq![c] =~= text);
    lemma_encode_one(c);
    assert(whole.last() == encode_scalar(scalar).last());
    if has_width_1_encoding(scalar) {
        assert(encode_scalar(scalar).len() == 1);
    } else {
        assert(last_continuation_byte(scalar) >= 0x80) by (bit_vector);
    }
    let head = encode_utf8(text.drop_last());
    encode_utf8_valid_utf8(text.drop_last());
    assert(encode_utf8(seq![c]).len() == 1);
    assert(whole == head + encode_utf8(seq![c]));
    assert(whole.drop_last() =~= head);
    assert(whole.drop_last() =~= bytes);
}

/// Rendering for Windows encodes the names in a path and changes nothing else.
pub proof fn law_only_names_are_encoded(name: Seq<char>, text: Seq<char>)
    ensures
        encoded_component(ComponentView::Normal(name)) == ComponentView::Normal(encoded(name)),
        encoded_component(ComponentView::Other(text)) == ComponentView::Other(text),
{
}

/// A Windows path is rebuilt from its own components, in order, the names among
/// them encoded.
pub proof fn law_windows_paths_are_rebuilt(
    separator: char,
    path: Seq<char>,
    rendered: Seq<ComponentView>,
)
    requires
        rendered.len() == path_components(separator, path).len(),
        forall|i: int|
            0 <= i < rendered.len() ==> #[trigger] rendered[i] == match path_components(
                separator,
                path,
            )[i] {
                ComponentView::Normal(name) => ComponentView::Normal(encoded(name)),
                ComponentView::Other(text) => ComponentView::Other(text),
            },
    ensures
        windows_path(separator, path) == path_of_components(separator, rendered),
        native_path('\\', Ok(Some(path))) == Ok::<Seq<char>, ErrorView>(
            windows_path('\\', path),
        ),
{
    assert(path_components(separator, path).map_values(
        |c: ComponentView| encoded_component(c),
    ) =~= rendered);
}

/// Names are encoded one by one.
pub proof fn law_names_are_encoded_one_by_one(names: Seq<Seq<char>>, name: Seq<char>)
    ensures
        encoded_names(Seq::empty()) == Seq::<Seq<char>>::empty(),
        encoded_names(names.push(name)) == encoded_names(names).push(encoded(name)),
{
    assert(encoded_names(Seq::empty()) =~= Seq::<Seq<char>>::empty());
    assert(encoded_names(names.push(name)) =~= encoded_names(names).push(encoded(name)));
}

/// A digit of base sixteen, in upper case.
pub open spec fn upper_digit(value: int) -> char {
    if value < 10 {
        (0x30 + value) as char
    } else {
        (0x37 + value) as char
    }
}

/// The value of a digit of base sixteen, of either case.
pub open spec fn value_of_digit(c: char) -> Option<int> {
    if '0' <= c <= '9' {
        Some(c as int - 0x30)
    } else if 'A' <= c <= 'F' {
        Some(c as int - 0x37)
    } else if 'a' <= c <= 'f' {
        Some(c as int - 0x57)
    } else {
        None
    }
}

/// A character that Windows forbids in a file name, or the percent sign.
pub open spec fn is_forbidden(c: char) -> bool {
    c == '<' || c == '>' || c == ':' || c == '"' || c == '\\' || c == '|' || c == '?' || c == '*'
        || c == '%' || (c as int) < 0x20
}

/// Encoding a name is encoding its parts: the encoded whole is the encoded parts
/// in order.
pub proof fn law_encoding_is_piecewise(a: Seq<char>, b: Seq<char>)
    ensures
        encoded(a + b) == encoded(a) + encoded(b),
    decreases a.len(),
{
    if a.len() == 0 {
        assert(a + b =~= b);
        assert(encoded(a) + encoded(b) =~= encoded(b));
    } else {
        law_encoding_is_piecewise(a.skip(1), b);
        assert((a + b).skip(1) =~= a.skip(1) + b);
        assert(encoded(a + b) =~= encoded(a) + encoded(b));
    }
}

/// A forbidden character is written as a percent sign and its number in two
/// digits, and every other character as it is.
pub proof fn law_forbidden_characters_are_escaped(c: char)
    ensures
        encoded(Seq::empty()) == Seq::<char>::empty(),
        is_forbidden(c) ==> encoded(seq![c]) == seq![
            '%',
            upper_digit(c as int / 16),
            upper_digit(c as int % 16),
        ],
        !is_forbidden(c) ==> encoded(seq![c]) == seq![c],
{
    let rest = seq![c].skip(1);
    assert(rest.len() == 0);
    assert(encoded(rest) =~= Seq::empty());
    assert(encoded(seq![c]) == escaped(seq![c][0]) + encoded(rest));
    assert(encoded(seq![c]) =~= escaped(c));
    assert(is_reserved(c) == is_forbidden(c));
}

/// Decoding reads a name from its start: a character other than the percent sign
/// stands for itself, a percent sign and two digits for the character of that
/// number, a percent sign, a plus sign and a digit for the character with the
/// number of the digit, and any other percent sign for itself.
pub proof fn law_decoding_reads_escapes(c: char, high: char, low: char, rest: Seq<char>)
    ensures
        decoded(Seq::empty()) == Seq::<char>::empty(),
        c != '%' ==> decoded(seq![c] + rest) == seq![c] + decoded(rest),
        (value_of_digit(high), value_of_digit(low)) matches (Some(h), Some(l)) ==> decoded(
            seq!['%', high, low] + rest,
        ) == seq![(16 * h + l) as char] + decoded(rest),
        high == '+' ==> (value_of_digit(low) matches Some(l) ==> decoded(
            seq!['%', high, low] + rest,
        ) == seq![l as char] + decoded(rest)),
        rest.len() < 2 || value_of_digit(rest[1]) is None || (value_of_digit(rest[0]) is None
            && rest[0] != '+') ==> decoded(seq!['%'] + rest) == seq!['%'] + decoded(rest),
{
    assert((seq![c] + rest).skip(1) =~= rest);
    assert((seq!['%'] + rest).skip(1) =~= rest);
    assert((seq!['%', high, low] + rest).skip(3) =~= rest);
}

/// No entry is lost, added or moved when a directory is listed: reading it in
/// two parts lists the names of the first and then those of the second, and the
/// first failure is the outcome.
pub proof fn law_listing_is_piecewise(separator: char, a: Seq<EntryView>, b: Seq<EntryView>)
    ensures
        match (listed(separator, a), listed(separator, b)) {
            (Ok(first), Ok(second)) => listed(separator, a + b) == Ok::<Seq<Seq<char>>, ErrorView>(
                first + second,
            ),
            (Ok(_), Err(error)) => listed(separator, a + b) == Err::<Seq<Seq<char>>, ErrorView>(
                error,
            ),
            (Err(error), _) => listed(separator, a + b) == Err::<Seq<Seq<char>>, ErrorView>(error),
        },
    decreases b.len(),
{
    if b.len() == 0 {
        assert(a + b =~= a);
        if let Ok(first) = listed(separator, a) {
            assert(first + Seq::empty() =~= first);
        }
    } else {
        law_listing_is_piecewise(separator, a, b.drop_last());
        assert((a + b).drop_last() =~= a + b.drop_last());
        assert((a + b).last() == b.last());
        if let (Ok(first), Ok(second)) = (
            listed(separator, a),
            listed(separator, b.drop_last()),
        ) {
            if let EntryView::Name(name) = b.last() {
                let found = logical_name(separator, name);
                assert((first + second).push(found) =~= first + second.push(found));
            }
        }
    }
}

/// An entry with a name is listed, on Unix under that name and on Windows under
/// the decoded one; an entry whose name is no text is not; a failure is an error.
pub proof fn law_every_name_is_listed(name: Seq<char>, message: Seq<char>)
    ensures
        listed('/', Seq::empty()) == Ok::<Seq<Seq<char>>, ErrorView>(Seq::empty()),
        listed('\\', Seq::empty()) == Ok::<Seq<Seq<char>>, ErrorView>(Seq::empty()),
        listed('/', seq![EntryView::Name(name)]) == Ok::<Seq<Seq<char>>, ErrorView>(seq![name]),
        listed('\\', seq![EntryView::Name(name)]) == Ok::<Seq<Seq<char>>, ErrorView>(
            seq![decoded(name)],
        ),
        listed('/', seq![EntryView::NotText]) == Ok::<Seq<Seq<char>>, ErrorView>(Seq::empty()),
        listed('\\', seq![EntryView::NotText]) == Ok::<Seq<Seq<char>>, ErrorView>(Seq::empty()),
        listed('/', seq![EntryView::Failure(message)]) == Err::<Seq<Seq<char>>, ErrorView>(
            ErrorView::Io(message),
        ),
        listed('\\', seq![EntryView::Failure(message)]) == Err::<Seq<Seq<char>>, ErrorView>(
            ErrorView::Io(message),
        ),
{
    reveal_with_fuel(listed, 2);
    let one = seq![EntryView::Name(name)];
    assert(one.drop_last() =~= Seq::empty());
    assert(seq![EntryView::NotText].drop_last() =~= Seq::empty());
    assert(seq![EntryView::Failure(message)].drop_last() =~= Seq::empty());
    assert(Seq::<Seq<char>>::empty().push(name) =~= seq![name]);
    assert(Seq::<Seq<char>>::empty().push(decoded(name)) =~= seq![decoded(name)]);
}

/// The names of the entries that have one, in order.
pub open spec fn names_among(entries: Seq<EntryView>) -> Seq<Seq<char>>
    decreases entries.len(),
{
    if entries.len() == 0 {
        Seq::empty()
    } else {
        match entries[0] {
            EntryView::Name(name) => seq![name] + names_among(entries.skip(1)),
            _ => names_among(entries.skip(1)),
        }
    }
}

/// On Unix a directory that was read without a failure is listed as the names of
/// its entries that are text, unchanged and in order, however many there are.
pub proof fn law_unix_directories_are_listed_whole(entries: Seq<EntryView>)
    requires
        forall|i: int| 0 <= i < entries.len() ==> !(#[trigger] entries[i] is Failure),
    ensures
        listed('/', entries) == Ok::<Seq<Seq<char>>, ErrorView>(names_among(entries)),
    decreases entries.len(),
{
    if entries.len() > 0 {
        let head = seq![entries[0]];
        let rest = entries.skip(1);
        assert forall|i: int| 0 <= i < rest.len() implies !(#[trigger] rest[i] is Failure) by {
            assert(rest[i] == entries[i + 1]);
        }
        law_unix_directories_are_listed_whole(rest);
        law_listing_is_piecewise('/', head, rest);
        assert(head + rest =~= entries);
        assert(!(entries[0] is Failure));
        match entries[0] {
            EntryView::Name(name) => law_every_name_is_listed(name, Seq::empty()),
            EntryView::NotText => {
                law_every_name_is_listed(Seq::empty(), Seq::empty());
                assert(Seq::<Seq<char>>::empty() + names_among(rest) =~= names_among(rest));
            },
            EntryView::Failure(_) => {},
        }
    }
}

/// A directory whose entries all have names is listed as those names: one for
/// each entry, in order, as they are on Unix and decoded on Windows.
pub proof fn law_names_are_listed_one_by_one(separator: char, names: Seq<Seq<char>>)
    requires
        separator == '/' || separator == '\\',
    ensures
        listed(separator, names.map_values(|name: Seq<char>| EntryView::Name(name)))
            matches Ok(found) && found.len() == names.len() && forall|i: int|
            0 <= i < names.len() ==> #[trigger] found[i] == if separator == '/' {
                names[i]
            } else {
                decoded(names[i])
            },
    decreases names.len(),
{
    let entries = names.map_values(|name: Seq<char>| EntryView::Name(name));
    if names.len() > 0 {
        let fewer = names.drop_last();
        law_names_are_listed_one_by_one(separator, fewer);
        assert(entries.drop_last() =~= fewer.map_values(|name: Seq<char>| EntryView::Name(name)));
    }
}

/// The outcomes of operations show what they hold.
pub proof fn law_outcomes_show_what_they_hold(
    handle: FileSystemHandle,
    space: FileSystem,
    text: String,
    error: FileSystemError,
    message: String,
)
    ensures
        handle_result(Ok(handle)) == Ok::<UrlView, ErrorView>(handle@),
        handle_result(Err(error)) == Err::<UrlView, ErrorView>(error@),
        space_result(Ok(space)) == Ok::<UrlView, ErrorView>(space@),
        space_result(Err(error)) == Err::<UrlView, ErrorView>(error@),
        text_result(Ok(text)) == Ok::<Seq<char>, ErrorView>(text@),
        text_result(Err(error)) == Err::<Seq<char>, ErrorView>(error@),
        message_result(Ok(text)) == Ok::<Seq<char>, Seq<char>>(text@),
        message_result(Err(message)) == Err::<Seq<char>, Seq<char>>(message@),
        FileSystemError::Io(message)@ == ErrorView::Io(message@),
        FileSystemError::Containment(message)@ == ErrorView::Containment(message@),
{
}

/// The URLs and names that operations give show what they hold.
pub proof fn law_findings_show_what_they_hold(
    url: UrlRecord,
    message: String,
    name: String,
    names: Vec<String>,
    error: FileSystemError,
    failure: IoFailure,
)
    ensures
        record_result(Ok(url)) == Ok::<UrlView, Seq<char>>(url@),
        record_result(Err(message)) == Err::<UrlView, Seq<char>>(message@),
        record_option(Some(url)) == Some(url@),
        record_option(None) is None,
        file_path_result(Ok(Some(name))) == Ok::<Option<Seq<char>>, ()>(Some(name@)),
        file_path_result(Ok(None)) == Ok::<Option<Seq<char>>, ()>(None),
        file_path_result(Err(())) == Err::<Option<Seq<char>>, ()>(()),
        option_view(Some(name)) == Some(name@),
        option_view(None) is None,
        entry_view(Ok(Some(name))) == EntryView::Name(name@),
        entry_view(Ok(None)) == EntryView::NotText,
        entry_view(Err(failure)) == EntryView::Failure(failure.message@),
        names_result(Err(error)) == Err::<Seq<Seq<char>>, ErrorView>(error@),
        names_result(Ok(names)) matches Ok(found) && found.len() == names@.len() && forall|i: int|
            0 <= i < names@.len() ==> #[trigger] found[i] == names@[i]@,
        PathComponent::Normal(name)@ == ComponentView::Normal(name@),
        PathComponent::Other(name)@ == ComponentView::Other(name@),
{
}

/// Lists show what they hold: as many things, each as it is, in order.
pub proof fn law_lists_show_what_they_hold(
    names: Seq<String>,
    components: Seq<PathComponent>,
    entries: Seq<Result<Option<String>, IoFailure>>,
    places: Seq<Vec<u8>>,
)
    ensures
        name_views(names).len() == names.len(),
        forall|i: int| 0 <= i < names.len() ==> #[trigger] name_views(names)[i] == names[i]@,
        component_views(components).len() == components.len(),
        forall|i: int|
            0 <= i < components.len() ==> #[trigger] component_views(components)[i]
                == match components[i] {
                PathComponent::Normal(name) => ComponentView::Normal(name@),
                PathComponent::Other(text) => ComponentView::Other(text@),
            },
        entry_views(entries).len() == entries.len(),
        forall|i: int|
            0 <= i < entries.len() ==> #[trigger] entry_views(entries)[i] == match entries[i] {
                Ok(Some(name)) => EntryView::Name(name@),
                Ok(None) => EntryView::NotText,
                Err(failure) => EntryView::Failure(failure.message@),
            },
        byte_views(places).len() == places.len(),
        forall|i: int| 0 <= i < places.len() ==> #[trigger] byte_views(places)[i] == places[i]@,
{
}

/// The first byte of a character is a digit of base sixteen exactly where the
/// character is one, and a percent sign only of the percent sign.
proof fn lemma_first_byte(c: char, rest: Seq<char>)
    ensures
        encode_utf8(seq![c] + rest) == encode_scalar(c as u32) + encode_utf8(rest),
        encode_scalar(c as u32).len() > 0,
        hex_value(encode_scalar(c as u32)[0]) == value_of_digit(c),
        value_of_digit(c) is Some || c == '%' ==> encode_scalar(c as u32).len() == 1,
        c == '%' ==> encode_scalar(c as u32)[0] == 0x25,
        c != '%' ==> forall|i: int|
            0 <= i < encode_scalar(c as u32).len() ==> #[trigger] encode_scalar(c as u32)[i]
                != 0x25,
{
    lemma_encode_concat(seq![c], rest);
    lemma_encode_one(c);
    let scalar = c as u32;
    if has_width_1_encoding(scalar) {
        assert(leading_byte_width_1(scalar) == scalar) by (bit_vector)
            requires
                scalar <= 0x7f,
        ;
    } else {
        assert(leading_byte_width_2(scalar) >= 0x80) by (bit_vector);
        assert(leading_byte_width_3(scalar) >= 0x80) by (bit_vector);
        assert(leading_byte_width_4(scalar) >= 0x80) by (bit_vector);
        assert(last_continuation_byte(scalar) >= 0x80) by (bit_vector);
        assert(second_last_continuation_byte(scalar) >= 0x80) by (bit_vector);
        assert(third_last_continuation_byte(scalar) >= 0x80) by (bit_vector);
    }
}

proof fn lemma_unescaped_behind(bytes: Seq<u8>, rest: Seq<u8>)
    requires
        forall|i: int| 0 <= i < bytes.len() ==> bytes[i] != 0x25,
    ensures
        unescaped(bytes + rest) == bytes + unescaped(rest),
    decreases bytes.len(),
{
    if bytes.len() == 0 {
        assert(bytes + rest =~= rest);
        assert(bytes + unescaped(rest) =~= unescaped(rest));
    } else {
        lemma_unescaped_behind(bytes.skip(1), rest);
        assert((bytes + rest).skip(1) =~= bytes.skip(1) + rest);
        assert(unescaped(bytes + rest) =~= bytes + unescaped(rest));
    }
}

/// Percent-decoding reads a text from its start: a character other than the
/// percent sign stands for its own bytes, a percent sign and two digits for the
/// byte of that number, and any other percent sign for itself.
pub proof fn law_percent_decoding_reads_escapes(
    c: char,
    high: char,
    low: char,
    rest: Seq<char>,
)
    ensures
        percent_decoded(Seq::empty()) == Seq::<u8>::empty(),
        c != '%' ==> percent_decoded(seq![c] + rest) == encode_utf8(seq![c]) + percent_decoded(
            rest,
        ),
        (value_of_digit(high), value_of_digit(low)) matches (Some(h), Some(l)) ==> percent_decoded(
            seq!['%', high, low] + rest,
        ) == seq![(16 * h + l) as u8] + percent_decoded(rest),
        rest.len() < 2 || value_of_digit(rest[0]) is None || value_of_digit(rest[1]) is None
            ==> percent_decoded(seq!['%'] + rest) == seq![0x25u8] + percent_decoded(rest),
{
    assert(encode_utf8(Seq::empty()) =~= Seq::<u8>::empty());
    assert(percent_decoded(Seq::empty()) =~= Seq::<u8>::empty());
    lemma_first_byte(c, rest);
    lemma_encode_one(c);
    if c != '%' {
        lemma_unescaped_behind(encode_scalar(c as u32), encode_utf8(rest));
    }
    let tail = seq![low] + rest;
    lemma_first_byte('%', seq![high] + tail);
    lemma_first_byte(high, tail);
    lemma_first_byte(low, rest);
    assert(seq!['%'] + (seq![high] + tail) =~= seq!['%', high, low] + rest);
    if let (Some(h), Some(l)) = (value_of_digit(high), value_of_digit(low)) {
        let bytes = encode_utf8(seq!['%', high, low] + rest);
        let front = encode_scalar('%' as u32);
        assert(bytes == front + (encode_scalar(high as u32) + (encode_scalar(low as u32)
            + encode_utf8(rest))));
        assert(bytes[0] == 0x25);
        assert(bytes[1] == encode_scalar(high as u32)[0]);
        assert(bytes[2] == encode_scalar(low as u32)[0]);
        assert(bytes.skip(3) =~= encode_utf8(rest));
        assert(leading_byte(bytes) == Some((16 * h + l) as u8));
    }
    lemma_first_byte('%', rest);
    let bytes = encode_utf8(seq!['%'] + rest);
    let after = encode_utf8(rest);
    assert(bytes.skip(1) =~= after);
    if rest.len() < 2 || value_of_digit(rest[0]) is None || value_of_digit(rest[1]) is None {
        if rest.len() == 0 {
            assert(after =~= Seq::<u8>::empty());
        } else {
            let behind = rest.skip(1);
            assert(seq![rest[0]] + behind =~= rest);
            lemma_first_byte(rest[0], behind);
            assert(bytes[1] == encode_scalar(rest[0] as u32)[0]);
            if value_of_digit(rest[0]) is Some {
                if behind.len() == 0 {
                    assert(encode_utf8(behind) =~= Seq::<u8>::empty());
                    assert(bytes.len() == 2);
                } else {
                    assert(seq![behind[0]] + behind.skip(1) =~= behind);
                    lemma_first_byte(behind[0], behind.skip(1));
                    assert(bytes[2] == encode_scalar(behind[0] as u32)[0]);
                }
            }
        }
        assert(leading_byte(bytes) is None);
    }
}

/// Following a native path: a separator at the end and `.` change nothing, a
/// name leads one further, and `..` one back, but not out of the root.
pub proof fn law_places_follow_the_names(
    separator: char,
    path: Seq<u8>,
    slash: u8,
    name: Seq<u8>,
)
    requires
        slash == 0x2f || separator == '\\' && slash == 0x5c,
        name.len() > 0,
        name != seq![0x2eu8] && name != seq![0x2eu8, 0x2eu8],
        forall|i: int|
            0 <= i < name.len() ==> #[trigger] name[i] != 0x2f && (separator == '\\' ==> name[i]
                != 0x5c),
    ensures
        places(separator, Seq::empty()) == Seq::<Seq<u8>>::empty(),
        places(separator, seq![0x2eu8]) == Seq::<Seq<u8>>::empty(),
        places(separator, seq![0x2eu8, 0x2eu8]) == Seq::<Seq<u8>>::empty(),
        places(separator, name) == seq![name],
        places(separator, path.push(slash)) == places(separator, path),
        places(separator, path.push(slash).push(0x2e)) == places(separator, path),
        places(separator, path.push(slash) + name) == places(separator, path).push(name),
        places(separator, path.push(slash).push(0x2e).push(0x2e)) == ({
            let before = places(separator, path);
            let drive = separator == '\\' && before.len() == 1 && before[0].len() == 2 && (0x41
                <= before[0][0] <= 0x5a || 0x61 <= before[0][0] <= 0x7a) && before[0][1] == 0x3a;
            if before.len() == 0 || drive {
                before
            } else {
                before.drop_last()
            }
        }),
{
    let opened = path.push(slash);
    assert(opened.drop_last() =~= path);
    assert(way(separator, opened) == (places(separator, path), Seq::<u8>::empty()));
    let one = opened.push(0x2e);
    assert(one.drop_last() =~= opened);
    assert(Seq::<u8>::empty().push(0x2e) =~= seq![0x2eu8]);
    assert(way(separator, one) == (places(separator, path), seq![0x2eu8]));
    let two = one.push(0x2e);
    assert(two.drop_last() =~= one);
    assert(seq![0x2eu8].push(0x2e) =~= seq![0x2eu8, 0x2eu8]);
    assert(way(separator, two) == (places(separator, path), seq![0x2eu8, 0x2eu8]));
    assert(seq![0x2eu8, 0x2eu8].len() == 2 && seq![0x2eu8].len() == 1);
    reveal_with_fuel(way, 2);
    assert(seq![0x2eu8].drop_last() =~= Seq::<u8>::empty());
    assert(seq![0x2eu8, 0x2eu8].drop_last() =~= seq![0x2eu8]);
    assert(way(separator, seq![0x2eu8]) == (Seq::<Seq<u8>>::empty(), seq![0x2eu8]));
    assert(way(separator, seq![0x2eu8, 0x2eu8]) == (
        Seq::<Seq<u8>>::empty(),
        seq![0x2eu8, 0x2eu8],
    ));
    lemma_way_extends(separator, opened, name);
    assert(Seq::<u8>::empty() + name =~= name);
    lemma_way_extends(separator, Seq::empty(), name);
    assert(Seq::<Seq<u8>>::empty().push(name) =~= seq![name]);
}

/// A character of an ordinary name.
pub open spec fn is_name_char(c: char) -> bool {
    'a' <= c <= 'z' || 'A' <= c <= 'Z' || '0' <= c <= '9' || c == '-' || c == '_'
}

/// Names of letters, digits, hyphens and underscores, with slashes between them,
/// are a plain segment, and behind a slash a path that keeps its form.
pub proof fn law_ordinary_names_are_plain(names: Seq<Seq<char>>)
    requires
        names.len() > 0,
        forall|i: int| 0 <= i < names.len() ==> (#[trigger] names[i]).len() > 0,
        forall|i: int, k: int|
            0 <= i < names.len() && 0 <= k < names[i].len() ==> is_name_char(
                #[trigger] names[i][k],
            ),
    ensures
        is_plain_segment(slash_text(names)),
        is_written_text(slash_text(names)),
        is_written_path(seq!['/'] + slash_text(names)),
        is_stable_path(seq!['/'] + slash_text(names)),
{
    let text = slash_text(names);
    let path = seq!['/'] + text;
    lemma_slash_text_chars(names);
    assert forall|i: int| 0 <= i < path.len() implies path[i] == '/' || is_name_char(
        #[trigger] path[i],
    ) by {
        if i > 0 {
            assert(path[i] == text[i - 1]);
        }
    }
    assert(path[1] == text[0]);
    assert(is_dotless(path)) by {
        assert forall|start: int, end: int| #[trigger] is_segment(path, start, end) implies
            !is_dot_segment(path.subrange(start, end)) by {
            let s = path.subrange(start, end);
            if s.len() > 0 {
                assert(s[0] == path[start]);
                assert(s.len() >= 1 ==> s.take(1)[0] == s[0]);
                assert(s.len() >= 3 ==> s.take(3)[0] == s[0]);
            }
        }
    }
    assert(is_plain_path(path)) by {
        assert forall|i: int| 0 <= i < path.len() implies path[i] == '/' || is_plain_char(
            #[trigger] path[i],
        ) by {}
    }
    if has_bar_drive(path) {
        assert(path[2] == '/' || is_name_char(path[2]));
    }
}

proof fn lemma_slash_text_chars(names: Seq<Seq<char>>)
    requires
        names.len() > 0,
        forall|i: int| 0 <= i < names.len() ==> (#[trigger] names[i]).len() > 0,
        forall|i: int, k: int|
            0 <= i < names.len() && 0 <= k < names[i].len() ==> is_name_char(
                #[trigger] names[i][k],
            ),
    ensures
        slash_text(names).len() > 0,
        slash_text(names)[0] != '/',
        forall|i: int|
            0 <= i < slash_text(names).len() ==> slash_text(names)[i] == '/' || is_name_char(
                #[trigger] slash_text(names)[i],
            ),
    decreases names.len(),
{
    let text = slash_text(names);
    assert(names[0].len() > 0);
    assert(is_name_char(names[0][0]));
    if names.len() == 1 {
        assert forall|i: int| 0 <= i < text.len() implies text[i] == '/' || is_name_char(
            #[trigger] text[i],
        ) by {
            assert(is_name_char(names[0][i]));
        }
    } else {
        let fewer = names.drop_last();
        let n = names.len() - 1;
        assert forall|i: int| 0 <= i < fewer.len() implies (#[trigger] fewer[i]).len() > 0 by {
            assert(names[i].len() > 0);
        }
        assert forall|i: int, k: int|
            0 <= i < fewer.len() && 0 <= k < fewer[i].len() implies is_name_char(
            #[trigger] fewer[i][k],
        ) by {
            assert(is_name_char(names[i][k]));
        }
        lemma_slash_text_chars(fewer);
        let head = slash_text(fewer);
        assert forall|i: int| 0 <= i < text.len() implies text[i] == '/' || is_name_char(
            #[trigger] text[i],
        ) by {
            if i < head.len() {
                assert(text[i] == head[i]);
            } else if i > head.len() {
                assert(text[i] == names[n][i - head.len() - 1]);
                assert(is_name_char(names[n][i - head.len() - 1]));
            }
        }
        assert(text[0] == head[0]);
    }
}

/// Ordinary names under a root that is a directory resolve to the root's path
/// with the names behind it, and to the same under a space and against its root
/// handle.
pub proof fn law_ordinary_names_resolve(separator: char, root: UrlView, names: Seq<Seq<char>>)
    requires
        root.scheme == "file"@ && is_rooted_path(root.path) && ends_with_slash(root.path),
        names.len() > 0,
        forall|i: int| 0 <= i < names.len() ==> (#[trigger] names[i]).len() > 0,
        forall|i: int, k: int|
            0 <= i < names.len() && 0 <= k < names[i].len() ==> is_name_char(
                #[trigger] names[i][k],
            ),
    ensures
        ({
            let child = UrlView {
                path: root.path + slash_text(names),
                suffix: Seq::empty(),
                ..root
            };
            &&& resolved(separator, root, slash_text(names)) == Ok::<UrlView, ErrorView>(child)
            &&& space_resolved(separator, root, slash_text(names)) == Ok::<UrlView, ErrorView>(
                child,
            )
        }),
{
    law_ordinary_names_are_plain(names);
    lemma_slash_text_chars(names);
    law_plain_segments_resolve(separator, root, slash_text(names));
}

} // verus!
