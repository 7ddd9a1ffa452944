//! What holds of locations as a whole.

use vstd::prelude::*;
use vstd::utf8::*;

use crate::error::ErrorView;
use crate::handle::{
    child_url, clean_path, escapes, handle_of_parsed, handle_of_path, handle_of_url,
    is_handle_of, is_within, native_path, native_text, resolved,
};
use crate::model::{
    arrival, backslashed, climbed, directory_path, directory_url, drive_len, ends_like_drive,
    found_path, has_bar_drive, has_parent, is_bare_drive, is_dot, is_dot_segment, is_dotless,
    is_literal_segment, is_local, is_named_child, is_normal_path, is_on_drive, is_ordinary_path,
    is_plain_char, is_plain_segment, is_rooted_path, is_segment, is_stable_path,
    is_written_path, is_written_text, joined_url, joins_plainly, native_bytes, parent_directory,
    parsed_url, path_url, slashed, slashed_url, stands_for, text_of, trail, with_one_root,
    UrlView, MAX_URL_LEN,
};
use crate::percent::{
    is_break, leading_byte, lemma_encode_ascii, lemma_encode_concat, lemma_places_of_directory,
    lemma_unescaped_concat, lemma_unescaped_plain, lemma_way_from_root, percent_decoded, places,
    unescaped, way,
};
use crate::target::{
    are_file_names, is_absolute_path, is_adjoined, is_file_name, is_path_of, is_relative_of,
    joined_path, prefixed_path, prefixed_text, relative_text, starts_at_root, with_separator,
};
use crate::text::{ends_with_slash, without_trailing_slashes};
use crate::windows::{are_legal, encoded_names, law_legal_names_are_kept, lemma_encoded_names};

verus! {

/// A plain segment is literal: its characters are ASCII, and every byte of it
/// stands for itself.
pub(crate) proof fn lemma_plain_is_literal(segment: Seq<char>)
    requires
        is_plain_segment(segment),
    ensures
        is_literal_segment(segment),
        forall|i: int|
            0 <= i < segment.len() ==> #[trigger] segment[i] == '/' || is_plain_char(segment[i]),
        is_written_text(segment),
{
    let rooted = seq!['/'] + segment;
    assert forall|i: int| 0 <= i < segment.len() implies #[trigger] segment[i] == '/'
        || is_plain_char(segment[i]) by {
        assert(rooted[i + 1] == segment[i]);
    }
    assert(is_ascii_chars(segment));
    is_ascii_chars_encode_utf8(segment);
    let bytes = encode_utf8(segment);
    assert forall|i: int| 0 <= i < bytes.len() implies bytes[i] != 0x25 by {
        assert(segment[i] == '/' || is_plain_char(segment[i]));
        assert(bytes[i] == segment[i] as u8);
    }
    lemma_unescaped_plain(bytes);
    if has_bar_drive(rooted) {
        assert(rooted[2] == segment[1]);
    }
}

/// No character but the slash is written with the byte of a slash, and none but
/// the backslash with that of a backslash.
proof fn lemma_scalar_bytes(c: char)
    ensures
        encode_scalar(c as u32).len() > 0,
        c == '/' ==> encode_scalar(c as u32) == seq![0x2fu8],
        forall|i: int|
            0 <= i < encode_scalar(c as u32).len() ==> {
                &&& c != '/' ==> #[trigger] encode_scalar(c as u32)[i] != 0x2f
                &&& c != '\\' ==> encode_scalar(c as u32)[i] != 0x5c
            },
{
    let scalar = c as u32;
    if has_width_1_encoding(scalar) {
        assert(leading_byte_width_1(scalar) == scalar) by (bit_vector)
            requires
                scalar <= 0x7f,
        ;
        assert(c == '/' ==> encode_scalar(scalar) =~= seq![0x2fu8]);
    } else {
        assert(leading_byte_width_2(scalar) >= 0x80) by (bit_vector);
        assert(leading_byte_width_3(scalar) >= 0x80) by (bit_vector);
        assert(leading_byte_width_4(scalar) >= 0x80) by (bit_vector);
        assert(last_continuation_byte(scalar) >= 0x80) by (bit_vector);
        assert(second_last_continuation_byte(scalar) >= 0x80) by (bit_vector);
        assert(third_last_continuation_byte(scalar) >= 0x80) by (bit_vector);
    }
}

/// One character is written with the bytes of its scalar.
pub(crate) proof fn lemma_encode_one(c: char)
    ensures
        encode_utf8(seq![c]) == encode_scalar(c as u32),
{
    reveal_with_fuel(encode_utf8, 2);
    assert(seq![c].drop_first().len() == 0);
    assert(seq![c][0] == c);
    assert(encode_utf8(seq![c]) == encode_scalar(seq![c][0] as u32) + encode_utf8(
        seq![c].drop_first(),
    ));
    assert(encode_utf8(seq![c]) =~= encode_scalar(c as u32));
}

/// What stands between two slashes of a segment, or at one of its ends, is not
/// `..`.
proof fn lemma_name_in_segment(segment: Seq<char>, start: int, end: int)
    requires
        is_dotless(seq!['/'] + segment),
        0 <= start <= end <= segment.len(),
        start == 0 || segment[start - 1] == '/',
        end == segment.len() || segment[end] == '/',
        forall|k: int| start <= k < end ==> segment[k] != '/',
    ensures
        encode_utf8(segment.subrange(start, end)) != seq![0x2eu8, 0x2eu8],
        !is_dot_segment(segment.subrange(start, end)),
{
    let name = segment.subrange(start, end);
    let rooted = seq!['/'] + segment;
    assert forall|k: int| start + 1 <= k < end + 1 implies rooted[k] != '/' by {
        assert(rooted[k] == segment[k - 1]);
    }
    assert(is_segment(rooted, start + 1, end + 1));
    assert(rooted.subrange(start + 1, end + 1) =~= name);
    if encode_utf8(name) == seq![0x2eu8, 0x2eu8] {
        let dots = seq!['.', '.'];
        lemma_encode_ascii('.');
        lemma_encode_concat(seq!['.'], seq!['.']);
        assert(seq!['.'] + seq!['.'] =~= dots);
        assert(encode_utf8(dots) =~= seq![0x2eu8, 0x2eu8]);
        encode_utf8_decode_utf8(dots);
        encode_utf8_decode_utf8(name);
        assert(name == dots);
        assert(is_dot(name.take(1)) && is_dot(name.skip(1)));
    }
}

/// Bytes without a separator make the last name longer.
pub(crate) proof fn lemma_way_extends(separator: char, bytes: Seq<u8>, more: Seq<u8>)
    requires
        forall|i: int| 0 <= i < more.len() ==> !is_break(separator, #[trigger] more[i]),
    ensures
        way(separator, bytes + more) == (
            way(separator, bytes).0,
            way(separator, bytes).1 + more,
        ),
    decreases more.len(),
{
    let name = way(separator, bytes).1;
    if more.len() == 0 {
        assert(bytes + more =~= bytes);
        assert(name + more =~= name);
    } else {
        let fewer = more.drop_last();
        assert forall|i: int| 0 <= i < fewer.len() implies !is_break(
            separator,
            #[trigger] fewer[i],
        ) by {
            assert(fewer[i] == more[i]);
        }
        lemma_way_extends(separator, bytes, fewer);
        assert((bytes + more).drop_last() =~= bytes + fewer);
        assert((bytes + more).last() == more[more.len() - 1]);
        assert((name + fewer).push(more.last()) =~= name + more);
    }
}

/// Whatever starts with some places still does with one more behind them.
proof fn lemma_prefix_push(head: Seq<Seq<u8>>, whole: Seq<Seq<u8>>, name: Seq<u8>)
    requires
        head.is_prefix_of(whole),
    ensures
        head.is_prefix_of(whole.push(name)),
{
    assert(whole.push(name).subrange(0, head.len() as int) =~= whole.subrange(
        0,
        head.len() as int,
    ));
}

/// Names that are not `..` lead on from where one is.
proof fn lemma_dotless_way(separator: char, bytes: Seq<u8>, segment: Seq<char>, n: int) -> (start:
    int)
    requires
        way(separator, bytes).1.len() == 0,
        is_dotless(seq!['/'] + segment),
        !segment.contains('\\'),
        0 <= n <= segment.len(),
    ensures
        0 <= start <= n,
        start == 0 || segment[start - 1] == '/',
        forall|k: int| start <= k < n ==> segment[k] != '/',
        way(separator, bytes).0.is_prefix_of(
            way(separator, bytes + encode_utf8(segment.take(n))).0,
        ),
        way(separator, bytes + encode_utf8(segment.take(n))).1 == encode_utf8(
            segment.subrange(start, n),
        ),
    decreases n,
{
    let outset = way(separator, bytes).0;
    if n == 0 {
        assert(segment.take(0) =~= Seq::empty());
        assert(segment.subrange(0, 0) =~= Seq::empty());
        assert(bytes + encode_utf8(segment.take(0)) =~= bytes);
        assert(way(separator, bytes).1 =~= Seq::empty());
        assert(outset.subrange(0, outset.len() as int) =~= outset);
        0
    } else {
        let c = segment[n - 1];
        let before = lemma_dotless_way(separator, bytes, segment, n - 1);
        let done = bytes + encode_utf8(segment.take(n - 1));
        let (reached, name) = way(separator, done);
        assert(segment.take(n - 1) + seq![c] =~= segment.take(n));
        lemma_encode_concat(segment.take(n - 1), seq![c]);
        lemma_encode_one(c);
        lemma_scalar_bytes(c);
        assert(bytes + encode_utf8(segment.take(n)) =~= done + encode_scalar(c as u32));
        if c == '/' {
            lemma_name_in_segment(segment, before, n - 1);
            assert((done + seq![0x2fu8]).drop_last() =~= done);
            lemma_prefix_push(outset, reached, name);
            assert(segment.subrange(n, n) =~= Seq::empty());
            n
        } else {
            assert(segment.contains(c));
            lemma_way_extends(separator, done, encode_scalar(c as u32));
            assert(segment.subrange(before, n - 1) + seq![c] =~= segment.subrange(before, n));
            lemma_encode_concat(segment.subrange(before, n - 1), seq![c]);
            before
        }
    }
}

/// One stands in a directory behind its slash.
proof fn lemma_way_of_directory(separator: char, directory: Seq<char>)
    requires
        ends_with_slash(directory),
    ensures
        way(separator, percent_decoded(directory)) == (
            places(separator, percent_decoded(directory)),
            Seq::<u8>::empty(),
        ),
        places(separator, percent_decoded(directory)) == places(
            separator,
            percent_decoded(directory.drop_last()),
        ),
{
    lemma_decoded_separator('/');
    lemma_decoded_concat(directory.drop_last(), seq!['/']);
    assert(directory.drop_last() + seq!['/'] =~= directory);
    let bytes = percent_decoded(directory.drop_last());
    assert(bytes + seq![0x2fu8] =~= bytes.push(0x2f));
    lemma_places_of_directory(separator, bytes);
}

/// What stands for names without `..` behind a directory lies within it.
proof fn lemma_within(
    separator: char,
    directory: Seq<char>,
    tail: Seq<char>,
    segment: Seq<char>,
)
    requires
        ends_with_slash(directory),
        percent_decoded(tail) == encode_utf8(segment),
        is_dotless(seq!['/'] + segment),
        !segment.contains('\\'),
    ensures
        is_within(separator, directory, directory + tail),
{
    let path = directory + tail;
    let bytes = percent_decoded(directory);
    assert(path.subrange(0, directory.len() as int) =~= directory);
    lemma_decoded_concat(directory, tail);
    lemma_way_of_directory(separator, directory);
    let n = segment.len() as int;
    let start = lemma_dotless_way(separator, bytes, segment, n);
    assert(segment.take(n) =~= segment);
    lemma_name_in_segment(segment, start, n);
    let (reached, name) = way(separator, bytes + encode_utf8(segment));
    lemma_prefix_push(places(separator, bytes), reached, name);
}

/// What a literal segment names in a directory lies within it.
pub proof fn law_named_children_lie_within(
    separator: char,
    url: UrlView,
    child: UrlView,
    segment: Seq<char>,
)
    requires
        is_literal_segment(segment),
        is_named_child(url, child, segment),
    ensures
        is_within(separator, url.path, child.path),
{
    let directory = directory_path(url.path);
    let tail = child.path.skip(directory.len() as int);
    assert(child.path =~= directory + tail) by {
        assert(child.path.subrange(0, directory.len() as int) =~= directory);
    }
    lemma_within(separator, directory, tail, segment);
}

/// A path without dot segments is followed name by name.
proof fn lemma_trail_of_dotless(directory: Seq<char>, segment: Seq<char>, n: int) -> (start: int)
    requires
        is_dotless(seq!['/'] + segment),
        0 <= n <= segment.len(),
    ensures
        0 <= start <= n,
        start == 0 || segment[start - 1] == '/',
        forall|k: int| start <= k < n ==> segment[k] != '/',
        trail(directory, segment.take(n)) == (
            directory + segment.take(start),
            segment.subrange(start, n),
        ),
    decreases n,
{
    if n == 0 {
        assert(directory + segment.take(0) =~= directory);
        assert(segment.subrange(0, 0) =~= Seq::empty());
        0
    } else {
        let before = lemma_trail_of_dotless(directory, segment, n - 1);
        assert(segment.take(n).drop_last() =~= segment.take(n - 1));
        assert(segment.take(n).last() == segment[n - 1]);
        if segment[n - 1] == '/' {
            lemma_name_in_segment(segment, before, n - 1);
            let name = segment.subrange(before, n - 1);
            assert(directory + segment.take(before) + name.push('/') =~= directory + segment.take(
                n,
            ));
            assert(segment.subrange(n, n) =~= Seq::empty());
            n
        } else {
            assert(segment.subrange(before, n) =~= segment.subrange(before, n - 1).push(
                segment[n - 1],
            ));
            before
        }
    }
}

/// A path without dot segments leads to itself, behind the directory.
proof fn lemma_arrival_of_dotless(directory: Seq<char>, segment: Seq<char>)
    requires
        is_dotless(seq!['/'] + segment),
    ensures
        arrival(directory, segment) == directory + segment,
{
    let n = segment.len() as int;
    let start = lemma_trail_of_dotless(directory, segment, n);
    assert(segment.take(n) =~= segment);
    lemma_name_in_segment(segment, start, n);
    assert(directory + segment.take(start) + segment.subrange(start, n) =~= directory + segment);
}

/// A path that goes on from a directory is followed from there.
proof fn lemma_trail_goes_on(directory: Seq<char>, a: Seq<char>, b: Seq<char>)
    requires
        trail(directory, a).1.len() == 0,
    ensures
        trail(directory, a + b) == trail(trail(directory, a).0, b),
    decreases b.len(),
{
    if b.len() == 0 {
        assert(a + b =~= a);
        assert(trail(directory, a).1 =~= Seq::empty());
    } else {
        assert((a + b).drop_last() =~= a + b.drop_last());
        lemma_trail_goes_on(directory, a, b.drop_last());
    }
}

/// The URL that a segment which a URL path takes as it is leads to from the
/// directory at a URL.
pub open spec fn written_url(url: UrlView, segment: Seq<char>) -> UrlView {
    UrlView {
        path: with_one_root(arrival(directory_path(url.path), segment)),
        suffix: Seq::empty(),
        ..url
    }
}

/// A segment that a URL path takes as it is resolves to where it leads from the
/// directory with its dot segments resolved, if that lies within the directory.
/// Otherwise it is refused.
pub proof fn law_written_segments_resolve(separator: char, url: UrlView, segment: Seq<char>)
    requires
        url.scheme == "file"@,
        is_rooted_path(url.path),
        is_stable_path(url.path),
        directory_url(url) is Some,
        is_written_text(segment),
    ensures
        resolved(separator, url, segment) == if is_within(
            separator,
            url.path,
            written_url(url, segment).path,
        ) {
            Ok::<UrlView, ErrorView>(written_url(url, segment))
        } else {
            Err::<UrlView, ErrorView>(escapes(directory_url(url)->0, segment))
        },
{
    let base = directory_url(url)->0;
    let input = "./"@ + segment;
    reveal_strlit("./");
    assert(input.skip(2) =~= segment);
    assert(joins_plainly(base, input));
    assert(joined_url(base, input)->Ok_0 =~= written_url(url, segment));
    assert(directory_path(base.path) == base.path);
}

/// A plain segment resolves to what it names in the directory.
pub proof fn law_plain_segments_resolve(separator: char, url: UrlView, segment: Seq<char>)
    requires
        url.scheme == "file"@,
        is_rooted_path(url.path),
        is_stable_path(url.path),
        directory_url(url) is Some,
        is_plain_segment(segment),
    ensures
        resolved(separator, url, segment) == Ok::<UrlView, ErrorView>(child_url(url, segment)),
{
    let directory = directory_path(url.path);
    lemma_plain_is_literal(segment);
    lemma_arrival_of_dotless(directory, segment);
    law_written_segments_resolve(separator, url, segment);
    assert(is_rooted_path(directory + segment)) by {
        let path = directory + segment;
        assert(path[0] == directory[0]);
        if directory.len() > 1 {
            assert(path[1] == directory[1]);
        } else if path.len() > 1 {
            assert(path[1] == (seq!['/'] + segment)[1]);
        }
    }
    assert(written_url(url, segment) =~= child_url(url, segment));
    law_plain_child_is_named(url, segment);
    law_named_children_lie_within(separator, url, child_url(url, segment), segment);
}

/// A segment that starts with a slash is taken as relative: it resolves to what
/// follows the slash, or the slashes, below the directory.
pub proof fn law_leading_slash_is_relative(separator: char, url: UrlView, segment: Seq<char>)
    requires
        url.scheme == "file"@,
        is_rooted_path(url.path),
        is_stable_path(url.path),
        directory_url(url) is Some,
        starts_at_root(segment),
        is_written_text(segment),
        is_dotless(segment),
        percent_decoded(segment) == encode_utf8(segment),
    ensures
        resolved(separator, url, segment) == Ok::<UrlView, ErrorView>(
            UrlView {
                path: with_one_root(directory_path(url.path) + segment),
                suffix: Seq::empty(),
                ..url
            },
        ),
{
    let directory = directory_path(url.path);
    let rooted = seq!['/'] + segment;
    assert(is_dotless(rooted)) by {
        assert forall|start: int, end: int| #[trigger] is_segment(rooted, start, end) implies
            !is_dot_segment(rooted.subrange(start, end)) by {
            if start == 1 {
                assert(rooted[1] == segment[0]);
                assert(end == 1);
                assert(rooted.subrange(start, end) =~= Seq::empty());
            } else {
                assert(rooted[start - 1] == segment[start - 2]);
                if end < rooted.len() {
                    assert(rooted[end] == segment[end - 1]);
                }
                assert forall|k: int| start - 1 <= k < end - 1 implies segment[k] != '/' by {
                    assert(rooted[k + 1] == segment[k]);
                }
                assert(is_segment(segment, start - 1, end - 1));
                assert(segment.subrange(start - 1, end - 1) =~= rooted.subrange(start, end));
            }
        }
    }
    assert(!segment.contains('\\')) by {
        if segment.contains('\\') {
            let k = choose|k: int| 0 <= k < segment.len() && segment[k] == '\\';
            assert(segment[k] == '/' || segment[k] == '%' || is_plain_char(segment[k]));
        }
    }
    lemma_arrival_of_dotless(directory, segment);
    law_written_segments_resolve(separator, url, segment);
    let path = with_one_root(directory + segment);
    assert(directory_path(directory) == directory);
    if directory.len() > 1 {
        assert((directory + segment)[1] == directory[1]);
        lemma_within(separator, directory, segment, segment);
    } else {
        assert(directory =~= seq!['/']);
        lemma_one_root_starts_at_root(directory + segment);
        assert(path.subrange(0, 1) =~= directory);
        lemma_way_of_directory(separator, directory);
        assert(directory.drop_last() =~= Seq::empty());
        assert(encode_utf8(directory.drop_last()) =~= Seq::empty());
        assert(percent_decoded(directory.drop_last()) =~= Seq::empty());
        let inner = places(separator, percent_decoded(path));
        assert(inner.subrange(0, 0) =~= Seq::empty());
    }
}

proof fn lemma_one_root_starts_at_root(path: Seq<char>)
    requires
        starts_at_root(path),
    ensures
        starts_at_root(with_one_root(path)),
    decreases path.len(),
{
    if path.len() > 1 && path[1] == '/' {
        lemma_one_root_starts_at_root(path.skip(1));
    }
}

/// A segment that starts with `../` is refused, unless what follows leads back
/// into the directory.
pub proof fn law_upward_segments_are_refused(separator: char, url: UrlView, segment: Seq<char>)
    requires
        url.scheme == "file"@,
        is_rooted_path(url.path),
        is_stable_path(url.path),
        directory_url(url) is Some,
        has_parent(directory_path(url.path)),
        is_written_text(segment),
        is_dotless(seq!['/'] + segment),
        !directory_path(url.path).is_prefix_of(
            with_one_root(parent_directory(directory_path(url.path)) + segment),
        ),
    ensures
        resolved(separator, url, "../"@ + segment) == Err::<UrlView, ErrorView>(
            escapes(directory_url(url)->0, "../"@ + segment),
        ),
{
    let directory = directory_path(url.path);
    let dots = "../"@;
    let whole = dots + segment;
    reveal_strlit("../");
    reveal_with_fuel(trail, 4);
    assert(dots.drop_last().drop_last().drop_last() =~= Seq::empty());
    assert(dots.drop_last().drop_last().last() == '.');
    assert(dots.drop_last().last() == '.');
    let name = Seq::<char>::empty().push('.').push('.');
    assert(is_dot(name.take(1)) && is_dot(name.skip(1)));
    assert(trail(directory, dots) == (climbed(directory), Seq::<char>::empty()));
    lemma_trail_goes_on(directory, dots, segment);
    lemma_arrival_of_dotless(parent_directory(directory), segment);
    assert(is_written_text(whole)) by {
        assert forall|i: int| 0 <= i < whole.len() implies whole[i] == '/' || whole[i] == '%'
            || is_plain_char(#[trigger] whole[i]) by {
            if i >= 3 {
                assert(whole[i] == segment[i - 3]);
            }
        }
    }
    law_written_segments_resolve(separator, url, whole);
    assert(arrival(directory, whole) == parent_directory(directory) + segment);
}

/// A slash at the end of the base makes no difference.
pub proof fn law_trailing_slash_makes_no_difference(
    separator: char,
    url: UrlView,
    segment: Seq<char>,
)
    requires
        is_stable_path(url.path),
        url.href().len() <= MAX_URL_LEN,
    ensures
        resolved(separator, url, segment) == resolved(
            separator,
            UrlView { path: directory_path(url.path), ..url },
            segment,
        ),
{
    if !ends_with_slash(url.path) {
        assert(slashed_url(url) =~= UrlView { path: directory_path(url.path), ..url });
    } else {
        assert(url =~= UrlView { path: directory_path(url.path), ..url });
    }
}

/// A `file:` URL becomes the handle with a slash at the end of its path, unless
/// it is too long. Host, query and fragment stay, and a handle is its own
/// handle.
pub proof fn law_handle_is_the_same_url(url: UrlView)
    requires
        url.scheme == "file"@,
        directory_url(url) is Some,
    ensures
        handle_of_url(url) matches Ok(handle) && {
            &&& handle.scheme == url.scheme && handle.prefix == url.prefix && handle.suffix
                == url.suffix
            &&& is_stable_path(url.path) ==> handle.path == directory_path(url.path)
            &&& ends_with_slash(handle.path) ==> handle_of_url(handle) == Ok::<UrlView, ErrorView>(
                handle,
            )
        },
{
}

/// The text of a local handle with a path that is written as it is parses back
/// to the handle.
pub proof fn law_handle_text_parses_back(path: Seq<char>)
    requires
        is_written_path(path),
        ends_with_slash(path),
    ensures
        handle_of_parsed(parsed_url(path_url(path).href())) == Ok::<UrlView, ErrorView>(
            path_url(path),
        ),
{
    let text = path_url(path).href();
    reveal_strlit("file://");
    assert(text.take(7) =~= "file://"@);
    assert(text.skip(7) =~= path);
}

/// The handle of an absolute path does not depend on the current directory.
pub proof fn law_absolute_path_ignores_current(
    separator: char,
    path: Seq<char>,
    current: Result<Seq<char>, Seq<char>>,
    other: Result<Seq<char>, Seq<char>>,
)
    requires
        is_absolute_path(separator, path),
    ensures
        handle_of_path(separator, path, current) == handle_of_path(separator, path, other),
{
}

/// The handle of a relative path is that of the path below the current
/// directory.
pub proof fn law_relative_path_is_below_current(
    separator: char,
    path: Seq<char>,
    current: Seq<char>,
    other: Result<Seq<char>, Seq<char>>,
)
    requires
        !is_absolute_path(separator, path),
        is_absolute_path(separator, joined_path(separator, current, path)),
    ensures
        handle_of_path(separator, path, Ok(current)) == handle_of_path(
            separator,
            joined_path(separator, current, path),
            other,
        ),
{
}

/// Joining keeps the prefix and the names of a Windows path, and puts the other
/// names behind them.
proof fn lemma_prefixed_join(prefix: Seq<char>, names: Seq<Seq<char>>, more: Seq<Seq<char>>)
    requires
        more.len() > 0,
    ensures
        prefixed_text(prefix, names).push('\\') + relative_text(more) == prefixed_text(
            prefix,
            names + more,
        ),
    decreases more.len(),
{
    let fewer = more.drop_last();
    assert((names + more).drop_last() =~= names + fewer);
    assert((names + more).last() == more.last());
    if more.len() == 1 {
        assert(names + fewer =~= names);
        assert(prefixed_text(prefix, names).push('\\') + more[0] =~= prefixed_text(
            prefix,
            names,
        ) + seq!['\\'] + more.last());
    } else {
        lemma_prefixed_join(prefix, names, fewer);
        assert(prefixed_text(prefix, names).push('\\') + relative_text(more) =~= prefixed_text(
            prefix,
            names,
        ).push('\\') + relative_text(fewer) + seq!['\\'] + more.last());
    }
}

/// A separator is put behind a Windows path with a prefix, unless it is the root
/// there.
pub(crate) proof fn lemma_separator_behind(prefix: Seq<char>, names: Seq<Seq<char>>)
    requires
        are_file_names(names),
    ensures
        with_separator('\\', prefixed_path(prefix, names)) == prefixed_text(prefix, names).push(
            '\\',
        ),
        with_separator('\\', prefixed_text(prefix, names).push('\\')) == prefixed_text(
            prefix,
            names,
        ).push('\\'),
{
    if names.len() > 0 {
        let name = names.last();
        assert(is_file_name(names[names.len() - 1]));
        assert(prefixed_text(prefix, names).last() == name[name.len() - 1]);
    }
}

/// On Unix the handle of a relative path is that of the path below the current
/// directory, whatever the current directory is then. So it is on Windows, for a
/// current directory with a prefix and a path of names that do not start with a
/// drive.
pub proof fn law_adjoined_path_is_below_current(
    separator: char,
    path: Seq<char>,
    current: Seq<char>,
    other: Result<Seq<char>, Seq<char>>,
)
    requires
        is_absolute_path(separator, current),
        !is_absolute_path(separator, path),
        is_adjoined(separator, current, path),
    ensures
        is_absolute_path(separator, joined_path(separator, current, path)),
        handle_of_path(separator, path, Ok(current)) == handle_of_path(
            separator,
            joined_path(separator, current, path),
            other,
        ),
{
    let whole = joined_path(separator, current, path);
    if separator == '/' {
        assert(whole[0] == current[0]);
    } else {
        let (prefix, names) = choose|prefix: Seq<char>, names: Seq<Seq<char>>|
            #[trigger] is_path_of(current, prefix, names);
        let more = choose|more: Seq<Seq<char>>| #[trigger] is_relative_of(path, more);
        lemma_separator_behind(prefix, names);
        lemma_prefixed_join(prefix, names, more);
        assert forall|i: int| 0 <= i < (names + more).len() implies is_file_name(
            #[trigger] (names + more)[i],
        ) by {
            if i < names.len() {
                assert((names + more)[i] == names[i]);
            } else {
                assert((names + more)[i] == more[i - names.len()]);
            }
        }
        assert(is_path_of(whole, prefix, names + more));
    }
}

/// A plain segment behind a normal path of a directory makes a normal path.
proof fn lemma_normal_behind_normal(directory: Seq<char>, segment: Seq<char>)
    requires
        is_normal_path(directory),
        ends_with_slash(directory),
        is_normal_path(seq!['/'] + segment),
    ensures
        is_normal_path(directory + segment),
{
    let path = directory + segment;
    let rooted = seq!['/'] + segment;
    assert(path[0] == '/');
    if path.len() > 1 {
        if directory.len() > 1 {
            assert(path[1] == directory[1]);
        } else {
            assert(path[1] == rooted[1]);
        }
    }
    let n = directory.len() as int;
    assert forall|start: int, end: int| #[trigger] is_segment(path, start, end) implies
        !is_dot_segment(path.subrange(start, end)) by {
        assert(path[n - 1] == directory[n - 1]);
        if start >= n {
            assert(path[start - 1] == rooted[start - n]);
            assert forall|k: int| start - n + 1 <= k < end - n + 1 implies rooted[k] != '/' by {
                assert(rooted[k] == path[k + n - 1]);
            }
            if end < path.len() {
                assert(rooted[end - n + 1] == path[end]);
            }
            assert(is_segment(rooted, start - n + 1, end - n + 1));
            assert(rooted.subrange(start - n + 1, end - n + 1) =~= path.subrange(start, end));
        } else {
            assert(end <= n - 1) by {
                if end >= n {
                    assert(start <= n - 1 < end);
                    assert(path[n - 1] == '/');
                }
            }
            assert(path[start - 1] == directory[start - 1]);
            assert(directory[end] == path[end]);
            assert forall|k: int| start <= k < end implies directory[k] != '/' by {
                assert(directory[k] == path[k]);
            }
            assert(is_segment(directory, start, end));
            assert(directory.subrange(start, end) =~= path.subrange(start, end));
        }
    }
}

/// A slash behind a normal path makes a normal path.
pub(crate) proof fn lemma_normal_directory(path: Seq<char>)
    requires
        is_normal_path(path),
    ensures
        is_normal_path(directory_path(path)),
{
    if !ends_with_slash(path) {
        let directory = path.push('/');
        let n = path.len() as int;
        assert(directory[0] == path[0]);
        assert(directory[1] == (if n > 1 { path[1] } else { '/' }));
        assert(n > 1);
        assert forall|start: int, end: int| #[trigger] is_segment(directory, start, end) implies
            !is_dot_segment(directory.subrange(start, end)) by {
            if start == n + 1 {
                assert(directory.subrange(start, end) =~= Seq::empty());
            } else {
                assert(directory[n] == '/');
                assert(end <= n);
                assert(directory[start - 1] == path[start - 1]);
                if end < n {
                    assert(directory[end] == path[end]);
                }
                assert forall|k: int| start <= k < end implies path[k] != '/' by {
                    assert(directory[k] == path[k]);
                }
                assert(is_segment(path, start, end));
                assert(directory.subrange(start, end) =~= path.subrange(start, end));
            }
        }
    }
}

/// A segment, and a second one in the directory that it names.
pub open spec fn segment_below(a: Seq<char>, b: Seq<char>) -> Seq<char> {
    if a.len() == 0 {
        b
    } else {
        directory_path(a) + b
    }
}

proof fn lemma_plain_below_plain(a: Seq<char>, b: Seq<char>)
    requires
        is_plain_segment(a),
        is_plain_segment(b),
    ensures
        is_plain_segment(segment_below(a, b)),
{
    let rooted = seq!['/'] + a;
    let whole = seq!['/'] + segment_below(a, b);
    lemma_normal_directory(rooted);
    let directory = directory_path(rooted);
    if a.len() == 0 {
        assert(rooted =~= seq!['/']);
    } else {
        assert(rooted.last() == a.last());
        assert(directory =~= seq!['/'] + directory_path(a));
    }
    assert(whole =~= directory + b);
    lemma_normal_behind_normal(directory, b);
    lemma_plain_is_literal(a);
    lemma_plain_is_literal(b);
    assert forall|i: int| 0 <= i < whole.len() implies whole[i] == '/' || is_plain_char(
        #[trigger] whole[i],
    ) by {
        if i < directory.len() {
            assert(whole[i] == directory[i]);
            if 0 < i <= a.len() {
                assert(directory[i] == a[i - 1]);
            }
        } else {
            assert(whole[i] == b[i - directory.len()]);
        }
    }
}

/// Resolving one plain segment after another is resolving both at once: the
/// second lies in the directory that the first one names.
pub proof fn law_segments_nest(separator: char, url: UrlView, a: Seq<char>, b: Seq<char>)
    requires
        url.scheme == "file"@,
        is_normal_path(url.path),
        !has_bar_drive(url.path),
        url.href().len() <= MAX_URL_LEN,
        is_plain_segment(a),
        is_plain_segment(b),
        child_url(url, a).href().len() <= MAX_URL_LEN,
    ensures
        resolved(separator, url, a) == Ok::<UrlView, ErrorView>(child_url(url, a)),
        resolved(separator, child_url(url, a), b) == Ok::<UrlView, ErrorView>(
            child_url(url, segment_below(a, b)),
        ),
        resolved(separator, url, segment_below(a, b)) == Ok::<UrlView, ErrorView>(
            child_url(url, segment_below(a, b)),
        ),
{
    let directory = directory_path(url.path);
    let child = child_url(url, a);
    lemma_normal_directory(url.path);
    lemma_normal_behind_normal(directory, a);
    lemma_plain_is_literal(a);
    assert(!has_bar_drive(child.path)) by {
        if has_bar_drive(child.path) {
            if directory.len() == 1 {
                assert(child.path[2] == a[1]);
                assert(a[1] == '/' || is_plain_char(a[1]));
            } else if directory.len() == 2 {
                assert(child.path[1] == directory[1]);
            } else {
                assert(child.path[1] == directory[1] && child.path[2] == directory[2]);
                if directory.len() == 3 {
                    assert(directory[2] == '/');
                } else {
                    assert(child.path[3] == directory[3]);
                    assert(directory[0] == url.path[0] && directory[1] == url.path[1]
                        && directory[2] == url.path[2]);
                    if url.path.len() > 3 {
                        assert(directory[3] == url.path[3]);
                    }
                }
            }
        }
    }
    lemma_plain_below_plain(a, b);
    law_plain_segments_resolve(separator, url, a);
    law_plain_segments_resolve(separator, child, b);
    law_plain_segments_resolve(separator, url, segment_below(a, b));
    if a.len() == 0 {
        assert(child.path =~= directory);
        assert(child_url(child, b) =~= child_url(url, segment_below(a, b)));
    } else {
        assert(child.path.last() == a.last());
        assert(directory_path(child.path) =~= directory + directory_path(a));
        assert(child_url(child, b).path =~= child_url(url, segment_below(a, b)).path);
        assert(child_url(child, b) =~= child_url(url, segment_below(a, b)));
    }
}

/// A URL with a slash at the end of its path, all else unchanged.
pub open spec fn with_slash(url: UrlView) -> UrlView {
    UrlView { path: directory_path(url.path), ..url }
}

/// Decoding does not reach over a separator.
proof fn lemma_decoded_concat(a: Seq<char>, b: Seq<char>)
    requires
        a.len() == 0 || a.last() == '/' || a.last() == '\\' || b.len() > 0 && (b[0] == '/' || b[0]
            == '\\'),
    ensures
        percent_decoded(a + b) == percent_decoded(a) + percent_decoded(b),
{
    lemma_encode_concat(a, b);
    if a.len() == 0 {
        assert(encode_utf8(a) =~= Seq::empty());
    } else if a.last() == '/' || a.last() == '\\' {
        lemma_encode_ascii(a.last());
        lemma_encode_concat(a.drop_last(), seq![a.last()]);
        assert(a.drop_last() + seq![a.last()] =~= a);
        assert(encode_utf8(a).last() == a.last() as u8);
    } else {
        lemma_encode_ascii(b[0]);
        lemma_encode_concat(seq![b[0]], b.skip(1));
        assert(seq![b[0]] + b.skip(1) =~= b);
        assert(encode_utf8(b)[0] == b[0] as u8);
    }
    lemma_unescaped_concat(encode_utf8(a), encode_utf8(b));
}

/// A separator stands for itself.
proof fn lemma_decoded_separator(c: char)
    requires
        c == '/' || c == '\\',
    ensures
        percent_decoded(seq![c]) == seq![c as u8],
        encode_utf8(seq![c]) == seq![c as u8],
{
    lemma_encode_ascii(c);
    lemma_unescaped_plain(seq![c as u8]);
}

/// Bytes that hold a text, followed by those of another one.
proof fn lemma_text_of_concat(bytes: Seq<u8>, text: Seq<char>, more: Seq<char>)
    requires
        text_of(bytes) == Some(text),
    ensures
        text_of(bytes + encode_utf8(more)) == Some(text + more),
{
    decode_utf8_encode_utf8(bytes);
    lemma_encode_concat(text, more);
    encode_utf8_valid_utf8(text + more);
    encode_utf8_decode_utf8(text + more);
}

/// The URL of a native path in its usual form, with a slash put behind it, is
/// a handle of the path.
pub proof fn law_slash_makes_a_handle(separator: char, url: UrlView, path: Seq<char>)
    requires
        separator == '/' || separator == '\\',
        stands_for(separator, url, path),
    ensures
        is_handle_of(separator, with_slash(url), path),
{
    let handle = with_slash(url);
    let slash = seq![separator];
    lemma_normal_directory(url.path);
    lemma_decoded_separator(separator);
    encode_utf8_valid_utf8(path);
    encode_utf8_decode_utf8(path);
    let bytes = native_bytes(separator, handle);
    if ends_with_slash(url.path) {
        assert(handle =~= url);
        assert(bytes == encode_utf8(path));
    } else {
        lemma_text_of_concat(encode_utf8(path), path, slash);
        assert(path + slash =~= path.push(separator));
        if separator == '/' {
            lemma_decoded_concat(url.path, slash);
            assert(url.path + slash =~= handle.path);
        } else {
            let head = backslashed(url.path.skip(1));
            lemma_decoded_concat(head, slash);
            assert(head + slash =~= backslashed(handle.path.skip(1)));
        }
        assert(bytes == encode_utf8(path) + seq![separator as u8]);
    }
    if separator == '/' {
        assert(!ends_like_drive(bytes)) by {
            lemma_decoded_concat(handle.path.drop_last(), slash);
            assert(handle.path.drop_last() + slash =~= handle.path);
        }
    } else {
        assert(is_on_drive(handle.path) && !is_bare_drive(handle.path));
    }
}

proof fn lemma_trimmed_push(path: Seq<char>)
    requires
        !ends_with_slash(path),
    ensures
        without_trailing_slashes(path) == path,
        without_trailing_slashes(path.push('/')) == path,
{
    assert(path.push('/').drop_last() =~= path);
}

/// On Unix the handle of a path in its usual form gives back the path.
pub proof fn law_native_path_round_trips(url: UrlView, path: Seq<char>)
    requires
        path == seq!['/'] || is_ordinary_path(path),
        is_handle_of('/', url, path),
    ensures
        native_path('/', found_path('/', url)) == Ok::<Seq<char>, ErrorView>(path),
{
    if path == seq!['/'] {
        assert(path.drop_last() =~= Seq::empty());
        reveal_with_fuel(without_trailing_slashes, 2);
    } else {
        lemma_trimmed_push(path);
    }
}

/// What a plain segment resolves to is what it names.
pub proof fn law_plain_child_is_named(url: UrlView, segment: Seq<char>)
    requires
        is_plain_segment(segment),
    ensures
        is_named_child(url, child_url(url, segment), segment),
{
    let directory = directory_path(url.path);
    let path = child_url(url, segment).path;
    lemma_plain_is_literal(segment);
    assert(path.subrange(0, directory.len() as int) =~= directory);
    assert(path.skip(directory.len() as int) =~= segment);
}

/// On Unix what a segment names in a directory has the native path of the
/// directory with the segment behind it, whatever the directory is called.
pub proof fn law_native_layout(
    url: UrlView,
    child: UrlView,
    segment: Seq<char>,
    text: Seq<char>,
)
    requires
        found_path('/', with_slash(url)) == Ok::<Option<Seq<char>>, ()>(Some(text)),
        is_named_child(url, child, segment),
        segment.len() > 0,
        !ends_with_slash(segment),
    ensures
        ends_with_slash(text),
        native_path('/', found_path('/', with_slash(url))) == Ok::<Seq<char>, ErrorView>(
            clean_path(text),
        ),
        native_path('/', found_path('/', child)) == Ok::<Seq<char>, ErrorView>(text + segment),
{
    let directory = directory_path(url.path);
    let tail = child.path.skip(directory.len() as int);
    let bytes = native_bytes('/', with_slash(url));
    lemma_decoded_separator('/');
    lemma_decoded_concat(directory.drop_last(), seq!['/']);
    assert(directory.drop_last() + seq!['/'] =~= directory);
    assert(bytes.last() == 0x2f);
    assert(!ends_like_drive(bytes));
    assert(text_of(bytes) == Some(text));
    assert(ends_with_slash(text)) by {
        lemma_last_of_text(bytes, text);
    }
    assert(child.path =~= directory + tail) by {
        assert(child.path.subrange(0, directory.len() as int) =~= directory);
    }
    lemma_decoded_concat(directory, tail);
    let whole = native_bytes('/', child);
    assert(whole == bytes + encode_utf8(segment));
    lemma_text_of_concat(bytes, text, segment);
    let path = text + segment;
    assert(path.last() == segment.last());
    lemma_trimmed_push(path);
    if ends_like_drive(whole) {
        lemma_text_of_concat(whole, path, seq!['/']);
        assert(whole + seq![0x2fu8] =~= whole.push(0x2f));
        assert(path + seq!['/'] =~= path.push('/'));
    }
}

/// On Unix what a segment names under the root of a space has the native path
/// of the root, a slash unless that is one, and the segment.
pub proof fn law_space_layout(
    root: UrlView,
    path: Seq<char>,
    child: UrlView,
    segment: Seq<char>,
)
    requires
        is_handle_of('/', root, path),
        is_named_child(root, child, segment),
        segment.len() > 0,
        !ends_with_slash(segment),
    ensures
        native_path('/', found_path('/', child)) == Ok::<Seq<char>, ErrorView>(
            with_separator('/', path) + segment,
        ),
{
    assert(with_slash(root) =~= root);
    law_native_layout(root, child, segment, with_separator('/', path));
}

/// A text whose last byte is a slash ends with a slash.
proof fn lemma_last_of_text(bytes: Seq<u8>, text: Seq<char>)
    requires
        text_of(bytes) == Some(text),
        bytes.len() > 0,
        bytes.last() == 0x2f,
    ensures
        ends_with_slash(text),
{
    decode_utf8_encode_utf8(bytes);
    assert(encode_utf8(text) == bytes);
    if text.len() == 0 {
        assert(bytes =~= Seq::empty());
    } else {
        let c = text.last();
        lemma_encode_concat(text.drop_last(), seq![c]);
        assert(text.drop_last() + seq![c] =~= text);
        let tail = encode_utf8(seq![c]);
        lemma_encode_one(c);
        lemma_scalar_bytes(c);
        assert(bytes.last() == tail.last());
    }
}

/// A slash in an encoded text is a slash in what the text stands for.
proof fn lemma_decoded_keeps_slashes(text: Seq<char>, i: int)
    requires
        0 <= i < text.len(),
        text[i] == '/',
    ensures
        percent_decoded(text).contains(0x2f),
{
    let a = text.take(i);
    let b = text.skip(i);
    lemma_decoded_concat(a, b);
    assert(a + b =~= text);
    lemma_decoded_concat(seq!['/'], b.skip(1));
    assert(seq!['/'] + b.skip(1) =~= b);
    lemma_decoded_separator('/');
    assert(percent_decoded(text)[percent_decoded(a).len() as int] == 0x2f);
}

/// The bytes of a text without slashes hold none.
proof fn lemma_bytes_keep_slashes(text: Seq<char>)
    requires
        forall|i: int| 0 <= i < text.len() ==> text[i] != '/',
    ensures
        !encode_utf8(text).contains(0x2f),
    decreases text.len(),
{
    if text.len() == 0 {
        assert(encode_utf8(text) =~= Seq::empty());
    } else {
        let head = text.drop_last();
        let c = text.last();
        assert forall|i: int| 0 <= i < head.len() implies head[i] != '/' by {
            assert(head[i] == text[i]);
        }
        lemma_bytes_keep_slashes(head);
        lemma_encode_concat(head, seq![c]);
        assert(head + seq![c] =~= text);
        lemma_encode_one(c);
        lemma_scalar_bytes(c);
        assert forall|i: int| 0 <= i < encode_utf8(text).len() implies encode_utf8(text)[i]
            != 0x2f by {
            if i < encode_utf8(head).len() {
                assert(encode_utf8(head).contains(encode_utf8(head)[i]));
            } else {
                let k = i - encode_utf8(head).len();
                assert(encode_utf8(text)[i] == encode_scalar(c as u32)[k]);
            }
        }
    }
}

/// On Windows what a name leads to in a local directory has the native path of
/// the directory with the name behind it, and so has the directory there.
pub proof fn law_windows_layout(
    url: UrlView,
    child: UrlView,
    name: Seq<char>,
    prefix: Seq<char>,
    names: Seq<Seq<char>>,
)
    requires
        is_local(url),
        found_path('\\', with_slash(url)) == native_text(prefixed_text(prefix, names).push('\\')),
        is_named_child(url, child, name),
        is_file_name(name),
    ensures
        found_path('\\', child) == native_text(prefixed_text(prefix, names.push(name))),
        found_path('\\', with_slash(child)) == native_text(
            prefixed_text(prefix, names.push(name)).push('\\'),
        ),
{
    let directory = directory_path(url.path);
    let head = backslashed(directory.skip(1));
    let tail = child.path.skip(directory.len() as int);
    let bytes = native_bytes('\\', with_slash(url));
    assert(child.path =~= directory + tail) by {
        assert(child.path.subrange(0, directory.len() as int) =~= directory);
    }
    assert(is_on_drive(directory));
    assert(tail.len() > 0) by {
        if tail.len() == 0 {
            assert(encode_utf8(tail) =~= Seq::empty());
            assert(percent_decoded(tail) =~= Seq::empty());
            lemma_encode_concat(name.drop_last(), seq![name.last()]);
            assert(name.drop_last() + seq![name.last()] =~= name);
            lemma_encode_one(name.last());
            lemma_scalar_bytes(name.last());
        }
    }
    assert forall|i: int| 0 <= i < tail.len() implies tail[i] != '/' by {
        if tail[i] == '/' {
            lemma_decoded_keeps_slashes(tail, i);
            lemma_bytes_keep_slashes(name);
        }
    }
    assert(backslashed(child.path.skip(1)) =~= head + tail);
    assert(head.last() == '\\');
    lemma_decoded_concat(head, tail);
    let text = prefixed_text(prefix, names).push('\\');
    lemma_text_of_concat(bytes, text, name);
    assert(names.push(name).drop_last() =~= names);
    let path = prefixed_text(prefix, names.push(name));
    assert(text + name =~= path);
    lemma_longer_on_drive(directory, child.path);
    let slashed = with_slash(child);
    assert(child.path.last() == tail.last());
    assert(slashed.path == child.path.push('/'));
    lemma_longer_on_drive(directory, slashed.path);
    lemma_decoded_separator('\\');
    lemma_decoded_concat(backslashed(child.path.skip(1)), seq!['\\']);
    assert(backslashed(child.path.skip(1)) + seq!['\\'] =~= backslashed(slashed.path.skip(1)));
    lemma_text_of_concat(native_bytes('\\', child), path, seq!['\\']);
    assert(path + seq!['\\'] =~= path.push('\\'));
}

/// Names with slashes between them.
pub open spec fn slash_text(names: Seq<Seq<char>>) -> Seq<char>
    decreases names.len(),
{
    if names.len() == 0 {
        Seq::empty()
    } else if names.len() == 1 {
        names[0]
    } else {
        slash_text(names.drop_last()) + seq!['/'] + names.last()
    }
}

/// On Windows plain names, with slashes between them, lead in a local directory
/// to the native path of the directory with the names behind it.
pub proof fn law_windows_space_layout(
    url: UrlView,
    more: Seq<Seq<char>>,
    prefix: Seq<char>,
    names: Seq<Seq<char>>,
)
    requires
        is_local(url),
        found_path('\\', with_slash(url)) == native_text(prefixed_text(prefix, names).push('\\')),
        more.len() > 0,
        forall|i: int|
            0 <= i < more.len() ==> is_file_name(#[trigger] more[i]) && is_plain_segment(more[i]),
    ensures
        found_path('\\', child_url(url, slash_text(more))) == native_text(
            prefixed_text(prefix, names + more),
        ),
        found_path('\\', with_slash(child_url(url, slash_text(more)))) == native_text(
            prefixed_text(prefix, names + more).push('\\'),
        ),
    decreases more.len(),
{
    let fewer = more.drop_last();
    let name = more[more.len() - 1];
    let child = child_url(url, slash_text(more));
    assert(is_file_name(name) && is_plain_segment(name));
    if more.len() == 1 {
        law_plain_child_is_named(url, name);
        law_windows_layout(url, child, name, prefix, names);
        assert(names.push(name) =~= names + more);
    } else {
        assert forall|i: int| 0 <= i < fewer.len() implies is_file_name(#[trigger] fewer[i])
            && is_plain_segment(fewer[i]) by {
            assert(fewer[i] == more[i]);
        }
        law_windows_space_layout(url, fewer, prefix, names);
        let before = child_url(url, slash_text(fewer));
        law_plain_child_is_named(before, name);
        law_windows_layout(before, child_url(before, name), name, prefix, names + fewer);
        assert((names + fewer).push(name) =~= names + more);
        lemma_slash_text_ends_with_name(fewer);
        assert(before.path.last() == slash_text(fewer).last());
        assert(child_url(before, name).path =~= child.path);
        assert(child_url(before, name) =~= child);
    }
}

/// On Windows the rendered path of names behind a path is the rendered path, a
/// separator unless it ends with one, and the names, where Windows takes those
/// as they are.
pub proof fn law_windows_rendering_goes_on(
    prefix: Seq<char>,
    names: Seq<Seq<char>>,
    more: Seq<Seq<char>>,
)
    requires
        are_file_names(names),
        more.len() > 0,
        are_legal(more),
    ensures
        prefixed_path(prefix, encoded_names(names + more)) == with_separator(
            '\\',
            prefixed_path(prefix, encoded_names(names)),
        ) + relative_text(more),
{
    law_legal_names_are_kept(more);
    assert(encoded_names(names + more) =~= encoded_names(names) + encoded_names(more));
    lemma_encoded_names(names);
    lemma_separator_behind(prefix, encoded_names(names));
    lemma_prefixed_join(prefix, encoded_names(names), more);
}

proof fn lemma_slash_text_ends_with_name(names: Seq<Seq<char>>)
    requires
        names.len() > 0,
        forall|i: int| 0 <= i < names.len() ==> is_file_name(#[trigger] names[i]),
    ensures
        slash_text(names).len() > 0,
        !ends_with_slash(slash_text(names)),
{
    let name = names[names.len() - 1];
    assert(is_file_name(name));
    assert(name[name.len() - 1] != '/');
    assert(slash_text(names).last() == name[name.len() - 1]);
}

proof fn lemma_longer_on_drive(path: Seq<char>, longer: Seq<char>)
    requires
        is_on_drive(path),
        path.len() < longer.len(),
        forall|i: int| 0 <= i < path.len() ==> #[trigger] longer[i] == path[i],
    ensures
        is_on_drive(longer),
        !is_bare_drive(longer),
{
    assert(longer[0] == path[0] && longer[1] == path[1] && longer[2] == path[2] && longer[3]
        == path[3]);
    if drive_len(path) == 5 {
        assert(longer[4] == path[4] && longer[5] == path[5]);
    }
}

/// Being within a location is transitive: whatever is resolved against a
/// location that was itself resolved against another one stays in the first.
pub proof fn law_within_is_transitive(
    separator: char,
    base: Seq<char>,
    child: Seq<char>,
    grandchild: Seq<char>,
)
    requires
        is_within(separator, base, child),
        is_within(separator, child, grandchild),
    ensures
        is_within(separator, base, grandchild),
{
    let outer = directory_path(base);
    let inner = directory_path(child);
    let first = places(separator, percent_decoded(outer));
    let second = places(separator, percent_decoded(child));
    let third = places(separator, percent_decoded(grandchild));
    assert(child.is_prefix_of(inner)) by {
        assert(inner.subrange(0, child.len() as int) =~= child);
    }
    assert(grandchild.subrange(0, outer.len() as int) =~= outer) by {
        assert forall|i: int| 0 <= i < outer.len() implies grandchild[i] == outer[i] by {
            assert(outer[i] == child.subrange(0, outer.len() as int)[i]);
            assert(child[i] == inner.subrange(0, child.len() as int)[i]);
            assert(inner[i] == grandchild.subrange(0, inner.len() as int)[i]);
        }
    }
    assert(places(separator, percent_decoded(inner)) == second) by {
        if !ends_with_slash(child) {
            lemma_way_of_directory(separator, inner);
            assert(inner.drop_last() =~= child);
        }
    }
    assert(third.subrange(0, first.len() as int) =~= first) by {
        assert forall|i: int| 0 <= i < first.len() implies third[i] == first[i] by {
            assert(first[i] == second.subrange(0, first.len() as int)[i]);
            assert(second[i] == third.subrange(0, second.len() as int)[i]);
        }
    }
}

proof fn lemma_trimmed_has_no_slash(path: Seq<char>)
    ensures
        !ends_with_slash(without_trailing_slashes(path)),
    decreases path.len(),
{
    if ends_with_slash(path) {
        lemma_trimmed_has_no_slash(path.drop_last());
    }
}

/// On Unix a native path never ends with a slash, unless it is the root.
pub proof fn law_native_path_is_clean(found: Result<Option<Seq<char>>, ()>, path: Seq<char>)
    requires
        native_path('/', found) == Ok::<Seq<char>, ErrorView>(path),
    ensures
        ends_with_slash(path) ==> path == seq!['/'],
{
    if let Ok(Some(text)) = found {
        lemma_trimmed_has_no_slash(text);
    }
}

/// Bytes with backslashes in place of their slashes.
spec fn swapped(bytes: Seq<u8>) -> Seq<u8> {
    bytes.map_values(
        |b: u8|
            if b == 0x2f {
                0x5cu8
            } else {
                b
            },
    )
}

proof fn lemma_backslashed_bytes(text: Seq<char>)
    ensures
        encode_utf8(backslashed(text)) == swapped(encode_utf8(text)),
    decreases text.len(),
{
    if text.len() > 0 {
        let rest = text.drop_first();
        lemma_backslashed_bytes(rest);
        assert(backslashed(text).drop_first() =~= backslashed(rest));
        let head = encode_scalar(text[0] as u32);
        if text[0] == '/' {
            lemma_encode_ascii('/');
            lemma_encode_ascii('\\');
            lemma_encode_concat(seq!['/'], rest);
            lemma_encode_concat(seq!['\\'], backslashed(rest));
            assert(seq!['/'] + rest =~= text);
            assert(seq!['\\'] + backslashed(rest) =~= backslashed(text));
        } else {
            lemma_scalar_bytes(text[0]);
            assert(swapped(head) =~= head);
            assert(backslashed(text)[0] == text[0]);
            assert(swapped(head + encode_utf8(rest)) =~= swapped(head) + swapped(
                encode_utf8(rest),
            ));
        }
        assert(encode_utf8(backslashed(text)) =~= swapped(encode_utf8(text)));
    } else {
        assert(encode_utf8(backslashed(text)) =~= swapped(encode_utf8(text)));
    }
}

/// Whether bytes differ in that some slashes are backslashes.
spec fn differ_in_slashes(a: Seq<u8>, b: Seq<u8>) -> bool {
    &&& a.len() == b.len()
    &&& forall|i: int|
        #![trigger a[i]]
        #![trigger b[i]]
        0 <= i < a.len() ==> a[i] == b[i] || a[i] == 0x2f && b[i] == 0x5c
}

proof fn lemma_swapped_unescapes(bytes: Seq<u8>)
    ensures
        differ_in_slashes(unescaped(bytes), unescaped(swapped(bytes))),
    decreases bytes.len(),
{
    if bytes.len() > 0 {
        assert(leading_byte(swapped(bytes)) == leading_byte(bytes));
        match leading_byte(bytes) {
            Some(b) => {
                lemma_swapped_unescapes(bytes.skip(3));
                assert(swapped(bytes).skip(3) =~= swapped(bytes.skip(3)));
            },
            None => {
                lemma_swapped_unescapes(bytes.skip(1));
                assert(swapped(bytes).skip(1) =~= swapped(bytes.skip(1)));
            },
        }
    }
}

proof fn lemma_same_way(a: Seq<u8>, b: Seq<u8>)
    requires
        differ_in_slashes(a, b),
    ensures
        way('\\', a) == way('\\', b),
    decreases a.len(),
{
    if a.len() > 0 {
        assert(differ_in_slashes(a.drop_last(), b.drop_last())) by {
            assert forall|i: int| 0 <= i < a.drop_last().len() implies a.drop_last()[i]
                == b.drop_last()[i] || a.drop_last()[i] == 0x2f && b.drop_last()[i] == 0x5c by {
                assert(a[i] == b[i] || a[i] == 0x2f && b[i] == 0x5c);
            }
        }
        lemma_same_way(a.drop_last(), b.drop_last());
        assert(a.last() == b.last() || a.last() == 0x2f && b.last() == 0x5c);
    }
}

/// A local URL leads natively through the places that its path stands for.
proof fn lemma_native_places(separator: char, url: UrlView)
    requires
        starts_at_root(url.path),
        separator == '\\' ==> is_local(url),
    ensures
        places(separator, native_bytes(separator, url)) == places(
            separator,
            percent_decoded(url.path),
        ),
{
    if separator == '\\' {
        let rest = url.path.skip(1);
        assert(seq!['/'] + rest =~= url.path);
        lemma_decoded_concat(seq!['/'], rest);
        lemma_decoded_separator('/');
        lemma_way_from_root(separator, percent_decoded(rest));
        lemma_backslashed_bytes(rest);
        lemma_swapped_unescapes(encode_utf8(rest));
        lemma_same_way(percent_decoded(rest), percent_decoded(backslashed(rest)));
    }
}

/// The native path of what lies within a location leads through the places of
/// the location's directory, with `.` and `..` resolved in both.
pub proof fn law_within_is_native(separator: char, base: UrlView, url: UrlView)
    requires
        starts_at_root(base.path),
        is_within(separator, base.path, url.path),
        separator == '\\' ==> is_local(base) && is_local(url),
    ensures
        places(separator, native_bytes(separator, with_slash(base))).is_prefix_of(
            places(separator, native_bytes(separator, url)),
        ),
{
    let directory = directory_path(base.path);
    assert(directory[0] == '/');
    assert(url.path.subrange(0, directory.len() as int)[0] == url.path[0]);
    lemma_native_places(separator, with_slash(base));
    lemma_native_places(separator, url);
}

} // verus!
