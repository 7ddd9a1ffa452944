//! Percent-encoded text, and the names that its bytes hold.

use vstd::prelude::*;
use vstd::utf8::*;

use crate::target::Target;

verus! {

/// The value of a byte that is a hexadecimal digit of either case.
pub open spec fn hex_value(b: u8) -> Option<int> {
    if 0x30 <= b <= 0x39 {
        Some(b - 0x30)
    } else if 0x41 <= b <= 0x46 {
        Some(b - 0x37)
    } else if 0x61 <= b <= 0x66 {
        Some(b - 0x57)
    } else {
        None
    }
}

/// The escape that bytes start with: a percent sign and two digits.
pub open spec fn leading_byte(bytes: Seq<u8>) -> Option<u8> {
    if bytes.len() > 2 && bytes[0] == 0x25 {
        match (hex_value(bytes[1]), hex_value(bytes[2])) {
            (Some(high), Some(low)) => Some((16 * high + low) as u8),
            _ => None,
        }
    } else {
        None
    }
}

/// Bytes with every escape replaced by the byte that it numbers.
pub open spec fn unescaped(bytes: Seq<u8>) -> Seq<u8>
    decreases bytes.len(),
{
    if bytes.len() == 0 {
        Seq::empty()
    } else {
        match leading_byte(bytes) {
            Some(b) => seq![b] + unescaped(bytes.skip(3)),
            None => seq![bytes[0]] + unescaped(bytes.skip(1)),
        }
    }
}

/// The bytes that a percent-encoded text stands for.
pub open spec fn percent_decoded(text: Seq<char>) -> Seq<u8> {
    unescaped(encode_utf8(text))
}

/// Whether a byte separates the names in a native path.
pub open spec fn is_break(separator: char, b: u8) -> bool {
    b == 0x2f || separator == '\\' && b == 0x5c
}

/// Whether some names are a Windows drive and nothing else.
pub open spec fn is_drive_place(separator: char, places: Seq<Seq<u8>>) -> bool {
    &&& separator == '\\' && places.len() == 1 && places[0].len() == 2
    &&& 0x41 <= places[0][0] <= 0x5a || 0x61 <= places[0][0] <= 0x7a
    &&& places[0][1] == 0x3a
}

/// Where a name leads from a place. Nothing and `.` lead nowhere, `..` leads out
/// of a directory, but not out of the root.
pub open spec fn entered(separator: char, places: Seq<Seq<u8>>, name: Seq<u8>) -> Seq<Seq<u8>> {
    if name.len() == 0 || name == seq![0x2eu8] {
        places
    } else if name == seq![0x2eu8, 0x2eu8] {
        if places.len() == 0 || is_drive_place(separator, places) {
            places
        } else {
            places.drop_last()
        }
    } else {
        places.push(name)
    }
}

/// The place behind the last separator of a native path, and the name that
/// follows that separator.
pub open spec fn way(separator: char, bytes: Seq<u8>) -> (Seq<Seq<u8>>, Seq<u8>)
    decreases bytes.len(),
{
    if bytes.len() == 0 {
        (Seq::empty(), Seq::empty())
    } else {
        let (places, name) = way(separator, bytes.drop_last());
        if is_break(separator, bytes.last()) {
            (entered(separator, places, name), Seq::empty())
        } else {
            (places, name.push(bytes.last()))
        }
    }
}

/// The names that a native path leads through, with `.` and `..` resolved.
pub open spec fn places(separator: char, bytes: Seq<u8>) -> Seq<Seq<u8>> {
    entered(separator, way(separator, bytes).0, way(separator, bytes).1)
}

fn hex_of(b: u8) -> (r: Option<u8>)
    ensures
        match r {
            Some(value) => value < 16 && hex_value(b) == Some(value as int),
            None => hex_value(b) is None,
        },
{
    if 0x30 <= b && b <= 0x39 {
        Some(b - 0x30)
    } else if 0x41 <= b && b <= 0x46 {
        Some(b - 0x37)
    } else if 0x61 <= b && b <= 0x66 {
        Some(b - 0x57)
    } else {
        None
    }
}

/// The bytes that a percent-encoded text stands for.
pub fn percent_decode(text: &str) -> (r: Vec<u8>)
    ensures
        r@ == percent_decoded(text@),
{
    let bytes = text.as_bytes();
    let mut out: Vec<u8> = Vec::new();
    let mut i: usize = 0;
    assert(bytes@.skip(0) =~= bytes@);
    while i < bytes.len()
        invariant
            i <= bytes@.len(),
            bytes@ == encode_utf8(text@),
            percent_decoded(text@) == out@ + unescaped(bytes@.skip(i as int)),
        decreases bytes@.len() - i,
    {
        let ghost rest = bytes@.skip(i as int);
        let ghost before = out@;
        let mut escape: Option<u8> = None;
        if bytes.len() - i > 2 && bytes[i] == 0x25 {
            match (hex_of(bytes[i + 1]), hex_of(bytes[i + 2])) {
                (Some(high), Some(low)) => {
                    escape = Some(16 * high + low);
                },
                _ => {},
            }
        }
        assert(escape == leading_byte(rest));
        match escape {
            Some(b) => {
                out.push(b);
                i = i + 3;
                assert(bytes@.skip(i as int) =~= rest.skip(3));
            },
            None => {
                out.push(bytes[i]);
                i = i + 1;
                assert(bytes@.skip(i as int) =~= rest.skip(1));
            },
        }
        assert(before + unescaped(rest) =~= out@ + unescaped(bytes@.skip(i as int)));
    }
    assert(out@ + unescaped(bytes@.skip(i as int)) =~= out@);
    out
}

/// The models of some names.
pub open spec fn byte_views(names: Seq<Vec<u8>>) -> Seq<Seq<u8>> {
    names.map_values(|name: Vec<u8>| name@)
}

/// Goes from a place where a name leads.
fn enter(target: &Target, stack: &mut Vec<Vec<u8>>, name: Vec<u8>)
    ensures
        byte_views(final(stack)@) == entered(target@, byte_views(old(stack)@), name@),
{
    let ghost before = byte_views(stack@);
    if name.len() == 0 || (name.len() == 1 && name[0] == 0x2e) {
        proof {
            if name@.len() == 1 {
                assert(name@ =~= seq![0x2eu8]);
            }
        }
    } else if name.len() == 2 && name[0] == 0x2e && name[1] == 0x2e {
        assert(name@ =~= seq![0x2eu8, 0x2eu8]);
        let stays = stack.len() == 0 || (target.is_windows() && stack.len() == 1 && is_drive_name(
            &stack[0],
        ));
        assert(stays == (before.len() == 0 || is_drive_place(target@, before)));
        if !stays {
            stack.pop();
            assert(byte_views(stack@) =~= before.drop_last());
        }
    } else {
        let ghost view = name@;
        stack.push(name);
        assert(byte_views(stack@) =~= before.push(view));
    }
}

fn is_drive_name(name: &Vec<u8>) -> (r: bool)
    ensures
        r == (name@.len() == 2 && (0x41 <= name@[0] <= 0x5a || 0x61 <= name@[0] <= 0x7a) && name@[1]
            == 0x3a),
{
    name.len() == 2 && name[1] == 0x3a && ((0x41 <= name[0] && name[0] <= 0x5a) || (0x61 <= name[0]
        && name[0] <= 0x7a))
}

/// The names that a native path leads through, with `.` and `..` resolved.
pub(crate) fn places_of(target: &Target, bytes: &Vec<u8>) -> (r: Vec<Vec<u8>>)
    ensures
        byte_views(r@) == places(target@, bytes@),
{
    let windows = target.is_windows();
    let mut stack: Vec<Vec<u8>> = Vec::new();
    let mut name: Vec<u8> = Vec::new();
    let mut i: usize = 0;
    assert(byte_views(stack@) =~= Seq::empty());
    while i < bytes.len()
        invariant
            i <= bytes@.len(),
            windows == (target@ == '\\'),
            way(target@, bytes@.take(i as int)) == (byte_views(stack@), name@),
        decreases bytes@.len() - i,
    {
        let b = bytes[i];
        assert(bytes@.take(i + 1).drop_last() =~= bytes@.take(i as int));
        if b == 0x2f || (windows && b == 0x5c) {
            enter(target, &mut stack, name);
            name = Vec::new();
        } else {
            name.push(b);
        }
        i = i + 1;
    }
    assert(bytes@.take(i as int) =~= bytes@);
    enter(target, &mut stack, name);
    stack
}

fn same_bytes(a: &Vec<u8>, b: &Vec<u8>) -> (r: bool)
    ensures
        r == (a@ == b@),
{
    if a.len() != b.len() {
        return false;
    }
    let mut i: usize = 0;
    while i < a.len()
        invariant
            a.len() == b.len(),
            i <= a.len(),
            forall|k: int| 0 <= k < i ==> a@[k] == b@[k],
        decreases a.len() - i,
    {
        if a[i] != b[i] {
            return false;
        }
        i = i + 1;
    }
    assert(a@ =~= b@);
    true
}

/// Whether some names start with others.
pub(crate) fn leads_on(whole: &Vec<Vec<u8>>, head: &Vec<Vec<u8>>) -> (r: bool)
    ensures
        r == byte_views(head@).is_prefix_of(byte_views(whole@)),
{
    let ghost first = byte_views(head@);
    let ghost all = byte_views(whole@);
    if head.len() > whole.len() {
        return false;
    }
    let mut i: usize = 0;
    while i < head.len()
        invariant
            first == byte_views(head@),
            all == byte_views(whole@),
            i <= head.len() <= whole.len(),
            forall|k: int| 0 <= k < i ==> first[k] == all[k],
        decreases head.len() - i,
    {
        if !same_bytes(&head[i], &whole[i]) {
            assert(first[i as int] != all.subrange(0, first.len() as int)[i as int]);
            return false;
        }
        i = i + 1;
    }
    assert(first =~= all.subrange(0, first.len() as int));
    true
}

/// Encoding goes character by character.
pub(crate) proof fn lemma_encode_concat(a: Seq<char>, b: Seq<char>)
    ensures
        encode_utf8(a + b) == encode_utf8(a) + encode_utf8(b),
    decreases a.len(),
{
    if a.len() == 0 {
        assert(a + b =~= b);
        assert(encode_utf8(a) + encode_utf8(b) =~= encode_utf8(b));
    } else {
        lemma_encode_concat(a.drop_first(), b);
        assert((a + b).drop_first() =~= a.drop_first() + b);
        assert(encode_utf8(a + b) =~= encode_utf8(a) + encode_utf8(b));
    }
}

/// An ASCII character takes one byte.
pub(crate) proof fn lemma_encode_ascii(c: char)
    requires
        c <= '\u{7f}',
    ensures
        encode_utf8(seq![c]) == seq![c as u8],
{
    assert(is_ascii_chars(seq![c]));
    is_ascii_chars_encode_utf8(seq![c]);
    assert(seq![c][0] == c);
    assert(encode_utf8(seq![c]) =~= seq![c as u8]);
}

/// Escapes do not reach over a byte that is no digit.
pub(crate) proof fn lemma_unescaped_concat(a: Seq<u8>, b: Seq<u8>)
    requires
        a.len() == 0 || a.last() == 0x2f || a.last() == 0x5c || b.len() == 0 || hex_value(
            b[0],
        ) is None,
    ensures
        unescaped(a + b) == unescaped(a) + unescaped(b),
    decreases a.len(),
{
    if a.len() == 0 {
        assert(a + b =~= b);
        assert(unescaped(a) + unescaped(b) =~= unescaped(b));
    } else if b.len() == 0 {
        assert(a + b =~= a);
        assert(unescaped(a) + unescaped(b) =~= unescaped(a));
    } else {
        match leading_byte(a) {
            Some(byte) => {
                assert(leading_byte(a + b) == Some(byte));
                lemma_unescaped_concat(a.skip(3), b);
                assert((a + b).skip(3) =~= a.skip(3) + b);
            },
            None => {
                if a.len() <= 2 {
                    assert(a.len() == 1 ==> a[0] == a.last());
                    assert(a.len() == 2 ==> a[1] == a.last());
                    if a.len() == 1 {
                        assert((a + b)[1] == b[0]);
                    } else {
                        assert((a + b)[2] == b[0]);
                    }
                }
                assert(leading_byte(a + b) is None);
                lemma_unescaped_concat(a.skip(1), b);
                assert((a + b).skip(1) =~= a.skip(1) + b);
            },
        }
        assert(unescaped(a + b) =~= unescaped(a) + unescaped(b));
    }
}

/// Bytes without a percent sign stand for themselves.
pub(crate) proof fn lemma_unescaped_plain(bytes: Seq<u8>)
    requires
        forall|i: int| 0 <= i < bytes.len() ==> bytes[i] != 0x25,
    ensures
        unescaped(bytes) == bytes,
    decreases bytes.len(),
{
    if bytes.len() > 0 {
        lemma_unescaped_plain(bytes.skip(1));
        assert(unescaped(bytes) =~= bytes);
    }
}

/// A separator at the end leads nowhere.
pub(crate) proof fn lemma_places_of_directory(separator: char, bytes: Seq<u8>)
    ensures
        places(separator, bytes.push(0x2f)) == places(separator, bytes),
        way(separator, bytes.push(0x2f)) == (places(separator, bytes), Seq::<u8>::empty()),
{
    assert(bytes.push(0x2f).drop_last() =~= bytes);
}

/// A separator at the start leads nowhere.
pub(crate) proof fn lemma_way_from_root(separator: char, bytes: Seq<u8>)
    ensures
        way(separator, seq![0x2fu8] + bytes) == way(separator, bytes),
    decreases bytes.len(),
{
    let whole = seq![0x2fu8] + bytes;
    if bytes.len() == 0 {
        assert(whole.drop_last() =~= Seq::empty());
        assert(way(separator, whole.drop_last()) == (Seq::<Seq<u8>>::empty(), Seq::<u8>::empty()));
    } else {
        assert(whole.drop_last() =~= seq![0x2fu8] + bytes.drop_last());
        lemma_way_from_root(separator, bytes.drop_last());
    }
}

} // verus!
