//! Escaping of the characters that Windows forbids in a file name.
//!
//! Names such as DIDs (`did:key:z6Mk...`) are used directly as file and
//! directory names. Windows forbids `< > : " \ | ? *` and control characters
//! there, so each of them is written as `%XX`. The percent sign is escaped too,
//! which keeps decoding unambiguous.

use vstd::prelude::*;

use crate::text::chars_of;

verus! {

/// Whether a character is escaped in a Windows file name: one that Windows
/// forbids, a control character, or the percent sign that starts an escape.
pub open spec fn is_reserved(c: char) -> bool {
    ||| c == '<'
    ||| c == '>'
    ||| c == ':'
    ||| c == '"'
    ||| c == '\\'
    ||| c == '|'
    ||| c == '?'
    ||| c == '*'
    ||| c == '%'
    ||| (c as u32) < 0x20
}

/// The upper-case hexadecimal digit of a value below sixteen.
pub open spec fn hex_digit(value: int) -> char {
    if value < 10 {
        ('0' as int + value) as char
    } else {
        ('A' as int + (value - 10)) as char
    }
}

/// What one character becomes in an encoded name.
pub open spec fn escaped(c: char) -> Seq<char> {
    if is_reserved(c) {
        seq!['%', hex_digit(c as int / 16), hex_digit(c as int % 16)]
    } else {
        seq![c]
    }
}

/// The encoded form of a name: its characters escaped one by one.
pub open spec fn encoded(name: Seq<char>) -> Seq<char>
    decreases name.len(),
{
    if name.len() == 0 {
        Seq::empty()
    } else {
        escaped(name[0]) + encoded(name.skip(1))
    }
}

/// The value of a hexadecimal digit of either case.
pub open spec fn digit_value(c: char) -> Option<int> {
    if '0' <= c <= '9' {
        Some(c as int - '0' as int)
    } else if 'A' <= c <= 'F' {
        Some(c as int - 'A' as int + 10)
    } else if 'a' <= c <= 'f' {
        Some(c as int - 'a' as int + 10)
    } else {
        None
    }
}

/// The number that the two characters after a percent sign write in base
/// sixteen, where a plus sign may stand in place of the first digit.
pub open spec fn escape_value(high: char, low: char) -> Option<int> {
    match (digit_value(high), digit_value(low)) {
        (Some(h), Some(l)) => Some(16 * h + l),
        (None, Some(l)) => if high == '+' {
            Some(l)
        } else {
            None
        },
        _ => None,
    }
}

/// The escape that a name starts with, if it starts with one.
pub open spec fn leading_escape(name: Seq<char>) -> Option<int> {
    if name.len() > 2 && name[0] == '%' {
        escape_value(name[1], name[2])
    } else {
        None
    }
}

/// The decoded form of a name: each escape gives the character it numbers,
/// every other character stands for itself.
pub open spec fn decoded(name: Seq<char>) -> Seq<char>
    decreases name.len(),
{
    if name.len() == 0 {
        Seq::empty()
    } else {
        match leading_escape(name) {
            Some(value) => seq![value as char] + decoded(name.skip(3)),
            None => seq![name[0]] + decoded(name.skip(1)),
        }
    }
}

fn reserved(c: char) -> (r: bool)
    ensures
        r == is_reserved(c),
{
    c == '<' || c == '>' || c == ':' || c == '"' || c == '\\' || c == '|' || c == '?' || c == '*'
        || c == '%' || (c as u32) < 0x20
}

fn digit_of(value: u8) -> (r: char)
    requires
        value < 16,
    ensures
        r == hex_digit(value as int),
{
    if value < 10 {
        (0x30 + value) as char
    } else {
        (0x41 + (value - 10)) as char
    }
}

fn value_of(c: char) -> (r: Option<u8>)
    ensures
        match r {
            Some(v) => digit_value(c) == Some(v as int) && v < 16,
            None => digit_value(c) is None,
        },
{
    if '0' <= c && c <= '9' {
        Some((c as u32 - '0' as u32) as u8)
    } else if 'A' <= c && c <= 'F' {
        Some((c as u32 - 'A' as u32 + 10) as u8)
    } else if 'a' <= c && c <= 'f' {
        Some((c as u32 - 'a' as u32 + 10) as u8)
    } else {
        None
    }
}

fn escape_of(high: char, low: char) -> (r: Option<u8>)
    ensures
        match r {
            Some(v) => escape_value(high, low) == Some(v as int),
            None => escape_value(high, low) is None,
        },
{
    match (value_of(high), value_of(low)) {
        (Some(h), Some(l)) => Some(16 * h + l),
        (None, Some(l)) => if high == '+' {
            Some(l)
        } else {
            None
        },
        _ => None,
    }
}

/// Percent-encode the characters that are illegal in a Windows path component.
///
/// The mapping is reversible, so distinct names never collide: see
/// [`decode_reserved`].
pub fn encode_reserved(component: &str) -> (r: String)
    ensures
        r@ == encoded(component@),
{
    let chars = chars_of(component);
    let mut out = String::new();
    let mut i: usize = 0;
    assert(component@.skip(0) =~= component@);
    while i < chars.len()
        invariant
            chars@ == component@,
            i <= chars.len(),
            out@ + encoded(component@.skip(i as int)) == encoded(component@),
        decreases chars.len() - i,
    {
        let c = chars[i];
        let ghost before = out@;
        if reserved(c) {
            proof {
                lemma_escaped_digits(c);
            }
            let code: u8 = (c as u32) as u8;
            out.push('%');
            out.push(digit_of(code / 16));
            out.push(digit_of(code % 16));
        } else {
            out.push(c);
        }
        i = i + 1;
        proof {
            assert(component@.skip(i - 1).skip(1) =~= component@.skip(i as int));
            assert(out@ =~= before + escaped(c));
            assert(out@ + encoded(component@.skip(i as int)) =~= before + (escaped(c) + encoded(
                component@.skip(i as int),
            )));
        }
    }
    assert(out@ + encoded(component@.skip(i as int)) =~= out@);
    out
}

/// Inverse of [`encode_reserved`].
///
/// A percent sign that starts no escape, and any other character, stands for
/// itself.
pub fn decode_reserved(name: &str) -> (r: String)
    ensures
        r@ == decoded(name@),
{
    let chars = chars_of(name);
    let mut out = String::new();
    let mut i: usize = 0;
    assert(name@.skip(0) =~= name@);
    while i < chars.len()
        invariant
            chars@ == name@,
            i <= chars.len(),
            out@ + decoded(name@.skip(i as int)) == decoded(name@),
        decreases chars.len() - i,
    {
        let ghost before = out@;
        let ghost rest = name@.skip(i as int);
        let escape = if chars[i] == '%' && chars.len() - i > 2 {
            escape_of(chars[i + 1], chars[i + 2])
        } else {
            None
        };
        match escape {
            Some(value) => {
                out.push(value as char);
                i = i + 3;
                proof {
                    assert(rest.skip(3) =~= name@.skip(i as int));
                    assert(out@ + decoded(rest.skip(3)) =~= before + (seq![value as char] + decoded(
                        rest.skip(3),
                    )));
                }
            },
            None => {
                out.push(chars[i]);
                i = i + 1;
                proof {
                    assert(rest.skip(1) =~= name@.skip(i as int));
                    assert(out@ + decoded(rest.skip(1)) =~= before + (seq![rest[0]] + decoded(
                        rest.skip(1),
                    )));
                }
            },
        }
    }
    assert(out@ + decoded(name@.skip(i as int)) =~= out@);
    out
}

/// A reserved character is an ASCII character, and its two hexadecimal digits
/// write its number.
pub(crate) proof fn lemma_escaped_digits(c: char)
    requires
        is_reserved(c),
    ensures
        0 <= (c as int) < 0x80,
        digit_value(hex_digit(c as int / 16)) == Some(c as int / 16),
        digit_value(hex_digit(c as int % 16)) == Some(c as int % 16),
        !is_reserved(hex_digit(c as int / 16)),
        !is_reserved(hex_digit(c as int % 16)),
{
    assert(0 <= (c as int) < 0x80);
    lemma_digit(c as int / 16);
    lemma_digit(c as int % 16);
}

proof fn lemma_digit(value: int)
    requires
        0 <= value < 16,
    ensures
        digit_value(hex_digit(value)) == Some(value),
        !is_reserved(hex_digit(value)),
{
}

/// Decoding an encoded name gives back the name.
pub proof fn law_decode_inverts_encode(name: Seq<char>)
    ensures
        decoded(encoded(name)) == name,
    decreases name.len(),
{
    if name.len() > 0 {
        let rest = name.skip(1);
        let tail = encoded(rest);
        let whole = escaped(name[0]) + tail;
        law_decode_inverts_encode(rest);
        if is_reserved(name[0]) {
            lemma_escaped_digits(name[0]);
            assert(whole.skip(3) =~= tail);
            assert(leading_escape(whole) == Some(name[0] as int));
        } else {
            assert(whole.skip(1) =~= tail);
            assert(leading_escape(whole) is None);
        }
        assert(seq![name[0]] + rest =~= name);
    } else {
        assert(decoded(encoded(name)) =~= name);
    }
}

/// Distinct names have distinct encoded forms.
pub proof fn law_encode_is_injective(a: Seq<char>, b: Seq<char>)
    requires
        encoded(a) == encoded(b),
    ensures
        a == b,
{
    law_decode_inverts_encode(a);
    law_decode_inverts_encode(b);
}

/// An encoded name holds no reserved character other than the percent signs of
/// its escapes.
pub proof fn law_encoded_is_legal(name: Seq<char>)
    ensures
        forall|i: int|
            0 <= i < encoded(name).len() && is_reserved(#[trigger] encoded(name)[i]) ==> encoded(
                name,
            )[i] == '%',
    decreases name.len(),
{
    if name.len() > 0 {
        let head = escaped(name[0]);
        let tail = encoded(name.skip(1));
        law_encoded_is_legal(name.skip(1));
        if is_reserved(name[0]) {
            lemma_escaped_digits(name[0]);
        }
        assert forall|i: int|
            0 <= i < encoded(name).len() && is_reserved(#[trigger] encoded(name)[i]) implies encoded(
            name,
        )[i] == '%' by {
            if i < head.len() {
                assert(encoded(name)[i] == head[i]);
            } else {
                assert(encoded(name)[i] == tail[i - head.len()]);
            }
        }
    }
}

/// A name without reserved characters is its own encoded form.
pub proof fn law_encode_keeps_legal_names(name: Seq<char>)
    requires
        forall|i: int| 0 <= i < name.len() ==> !is_reserved(#[trigger] name[i]),
    ensures
        encoded(name) == name,
    decreases name.len(),
{
    if name.len() > 0 {
        law_encode_keeps_legal_names(name.skip(1));
        assert(seq![name[0]] + name.skip(1) =~= name);
    } else {
        assert(encoded(name) =~= name);
    }
}

} // verus!
