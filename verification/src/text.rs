//! Small operations on strings, stated over their characters.

use vstd::prelude::*;

verus! {

/// `String::push` appends its character at the end of the string.
pub assume_specification[ String::push ](s: &mut String, c: char)
    ensures
        final(s)@ == old(s)@.push(c),
;

/// Whether a text ends with a slash.
pub open spec fn ends_with_slash(s: Seq<char>) -> bool {
    s.len() > 0 && s.last() == '/'
}

/// A text without the slashes at its end.
pub open spec fn without_trailing_slashes(s: Seq<char>) -> Seq<char>
    decreases s.len(),
{
    if ends_with_slash(s) {
        without_trailing_slashes(s.drop_last())
    } else {
        s
    }
}

/// The models of a list of strings.
pub open spec fn name_views(names: Seq<String>) -> Seq<Seq<char>> {
    names.map_values(|name: String| name@)
}

/// The characters of a string, in order.
pub(crate) fn chars_of(s: &str) -> (r: Vec<char>)
    ensures
        r@ == s@,
{
    let mut out: Vec<char> = Vec::new();
    for c in iter: s.chars()
        invariant
            iter.seq() == s@,
            out@ == s@.take(iter.index()),
    {
        out.push(c);
        assert(s@.take(iter.index() + 1) =~= s@.take(iter.index()).push(c));
    }
    assert(s@.take(s@.len() as int) =~= s@);
    out
}

/// The string of the first `count` characters.
pub(crate) fn string_of(chars: &Vec<char>, count: usize) -> (r: String)
    requires
        count <= chars@.len(),
    ensures
        r@ == chars@.take(count as int),
{
    let mut out = String::new();
    let mut i: usize = 0;
    while i < count
        invariant
            i <= count <= chars@.len(),
            out@ == chars@.take(i as int),
        decreases count - i,
    {
        out.push(chars[i]);
        i = i + 1;
        assert(chars@.take(i as int) =~= chars@.take(i - 1).push(chars@[i - 1]));
    }
    out
}

/// Whether a string ends with a slash.
pub(crate) fn is_slash_terminated(s: &str) -> (r: bool)
    ensures
        r == ends_with_slash(s@),
{
    let chars = chars_of(s);
    chars.len() > 0 && chars[chars.len() - 1] == '/'
}

/// Whether a string starts with another one.
pub(crate) fn starts_with(s: &str, prefix: &str) -> (r: bool)
    ensures
        r == prefix@.is_prefix_of(s@),
{
    let whole = chars_of(s);
    let head = chars_of(prefix);
    if head.len() > whole.len() {
        return false;
    }
    let mut i: usize = 0;
    while i < head.len()
        invariant
            whole@ == s@,
            head@ == prefix@,
            i <= head.len() <= whole.len(),
            head@.take(i as int) == whole@.take(i as int),
        decreases head.len() - i,
    {
        if head[i] != whole[i] {
            assert(head@[i as int] != whole@.subrange(0, head@.len() as int)[i as int]);
            return false;
        }
        i = i + 1;
        assert(head@.take(i as int) =~= head@.take(i - 1).push(head@[i - 1]));
        assert(whole@.take(i as int) =~= whole@.take(i - 1).push(whole@[i - 1]));
    }
    assert(head@.take(i as int) =~= head@);
    true
}

/// A string without the slashes at its end.
pub(crate) fn trim_trailing_slashes(s: &str) -> (r: String)
    ensures
        r@ == without_trailing_slashes(s@),
{
    let chars = chars_of(s);
    let mut count: usize = chars.len();
    assert(chars@.take(count as int) =~= s@);
    while count > 0 && chars[count - 1] == '/'
        invariant
            chars@ == s@,
            count <= chars@.len(),
            without_trailing_slashes(s@) == without_trailing_slashes(chars@.take(count as int)),
        decreases count,
    {
        assert(chars@.take(count as int).drop_last() =~= chars@.take(count - 1));
        count = count - 1;
    }
    string_of(&chars, count)
}

/// Two strings, one behind the other.
pub(crate) fn concat(a: &str, b: &str) -> (r: String)
    ensures
        r@ == a@ + b@,
{
    let mut out = String::from_str(a);
    out.append(b);
    out
}

} // verus!
