//! Rendering of native paths on Windows.

use vstd::prelude::*;

use crate::reserved::{
    decoded, encode_reserved, encoded, escaped, is_reserved, law_decode_inverts_encode,
    law_encode_keeps_legal_names, law_encoded_is_legal, lemma_escaped_digits,
};
use crate::target::{
    are_file_names, collect, component_views, components, has_colon, is_file_name, is_path_of,
    is_relative_of, name_components, path_components, path_of_components, prefixed_components,
    prefixed_path, relative_text, ComponentView, PathComponent, Target,
};

verus! {

/// A component in a Windows path: a name is encoded, a prefix, the root, `.`
/// and `..` stay as they are.
pub open spec fn encoded_component(component: ComponentView) -> ComponentView {
    match component {
        ComponentView::Normal(name) => ComponentView::Normal(encoded(name)),
        ComponentView::Other(text) => ComponentView::Other(text),
    }
}

/// A native path rendered for Windows: rebuilt from its components, with every
/// name encoded.
pub open spec fn windows_path(separator: char, path: Seq<char>) -> Seq<char> {
    path_of_components(
        separator,
        path_components(separator, path).map_values(|c: ComponentView| encoded_component(c)),
    )
}

/// Percent-encode reserved characters in every name among the components.
///
/// The colon of a drive letter is part of a prefix and is never touched.
pub fn encode_components(parts: &Vec<PathComponent>) -> (r: Vec<PathComponent>)
    ensures
        component_views(r@) == component_views(parts@).map_values(
            |c: ComponentView| encoded_component(c),
        ),
{
    let mut out: Vec<PathComponent> = Vec::new();
    let mut i: usize = 0;
    while i < parts.len()
        invariant
            i <= parts.len(),
            out.len() == i,
            forall|k: int| 0 <= k < i ==> (#[trigger] out@[k])@ == encoded_component(parts@[k]@),
        decreases parts.len() - i,
    {
        let component = match &parts[i] {
            PathComponent::Normal(name) => PathComponent::Normal(encode_reserved(name.as_str())),
            PathComponent::Other(text) => PathComponent::Other(text.clone()),
        };
        out.push(component);
        i = i + 1;
    }
    assert(component_views(out@) =~= component_views(parts@).map_values(
        |c: ComponentView| encoded_component(c),
    ));
    out
}

/// Names, each in its encoded form.
pub open spec fn encoded_names(names: Seq<Seq<char>>) -> Seq<Seq<char>> {
    names.map_values(|name: Seq<char>| encoded(name))
}

/// Render a native path, percent-encoding reserved characters in every name.
///
/// Rebuilding the path from its components also drops a trailing separator: a
/// path whose last component is a name ends with that name. A path with a prefix
/// and the root, with or without such a separator, keeps them and has its names
/// encoded; so has a relative path, unless it might start with a drive.
pub fn encode_windows_path(target: &Target, path: &str) -> (r: String)
    ensures
        r@ == windows_path(target@, path@),
        path_components(target@, path@).len() > 0 ==> match path_components(target@, path@).last() {
            ComponentView::Normal(name) => is_file_name(name) ==> encoded(name).is_suffix_of(r@)
                && r@.last() != '/' && r@.last() != '\\',
            ComponentView::Other(_) => true,
        },
        forall|prefix: Seq<char>, names: Seq<Seq<char>>|
            target@ == '\\' && #[trigger] is_path_of(path@, prefix, names) ==> r@ == prefixed_path(
                prefix,
                encoded_names(names),
            ),
        forall|names: Seq<Seq<char>>|
            target@ == '\\' && #[trigger] is_relative_of(path@, names) ==> r@ == relative_text(
                encoded_names(names),
            ),
{
    let parts = components(target, path);
    let rendered = encode_components(&parts);
    let r = collect(target, &rendered);
    proof {
        let found = path_components(target@, path@);
        if found.len() > 0 {
            assert(component_views(rendered@).last() == rendered@.last()@);
            if let ComponentView::Normal(name) = found.last() {
                if is_file_name(name) {
                    lemma_encoded_file_name(name);
                    assert(rendered@.last()@ == ComponentView::Normal(encoded(name)));
                    assert(encoded(name).is_suffix_of(r@));
                    assert(encoded(name).last() == r@.last());
                }
            }
        }
        assert forall|prefix: Seq<char>, names: Seq<Seq<char>>|
            target@ == '\\' && #[trigger] is_path_of(path@, prefix, names) implies r@
            == prefixed_path(prefix, encoded_names(names)) by {
            lemma_encoded_names(names);
            assert(component_views(rendered@) =~= prefixed_components(
                prefix,
                encoded_names(names),
            ));
        }
        assert forall|names: Seq<Seq<char>>|
            target@ == '\\' && #[trigger] is_relative_of(path@, names) implies r@ == relative_text(
            encoded_names(names),
        ) by {
            lemma_encoded_names(names);
            assert(component_views(rendered@) =~= name_components(encoded_names(names)));
        }
    }
    r
}

/// Escapes hold no slash, and no name becomes shorter.
proof fn lemma_encoded_has_no_slash(name: Seq<char>)
    requires
        !name.contains('/'),
    ensures
        !encoded(name).contains('/'),
        encoded(name).len() >= name.len(),
    decreases name.len(),
{
    if name.len() > 0 {
        let head = escaped(name[0]);
        let rest = name.skip(1);
        assert(!rest.contains('/')) by {
            if rest.contains('/') {
                let k = choose|k: int| 0 <= k < rest.len() && rest[k] == '/';
                assert(name[k + 1] == '/');
            }
        }
        lemma_encoded_has_no_slash(rest);
        if is_reserved(name[0]) {
            lemma_escaped_digits(name[0]);
        }
        assert(name.contains(name[0]));
        assert forall|i: int| 0 <= i < encoded(name).len() implies encoded(name)[i] != '/' by {
            if i < head.len() {
                assert(encoded(name)[i] == head[i]);
            } else {
                assert(encoded(name)[i] == encoded(rest)[i - head.len()]);
                assert(encoded(rest).contains(encoded(rest)[i - head.len()]));
            }
        }
    }
}

proof fn lemma_encoded_file_name(name: Seq<char>)
    requires
        is_file_name(name),
    ensures
        is_file_name(encoded(name)),
        !encoded(name).contains(':'),
{
    let text = encoded(name);
    lemma_encoded_has_no_slash(name);
    law_encoded_is_legal(name);
    assert forall|i: int| 0 <= i < text.len() implies #[trigger] text[i] != '/' && text[i] != '\\'
        && text[i] != ':' by {
        assert(text.contains(text[i]));
    }
    law_decode_inverts_encode(name);
    reveal_with_fuel(decoded, 3);
    if text == seq!['.'] {
        assert(decoded(text) =~= seq!['.']);
    }
    if text == seq!['.', '.'] {
        assert(decoded(text) =~= seq!['.', '.']);
    }
}

pub(crate) proof fn lemma_encoded_names(names: Seq<Seq<char>>)
    requires
        are_file_names(names),
    ensures
        are_file_names(encoded_names(names)),
        !has_colon(encoded_names(names)),
{
    assert forall|i: int| 0 <= i < names.len() implies is_file_name(
        #[trigger] encoded_names(names)[i],
    ) && !encoded_names(names)[i].contains(':') by {
        lemma_encoded_file_name(names[i]);
    }
}

/// Names that Windows takes as they are.
pub open spec fn are_legal(names: Seq<Seq<char>>) -> bool {
    forall|i: int| 0 <= i < names.len() ==> is_legal(#[trigger] names[i])
}

/// A name without reserved characters.
pub open spec fn is_legal(name: Seq<char>) -> bool {
    forall|i: int| 0 <= i < name.len() ==> !is_reserved(#[trigger] name[i])
}

/// Rendering changes nothing in names without reserved characters.
pub proof fn law_legal_names_are_kept(names: Seq<Seq<char>>)
    requires
        are_legal(names),
    ensures
        encoded_names(names) == names,
{
    assert forall|i: int| 0 <= i < names.len() implies encoded_names(names)[i] == names[i] by {
        assert(is_legal(names[i]));
        law_encode_keeps_legal_names(names[i]);
    }
    assert(encoded_names(names) =~= names);
}

/// Encoding the components of a path is reversible: the names decode to what
/// they were, and everything else is unchanged.
pub proof fn law_encoded_components_decode(parts: Seq<ComponentView>)
    ensures
        ({
            let rendered = parts.map_values(|c: ComponentView| encoded_component(c));
            &&& rendered.len() == parts.len()
            &&& forall|i: int|
                0 <= i < parts.len() ==> match #[trigger] rendered[i] {
                    ComponentView::Normal(name) => parts[i] == ComponentView::Normal(decoded(name)),
                    ComponentView::Other(text) => parts[i] == ComponentView::Other(text),
                }
        }),
{
    let rendered = parts.map_values(|c: ComponentView| encoded_component(c));
    assert forall|i: int| 0 <= i < parts.len() implies match #[trigger] rendered[i] {
        ComponentView::Normal(name) => parts[i] == ComponentView::Normal(decoded(name)),
        ComponentView::Other(text) => parts[i] == ComponentView::Other(text),
    } by {
        if let ComponentView::Normal(name) = parts[i] {
            law_decode_inverts_encode(name);
        }
    }
}

} // verus!
