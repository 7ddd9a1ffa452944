//! The path rules of the system that the crate is built for.

use vstd::prelude::*;

use crate::model::is_ordinary_path;

verus! {

/// The system that the crate is built for, known by the separator of its
/// paths: `/` on a Unix system, `\` on Windows. Systems with other rules for
/// paths, such as Redox and WASI, are not among the targets.
///
/// A `Target` comes from [`Target::current`] alone, so its separator is always
/// that of the running program. What the standard library and `url` do with a
/// path depends on it, and on nothing else that the path itself does not hold.
#[derive(Clone, Copy, Debug)]
pub struct Target {
    separator: char,
}

impl View for Target {
    type V = char;

    closed spec fn view(&self) -> char {
        self.separator
    }
}

/// `std::path::MAIN_SEPARATOR`, which is `/` on a Unix system and `\` on
/// Windows.
#[verifier::external_body]
fn main_separator() -> (r: char)
    ensures
        r == '/' || r == '\\',
{
    std::path::MAIN_SEPARATOR
}

impl Target {
    /// A target has one of the two separators.
    #[verifier::type_invariant]
    pub open spec fn is_known(self) -> bool {
        self@ == '/' || self@ == '\\'
    }

    /// The running program's own target.
    pub fn current() -> (r: Target)
        ensures
            r@ == '/' || r@ == '\\',
    {
        Target { separator: main_separator() }
    }

    /// Whether Windows path rules apply.
    pub fn is_windows(&self) -> (r: bool)
        ensures
            r == (self@ == '\\'),
    {
        self.separator == '\\'
    }
}

/// Whether a path starts with a slash.
pub open spec fn starts_at_root(path: Seq<char>) -> bool {
    path.len() > 0 && path[0] == '/'
}

/// The name of a file or directory, as it stands between two separators.
pub open spec fn is_file_name(name: Seq<char>) -> bool {
    &&& name.len() > 0 && name != seq!['.'] && name != seq!['.', '.']
    &&& forall|i: int| 0 <= i < name.len() ==> #[trigger] name[i] != '/' && name[i] != '\\'
}

/// The share of a Windows server, as it stands at the start of a path.
pub open spec fn share_text(server: Seq<char>, share: Seq<char>) -> Seq<char> {
    seq!['\\', '\\'] + server + seq!['\\'] + share
}

/// A Windows drive: a letter and a colon.
pub open spec fn is_drive(prefix: Seq<char>) -> bool {
    prefix.len() == 2 && ('A' <= prefix[0] <= 'Z' || 'a' <= prefix[0] <= 'z') && prefix[1] == ':'
}

/// What a Windows path starts with: a drive, or the share of a server.
pub open spec fn is_prefix(prefix: Seq<char>) -> bool {
    ||| is_drive(prefix)
    ||| exists|server: Seq<char>, share: Seq<char>|
        is_file_name(server) && server != seq!['?'] && is_file_name(share) && prefix
            == #[trigger] share_text(server, share)
}

/// Names of directories and files.
pub open spec fn are_file_names(names: Seq<Seq<char>>) -> bool {
    forall|i: int| 0 <= i < names.len() ==> is_file_name(#[trigger] names[i])
}

/// Whether a colon stands in one of some names.
pub open spec fn has_colon(names: Seq<Seq<char>>) -> bool {
    exists|i: int| 0 <= i < names.len() && (#[trigger] names[i]).contains(':')
}

/// The prefix of a Windows path, and behind it every name after a backslash.
pub open spec fn prefixed_text(prefix: Seq<char>, names: Seq<Seq<char>>) -> Seq<char>
    decreases names.len(),
{
    if names.len() == 0 {
        prefix
    } else {
        prefixed_text(prefix, names.drop_last()) + seq!['\\'] + names.last()
    }
}

/// The Windows path of a file or directory below a prefix, or of the root there.
pub open spec fn prefixed_path(prefix: Seq<char>, names: Seq<Seq<char>>) -> Seq<char> {
    if names.len() == 0 {
        prefix.push('\\')
    } else {
        prefixed_text(prefix, names)
    }
}

/// Whether a text is a Windows path with the given prefix and names, with or
/// without a separator at its end.
pub open spec fn is_path_of(path: Seq<char>, prefix: Seq<char>, names: Seq<Seq<char>>) -> bool {
    &&& is_prefix(prefix) && are_file_names(names)
    &&& path == prefixed_path(prefix, names) || path == prefixed_text(prefix, names).push('\\')
}

/// Whether a text is a Windows path with a prefix and the root.
pub open spec fn is_prefixed_path(path: Seq<char>) -> bool {
    exists|prefix: Seq<char>, names: Seq<Seq<char>>| #[trigger] is_path_of(path, prefix, names)
}

/// A relative Windows path: names with backslashes between them.
pub open spec fn relative_text(names: Seq<Seq<char>>) -> Seq<char>
    decreases names.len(),
{
    if names.len() == 0 {
        Seq::empty()
    } else if names.len() == 1 {
        names[0]
    } else {
        relative_text(names.drop_last()) + seq!['\\'] + names.last()
    }
}

/// Whether a text is a relative Windows path of some names. With a colon, the
/// first one might be a drive.
pub open spec fn is_relative_of(path: Seq<char>, names: Seq<Seq<char>>) -> bool {
    names.len() > 0 && are_file_names(names) && !names[0].contains(':') && path == relative_text(
        names,
    )
}

/// A native path with a separator at its end.
pub open spec fn with_separator(separator: char, path: Seq<char>) -> Seq<char> {
    if path.len() > 0 && path.last() == separator {
        path
    } else {
        path.push(separator)
    }
}

/// What `std::path::Path::is_absolute` answers for a path, under the rules of
/// the target with the given separator.
pub uninterp spec fn path_is_absolute(separator: char, path: Seq<char>) -> bool;

/// Whether a path is absolute: on Unix, whether it starts with the root. On
/// Windows a path with a prefix and the root is.
pub open spec fn is_absolute_path(separator: char, path: Seq<char>) -> bool {
    if separator == '/' {
        starts_at_root(path)
    } else if separator == '\\' && is_prefixed_path(path) {
        true
    } else {
        path_is_absolute(separator, path)
    }
}

/// `std::path::Path::is_absolute`: on Unix, whether the path starts with the
/// root; on Windows, of a path with a prefix and the root, yes.
#[verifier::external_body]
pub(crate) fn is_absolute(target: &Target, path: &str) -> (r: bool)
    ensures
        r == path_is_absolute(target@, path@),
        target@ == '/' ==> r == starts_at_root(path@),
        target@ == '\\' && is_prefixed_path(path@) ==> r,
{
    std::path::Path::new(path).is_absolute()
}

/// What `std::path::Path::join` makes of two paths, under the rules of the
/// target with the given separator.
pub uninterp spec fn path_join(separator: char, base: Seq<char>, name: Seq<char>) -> Seq<char>;

/// Whether what is joined to a path is put behind it and a separator.
pub open spec fn is_adjoined(separator: char, base: Seq<char>, name: Seq<char>) -> bool {
    if separator == '/' {
        base.len() > 0 && name.len() > 0 && !starts_at_root(name)
    } else {
        &&& separator == '\\' && is_prefixed_path(base)
        &&& exists|names: Seq<Seq<char>>| #[trigger] is_relative_of(name, names)
    }
}

/// A name joined to a path. A relative one of the usual kind is put behind it,
/// after a separator unless the path ends with one. An absolute one replaces it.
pub open spec fn joined_path(separator: char, base: Seq<char>, name: Seq<char>) -> Seq<char> {
    if is_adjoined(separator, base, name) {
        with_separator(separator, base) + name
    } else if is_absolute_path(separator, name) {
        name
    } else {
        path_join(separator, base, name)
    }
}

/// `std::path::Path::join`: an absolute path replaces the base. On Unix any
/// other one is adjoined to the base, on Windows one of names that do not start
/// with a drive to a path with a prefix and the root; a separator comes between them unless the
/// base ends with one. On Unix what is joined to an absolute base is absolute.
#[verifier::external_body]
pub(crate) fn join(target: &Target, base: &str, name: &str) -> (r: String)
    ensures
        r@ == path_join(target@, base@, name@),
        is_absolute_path(target@, name@) ==> r@ == name@,
        is_adjoined(target@, base@, name@) ==> r@ == with_separator(target@, base@) + name@,
        target@ == '/' && starts_at_root(base@) ==> starts_at_root(r@),
{
    std::path::Path::new(base).join(name).to_string_lossy().into_owned()
}

/// A native Unix path with a name behind it and a slash.
pub open spec fn in_directory(base: Seq<char>, name: Seq<char>) -> Seq<char> {
    base + seq!['/'] + name
}

/// Whether a directory is that of a native path. On Unix a name behind an
/// ordinary path and a slash lies in that path, a name behind a slash in the
/// root, and the root in nothing. On Windows a path below a prefix lies in the
/// path without its last name, and the root there in nothing.
pub open spec fn is_parent_of(separator: char, parent: Option<Seq<char>>, path: Seq<char>) -> bool {
    &&& forall|base: Seq<char>, name: Seq<char>|
        separator == '/' && is_ordinary_path(base) && is_file_name(name) && path
            == #[trigger] in_directory(base, name) ==> parent == Some(base)
    &&& forall|name: Seq<char>|
        separator == '/' && is_file_name(name) && path == #[trigger] in_directory(
            Seq::empty(),
            name,
        ) ==> parent == Some(seq!['/'])
    &&& separator == '/' && path == seq!['/'] ==> parent is None
    &&& forall|prefix: Seq<char>, names: Seq<Seq<char>>|
        separator == '\\' && is_prefix(prefix) && are_file_names(names) && path
            == #[trigger] prefixed_path(prefix, names) ==> parent == (if names.len() == 0 {
            None
        } else {
            Some(prefixed_path(prefix, names.drop_last()))
        })
}

/// What `std::path::Path::parent` answers for a path, under the rules of the
/// target with the given separator.
pub uninterp spec fn path_parent(separator: char, path: Seq<char>) -> Option<Seq<char>>;

/// The view of an optional string.
pub open spec fn option_view(s: Option<String>) -> Option<Seq<char>> {
    match s {
        Some(text) => Some(text@),
        None => None,
    }
}

/// The model of a native path that may not be UTF-8.
pub open spec fn file_path_result(r: Result<Option<String>, ()>) -> Result<Option<Seq<char>>, ()> {
    match r {
        Ok(found) => Ok(option_view(found)),
        Err(()) => Err(()),
    }
}

/// `std::path::Path::parent`: the path without its final component, which an
/// empty path and the root do not have. On Unix a name behind an ordinary path
/// and a slash leaves that path, and a name in the root leaves the root. On
/// Windows a path below a prefix leaves the path without its last name.
#[verifier::external_body]
pub(crate) fn parent(target: &Target, path: &str) -> (r: Option<String>)
    ensures
        option_view(r) == path_parent(target@, path@),
        path@.len() == 0 ==> r is None,
        is_parent_of(target@, option_view(r), path@),
{
    std::path::Path::new(path).parent().map(|p| p.to_string_lossy().into_owned())
}

/// One component of a native path.
#[derive(Debug, PartialEq, Eq)]
pub enum PathComponent {
    /// The name of a file or directory.
    Normal(String),
    /// A prefix such as a drive letter, the root, `.` or `..`, as it is written.
    Other(String),
}

/// The model of a [`PathComponent`].
pub enum ComponentView {
    Normal(Seq<char>),
    Other(Seq<char>),
}

impl View for PathComponent {
    type V = ComponentView;

    open spec fn view(&self) -> ComponentView {
        match self {
            PathComponent::Normal(name) => ComponentView::Normal(name@),
            PathComponent::Other(text) => ComponentView::Other(text@),
        }
    }
}

/// The models of a list of components.
pub open spec fn component_views(components: Seq<PathComponent>) -> Seq<ComponentView> {
    components.map_values(|c: PathComponent| c@)
}

/// Names as components.
pub open spec fn name_components(names: Seq<Seq<char>>) -> Seq<ComponentView> {
    names.map_values(|name: Seq<char>| ComponentView::Normal(name))
}

/// The components of a Windows path with a prefix and the root: the prefix, the
/// root, the names.
pub open spec fn prefixed_components(prefix: Seq<char>, names: Seq<Seq<char>>) -> Seq<
    ComponentView,
> {
    seq![ComponentView::Other(prefix), ComponentView::Other(seq!['\\'])] + name_components(names)
}

/// The components that `std::path::Path::components` finds in a path, under the
/// rules of the target with the given separator.
pub uninterp spec fn path_components(separator: char, path: Seq<char>) -> Seq<ComponentView>;

/// `std::path::Path::components`, each component with its text. On Windows a
/// path with a prefix and the root has the prefix, the root and the names as its
/// components, and a separator at its end adds none; a relative one of names
/// that do not start with a drive has those.
#[verifier::external_body]
pub(crate) fn components(target: &Target, path: &str) -> (r: Vec<PathComponent>)
    ensures
        component_views(r@) == path_components(target@, path@),
        forall|prefix: Seq<char>, names: Seq<Seq<char>>|
            target@ == '\\' && #[trigger] is_path_of(path@, prefix, names) ==> component_views(r@)
                == prefixed_components(prefix, names),
        forall|names: Seq<Seq<char>>|
            target@ == '\\' && #[trigger] is_relative_of(path@, names) ==> component_views(r@)
                == name_components(names),
{
    let mut found = Vec::new();
    for component in std::path::Path::new(path).components() {
        let text = component.as_os_str().to_string_lossy().into_owned();
        found.push(match component {
            std::path::Component::Prefix(_) => PathComponent::Other(text),
            std::path::Component::RootDir => PathComponent::Other(text),
            std::path::Component::CurDir => PathComponent::Other(text),
            std::path::Component::ParentDir => PathComponent::Other(text),
            std::path::Component::Normal(_) => PathComponent::Normal(text),
        });
    }
    found
}

impl PathComponent {
    /// The text of the component.
    pub fn text(&self) -> (r: &str)
        ensures
            r@ == match self@ {
                ComponentView::Normal(name) => name,
                ComponentView::Other(text) => text,
            },
    {
        match self {
            PathComponent::Normal(name) => name.as_str(),
            PathComponent::Other(text) => text.as_str(),
        }
    }
}

/// The path that collecting components into a `std::path::PathBuf` builds, under
/// the rules of the target with the given separator.
pub uninterp spec fn path_of_components(
    separator: char,
    components: Seq<ComponentView>,
) -> Seq<char>;

/// Collecting into a `std::path::PathBuf`, which pushes the text of one
/// component after the other. What is pushed last stands at the end, if it is a
/// name. On Windows a prefix, the root and names without a colon give the path
/// below the prefix, and such names alone the relative path.
#[verifier::external_body]
pub(crate) fn collect(target: &Target, components: &Vec<PathComponent>) -> (r: String)
    ensures
        r@ == path_of_components(target@, component_views(components@)),
        forall|name: Seq<char>|
            components@.len() > 0 && components@.last()@ == ComponentView::Normal(name)
                && is_file_name(name) ==> #[trigger] name.is_suffix_of(r@),
        forall|prefix: Seq<char>, names: Seq<Seq<char>>|
            target@ == '\\' && is_prefix(prefix) && are_file_names(names) && !has_colon(names)
                && component_views(components@) == prefixed_components(prefix, names) ==> r@
                == #[trigger] prefixed_path(prefix, names),
        forall|names: Seq<Seq<char>>|
            target@ == '\\' && names.len() > 0 && are_file_names(names) && !has_colon(names)
                && component_views(components@) == name_components(names) ==> r@
                == #[trigger] relative_text(names),
{
    let path: std::path::PathBuf = components.iter().map(|c| c.text()).collect();
    path.to_string_lossy().into_owned()
}

} // verus!
