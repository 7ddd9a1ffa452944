//! Where `url::Url` is called.
//!
//! A [`Parts`] is made here and nowhere else, each time from one URL, and never
//! changes. So what it holds are always the texts of the URL that it holds.

use url::{Position, Url};
use vstd::prelude::*;
use vstd::utf8::encode_utf8;

use crate::model::{
    arrival, file_path_url, found_path, is_absolute_url, is_dotted, is_named_child,
    is_normal_path, is_path_text, is_rooted_path, is_stable_path, is_unbroken, is_usual_path,
    joins_literally, joins_plainly, path_url, stands_for, tidy_path, url_join, url_parse,
    url_path_set, with_one_root, with_upper_drive, UrlView, MAX_URL_LEN,
};
use crate::target::{file_path_result, starts_at_root, Target};
use crate::text::ends_with_slash;

verus! {

/// `url::Url`, carried along unopened.
#[verifier::external_type_specification]
#[verifier::external_body]
pub struct ExUrl(Url);

/// A `url::Url` with the texts of it that are read.
#[derive(Debug)]
pub(crate) struct Parts {
    inner: Url,
    scheme: String,
    prefix: String,
    path: String,
    suffix: String,
}

impl View for Parts {
    type V = UrlView;

    closed spec fn view(&self) -> UrlView {
        UrlView {
            scheme: self.scheme@,
            prefix: self.prefix@,
            path: self.path@,
            suffix: self.suffix@,
        }
    }
}

/// The model of a URL or of the message why there is none.
pub(crate) open spec fn parts_result(r: Result<Parts, String>) -> Result<UrlView, Seq<char>> {
    match r {
        Ok(parts) => Ok(parts@),
        Err(message) => Err(message@),
    }
}

/// The model of a URL that may be missing.
pub(crate) open spec fn parts_option(r: Option<Parts>) -> Option<UrlView> {
    match r {
        Some(parts) => Some(parts@),
        None => None,
    }
}

/// The URLs that are found show what they hold.
pub(crate) proof fn law_parts_show_what_they_hold(parts: Parts, message: String)
    ensures
        parts_result(Ok(parts)) == Ok::<UrlView, Seq<char>>(parts@),
        parts_result(Err(message)) == Err::<UrlView, Seq<char>>(message@),
        parts_option(Some(parts)) == Some(parts@),
        parts_option(None) is None,
{
}

impl Parts {
    /// `Url::clone`, which gives an equal URL.
    #[verifier::external_body]
    pub(crate) fn duplicate(&self) -> (r: Parts)
        ensures
            r@ == self@,
    {
        Parts {
            inner: self.inner.clone(),
            scheme: self.scheme.clone(),
            prefix: self.prefix.clone(),
            path: self.path.clone(),
            suffix: self.suffix.clone(),
        }
    }

    /// `Url::parse`. The path of a `file:` URL starts with one slash. Where no
    /// tab or line break stands in the text, it has no dot segments either. A
    /// path that is written as it is behind `file://` is the path of the URL.
    #[verifier::external_body]
    pub(crate) fn parse(input: &str) -> (r: Result<Parts, String>)
        ensures
            parts_result(r) == url_parse(input@),
            is_path_text(input@) ==> r is Ok,
            r matches Ok(parts) ==> is_path_text(input@) ==> parts@ == path_url(input@.skip(7)),
            r matches Ok(parts) ==> parts@.scheme == "file"@ ==> is_rooted_path(parts@.path),
            r matches Ok(parts) ==> parts@.scheme == "file"@ && is_unbroken(input@)
                ==> is_normal_path(parts@.path),
    {
        match Url::parse(input) {
            Ok(url) => Ok(Parts {
                scheme: url.scheme().to_string(),
                prefix: url[..Position::BeforePath].to_string(),
                path: url.path().to_string(),
                suffix: url[Position::AfterPath..].to_string(),
                inner: url,
            }),
            Err(error) => Err(error.to_string()),
        }
    }

    /// `Url::set_path`, on a copy of the URL, with the path that the URL has and
    /// a slash behind it. All that stands around the path stays. The path
    /// keeps the slash at its end and starts with one slash. A normal path
    /// stays as it is, unless it starts with a drive that is written with a bar.
    #[verifier::external_body]
    pub(crate) fn set_path(&self, path: &str) -> (r: Parts)
        requires
            self@.scheme == "file"@,
            !ends_with_slash(self@.path),
            path@ == self@.path.push('/'),
            self@.href().len() <= MAX_URL_LEN,
        ensures
            r@.path == url_path_set(self@.href(), path@),
            r@.scheme == self@.scheme && r@.prefix == self@.prefix && r@.suffix == self@.suffix,
            ends_with_slash(r@.path) && is_rooted_path(r@.path),
            is_stable_path(self@.path) ==> r@.path == path@,
    {
        let mut url = self.inner.clone();
        url.set_path(path);
        Parts {
            scheme: url.scheme().to_string(),
            prefix: url[..Position::BeforePath].to_string(),
            path: url.path().to_string(),
            suffix: url[Position::AfterPath..].to_string(),
            inner: url,
        }
    }

    /// `Url::join`. A reference that starts with `./` keeps the scheme and all
    /// that stands before the path of a `file:` URL. What follows leads on from
    /// the path of a directory. If a URL path takes it as it is, its dot segments
    /// are resolved, where a directory that is called like a Windows drive has no
    /// parent, and nothing else in it changes; if it is literal, it is
    /// percent-encoded where it has to be. The path starts with one slash; if it
    /// led on from a normal path of a directory and no tab or line break stands
    /// in the reference, it has no dot segments.
    #[verifier::external_body]
    pub(crate) fn join(&self, input: &str) -> (r: Result<Parts, String>)
        requires
            self@.scheme == "file"@,
            is_dotted(input@),
        ensures
            parts_result(r) == url_join(self@.href(), input@),
            joins_plainly(self@, input@) ==> r is Ok,
            r matches Ok(parts) ==> joins_plainly(self@, input@) ==> parts@.path == with_one_root(
                arrival(self@.path, input@.skip(2)),
            ) && parts@.suffix.len() == 0,
            joins_literally(self@, input@) ==> r is Ok,
            r matches Ok(parts) ==> joins_literally(self@, input@) ==> is_named_child(
                self@,
                parts@,
                input@.skip(2),
            ),
            r matches Ok(parts) ==> parts@.scheme == "file"@ && parts@.prefix == self@.prefix,
            r matches Ok(parts) ==> is_rooted_path(parts@.path),
            r matches Ok(parts) ==> is_normal_path(self@.path) && ends_with_slash(self@.path)
                && is_unbroken(input@) ==> is_normal_path(parts@.path),
    {
        match self.inner.join(input) {
            Ok(url) => Ok(Parts {
                scheme: url.scheme().to_string(),
                prefix: url[..Position::BeforePath].to_string(),
                path: url.path().to_string(),
                suffix: url[Position::AfterPath..].to_string(),
                inner: url,
            }),
            Err(error) => Err(error.to_string()),
        }
    }

    /// `Url::from_file_path`. It gives a `file:` URL without anything behind
    /// the path: on Unix for every absolute path and for no other. The path
    /// starts with a slash. It starts with exactly one on Unix, and where it ends
    /// with a slash, since then it is the root or that of a drive. The URL of a
    /// path in its usual form stands for the path, a drive perhaps in upper case,
    /// and writes each byte of it in three characters at most. On Unix doubled
    /// slashes, `.` and a slash at the end make no difference.
    #[verifier::external_body]
    pub(crate) fn from_file_path(target: &Target, path: &str) -> (r: Option<Parts>)
        ensures
            parts_option(r) == file_path_url(target@, path@),
            r matches Some(parts) ==> parts@.scheme == "file"@ && starts_at_root(parts@.path)
                && parts@.suffix.len() == 0,
            r matches Some(parts) ==> target@ == '/' || ends_with_slash(parts@.path)
                ==> is_rooted_path(parts@.path),
            target@ == '/' ==> r is Some == starts_at_root(path@),
            is_usual_path(target@, path@) ==> r is Some,
            r matches Some(parts) ==> is_usual_path(target@, path@) ==> stands_for(
                target@,
                parts@,
                path@,
            ) || stands_for(target@, parts@, with_upper_drive(target@, path@)),
            r matches Some(parts) ==> target@ == '/' && is_usual_path(target@, tidy_path(path@))
                ==> stands_for(target@, parts@, tidy_path(path@)),
            r matches Some(parts) ==> is_usual_path(target@, path@) ==> parts@.path.len() <= 1 + 3
                * encode_utf8(path@).len(),
    {
        match Url::from_file_path(path) {
            Ok(url) => Some(Parts {
                scheme: url.scheme().to_string(),
                prefix: url[..Position::BeforePath].to_string(),
                path: url.path().to_string(),
                suffix: url[Position::AfterPath..].to_string(),
                inner: url,
            }),
            Err(()) => None,
        }
    }

    /// `Url::to_file_path`. It decodes the path of the URL, for the local system
    /// on Unix, and below a drive or for a server on Windows, where the path has
    /// to be UTF-8. It would also report an error where no memory is left for the
    /// path; as everywhere, running out of memory is left out of account.
    #[verifier::external_body]
    pub(crate) fn to_file_path(&self, target: &Target) -> (r: Result<Option<String>, ()>)
        requires
            self@.scheme == "file"@,
            is_absolute_url(target@, self@),
        ensures
            file_path_result(r) == found_path(target@, self@),
    {
        match self.inner.to_file_path() {
            Ok(path) => Ok(path.to_str().map(|text| text.to_string())),
            Err(()) => Err(()),
        }
    }

    /// `Url::as_str`, the whole text of the URL.
    #[verifier::external_body]
    pub(crate) fn as_str(&self) -> (r: &str)
        ensures
            r@ == self@.href(),
    {
        self.inner.as_str()
    }

    /// The scheme of the URL, without the colon.
    pub(crate) fn scheme(&self) -> (r: &str)
        ensures
            r@ == self@.scheme,
    {
        self.scheme.as_str()
    }

    /// What stands before the path of the URL.
    pub(crate) fn prefix(&self) -> (r: &str)
        ensures
            r@ == self@.prefix,
    {
        self.prefix.as_str()
    }

    /// The path of the URL, percent-encoded.
    pub(crate) fn path(&self) -> (r: &str)
        ensures
            r@ == self@.path,
    {
        self.path.as_str()
    }
}

} // verus!
