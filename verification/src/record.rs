//! Parsed URLs, as far as storage locations read them.

use vstd::prelude::*;
use vstd::utf8::encode_utf8;

use crate::model::{
    directory_url, file_path_url, found_path, is_absolute_url, is_bare_drive, is_dotted,
    is_letter, is_named_child, is_normal_path, is_rooted_path, is_unbroken, is_usual_path,
    joined_url, joins_literally, joins_plainly, parsed_url, slashed_url, stands_for, tidy_path,
    with_upper_drive, UrlView, MAX_URL_LEN,
};
use crate::parts::Parts;
use crate::percent::percent_decode;
use crate::target::{file_path_result, starts_at_root, Target};
use crate::text::{chars_of, ends_with_slash, is_slash_terminated};

verus! {

/// The model of a URL or of the message why there is none.
pub open spec fn record_result(r: Result<UrlRecord, String>) -> Result<UrlView, Seq<char>> {
    match r {
        Ok(url) => Ok(url@),
        Err(message) => Err(message@),
    }
}

/// The model of a URL that may be missing.
pub open spec fn record_option(r: Option<UrlRecord>) -> Option<UrlView> {
    match r {
        Some(url) => Some(url@),
        None => None,
    }
}

/// A parsed URL.
#[derive(Debug)]
pub struct UrlRecord {
    parts: Parts,
}

impl View for UrlRecord {
    type V = UrlView;

    closed spec fn view(&self) -> UrlView {
        self.parts@
    }
}

impl Clone for UrlRecord {
    fn clone(&self) -> (r: UrlRecord)
        ensures
            r@ == self@,
    {
        proof {
            use_type_invariant(self);
        }
        UrlRecord { parts: self.parts.duplicate() }
    }
}

impl UrlRecord {
    /// The path of a `file:` URL starts with a slash, and with exactly one where
    /// it ends with a slash.
    #[verifier::type_invariant]
    closed spec fn inv(self) -> bool {
        self.parts@.scheme == "file"@ ==> starts_at_root(self.parts@.path) && (ends_with_slash(
            self.parts@.path,
        ) ==> is_rooted_path(self.parts@.path))
    }

    /// Parses the text of a URL. The path of a `file:` URL comes out normal,
    /// unless tabs or line breaks stand in the text.
    pub fn parse(input: &str) -> (r: Result<UrlRecord, String>)
        ensures
            record_result(r) == parsed_url(input@),
            r matches Ok(url) ==> url@.scheme == "file"@ ==> is_rooted_path(url@.path),
            r matches Ok(url) ==> url@.scheme == "file"@ && is_unbroken(input@) ==> is_normal_path(
                url@.path,
            ),
    {
        match Parts::parse(input) {
            Ok(parts) => Ok(UrlRecord { parts }),
            Err(message) => Err(message),
        }
    }

    /// The URL of the directory at a `file:` URL: the same URL with a slash at
    /// the end of its path, or nothing where the URL is too long to be given
    /// one.
    pub(crate) fn into_directory(self) -> (r: Option<UrlRecord>)
        requires
            self@.scheme == "file"@,
        ensures
            record_option(r) == directory_url(self@),
            r matches Some(url) ==> {
                &&& url@.scheme == "file"@ && is_rooted_path(url@.path)
                &&& ends_with_slash(url@.path)
            },
    {
        proof {
            use_type_invariant(&self);
        }
        if is_slash_terminated(self.parts.path()) {
            return Some(self);
        }
        if self.parts.as_str().unicode_len() > MAX_URL_LEN {
            return None;
        }
        let mut slashed = self.parts.path().to_string();
        slashed.push('/');
        let parts = self.parts.set_path(slashed.as_str());
        assert(parts@ =~= slashed_url(self@));
        Some(UrlRecord { parts })
    }

    /// The URL that a relative reference leads to, which starts with `./`, from
    /// a `file:` URL. It is a `file:` URL of the same host, with a normal path
    /// where the path led on from one and the reference is unbroken.
    pub(crate) fn join(&self, input: &str) -> (r: Result<UrlRecord, String>)
        requires
            is_dotted(input@),
            self@.scheme == "file"@,
        ensures
            record_result(r) == joined_url(self@, input@),
            r matches Ok(url) ==> {
                &&& url@.scheme == "file"@ && is_rooted_path(url@.path)
                &&& url@.prefix == self@.prefix
                &&& is_normal_path(self@.path) && ends_with_slash(self@.path) && is_unbroken(input@)
                    ==> is_normal_path(url@.path)
            },
            joins_literally(self@, input@) ==> (r matches Ok(url) && is_named_child(
                self@,
                url@,
                input@.skip(2),
            )),
    {
        match self.parts.join(input) {
            Ok(parts) => {
                proof {
                    if joins_plainly(self@, input@) {
                        assert(parts@ =~= joined_url(self@, input@)->Ok_0);
                    }
                }
                Ok(UrlRecord { parts })
            },
            Err(message) => Err(message),
        }
    }

    /// The `file:` URL of a native path, if it has one.
    pub(crate) fn from_file_path(target: &Target, path: &str) -> (r: Option<UrlRecord>)
        ensures
            record_option(r) == file_path_url(target@, path@),
            r matches Some(url) ==> url@.scheme == "file"@ && starts_at_root(url@.path)
                && url@.suffix.len() == 0,
            target@ == '/' ==> r is Some == starts_at_root(path@),
            is_usual_path(target@, path@) ==> (r matches Some(url) && (stands_for(
                target@,
                url@,
                path@,
            ) || stands_for(target@, url@, with_upper_drive(target@, path@)))),
            r matches Some(url) ==> target@ == '/' && is_usual_path(target@, tidy_path(path@))
                ==> stands_for(target@, url@, tidy_path(path@)),
            is_usual_path(target@, path@) ==> (r matches Some(url) && url@.path.len() <= 1 + 3
                * encode_utf8(path@).len()),
    {
        match Parts::from_file_path(target, path) {
            Some(parts) => Some(UrlRecord { parts }),
            None => None,
        }
    }

    /// The native path of a `file:` URL: an error where it has none, and its
    /// text where it is UTF-8.
    pub(crate) fn to_file_path(&self, target: &Target) -> (r: Result<Option<String>, ()>)
        requires
            self@.scheme == "file"@,
        ensures
            file_path_result(r) == found_path(target@, self@),
    {
        if self.is_absolute(target) {
            self.parts.to_file_path(target)
        } else {
            Err(())
        }
    }

    /// Whether the native path of the URL is absolute, if it has one.
    fn is_absolute(&self, target: &Target) -> (r: bool)
        ensures
            r == is_absolute_url(target@, self@),
    {
        if !target.is_windows() {
            return true;
        }
        let prefix = self.parts.prefix().to_string();
        if prefix == "file://".to_string() || prefix == "file://localhost".to_string() {
            let path = chars_of(self.parts.path());
            !bare_drive(&path)
        } else {
            let bytes = percent_decode(self.parts.path());
            bytes.len() > 1 && bytes[1] != 0x2f && bytes[1] != 0x5c
        }
    }

    /// The scheme of the URL, without the colon.
    pub fn scheme(&self) -> (r: &str)
        ensures
            r@ == self@.scheme,
    {
        self.parts.scheme()
    }

    /// The path of the URL, percent-encoded.
    pub fn path(&self) -> (r: &str)
        ensures
            r@ == self@.path,
            self@.scheme == "file"@ ==> starts_at_root(r@),
    {
        proof {
            use_type_invariant(self);
        }
        self.parts.path()
    }

    /// The text of the URL.
    pub fn as_str(&self) -> (r: &str)
        ensures
            r@ == self@.href(),
    {
        self.parts.as_str()
    }
}

fn letter(c: char) -> (r: bool)
    ensures
        r == is_letter(c),
{
    ('a' <= c && c <= 'z') || ('A' <= c && c <= 'Z')
}

fn bare_drive(path: &Vec<char>) -> (r: bool)
    ensures
        r == is_bare_drive(path@),
{
    if path.len() == 3 {
        path[0] == '/' && letter(path[1]) && path[2] == ':'
    } else if path.len() == 5 {
        path[0] == '/' && letter(path[1]) && path[2] == '%' && path[3] == '3' && (path[4] == 'A'
            || path[4] == 'a')
    } else {
        false
    }
}

} // verus!
