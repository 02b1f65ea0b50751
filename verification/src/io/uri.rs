//! Locations of stored objects: a scheme, an authority and a path.

use crate::error::Error;
use vstd::prelude::*;
use vstd::std_specs::iter::IteratorSpec;
use vstd::string::StrSliceExecFns;
use vstd::string::StringExecFns;

verus! {

/// The kind of storage that a location lies in, as its scheme names it.
#[derive(Clone, Copy, Debug, PartialEq, Eq, Structural)]
pub enum URIType {
    Azure,
    File,
    Gcs,
    Hdfs,
    Mem,
    TileDB,
    Unknown,
}

/// The characters of `s`, in order.
pub fn chars_of(s: &str) -> (chars: Vec<char>)
    ensures
        chars@ == s@,
{
    broadcast use vstd::string::group_string_axioms;

    let mut chars: Vec<char> = Vec::new();
    let mut it = s.chars();
    loop
        invariant
            chars@ + it.remaining() == s@,
            it.obeys_prophetic_iter_laws(),
        ensures
            chars@ == s@,
        decreases s@.len() - chars@.len(),
    {
        let ghost before = it.remaining();
        match it.next() {
            Some(c) => {
                assert(chars@.push(c) + before.drop_first() =~= chars@ + before);
                chars.push(c);
            },
            None => {
                assert(chars@ + before =~= chars@);
                break ;
            },
        }
    }
    chars
}

/// Whether `s` ends with `end`.
pub open spec fn spec_ends_with(s: Seq<char>, end: Seq<char>) -> bool {
    end.len() <= s.len() && s.subrange(s.len() - end.len(), s.len() as int) == end
}

/// Whether `s` ends with `end`.
pub fn ends_with(s: &str, end: &str) -> (b: bool)
    ensures
        b == spec_ends_with(s@, end@),
{
    let text = chars_of(s);
    let tail = chars_of(end);
    if tail.len() > text.len() {
        return false;
    }
    let n: usize = text.len();
    let shift: usize = n - tail.len();
    let mut i: usize = 0;
    while i < tail.len()
        invariant
            i <= tail@.len(),
            text@ == s@,
            tail@ == end@,
            n == text@.len(),
            tail@.len() <= n,
            shift == n - tail@.len(),
            forall|j: int| 0 <= j < i ==> text@[shift + j] == tail@[j],
        decreases tail@.len() - i,
    {
        if text[shift + i] != tail[i] {
            assert(text@.subrange(shift as int, text@.len() as int)[i as int] != tail@[i as int]);
            return false;
        }
        i += 1;
    }
    assert(text@.subrange(shift as int, text@.len() as int) =~= tail@);
    true
}

/// Whether `s` holds the mark `://` that stands behind a scheme.
pub open spec fn has_scheme_mark(s: Seq<char>) -> bool {
    exists|i: int| 0 <= i && i + 3 <= s.len() && mark_at(s, i)
}

/// Whether the mark `://` stands in `s` at `i`.
pub open spec fn mark_at(s: Seq<char>, i: int) -> bool {
    s[i] == ':' && s[i + 1] == '/' && s[i + 2] == '/'
}

/// Where the last part of a path starts: behind its last `/`, or at its
/// start where it has none.
pub open spec fn last_part_start(path: Seq<char>) -> int
    decreases path.len(),
{
    if path.len() == 0 {
        0
    } else if path.last() == '/' {
        path.len() as int
    } else {
        last_part_start(path.drop_last())
    }
}

/// The length of a path without the slashes at its end.
pub open spec fn trimmed_len(path: Seq<char>) -> int
    decreases path.len(),
{
    if path.len() > 0 && path.last() == '/' {
        trimmed_len(path.drop_last())
    } else {
        path.len() as int
    }
}

/// The path that `path` names, seen from the directory `cwd`: `path` itself
/// where it starts at the root, and else `cwd` and `path` with one `/`
/// between them.
pub open spec fn resolved(cwd: Seq<char>, path: Seq<char>) -> Seq<char> {
    if path.len() > 0 && path[0] == '/' {
        path
    } else if cwd.len() == 0 || cwd.last() == '/' {
        cwd + path
    } else {
        cwd + seq!['/'] + path
    }
}

/// A path with `part` added as one more part: one `/` stands between them.
pub open spec fn joined(path: Seq<char>, part: Seq<char>) -> Seq<char> {
    if spec_ends_with(path, seq!['/']) {
        path + part
    } else {
        path + seq!['/'] + part
    }
}

/// What a URI is made of.
pub struct UriParts {
    pub scheme: String,
    pub authority: Option<String>,
    pub path: String,
    pub has_query: bool,
    pub has_fragment: bool,
}

/// What a URI is made of, as text.
pub ghost struct UriPartsView {
    pub scheme: Seq<char>,
    pub authority: Option<Seq<char>>,
    pub path: Seq<char>,
    pub has_query: bool,
    pub has_fragment: bool,
}

impl View for UriParts {
    type V = UriPartsView;

    open spec fn view(&self) -> UriPartsView {
        UriPartsView {
            scheme: self.scheme@,
            authority: match self.authority {
                Some(a) => Some(a@),
                None => None,
            },
            path: self.path@,
            has_query: self.has_query,
            has_fragment: self.has_fragment,
        }
    }
}

/// The parts of the URI that `text` is, or nothing where `text` is no URI.
pub uninterp spec fn uri_parts(text: Seq<char>) -> Option<UriPartsView>;

/// `iref::Uri::new`, with the parts of the URI read out of it: its scheme,
/// its authority if it has one, its path, and whether it has a query and a
/// fragment. Where `text` is no URI the call returns an error, here `None`.
#[verifier::external_body]
fn parse_uri(text: &str) -> (parts: Option<UriParts>)
    ensures
        match parts {
            Some(p) => uri_parts(text@) == Some(p@),
            None => uri_parts(text@) is None,
        },
{
    let uri = iref::Uri::new(text).ok()?;
    Some(
        UriParts {
            scheme: uri.scheme().as_str().to_string(),
            authority: uri.authority().map(|a| a.as_str().to_string()),
            path: uri.path().as_str().to_string(),
            has_query: uri.query().is_some(),
            has_fragment: uri.fragment().is_some(),
        },
    )
}

/// Whether `text` is the scheme of a URI.
pub uninterp spec fn scheme_valid(text: Seq<char>) -> bool;

/// Whether `text` is the authority of a URI.
pub uninterp spec fn authority_valid(text: Seq<char>) -> bool;

/// Whether `text` is the path of a URI.
pub uninterp spec fn path_valid(text: Seq<char>) -> bool;

/// The URI that is made of a scheme, an authority, if any, and a path.
pub uninterp spec fn uri_text(
    scheme: Seq<char>,
    authority: Option<Seq<char>>,
    path: Seq<char>,
) -> Seq<char>;

/// `iref::uri::SchemeBuf::new`, asked only whether it accepts the bytes of
/// `text` as a scheme.
#[verifier::external_body]
fn is_scheme(text: &str) -> (ok: bool)
    ensures
        ok == scheme_valid(text@),
{
    iref::uri::SchemeBuf::new(text.as_bytes().to_vec()).is_ok()
}

/// `iref::uri::Authority::new`, asked only whether it accepts `text` as an
/// authority.
#[verifier::external_body]
fn is_authority(text: &str) -> (ok: bool)
    ensures
        ok == authority_valid(text@),
{
    iref::uri::Authority::new(text).is_ok()
}

/// `iref::uri::Path::new`, asked only whether it accepts `text` as a path.
#[verifier::external_body]
fn is_path(text: &str) -> (ok: bool)
    ensures
        ok == path_valid(text@),
{
    iref::uri::Path::new(text).is_ok()
}

/// `iref::UriBuf::from_scheme`, with `set_authority` and `set_path` called
/// on what it makes and `into_string` on the result: the URI of the three
/// parts, which are parts that the crate accepts.
#[verifier::external_body]
fn compose_uri(scheme: &str, authority: Option<&str>, path: &str) -> (text: String)
    requires
        scheme_valid(scheme@),
        authority matches Some(a) ==> authority_valid(a@),
        path_valid(path@),
    ensures
        text@ == uri_text(
            scheme@,
            match authority {
                Some(a) => Some(a@),
                None => None,
            },
            path@,
        ),
{
    let scheme = iref::uri::SchemeBuf::new(scheme.as_bytes().to_vec()).unwrap();
    let mut buf = iref::UriBuf::from_scheme(scheme);
    buf.set_authority(authority.map(|a| iref::uri::Authority::new(a).unwrap()));
    buf.set_path(iref::uri::Path::new(path).unwrap());
    buf.into_string()
}

/// The location of a stored object.
#[derive(Debug, PartialEq, Eq)]
pub struct URI {
    scheme: String,
    authority: String,
    path: String,
}

/// What a location holds.
pub ghost struct UriView {
    pub scheme: Seq<char>,
    pub authority: Seq<char>,
    pub path: Seq<char>,
}

impl View for URI {
    type V = UriView;

    closed spec fn view(&self) -> UriView {
        UriView { scheme: self.scheme@, authority: self.authority@, path: self.path@ }
    }
}

impl Clone for URI {
    fn clone(&self) -> (uri: URI)
        ensures
            uri@ == self@,
    {
        URI {
            scheme: self.scheme.clone(),
            authority: self.authority.clone(),
            path: self.path.clone(),
        }
    }
}

impl URI {
    /// The root of the local file system.
    pub fn new() -> (uri: URI)
        ensures
            uri@ == (UriView { scheme: "file"@, authority: Seq::empty(), path: "/"@ }),
    {
        URI {
            scheme: String::from_str("file"),
            authority: String::new(),
            path: String::from_str("/"),
        }
    }

    /// The text that is parsed for `uri`: `uri` itself where it holds the
    /// mark `://`, and else a `file` URI of the path that `uri` names, seen
    /// from `cwd`.
    pub open spec fn full_text(uri: Seq<char>, cwd: Seq<char>) -> Seq<char> {
        if has_scheme_mark(uri) {
            uri
        } else {
            "file://"@ + resolved(cwd, uri)
        }
    }

    /// What a text gives as a location: the parts of the URI that it is,
    /// with an empty authority where it has none; an error where it is no
    /// URI, or a URI with a query or a fragment.
    pub open spec fn of_text(text: Seq<char>) -> Result<UriView, Error> {
        match uri_parts(text) {
            None => Err(Error::InvalidUri),
            Some(parts) => if parts.has_query || parts.has_fragment {
                Err(Error::InvalidUri)
            } else {
                Ok(
                    UriView {
                        scheme: parts.scheme,
                        authority: match parts.authority {
                            Some(a) => a,
                            None => Seq::empty(),
                        },
                        path: parts.path,
                    },
                )
            },
        }
    }

    /// The location that `uri` names. A text without the mark `://` is
    /// taken as a path in the local file system, seen from the directory
    /// `cwd`.
    pub fn from_string(uri: &str, cwd: &str) -> (r: Result<URI, Error>)
        ensures
            match r {
                Ok(location) => Self::of_text(Self::full_text(uri@, cwd@)) == Ok::<
                    UriView,
                    Error,
                >(location@),
                Err(e) => Self::of_text(Self::full_text(uri@, cwd@)) == Err::<UriView, Error>(e),
            },
    {
        let parts = if contains_scheme_mark(uri) {
            parse_uri(uri)
        } else {
            let full = String::from_str("file://").concat(resolve(cwd, uri).as_str());
            parse_uri(full.as_str())
        };
        match parts {
            None => Err(Error::InvalidUri),
            Some(parts) => {
                if parts.has_query || parts.has_fragment {
                    return Err(Error::InvalidUri);
                }
                let authority = match parts.authority {
                    Some(a) => a,
                    None => String::new(),
                };
                Ok(URI { scheme: parts.scheme, authority, path: parts.path })
            },
        }
    }

    /// The scheme of the location.
    pub fn scheme(&self) -> (scheme: String)
        ensures
            scheme@ == self@.scheme,
    {
        self.scheme.clone()
    }

    /// The authority of the location, which may be empty.
    pub fn authority(&self) -> (authority: String)
        ensures
            authority@ == self@.authority,
    {
        self.authority.clone()
    }

    /// The path of the location.
    pub fn path(&self) -> (path: String)
        ensures
            path@ == self@.path,
    {
        self.path.clone()
    }

    /// The path of the location.
    pub fn path_ref(&self) -> (path: &String)
        ensures
            path@ == self@.path,
    {
        &self.path
    }

    /// The part of the path behind its last `/`; the whole path where it has
    /// none.
    pub fn last_path_part(&self) -> (part: String)
        ensures
            part@ == self@.path.subrange(last_part_start(self@.path), self@.path.len() as int),
    {
        let chars = chars_of(self.path.as_str());
        let mut start: usize = chars.len();
        assert(chars@.take(start as int) =~= chars@);
        while start > 0 && chars[start - 1] != '/'
            invariant
                start <= chars@.len(),
                last_part_start(chars@) == last_part_start(chars@.take(start as int)),
            decreases start,
        {
            proof {
                assert(chars@.take(start as int).drop_last() =~= chars@.take(start - 1));
            }
            start -= 1;
        }
        proof {
            assert(chars@.take(chars@.len() as int) =~= chars@);
            if start > 0 {
                assert(chars@.take(start as int).last() == '/');
            }
        }
        String::from_str(self.path.as_str().substring_char(start, chars.len()))
    }

    /// The location without the slashes at the end of its path.
    pub fn remove_trailing_slash(&self) -> (uri: URI)
        ensures
            uri@ == (UriView {
                path: self@.path.subrange(0, trimmed_len(self@.path)),
                ..self@
            }),
    {
        let chars = chars_of(self.path.as_str());
        let mut end: usize = chars.len();
        assert(chars@.take(end as int) =~= chars@);
        while end > 0 && chars[end - 1] == '/'
            invariant
                end <= chars@.len(),
                trimmed_len(chars@) == trimmed_len(chars@.take(end as int)),
            decreases end,
        {
            proof {
                assert(chars@.take(end as int).drop_last() =~= chars@.take(end - 1));
            }
            end -= 1;
        }
        proof {
            assert(chars@.take(chars@.len() as int) =~= chars@);
            if end > 0 {
                assert(chars@.take(end as int).last() != '/');
            }
        }
        URI {
            scheme: self.scheme.clone(),
            authority: self.authority.clone(),
            path: String::from_str(self.path.as_str().substring_char(0, end)),
        }
    }

    /// The location with `path` added to its path as one more part.
    pub fn join(&self, path: &str) -> (uri: URI)
        ensures
            uri@ == (UriView { path: joined(self@.path, path@), ..self@ }),
    {
        proof {
            reveal_strlit("/");
        }
        let new_path = if ends_with(self.path.as_str(), "/") {
            self.path.clone().concat(path)
        } else {
            self.path.clone().concat("/").concat(path)
        };
        assert("/"@ =~= seq!['/']);
        URI { scheme: self.scheme.clone(), authority: self.authority.clone(), path: new_path }
    }

    /// The text of a location: the URI of its parts, without an authority
    /// where that is empty; or, where a part is none that a URI can have, a
    /// note that names the first such part.
    pub open spec fn text_of(uri: UriView) -> Seq<char> {
        if !scheme_valid(uri.scheme) {
            "<INVALID_URI_SCHEME:"@ + uri.scheme + ">"@
        } else if uri.authority.len() > 0 && !authority_valid(uri.authority) {
            "<INVALID_URI_AUTHORITY:"@ + uri.authority + ">"@
        } else if !path_valid(uri.path) {
            "<INVALID_URI_PATH:"@ + uri.path + ">"@
        } else {
            uri_text(
                uri.scheme,
                if uri.authority.len() > 0 {
                    Some(uri.authority)
                } else {
                    None
                },
                uri.path,
            )
        }
    }

    /// The location as text.
    pub fn to_string(&self) -> (text: String)
        ensures
            text@ == Self::text_of(self@),
    {
        if !is_scheme(self.scheme.as_str()) {
            return String::from_str("<INVALID_URI_SCHEME:").concat(self.scheme.as_str()).concat(
                ">",
            );
        }
        let authority: Option<&str> = if self.authority.as_str().is_empty() {
            None
        } else {
            if !is_authority(self.authority.as_str()) {
                return String::from_str("<INVALID_URI_AUTHORITY:").concat(
                    self.authority.as_str(),
                ).concat(">");
            }
            Some(self.authority.as_str())
        };
        if !is_path(self.path.as_str()) {
            return String::from_str("<INVALID_URI_PATH:").concat(self.path.as_str()).concat(">");
        }
        compose_uri(self.scheme.as_str(), authority, self.path.as_str())
    }

    /// The kind of storage that a scheme names.
    pub open spec fn type_of(scheme: Seq<char>) -> URIType {
        if scheme == "azure"@ {
            URIType::Azure
        } else if scheme == "file"@ {
            URIType::File
        } else if scheme == "gcs"@ || scheme == "gs"@ {
            URIType::Gcs
        } else if scheme == "hdfs"@ {
            URIType::Hdfs
        } else if scheme == "mem"@ {
            URIType::Mem
        } else if scheme == "tiledb"@ {
            URIType::TileDB
        } else {
            URIType::Unknown
        }
    }

    /// The kind of storage that the location lies in.
    pub fn uri_type(&self) -> (kind: URIType)
        ensures
            kind == Self::type_of(self@.scheme),
    {
        if self.scheme == String::from_str("azure") {
            URIType::Azure
        } else if self.scheme == String::from_str("file") {
            URIType::File
        } else if self.scheme == String::from_str("gcs") || self.scheme == String::from_str("gs") {
            URIType::Gcs
        } else if self.scheme == String::from_str("hdfs") {
            URIType::Hdfs
        } else if self.scheme == String::from_str("mem") {
            URIType::Mem
        } else if self.scheme == String::from_str("tiledb") {
            URIType::TileDB
        } else {
            URIType::Unknown
        }
    }
}

/// Whether `s` holds the mark `://`.
pub fn contains_scheme_mark(s: &str) -> (b: bool)
    ensures
        b == has_scheme_mark(s@),
{
    let chars = chars_of(s);
    if chars.len() < 3 {
        return false;
    }
    let last: usize = chars.len() - 3;
    let mut i: usize = 0;
    while i <= last
        invariant
            i <= last + 1,
            chars@ == s@,
            last + 3 == chars@.len(),
            last + 3 <= usize::MAX,
            forall|j: int| 0 <= j < i ==> !mark_at(chars@, j),
        decreases last + 1 - i,
    {
        if chars[i] == ':' && chars[i + 1] == '/' && chars[i + 2] == '/' {
            assert(mark_at(chars@, i as int));
            return true;
        }
        i += 1;
    }
    false
}

/// The path that `path` names, seen from the directory `cwd`.
pub fn resolve(cwd: &str, path: &str) -> (full: String)
    ensures
        full@ == resolved(cwd@, path@),
{
    proof {
        reveal_strlit("/");
    }
    assert("/"@ =~= seq!['/']);
    let chars = chars_of(path);
    if chars.len() > 0 && chars[0] == '/' {
        return String::from_str(path);
    }
    let base = chars_of(cwd);
    if base.len() == 0 || base[base.len() - 1] == '/' {
        String::from_str(cwd).concat(path)
    } else {
        String::from_str(cwd).concat("/").concat(path)
    }
}

} // verus!
