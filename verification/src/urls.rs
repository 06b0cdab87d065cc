//! URLs, as the language server protocol's URL type reads them.
use tower_lsp::lsp_types::Url;
use vstd::prelude::*;
use vstd::string::*;

use crate::text;

verus! {

/// The serialization of the URL that `Url::parse` reads from a text; none where it rejects the
/// text.
pub uninterp spec fn parsed_url(s: Seq<char>) -> Option<Seq<char>>;

/// `Url::parse`, and `to_string` on what it returns: the parsing and serialization that the
/// URL standard prescribes for the text, a function of the text alone.
#[verifier::external_body]
pub(crate) fn parse_url(s: &str) -> (r: Option<String>)
    ensures
        r.deep_view() == parsed_url(s@),
{
    match Url::parse(s) {
        Ok(url) => Some(url.to_string()),
        Err(_) => None,
    }
}

/// The path of the URL that `Url::parse` reads from a text, as it stands in the URL; none where
/// it rejects the text.
pub uninterp spec fn url_path(s: Seq<char>) -> Option<Seq<char>>;

/// `Url::path` on the URL that `Url::parse` reads from a text: a function of the text alone.
#[verifier::external_body]
pub(crate) fn path_in_url(url: &str) -> (r: Option<String>)
    ensures
        r.deep_view() == url_path(url@),
        (r is Some) == (parsed_url(url@) is Some),
{
    match Url::parse(url) {
        Ok(parsed) => Some(parsed.path().to_string()),
        Err(_) => None,
    }
}

/// Whether a character stands for itself in paths and in URLs, on every system.
pub open spec fn plain_char(c: char) -> bool {
    'a' <= c <= 'z' || 'A' <= c <= 'Z' || '0' <= c <= '9' || c == '_' || c == '-' || c == '+' || c
        == '@' || c == '~'
}

/// Whether a path is an absolute one of plain names: slashes part them, none is empty, and the
/// dots in them stand beside plain characters.
pub open spec fn plain_path(path: Seq<char>) -> bool {
    &&& path.len() > 1
    &&& path[0] == '/'
    &&& path.last() != '/'
    &&& forall|i: int|
        0 <= i < path.len() ==> plain_char(#[trigger] path[i]) || (path[i] == '.' && i > 0 && (
        plain_char(path[i - 1]) || (i + 1 < path.len() && plain_char(path[i + 1])))) || (path[i]
            == '/' && (i > 0 ==> path[i - 1] != '/'))
}

/// Whether a path is relative on every system: it begins with no separator, and no colon ends
/// the name of a drive.
pub open spec fn relative_path(path: Seq<char>) -> bool {
    path.len() == 0 || (path[0] != '/' && path[0] != '\\' && !path.contains(':'))
}

/// Whether a URL that may be missing is one of the scheme `file`.
pub open spec fn file_url(url: Option<Seq<char>>) -> bool {
    match url {
        Some(u) => text::starts_with(u, "file://"@),
        None => true,
    }
}

/// Whether a URL that may be missing may be that of a path: a relative path has none, and a
/// plain one has that in which it stands as it is, if it has any.
pub open spec fn url_fits(path: Seq<char>, url: Option<Seq<char>>) -> bool {
    &&& file_url(url)
    &&& relative_path(path) ==> url is None
    &&& plain_path(path) ==> url is None || url == Some("file://"@ + path)
}

/// Whether each of some URLs may be that of the path at the same place.
pub open spec fn urls_fit(paths: Seq<Seq<char>>, urls: Seq<Option<Seq<char>>>) -> bool {
    &&& urls.len() == paths.len()
    &&& forall|i: int| 0 <= i < urls.len() ==> url_fits(paths[i], #[trigger] urls[i])
}

/// Whether a path may be that of a URL: a text that is no URL has none, and a plain one that
/// stands in a URL of the scheme `file` is its path, if it has any. One system writes the scheme
/// before the path.
pub open spec fn path_fits(url: Seq<char>, path: Option<Seq<char>>) -> bool {
    &&& parsed_url(url) is None ==> path is None
    &&& match text::prefix_stripped(url, "file://"@) {
        Some(p) => plain_path(p) ==> path is None || path == Some(p) || path == Some(
            "file:"@ + p,
        ),
        None => true,
    }
}

/// A plain path that is written as a URL and read back is the path that it was; one system
/// writes the scheme before it.
pub proof fn law_plain_paths_come_back(path: Seq<char>, url: Seq<char>, back: Seq<char>)
    requires
        plain_path(path),
        url_fits(path, Some(url)),
        path_fits(url, Some(back)),
    ensures
        back == path || back == "file:"@ + path,
{
    let scheme = "file://"@;
    assert(url.take(scheme.len() as int) =~= scheme);
    assert(url.skip(scheme.len() as int) =~= path);
}

/// Two plain paths that have the same URL are the same.
pub proof fn law_plain_paths_differ(a: Seq<char>, b: Seq<char>, url: Seq<char>)
    requires
        plain_path(a),
        plain_path(b),
        url_fits(a, Some(url)),
        url_fits(b, Some(url)),
    ensures
        a == b,
{
    let scheme = "file://"@;
    assert(url.skip(scheme.len() as int) =~= a);
    assert(url.skip(scheme.len() as int) =~= b);
}

/// `Url::from_file_path`, and `to_string` on what it returns: a URL of the scheme `file`, where
/// the path is an absolute one. Systems whose paths begin with a slash write an absolute path of
/// plain names into the URL as it is; a system that asks for a drive gives it none. A path is
/// relative on all of them that begins with no separator and holds no colon. Of other paths
/// nothing more is said: which of them are absolute, and how they are split, depends on the
/// system that the program runs on.
#[verifier::external_body]
pub(crate) fn url_of_path(path: &str) -> (r: Option<String>)
    ensures
        url_fits(path@, r.deep_view()),
{
    match Url::from_file_path(path) {
        Ok(url) => Some(url.to_string()),
        Err(()) => None,
    }
}

/// `Url::to_file_path` on the URL that `Url::parse` reads from a text: a text that is no URL has
/// no path. Of a URL of the scheme `file` that holds an absolute path of plain names, it is that
/// path, on one system with `file:` before it; a system that asks for a drive gives none. Of
/// other URLs nothing more is said: which of them have a path, and how it is written, depends on
/// the system that the program runs on.
#[verifier::external_body]
pub(crate) fn path_of_url(url: &str) -> (r: Option<String>)
    ensures
        path_fits(url@, r.deep_view()),
{
    match Url::parse(url).ok().and_then(|u| u.to_file_path().ok()) {
        Some(path) => Some(path.to_string_lossy().to_string()),
        None => None,
    }
}

} // verus!
