use vstd::prelude::*;
use vstd::string::*;
use crate::error::Error;

verus! {

/// The scheme of the endpoint that requests go to.
#[derive(Clone, Copy, Debug, PartialEq, Eq, Structural)]
pub enum Scheme {
    HTTPS,
    HTTP,
}

/// How a scheme is written in a URL.
pub open spec fn scheme_text(s: Scheme) -> Seq<char> {
    match s {
        Scheme::HTTPS => seq!['h', 't', 't', 'p', 's'],
        Scheme::HTTP => seq!['h', 't', 't', 'p'],
    }
}

impl Scheme {
    /// The scheme as it is written in a URL.
    pub fn as_str(&self) -> (r: &'static str)
        ensures
            r@ == scheme_text(*self),
    {
        proof {
            reveal_strlit("https");
            reveal_strlit("http");
        }
        match self {
            Scheme::HTTPS => "https",
            Scheme::HTTP => "http",
        }
    }
}

/// The segment that separates the database from the documents in an absolute name.
pub open spec fn marker() -> Seq<char> {
    seq!['(', 'd', 'e', 'f', 'a', 'u', 'l', 't', ')', '/', 'd', 'o', 'c', 'u', 'm', 'e', 'n', 't', 's', '/']
}

/// `t` occurs in `s` at position `i`.
pub open spec fn occurs_at(s: Seq<char>, t: Seq<char>, i: int) -> bool {
    0 <= i && i + t.len() <= s.len() && s.subrange(i, i + t.len()) == t
}

/// `t` occurs somewhere in `s`.
pub open spec fn contains(s: Seq<char>, t: Seq<char>) -> bool {
    exists|i: int| occurs_at(s, t, i)
}

/// `i` is the first position of the marker in `s`.
pub open spec fn first_marker_at(s: Seq<char>, i: int) -> bool {
    &&& occurs_at(s, marker(), i)
    &&& forall|j: int| 0 <= j < i ==> !occurs_at(s, marker(), j)
}

/// The relative path of an absolute name: what follows its first marker, if it has one.
pub open spec fn relative_of(s: Seq<char>) -> Option<Seq<char>> {
    if exists|i: int| first_marker_at(s, i) {
        let i = choose|i: int| first_marker_at(s, i);
        Some(s.subrange(i + 20, s.len() as int))
    } else {
        None
    }
}

/// `projects/`
pub open spec fn projects_prefix() -> Seq<char> {
    seq!['p', 'r', 'o', 'j', 'e', 'c', 't', 's', '/']
}

/// `/databases/(default)/documents/`
pub open spec fn databases_infix() -> Seq<char> {
    seq!['/', 'd', 'a', 't', 'a', 'b', 'a', 's', 'e', 's', '/'] + marker()
}

/// The absolute name of `relative` in the default database of `project`.
pub open spec fn absolute_name(project: Seq<char>, relative: Seq<char>) -> Seq<char> {
    projects_prefix() + project + databases_infix() + relative
}

proof fn lemma_first_marker_unique(s: Seq<char>, i: int, j: int)
    requires
        first_marker_at(s, i),
        first_marker_at(s, j),
    ensures
        i == j,
{
}

fn marker_at(path: &str, n: usize, i: usize) -> (r: bool)
    requires
        n == path@.len(),
        i + 20 <= n,
    ensures
        r == occurs_at(path@, marker(), i as int),
{
    let m = "(default)/documents/";
    proof {
        reveal_strlit("(default)/documents/");
        assert(m@ =~= marker());
    }
    let mut k: usize = 0;
    while k < 20
        invariant
            n == path@.len(),
            i + 20 <= n,
            m@ == marker(),
            k <= 20,
            forall|q: int| 0 <= q < k ==> path@[i + q] == marker()[q],
        decreases 20 - k,
    {
        if path.get_char(i + k) != m.get_char(k) {
            proof {
                assert(path@.subrange(i as int, i + 20)[k as int] != marker()[k as int]);
            }
            return false;
        }
        k = k + 1;
    }
    assert(path@.subrange(i as int, i + 20) =~= marker());
    true
}

/// Converts an absolute name such as
/// `projects/{PROJECT_ID}/databases/(default)/documents/my_collection/document_id`
/// into the relative path `my_collection/document_id`: everything after the
/// first `(default)/documents/` segment. A name without that segment is refused.
pub fn abs_to_rel(path: &str) -> (r: Result<&str, Error>)
    ensures
        match r {
            Ok(t) => relative_of(path@) == Some(t@),
            Err(e) => e == Error::PathFormat && relative_of(path@) is None && !contains(
                path@,
                marker(),
            ),
        },
{
    let n = path.unicode_len();
    if n < 20 {
        return Err(Error::PathFormat);
    }
    let mut i: usize = 0;
    while i <= n - 20
        invariant
            n == path@.len(),
            20 <= n,
            i + 19 <= n,
            forall|j: int| 0 <= j < i ==> !occurs_at(path@, marker(), j),
        decreases n - i,
    {
        if marker_at(path, n, i) {
            let t = path.substring_char(i + 20, n);
            proof {
                assert(first_marker_at(path@, i as int));
                let c = choose|c: int| first_marker_at(path@, c);
                lemma_first_marker_unique(path@, i as int, c);
            }
            return Ok(t);
        }
        i = i + 1;
    }
    Err(Error::PathFormat)
}

/// Composes the absolute name
/// `projects/{project_id}/databases/(default)/documents/{relative}`.
/// An empty project id is refused.
pub fn rel_to_abs(project_id: &str, relative: &str) -> (r: Result<String, Error>)
    ensures
        match r {
            Ok(t) => project_id@.len() > 0 && t@ == absolute_name(project_id@, relative@),
            Err(e) => e == Error::EmptyProjectId && project_id@.len() == 0,
        },
{
    if project_id.unicode_len() == 0 {
        return Err(Error::EmptyProjectId);
    }
    proof {
        reveal_strlit("projects/");
        reveal_strlit("/databases/(default)/documents/");
        assert("/databases/(default)/documents/"@ =~= databases_infix());
    }
    let mut t = String::from_str("projects/");
    t.append(project_id);
    t.append("/databases/(default)/documents/");
    t.append(relative);
    proof {
        assert(t@ =~= absolute_name(project_id@, relative@));
    }
    Ok(t)
}

proof fn lemma_prefix_has_no_paren(j: int)
    requires
        0 <= j < 9,
    ensures
        projects_prefix()[j] != '(',
{
    let a = projects_prefix();
    if j == 0 {} else if j == 1 {} else if j == 2 {} else if j == 3 {} else if j == 4 {
    } else if j == 5 {} else if j == 6 {} else if j == 7 {} else {}
}

proof fn lemma_infix_start_has_no_paren(j: int)
    requires
        0 <= j < 11,
    ensures
        databases_infix()[j] != '(',
{
    let b = databases_infix();
    if j == 0 {} else if j == 1 {} else if j == 2 {} else if j == 3 {} else if j == 4 {
    } else if j == 5 {} else if j == 6 {} else if j == 7 {} else if j == 8 {
    } else if j == 9 {} else {}
}

proof fn lemma_marker_against_infix(m: int)
    requires
        1 <= m <= 18,
    ensures
        m != 9 ==> marker()[m] != '/',
        m == 9 ==> marker()[11] != databases_infix()[2],
{
    let c = marker();
    let b = databases_infix();
    if m == 1 {} else if m == 2 {} else if m == 3 {} else if m == 4 {} else if m == 5 {
    } else if m == 6 {} else if m == 7 {} else if m == 8 {} else if m == 9 {
    } else if m == 10 {} else if m == 11 {} else if m == 12 {} else if m == 13 {
    } else if m == 14 {} else if m == 15 {} else if m == 16 {} else if m == 17 {} else {}
}

proof fn lemma_no_marker_before(project: Seq<char>, relative: Seq<char>, j: int)
    requires
        !contains(project.push('/'), marker()),
        0 <= j < 20 + project.len(),
    ensures
        !occurs_at(absolute_name(project, relative), marker(), j),
{
    let s = absolute_name(project, relative);
    let pl: int = project.len() as int;
    let a = projects_prefix();
    let b = databases_infix();
    let ps = project.push('/');
    assert(s.len() == 40 + pl + relative.len());
    if occurs_at(s, marker(), j) {
        let w = s.subrange(j, j + 20);
        assert(w[0] == s[j]);
        if j < 9 {
            assert(s[j] == a[j]);
            lemma_prefix_has_no_paren(j);
        } else if j < 9 + pl {
            if j + 20 <= 10 + pl {
                assert(ps.subrange(j - 9, j + 11) =~= marker()) by {
                    assert forall|q: int| 0 <= q < 20 implies ps.subrange(j - 9, j + 11)[q]
                        == marker()[q] by {
                        assert(w[q] == s[j + q]);
                        assert(s[j + q] == ps[j - 9 + q]);
                    }
                }
                assert(occurs_at(ps, marker(), j - 9));
            } else {
                let m: int = 9 + pl - j;
                lemma_marker_against_infix(m);
                if m == 9 {
                    assert(w[11] == s[9 + pl + 2]);
                    assert(s[9 + pl + 2] == b[2]);
                } else {
                    assert(w[m] == s[9 + pl]);
                    assert(s[9 + pl] == b[0]);
                }
            }
        } else {
            assert(s[j] == b[j - 9 - pl]);
            lemma_infix_start_has_no_paren(j - 9 - pl);
        }
    }
}

/// Turning a relative path into an absolute name and back gives the relative
/// path again, whatever the path holds, for every project id in which
/// `(default)/documents/` does not occur once a `/` is appended to it.
pub proof fn lemma_relative_round_trip(project: Seq<char>, relative: Seq<char>)
    requires
        !contains(project.push('/'), marker()),
    ensures
        relative_of(absolute_name(project, relative)) == Some(relative),
{
    let s = absolute_name(project, relative);
    let k: int = 20 + project.len() as int;
    assert(s.subrange(k, k + 20) =~= marker());
    assert forall|j: int| 0 <= j < k implies !occurs_at(s, marker(), j) by {
        lemma_no_marker_before(project, relative, j);
    }
    assert(first_marker_at(s, k));
    let c = choose|c: int| first_marker_at(s, c);
    lemma_first_marker_unique(s, k, c);
    assert(s.subrange(k + 20, s.len() as int) =~= relative);
}

/// Where requests go: the scheme and the host.
#[derive(Clone, Debug)]
pub struct Endpoint {
    pub scheme: Scheme,
    pub host: String,
}

/// The host of the production service.
pub open spec fn production_host() -> Seq<char> {
    seq!['f', 'i', 'r', 'e', 's', 't', 'o', 'r', 'e', '.', 'g', 'o', 'o', 'g', 'l', 'e', 'a', 'p', 'i', 's', '.', 'c', 'o', 'm']
}

/// `://`
pub open spec fn scheme_separator() -> Seq<char> {
    seq![':', '/', '/']
}

/// `/v1/`
pub open spec fn version_segment() -> Seq<char> {
    seq!['/', 'v', '1', '/']
}

/// `:runQuery`
pub open spec fn run_query_suffix() -> Seq<char> {
    seq![':', 'r', 'u', 'n', 'Q', 'u', 'e', 'r', 'y']
}

/// The base URL of an endpoint, such as `https://firestore.googleapis.com`.
pub open spec fn base_url_of(e: Endpoint) -> Seq<char> {
    scheme_text(e.scheme) + scheme_separator() + e.host@
}

/// `project`'s documents root without the trailing slash:
/// `projects/{project}/databases/(default)/documents`.
pub open spec fn documents_root(project: Seq<char>) -> Seq<char> {
    projects_prefix() + project + databases_infix().subrange(0, 30)
}

impl Endpoint {
    /// The endpoint chosen by an emulator host setting: without one, the
    /// production service over https; with one, that host over http.
    pub fn from_emulator_host(emulator_host: Option<String>) -> (r: Endpoint)
        ensures
            match emulator_host {
                None => r.scheme == Scheme::HTTPS && r.host@ == production_host(),
                Some(h) => r.scheme == Scheme::HTTP && r.host@ == h@,
            },
    {
        match emulator_host {
            None => {
                proof {
                    reveal_strlit("firestore.googleapis.com");
                    assert("firestore.googleapis.com"@ =~= production_host());
                }
                Endpoint { scheme: Scheme::HTTPS, host: String::from_str("firestore.googleapis.com") }
            },
            Some(h) => Endpoint { scheme: Scheme::HTTP, host: h },
        }
    }
}

/// The base URL of the endpoint: `{scheme}://{host}`.
pub fn firebase_base_url(endpoint: &Endpoint) -> (r: String)
    ensures
        r@ == base_url_of(*endpoint),
{
    proof {
        reveal_strlit("://");
        assert("://"@ =~= scheme_separator());
    }
    let mut r = String::from_str(endpoint.scheme.as_str());
    r.append("://");
    r.append(endpoint.host.as_str());
    r
}

/// The URL of the structured-query operation of `project`:
/// `{base}/v1/projects/{project}/databases/(default)/documents:runQuery`.
pub fn firebase_url_query(endpoint: &Endpoint, project: &str) -> (r: String)
    ensures
        r@ == base_url_of(*endpoint) + version_segment() + documents_root(project@)
            + run_query_suffix(),
{
    proof {
        reveal_strlit("/v1/projects/");
        reveal_strlit("/databases/(default)/documents:runQuery");
        assert("/v1/projects/"@ =~= version_segment() + projects_prefix());
        assert("/databases/(default)/documents:runQuery"@ =~= databases_infix().subrange(0, 30)
            + run_query_suffix());
    }
    let mut r = firebase_base_url(endpoint);
    r.append("/v1/projects/");
    r.append(project);
    r.append("/databases/(default)/documents:runQuery");
    proof {
        assert(r@ =~= base_url_of(*endpoint) + version_segment() + documents_root(project@)
            + run_query_suffix());
    }
    r
}

/// The URL of a resource given by its absolute name: `{base}/v1/{name}`.
pub fn firebase_url_base(endpoint: &Endpoint, name: &str) -> (r: String)
    ensures
        r@ == base_url_of(*endpoint) + version_segment() + name@,
{
    proof {
        reveal_strlit("/v1/");
        assert("/v1/"@ =~= version_segment());
    }
    let mut r = firebase_base_url(endpoint);
    r.append("/v1/");
    r.append(name);
    r
}

/// The URL of document `id` in collection `path` of `project`:
/// `{base}/v1/projects/{project}/databases/(default)/documents/{path}/{id}`.
pub fn firebase_url_extended(endpoint: &Endpoint, project: &str, path: &str, id: &str) -> (r:
    String)
    ensures
        r@ == base_url_of(*endpoint) + version_segment() + absolute_name(
            project@,
            path@ + seq!['/'] + id@,
        ),
{
    proof {
        reveal_strlit("/v1/projects/");
        reveal_strlit("/databases/(default)/documents/");
        reveal_strlit("/");
        assert("/v1/projects/"@ =~= version_segment() + projects_prefix());
        assert("/databases/(default)/documents/"@ =~= databases_infix());
    }
    let mut r = firebase_base_url(endpoint);
    r.append("/v1/projects/");
    r.append(project);
    r.append("/databases/(default)/documents/");
    r.append(path);
    r.append("/");
    r.append(id);
    proof {
        assert(r@ =~= base_url_of(*endpoint) + version_segment() + absolute_name(
            project@,
            path@ + seq!['/'] + id@,
        ));
    }
    r
}

/// The URL of collection `path` of `project`, ready for query parameters:
/// `{base}/v1/projects/{project}/databases/(default)/documents/{path}?`.
pub fn firebase_url(endpoint: &Endpoint, project: &str, path: &str) -> (r: String)
    ensures
        r@ == base_url_of(*endpoint) + version_segment() + absolute_name(project@, path@)
            + seq!['?'],
{
    proof {
        reveal_strlit("/v1/projects/");
        reveal_strlit("/databases/(default)/documents/");
        reveal_strlit("?");
        assert("/v1/projects/"@ =~= version_segment() + projects_prefix());
        assert("/databases/(default)/documents/"@ =~= databases_infix());
    }
    let mut r = firebase_base_url(endpoint);
    r.append("/v1/projects/");
    r.append(project);
    r.append("/databases/(default)/documents/");
    r.append(path);
    r.append("?");
    proof {
        assert(r@ =~= base_url_of(*endpoint) + version_segment() + absolute_name(project@, path@)
            + seq!['?']);
    }
    r
}

/// The URL that a read of document `document_id` in collection `path` of
/// `project_id` fetches: the URL of the document's absolute name, composed by
/// `rel_to_abs`. An empty project id is refused.
pub fn read(endpoint: &Endpoint, project_id: &str, path: &str, document_id: &str) -> (r: Result<
    String,
    Error,
>)
    ensures
        match r {
            Ok(u) => project_id@.len() > 0 && u@ == base_url_of(*endpoint) + version_segment()
                + absolute_name(project_id@, path@ + seq!['/'] + document_id@),
            Err(e) => e == Error::EmptyProjectId && project_id@.len() == 0,
        },
{
    proof {
        reveal_strlit("/");
    }
    let mut relative = String::from_str(path);
    relative.append("/");
    relative.append(document_id);
    let name = rel_to_abs(project_id, relative.as_str())?;
    Ok(firebase_url_base(endpoint, name.as_str()))
}

} // verus!
