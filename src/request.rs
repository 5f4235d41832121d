//! Validation of the request line: UTF-8 text, an absolute URL with scheme
//! `gemini`, a path split into plain segments, and a percent-decoded query.

use vstd::prelude::*;
use vstd::utf8::{decode_utf8, valid_utf8};
use crate::error::RequestError;
use crate::response::opt_view;
use crate::text::{chars_of, lemma_split_on_nonempty, same_chars, split_on, string_of, views};

verus! {

/// The error of `url::Url::parse`; it is only told apart from success.
#[verifier::external_type_specification]
#[verifier::external_body]
pub struct ExParseError(url::ParseError);

/// What `url::Url::parse` makes of a line: `None` when it fails, otherwise the
/// URL's scheme, path and query as `Url` reports them.
pub uninterp spec fn parsed_url(line: Seq<char>) -> Option<(Seq<char>, Seq<char>, Option<Seq<char>>)>;

/// What `percent_encoding` makes of a query: its percent-decoded bytes read as
/// UTF-8, or `None` when they are not UTF-8.
pub uninterp spec fn percent_decoded(query: Seq<char>) -> Option<Seq<char>>;

/// The parts of a parsed URL that the server reads.
pub struct UrlParts {
    pub scheme: String,
    pub path: String,
    pub query: Option<String>,
}

/// A validated request: the path segments under the content root, and the
/// decoded query if the URL has one.
pub struct Request {
    pub segments: Vec<String>,
    pub query: Option<String>,
}

impl Request {
    pub open spec fn segs(&self) -> Seq<Seq<char>> {
        views(self.segments@)
    }
}

/// Relies on `String::from_utf8`: it succeeds exactly on valid UTF-8 and then
/// holds the decoded characters.
#[verifier::external_body]
fn text_of(bytes: Vec<u8>) -> (r: Option<String>)
    ensures
        r is Some <==> valid_utf8(bytes@),
        r is Some ==> r->0@ == decode_utf8(bytes@),
{
    String::from_utf8(bytes).ok()
}

/// Relies on `url::Url::parse`, read back through `Url::scheme`, `Url::path`
/// and `Url::query`.
#[verifier::external_body]
fn parse_absolute(line: &str) -> (r: Result<UrlParts, url::ParseError>)
    ensures
        r is Ok <==> parsed_url(line@) is Some,
        r is Ok ==> parsed_url(line@) == Some(
            (r->Ok_0.scheme@, r->Ok_0.path@, opt_view(r->Ok_0.query)),
        ),
{
    let url = url::Url::parse(line)?;
    Ok(UrlParts {
        scheme: url.scheme().to_string(),
        path: url.path().to_string(),
        query: url.query().map(|q| q.to_string()),
    })
}

/// Relies on `percent_encoding::percent_decode_str` and `PercentDecode::decode_utf8`.
#[verifier::external_body]
fn decode_query(query: &str) -> (r: Option<String>)
    ensures
        opt_view(r) == percent_decoded(query@),
{
    percent_encoding::percent_decode_str(query).decode_utf8().ok().map(|s| s.into_owned())
}

/// Parses a request line as an absolute URL.
pub fn parse_url(request: &str) -> (r: Result<UrlParts, RequestError>)
    ensures
        r is Ok <==> parsed_url(request@) is Some,
        r is Ok ==> parsed_url(request@) == Some(
            (r->Ok_0.scheme@, r->Ok_0.path@, opt_view(r->Ok_0.query)),
        ),
        r is Err ==> r->Err_0 == RequestError::UrlParseError,
{
    match parse_absolute(request) {
        Ok(parts) => Ok(parts),
        Err(_) => Err(RequestError::UrlParseError),
    }
}

/// The segment that names the parent directory.
pub open spec fn parent_segment() -> Seq<char> {
    seq!['.', '.']
}

/// A segment that names no step at all: empty, or the current directory.
pub open spec fn is_idle_segment(s: Seq<char>) -> bool {
    s.len() == 0 || s == seq!['.']
}

/// A segment that names one entry of a directory: not empty, neither `.` nor
/// `..`, and free of `/`.
pub open spec fn is_plain_name(s: Seq<char>) -> bool {
    &&& !is_idle_segment(s)
    &&& s != parent_segment()
    &&& !s.contains('/')
}

/// The segments that name entries, in order.
pub open spec fn kept(segs: Seq<Seq<char>>) -> Seq<Seq<char>>
    decreases segs.len(),
{
    if segs.len() == 0 {
        segs
    } else {
        let k = kept(segs.drop_last());
        if is_idle_segment(segs.last()) {
            k
        } else {
            k.push(segs.last())
        }
    }
}

/// The raw segments of a URL path: what follows the leading `/`, split on
/// `/`; none where the path does not start with `/`.
pub open spec fn raw_segments(path: Seq<char>) -> Seq<Seq<char>> {
    if path.len() > 0 && path[0] == '/' {
        split_on(path.skip(1), '/')
    } else {
        Seq::<Seq<char>>::empty()
    }
}

/// The segments of a URL path below the content root; a `..` anywhere is refused.
pub open spec fn target_segments(path: Seq<char>) -> Result<Seq<Seq<char>>, RequestError> {
    if raw_segments(path).contains(parent_segment()) {
        Err(RequestError::PathTraversal)
    } else {
        Ok(kept(raw_segments(path)))
    }
}

/// The one scheme served.
pub open spec fn gemini_scheme() -> Seq<char> {
    seq!['g', 'e', 'm', 'i', 'n', 'i']
}

/// Validation of a parsed URL's scheme and path.
pub open spec fn validated(scheme: Seq<char>, path: Seq<char>) -> Result<Seq<Seq<char>>, RequestError> {
    if scheme != gemini_scheme() {
        Err(RequestError::UnsupportedScheme)
    } else {
        target_segments(path)
    }
}

proof fn lemma_contains_push(s: Seq<Seq<char>>, y: Seq<char>, x: Seq<char>)
    ensures
        s.push(y).contains(x) <==> (s.contains(x) || x == y),
{
    if s.contains(x) {
        let i = choose|i: int| 0 <= i < s.len() && s[i] == x;
        assert(s.push(y)[i] == x);
    }
    if x == y {
        assert(s.push(y)[s.len() as int] == x);
    }
    if s.push(y).contains(x) {
        let i = choose|i: int| 0 <= i < s.len() + 1 && s.push(y)[i] == x;
        if i < s.len() {
            assert(s[i] == x);
        }
    }
}

/// Whether `cur` is the segment `..`.
fn is_parent(cur: &Vec<char>) -> (r: bool)
    ensures
        r == (cur@ == parent_segment()),
{
    let r = cur.len() == 2 && cur[0] == '.' && cur[1] == '.';
    proof {
        if cur.len() == 2 {
            if r {
                assert(cur@ =~= parent_segment());
            } else {
                assert(cur@ != parent_segment()) by {
                    if cur@ == parent_segment() {
                        assert(cur@[0] == '.' && cur@[1] == '.');
                    }
                }
            }
        }
    }
    r
}

/// Whether `cur` is empty or the segment `.`.
fn is_idle(cur: &Vec<char>) -> (r: bool)
    ensures
        r == is_idle_segment(cur@),
{
    let r = cur.len() == 0 || (cur.len() == 1 && cur[0] == '.');
    proof {
        if cur.len() == 1 {
            if r {
                assert(cur@ =~= seq!['.']);
            } else {
                assert(cur@ != seq!['.']) by {
                    if cur@ == seq!['.'] {
                        assert(cur@[0] == '.');
                    }
                }
            }
        }
    }
    r
}

/// Splits a URL path into the segments below the content root.
pub fn path_segments(path: &str) -> (r: Result<Vec<String>, RequestError>)
    ensures
        match target_segments(path@) {
            Ok(segs) => r is Ok && views(r->Ok_0@) == segs,
            Err(e) => r is Err && r->Err_0 == e,
        },
{
    let p = chars_of(path);
    let mut out: Vec<String> = Vec::new();
    if p.len() == 0 || p[0] != '/' {
        proof {
            assert(views(out@) =~= Seq::<Seq<char>>::empty());
            assert(!Seq::<Seq<char>>::empty().contains(parent_segment()));
        }
        return Ok(out);
    }
    let ghost rest = p@.skip(1);
    let mut cur: Vec<char> = Vec::new();
    let mut bad = false;
    let mut i: usize = 1;
    proof {
        assert(rest.take(0) =~= Seq::<char>::empty());
        assert(views(out@) =~= Seq::<Seq<char>>::empty());
        assert(split_on(rest.take(0), '/').drop_last() =~= Seq::<Seq<char>>::empty());
    }
    while i < p.len()
        invariant
            1 <= i <= p.len(),
            p@ == path@,
            rest == p@.skip(1),
            cur@ == split_on(rest.take(i - 1), '/').last(),
            bad == split_on(rest.take(i - 1), '/').drop_last().contains(parent_segment()),
            !bad ==> views(out@) == kept(split_on(rest.take(i - 1), '/').drop_last()),
        decreases p.len() - i,
    {
        let ghost done = split_on(rest.take(i - 1), '/');
        let ghost next = rest.take(i as int);
        proof {
            lemma_split_on_nonempty(rest.take(i - 1), '/');
            assert(next.drop_last() =~= rest.take(i - 1));
            assert(next.last() == p@[i as int]);
            assert(done =~= done.drop_last().push(done.last()));
        }
        let c = p[i];
        if c == '/' {
            proof {
                assert(split_on(next, '/') == done.push(Seq::<char>::empty()));
                assert(split_on(next, '/').drop_last() =~= done);
                lemma_contains_push(done.drop_last(), done.last(), parent_segment());
            }
            if is_parent(&cur) {
                bad = true;
            }
            if !bad && !is_idle(&cur) {
                let s = string_of(&cur);
                let ghost before = out@;
                out.push(s);
                proof {
                    assert(views(out@) =~= views(before).push(s@));
                }
            }
            cur = Vec::new();
            proof {
                assert(kept(done) == if is_idle_segment(done.last()) { kept(done.drop_last()) } else { kept(done.drop_last()).push(done.last()) });
            }
        } else {
            cur.push(c);
            proof {
                let d2 = done.update(done.len() - 1, done.last().push(c));
                assert(split_on(next, '/') == d2);
                assert(d2.drop_last() =~= done.drop_last());
            }
        }
        i = i + 1;
    }
    proof {
        assert(rest.take(i - 1) =~= rest);
        lemma_split_on_nonempty(rest, '/');
        let done = split_on(rest, '/');
        assert(done =~= done.drop_last().push(done.last()));
        lemma_contains_push(done.drop_last(), done.last(), parent_segment());
        assert(raw_segments(path@) == done);
    }
    if is_parent(&cur) {
        bad = true;
    }
    if bad {
        return Err(RequestError::PathTraversal);
    }
    if !is_idle(&cur) {
        let s = string_of(&cur);
        let ghost before = out@;
        out.push(s);
        proof {
            assert(views(out@) =~= views(before).push(s@));
        }
    }
    Ok(out)
}

/// Checks a parsed URL's scheme and splits its path into segments.
pub fn validate(scheme: &str, path: &str) -> (r: Result<Vec<String>, RequestError>)
    ensures
        match validated(scheme@, path@) {
            Ok(segs) => r is Ok && views(r->Ok_0@) == segs,
            Err(e) => r is Err && r->Err_0 == e,
        },
{
    let gemini: Vec<char> = vec!['g', 'e', 'm', 'i', 'n', 'i'];
    proof {
        assert(gemini@ =~= gemini_scheme());
    }
    if !same_chars(&chars_of(scheme), &gemini) {
        return Err(RequestError::UnsupportedScheme);
    }
    path_segments(path)
}

/// What a request line amounts to: its segments and decoded query, or the
/// error that rejects it.
pub open spec fn request_of(line: Seq<u8>) -> Result<(Seq<Seq<char>>, Option<Seq<char>>), RequestError> {
    if !valid_utf8(line) {
        Err(RequestError::UrlParseError)
    } else {
        match parsed_url(decode_utf8(line)) {
            None => Err(RequestError::UrlParseError),
            Some(parts) => match validated(parts.0, parts.1) {
                Err(e) => Err(e),
                Ok(segs) => match parts.2 {
                    None => Ok((segs, None)),
                    Some(q) => match percent_decoded(q) {
                        None => Err(RequestError::UrlParseError),
                        Some(d) => Ok((segs, Some(d))),
                    },
                },
            },
        }
    }
}

/// The scheme that the URL parser reads in a request line, if it reads one.
pub open spec fn line_scheme(line: Seq<u8>) -> Option<Seq<char>> {
    if !valid_utf8(line) {
        None
    } else {
        match parsed_url(decode_utf8(line)) {
            Some((scheme, _, _)) => Some(scheme),
            None => None,
        }
    }
}

/// The path that the URL parser reads in a request line, if it reads one.
pub open spec fn line_path(line: Seq<u8>) -> Option<Seq<char>> {
    if !valid_utf8(line) {
        None
    } else {
        match parsed_url(decode_utf8(line)) {
            Some((_, path, _)) => Some(path),
            None => None,
        }
    }
}

/// The segments of an accepted request line; none for a refused one.
pub open spec fn request_segments(line: Seq<u8>) -> Seq<Seq<char>> {
    match request_of(line) {
        Ok((segs, _)) => segs,
        Err(_) => Seq::<Seq<char>>::empty(),
    }
}

/// Validates a request line: UTF-8, an absolute `gemini` URL, a path without
/// `..`, and a query that percent-decodes to UTF-8.
pub fn parse_request(line: Vec<u8>) -> (r: Result<Request, RequestError>)
    ensures
        match request_of(line@) {
            Ok(v) => r is Ok && r->Ok_0.segs() == v.0 && opt_view(r->Ok_0.query) == v.1,
            Err(e) => r is Err && r->Err_0 == e,
        },
{
    let text = match text_of(line) {
        Some(t) => t,
        None => return Err(RequestError::UrlParseError),
    };
    let parts = parse_url(text.as_str())?;
    let segments = validate(parts.scheme.as_str(), parts.path.as_str())?;
    let query = match &parts.query {
        None => None,
        Some(q) => match decode_query(q.as_str()) {
            Some(d) => Some(d),
            None => return Err(RequestError::UrlParseError),
        },
    };
    Ok(Request { segments, query })
}

} // verus!
