//! Candidate-build resources: `proofstorm://candidate-build/<id>/<logs|record>`
//! with `path`, `offset` and `digest` selectors, parsed as URLs, and their
//! continuation URIs.
use crate::error::{ErrorCode, ToolError, coded_invalid_request};
use crate::text::{
    byte_len, byte_len_of, chars_of, has_prefix, parse_usize, parse_usize_chars, render_u64, split_all, split_all_exec,
    str_eq, string_of, strip_prefix_exec,
};
use vstd::prelude::*;

verus! {

broadcast use vstd::string::group_string_axioms;

#[verifier::external_type_specification]
#[verifier::external_body]
pub struct ExUrl(reqwest::Url);

/// Whether `Url::parse` accepts the input.
pub uninterp spec fn url_parses(input: Seq<char>) -> bool;

/// The serialization (`Url::as_str`) of the parsed input.
pub uninterp spec fn url_serialization(input: Seq<char>) -> Seq<char>;

/// The path (`Url::path`) of a serialized URL.
pub uninterp spec fn url_path(serialization: Seq<char>) -> Seq<char>;

/// The decoded query pairs (`Url::query_pairs`) of a serialized URL, in order.
pub uninterp spec fn url_query_pairs(serialization: Seq<char>) -> Seq<(Seq<char>, Seq<char>)>;

/// The serialization after `set_query(None)`.
pub uninterp spec fn url_without_query(serialization: Seq<char>) -> Seq<char>;

/// The serialization after `query_pairs_mut().append_pair(name, value)`.
pub uninterp spec fn url_with_pair(serialization: Seq<char>, name: Seq<char>, value: Seq<char>) -> Seq<char>;

/// A parsed URL with its serialization.
#[derive(Debug)]
pub struct ParsedUrl {
    serialization: String,
    url: reqwest::Url,
}

impl ParsedUrl {
    pub closed spec fn text(&self) -> Seq<char> {
        self.serialization@
    }

    /// The URL's serialization.
    pub fn as_string(&self) -> (r: String)
        ensures
            r@ == self.text(),
    {
        self.serialization.clone()
    }
}

/// Calls `Url::parse` and `Url::as_str`; the contract names whether parsing
/// succeeds and the serialization, and says nothing of the error text.
#[verifier::external_body]
fn parse_url(input: &str) -> (r: Result<ParsedUrl, String>)
    ensures
        r is Ok <==> url_parses(input@),
        r matches Ok(u) ==> u.text() == url_serialization(input@),
{
    match reqwest::Url::parse(input) {
        Ok(url) => Ok(ParsedUrl { serialization: url.as_str().to_owned(), url }),
        Err(error) => Err(error.to_string()),
    }
}

/// Calls `Url::path`.
#[verifier::external_body]
fn path_of(u: &ParsedUrl) -> (r: String)
    ensures
        r@ == url_path(u.text()),
{
    u.url.path().to_owned()
}

/// Calls `Url::query_pairs`, decoding each pair.
#[verifier::external_body]
fn query_pairs_of(u: &ParsedUrl) -> (r: Vec<(String, String)>)
    ensures
        r@.map_values(|p: (String, String)| (p.0@, p.1@)) == url_query_pairs(u.text()),
{
    u.url.query_pairs().map(|(k, v)| (k.into_owned(), v.into_owned())).collect()
}

/// Calls `Url::set_query(None)`.
#[verifier::external_body]
fn clear_query(u: &mut ParsedUrl)
    ensures
        final(u).text() == url_without_query(old(u).text()),
{
    u.url.set_query(None);
    u.serialization = u.url.as_str().to_owned();
}

/// Whether appending a pair keeps the URL within the 4 GiB that `Url` indexes
/// with `u32`: the serialization grows by at most three bytes per byte of the
/// name and value (percent-encoding) plus `?`, `&` and `=`.
pub open spec fn pair_fits(serialization: Seq<char>, name: Seq<char>, value: Seq<char>) -> bool {
    byte_len(serialization) + 3 * (byte_len(name) + byte_len(value)) + 3 <= u32::MAX
}

/// Calls `Url::query_pairs_mut().append_pair(name, value)`. The URL restores
/// its fragment at a position it converts to `u32` and unwraps, so the result
/// must stay within `u32::MAX` bytes.
#[verifier::external_body]
fn append_pair(u: &mut ParsedUrl, name: &str, value: &str)
    requires
        pair_fits(old(u).text(), name@, value@),
    ensures
        final(u).text() == url_with_pair(old(u).text(), name@, value@),
{
    u.url.query_pairs_mut().append_pair(name, value);
    u.serialization = u.url.as_str().to_owned();
}

/// A read of a candidate build's record or logs.
#[derive(Clone, Debug)]
pub struct CandidateReadQuery {
    pub id: String,
    pub path: String,
    pub offset: usize,
    pub expected_digest: Option<String>,
}

pub open spec fn candidate_prefix() -> Seq<char> {
    "proofstorm://candidate-build/"@
}

/// Whether a resource URI names a candidate build.
pub fn is_candidate_resource(uri: &str) -> (r: bool)
    ensures
        r == has_prefix(uri@, candidate_prefix()),
{
    let chars = chars_of(uri);
    strip_prefix_exec(&chars, "proofstorm://candidate-build/").is_some()
}

/// The path without its leading slashes.
pub open spec fn trim_leading_slashes(s: Seq<char>) -> Seq<char>
    decreases s.len(),
{
    if s.len() > 0 && s[0] == '/' {
        trim_leading_slashes(s.drop_first())
    } else {
        s
    }
}

fn trim_slashes(s: &Vec<char>) -> (r: Vec<char>)
    ensures
        r@ == trim_leading_slashes(s@),
{
    let mut i: usize = 0;
    assert(s@.skip(0) =~= s@);
    while i < s.len() && s[i] == '/'
        invariant
            i <= s@.len(),
            trim_leading_slashes(s@) == trim_leading_slashes(s@.skip(i as int)),
        decreases s@.len() - i,
    {
        assert(s@.skip(i as int).drop_first() =~= s@.skip(i + 1));
        i = i + 1;
    }
    let r = crate::text::chars_range(s, i, s.len());
    assert(r@ =~= s@.skip(i as int));
    proof {
        if i < s@.len() {
            assert(s@.skip(i as int)[0] == s@[i as int]);
        }
    }
    r
}

/// The selectors a query pair sets, in order; unknown keys and bad offsets refuse the URI.
pub open spec fn apply_pairs(
    pairs: Seq<(Seq<char>, Seq<char>)>,
    path: Seq<char>,
    offset: nat,
    digest: Option<Seq<char>>,
) -> Option<(Seq<char>, nat, Option<Seq<char>>)>
    decreases pairs.len(),
{
    if pairs.len() == 0 {
        Some((path, offset, digest))
    } else {
        let (key, value) = pairs[0];
        if key == "path"@ {
            apply_pairs(pairs.drop_first(), value, offset, digest)
        } else if key == "offset"@ {
            match parse_usize(value) {
                Some(n) => apply_pairs(pairs.drop_first(), path, n, digest),
                None => None,
            }
        } else if key == "digest"@ {
            apply_pairs(pairs.drop_first(), path, offset, Some(value))
        } else {
            None
        }
    }
}

/// What a candidate resource URI selects: the candidate, the document path
/// (`/diagnostics` for logs, the whole record otherwise), offset and digest.
pub open spec fn candidate_query_spec(uri: Seq<char>) -> Option<(Seq<char>, Seq<char>, nat, Option<Seq<char>>)> {
    if !url_parses(uri) {
        None
    } else {
        let s = url_serialization(uri);
        let segments = split_all(trim_leading_slashes(url_path(s)), '/');
        if segments.len() != 2 || !(segments[1] == "logs"@ || segments[1] == "record"@) {
            None
        } else {
            let start = if segments[1] == "logs"@ {
                "/diagnostics"@
            } else {
                Seq::<char>::empty()
            };
            match apply_pairs(url_query_pairs(s), start, 0, None) {
                None => None,
                Some((path, offset, digest)) => Some((segments[0], path, offset, digest)),
            }
        }
    }
}

/// Parses a candidate resource URI into its read query and the parsed URL.
#[verifier::loop_isolation(false)]
pub fn candidate_resource_query(uri: &str) -> (r: Result<(CandidateReadQuery, ParsedUrl), ToolError>)
    ensures
        match candidate_query_spec(uri@) {
            Some((id, path, offset, digest)) => r matches Ok((q, u)) && q.id@ == id && q.path@ == path
                && q.offset == offset && match q.expected_digest {
                Some(d) => digest == Some(d@),
                None => digest is None,
            } && u.text() == url_serialization(uri@),
            None => r matches Err(e) && e.is_coded(ErrorCode::CandidateResourceInvalid),
        },
{
    let url = match parse_url(uri) {
        Ok(u) => u,
        Err(message) => {
            return Err(coded_invalid_request(ErrorCode::CandidateResourceInvalid, message.as_str()));
        },
    };
    let path = path_of(&url);
    let path_chars = chars_of(path.as_str());
    let trimmed = trim_slashes(&path_chars);
    let segments = split_all_exec(&trimmed, '/');
    let ghost segs = segments@.map_values(|p: Vec<char>| p@);
    if segments.len() != 2 {
        return Err(
            coded_invalid_request(
                ErrorCode::CandidateResourceInvalid,
                "Expected candidate ID followed by logs or record",
            ),
        );
    }
    assert(segs[1] == segments@[1]@);
    let second = string_of(&segments[1]);
    let is_logs = str_eq(second.as_str(), "logs");
    let is_record = str_eq(second.as_str(), "record");
    if !is_logs && !is_record {
        return Err(
            coded_invalid_request(
                ErrorCode::CandidateResourceInvalid,
                "Expected candidate ID followed by logs or record",
            ),
        );
    }
    let mut doc_path = if is_logs {
        "/diagnostics".to_owned()
    } else {
        String::new()
    };
    let mut offset: usize = 0;
    let mut digest: Option<String> = None;
    let pairs = query_pairs_of(&url);
    let ghost ps = pairs@.map_values(|p: (String, String)| (p.0@, p.1@));
    let ghost start: Seq<char> = doc_path@;
    let mut i: usize = 0;
    assert(ps.skip(0) =~= ps);
    while i < pairs.len()
        invariant
            i <= pairs@.len(),
            ps == pairs@.map_values(|p: (String, String)| (p.0@, p.1@)),
            apply_pairs(ps, start, 0, None) == apply_pairs(
                ps.skip(i as int),
                doc_path@,
                offset as nat,
                match digest {
                    Some(d) => Some(d@),
                    None => None,
                },
            ),
        decreases pairs@.len() - i,
    {
        let (key, value) = (&pairs[i].0, &pairs[i].1);
        assert(ps.skip(i as int)[0] == (key@, value@));
        assert(ps.skip(i as int).drop_first() =~= ps.skip(i + 1));
        if str_eq(key.as_str(), "path") {
            doc_path = value.clone();
        } else if str_eq(key.as_str(), "offset") {
            let v = chars_of(value.as_str());
            match parse_usize_chars(&v) {
                Some(n) => {
                    offset = n;
                },
                None => {
                    return Err(coded_invalid_request(ErrorCode::CandidateResourceInvalid, "Invalid offset"));
                },
            }
        } else if str_eq(key.as_str(), "digest") {
            digest = Some(value.clone());
        } else {
            return Err(
                coded_invalid_request(ErrorCode::CandidateResourceInvalid, "Unknown resource selector"),
            );
        }
        i = i + 1;
    }
    assert(ps.skip(i as int).len() == 0);
    let id = string_of(&segments[0]);
    assert(segs[0] == segments@[0]@);
    Ok((CandidateReadQuery { id, path: doc_path, offset, expected_digest: digest }, url))
}

/// The continuation of a candidate read: the same URL with its query replaced
/// by the path, the next offset and the page digest.
pub open spec fn continuation_spec(serialization: Seq<char>, path: Seq<char>, next: nat, digest: Seq<char>) -> Seq<char> {
    url_with_pair(
        url_with_pair(
            url_with_pair(url_without_query(serialization), "path"@, path),
            "offset"@,
            crate::text::decimal(next),
        ),
        "digest"@,
        digest,
    )
}

/// Whether a pair can be appended to this URL (`pair_fits`), computed.
fn check_pair_fits(u: &ParsedUrl, name: &str, value: &str) -> (r: bool)
    ensures
        r == pair_fits(u.text(), name@, value@),
{
    let text = u.as_string();
    let current = byte_len_of(text.as_str()) as u128;
    let added = byte_len_of(name) as u128 + byte_len_of(value) as u128;
    current + 3 * added + 3 <= 4294967295u128
}

/// Whether a continuation can be built: each of its three pairs fits in turn.
pub open spec fn continuation_fits(serialization: Seq<char>, path: Seq<char>, next: nat, digest: Seq<char>) -> bool {
    let cleared = url_without_query(serialization);
    let with_path = url_with_pair(cleared, "path"@, path);
    let with_offset = url_with_pair(with_path, "offset"@, crate::text::decimal(next));
    &&& pair_fits(cleared, "path"@, path)
    &&& pair_fits(with_path, "offset"@, crate::text::decimal(next))
    &&& pair_fits(with_offset, "digest"@, digest)
}

/// Builds the URI that continues a candidate read at `next`; refused when the
/// URI would outgrow what a URL can hold.
pub fn candidate_continuation(url: ParsedUrl, path: &str, next: u64, digest: &str) -> (r: Result<String, ToolError>)
    ensures
        continuation_fits(url.text(), path@, next as nat, digest@) ==> (r matches Ok(s) && s@ == continuation_spec(
            url.text(),
            path@,
            next as nat,
            digest@,
        )),
        !continuation_fits(url.text(), path@, next as nat, digest@) ==> (r matches Err(e) && e.is_coded(
            ErrorCode::CandidateResourceInvalid,
        )),
{
    let ghost original = url.text();
    let mut u = url;
    clear_query(&mut u);
    if !check_pair_fits(&u, "path", path) {
        return Err(too_long_continuation());
    }
    append_pair(&mut u, "path", path);
    let n = render_u64(next);
    if !check_pair_fits(&u, "offset", n.as_str()) {
        return Err(too_long_continuation());
    }
    append_pair(&mut u, "offset", n.as_str());
    if !check_pair_fits(&u, "digest", digest) {
        return Err(too_long_continuation());
    }
    append_pair(&mut u, "digest", digest);
    Ok(u.as_string())
}

/// The refusal of a continuation URI too long for a URL.
fn too_long_continuation() -> (e: ToolError)
    ensures
        e.is_coded(ErrorCode::CandidateResourceInvalid),
{
    coded_invalid_request(ErrorCode::CandidateResourceInvalid, "The continuation URI would exceed 4 GiB")
}

} // verus!
