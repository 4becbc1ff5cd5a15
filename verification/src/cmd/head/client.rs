//! A worker as the head sees it: its base address, the HTTP client used to
//! reach it, and how request addresses are built. The requests themselves
//! are made outside the library.

use crate::text::{chars_of, string_of};
use vstd::prelude::*;

verus! {

broadcast use vstd::string::group_string_axioms;

/// `reqwest::Client`, carried through opaque.
#[verifier::external_type_specification]
#[verifier::external_body]
pub struct ExHttpClient(reqwest::Client);

/// `reqwest::Error`, carried through opaque.
#[verifier::external_type_specification]
#[verifier::external_body]
pub struct ExHttpError(reqwest::Error);

// A URL is held as its serialization (`Url::as_str`); each operation of
// the url crate parses the text it is given and hands back the new
// serialization.

/// The serialization of the URL `Url::parse` reads from a text, if it
/// reads an absolute URL.
pub uninterp spec fn url_parse_spec(text: Seq<char>) -> Option<Seq<char>>;

/// Whether `Url::parse` accepts a text as an absolute URL.
pub open spec fn url_parses(text: Seq<char>) -> bool {
    url_parse_spec(text) is Some
}

/// `Url::parse(text)`, as its serialization: the name above applied to
/// the text.
#[verifier::external_body]
pub(crate) fn parse_url(text: &str) -> (r: Option<String>)
    ensures
        match r {
            Some(s) => url_parse_spec(text@) == Some(s@),
            None => url_parse_spec(text@) is None,
        },
{
    match url::Url::parse(text) {
        Ok(u) => Some(u.as_str().to_string()),
        Err(_) => None,
    }
}

/// `Url::path` of the URL `Url::parse` reads from a text, if it reads one.
pub uninterp spec fn url_path_spec(text: Seq<char>) -> Option<Seq<char>>;

/// `Url::parse(text)` then `Url::path`: the name above applied to the text;
/// there is a path exactly when the text parses.
#[verifier::external_body]
fn url_path(text: &str) -> (r: Option<String>)
    ensures
        match r {
            Some(s) => url_path_spec(text@) == Some(s@),
            None => url_path_spec(text@) is None,
        },
        r is Some <==> url_parses(text@),
{
    match url::Url::parse(text) {
        Ok(u) => Some(u.path().to_string()),
        Err(_) => None,
    }
}

/// The serialization after `Url::set_path(path)` on the URL `Url::parse`
/// reads from a text, if it reads one.
pub uninterp spec fn url_set_path_spec(text: Seq<char>, path: Seq<char>) -> Option<Seq<char>>;

/// `Url::parse(text)` then `Url::set_path(path)`, as the new
/// serialization: the name above applied to the text and the path; there
/// is one exactly when the text parses.
#[verifier::external_body]
fn url_set_path(text: &str, path: &str) -> (r: Option<String>)
    ensures
        match r {
            Some(s) => url_set_path_spec(text@, path@) == Some(s@),
            None => url_set_path_spec(text@, path@) is None,
        },
        r is Some <==> url_parses(text@),
{
    match url::Url::parse(text) {
        Ok(mut u) => {
            u.set_path(path);
            Some(u.as_str().to_string())
        },
        Err(_) => None,
    }
}

/// The serialization after `PathSegmentsMut::pop_if_empty` (which drops a
/// trailing empty segment) on the URL `Url::parse` reads from a text; none
/// if it reads none or the URL cannot be a base.
pub uninterp spec fn url_pop_if_empty_spec(text: Seq<char>) -> Option<Seq<char>>;

/// `Url::parse(text)`, then `path_segments_mut()` and `pop_if_empty()`, as
/// the new serialization: the name above applied to the text.
#[verifier::external_body]
fn url_pop_if_empty(text: &str) -> (r: Option<String>)
    ensures
        match r {
            Some(s) => url_pop_if_empty_spec(text@) == Some(s@),
            None => url_pop_if_empty_spec(text@) is None,
        },
{
    let mut u = match url::Url::parse(text) {
        Ok(u) => u,
        Err(_) => return None,
    };
    match u.path_segments_mut() {
        Ok(mut segs) => {
            segs.pop_if_empty();
        },
        Err(()) => return None,
    }
    Some(u.as_str().to_string())
}

/// The serialization after `PathSegmentsMut::push(segment)` (which appends
/// one percent-encoded segment) on the URL `Url::parse` reads from a text;
/// none if it reads none or the URL cannot be a base.
pub uninterp spec fn url_push_segment_spec(text: Seq<char>, segment: Seq<char>) -> Option<Seq<char>>;

/// `Url::parse(text)`, then `path_segments_mut()` and `push(segment)`, as
/// the new serialization: the name above applied to the text and segment.
#[verifier::external_body]
fn url_push_segment(text: &str, segment: &str) -> (r: Option<String>)
    ensures
        match r {
            Some(s) => url_push_segment_spec(text@, segment@) == Some(s@),
            None => url_push_segment_spec(text@, segment@) is None,
        },
{
    let mut u = match url::Url::parse(text) {
        Ok(u) => u,
        Err(_) => return None,
    };
    match u.path_segments_mut() {
        Ok(mut segs) => {
            segs.push(segment);
        },
        Err(()) => return None,
    }
    Some(u.as_str().to_string())
}

/// The timeouts, in seconds, a worker's HTTP client was built with.
#[derive(Debug, Clone, Copy, PartialEq, Eq, Structural)]
pub struct HttpTimeouts {
    pub connect_secs: u64,
    pub request_secs: u64,
}

/// `reqwest::Client::builder()` with these connect and overall timeouts,
/// in seconds, then `build()`, with a record of the two timeouts handed to
/// it. The builder fails only on an error recorded by an earlier setter or
/// on setting up TLS or a DNS resolver; the two timeout setters record
/// none, and this crate builds reqwest without TLS and with its default
/// resolver, so the build succeeds.
#[verifier::external_body]
fn build_http_client(connect_timeout_secs: u64, timeout_secs: u64) -> (r: Result<
    (reqwest::Client, HttpTimeouts),
    reqwest::Error,
>)
    ensures
        r is Ok,
        r matches Ok(built) ==> built.1.connect_secs == connect_timeout_secs
            && built.1.request_secs == timeout_secs,
{
    let client = reqwest::Client::builder().connect_timeout(
        std::time::Duration::from_secs(connect_timeout_secs),
    ).timeout(std::time::Duration::from_secs(timeout_secs)).build()?;
    Ok((client, HttpTimeouts { connect_secs: connect_timeout_secs, request_secs: timeout_secs }))
}

/// Seconds allowed to open a connection to a worker.
pub const CONNECT_TIMEOUT_SECS: u64 = 5;

/// Seconds allowed for a whole request (uploads and downloads included).
pub const REQUEST_TIMEOUT_SECS: u64 = 300;

/// Why a worker client could not be made or used.
#[derive(Debug)]
pub enum ClientError {
    /// The worker address is not an absolute URL.
    InvalidUrl,
    /// The worker address cannot take path segments.
    CannotBeABase,
}

/// How a worker answered a work request.
#[derive(Debug)]
pub enum SendOutcome {
    /// Accepted (or already held: requests are idempotent).
    Accepted,
    /// 429: not accepted; the task may go to another worker.
    Busy,
    /// 409: the identifier is held by another task.
    Conflict(String),
}

/// What the HTTP status of a worker's answer to a work request means.
#[derive(Debug, Clone, Copy, PartialEq, Eq, Structural)]
pub enum SendStatus {
    /// A success status (2xx): accepted, or already held.
    Accepted,
    /// 429: no capacity.
    Busy,
    /// 409: the identifier is held by another task; the body says why.
    Conflict,
    /// Anything else: the exchange failed.
    Unexpected,
}

/// Classifies the HTTP status a worker answered a work request with.
pub fn classify_send_status(status: u16) -> (r: SendStatus)
    ensures
        r == if 200 <= status <= 299 {
            SendStatus::Accepted
        } else if status == 429 {
            SendStatus::Busy
        } else if status == 409 {
            SendStatus::Conflict
        } else {
            SendStatus::Unexpected
        },
{
    if 200 <= status && status <= 299 {
        SendStatus::Accepted
    } else if status == 429 {
        SendStatus::Busy
    } else if status == 409 {
        SendStatus::Conflict
    } else {
        SendStatus::Unexpected
    }
}

/// The base address a worker client is built on: the parsed address, its
/// path given a trailing `/` when it lacks one.
pub open spec fn client_base(text: Seq<char>) -> Option<Seq<char>> {
    match url_path_spec(text) {
        None => None,
        Some(path) => if path.len() > 0 && path.last() == '/' {
            url_parse_spec(text)
        } else {
            url_set_path_spec(text, path.push('/'))
        },
    }
}

/// The address `segments` lead to from `base`: a trailing empty segment
/// dropped, then each segment appended; none if that fails on the way.
pub open spec fn with_segments(base: Seq<char>, segments: Seq<Seq<char>>) -> Option<Seq<char>>
    decreases segments.len(),
{
    if segments.len() == 0 {
        url_pop_if_empty_spec(base)
    } else {
        match with_segments(base, segments.drop_last()) {
            None => None,
            Some(u) => url_push_segment_spec(u, segments.last()),
        }
    }
}

pub struct WorkerClient {
    /// The base address, serialized; it ends in `/` when the URL can be a
    /// base.
    pub base: String,
    /// The HTTP client that reaches this worker.
    pub http: reqwest::Client,
    /// The timeouts that client was built with.
    pub timeouts: HttpTimeouts,
}

impl WorkerClient {
    /// A client for the worker at `base`; a path without a trailing `/`
    /// gets one, so that relative routes resolve under it.
    pub fn new(base: &str) -> (r: Result<WorkerClient, ClientError>)
        ensures
            url_parses(base@) ==> r is Ok,
            !url_parses(base@) ==> (r matches Err(e) && e is InvalidUrl),
            r matches Ok(c) ==> match url_path_spec(base@) {
                Some(p) => if p.len() > 0 && p.last() == '/' {
                    url_parse_spec(base@) == Some(c.base@)
                } else {
                    url_set_path_spec(base@, p + seq!['/']) == Some(c.base@)
                },
                None => false,
            },
            r matches Ok(c) ==> client_base(base@) == Some(c.base@) && c.timeouts == (HttpTimeouts {
                connect_secs: CONNECT_TIMEOUT_SECS,
                request_secs: REQUEST_TIMEOUT_SECS,
            }),
    {
        let path = match url_path(base) {
            Some(p) => p,
            None => {
                return Err(ClientError::InvalidUrl);
            },
        };
        let p = chars_of(path.as_str());
        let url = if p.len() > 0 && p[p.len() - 1] == '/' {
            parse_url(base)
        } else {
            let mut with_slash = p;
            with_slash.push('/');
            let new_path = string_of(with_slash.as_slice());
            url_set_path(base, new_path.as_str())
        };
        let url = match url {
            Some(u) => u,
            None => {
                return Err(ClientError::InvalidUrl);
            },
        };
        let (http, timeouts) = match build_http_client(CONNECT_TIMEOUT_SECS, REQUEST_TIMEOUT_SECS) {
            Ok(built) => built,
            Err(_) => {
                assert(false);
                return Err(ClientError::InvalidUrl);
            },
        };
        proof {
            law_trailing_slash_added_once(base@);
        }
        Ok(WorkerClient { base: url, http, timeouts })
    }

    /// The base address with `segments` appended, each percent-encoded as
    /// one segment (spaces, `+`, `#` and the like do not change the path).
    pub fn url_with_segments(&self, segments: &[&str]) -> (r: Result<String, ClientError>)
        ensures
            match with_segments(self.base@, segments@.map_values(|s: &str| s@)) {
                Some(u) => r matches Ok(t) && t@ == u,
                None => r matches Err(e) && e is CannotBeABase,
            },
    {
        let ghost segs = segments@.map_values(|s: &str| s@);
        let mut url = match url_pop_if_empty(self.base.as_str()) {
            Some(u) => u,
            None => {
                proof {
                    assert(segs.take(0) =~= Seq::<Seq<char>>::empty());
                    lemma_with_segments_stays_none(self.base@, segs, 0);
                }
                return Err(ClientError::CannotBeABase);
            },
        };
        let mut i: usize = 0;
        proof {
            assert(segs.take(0) =~= Seq::<Seq<char>>::empty());
        }
        while i < segments.len()
            invariant
                i <= segments@.len(),
                segs == segments@.map_values(|s: &str| s@),
                with_segments(self.base@, segs.take(i as int)) == Some(url@),
            decreases segments@.len() - i,
        {
            proof {
                assert(segs.take(i + 1).drop_last() =~= segs.take(i as int));
                assert(segs.take(i + 1).last() == segments@[i as int]@);
            }
            url = match url_push_segment(url.as_str(), segments[i]) {
                Some(u) => u,
                None => {
                    proof {
                        assert(with_segments(self.base@, segs.take(i + 1)) is None);
                        lemma_with_segments_stays_none(self.base@, segs, i + 1);
                        assert(segs.take(segs.len() as int) =~= segs);
                    }
                    return Err(ClientError::CannotBeABase);
                },
            };
            i += 1;
        }
        proof {
            assert(segs.take(i as int) =~= segs);
        }
        Ok(url)
    }
}

/// The client's base address is the parsed address itself when its path
/// already ends in `/` (no second `/` is added), and the parsed address
/// with `/` appended to its path otherwise.
pub proof fn law_trailing_slash_added_once(text: Seq<char>)
    ensures
        match url_path_spec(text) {
            Some(p) => if p.len() > 0 && p.last() == '/' {
                client_base(text) == url_parse_spec(text)
            } else {
                client_base(text) == url_set_path_spec(text, p + seq!['/'])
            },
            None => client_base(text) is None,
        },
{
    match url_path_spec(text) {
        Some(p) => {
            assert(p.push('/') =~= p + seq!['/']);
        },
        None => {},
    }
}

/// Once building the address fails, longer segment lists fail too.
proof fn lemma_with_segments_stays_none(base: Seq<char>, segs: Seq<Seq<char>>, n: int)
    requires
        0 <= n <= segs.len(),
        with_segments(base, segs.take(n)) is None,
    ensures
        with_segments(base, segs) is None,
    decreases segs.len() - n,
{
    if n < segs.len() {
        assert(segs.take(n + 1).drop_last() =~= segs.take(n));
        lemma_with_segments_stays_none(base, segs, n + 1);
    } else {
        assert(segs.take(n) =~= segs);
    }
}

} // verus!
