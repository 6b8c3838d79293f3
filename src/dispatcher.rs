use vstd::prelude::*;

use crate::executor::{DownloadError, clone_opt, opt_view};
use crate::headers::{content_length_of, content_range_total, parse_content_length, parse_content_range};

verus! {

/// Sizes above this (1 MiB) are fetched in parallel when the server takes ranges.
pub const MIN_SIZE_FOR_MULTIPART: u64 = 1048576;

/// Number of probe requests before giving up.
pub const PROBE_MAX_RETRIES: u32 = 3;

/// Seconds slept after the first failed probe; each later wait doubles.
pub const PROBE_INITIAL_BACKOFF_SECS: u64 = 1;

/// Errors of a dispatch.
#[derive(Debug)]
pub enum DispatchError {
    /// The download run failed.
    Http(DownloadError),
    /// The probe could not be sent.
    Network(String),
    /// Every probe was answered with this non-success status.
    HttpError(u16),
    /// The URL is neither `http://` nor `https://`.
    UnsupportedProtocol(String),
    /// The probe request could not be built.
    BuildError(String),
    /// No probe was answered and no other error was recorded.
    DownloadFailed(String),
}

/// The parts of the probe's answer that the dispatcher reads: its status and the raw
/// values of the headers `Content-Range`, `Content-Length`, `Accept-Ranges`, `ETag` and
/// `Content-Type`.
#[derive(Debug)]
pub struct ProbeResponse {
    pub status: u16,
    pub content_range: Option<String>,
    pub content_length: Option<String>,
    pub accept_ranges: Option<String>,
    pub etag: Option<String>,
    pub content_type: Option<String>,
}

/// What the probe tells of the resource.
#[derive(Debug)]
pub struct ProbeOutcome {
    pub total_size: Option<u64>,
    pub accept_ranges: bool,
    pub identity_tag: Option<String>,
    pub content_type: Option<String>,
}

/// The way a resource is fetched.
#[derive(Clone, Copy, Debug, PartialEq, Eq, Structural)]
pub enum DownloadMode {
    /// Ranged fetches of a planned resource, up to eight at a time.
    Multipart(u64),
    /// Ranged fetches of a resource of known size, one at a time.
    Sequential(u64),
    /// One unranged fetch written in arrival order; no resume.
    Stream,
}

/// What the dispatcher does after one probe.
#[derive(Debug)]
pub enum ProbeStep {
    /// The probe succeeded: download with what it told.
    Proceed(ProbeOutcome),
    /// The probe failed: sleep this many seconds, then probe again.
    RetryAfter(u64),
    /// The probe failed for the last time.
    GiveUp(DispatchError),
}

/// `url` starts with `http://` or `https://`.
pub open spec fn is_http_url(url: Seq<char>) -> bool {
    ||| url.len() >= 7 && url.subrange(0, 7) == seq!['h', 't', 't', 'p', ':', '/', '/']
    ||| url.len() >= 8 && url.subrange(0, 8) == seq!['h', 't', 't', 'p', 's', ':', '/', '/']
}

/// A status counts as an answered probe: any `2xx` (which includes `206`).
pub open spec fn probe_succeeded(status: u16) -> bool {
    200 <= status <= 299
}

/// `2^n`.
pub open spec fn pow2(n: nat) -> nat
    decreases n,
{
    if n == 0 {
        1
    } else {
        2 * pow2((n - 1) as nat)
    }
}

/// Seconds to wait after failed probe number `attempt` (counted from one): 1, 2, 4, ...
pub open spec fn backoff_for(attempt: nat) -> nat {
    (PROBE_INITIAL_BACKOFF_SECS * pow2((attempt - 1) as nat)) as nat
}

/// The resource's size as the probe's headers give it, first match winning: a parseable
/// `Content-Range`, else a parseable `Content-Length`; ranges are taken when the size came
/// from `Content-Range`, or from `Content-Length` with `Accept-Ranges: bytes`.
pub open spec fn size_and_ranges(
    content_range: Option<Seq<char>>,
    content_length: Option<Seq<char>>,
    accept_ranges: Option<Seq<char>>,
) -> (Option<u64>, bool) {
    if content_range is Some && content_range_total(content_range->0) is Some {
        (content_range_total(content_range->0), true)
    } else if content_length is Some && content_length_of(content_length->0) is Some {
        (
            content_length_of(content_length->0),
            accept_ranges == Some(seq!['b', 'y', 't', 'e', 's']),
        )
    } else {
        (None, false)
    }
}

/// The way a probed resource is fetched: parallel when its size is known, ranges are taken
/// and it exceeds `MIN_SIZE_FOR_MULTIPART`; sequential when only its size is known; streamed
/// when its size is unknown.
pub open spec fn mode_for(total_size: Option<u64>, accept_ranges: bool) -> DownloadMode {
    match total_size {
        Some(n) => if accept_ranges && n > MIN_SIZE_FOR_MULTIPART {
            DownloadMode::Multipart(n)
        } else {
            DownloadMode::Sequential(n)
        },
        None => DownloadMode::Stream,
    }
}

fn str_has_prefix(s: &str, p: &str) -> (r: bool)
    ensures
        r == (p@.len() <= s@.len() && s@.subrange(0, p@.len() as int) == p@),
{
    let n = p.unicode_len();
    if n > s.unicode_len() {
        return false;
    }
    let mut i: usize = 0;
    while i < n
        invariant
            n == p@.len() <= s@.len(),
            i <= n,
            forall|k: int| 0 <= k < i ==> s@[k] == p@[k],
        decreases n - i,
    {
        if s.get_char(i) != p.get_char(i) {
            assert(s@.subrange(0, n as int)[i as int] != p@[i as int]);
            return false;
        }
        i = i + 1;
    }
    assert(s@.subrange(0, n as int) =~= p@);
    true
}

/// Accepts `http://` and `https://` URLs; anything else is `UnsupportedProtocol`.
pub fn check_protocol(url: &str) -> (r: Result<(), DispatchError>)
    ensures
        r is Ok <==> is_http_url(url@),
        r matches Err(e) ==> e matches DispatchError::UnsupportedProtocol(u) && u@ == url@,
{
    let http = "http://";
    let https = "https://";
    proof {
        reveal_strlit("http://");
        reveal_strlit("https://");
    }
    assert(http@ =~= seq!['h', 't', 't', 'p', ':', '/', '/']);
    assert(https@ =~= seq!['h', 't', 't', 'p', 's', ':', '/', '/']);
    if str_has_prefix(url, http) || str_has_prefix(url, https) {
        Ok(())
    } else {
        Err(DispatchError::UnsupportedProtocol(url.to_owned()))
    }
}

/// Reads the probe's headers: the size and whether ranges are taken (see
/// `size_and_ranges`), and the raw `ETag` and `Content-Type`.
pub fn probe_outcome(resp: &ProbeResponse) -> (r: ProbeOutcome)
    ensures
        (r.total_size, r.accept_ranges) == size_and_ranges(
            opt_view(resp.content_range),
            opt_view(resp.content_length),
            opt_view(resp.accept_ranges),
        ),
        opt_view(r.identity_tag) == opt_view(resp.etag),
        opt_view(r.content_type) == opt_view(resp.content_type),
{
    let identity_tag = clone_opt(&resp.etag);
    let content_type = clone_opt(&resp.content_type);
    if let Some(range) = &resp.content_range {
        if let Some(size) = parse_content_range(range.as_str()) {
            return ProbeOutcome {
                total_size: Some(size),
                accept_ranges: true,
                identity_tag,
                content_type,
            };
        }
    }
    if let Some(length) = &resp.content_length {
        if let Some(size) = parse_content_length(length.as_str()) {
            let accept = match &resp.accept_ranges {
                Some(v) => {
                    let bytes = "bytes";
                    proof {
                        reveal_strlit("bytes");
                    }
                    assert(bytes@ =~= seq!['b', 'y', 't', 'e', 's']);
                    String::eq(v, &bytes.to_owned())
                },
                None => false,
            };
            return ProbeOutcome { total_size: Some(size), accept_ranges: accept, identity_tag, content_type };
        }
    }
    ProbeOutcome { total_size: None, accept_ranges: false, identity_tag, content_type }
}

/// Chooses how to fetch a probed resource (see `mode_for`).
pub fn select_mode(outcome: &ProbeOutcome) -> (r: DownloadMode)
    ensures
        r == mode_for(outcome.total_size, outcome.accept_ranges),
{
    match outcome.total_size {
        Some(n) => if outcome.accept_ranges && n > MIN_SIZE_FOR_MULTIPART {
            DownloadMode::Multipart(n)
        } else {
            DownloadMode::Sequential(n)
        },
        None => DownloadMode::Stream,
    }
}

/// Seconds to sleep after failed probe number `attempt`: 1, 2, 4, ...
pub fn backoff_secs(attempt: u32) -> (r: u64)
    requires
        1 <= attempt <= PROBE_MAX_RETRIES,
    ensures
        r == backoff_for(attempt as nat),
{
    let mut r: u64 = PROBE_INITIAL_BACKOFF_SECS;
    let mut k: u32 = 1;
    while k < attempt
        invariant
            1 <= k <= attempt <= PROBE_MAX_RETRIES,
            r == PROBE_INITIAL_BACKOFF_SECS * pow2((k - 1) as nat),
            r <= 4,
        decreases attempt - k,
    {
        assert(r <= 2) by {
            reveal_with_fuel(pow2, 2);
        }
        r = r * 2;
        k = k + 1;
    }
    r
}

/// Decides what follows probe number `attempt` (counted from one) that was answered with
/// `resp`: a `2xx` answer proceeds with what its headers tell; any other status is retried
/// after `backoff_secs(attempt)` seconds, unless this was the last attempt, which gives up
/// with that status.
pub fn on_probe_response(attempt: u32, resp: &ProbeResponse) -> (r: ProbeStep)
    requires
        1 <= attempt <= PROBE_MAX_RETRIES,
    ensures
        probe_succeeded(resp.status) ==> (r matches ProbeStep::Proceed(o) && (
        o.total_size,
        o.accept_ranges,
        ) == size_and_ranges(
            opt_view(resp.content_range),
            opt_view(resp.content_length),
            opt_view(resp.accept_ranges),
        ) && opt_view(o.identity_tag) == opt_view(resp.etag) && opt_view(o.content_type)
            == opt_view(resp.content_type)),
        !probe_succeeded(resp.status) && attempt < PROBE_MAX_RETRIES ==> r == ProbeStep::RetryAfter(
            backoff_for(attempt as nat) as u64,
        ),
        !probe_succeeded(resp.status) && attempt == PROBE_MAX_RETRIES ==> r == ProbeStep::GiveUp(
            DispatchError::HttpError(resp.status),
        ),
{
    if (200 <= resp.status && resp.status <= 299) || resp.status == 206 {
        ProbeStep::Proceed(probe_outcome(resp))
    } else if attempt < PROBE_MAX_RETRIES {
        ProbeStep::RetryAfter(backoff_secs(attempt))
    } else {
        ProbeStep::GiveUp(DispatchError::HttpError(resp.status))
    }
}

} // verus!
