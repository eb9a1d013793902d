//! The plain values of the HTTP surface: configuration, query parameters,
//! request bodies, and the voter-key derivation contract.

use vstd::prelude::*;

use crate::entities::VoteValue;
use crate::text::lower_str;
use crate::text::push_char;
use crate::text::spec_lower;
use crate::text::spec_trim;
use crate::text::str_eq;
use crate::text::trim_str;

verus! {

/// How the process runs: serve the API, run the ingestion worker loop, or
/// refresh once and exit.
#[derive(Clone, Copy, Debug, PartialEq, Eq, Structural)]
pub enum RunMode {
    Api,
    Worker,
    RefreshOnce,
}

/// Parses a run-mode word, case-insensitively: `worker` and
/// `refresh_once` are recognized, anything else serves the API.
pub fn parse_run_mode(value: &str) -> (r: RunMode)
    ensures
        spec_lower(value@) == "worker"@ ==> r == RunMode::Worker,
        spec_lower(value@) == "refresh_once"@ ==> r == RunMode::RefreshOnce,
        spec_lower(value@) != "worker"@ && spec_lower(value@) != "refresh_once"@ ==> r
            == RunMode::Api,
    {
    proof {
        reveal_strlit("worker");
        reveal_strlit("refresh_once");
        assert("worker"@.len() == 6);
        assert("refresh_once"@.len() == 12);
        assert("worker"@ != "refresh_once"@);
    }
    let lower = lower_str(value);
    if str_eq(lower.as_str(), "worker") {
        RunMode::Worker
    } else if str_eq(lower.as_str(), "refresh_once") {
        RunMode::RefreshOnce
    } else {
        RunMode::Api
    }
}

/// True of the words that switch a boolean flag on: `1`, `true`, `yes`,
/// `on`, case-insensitively.
pub open spec fn spec_truthy(s: Seq<char>) -> bool {
    spec_lower(s) == "1"@ || spec_lower(s) == "true"@ || spec_lower(s) == "yes"@ || spec_lower(s)
        == "on"@
}

/// Parses a boolean flag word.
pub fn parse_bool_flag(value: &str) -> (r: bool)
    ensures
        r == spec_truthy(value@),
{
    let lower = lower_str(value);
    str_eq(lower.as_str(), "1") || str_eq(lower.as_str(), "true") || str_eq(lower.as_str(), "yes")
        || str_eq(lower.as_str(), "on")
}

/// The process configuration recognized at startup. Reading the
/// environment is the caller's business; this type only carries the
/// values.
#[derive(Debug)]
pub struct Settings {
    pub host: String,
    pub port: u16,
    pub cors_origin: String,
    pub ingestion_interval_hours: u64,
    pub run_mode: RunMode,
    pub database_url: Option<String>,
    pub enable_background_ingestion: bool,
}

/// The payload of the health endpoint.
#[derive(Debug)]
pub struct HealthPayload {
    pub status: String,
    pub timestamp: String,
}

/// Query parameters of the search endpoint, as plain optional values.
#[derive(Debug)]
pub struct FacilitySearchParams {
    pub q: Option<String>,
    pub jurisdiction: Option<String>,
    pub sort: Option<String>,
    pub score_slice: Option<String>,
    pub recent_only: Option<bool>,
    pub page: Option<usize>,
    pub page_size: Option<usize>,
    pub limit: Option<usize>,
}

/// Query parameters of the autocomplete endpoint.
#[derive(Debug)]
pub struct AutocompleteParams {
    pub q: Option<String>,
    pub limit: Option<usize>,
}

/// Query parameters of the top-picks endpoint.
#[derive(Debug)]
pub struct TopPicksParams {
    pub limit: Option<usize>,
}

/// The body of a vote request.
#[derive(Debug)]
pub struct VoteRequest {
    pub vote: String,
}

/// Parses a vote word: `like` or `dislike`, trimmed and
/// case-insensitively; anything else is rejected.
pub fn parse_vote(value: &str) -> (r: Option<VoteValue>)
    ensures
        spec_lower(spec_trim(value@)) == "like"@ ==> r == Some(VoteValue::Like),
        spec_lower(spec_trim(value@)) == "dislike"@ ==> r == Some(VoteValue::Dislike),
        spec_lower(spec_trim(value@)) != "like"@ && spec_lower(spec_trim(value@)) != "dislike"@
            ==> r is None,
{
    proof {
        reveal_strlit("like");
        reveal_strlit("dislike");
        assert("like"@.len() == 4);
        assert("dislike"@.len() == 7);
        assert("like"@ != "dislike"@);
    }
    let norm = lower_str(trim_str(value).as_str());
    if str_eq(norm.as_str(), "like") {
        Some(VoteValue::Like)
    } else if str_eq(norm.as_str(), "dislike") {
        Some(VoteValue::Dislike)
    } else {
        None
    }
}

/// Where the first comma cuts a header value; the whole length when it
/// holds none.
pub open spec fn spec_comma_index(s: Seq<char>) -> int
    decreases s.len(),
{
    if s.len() == 0 {
        0
    } else if s[0] == ',' {
        0
    } else {
        1 + spec_comma_index(s.drop_first())
    }
}

/// The derived voter key of a request: the trimmed leftmost segment of
/// `X-Forwarded-For` when non-empty, else the trimmed `X-Real-IP` when
/// non-empty, else the literal `unknown`.
pub open spec fn spec_voter_key(
    forwarded_for: Option<Seq<char>>,
    real_ip: Option<Seq<char>>,
) -> Seq<char> {
    let from_xff = match forwarded_for {
        Some(v) => spec_trim(v.subrange(0, spec_comma_index(v))),
        None => Seq::empty(),
    };
    if from_xff.len() > 0 {
        from_xff
    } else {
        let from_real = match real_ip {
            Some(v) => spec_trim(v),
            None => Seq::empty(),
        };
        if from_real.len() > 0 {
            from_real
        } else {
            "unknown"@
        }
    }
}

proof fn lemma_comma_index(s: Seq<char>, i: int)
    requires
        0 <= i <= s.len(),
        forall|j: int| 0 <= j < i ==> s[j] != ',',
        i < s.len() ==> s[i] == ',',
    ensures
        spec_comma_index(s) == i,
    decreases i,
{
    if i == 0 {
        if s.len() > 0 && s[0] != ',' {
            assert(s[0] == ',');
        }
    } else {
        assert(s[0] != ',');
        lemma_comma_index(s.drop_first(), i - 1);
    }
}

fn first_segment(value: &str) -> (r: String)
    ensures
        r@ == value@.subrange(0, spec_comma_index(value@)),
{
    let n = value.unicode_len();
    let mut i: usize = 0;
    let mut out = String::new();
    while i < n && value.get_char(i) != ','
        invariant
            n == value@.len(),
            i <= n,
            forall|j: int| 0 <= j < i ==> value@[j] != ',',
            out@ == value@.subrange(0, i as int),
        decreases n - i,
    {
        push_char(&mut out, value.get_char(i));
        proof {
            assert(value@.subrange(0, i + 1) =~= value@.subrange(0, i as int).push(
                value@[i as int],
            ));
        }
        i = i + 1;
    }
    proof {
        lemma_comma_index(value@, i as int);
    }
    out
}

/// Derives the voter key from the two client-presented headers.
pub fn derive_voter_key(forwarded_for: Option<&str>, real_ip: Option<&str>) -> (r: String)
    ensures
        r@ == spec_voter_key(
            match forwarded_for {
                Some(v) => Some(v@),
                None => None,
            },
            match real_ip {
                Some(v) => Some(v@),
                None => None,
            },
        ),
{
    if let Some(xff) = forwarded_for {
        let segment = trim_str(first_segment(xff).as_str());
        if !segment.as_str().is_empty() {
            return segment;
        }
    }
    if let Some(ip) = real_ip {
        let trimmed = trim_str(ip);
        if !trimmed.as_str().is_empty() {
            return trimmed;
        }
    }
    String::from_str("unknown")
}

} // verus!
