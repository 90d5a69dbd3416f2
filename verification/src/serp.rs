//! The search capability's interface: its failure taxonomy, the provider
//! handles, and the retry policy for transient failures.
//!
//! The capability itself — token acquisition, the request, the response —
//! runs outside this library and hands back either a list of
//! (title, url) results or one of these failures. What the library verifies
//! is every decision taken on such an outcome: which failures are terminal,
//! which are retried, and with what backoff.

use vstd::prelude::*;

use serde_json::Value;

verus! {

/// What a search attempt can fail with. A response whose shape cannot be
/// read at all is `JsonFailedError`: the one terminal failure, never
/// retried.
#[derive(Clone, Copy, Debug, PartialEq, Eq, Structural)]
pub enum SerpServiceError {
    StatusError { status_code: u16 },
    JsonFailedError,
    TokenRetrievalError,
    AuthError,
    HttpClientBuildError,
    HttpRequestError,
}

/// A terminal failure ends work on the company instead of being retried.
pub open spec fn is_terminal_failure(e: SerpServiceError) -> bool {
    e is JsonFailedError
}

/// The handle of the hosted-search provider: where its credentials file
/// lives, and which engine to query.
pub struct GoogleSerpService {
    pub secret_file_path: String,
    pub cse_id: String,
}

impl GoogleSerpService {
    /// A handle with the given credentials file, or the bundled default
    /// path when none is supplied.
    pub fn new(secret_file: Option<String>) -> (s: GoogleSerpService)
        ensures
            match secret_file {
                Some(p) => s.secret_file_path == p,
                None => s.secret_file_path@ == "assets/google_api_key"@,
            },
            s.cse_id@ == "4352d533b0a554434"@,
    {
        match secret_file {
            Some(p) => GoogleSerpService {
                secret_file_path: p,
                cse_id: "4352d533b0a554434".to_owned(),
            },
            None => GoogleSerpService {
                secret_file_path: "assets/google_api_key".to_owned(),
                cse_id: "4352d533b0a554434".to_owned(),
            },
        }
    }
}

/// A second provider handle; no client is wired up for it.
pub struct BingSerpService {
    pub secret_file_path: String,
    pub cse_id: String,
}

/// A keyless provider handle; no client is wired up for it.
pub struct DuckDuckGoSerpService {}

impl DuckDuckGoSerpService {
    /// No client is wired up for this engine: every query reports a request
    /// failure.
    pub fn get_serp(&self, _query: &str) -> (r: Result<Vec<(String, String)>, SerpServiceError>)
        ensures
            r == Err::<Vec<(String, String)>, SerpServiceError>(SerpServiceError::HttpRequestError),
    {
        Err(SerpServiceError::HttpRequestError)
    }
}


#[verifier::external_type_specification]
#[verifier::external_body]
pub struct ExValue(Value);

/// Whether a text reads as a JSON document: what serde_json::from_str
/// accepts depends on the text alone.
pub uninterp spec fn json_parses(body: Seq<char>) -> bool;

/// Relies on serde_json::from_str: reads a JSON document, or nothing when
/// the text is not well-formed JSON.
#[verifier::external_body]
fn parse_json(body: &str) -> (r: Option<Value>)
    ensures
        r is Some <==> json_parses(body@),
{
    serde_json::from_str(body).ok()
}

/// Relies on serde_json::Value::get: the named field of an object, or
/// nothing when the value is no object or does not carry the field.
#[verifier::external_body]
fn json_field<'a>(v: &'a Value, name: &str) -> (r: Option<&'a Value>) {
    v.get(name)
}

/// Relies on serde_json::Value::as_array: the elements, when the value is
/// an array.
#[verifier::external_body]
fn json_array(v: &Value) -> (r: Option<&Vec<Value>>) {
    v.as_array()
}

/// Relies on serde_json::Value::as_str: the text, when the value is a
/// string.
#[verifier::external_body]
fn json_string(v: &Value) -> (r: Option<String>) {
    v.as_str().map(|s| s.to_string())
}

/// The response-shape check of the search capability: the response must be
/// a JSON object carrying an `items` array, and each entry with string
/// `title` and `link` fields becomes one (title, url) result, in order.
/// Any failure this function reports is the terminal shape failure, and a
/// text that is no JSON document at all always fails; what a caller then
/// does with either outcome is `apply_search_outcome`'s verified business.
/// The contents of a parsed document stay opaque (`serde_json::Value` has
/// no model here), so which well-formed documents succeed, and with which
/// pairs, is stated no further.
pub fn parse_serp_response(body: &str) -> (r: Result<Vec<(String, String)>, SerpServiceError>)
    ensures
        r is Err ==> r == Err::<Vec<(String, String)>, SerpServiceError>(
            SerpServiceError::JsonFailedError,
        ),
        r is Ok ==> json_parses(body@),
        !json_parses(body@) ==> r is Err,
{
    let value = match parse_json(body) {
        Some(v) => v,
        None => {
            return Err(SerpServiceError::JsonFailedError);
        },
    };
    let items = match json_field(&value, "items") {
        Some(i) => i,
        None => {
            return Err(SerpServiceError::JsonFailedError);
        },
    };
    let array = match json_array(items) {
        Some(a) => a,
        None => {
            return Err(SerpServiceError::JsonFailedError);
        },
    };
    let mut results: Vec<(String, String)> = Vec::new();
    let mut i: usize = 0;
    while i < array.len()
        invariant
            i <= array@.len(),
        decreases array@.len() - i,
    {
        let title = json_field(&array[i], "title");
        let link = json_field(&array[i], "link");
        match title {
            Some(t) => {
                match link {
                    Some(l) => {
                        match json_string(t) {
                            Some(title_text) => {
                                match json_string(l) {
                                    Some(link_text) => {
                                        results.push((title_text, link_text));
                                    },
                                    None => {},
                                }
                            },
                            None => {},
                        }
                    },
                    None => {},
                }
            },
            None => {},
        }
        i += 1;
    }
    Ok(results)
}

/// The decision taken on a search response's status code: only a
/// successful status carries on; any other code is reported with itself.
pub fn status_check(status_code: u16) -> (r: Result<(), SerpServiceError>)
    ensures
        match r {
            Ok(()) => status_code == 200,
            Err(e) => status_code != 200 && e == (SerpServiceError::StatusError { status_code }),
        },
{
    if status_code == 200 {
        Ok(())
    } else {
        Err(SerpServiceError::StatusError { status_code })
    }
}

/// The delay cap of the retry policy, in delay units. An attempt whose
/// backoff has grown past the cap is not retried again.
pub const MAXIMUM_BACKOFF: u64 = 64;

/// The backoff of the first retry, in delay units.
pub const INITIAL_BACKOFF: u64 = 1;

/// What the retry loop does next after one search attempt.
pub enum RetryDecision {
    /// The attempt succeeded: hand the results on.
    Success(Vec<(String, String)>),
    /// The response shape could not be read: never retried.
    Terminal(SerpServiceError),
    /// Retries are exhausted: surface the failure to the caller.
    Exhausted(SerpServiceError),
    /// Wait `delay` units, then try again with the doubled backoff.
    RetryAfter { delay: u64, next_backoff: u64 },
}

/// One step of the retry policy: success passes through, a terminal failure
/// is never retried, any other failure is retried with exponential backoff
/// until the delay would pass the cap.
pub fn search_retry_step(backoff: u64, outcome: Result<Vec<(String, String)>, SerpServiceError>)
    -> (d: RetryDecision)
    requires
        INITIAL_BACKOFF <= backoff <= 2 * MAXIMUM_BACKOFF,
    ensures
        match outcome {
            Ok(v) => d == RetryDecision::Success(v),
            Err(e) => {
                if is_terminal_failure(e) {
                    d == RetryDecision::Terminal(e)
                } else if backoff > MAXIMUM_BACKOFF {
                    d == RetryDecision::Exhausted(e)
                } else {
                    d == (RetryDecision::RetryAfter { delay: backoff, next_backoff: (2 * backoff) as u64 })
                }
            },
        },
{
    match outcome {
        Ok(v) => RetryDecision::Success(v),
        Err(e) => {
            match e {
                SerpServiceError::JsonFailedError => RetryDecision::Terminal(e),
                _ => {
                    if backoff > MAXIMUM_BACKOFF {
                        RetryDecision::Exhausted(e)
                    } else {
                        RetryDecision::RetryAfter { delay: backoff, next_backoff: 2 * backoff }
                    }
                },
            }
        },
    }
}

} // verus!
