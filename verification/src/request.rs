//! Request and outcome records.
//!
//! A request's custom body and the responses travel as raw JSON text; the
//! caller decodes input lines into [`ApiRequest`] values and encodes the
//! outcome records for its sinks.

use vstd::prelude::*;
use vstd::string::{StrSliceExecFns, StringExecFns};

verus! {

/// A request read from the input stream.
pub struct ApiRequest {
    /// The main input content, for default request bodies.
    pub input: Option<String>,
    /// Custom request body as raw JSON text; sent verbatim when present.
    pub body: Option<String>,
    /// Custom headers for this specific request.
    pub headers: Option<Vec<(String, String)>>,
    /// Passthrough metadata: keys with raw JSON values.
    pub metadata: Vec<(String, String)>,
    /// One-based line number in the input stream; zero when absent.
    pub line_number: usize,
}

/// What `serde_json` produces when it encodes the string `s` as a JSON
/// string: a quoted, escaped literal.
pub uninterp spec fn json_quoted(s: Seq<char>) -> Seq<char>;

/// Relies on `serde_json::to_string` on a string slice: the result is the
/// JSON string literal encoding `s`, and depends on its characters alone.
#[verifier::external_body]
fn json_quote(s: &str) -> (r: String)
    ensures
        r@ == json_quoted(s@),
{
    serde_json::to_string(s).unwrap_or_default()
}

/// The default request body sent to a chat-completion endpoint for
/// `content`, with `model` merged at top level when configured.
pub open spec fn spec_llm_body(content: Seq<char>, model: Option<Seq<char>>) -> Seq<char> {
    let head = "{\"messages\":[{\"role\":\"user\",\"content\":"@ + json_quoted(content) + "}]"@;
    match model {
        Some(m) => head + ",\"model\":"@ + json_quoted(m) + "}"@,
        None => head + "}"@,
    }
}

/// The body that a request sends: its custom body verbatim when present,
/// else the default body built from its input (empty when absent).
pub open spec fn spec_request_body(req: ApiRequest, model: Option<Seq<char>>) -> Seq<char> {
    match req.body {
        Some(b) => b@,
        None => spec_llm_body(
            match req.input {
                Some(s) => s@,
                None => Seq::empty(),
            },
            model,
        ),
    }
}

impl ApiRequest {
    /// A request holding only input text.
    pub fn simple(input: &str) -> (r: ApiRequest)
        ensures
            r.input matches Some(s) && s@ == input@,
            r.body is None,
            r.headers is None,
            r.metadata@.len() == 0,
            r.line_number == 0,
    {
        ApiRequest {
            input: Some(input.to_owned()),
            body: None,
            headers: None,
            metadata: Vec::new(),
            line_number: 0,
        }
    }

    /// A request holding only a custom body, as raw JSON text.
    pub fn with_body(body: String) -> (r: ApiRequest)
        ensures
            r.input is None,
            r.body matches Some(b) && b == body,
            r.headers is None,
            r.metadata@.len() == 0,
            r.line_number == 0,
    {
        ApiRequest {
            input: None,
            body: Some(body),
            headers: None,
            metadata: Vec::new(),
            line_number: 0,
        }
    }

    /// Build the body to send: the custom body verbatim when present, else
    /// the default body (the endpoint-level model only applies to the
    /// default body).
    pub fn build_llm_body(&self, model: Option<&str>) -> (r: String)
        ensures
            r@ == spec_request_body(
                *self,
                match model {
                    Some(m) => Some(m@),
                    None => None,
                },
            ),
    {
        match &self.body {
            Some(b) => b.clone(),
            None => {
                let content: &str = match &self.input {
                    Some(s) => s.as_str(),
                    None => "",
                };
                proof {
                    reveal_strlit("");
                    assert(""@ =~= Seq::<char>::empty());
                    assert(content@ == (match self.input {
                        Some(s) => s@,
                        None => Seq::<char>::empty(),
                    }));
                }
                let quoted = json_quote(content);
                let mut r = String::from_str("{\"messages\":[{\"role\":\"user\",\"content\":");
                r.append(quoted.as_str());
                r.append("}]");
                match model {
                    Some(m) => {
                        r.append(",\"model\":");
                        let qm = json_quote(m);
                        r.append(qm.as_str());
                        r.append("}");
                        proof {
                            assert(r@ =~= spec_llm_body(content@, Some(m@)));
                        }
                    }
                    None => {
                        r.append("}");
                        proof {
                            assert(r@ =~= spec_llm_body(content@, None));
                        }
                    }
                }
                r
            }
        }
    }

    /// A short display form of the request for logging: the input text,
    /// cut to 50 characters.
    pub fn display_input(&self) -> (r: String)
        ensures
            match self.input {
                Some(s) => (s@.len() > 50 ==> r@ == s@.subrange(0, 50) + "..."@) && (s@.len()
                    <= 50 ==> r@ == s@),
                None => r@ == (if self.body is Some {
                    "[custom body]"@
                } else {
                    "[empty]"@
                }),
            },
    {
        match &self.input {
            Some(s) => {
                let n = s.as_str().unicode_len();
                if n > 50 {
                    let head = s.as_str().substring_char(0, 50);
                    let mut r = String::from_str(head);
                    r.append("...");
                    r
                } else {
                    s.clone()
                }
            }
            None => {
                if self.body.is_some() {
                    String::from_str("[custom body]")
                } else {
                    String::from_str("[empty]")
                }
            }
        }
    }
}

/// A successful outcome.
pub struct ApiResponse {
    /// The original input, echoed for correlation.
    pub input: Option<String>,
    /// The response body from the endpoint, as raw JSON text.
    pub response: String,
    /// Metadata about how the response was obtained.
    pub metadata: Option<ResponseMetadata>,
}

/// Metadata carried by a successful outcome.
pub struct ResponseMetadata {
    /// URL of the endpoint that handled the request.
    pub endpoint: String,
    /// Latency of the whole request in milliseconds.
    pub latency_ms: u64,
    /// Number of attempts made.
    pub attempts: u32,
}

impl ApiResponse {
    /// A response without metadata.
    pub fn new(input: Option<String>, response: String) -> (r: ApiResponse)
        ensures
            r.input == input,
            r.response == response,
            r.metadata is None,
    {
        ApiResponse { input, response, metadata: None }
    }

    /// The same response with metadata attached.
    pub fn with_metadata(self, metadata: ResponseMetadata) -> (r: ApiResponse)
        ensures
            r.input == self.input,
            r.response == self.response,
            r.metadata matches Some(m) && m == metadata,
    {
        ApiResponse { metadata: Some(metadata), ..self }
    }
}

/// A failed outcome, echoing the request for replay.
pub struct ErrorResponse {
    /// The original input that failed.
    pub input: Option<String>,
    /// The original custom body, as raw JSON text.
    pub body: Option<String>,
    /// Error message of the last attempt.
    pub error: String,
    /// HTTP status code of the last attempt, when one was received.
    pub status_code: Option<u16>,
    /// One-based line number in the input stream; zero when absent.
    pub line_number: usize,
    /// Number of attempts made.
    pub attempts: u32,
}

impl ErrorResponse {
    /// A failure record echoing `request`, without a status code.
    pub fn new(request: &ApiRequest, error: String, attempts: u32) -> (r: ErrorResponse)
        ensures
            r.input == request.input,
            r.body == request.body,
            r.error == error,
            r.status_code is None,
            r.line_number == request.line_number,
            r.attempts == attempts,
    {
        let input = match &request.input {
            Some(s) => Some(s.clone()),
            None => None,
        };
        let body = match &request.body {
            Some(s) => Some(s.clone()),
            None => None,
        };
        ErrorResponse {
            input,
            body,
            error,
            status_code: None,
            line_number: request.line_number,
            attempts,
        }
    }

    /// The same failure with an HTTP status code.
    pub fn with_status(self, status: u16) -> (r: ErrorResponse)
        ensures
            r == (ErrorResponse { status_code: Some(status), ..self }),
    {
        ErrorResponse { status_code: Some(status), ..self }
    }
}

/// The terminal outcome of one request.
pub enum RequestResult {
    /// The request succeeded.
    Success(ApiResponse),
    /// The request failed after all permitted attempts.
    Failure(ErrorResponse),
}

impl RequestResult {
    /// Whether this outcome is a success.
    pub fn is_success(&self) -> (r: bool)
        ensures
            r == (self is Success),
    {
        match self {
            RequestResult::Success(_) => true,
            RequestResult::Failure(_) => false,
        }
    }
}

} // verus!
