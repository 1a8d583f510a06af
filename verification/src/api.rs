//! Client for the inference API: base-URL validation, endpoint
//! addresses, the decisions that turn a status and body into a typed
//! result, and the consumer that folds a decoded stream into its text.
//! The network I/O itself happens outside; this module owns everything
//! that can be decided from plain values.

use vstd::prelude::*;
use crate::errors::ClientError;
use crate::models::{ChatCompletionChunk, ChatCompletionResponse, ListModelsResponse,
    ModelInfoResponse, spec_decode_chat_response, spec_decode_error_response,
    spec_decode_models_response, spec_decode_model_info, decode_chat_response,
    decode_error_response, decode_models_response, decode_model_info_response};

verus! {

#[verifier::external_type_specification]
#[verifier::external_body]
pub struct ExReqwestClient(reqwest::Client);

/// Builds the pooled HTTP client with the transport timeouts: 60 s for
/// a whole request, 10 s to connect.
///
/// Relies on `reqwest::Client::builder`, `ClientBuilder::timeout`,
/// `ClientBuilder::connect_timeout` and `ClientBuilder::build`; a build
/// failure is wrapped as a transport-level failure of our own.
#[verifier::external_body]
fn build_http_client() -> (r: Result<reqwest::Client, ClientError>)
    ensures
        r matches Err(e) ==> e matches ClientError::RequestFailed(_),
{
    match reqwest::Client::builder()
        .timeout(core::time::Duration::from_secs(60))
        .connect_timeout(core::time::Duration::from_secs(10))
        .build()
    {
        Ok(c) => Ok(c),
        Err(e) => Err(ClientError::RequestFailed(e.to_string())),
    }
}

/// Whether `p` is a prefix of `s`.
pub open spec fn has_prefix(s: Seq<char>, p: Seq<char>) -> bool {
    p.len() <= s.len() && s.subrange(0, p.len() as int) == p
}

/// Checks a literal prefix.
fn starts_with_lit(s: &str, p: &str) -> (b: bool)
    ensures
        b == has_prefix(s@, p@),
{
    let n = p.unicode_len();
    if n > s.unicode_len() {
        return false;
    }
    let mut k: usize = 0;
    while k < n
        invariant
            k <= n,
            n == p@.len(),
            n <= s@.len(),
            forall|q: int| 0 <= q < k ==> s@[q] == p@[q],
        decreases n - k,
    {
        if s.get_char(k) != p.get_char(k) {
            proof {
                assert(s@.subrange(0, n as int)[k as int] == s@[k as int]);
            }
            return false;
        }
        k += 1;
    }
    proof {
        assert(s@.subrange(0, n as int) =~= p@);
    }
    true
}

/// A well-formed base URL starts with `http://` or `https://`.
pub open spec fn valid_base_url(s: Seq<char>) -> bool {
    has_prefix(s, "http://"@) || has_prefix(s, "https://"@)
}

/// The URL with its trailing slashes removed.
pub open spec fn trim_end_slashes(s: Seq<char>) -> Seq<char>
    decreases s.len(),
{
    if s.len() > 0 && s.last() == '/' {
        trim_end_slashes(s.drop_last())
    } else {
        s
    }
}

/// Removes trailing slashes.
fn trim_trailing_slashes(s: &str) -> (r: String)
    ensures
        r@ == trim_end_slashes(s@),
{
    let n = s.unicode_len();
    let mut end = n;
    proof {
        assert(s@.subrange(0, n as int) =~= s@);
    }
    while end > 0 && s.get_char(end - 1) == '/'
        invariant
            end <= n,
            n == s@.len(),
            trim_end_slashes(s@) == trim_end_slashes(s@.subrange(0, end as int)),
        decreases end,
    {
        proof {
            let cur = s@.subrange(0, end as int);
            assert(cur.last() == s@[end - 1]);
            assert(cur.drop_last() =~= s@.subrange(0, end - 1));
        }
        end -= 1;
    }
    proof {
        let cur = s@.subrange(0, end as int);
        if end > 0 {
            assert(cur.last() == s@[end - 1]);
        }
        assert(trim_end_slashes(cur) == cur);
    }
    s.substring_char(0, end).to_owned()
}

/// Client for interacting with the inference API. It owns the pooled
/// HTTP connection resource and its base URL, and no conversation
/// state.
pub struct OllamaClient {
    /// HTTP client
    client: reqwest::Client,
    /// API base URL, normalized without a trailing slash
    api_url: String,
}

impl View for OllamaClient {
    type V = Seq<char>;

    /// A client is characterized by its base URL.
    closed spec fn view(&self) -> Seq<char> {
        self.api_url@
    }
}

impl OllamaClient {
    /// Create a new client. The base URL must start with `http://` or
    /// `https://`; it is stored with trailing slashes removed.
    pub fn new(api_url: &str) -> (r: Result<Self, ClientError>)
        ensures
            !valid_base_url(api_url@) ==> (r matches Err(e) && e
                == ClientError::InvalidConfiguration),
            r matches Ok(c) ==> valid_base_url(api_url@) && c@ == trim_end_slashes(
                api_url@,
            ),
            valid_base_url(api_url@) ==> match r {
                Ok(_) => true,
                Err(e) => e matches ClientError::RequestFailed(_),
            },
    {
        if !(starts_with_lit(api_url, "http://") || starts_with_lit(api_url, "https://")) {
            return Err(ClientError::InvalidConfiguration);
        }
        let client = match build_http_client() {
            Ok(c) => c,
            Err(e) => {
                return Err(e);
            },
        };
        Ok(OllamaClient { client, api_url: trim_trailing_slashes(api_url) })
    }

    /// Get the API URL.
    pub fn api_url(&self) -> (r: &str)
        ensures
            r@ == self@,
    {
        self.api_url.as_str()
    }

    /// Borrow the pooled HTTP client, for the caller performing the
    /// actual network I/O.
    pub fn http_client(&self) -> &reqwest::Client {
        &self.client
    }

    /// The endpoint that lists models.
    pub fn tags_url(&self) -> (r: String)
        ensures
            r@ == self@ + "/api/tags"@,
    {
        let mut u = self.api_url.clone();
        u.append("/api/tags");
        u
    }

    /// The endpoint that reports model metadata.
    pub fn show_url(&self) -> (r: String)
        ensures
            r@ == self@ + "/api/show"@,
    {
        let mut u = self.api_url.clone();
        u.append("/api/show");
        u
    }

    /// The endpoint that generates chat completions.
    pub fn chat_url(&self) -> (r: String)
        ensures
            r@ == self@ + "/api/chat"@,
    {
        let mut u = self.api_url.clone();
        u.append("/api/chat");
        u
    }
}

/// A success status.
pub open spec fn is_success_status(status: u16) -> bool {
    200 <= status && status <= 299
}

/// The message reported for a failure body: the structured error field
/// when the body carries one, the raw body otherwise.
pub open spec fn spec_failure_text(body: Seq<char>) -> Seq<char> {
    match spec_decode_error_response(body) {
        Some(er) => er.error,
        None => body,
    }
}

/// Turns a failure body into the reported server error.
fn failure_of(status: u16, body: &str) -> (r: ClientError)
    ensures
        r matches ClientError::ServerError(st, m) && st == status && m@ == spec_failure_text(
            body@,
        ),
{
    match decode_error_response(body) {
        Some(er) => ClientError::ServerError(status, er.error),
        None => ClientError::ServerError(status, body.to_owned()),
    }
}

/// Decides the outcome of a list models request from the response
/// status and body.
pub fn parse_models_body(status: u16, body: &str) -> (r: Result<ListModelsResponse, ClientError>)
    ensures
        !is_success_status(status) ==> (r matches Err(e) && (e matches ClientError::ServerError(
            st,
            m,
        ) && st == status && m@ == spec_failure_text(body@))),
        is_success_status(status) ==> match spec_decode_models_response(body@) {
            Some(t) => r matches Ok(x) && x@ == t,
            None => r matches Err(e) && e == ClientError::DecodeError,
        },
{
    if status < 200 || status > 299 {
        Err(failure_of(status, body))
    } else {
        decode_models_response(body)
    }
}

/// Decides the outcome of a model info request from the response
/// status and body.
pub fn parse_model_info_body(status: u16, body: &str) -> (r: Result<
    ModelInfoResponse,
    ClientError,
>)
    ensures
        !is_success_status(status) ==> (r matches Err(e) && (e matches ClientError::ServerError(
            st,
            m,
        ) && st == status && m@ == spec_failure_text(body@))),
        is_success_status(status) ==> match spec_decode_model_info(body@) {
            Some(t) => r matches Ok(x) && x@ == t,
            None => r matches Err(e) && e == ClientError::DecodeError,
        },
{
    if status < 200 || status > 299 {
        Err(failure_of(status, body))
    } else {
        decode_model_info_response(body)
    }
}

/// Decides the outcome of a non-streaming chat completion from the
/// response status and body.
pub fn parse_chat_completion_body(status: u16, body: &str) -> (r: Result<
    ChatCompletionResponse,
    ClientError,
>)
    ensures
        !is_success_status(status) ==> (r matches Err(e) && (e matches ClientError::ServerError(
            st,
            m,
        ) && st == status && m@ == spec_failure_text(body@))),
        is_success_status(status) ==> match spec_decode_chat_response(body@) {
            Some(t) => r matches Ok(x) && x@ == t,
            None => r matches Err(e) && e == ClientError::DecodeError,
        },
{
    if status < 200 || status > 299 {
        Err(failure_of(status, body))
    } else {
        decode_chat_response(body)
    }
}

impl OllamaClient {
    /// Whether the service answered a model listing request at all: any
    /// listing means the connection works, any error means it does not.
    pub fn check_connection(outcome: &Result<ListModelsResponse, ClientError>) -> (r: bool)
        ensures
            r == (outcome is Ok),
    {
        outcome.is_ok()
    }

    /// Maps the outcome of a model info request to "does the model
    /// exist": metadata means yes, a 404 means no, any other error
    /// propagates.
    pub fn check_model_exists(outcome: Result<ModelInfoResponse, ClientError>) -> (r: Result<
        bool,
        ClientError,
    >)
        ensures
            match outcome {
                Ok(_) => r matches Ok(b) && b,
                Err(e) => match e {
                    ClientError::ServerError(st, m) => if st == 404 {
                        r matches Ok(b) && !b
                    } else {
                        r matches Err(e2) && e2 == ClientError::ServerError(st, m)
                    },
                    _ => r matches Err(e2) && e2 == e,
                },
            },
    {
        match outcome {
            Ok(_) => Ok(true),
            Err(e) => match e {
                ClientError::ServerError(st, m) => {
                    if st == 404 {
                        Ok(false)
                    } else {
                        Err(ClientError::ServerError(st, m))
                    }
                },
                other => Err(other),
            },
        }
    }
}

/// The content a decoded chunk contributes.
pub open spec fn chunk_content(c: Result<ChatCompletionChunk, ClientError>) -> Seq<char> {
    match c {
        Ok(c) => c.message.content@,
        Err(_) => Seq::empty(),
    }
}

/// The text a decoded fragment sequence folds to: the concatenated
/// contents up to and including the first `done` fragment, the text so
/// far if the sequence ends early, or the first error.
pub open spec fn spec_stream_text(cs: Seq<Result<ChatCompletionChunk, ClientError>>) -> Result<
    Seq<char>,
    ClientError,
>
    decreases cs.len(),
{
    if cs.len() == 0 {
        Result::Ok(Seq::empty())
    } else {
        match cs.first() {
            Err(e) => Result::Err(e),
            Ok(c) => if c.done {
                Result::Ok(c.message.content@)
            } else {
                match spec_stream_text(cs.drop_first()) {
                    Result::Ok(rest) => Result::Ok(c.message.content@ + rest),
                    Result::Err(e) => Result::Err(e),
                }
            },
        }
    }
}

/// The concatenated contents of the first `k` fragments.
pub open spec fn prefix_content(cs: Seq<Result<ChatCompletionChunk, ClientError>>, k: int) -> Seq<
    char,
>
    decreases k,
{
    if k <= 0 || cs.len() == 0 {
        Seq::empty()
    } else {
        chunk_content(cs.first()) + prefix_content(cs.drop_first(), k - 1)
    }
}

/// One more fragment extends the prefix text at the back.
proof fn lemma_prefix_content_snoc(cs: Seq<Result<ChatCompletionChunk, ClientError>>, k: int)
    requires
        0 <= k < cs.len(),
    ensures
        prefix_content(cs, k + 1) == prefix_content(cs, k) + chunk_content(cs[k]),
    decreases k,
{
    if k == 0 {
        assert(prefix_content(cs.drop_first(), 0) =~= Seq::<char>::empty());
        assert(prefix_content(cs, 0) =~= Seq::<char>::empty());
        assert(prefix_content(cs, 1) =~= prefix_content(cs, 0) + chunk_content(cs[0]));
    } else {
        lemma_prefix_content_snoc(cs.drop_first(), k - 1);
        assert(cs.drop_first()[k - 1] == cs[k]);
        assert(prefix_content(cs, k + 1) =~= prefix_content(cs, k) + chunk_content(cs[k]));
    }
}

/// Folding from position `k` after a clean prefix: the whole fold is
/// the prefix text joined with the fold of the remainder.
proof fn lemma_stream_text_skip(cs: Seq<Result<ChatCompletionChunk, ClientError>>, k: int)
    requires
        0 <= k <= cs.len(),
        forall|j: int|
            0 <= j < k ==> ((#[trigger] cs[j]) matches Ok(c) && !c.done),
    ensures
        spec_stream_text(cs) == match spec_stream_text(cs.subrange(k, cs.len() as int)) {
            Result::Ok(rest) => Result::<Seq<char>, ClientError>::Ok(prefix_content(cs, k) + rest),
            Result::Err(e) => Result::<Seq<char>, ClientError>::Err(e),
        },
    decreases k,
{
    if k == 0 {
        assert(cs.subrange(0, cs.len() as int) =~= cs);
        assert(prefix_content(cs, 0) =~= Seq::<char>::empty());
        match spec_stream_text(cs) {
            Result::Ok(rest) => {
                assert(prefix_content(cs, 0) + rest =~= rest);
            },
            Result::Err(_) => {},
        }
    } else {
        assert(cs[0] matches Ok(c) && !c.done);
        lemma_stream_text_skip(cs.drop_first(), k - 1);
        assert(cs.drop_first().subrange(k - 1, cs.drop_first().len() as int) =~= cs.subrange(
            k,
            cs.len() as int,
        ));
        match spec_stream_text(cs.subrange(k, cs.len() as int)) {
            Result::Ok(rest) => {
                assert(chunk_content(cs.first()) + (prefix_content(cs.drop_first(), k - 1) + rest)
                    =~= prefix_content(cs, k) + rest);
            },
            Result::Err(_) => {},
        }
    }
}

impl OllamaClient {
    /// Process a decoded streaming response into a complete message:
    /// concatenates fragment contents until the first `done` fragment
    /// (or the end of the stream), or reports the first error.
    #[verifier::loop_isolation(false)]
    pub fn process_stream_to_string(
        chunks: Vec<Result<ChatCompletionChunk, ClientError>>,
    ) -> (r: Result<String, ClientError>)
        ensures
            match spec_stream_text(chunks@) {
                Result::Ok(t) => r matches Ok(s) && s@ == t,
                Result::Err(e) => r matches Err(e2) && e2 == e,
            },
    {
        let ghost orig = chunks@;
        let total: usize = chunks.len();
        let mut chunks = chunks;
        let mut result = String::new();
        let mut k: usize = 0;
        loop
            invariant
                total == orig.len(),
                k <= total,
                chunks@ == orig.subrange(k as int, orig.len() as int),
                forall|j: int|
                    0 <= j < k ==> ((#[trigger] orig[j]) matches Ok(c) && !c.done),
                result@ == prefix_content(orig, k as int),
            decreases orig.len() - k,
        {
            if chunks.len() == 0 {
                break ;
            }
            let item = chunks.remove(0);
            proof {
                assert(item == orig[k as int]);
                assert(chunks@ =~= orig.subrange(k as int + 1, orig.len() as int));
            }
            match item {
                Err(e) => {
                    proof {
                        lemma_stream_text_skip(orig, k as int);
                        assert(orig.subrange(k as int, orig.len() as int).first() == orig[
                            k as int
                        ]);
                    }
                    return Err(e);
                },
                Ok(c) => {
                    result.append(c.message.content.as_str());
                    proof {
                        lemma_prefix_content_snoc(orig, k as int);
                    }
                    if c.done {
                        proof {
                            lemma_stream_text_skip(orig, k as int);
                            assert(orig.subrange(k as int, orig.len() as int).first() == orig[
                                k as int
                            ]);
                        }
                        return Ok(result);
                    }
                    proof {
                        assert(k < total);
                    }
                    k += 1;
                },
            }
        }
        proof {
            lemma_stream_text_skip(orig, k as int);
            assert(orig.subrange(k as int, orig.len() as int) =~= Seq::<
                Result<ChatCompletionChunk, ClientError>,
            >::empty());
            assert(prefix_content(orig, k as int) + Seq::<char>::empty() =~= prefix_content(
                orig,
                k as int,
            ));
        }
        Ok(result)
    }
}

/// The caller-level convention on a drained stream: a completed stream
/// that produced no text at all is an error.
pub fn require_nonempty_response(text: String) -> (r: Result<String, ClientError>)
    ensures
        text@.len() == 0 ==> (r matches Err(e) && e == ClientError::EmptyResponse),
        text@.len() > 0 ==> (r matches Ok(s) && s@ == text@),
{
    if text.as_str().is_empty() {
        Err(ClientError::EmptyResponse)
    } else {
        Ok(text)
    }
}

} // verus!
