//! Wire data types of the inference protocol, and the verified readers
//! that extract them from decoded wire values: model listings, model
//! metadata, chat completions and streaming chunks.

use vstd::prelude::*;
use crate::json::{obj_get, get_field, json_view_entries, parse_json_document,
    spec_parse_document, Json, JsonV};
use crate::text::{digits_to_u64, digits_value, is_digit, str_to_chars, u64_digits};
use crate::errors::ClientError;

verus! {

/// Request to check if a model exists.
#[derive(Debug)]
pub struct ModelInfoRequest {
    /// Name of the model to check
    pub name: String,
}

impl ModelInfoRequest {
    /// The request body naming the model to look up.
    pub fn to_body(&self) -> (r: String)
        ensures
            r@ == "{\"name\":"@ + crate::json::emit_jstr(self.name@) + "}"@,
    {
        let mut out: Vec<char> = Vec::new();
        crate::codec::push_lit(&mut out, "{\"name\":");
        crate::json::emit_jstr_chars(self.name.as_str(), &mut out);
        crate::codec::push_lit(&mut out, "}");
        crate::text::chars_to_string(&out)
    }
}

/// Request to list available models.
#[derive(Debug)]
pub struct ListModelsRequest {}

/// Chat message for requests and non-streaming responses.
#[derive(Debug)]
pub struct ChatMessage {
    /// Role of the message sender (system, user, assistant)
    pub role: String,
    /// Content of the message
    pub content: String,
}

pub ghost struct ChatMessageView {
    pub role: Seq<char>,
    pub content: Seq<char>,
}

impl View for ChatMessage {
    type V = ChatMessageView;

    open spec fn view(&self) -> ChatMessageView {
        ChatMessageView { role: self.role@, content: self.content@ }
    }
}

/// Delta of a chat message for streaming responses.
#[derive(Debug)]
pub struct ChatMessageDelta {
    /// Role of the message sender (present only on the first fragment)
    pub role: Option<String>,
    /// Content of the message delta
    pub content: String,
}

pub ghost struct ChatMessageDeltaView {
    pub role: Option<Seq<char>>,
    pub content: Seq<char>,
}

impl View for ChatMessageDelta {
    type V = ChatMessageDeltaView;

    open spec fn view(&self) -> ChatMessageDeltaView {
        ChatMessageDeltaView {
            role: match self.role {
                Some(r) => Some(r@),
                None => None,
            },
            content: self.content@,
        }
    }
}

/// Streaming response chunk from chat completion.
#[derive(Debug)]
pub struct ChatCompletionChunk {
    /// Model used for the response
    pub model: String,
    /// Created timestamp
    pub created_at: String,
    /// Response message delta
    pub message: ChatMessageDelta,
    /// Done flag
    pub done: bool,
}

pub ghost struct ChatCompletionChunkView {
    pub model: Seq<char>,
    pub created_at: Seq<char>,
    pub message: ChatMessageDeltaView,
    pub done: bool,
}

impl View for ChatCompletionChunk {
    type V = ChatCompletionChunkView;

    open spec fn view(&self) -> ChatCompletionChunkView {
        ChatCompletionChunkView {
            model: self.model@,
            created_at: self.created_at@,
            message: self.message@,
            done: self.done,
        }
    }
}

/// Response from chat completion request (non-streaming).
#[derive(Debug)]
pub struct ChatCompletionResponse {
    /// Model used for the response
    pub model: String,
    /// Created timestamp
    pub created_at: String,
    /// Response message
    pub message: ChatMessage,
    /// Done flag
    pub done: bool,
}

pub ghost struct ChatCompletionResponseView {
    pub model: Seq<char>,
    pub created_at: Seq<char>,
    pub message: ChatMessageView,
    pub done: bool,
}

impl View for ChatCompletionResponse {
    type V = ChatCompletionResponseView;

    open spec fn view(&self) -> ChatCompletionResponseView {
        ChatCompletionResponseView {
            model: self.model@,
            created_at: self.created_at@,
            message: self.message@,
            done: self.done,
        }
    }
}

/// Model information, one entry of a model listing.
#[derive(Debug)]
pub struct ModelInfo {
    /// Name of the model
    pub name: String,
    /// Model size in bytes
    pub size: u64,
    /// Model modification time
    pub modified_at: String,
    /// Model digest
    pub digest: Option<String>,
}

pub ghost struct ModelInfoView {
    pub name: Seq<char>,
    pub size: u64,
    pub modified_at: Seq<char>,
    pub digest: Option<Seq<char>>,
}

impl View for ModelInfo {
    type V = ModelInfoView;

    open spec fn view(&self) -> ModelInfoView {
        ModelInfoView {
            name: self.name@,
            size: self.size,
            modified_at: self.modified_at@,
            digest: match self.digest {
                Some(d) => Some(d@),
                None => None,
            },
        }
    }
}

/// Response from a list models request.
#[derive(Debug)]
pub struct ListModelsResponse {
    /// List of available models
    pub models: Vec<ModelInfo>,
}

pub ghost struct ListModelsResponseView {
    pub models: Seq<ModelInfoView>,
}

impl View for ListModelsResponse {
    type V = ListModelsResponseView;

    open spec fn view(&self) -> ListModelsResponseView {
        ListModelsResponseView { models: self.models@.map_values(|m: ModelInfo| m@) }
    }
}

/// Model details, part of the model metadata.
#[derive(Debug)]
pub struct ModelDetails {
    /// Model format
    pub format: String,
    /// Model family
    pub family: String,
    /// Model parameter size
    pub parameter_size: Option<String>,
    /// Model quantization level
    pub quantization_level: Option<String>,
}

pub ghost struct ModelDetailsView {
    pub format: Seq<char>,
    pub family: Seq<char>,
    pub parameter_size: Option<Seq<char>>,
    pub quantization_level: Option<Seq<char>>,
}

impl View for ModelDetails {
    type V = ModelDetailsView;

    open spec fn view(&self) -> ModelDetailsView {
        ModelDetailsView {
            format: self.format@,
            family: self.family@,
            parameter_size: match self.parameter_size {
                Some(p) => Some(p@),
                None => None,
            },
            quantization_level: match self.quantization_level {
                Some(q) => Some(q@),
                None => None,
            },
        }
    }
}

/// Response from a model info request.
#[derive(Debug)]
pub struct ModelInfoResponse {
    /// Name of the model
    pub name: String,
    /// Model metadata
    pub details: ModelDetails,
}

pub ghost struct ModelInfoResponseView {
    pub name: Seq<char>,
    pub details: ModelDetailsView,
}

impl View for ModelInfoResponse {
    type V = ModelInfoResponseView;

    open spec fn view(&self) -> ModelInfoResponseView {
        ModelInfoResponseView { name: self.name@, details: self.details@ }
    }
}

/// Error response from the inference server.
#[derive(Debug)]
pub struct ErrorResponse {
    /// Error message
    pub error: String,
}

pub ghost struct ErrorResponseView {
    pub error: Seq<char>,
}

impl View for ErrorResponse {
    type V = ErrorResponseView;

    open spec fn view(&self) -> ErrorResponseView {
        ErrorResponseView { error: self.error@ }
    }
}

// ---------- field readers ----------

/// A required string field.
pub open spec fn str_field(es: Seq<(Seq<char>, JsonV)>, key: Seq<char>) -> Option<Seq<char>> {
    match obj_get(es, key) {
        Some(JsonV::Str(s)) => Some(s),
        _ => None,
    }
}

/// A required boolean field.
pub open spec fn bool_field(es: Seq<(Seq<char>, JsonV)>, key: Seq<char>) -> Option<bool> {
    match obj_get(es, key) {
        Some(JsonV::Bool(b)) => Some(b),
        _ => None,
    }
}

/// An optional string field: absent or null both mean "no value".
pub open spec fn opt_str_field(es: Seq<(Seq<char>, JsonV)>, key: Seq<char>) -> Option<
    Option<Seq<char>>,
> {
    match obj_get(es, key) {
        None => Some(None),
        Some(JsonV::Null) => Some(None),
        Some(JsonV::Str(s)) => Some(Some(s)),
        _ => None,
    }
}

/// The `u64` denoted by a number token: digits only, within range.
pub open spec fn spec_num_u64(raw: Seq<char>) -> Option<u64> {
    if raw.len() == 0 {
        None
    } else if exists|i: int| 0 <= i < raw.len() && !is_digit(raw[i]) {
        None
    } else if digits_value(raw) > u64::MAX {
        None
    } else {
        Some(digits_value(raw) as u64)
    }
}

/// A required unsigned integer field.
pub open spec fn u64_field(es: Seq<(Seq<char>, JsonV)>, key: Seq<char>) -> Option<u64> {
    match obj_get(es, key) {
        Some(JsonV::Num(raw)) => spec_num_u64(raw),
        _ => None,
    }
}

/// Reads a required string field.
fn get_str_field(es: &Vec<(String, Json)>, key: &str) -> (r: Option<String>)
    ensures
        match str_field(json_view_entries(es@), key@) {
            Some(t) => r matches Some(s) && s@ == t,
            None => r is None,
        },
{
    match get_field(es, key) {
        Some(j) => match j {
            Json::Str(s) => Some(s.clone()),
            _ => None,
        },
        None => None,
    }
}

/// Reads a required boolean field.
fn get_bool_field(es: &Vec<(String, Json)>, key: &str) -> (r: Option<bool>)
    ensures
        r == bool_field(json_view_entries(es@), key@),
{
    match get_field(es, key) {
        Some(j) => match j {
            Json::Bool(b) => Some(*b),
            _ => None,
        },
        None => None,
    }
}

/// Reads an optional string field.
fn get_opt_str_field(es: &Vec<(String, Json)>, key: &str) -> (r: Option<Option<String>>)
    ensures
        match opt_str_field(json_view_entries(es@), key@) {
            Some(Some(t)) => r matches Some(o) && (o matches Some(s) && s@ == t),
            Some(None) => r == Some(Option::<String>::None),
            None => r is None,
        },
{
    match get_field(es, key) {
        Some(j) => match j {
            Json::Str(s) => Some(Some(s.clone())),
            Json::Null => Some(None),
            _ => None,
        },
        None => Some(None),
    }
}

/// Whether every character is a decimal digit.
fn all_digits(v: &Vec<char>) -> (b: bool)
    ensures
        b == (forall|i: int| 0 <= i < v@.len() ==> is_digit(#[trigger] v@[i])),
{
    let mut k: usize = 0;
    while k < v.len()
        invariant
            k <= v@.len(),
            forall|i: int| 0 <= i < k ==> is_digit(#[trigger] v@[i]),
        decreases v@.len() - k,
    {
        let c = v[k];
        if !('0' <= c && c <= '9') {
            return false;
        }
        k += 1;
    }
    true
}

/// Reads a required unsigned integer field.
fn get_u64_field(es: &Vec<(String, Json)>, key: &str) -> (r: Option<u64>)
    ensures
        r == u64_field(json_view_entries(es@), key@),
{
    match get_field(es, key) {
        Some(j) => match j {
            Json::Num(s) => {
                let chars = str_to_chars(s.as_str());
                if chars.len() == 0 {
                    return None;
                }
                if !all_digits(&chars) {
                    return None;
                }
                proof {
                    assert(chars@.subrange(0, chars@.len() as int) =~= chars@);
                }
                digits_to_u64(&chars, 0, chars.len())
            },
            _ => None,
        },
        None => None,
    }
}

// ---------- schema readers ----------

/// The message delta a wire value denotes.
pub open spec fn spec_delta_of(v: JsonV) -> Option<ChatMessageDeltaView> {
    match v {
        JsonV::Obj(es) => match opt_str_field(es, "role"@) {
            Some(role) => match str_field(es, "content"@) {
                Some(content) => Some(ChatMessageDeltaView { role, content }),
                None => None,
            },
            None => None,
        },
        _ => None,
    }
}

/// The streaming chunk a wire value denotes.
pub open spec fn spec_chunk_of(v: JsonV) -> Option<ChatCompletionChunkView> {
    match v {
        JsonV::Obj(es) => match str_field(es, "model"@) {
            Some(model) => match str_field(es, "created_at"@) {
                Some(created_at) => match obj_get(es, "message"@) {
                    Some(mv) => match spec_delta_of(mv) {
                        Some(message) => match bool_field(es, "done"@) {
                            Some(done) => Some(
                                ChatCompletionChunkView { model, created_at, message, done },
                            ),
                            None => None,
                        },
                        None => None,
                    },
                    None => None,
                },
                None => None,
            },
            None => None,
        },
        _ => None,
    }
}

/// Reads a message delta.
fn delta_from_json(j: &Json) -> (r: Option<ChatMessageDelta>)
    ensures
        match spec_delta_of(j@) {
            Some(t) => r matches Some(d) && d@ == t,
            None => r is None,
        },
{
    match j {
        Json::Obj(es) => {
            let role = match get_opt_str_field(es, "role") {
                Some(role) => role,
                None => {
                    return None;
                },
            };
            let content = match get_str_field(es, "content") {
                Some(content) => content,
                None => {
                    return None;
                },
            };
            Some(ChatMessageDelta { role, content })
        },
        _ => None,
    }
}

/// Reads a streaming chunk.
fn chunk_from_json(j: &Json) -> (r: Option<ChatCompletionChunk>)
    ensures
        match spec_chunk_of(j@) {
            Some(t) => r matches Some(c) && c@ == t,
            None => r is None,
        },
{
    match j {
        Json::Obj(es) => {
            let model = match get_str_field(es, "model") {
                Some(model) => model,
                None => {
                    return None;
                },
            };
            let created_at = match get_str_field(es, "created_at") {
                Some(created_at) => created_at,
                None => {
                    return None;
                },
            };
            let message = match get_field(es, "message") {
                Some(mj) => match delta_from_json(mj) {
                    Some(message) => message,
                    None => {
                        return None;
                    },
                },
                None => {
                    return None;
                },
            };
            let done = match get_bool_field(es, "done") {
                Some(done) => done,
                None => {
                    return None;
                },
            };
            Some(ChatCompletionChunk { model, created_at, message, done })
        },
        _ => None,
    }
}

/// The chunk a whole wire payload denotes.
pub open spec fn spec_decode_chunk(t: Seq<char>) -> Option<ChatCompletionChunkView> {
    match spec_parse_document(t) {
        Some(v) => spec_chunk_of(v),
        None => None,
    }
}

/// Decodes one transport-level chunk of a streaming response: one JSON
/// object per chunk. A chunk that does not parse is a decode error,
/// terminal for its stream.
pub fn decode_chunk(text: &str) -> (r: Result<ChatCompletionChunk, ClientError>)
    ensures
        match spec_decode_chunk(text@) {
            Some(t) => r matches Ok(c) && c@ == t,
            None => r matches Err(e) && e == ClientError::DecodeError,
        },
{
    match parse_json_document(text) {
        Some(v) => match chunk_from_json(&v) {
            Some(c) => Ok(c),
            None => Err(ClientError::DecodeError),
        },
        None => Err(ClientError::DecodeError),
    }
}

/// The full chat message a wire value denotes.
pub open spec fn spec_chat_message_of(v: JsonV) -> Option<ChatMessageView> {
    match v {
        JsonV::Obj(es) => match str_field(es, "role"@) {
            Some(role) => match str_field(es, "content"@) {
                Some(content) => Some(ChatMessageView { role, content }),
                None => None,
            },
            None => None,
        },
        _ => None,
    }
}

/// The non-streaming chat response a wire value denotes.
pub open spec fn spec_chat_response_of(v: JsonV) -> Option<ChatCompletionResponseView> {
    match v {
        JsonV::Obj(es) => match str_field(es, "model"@) {
            Some(model) => match str_field(es, "created_at"@) {
                Some(created_at) => match obj_get(es, "message"@) {
                    Some(mv) => match spec_chat_message_of(mv) {
                        Some(message) => match bool_field(es, "done"@) {
                            Some(done) => Some(
                                ChatCompletionResponseView { model, created_at, message, done },
                            ),
                            None => None,
                        },
                        None => None,
                    },
                    None => None,
                },
                None => None,
            },
            None => None,
        },
        _ => None,
    }
}

/// Reads a full chat message.
fn chat_message_from_json(j: &Json) -> (r: Option<ChatMessage>)
    ensures
        match spec_chat_message_of(j@) {
            Some(t) => r matches Some(m) && m@ == t,
            None => r is None,
        },
{
    match j {
        Json::Obj(es) => {
            let role = match get_str_field(es, "role") {
                Some(role) => role,
                None => {
                    return None;
                },
            };
            let content = match get_str_field(es, "content") {
                Some(content) => content,
                None => {
                    return None;
                },
            };
            Some(ChatMessage { role, content })
        },
        _ => None,
    }
}

/// The chat response a whole wire payload denotes.
pub open spec fn spec_decode_chat_response(t: Seq<char>) -> Option<ChatCompletionResponseView> {
    match spec_parse_document(t) {
        Some(v) => spec_chat_response_of(v),
        None => None,
    }
}

/// Decodes a non-streaming chat completion response body.
pub fn decode_chat_response(text: &str) -> (r: Result<ChatCompletionResponse, ClientError>)
    ensures
        match spec_decode_chat_response(text@) {
            Some(t) => r matches Ok(c) && c@ == t,
            None => r matches Err(e) && e == ClientError::DecodeError,
        },
{
    match parse_json_document(text) {
        Some(v) => match &v {
            Json::Obj(es) => {
                let model = match get_str_field(es, "model") {
                    Some(model) => model,
                    None => {
                        return Err(ClientError::DecodeError);
                    },
                };
                let created_at = match get_str_field(es, "created_at") {
                    Some(created_at) => created_at,
                    None => {
                        return Err(ClientError::DecodeError);
                    },
                };
                let message = match get_field(es, "message") {
                    Some(mj) => match chat_message_from_json(mj) {
                        Some(message) => message,
                        None => {
                            return Err(ClientError::DecodeError);
                        },
                    },
                    None => {
                        return Err(ClientError::DecodeError);
                    },
                };
                let done = match get_bool_field(es, "done") {
                    Some(done) => done,
                    None => {
                        return Err(ClientError::DecodeError);
                    },
                };
                Ok(ChatCompletionResponse { model, created_at, message, done })
            },
            _ => Err(ClientError::DecodeError),
        },
        None => Err(ClientError::DecodeError),
    }
}

/// The model entry a wire value denotes.
pub open spec fn spec_model_info_of(v: JsonV) -> Option<ModelInfoView> {
    match v {
        JsonV::Obj(es) => match str_field(es, "name"@) {
            Some(name) => match u64_field(es, "size"@) {
                Some(size) => match str_field(es, "modified_at"@) {
                    Some(modified_at) => match opt_str_field(es, "digest"@) {
                        Some(digest) => Some(
                            ModelInfoView { name, size, modified_at, digest },
                        ),
                        None => None,
                    },
                    None => None,
                },
                None => None,
            },
            None => None,
        },
        _ => None,
    }
}

/// The model entries a sequence of wire values denotes; any bad entry
/// spoils the listing.
pub open spec fn spec_models_of(vs: Seq<JsonV>) -> Option<Seq<ModelInfoView>>
    decreases vs.len(),
{
    if vs.len() == 0 {
        Some(Seq::empty())
    } else {
        match spec_models_of(vs.drop_last()) {
            Some(ms) => match spec_model_info_of(vs.last()) {
                Some(m) => Some(ms.push(m)),
                None => None,
            },
            None => None,
        }
    }
}

/// A spoiled prefix spoils the whole listing.
proof fn lemma_models_prefix_none(vs: Seq<JsonV>, k: int)
    requires
        0 <= k <= vs.len(),
        spec_models_of(vs.subrange(0, k)) is None,
    ensures
        spec_models_of(vs) is None,
    decreases vs.len() - k,
{
    if k < vs.len() {
        assert(vs.subrange(0, k + 1).drop_last() =~= vs.subrange(0, k));
        lemma_models_prefix_none(vs, k + 1);
    } else {
        assert(vs.subrange(0, k) =~= vs);
    }
}

/// Reads one model entry.
fn model_info_from_json(j: &Json) -> (r: Option<ModelInfo>)
    ensures
        match spec_model_info_of(j@) {
            Some(t) => r matches Some(m) && m@ == t,
            None => r is None,
        },
{
    match j {
        Json::Obj(es) => {
            let name = match get_str_field(es, "name") {
                Some(name) => name,
                None => {
                    return None;
                },
            };
            let size = match get_u64_field(es, "size") {
                Some(size) => size,
                None => {
                    return None;
                },
            };
            let modified_at = match get_str_field(es, "modified_at") {
                Some(modified_at) => modified_at,
                None => {
                    return None;
                },
            };
            let digest = match get_opt_str_field(es, "digest") {
                Some(digest) => digest,
                None => {
                    return None;
                },
            };
            Some(ModelInfo { name, size, modified_at, digest })
        },
        _ => None,
    }
}

/// The model listing a wire value denotes.
pub open spec fn spec_models_response_of(v: JsonV) -> Option<ListModelsResponseView> {
    match v {
        JsonV::Obj(es) => match obj_get(es, "models"@) {
            Some(JsonV::Arr(vs)) => match spec_models_of(vs) {
                Some(ms) => Some(ListModelsResponseView { models: ms }),
                None => None,
            },
            _ => None,
        },
        _ => None,
    }
}

/// The model listing a whole wire payload denotes.
pub open spec fn spec_decode_models_response(t: Seq<char>) -> Option<ListModelsResponseView> {
    match spec_parse_document(t) {
        Some(v) => spec_models_response_of(v),
        None => None,
    }
}

/// Decodes a list models response body.
#[verifier::loop_isolation(false)]
pub fn decode_models_response(text: &str) -> (r: Result<ListModelsResponse, ClientError>)
    ensures
        match spec_decode_models_response(text@) {
            Some(t) => r matches Ok(c) && c@ == t,
            None => r matches Err(e) && e == ClientError::DecodeError,
        },
{
    let v = match parse_json_document(text) {
        Some(v) => v,
        None => {
            return Err(ClientError::DecodeError);
        },
    };
    match &v {
        Json::Obj(es) => {
            match get_field(es, "models") {
                Some(mj) => match mj {
                    Json::Arr(vs) => {
                        let ghost vviews = crate::json::json_view_seq(vs@);
                        proof {
                            crate::json::lemma_json_view_seq_index(vs@);
                        }
                        let mut models: Vec<ModelInfo> = Vec::new();
                        let mut idx: usize = 0;
                        proof {
                            assert(vviews.subrange(0, 0) =~= Seq::<JsonV>::empty());
                            assert(models@.map_values(|m: ModelInfo| m@) =~= Seq::<
                                ModelInfoView,
                            >::empty());
                        }
                        while idx < vs.len()
                            invariant
                                idx <= vs@.len(),
                                vviews == crate::json::json_view_seq(vs@),
                                vviews.len() == vs@.len(),
                                forall|k: int|
                                    0 <= k < vs@.len() ==> vviews[k] == crate::json::json_view(
                                        #[trigger] vs@[k],
                                    ),
                                spec_models_of(vviews.subrange(0, idx as int)) matches Some(ms)
                                    && models@.map_values(|m: ModelInfo| m@) == ms,
                            decreases vs@.len() - idx,
                        {
                            let ghost pre = vviews.subrange(0, idx as int);
                            let ghost cur = vviews.subrange(0, idx + 1);
                            proof {
                                assert(cur.drop_last() =~= pre);
                                assert(cur.last() == vviews[idx as int]);
                            }
                            match model_info_from_json(&vs[idx]) {
                                Some(m) => {
                                    models.push(m);
                                    proof {
                                        assert(models@.map_values(|mm: ModelInfo| mm@)
                                            =~= spec_models_of(pre)->Some_0.push(m@));
                                    }
                                },
                                None => {
                                    proof {
                                        lemma_models_prefix_none(vviews, idx + 1);
                                    }
                                    return Err(ClientError::DecodeError);
                                },
                            }
                            idx += 1;
                        }
                        proof {
                            assert(vviews.subrange(0, vs@.len() as int) =~= vviews);
                        }
                        Ok(ListModelsResponse { models })
                    },
                    _ => Err(ClientError::DecodeError),
                },
                None => Err(ClientError::DecodeError),
            }
        },
        _ => Err(ClientError::DecodeError),
    }
}

/// The model details a wire value denotes.
pub open spec fn spec_details_of(v: JsonV) -> Option<ModelDetailsView> {
    match v {
        JsonV::Obj(es) => match str_field(es, "format"@) {
            Some(format) => match str_field(es, "family"@) {
                Some(family) => match opt_str_field(es, "parameter_size"@) {
                    Some(parameter_size) => match opt_str_field(es, "quantization_level"@) {
                        Some(quantization_level) => Some(
                            ModelDetailsView { format, family, parameter_size, quantization_level },
                        ),
                        None => None,
                    },
                    None => None,
                },
                None => None,
            },
            None => None,
        },
        _ => None,
    }
}

/// The model metadata a wire value denotes.
pub open spec fn spec_model_info_response_of(v: JsonV) -> Option<ModelInfoResponseView> {
    match v {
        JsonV::Obj(es) => match str_field(es, "name"@) {
            Some(name) => match obj_get(es, "details"@) {
                Some(dv) => match spec_details_of(dv) {
                    Some(details) => Some(ModelInfoResponseView { name, details }),
                    None => None,
                },
                None => None,
            },
            None => None,
        },
        _ => None,
    }
}

/// The model metadata a whole wire payload denotes.
pub open spec fn spec_decode_model_info(t: Seq<char>) -> Option<ModelInfoResponseView> {
    match spec_parse_document(t) {
        Some(v) => spec_model_info_response_of(v),
        None => None,
    }
}

/// Decodes a model info response body.
pub fn decode_model_info_response(text: &str) -> (r: Result<ModelInfoResponse, ClientError>)
    ensures
        match spec_decode_model_info(text@) {
            Some(t) => r matches Ok(c) && c@ == t,
            None => r matches Err(e) && e == ClientError::DecodeError,
        },
{
    let v = match parse_json_document(text) {
        Some(v) => v,
        None => {
            return Err(ClientError::DecodeError);
        },
    };
    match &v {
        Json::Obj(es) => {
            let name = match get_str_field(es, "name") {
                Some(name) => name,
                None => {
                    return Err(ClientError::DecodeError);
                },
            };
            let details = match get_field(es, "details") {
                Some(dj) => match dj {
                    Json::Obj(des) => {
                        let format = match get_str_field(des, "format") {
                            Some(format) => format,
                            None => {
                                return Err(ClientError::DecodeError);
                            },
                        };
                        let family = match get_str_field(des, "family") {
                            Some(family) => family,
                            None => {
                                return Err(ClientError::DecodeError);
                            },
                        };
                        let parameter_size = match get_opt_str_field(des, "parameter_size") {
                            Some(parameter_size) => parameter_size,
                            None => {
                                return Err(ClientError::DecodeError);
                            },
                        };
                        let quantization_level = match get_opt_str_field(
                            des,
                            "quantization_level",
                        ) {
                            Some(quantization_level) => quantization_level,
                            None => {
                                return Err(ClientError::DecodeError);
                            },
                        };
                        ModelDetails { format, family, parameter_size, quantization_level }
                    },
                    _ => {
                        return Err(ClientError::DecodeError);
                    },
                },
                None => {
                    return Err(ClientError::DecodeError);
                },
            };
            Ok(ModelInfoResponse { name, details })
        },
        _ => Err(ClientError::DecodeError),
    }
}

/// The error report a wire value denotes.
pub open spec fn spec_error_response_of(v: JsonV) -> Option<ErrorResponseView> {
    match v {
        JsonV::Obj(es) => match str_field(es, "error"@) {
            Some(error) => Some(ErrorResponseView { error }),
            None => None,
        },
        _ => None,
    }
}

/// The error report a whole wire payload denotes.
pub open spec fn spec_decode_error_response(t: Seq<char>) -> Option<ErrorResponseView> {
    match spec_parse_document(t) {
        Some(v) => spec_error_response_of(v),
        None => None,
    }
}

/// Decodes a structured error body, if the body is one.
pub fn decode_error_response(text: &str) -> (r: Option<ErrorResponse>)
    ensures
        match spec_decode_error_response(text@) {
            Some(t) => r matches Some(c) && c@ == t,
            None => r is None,
        },
{
    match parse_json_document(text) {
        Some(v) => match &v {
            Json::Obj(es) => match get_str_field(es, "error") {
                Some(error) => Some(ErrorResponse { error }),
                None => None,
            },
            _ => None,
        },
        None => None,
    }
}

// ---------- requests ----------

/// Parameters for text generation. The sampling parameters are fixed
/// point, given in thousandths (a temperature of 700 stands for 0.700).
#[derive(Debug)]
pub struct GenerationParameters {
    /// Temperature for sampling, in thousandths (higher = more random)
    pub temperature: Option<u32>,
    /// Top-p (nucleus) sampling, in thousandths
    pub top_p: Option<u32>,
    /// Top-k sampling
    pub top_k: Option<u32>,
    /// Maximum number of tokens to generate
    pub max_tokens: Option<u32>,
    /// Presence penalty, in thousandths
    pub presence_penalty: Option<u32>,
    /// Frequency penalty, in thousandths
    pub frequency_penalty: Option<u32>,
    /// Stop sequences (stop generation when these are generated)
    pub stop: Option<Vec<String>>,
}

pub ghost struct GenerationParametersView {
    pub temperature: Option<u32>,
    pub top_p: Option<u32>,
    pub top_k: Option<u32>,
    pub max_tokens: Option<u32>,
    pub presence_penalty: Option<u32>,
    pub frequency_penalty: Option<u32>,
    pub stop: Option<Seq<Seq<char>>>,
}

impl View for GenerationParameters {
    type V = GenerationParametersView;

    open spec fn view(&self) -> GenerationParametersView {
        GenerationParametersView {
            temperature: self.temperature,
            top_p: self.top_p,
            top_k: self.top_k,
            max_tokens: self.max_tokens,
            presence_penalty: self.presence_penalty,
            frequency_penalty: self.frequency_penalty,
            stop: match self.stop {
                Some(ss) => Some(ss@.map_values(|t: String| t@)),
                None => None,
            },
        }
    }
}

impl Default for GenerationParameters {
    fn default() -> (r: Self)
        ensures
            r.temperature is None,
            r.top_p is None,
            r.top_k is None,
            r.max_tokens is None,
            r.presence_penalty is None,
            r.frequency_penalty is None,
            r.stop is None,
    {
        GenerationParameters {
            temperature: None,
            top_p: None,
            top_k: None,
            max_tokens: None,
            presence_penalty: None,
            frequency_penalty: None,
            stop: None,
        }
    }
}

/// Request to generate a chat completion.
#[derive(Debug)]
pub struct ChatCompletionRequest {
    /// Model to use
    pub model: String,
    /// Messages in the conversation, role and content only
    pub messages: Vec<ChatMessage>,
    /// Whether to stream the response
    pub stream: Option<bool>,
    /// Additional generation parameters, flattened into the body
    pub parameters: GenerationParameters,
}

pub ghost struct ChatCompletionRequestView {
    pub model: Seq<char>,
    pub messages: Seq<ChatMessageView>,
    pub stream: Option<bool>,
    pub parameters: GenerationParametersView,
}

impl View for ChatCompletionRequest {
    type V = ChatCompletionRequestView;

    open spec fn view(&self) -> ChatCompletionRequestView {
        ChatCompletionRequestView {
            model: self.model@,
            messages: self.messages@.map_values(|m: ChatMessage| m@),
            stream: self.stream,
            parameters: self.parameters@,
        }
    }
}

/// A fixed-point value in thousandths, written with three decimals.
pub open spec fn emit_fixed3(v: u32) -> Seq<char> {
    u64_digits((v / 1000) as nat) + seq![
        '.',
        crate::text::digit_char(((v / 100) % 10) as nat),
        crate::text::digit_char(((v / 10) % 10) as nat),
        crate::text::digit_char((v % 10) as nat),
    ]
}

/// Appends the fixed-point form of `v`.
fn emit_fixed3_chars(v: u32, out: &mut Vec<char>)
    ensures
        final(out)@ == old(out)@ + emit_fixed3(v),
{
    crate::text::emit_u64((v / 1000) as u64, out);
    out.push('.');
    out.push((0x30 + ((v / 100) % 10) as u8) as char);
    out.push((0x30 + ((v / 10) % 10) as u8) as char);
    out.push((0x30 + (v % 10) as u8) as char);
    proof {
        assert(out@ =~= old(out)@ + emit_fixed3(v));
    }
}

/// The wire form of one request message.
pub open spec fn emit_wire_message(m: ChatMessageView) -> Seq<char> {
    "{\"role\":"@ + crate::json::emit_jstr(m.role) + ",\"content\":"@ + crate::json::emit_jstr(
        m.content,
    ) + "}"@
}

/// The wire form of the second and later request messages.
pub open spec fn emit_wire_messages_rest(ms: Seq<ChatMessageView>) -> Seq<char>
    decreases ms.len(),
{
    if ms.len() == 0 {
        Seq::empty()
    } else {
        seq![','] + emit_wire_message(ms.first()) + emit_wire_messages_rest(ms.drop_first())
    }
}

/// The wire form of a request message list, commas between entries.
pub open spec fn emit_wire_messages(ms: Seq<ChatMessageView>) -> Seq<char> {
    if ms.len() == 0 {
        Seq::empty()
    } else {
        emit_wire_message(ms.first()) + emit_wire_messages_rest(ms.drop_first())
    }
}

/// Appending one message extends the emitted list by a comma (when the
/// list was non-empty) and the message itself.
proof fn lemma_emit_wire_messages_snoc(ms: Seq<ChatMessageView>, m: ChatMessageView)
    ensures
        ms.len() == 0 ==> emit_wire_messages(ms.push(m)) == emit_wire_message(m),
        ms.len() > 0 ==> emit_wire_messages(ms.push(m)) == emit_wire_messages(ms) + seq![',']
            + emit_wire_message(m),
    decreases ms.len(),
{
    if ms.len() == 0 {
        assert(ms.push(m).first() == m);
        assert(ms.push(m).drop_first() =~= Seq::<ChatMessageView>::empty());
        assert(emit_wire_messages_rest(Seq::<ChatMessageView>::empty()) =~= Seq::<char>::empty());
        assert(emit_wire_messages(ms.push(m)) =~= emit_wire_message(m));
    } else {
        assert(ms.push(m).first() == ms.first());
        assert(ms.push(m).drop_first() =~= ms.drop_first().push(m));
        lemma_emit_wire_messages_rest_snoc(ms.drop_first(), m);
        assert(emit_wire_messages(ms.push(m)) =~= emit_wire_messages(ms) + seq![',']
            + emit_wire_message(m));
    }
}

/// The same fact for the comma-prefixed remainder form.
proof fn lemma_emit_wire_messages_rest_snoc(ms: Seq<ChatMessageView>, m: ChatMessageView)
    ensures
        emit_wire_messages_rest(ms.push(m)) == emit_wire_messages_rest(ms) + seq![',']
            + emit_wire_message(m),
    decreases ms.len(),
{
    if ms.len() == 0 {
        assert(ms.push(m).first() == m);
        assert(ms.push(m).drop_first() =~= Seq::<ChatMessageView>::empty());
        assert(emit_wire_messages_rest(Seq::<ChatMessageView>::empty()) =~= Seq::<char>::empty());
        assert(emit_wire_messages_rest(ms.push(m)) =~= emit_wire_messages_rest(ms) + seq![',']
            + emit_wire_message(m));
    } else {
        assert(ms.push(m).first() == ms.first());
        assert(ms.push(m).drop_first() =~= ms.drop_first().push(m));
        lemma_emit_wire_messages_rest_snoc(ms.drop_first(), m);
        assert(emit_wire_messages_rest(ms.push(m)) =~= emit_wire_messages_rest(ms) + seq![',']
            + emit_wire_message(m));
    }
}

/// Appends the wire form of one request message.
fn emit_wire_message_chars(m: &ChatMessage, out: &mut Vec<char>)
    ensures
        final(out)@ == old(out)@ + emit_wire_message(m@),
{
    crate::codec::push_lit(out, "{\"role\":");
    crate::json::emit_jstr_chars(m.role.as_str(), out);
    crate::codec::push_lit(out, ",\"content\":");
    crate::json::emit_jstr_chars(m.content.as_str(), out);
    crate::codec::push_lit(out, "}");
    proof {
        assert(out@ =~= old(out)@ + emit_wire_message(m@));
    }
}

/// Appends the wire form of a request message list (no brackets).
fn emit_wire_messages_chars(ms: &Vec<ChatMessage>, out: &mut Vec<char>)
    ensures
        final(out)@ == old(out)@ + emit_wire_messages(ms@.map_values(|m: ChatMessage| m@)),
{
    let ghost views = ms@.map_values(|m: ChatMessage| m@);
    let mut idx: usize = 0;
    proof {
        assert(views.subrange(0, 0) =~= Seq::<ChatMessageView>::empty());
        assert(out@ =~= old(out)@ + emit_wire_messages(views.subrange(0, 0)));
    }
    while idx < ms.len()
        invariant
            idx <= ms@.len(),
            views == ms@.map_values(|m: ChatMessage| m@),
            out@ == old(out)@ + emit_wire_messages(views.subrange(0, idx as int)),
        decreases ms@.len() - idx,
    {
        if idx > 0 {
            crate::codec::push_lit(out, ",");
        }
        emit_wire_message_chars(&ms[idx], out);
        proof {
            reveal_strlit(",");
            assert(","@ =~= seq![',']);
            let pre = views.subrange(0, idx as int);
            let cur = views.subrange(0, idx + 1);
            assert(cur =~= pre.push(views[idx as int]));
            lemma_emit_wire_messages_snoc(pre, views[idx as int]);
            assert(views[idx as int] == ms@[idx as int]@);
            assert(out@ =~= old(out)@ + emit_wire_messages(cur));
        }
        idx += 1;
    }
    proof {
        assert(views.subrange(0, ms@.len() as int) =~= views);
    }
}

/// The wire form of a stop-sequence list.
pub open spec fn emit_stop_rest(ss: Seq<Seq<char>>) -> Seq<char>
    decreases ss.len(),
{
    if ss.len() == 0 {
        Seq::empty()
    } else {
        seq![','] + crate::json::emit_jstr(ss.first()) + emit_stop_rest(ss.drop_first())
    }
}

/// The wire form of a stop-sequence list, commas between entries.
pub open spec fn emit_stop_list(ss: Seq<Seq<char>>) -> Seq<char> {
    if ss.len() == 0 {
        Seq::empty()
    } else {
        crate::json::emit_jstr(ss.first()) + emit_stop_rest(ss.drop_first())
    }
}

/// Appending one stop sequence extends the emitted list.
proof fn lemma_emit_stop_snoc(ss: Seq<Seq<char>>, t: Seq<char>)
    ensures
        ss.len() == 0 ==> emit_stop_list(ss.push(t)) == crate::json::emit_jstr(t),
        ss.len() > 0 ==> emit_stop_list(ss.push(t)) == emit_stop_list(ss) + seq![',']
            + crate::json::emit_jstr(t),
    decreases ss.len(),
{
    if ss.len() == 0 {
        assert(ss.push(t).first() == t);
        assert(ss.push(t).drop_first() =~= Seq::<Seq<char>>::empty());
        assert(emit_stop_rest(Seq::<Seq<char>>::empty()) =~= Seq::<char>::empty());
        assert(emit_stop_list(ss.push(t)) =~= crate::json::emit_jstr(t));
    } else {
        assert(ss.push(t).first() == ss.first());
        assert(ss.push(t).drop_first() =~= ss.drop_first().push(t));
        lemma_emit_stop_rest_snoc(ss.drop_first(), t);
        assert(emit_stop_list(ss.push(t)) =~= emit_stop_list(ss) + seq![',']
            + crate::json::emit_jstr(t));
    }
}

/// The same fact for the comma-prefixed remainder form.
proof fn lemma_emit_stop_rest_snoc(ss: Seq<Seq<char>>, t: Seq<char>)
    ensures
        emit_stop_rest(ss.push(t)) == emit_stop_rest(ss) + seq![','] + crate::json::emit_jstr(t),
    decreases ss.len(),
{
    if ss.len() == 0 {
        assert(ss.push(t).first() == t);
        assert(ss.push(t).drop_first() =~= Seq::<Seq<char>>::empty());
        assert(emit_stop_rest(Seq::<Seq<char>>::empty()) =~= Seq::<char>::empty());
        assert(emit_stop_rest(ss.push(t)) =~= emit_stop_rest(ss) + seq![',']
            + crate::json::emit_jstr(t));
    } else {
        assert(ss.push(t).first() == ss.first());
        assert(ss.push(t).drop_first() =~= ss.drop_first().push(t));
        lemma_emit_stop_rest_snoc(ss.drop_first(), t);
        assert(emit_stop_rest(ss.push(t)) =~= emit_stop_rest(ss) + seq![',']
            + crate::json::emit_jstr(t));
    }
}

/// A present fixed-point field with its leading comma, or nothing.
pub open spec fn emit_opt_fixed(label: Seq<char>, v: Option<u32>) -> Seq<char> {
    match v {
        Some(x) => label + emit_fixed3(x),
        None => Seq::<char>::empty(),
    }
}

/// A present integer field with its leading comma, or nothing.
pub open spec fn emit_opt_int(label: Seq<char>, v: Option<u32>) -> Seq<char> {
    match v {
        Some(x) => label + u64_digits(x as nat),
        None => Seq::<char>::empty(),
    }
}

/// A present stop-sequence list field, or nothing.
pub open spec fn emit_opt_stop(v: Option<Seq<Seq<char>>>) -> Seq<char> {
    match v {
        Some(ss) => ",\"stop\":["@ + emit_stop_list(ss) + "]"@,
        None => Seq::<char>::empty(),
    }
}

/// The flattened generation-parameter fields: each present field with
/// its leading comma, absent fields omitted.
pub open spec fn emit_params(p: GenerationParametersView) -> Seq<char> {
    emit_opt_fixed(",\"temperature\":"@, p.temperature) + emit_opt_fixed(
        ",\"top_p\":"@,
        p.top_p,
    ) + emit_opt_int(",\"top_k\":"@, p.top_k) + emit_opt_int(",\"max_tokens\":"@, p.max_tokens)
        + emit_opt_fixed(",\"presence_penalty\":"@, p.presence_penalty) + emit_opt_fixed(
        ",\"frequency_penalty\":"@,
        p.frequency_penalty,
    ) + emit_opt_stop(p.stop)
}

/// Appends a present fixed-point field.
fn emit_opt_fixed_chars(label: &str, v: &Option<u32>, out: &mut Vec<char>)
    ensures
        final(out)@ == old(out)@ + emit_opt_fixed(label@, *v),
{
    match v {
        Some(x) => {
            crate::codec::push_lit(out, label);
            emit_fixed3_chars(*x, out);
            proof {
                assert(out@ =~= old(out)@ + emit_opt_fixed(label@, *v));
            }
        },
        None => {
            proof {
                assert(out@ =~= old(out)@ + emit_opt_fixed(label@, *v));
            }
        },
    }
}

/// Appends a present integer field.
fn emit_opt_int_chars(label: &str, v: &Option<u32>, out: &mut Vec<char>)
    ensures
        final(out)@ == old(out)@ + emit_opt_int(label@, *v),
{
    match v {
        Some(x) => {
            crate::codec::push_lit(out, label);
            crate::text::emit_u64(*x as u64, out);
            proof {
                assert(out@ =~= old(out)@ + emit_opt_int(label@, *v));
            }
        },
        None => {
            proof {
                assert(out@ =~= old(out)@ + emit_opt_int(label@, *v));
            }
        },
    }
}

/// Appends a present stop-sequence list field.
fn emit_opt_stop_chars(stop: &Option<Vec<String>>, out: &mut Vec<char>)
    ensures
        final(out)@ == old(out)@ + emit_opt_stop(
            match *stop {
                Some(ss) => Some(ss@.map_values(|t: String| t@)),
                None => None,
            },
        ),
{
    match stop {
        Some(ss) => {
            crate::codec::push_lit(out, ",\"stop\":[");
            let ghost views = ss@.map_values(|t: String| t@);
            let ghost base = out@;
            let mut idx: usize = 0;
            proof {
                assert(views.subrange(0, 0) =~= Seq::<Seq<char>>::empty());
                assert(out@ =~= base + emit_stop_list(views.subrange(0, 0)));
            }
            while idx < ss.len()
                invariant
                    idx <= ss@.len(),
                    views == ss@.map_values(|t: String| t@),
                    out@ == base + emit_stop_list(views.subrange(0, idx as int)),
                decreases ss@.len() - idx,
            {
                if idx > 0 {
                    crate::codec::push_lit(out, ",");
                }
                crate::json::emit_jstr_chars(ss[idx].as_str(), out);
                proof {
                    reveal_strlit(",");
                    assert(","@ =~= seq![',']);
                    let pre = views.subrange(0, idx as int);
                    let cur = views.subrange(0, idx + 1);
                    assert(cur =~= pre.push(views[idx as int]));
                    lemma_emit_stop_snoc(pre, views[idx as int]);
                    assert(views[idx as int] == ss@[idx as int]@);
                    assert(out@ =~= base + emit_stop_list(cur));
                }
                idx += 1;
            }
            crate::codec::push_lit(out, "]");
            proof {
                assert(views.subrange(0, ss@.len() as int) =~= views);
                assert(out@ =~= old(out)@ + ",\"stop\":["@ + emit_stop_list(views) + "]"@);
            }
        },
        None => {
            proof {
                assert(out@ =~= old(out)@ + Seq::<char>::empty());
            }
        },
    }
}

/// Appends the flattened generation-parameter fields.
#[verifier::rlimit(100)]
fn emit_params_chars(p: &GenerationParameters, out: &mut Vec<char>)
    ensures
        final(out)@ == old(out)@ + emit_params(p@),
{
    emit_opt_fixed_chars(",\"temperature\":", &p.temperature, out);
    emit_opt_fixed_chars(",\"top_p\":", &p.top_p, out);
    emit_opt_int_chars(",\"top_k\":", &p.top_k, out);
    emit_opt_int_chars(",\"max_tokens\":", &p.max_tokens, out);
    emit_opt_fixed_chars(",\"presence_penalty\":", &p.presence_penalty, out);
    emit_opt_fixed_chars(",\"frequency_penalty\":", &p.frequency_penalty, out);
    emit_opt_stop_chars(&p.stop, out);
    proof {
        assert(out@ =~= old(out)@ + emit_params(p@));
    }
}

/// The wire form of a whole chat completion request body.
pub open spec fn emit_chat_request(r: ChatCompletionRequestView) -> Seq<char> {
    "{\"model\":"@ + crate::json::emit_jstr(r.model) + ",\"messages\":["@ + emit_wire_messages(
        r.messages,
    ) + "]"@ + (match r.stream {
        Some(true) => ",\"stream\":true"@,
        Some(false) => ",\"stream\":false"@,
        None => Seq::<char>::empty(),
    }) + emit_params(r.parameters) + "}"@
}

impl ChatCompletionRequest {
    /// The request body, as wire text.
    pub fn to_body(&self) -> (r: String)
        ensures
            r@ == emit_chat_request(self@),
    {
        let mut out: Vec<char> = Vec::new();
        crate::codec::push_lit(&mut out, "{\"model\":");
        crate::json::emit_jstr_chars(self.model.as_str(), &mut out);
        crate::codec::push_lit(&mut out, ",\"messages\":[");
        emit_wire_messages_chars(&self.messages, &mut out);
        crate::codec::push_lit(&mut out, "]");
        match &self.stream {
            Some(b) => {
                if *b {
                    crate::codec::push_lit(&mut out, ",\"stream\":true");
                } else {
                    crate::codec::push_lit(&mut out, ",\"stream\":false");
                }
            },
            None => {},
        }
        emit_params_chars(&self.parameters, &mut out);
        crate::codec::push_lit(&mut out, "}");
        proof {
            assert(out@ =~= emit_chat_request(self@));
        }
        crate::text::chars_to_string(&out)
    }
}

/// The request messages for a conversation history: role names and
/// contents in order, timestamps stripped.
pub fn chat_messages_of(messages: &Vec<crate::conversation::Message>) -> (r: Vec<ChatMessage>)
    ensures
        r@.len() == messages@.len(),
        forall|i: int|
            0 <= i < messages@.len() ==> (#[trigger] r@[i])@.role == crate::conversation::role_str(
                messages@[i]@.role,
            ) && r@[i]@.content == messages@[i]@.content,
{
    let mut r: Vec<ChatMessage> = Vec::new();
    let mut i: usize = 0;
    while i < messages.len()
        invariant
            i <= messages@.len(),
            r@.len() == i,
            forall|k: int|
                0 <= k < i ==> (#[trigger] r@[k])@.role == crate::conversation::role_str(
                    messages@[k]@.role,
                ) && r@[k]@.content == messages@[k]@.content,
        decreases messages@.len() - i,
    {
        let m = &messages[i];
        r.push(ChatMessage { role: m.role.as_str().to_owned(), content: m.content.clone() });
        i += 1;
    }
    r
}

} // verus!
