//! Error taxonomy of the inference client.

use vstd::prelude::*;
use crate::text::{chars_to_string, emit_u64, u64_digits};

verus! {

/// What can go wrong talking to the inference server.
#[derive(Debug)]
pub enum ClientError {
    /// The base URL is malformed: it must start with `http://` or
    /// `https://`. Fatal to client construction.
    InvalidConfiguration,
    /// The transport failed and retries were exhausted; carries the
    /// cause as text.
    RequestFailed(String),
    /// The server answered with a failure status; carries the status
    /// code and the response body.
    ServerError(u16, String),
    /// A response or stream fragment could not be decoded.
    DecodeError,
    /// A completed stream produced no text at all.
    EmptyResponse,
}

/// The descriptive text of an error.
pub open spec fn spec_error_text(e: ClientError) -> Seq<char> {
    match e {
        ClientError::InvalidConfiguration => "API URL must start with http:// or https://"@,
        ClientError::RequestFailed(m) => "request failed: "@ + m@,
        ClientError::ServerError(st, body) => "server error ("@ + u64_digits(st as nat) + "): "@
            + body@,
        ClientError::DecodeError => "failed to decode response"@,
        ClientError::EmptyResponse => "received empty response"@,
    }
}

impl ClientError {
    /// A human-readable description of the error.
    pub fn message(&self) -> (r: String)
        ensures
            r@ == spec_error_text(*self),
    {
        match self {
            ClientError::InvalidConfiguration => "API URL must start with http:// or https://"
                .to_owned(),
            ClientError::RequestFailed(m) => {
                let mut r = "request failed: ".to_owned();
                r.append(m.as_str());
                r
            },
            ClientError::ServerError(st, body) => {
                let mut digits: Vec<char> = Vec::new();
                emit_u64(*st as u64, &mut digits);
                proof {
                    assert(digits@ =~= Seq::<char>::empty() + u64_digits(*st as nat));
                }
                let mut r = "server error (".to_owned();
                r.append(chars_to_string(&digits).as_str());
                r.append("): ");
                r.append(body.as_str());
                r
            },
            ClientError::DecodeError => "failed to decode response".to_owned(),
            ClientError::EmptyResponse => "received empty response".to_owned(),
        }
    }
}

} // verus!
