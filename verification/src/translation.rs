//! The wire codec of the remote translation service: serializing a request
//! into the service's JSON envelope, and decoding its reply — one JSON
//! string, possibly base64-wrapped — into the translated text, with a typed
//! failure for every way the remote contract can be violated.

use vstd::prelude::*;
use vstd::utf8::*;
use vstd::string::*;
use crate::b64::{b64_decode, b64_decode_spec};
use crate::json::{escape_json, json_escape_append, json_parse_string, parse_json_string};
use crate::language_detection::{
    detect_language,
    restricted_detector_names,
    unrestricted_detector_names,
    unsupported_message,
};
use crate::text::{decimal_string, u64_to_string, utf8_to_string};
use crate::types::{SubnetPost, SubnetPostV, TASK_TEXT_TO_TEXT};

verus! {

/// Path of the translation endpoint under the service's base URL.
pub const TRANSLATION_ENDPOINT_PATH: &'static str = "/api/translation";

/// The service's JSON envelope for a request: an object with the four
/// fields of `SubnetPost`, each value a JSON string.
pub open spec fn json_envelope(p: SubnetPostV) -> Seq<u8> {
    encode_utf8("{\"input\":\""@) + escape_json(encode_utf8(p.input)) + encode_utf8(
        "\",\"source_language\":\""@,
    ) + escape_json(encode_utf8(p.source_language)) + encode_utf8(
        "\",\"target_language\":\""@,
    ) + escape_json(encode_utf8(p.target_language)) + encode_utf8(
        "\",\"task_string\":\""@,
    ) + escape_json(encode_utf8(p.task_string)) + encode_utf8("\"}"@)
}

/// Appends a literal fragment of the envelope.
fn append_str_bytes(out: &mut Vec<u8>, s: &str)
    ensures
        final(out)@ == old(out)@ + s.spec_bytes(),
{
    out.extend_from_slice(s.as_bytes());
    proof {
        assert(out@ =~= old(out)@ + s.spec_bytes());
    }
}

/// Appends the JSON escaping of a string's UTF-8 bytes.
fn append_escaped(out: &mut Vec<u8>, s: &String)
    ensures
        final(out)@ == old(out)@ + escape_json(encode_utf8(s@)),
{
    json_escape_append(out, s.as_str().as_bytes());
}

impl SubnetPost {
    /// Serializes the request as the service's JSON envelope, in UTF-8.
    pub fn to_json_bytes(&self) -> (r: Vec<u8>)
        ensures
            r@ == json_envelope(self@),
    {
        let mut out: Vec<u8> = Vec::new();
        append_str_bytes(&mut out, "{\"input\":\"");
        append_escaped(&mut out, &self.input);
        append_str_bytes(&mut out, "\",\"source_language\":\"");
        append_escaped(&mut out, &self.source_language);
        append_str_bytes(&mut out, "\",\"target_language\":\"");
        append_escaped(&mut out, &self.target_language);
        append_str_bytes(&mut out, "\",\"task_string\":\"");
        append_escaped(&mut out, &self.task_string);
        append_str_bytes(&mut out, "\"}");
        proof {
            assert(out@ =~= json_envelope(self@));
        }
        out
    }
}

/// The ways a service reply can violate the wire contract.
#[derive(Clone, Copy, Debug, PartialEq, Eq, Structural)]
pub enum GatewayError {
    /// The HTTP status was not a success status.
    BadStatus(u16),
    /// The body was not a single JSON string.
    MalformedJson,
    /// The body's string content was not canonical base64.
    InvalidBase64,
    /// The decoded payload was not UTF-8 text.
    InvalidUtf8,
}

impl GatewayError {
    /// The user-facing description of the failure.
    pub open spec fn message_spec(self) -> Seq<char> {
        match self {
            GatewayError::BadStatus(code) => "The translation service answered with HTTP status "@
                + decimal_string(code as nat) + "."@,
            GatewayError::MalformedJson => "The translation service sent a reply that is not a JSON string."@,
            GatewayError::InvalidBase64 => "The translation service sent a reply that is not valid base64."@,
            GatewayError::InvalidUtf8 => "The translation service sent a reply that is not UTF-8 text."@,
        }
    }

    /// Renders the user-facing description of the failure.
    pub fn message(&self) -> (r: String)
        ensures
            r@ == self.message_spec(),
    {
        match self {
            GatewayError::BadStatus(code) => {
                let mut s = String::from_str("The translation service answered with HTTP status ");
                let num = u64_to_string(*code as u64);
                s.append(num.as_str());
                s.append(".");
                proof {
                    assert(s@ =~= self.message_spec());
                }
                s
            },
            GatewayError::MalformedJson => String::from_str(
                "The translation service sent a reply that is not a JSON string.",
            ),
            GatewayError::InvalidBase64 => String::from_str(
                "The translation service sent a reply that is not valid base64.",
            ),
            GatewayError::InvalidUtf8 => String::from_str(
                "The translation service sent a reply that is not UTF-8 text.",
            ),
        }
    }
}

/// What a reply decodes to: the translated text of a success reply whose
/// body is one JSON string holding (when `wrapped`) canonical base64 of
/// UTF-8 text, or the exact reason the reply is unusable.
pub open spec fn decode_response_spec(status: u16, body: Seq<u8>, wrapped: bool) -> Result<
    Seq<char>,
    GatewayError,
> {
    if !(200 <= status < 300) {
        Err(GatewayError::BadStatus(status))
    } else {
        match parse_json_string(body) {
            None => Err(GatewayError::MalformedJson),
            Some(content) => {
                if wrapped {
                    match b64_decode_spec(content) {
                        None => Err(GatewayError::InvalidBase64),
                        Some(raw) => if valid_utf8(raw) {
                            Ok(decode_utf8(raw))
                        } else {
                            Err(GatewayError::InvalidUtf8)
                        },
                    }
                } else {
                    if valid_utf8(content) {
                        Ok(decode_utf8(content))
                    } else {
                        Err(GatewayError::InvalidUtf8)
                    }
                }
            },
        }
    }
}

/// Decodes a service reply.  `wrapped` says whether the service revision
/// base64-wraps the string it returns (the transcription endpoint does).
pub fn decode_response(status: u16, body: &Vec<u8>, wrapped: bool) -> (r: Result<
    String,
    GatewayError,
>)
    ensures
        r is Ok <==> decode_response_spec(status, body@, wrapped) is Ok,
        r is Ok ==> r->Ok_0@ == decode_response_spec(status, body@, wrapped)->Ok_0,
        r is Err ==> r->Err_0 == decode_response_spec(status, body@, wrapped)->Err_0,
{
    if !(200 <= status && status < 300) {
        return Err(GatewayError::BadStatus(status));
    }
    let content = match json_parse_string(body) {
        None => {
            return Err(GatewayError::MalformedJson);
        },
        Some(c) => c,
    };
    let raw = if wrapped {
        match b64_decode(&content) {
            None => {
                return Err(GatewayError::InvalidBase64);
            },
            Some(r) => r,
        }
    } else {
        content
    };
    match utf8_to_string(raw) {
        Some(s) => Ok(s),
        None => Err(GatewayError::InvalidUtf8),
    }
}

/// Builds the text-to-text request for a message: detects the source
/// language and fills the envelope, or reports the detection diagnostic.
pub fn prepare_text_translation(text: &String, target_language: &String) -> (r: Result<
    SubnetPost,
    String,
>)
    ensures
        r is Ok ==> {
            &&& r->Ok_0@.input == text@
            &&& restricted_detector_names().contains(r->Ok_0@.source_language)
            &&& r->Ok_0@.target_language == target_language@
            &&& r->Ok_0@.task_string == TASK_TEXT_TO_TEXT@
        },
        r is Err ==> exists|g: Seq<char>|
            unrestricted_detector_names().contains(g) && r->Err_0@ == unsupported_message(g),
{
    match detect_language(text) {
        Ok(detected_language) => Ok(
            SubnetPost {
                input: text.clone(),
                source_language: detected_language,
                target_language: target_language.clone(),
                task_string: String::from_str(TASK_TEXT_TO_TEXT),
            },
        ),
        Err(error_message) => Err(error_message),
    }
}

} // verus!
