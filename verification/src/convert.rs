//! From the textual request to its binary form.
//!
//! The text is parsed and re-encoded by `bhttp`. Before the text is handed
//! over it is screened, so that the parser is never given a request that it
//! would abort on: one whose content is chunked and ill framed, or one that
//! declares more content than the text can hold. Text that starts as a
//! response does is turned away too: only a request is sure to have a single
//! heading.

use crate::error::ClientError;
use crate::multipart::{
    boundary_of, create_multipart_request, first_failure, is_boundary_token, multipart_request,
    optional_parts, FormPart,
};
use crate::request_text::{is_parse_safe, parse_safe};
use vstd::prelude::*;
use vstd::string::*;

verus! {

/// How the binary form frames its parts.
#[derive(Debug, Clone, Copy, PartialEq, Eq, Structural)]
pub enum FramingMode {
    /// Every part is preceded by its length.
    KnownLength,
    /// Parts run until a terminator; no length is needed up front.
    IndeterminateLength,
}

/// `bhttp::Message`, which is carried from the parser to the encoder.
#[verifier::external_type_specification]
#[verifier::external_body]
pub struct ExMessage(bhttp::Message);

/// `bhttp::Error`, which is only passed on.
#[verifier::external_type_specification]
#[verifier::external_body]
pub struct ExFramingError(bhttp::Error);

/// The message that the parser reads from `text`, where it reads one.
pub uninterp spec fn parsed_message(text: Seq<u8>) -> Option<bhttp::Message>;

/// The binary form of `message`, in the indeterminate-length framing or in
/// the known-length one, where the encoder gives one.
pub uninterp spec fn binary_encoding(message: bhttp::Message, indeterminate: bool) -> Option<
    Seq<u8>,
>;

/// `bhttp::Message::read_http` on a cursor over `text`: the message that the
/// text spells, the same for the same text, or a failure. The call is kept
/// from text whose chunks are not framed, where the parser insists on the
/// line ending after a chunk and reserves what a chunk declares; from text
/// that has it reserve more content than the text is long; and from
/// responses, whose heading may not come first.
#[verifier::external_body]
fn read_http(text: &[u8]) -> (r: Result<bhttp::Message, bhttp::Error>)
    requires
        parse_safe(text@),
    ensures
        r matches Ok(message) ==> parsed_message(text@) == Some(message),
        r is Err ==> parsed_message(text@) is None,
{
    bhttp::Message::read_http(&mut std::io::Cursor::new(text))
}

/// `bhttp::Message::write_bhttp` into a fresh buffer: the binary form of the
/// message in the chosen framing, the same for the same message.
#[verifier::external_body]
fn write_bhttp(message: &bhttp::Message, mode: FramingMode) -> (r: Result<Vec<u8>, bhttp::Error>)
    ensures
        r matches Ok(bytes) ==> binary_encoding(*message, mode is IndeterminateLength) == Some(
            bytes@,
        ),
        r is Err ==> binary_encoding(*message, mode is IndeterminateLength) is None,
{
    let mode = match mode {
        FramingMode::KnownLength => bhttp::Mode::KnownLength,
        FramingMode::IndeterminateLength => bhttp::Mode::IndeterminateLength,
    };
    let mut bytes = Vec::new();
    message.write_bhttp(mode, &mut bytes).map(|_| bytes)
}

/// The binary form of the request that `text` spells, where it has one: the
/// text is safe to parse, it parses, and the message can be encoded.
pub open spec fn binary_request(text: Seq<u8>, mode: FramingMode) -> Option<Seq<u8>> {
    if !parse_safe(text) {
        None
    } else {
        match parsed_message(text) {
            None => None,
            Some(message) => binary_encoding(message, mode is IndeterminateLength),
        }
    }
}

/// Encodes a message that was parsed.
pub fn encode_message(message: &bhttp::Message, mode: FramingMode) -> (r: Result<
    Vec<u8>,
    ClientError,
>)
    ensures
        match r {
            Ok(bytes) => binary_encoding(*message, mode is IndeterminateLength) == Some(bytes@),
            Err(e) => e is MalformedMessage && binary_encoding(
                *message,
                mode is IndeterminateLength,
            ) is None,
        },
{
    match write_bhttp(message, mode) {
        Ok(bytes) => Ok(bytes),
        Err(_) => Err(ClientError::MalformedMessage),
    }
}

/// Turns the textual request into its binary form.
pub fn to_binary_request(text: &[u8], mode: FramingMode) -> (r: Result<Vec<u8>, ClientError>)
    ensures
        match r {
            Ok(bytes) => binary_request(text@, mode) == Some(bytes@),
            Err(e) => e is MalformedMessage && binary_request(text@, mode) is None,
        },
{
    if !is_parse_safe(text) {
        return Err(ClientError::MalformedMessage);
    }
    match read_http(text) {
        Ok(message) => encode_message(&message, mode),
        Err(_) => Err(ClientError::MalformedMessage),
    }
}

/// The binary form of the multipart request built around `boundary`.
pub open spec fn request_buffer(
    target_path: Seq<char>,
    headers: Option<Vec<String>>,
    data: Option<String>,
    fields: Option<Vec<FormPart>>,
    boundary: Seq<char>,
    mode: FramingMode,
) -> Option<Seq<u8>> {
    binary_request(multipart_request(target_path, headers, data, fields, boundary), mode)
}

/// Builds the multipart request around a fresh boundary and turns it into
/// its binary form. A part that cannot be written fails first; a request
/// that cannot be converted is malformed.
pub fn create_request_buffer(
    target_path: &str,
    headers: &Option<Vec<String>>,
    data: &Option<String>,
    fields: &Option<Vec<FormPart>>,
    mode: FramingMode,
) -> (r: Result<Vec<u8>, ClientError>)
    ensures
        match r {
            Ok(bytes) => first_failure(optional_parts(*fields)) is None && exists|
                token: Seq<char>,
            |
                is_boundary_token(token) && #[trigger] request_buffer(
                    target_path@,
                    *headers,
                    *data,
                    *fields,
                    boundary_of(token),
                    mode,
                ) == Some(bytes@),
            Err(e) => match first_failure(optional_parts(*fields)) {
                Some(failure) => e == failure,
                None => e is MalformedMessage && exists|token: Seq<char>|
                    is_boundary_token(token) && #[trigger] request_buffer(
                        target_path@,
                        *headers,
                        *data,
                        *fields,
                        boundary_of(token),
                        mode,
                    ) is None,
            },
        },
{
    let request = create_multipart_request(target_path, headers, data, fields)?;
    let ghost token = choose|token: Seq<char>|
        is_boundary_token(token) && request@ == #[trigger] multipart_request(
            target_path@,
            *headers,
            *data,
            *fields,
            boundary_of(token),
        );
    let r = to_binary_request(request.as_slice(), mode);
    proof {
        let buffer = request_buffer(
            target_path@,
            *headers,
            *data,
            *fields,
            boundary_of(token),
            mode,
        );
        assert(buffer == binary_request(request@, mode));
    }
    r
}

} // verus!
