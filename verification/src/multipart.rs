//! The inner request as text: a request line, the caller's headers, and a
//! multipart/form-data body whose length is declared exactly.

use crate::error::ClientError;
use crate::text::{
    append_bytes, append_decimal, append_str, bytes_of, decimal, decimal_value,
    lemma_decimal_round_trip, split_once, strip_leading,
};
use rand::distributions::DistString;
use vstd::prelude::*;
use vstd::string::*;

verus! {

/// One form field, with the file it names already looked up.
#[derive(Debug, Clone, PartialEq, Eq)]
pub enum FormPart {
    /// A plain `name=value` field.
    Text { name: String, value: String },
    /// A field whose value named a file; `contents` is `None` where the file
    /// could not be read.
    File { filename: String, contents: Option<Vec<u8>> },
}

/// The byte `=`, which parts a field's name from its value.
pub const FIELD_SEPARATOR: u8 = 0x3d;

/// The byte `@`, which marks a value that names a file.
pub const FILE_MARKER: u8 = 0x40;

/// Reads one `name=value` field. The name ends at the first `=`. A value that
/// starts with `@` names a file, which is yet to be read; the field's own name
/// is then of no use. A field without `=` is none.
pub fn parse_form_field(field: &str) -> (r: Option<FormPart>)
    ensures
        match r {
            None => !field@.contains('='),
            Some(FormPart::Text { name, value }) => {
                &&& !name@.contains('=')
                &&& field@ == name@.push('=') + value@
                &&& (value@.len() == 0 || value@[0] != '@')
            },
            Some(FormPart::File { filename, contents }) => {
                &&& contents is None
                &&& exists|name: Seq<char>|
                    !(#[trigger] name.contains('=')) && field@ == name.push('=').push('@')
                        + filename@
            },
        },
{
    assert(FIELD_SEPARATOR as char == '=' && FILE_MARKER as char == '@');
    match split_once(field, FIELD_SEPARATOR) {
        None => None,
        Some((name, value)) => {
            match strip_leading(value, FILE_MARKER) {
                Some(path) => {
                    proof {
                        assert(!name@.contains('='));
                        assert(field@ =~= name@.push('=').push('@') + path@);
                    }
                    Some(FormPart::File { filename: path.to_owned(), contents: None })
                },
                None => Some(FormPart::Text { name: name.to_owned(), value: value.to_owned() }),
            }
        },
    }
}

/// The media type that content sniffing finds for a file, if any.
pub uninterp spec fn sniffed_mime_type(contents: Seq<u8>) -> Option<Seq<char>>;

/// `infer::get`, then the `mime_type` of what it found: the media type that
/// the leading bytes of `contents` give away, the same for the same bytes.
#[verifier::external_body]
fn sniff_mime_type(contents: &[u8]) -> (r: Option<String>)
    ensures
        r matches Some(mime) ==> sniffed_mime_type(contents@) == Some(mime@),
        r is None ==> sniffed_mime_type(contents@) is None,
{
    infer::get(contents).map(|kind| kind.mime_type().to_string())
}

/// Whether `c` is an ASCII letter or digit.
pub open spec fn is_alphanumeric(c: char) -> bool {
    ||| '0' <= c <= '9'
    ||| 'A' <= c <= 'Z'
    ||| 'a' <= c <= 'z'
}

/// Whether `token` can be the random part of a boundary: 32 letters and digits.
pub open spec fn is_boundary_token(token: Seq<char>) -> bool {
    &&& token.len() == 32
    &&& forall|i: int| 0 <= i < token.len() ==> is_alphanumeric(#[trigger] token[i])
}

/// `Alphanumeric.sample_string` on the thread's generator: 32 characters,
/// each drawn from the ASCII letters and digits.
#[verifier::external_body]
fn random_boundary_token() -> (r: String)
    ensures
        is_boundary_token(r@),
{
    rand::distributions::Alphanumeric.sample_string(&mut rand::thread_rng(), 32)
}

/// The request line of a POST to `target_path`.
pub open spec fn request_line(target_path: Seq<char>) -> Seq<u8> {
    bytes_of("POST "@) + bytes_of(target_path) + bytes_of(" HTTP/1.1\r\n"@)
}

/// The given headers, one to a line, in the order given.
pub open spec fn header_lines(headers: Seq<String>) -> Seq<u8>
    decreases headers.len(),
{
    if headers.len() == 0 {
        Seq::empty()
    } else {
        header_lines(headers.drop_last()) + bytes_of(headers.last()@) + bytes_of("\r\n"@)
    }
}

/// The headers of an optional list: nothing where there is no list.
pub open spec fn optional_header_lines(headers: Option<Vec<String>>) -> Seq<u8> {
    match headers {
        Some(list) => header_lines(list@),
        None => Seq::empty(),
    }
}

/// The boundary line that opens every part.
pub open spec fn part_open(boundary: Seq<char>) -> Seq<u8> {
    bytes_of("--"@) + bytes_of(boundary) + bytes_of("\r\n"@)
}

/// The closing marker, which ends the body.
pub open spec fn closing_marker(boundary: Seq<char>) -> Seq<u8> {
    bytes_of("--"@) + bytes_of(boundary) + bytes_of("--\r\n"@)
}

/// The headers of a file part, and the blank line before its contents.
pub open spec fn file_part_head(filename: Seq<char>, mime: Seq<char>) -> Seq<u8> {
    bytes_of("Content-Disposition: form-data; name=\"file\"; filename=\""@) + bytes_of(filename)
        + bytes_of("\"\r\nContent-Type: "@) + bytes_of(mime) + bytes_of("\r\n\r\n"@)
}

/// The header of a plain field, and the blank line before its value.
pub open spec fn text_part_head(name: Seq<char>) -> Seq<u8> {
    bytes_of("Content-Disposition: form-data; name=\""@) + bytes_of(name) + bytes_of(
        "\"\r\n\r\n"@,
    )
}

/// A file part whose media type is `mime`: the boundary line, the headers,
/// the contents, and a line ending.
pub open spec fn file_part(
    filename: Seq<char>,
    mime: Seq<char>,
    contents: Seq<u8>,
    boundary: Seq<char>,
) -> Seq<u8> {
    part_open(boundary) + file_part_head(filename, mime) + contents + bytes_of("\r\n"@)
}

/// A plain field part: the boundary line, the header, the value, and a line
/// ending.
pub open spec fn text_part(name: Seq<char>, value: Seq<char>, boundary: Seq<char>) -> Seq<u8> {
    part_open(boundary) + text_part_head(name) + bytes_of(value) + bytes_of("\r\n"@)
}

/// The part that holds free-form text: the boundary line, a blank line in
/// place of headers, the text, and a line ending.
pub open spec fn free_text_part(text: Seq<char>, boundary: Seq<char>) -> Seq<u8> {
    part_open(boundary) + bytes_of("\r\n"@) + bytes_of(text) + bytes_of("\r\n"@)
}

/// Why a part cannot be written, if it cannot: its file was not read, or the
/// type of its contents is unknown.
pub open spec fn part_failure(part: FormPart) -> Option<ClientError> {
    match part {
        FormPart::Text { .. } => None,
        FormPart::File { contents: None, .. } => Some(ClientError::FileAccessError),
        FormPart::File { contents: Some(c), .. } => if sniffed_mime_type(c@) is None {
            Some(ClientError::FileTypeError)
        } else {
            None
        },
    }
}

/// One part as it is written, where it can be written.
pub open spec fn part_bytes(part: FormPart, boundary: Seq<char>) -> Seq<u8> {
    match part {
        FormPart::Text { name, value } => text_part(name@, value@, boundary),
        FormPart::File { filename, contents: Some(c) } => file_part(
            filename@,
            sniffed_mime_type(c@).unwrap(),
            c@,
            boundary,
        ),
        FormPart::File { contents: None, .. } => Seq::empty(),
    }
}

/// The failure of the first part that cannot be written, if there is one.
pub open spec fn first_failure(parts: Seq<FormPart>) -> Option<ClientError>
    decreases parts.len(),
{
    if parts.len() == 0 {
        None
    } else {
        match first_failure(parts.drop_last()) {
            Some(e) => Some(e),
            None => part_failure(parts.last()),
        }
    }
}

/// The parts as they are written, in the order given.
pub open spec fn parts_bytes(parts: Seq<FormPart>, boundary: Seq<char>) -> Seq<u8>
    decreases parts.len(),
{
    if parts.len() == 0 {
        Seq::empty()
    } else {
        parts_bytes(parts.drop_last(), boundary) + part_bytes(parts.last(), boundary)
    }
}

/// The parts of an optional list.
pub open spec fn optional_parts(fields: Option<Vec<FormPart>>) -> Seq<FormPart> {
    match fields {
        Some(list) => list@,
        None => Seq::empty(),
    }
}

/// The part that leads the body: the free-form text, where some was given
/// and is not empty.
pub open spec fn leading_part(data: Option<String>, boundary: Seq<char>) -> Seq<u8> {
    match data {
        Some(text) => if text@.len() > 0 {
            free_text_part(text@, boundary)
        } else {
            Seq::empty()
        },
        None => Seq::empty(),
    }
}

/// The body: the free-form text as a part of its own, then every field as
/// a part, then the closing marker, once.
pub open spec fn multipart_body(
    data: Option<String>,
    fields: Option<Vec<FormPart>>,
    boundary: Seq<char>,
) -> Seq<u8> {
    leading_part(data, boundary) + parts_bytes(optional_parts(fields), boundary) + closing_marker(
        boundary,
    )
}

/// The two headers that describe a body of `body_len` bytes, and the blank
/// line that ends the header block.
pub open spec fn multipart_headers(boundary: Seq<char>, body_len: nat) -> Seq<u8> {
    bytes_of("Content-Type: multipart/form-data; boundary="@) + bytes_of(boundary) + bytes_of(
        "\r\n"@,
    ) + bytes_of("Content-Length: "@) + decimal(body_len) + bytes_of("\r\n"@) + bytes_of("\r\n"@)
}

/// All that precedes the body of a request with the given `body`.
pub open spec fn request_head(
    target_path: Seq<char>,
    headers: Option<Vec<String>>,
    boundary: Seq<char>,
    body_len: nat,
) -> Seq<u8> {
    request_line(target_path) + optional_header_lines(headers) + multipart_headers(
        boundary,
        body_len,
    )
}

/// The whole request, where every part can be written.
pub open spec fn multipart_request(
    target_path: Seq<char>,
    headers: Option<Vec<String>>,
    data: Option<String>,
    fields: Option<Vec<FormPart>>,
    boundary: Seq<char>,
) -> Seq<u8> {
    let body = multipart_body(data, fields, boundary);
    request_head(target_path, headers, boundary, body.len()) + body
}

/// Writes the request line of a POST to `target_path`.
pub fn write_post_request_line(request: &mut Vec<u8>, target_path: &str)
    ensures
        final(request)@ == old(request)@ + request_line(target_path@),
{
    append_str(request, "POST ");
    append_str(request, target_path);
    append_str(request, " HTTP/1.1\r\n");
    assert(request@ =~= old(request)@ + request_line(target_path@));
}

/// Appends the headers as they were given, one to a line.
pub fn append_headers(request: &mut Vec<u8>, headers: &Option<Vec<String>>)
    ensures
        final(request)@ == old(request)@ + optional_header_lines(*headers),
{
    match headers {
        Some(list) => {
            let mut i: usize = 0;
            assert(list@.take(0) =~= Seq::<String>::empty());
            while i < list.len()
                invariant
                    i <= list.len(),
                    request@ == old(request)@ + header_lines(list@.take(i as int)),
                decreases list.len() - i,
            {
                append_str(request, list[i].as_str());
                append_str(request, "\r\n");
                i += 1;
                proof {
                    let upto = list@.take(i as int);
                    assert(upto.drop_last() =~= list@.take(i - 1));
                    assert(upto.last() == list@[i - 1]);
                    assert(request@ =~= old(request)@ + header_lines(upto));
                }
            }
            assert(list@.take(i as int) =~= list@);
        },
        None => {
            assert(request@ =~= old(request)@ + Seq::<u8>::empty());
        },
    }
}

fn append_part_open(body: &mut Vec<u8>, boundary: &str)
    ensures
        final(body)@ == old(body)@ + part_open(boundary@),
{
    append_str(body, "--");
    append_str(body, boundary);
    append_str(body, "\r\n");
    assert(body@ =~= old(body)@ + part_open(boundary@));
}

/// Appends the closing marker.
pub fn append_closing_marker(body: &mut Vec<u8>, boundary: &str)
    ensures
        final(body)@ == old(body)@ + closing_marker(boundary@),
{
    append_str(body, "--");
    append_str(body, boundary);
    append_str(body, "--\r\n");
    assert(body@ =~= old(body)@ + closing_marker(boundary@));
}

/// Appends free-form text as a part of its own.
pub fn append_free_text_part(body: &mut Vec<u8>, text: &str, boundary: &str)
    ensures
        final(body)@ == old(body)@ + free_text_part(text@, boundary@),
{
    append_part_open(body, boundary);
    append_str(body, "\r\n");
    append_str(body, text);
    append_str(body, "\r\n");
    assert(body@ =~= old(body)@ + free_text_part(text@, boundary@));
}

/// Appends a plain field.
pub fn append_text_part(body: &mut Vec<u8>, name: &str, value: &str, boundary: &str)
    ensures
        final(body)@ == old(body)@ + text_part(name@, value@, boundary@),
{
    append_part_open(body, boundary);
    append_str(body, "Content-Disposition: form-data; name=\"");
    append_str(body, name);
    append_str(body, "\"\r\n\r\n");
    append_str(body, value);
    append_str(body, "\r\n");
    assert(body@ =~= old(body)@ + text_part(name@, value@, boundary@));
}

/// Appends a file whose media type is `mime`.
pub fn append_file_part(
    body: &mut Vec<u8>,
    filename: &str,
    mime: &str,
    contents: &[u8],
    boundary: &str,
)
    ensures
        final(body)@ == old(body)@ + file_part(filename@, mime@, contents@, boundary@),
{
    append_part_open(body, boundary);
    append_str(body, "Content-Disposition: form-data; name=\"file\"; filename=\"");
    append_str(body, filename);
    append_str(body, "\"\r\nContent-Type: ");
    append_str(body, mime);
    append_str(body, "\r\n\r\n");
    append_bytes(body, contents);
    append_str(body, "\r\n");
    assert(body@ =~= old(body)@ + file_part(filename@, mime@, contents@, boundary@));
}

/// Appends one part, sniffing the media type of a file from its contents.
pub fn append_part(body: &mut Vec<u8>, part: &FormPart, boundary: &str) -> (r: Result<
    (),
    ClientError,
>)
    ensures
        match r {
            Ok(()) => part_failure(*part) is None && final(body)@ == old(body)@ + part_bytes(
                *part,
                boundary@,
            ),
            Err(e) => part_failure(*part) == Some(e) && final(body)@ == old(body)@,
        },
{
    match part {
        FormPart::Text { name, value } => {
            append_text_part(body, name.as_str(), value.as_str(), boundary);
            Ok(())
        },
        FormPart::File { filename, contents } => {
            match contents {
                None => Err(ClientError::FileAccessError),
                Some(bytes) => {
                    match sniff_mime_type(bytes.as_slice()) {
                        None => Err(ClientError::FileTypeError),
                        Some(mime) => {
                            append_file_part(
                                body,
                                filename.as_str(),
                                mime.as_str(),
                                bytes.as_slice(),
                                boundary,
                            );
                            Ok(())
                        },
                    }
                },
            }
        },
    }
}

/// Builds the body: the free-form text as a part, then each field in turn,
/// then the closing marker. The first part that cannot be written decides
/// the failure.
pub fn create_multipart_body(
    data: &Option<String>,
    fields: &Option<Vec<FormPart>>,
    boundary: &str,
) -> (r: Result<Vec<u8>, ClientError>)
    ensures
        match r {
            Ok(body) => first_failure(optional_parts(*fields)) is None && body@ == multipart_body(
                *data,
                *fields,
                boundary@,
            ),
            Err(e) => first_failure(optional_parts(*fields)) == Some(e),
        },
{
    let mut body: Vec<u8> = Vec::new();
    match data {
        Some(text) => {
            if !text.as_str().is_empty() {
                append_free_text_part(&mut body, text.as_str(), boundary);
            }
        },
        None => {},
    }
    assert(body@ =~= leading_part(*data, boundary@));
    match fields {
        None => {},
        Some(list) => {
            let mut i: usize = 0;
            assert(list@.take(0) =~= Seq::<FormPart>::empty());
            assert(body@ =~= leading_part(*data, boundary@) + parts_bytes(
                list@.take(0),
                boundary@,
            ));
            while i < list.len()
                invariant
                    i <= list.len(),
                    optional_parts(*fields) == list@,
                    first_failure(list@.take(i as int)) is None,
                    body@ == leading_part(*data, boundary@) + parts_bytes(
                        list@.take(i as int),
                        boundary@,
                    ),
                decreases list.len() - i,
            {
                let ghost before = list@.take(i as int);
                let ghost upto = list@.take(i + 1);
                proof {
                    assert(upto.drop_last() =~= before);
                    assert(upto.last() == list@[i as int]);
                }
                match append_part(&mut body, &list[i], boundary) {
                    Ok(()) => {},
                    Err(e) => {
                        proof {
                            assert(first_failure(upto) == Some(e));
                            lemma_failure_stays(list@, i + 1);
                        }
                        return Err(e);
                    },
                }
                i += 1;
                assert(body@ =~= leading_part(*data, boundary@) + parts_bytes(upto, boundary@));
            }
            assert(list@.take(i as int) =~= list@);
        },
    }
    assert(body@ =~= leading_part(*data, boundary@) + parts_bytes(
        optional_parts(*fields),
        boundary@,
    ));
    append_closing_marker(&mut body, boundary);
    Ok(body)
}

/// Every part that is written opens with the boundary line.
pub proof fn lemma_part_opens_with_boundary(part: FormPart, boundary: Seq<char>)
    requires
        part_failure(part) is None,
    ensures
        part_bytes(part, boundary).len() >= part_open(boundary).len(),
        part_bytes(part, boundary).take(part_open(boundary).len() as int) == part_open(boundary),
{
    let open = part_open(boundary);
    assert(part_bytes(part, boundary).take(open.len() as int) =~= open);
}

/// The body ends with the closing marker, which is written once, after the
/// last part.
pub proof fn lemma_body_ends_with_closing_marker(
    data: Option<String>,
    fields: Option<Vec<FormPart>>,
    boundary: Seq<char>,
)
    ensures
        ({
            let body = multipart_body(data, fields, boundary);
            let parts = leading_part(data, boundary) + parts_bytes(
                optional_parts(fields),
                boundary,
            );
            &&& body == parts + closing_marker(boundary)
            &&& body.skip(parts.len() as int) == closing_marker(boundary)
        }),
{
    let body = multipart_body(data, fields, boundary);
    let parts = leading_part(data, boundary) + parts_bytes(optional_parts(fields), boundary);
    assert(body.skip(parts.len() as int) =~= closing_marker(boundary));
}

/// A failure among the first `n` parts is the failure of the whole list.
proof fn lemma_failure_stays(parts: Seq<FormPart>, n: int)
    requires
        0 <= n <= parts.len(),
        first_failure(parts.take(n)) is Some,
    ensures
        first_failure(parts) == first_failure(parts.take(n)),
    decreases parts.len() - n,
{
    if n < parts.len() {
        assert(parts.take(n + 1).drop_last() =~= parts.take(n));
        lemma_failure_stays(parts, n + 1);
    } else {
        assert(parts.take(n) =~= parts);
    }
}

/// Appends the headers that describe the body, and the blank line.
pub fn append_multipart_headers(request: &mut Vec<u8>, boundary: &str, body_len: usize)
    ensures
        final(request)@ == old(request)@ + multipart_headers(boundary@, body_len as nat),
{
    append_str(request, "Content-Type: multipart/form-data; boundary=");
    append_str(request, boundary);
    append_str(request, "\r\n");
    append_str(request, "Content-Length: ");
    append_decimal(request, body_len);
    append_str(request, "\r\n");
    append_str(request, "\r\n");
    assert(request@ =~= old(request)@ + multipart_headers(boundary@, body_len as nat));
}

/// Builds the whole request around the given boundary.
pub fn create_multipart_request_with_boundary(
    target_path: &str,
    headers: &Option<Vec<String>>,
    data: &Option<String>,
    fields: &Option<Vec<FormPart>>,
    boundary: &str,
) -> (r: Result<Vec<u8>, ClientError>)
    ensures
        match r {
            Ok(request) => first_failure(optional_parts(*fields)) is None && request@
                == multipart_request(target_path@, *headers, *data, *fields, boundary@),
            Err(e) => first_failure(optional_parts(*fields)) == Some(e),
        },
{
    let mut request: Vec<u8> = Vec::new();
    write_post_request_line(&mut request, target_path);
    append_headers(&mut request, headers);
    let mut body = create_multipart_body(data, fields, boundary)?;
    append_multipart_headers(&mut request, boundary, body.len());
    request.append(&mut body);
    assert(request@ =~= multipart_request(target_path@, *headers, *data, *fields, boundary@));
    Ok(request)
}

/// The length that a request declares is the length of its body: the digits
/// after `Content-Length: ` read back as the number of bytes that follow the
/// blank line, and those bytes are the body, whole.
pub proof fn lemma_content_length_is_exact(
    target_path: Seq<char>,
    headers: Option<Vec<String>>,
    data: Option<String>,
    fields: Option<Vec<FormPart>>,
    boundary: Seq<char>,
)
    ensures
        ({
            let body = multipart_body(data, fields, boundary);
            let request = multipart_request(target_path, headers, data, fields, boundary);
            let declared = decimal(body.len());
            &&& request == request_line(target_path) + optional_header_lines(headers) + bytes_of(
                "Content-Type: multipart/form-data; boundary="@,
            ) + bytes_of(boundary) + bytes_of("\r\n"@) + bytes_of("Content-Length: "@) + declared
                + bytes_of("\r\n"@) + bytes_of("\r\n"@) + body
            &&& decimal_value(declared) == body.len()
            &&& request.len() >= body.len()
            &&& request.subrange(request.len() - body.len(), request.len() as int) == body
        }),
{
    let body = multipart_body(data, fields, boundary);
    let request = multipart_request(target_path, headers, data, fields, boundary);
    let declared = decimal(body.len());
    lemma_decimal_round_trip(body.len());
    assert(request =~= request_line(target_path) + optional_header_lines(headers) + bytes_of(
        "Content-Type: multipart/form-data; boundary="@,
    ) + bytes_of(boundary) + bytes_of("\r\n"@) + bytes_of("Content-Length: "@) + declared
        + bytes_of("\r\n"@) + bytes_of("\r\n"@) + body);
    assert(request.subrange(request.len() - body.len(), request.len() as int) =~= body);
}

/// The boundary made from a random token.
pub open spec fn boundary_of(token: Seq<char>) -> Seq<char> {
    "----"@ + token
}

/// Builds the whole request around a fresh random boundary.
pub fn create_multipart_request(
    target_path: &str,
    headers: &Option<Vec<String>>,
    data: &Option<String>,
    fields: &Option<Vec<FormPart>>,
) -> (r: Result<Vec<u8>, ClientError>)
    ensures
        match r {
            Ok(request) => first_failure(optional_parts(*fields)) is None && exists|
                token: Seq<char>,
            |
                is_boundary_token(token) && request@ == #[trigger] multipart_request(
                    target_path@,
                    *headers,
                    *data,
                    *fields,
                    boundary_of(token),
                ),
            Err(e) => first_failure(optional_parts(*fields)) == Some(e),
        },
{
    let token = random_boundary_token();
    let mut boundary = "----".to_owned();
    boundary.append(token.as_str());
    let r = create_multipart_request_with_boundary(
        target_path,
        headers,
        data,
        fields,
        boundary.as_str(),
    );
    proof {
        assert(boundary@ =~= boundary_of(token@));
        if r is Ok {
            assert(r->Ok_0@ == multipart_request(
                target_path@,
                *headers,
                *data,
                *fields,
                boundary_of(token@),
            ));
        }
    }
    r
}

} // verus!
