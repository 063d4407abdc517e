use ohttp_client::convert::{create_request_buffer, to_binary_request, FramingMode};
use ohttp_client::request_text::is_parse_safe;
use ohttp_client::error::ClientError;
use ohttp_client::multipart::{create_multipart_request_with_boundary, FormPart};

fn known(text: &[u8]) -> Result<Vec<u8>, ClientError> {
    to_binary_request(text, FramingMode::KnownLength)
}

#[test]
fn known_length_form_of_a_small_request() {
    let text = b"POST /predict HTTP/1.1\r\nAccept: application/json\r\n\r\n";
    let mut expected = vec![0x00, 0x04];
    expected.extend_from_slice(b"POST");
    expected.push(0x05);
    expected.extend_from_slice(b"https");
    expected.push(0x00);
    expected.push(0x08);
    expected.extend_from_slice(b"/predict");
    expected.push(24);
    expected.push(0x06);
    expected.extend_from_slice(b"accept");
    expected.push(0x10);
    expected.extend_from_slice(b"application/json");
    expected.extend_from_slice(&[0x00, 0x00]);
    assert_eq!(known(text), Ok(expected));
}

#[test]
fn indeterminate_length_form_of_a_small_request() {
    let text = b"POST /predict HTTP/1.1\r\nAccept: application/json\r\n\r\n";
    let mut expected = vec![0x02, 0x04];
    expected.extend_from_slice(b"POST");
    expected.push(0x05);
    expected.extend_from_slice(b"https");
    expected.push(0x00);
    expected.push(0x08);
    expected.extend_from_slice(b"/predict");
    expected.push(0x06);
    expected.extend_from_slice(b"accept");
    expected.push(0x10);
    expected.extend_from_slice(b"application/json");
    expected.extend_from_slice(&[0x00, 0x00, 0x00]);
    assert_eq!(to_binary_request(text, FramingMode::IndeterminateLength), Ok(expected));
}

#[test]
fn content_is_carried_over() {
    let text = b"POST / HTTP/1.1\r\nContent-Length: 5\r\n\r\nhello";
    let binary = known(text).unwrap();
    assert!(binary.ends_with(b"\x05hello\x00"));
    assert_eq!(binary[0], 0);
}

#[test]
fn conversion_is_deterministic() {
    let text = b"POST /a HTTP/1.1\r\nX: y\r\nContent-Length: 3\r\n\r\nabc";
    assert_eq!(known(text), known(text));
}

#[test]
fn empty_text_is_malformed() {
    assert_eq!(known(b""), Err(ClientError::MalformedMessage));
}

#[test]
fn request_line_without_spaces_is_malformed() {
    assert_eq!(known(b"POST\r\n\r\n"), Err(ClientError::MalformedMessage));
}

#[test]
fn header_without_colon_is_malformed() {
    assert_eq!(
        known(b"POST / HTTP/1.1\r\nNoColonHere\r\n\r\n"),
        Err(ClientError::MalformedMessage)
    );
}

#[test]
fn line_without_carriage_return_is_malformed() {
    assert_eq!(known(b"POST / HTTP/1.1\nA: b\n\n"), Err(ClientError::MalformedMessage));
}

#[test]
fn content_shorter_than_declared_is_malformed() {
    assert_eq!(
        known(b"POST / HTTP/1.1\r\nContent-Length: 6\r\n\r\nhello"),
        Err(ClientError::MalformedMessage)
    );
}

#[test]
fn framed_chunks_are_read() {
    for text in [
        &b"POST / HTTP/1.1\r\nTransfer-Encoding: chunked\r\n\r\n3\r\nabc\r\n0\r\n\r\n"[..],
        &b"POST / HTTP/1.1\r\ntransfer-encoding:chunked\r\n\r\n1\r\na\r\n2;x=y\r\nbc\r\n0\r\n\r\n"[..],
        &b"POST / HTTP/1.1\r\nTRANSFER-ENCODING : gzip, chunked\r\n\r\n+3\r\nabc\r\n00\r\n\r\n"[..],
        &b"POST / HTTP/1.1\r\nA: b\r\nTransfer-Encoding: gzip,\r\n chunked\r\n\r\n3\r\nabc\r\n0\r\n\r\n"[..],
        &b"POST / HTTP/1.1\r\nTransfer-Encoding: chunked\r\nContent-Length: 99999999999\r\n\r\n3\r\nabc\r\n0\r\n\r\n"[..],
    ] {
        assert!(is_parse_safe(text));
        assert!(known(text).unwrap().ends_with(b"\x03abc\x00"));
    }
    let text = b"POST / HTTP/1.1\r\nTransfer-Encoding: chunked\r\n\r\nA\r\n0123456789\r\n0\r\n\r\n";
    assert!(known(text).unwrap().ends_with(b"\x0a0123456789\x00"));
    let text = b"POST / HTTP/1.1\r\nTransfer-Encoding: chunked\r\n\r\n0\r\n\r\n";
    assert!(known(text).is_ok());
}

#[test]
fn unframed_chunks_are_turned_away() {
    for text in [
        &b"POST / HTTP/1.1\r\nTransfer-Encoding: chunked\r\n\r\n3\r\nabcXX\r\n0\r\n\r\n"[..],
        &b"POST / HTTP/1.1\r\nTransfer-Encoding: chunked\r\n\r\nffffffffffffffff\r\nabc\r\n0\r\n\r\n"[..],
        &b"POST / HTTP/1.1\r\nTransfer-Encoding: chunked\r\n\r\nfffffffffffffffffffff\r\nabc"[..],
        &b"POST / HTTP/1.1\r\nTransfer-Encoding: chunked\r\n\r\n7fffffffffffffff\r\nabc\r\n"[..],
        &b"POST / HTTP/1.1\r\nTransfer-Encoding: chunked\r\n\r\n3\r\nabc\r\n"[..],
        &b"POST / HTTP/1.1\r\nTransfer-Encoding: chunked\r\n\r\n3\r\nab"[..],
        &b"POST / HTTP/1.1\r\nTransfer-Encoding: chunked\r\n\r\nxyz\r\n"[..],
        &b"POST / HTTP/1.1\r\nTransfer-Encoding: chunked\r\n\r\n"[..],
        &b"POST / HTTP/1.1\r\nA: b\r\nTransfer-Encoding: gzip,\r\n chunked\r\n\r\n3\r\nabcd\r\n0\r\n\r\n"[..],
    ] {
        assert!(!is_parse_safe(text));
        assert_eq!(known(text), Err(ClientError::MalformedMessage));
    }
}

#[test]
fn content_is_chunked_only_where_the_first_coding_field_ends_in_chunked() {
    for text in [
        &b"POST / HTTP/1.1\r\nX-Mode: chunked\r\nContent-Length: 2\r\n\r\nok"[..],
        &b"POST / HTTP/1.1\r\nTransfer-Encoding: gzip\r\nContent-Length: 2\r\n\r\nok"[..],
        &b"POST / HTTP/1.1\r\nTransfer-Encoding: chunked, gzip\r\nContent-Length: 2\r\n\r\nok"[..],
        &b"POST / HTTP/1.1\r\nTransfer-Encoding: Chunked\r\nContent-Length: 2\r\n\r\nok"[..],
        &b"POST / HTTP/1.1\r\nTransfer-Encoding-Hint: chunked\r\nContent-Length: 2\r\n\r\nok"[..],
        &b"POST / HTTP/1.1\r\nTransfer-Encoding: chunked\r\n x\r\nContent-Length: 2\r\n\r\nok"[..],
        &b"POST / HTTP/1.1\r\nTransfer-Encoding: gzip\r\nTransfer-Encoding: chunked\r\nContent-Length: 2\r\n\r\nok"[..],
        &b"POST /chunked HTTP/1.1\r\nTransfer-Encoding: gzip\r\nContent-Length: 2\r\n\r\nok"[..],
    ] {
        assert!(is_parse_safe(text));
        assert!(known(text).unwrap().ends_with(b"\x02ok\x00"));
    }
}

#[test]
fn chunked_in_the_content_is_no_concern() {
    let text = b"POST / HTTP/1.1\r\nContent-Length: 7\r\n\r\nchunked";
    assert!(is_parse_safe(text));
    assert!(known(text).unwrap().ends_with(b"\x07chunked\x00"));
}

#[test]
fn excessive_declared_length_is_turned_away() {
    for text in [
        &b"POST / HTTP/1.1\r\nContent-Length: 18446744073709551615\r\n\r\n"[..],
        &b"POST / HTTP/1.1\r\ncontent-length:99999999999999999999999999999999\r\n\r\n"[..],
        &b"POST / HTTP/1.1\r\nCONTENT-LENGTH \t:  +000000000000000000000100\r\n\r\n"[..],
        &b"POST / HTTP/1.1\r\nContent-Length: 1000000\r\n\r\nabc"[..],
    ] {
        assert!(!is_parse_safe(text));
        assert_eq!(known(text), Err(ClientError::MalformedMessage));
    }
}

#[test]
fn first_declared_length_counts() {
    let text = b"POST / HTTP/1.1\r\nContent-Length: 5\r\nContent-Length: 99999999999\r\n\r\nhello";
    assert!(is_parse_safe(text));
    assert!(known(text).unwrap().ends_with(b"\x05hello\x00"));
    let text = b"POST / HTTP/1.1\r\nContent-Length: 99999999999\r\nContent-Length: 5\r\n\r\nhello";
    assert!(!is_parse_safe(text));
    assert_eq!(known(text), Err(ClientError::MalformedMessage));
}

#[test]
fn declared_length_within_the_text_is_safe() {
    assert!(is_parse_safe(b"POST / HTTP/1.1\r\nContent-Length: 0\r\n\r\n"));
    assert!(is_parse_safe(b"POST / HTTP/1.1\r\nContent-Length: 000003\r\n\r\nabc"));
    assert!(is_parse_safe(b"POST / HTTP/1.1\r\nContent-Length: 42\r\n\r\nabc"));
    assert!(is_parse_safe(b"POST / HTTP/1.1\r\nContent-Lengthy: 99999999\r\n\r\n"));
}

#[test]
fn length_in_another_field_is_no_concern() {
    let text = b"POST / HTTP/1.1\r\nX-Upload-Content-Length: 2000000\r\nContent-Length: 2\r\n\r\nok";
    assert!(is_parse_safe(text));
    assert!(known(text).unwrap().ends_with(b"\x02ok\x00"));
}

#[test]
fn length_named_in_the_content_is_no_concern() {
    let text = b"POST / HTTP/1.1\r\nContent-Length: 26\r\n\r\ncontent-length: 9999999999";
    assert!(is_parse_safe(text));
    assert!(known(text).is_ok());
}

#[test]
fn response_text_is_turned_away() {
    let text = b"HTTP/1.1 200 OK\r\nContent-Length: 0\r\n\r\n";
    assert!(!is_parse_safe(text));
    assert_eq!(known(text), Err(ClientError::MalformedMessage));
}

#[test]
fn multipart_request_converts() {
    let fields = Some(vec![FormPart::Text { name: "name".to_string(), value: "value".to_string() }]);
    let headers = Some(vec!["Accept: application/json".to_string()]);
    let text =
        create_multipart_request_with_boundary("/predict", &headers, &None, &fields, "----B")
            .unwrap();
    let binary = known(&text).unwrap();
    let body =
        b"------B\r\nContent-Disposition: form-data; name=\"name\"\r\n\r\nvalue\r\n------B--\r\n";
    assert_eq!(body.len(), 74);
    let mut tail = vec![0x40, 74];
    tail.extend_from_slice(body);
    tail.push(0);
    assert!(binary.ends_with(&tail));
    let mut head = b"\x00\x04POST\x05https\x00\x08/predict".to_vec();
    head.extend_from_slice(b"\x40\x5b\x06accept\x10application/json");
    head.extend_from_slice(b"\x0ccontent-type\x23multipart/form-data; boundary=----B");
    head.extend_from_slice(b"\x0econtent-length\x0274");
    assert!(binary.starts_with(&head));
    assert_eq!(binary.len(), head.len() + tail.len());
}

#[test]
fn request_buffer_is_built_and_converted() {
    let fields = Some(vec![FormPart::Text { name: "name".to_string(), value: "value".to_string() }]);
    let binary =
        create_request_buffer("/predict", &None, &None, &fields, FramingMode::KnownLength).unwrap();
    assert_eq!(&binary[..7], b"\x00\x04POST\x05");
    let binary = create_request_buffer(
        "/predict",
        &None,
        &None,
        &fields,
        FramingMode::IndeterminateLength,
    )
    .unwrap();
    assert_eq!(&binary[..7], b"\x02\x04POST\x05");
}

#[test]
fn request_buffer_fails_on_a_part_first() {
    let fields = Some(vec![FormPart::File { filename: "f".to_string(), contents: None }]);
    let headers = Some(vec!["NoColonHere".to_string()]);
    assert_eq!(
        create_request_buffer("/", &headers, &None, &fields, FramingMode::KnownLength),
        Err(ClientError::FileAccessError)
    );
}

#[test]
fn request_buffer_with_malformed_header_is_malformed() {
    let headers = Some(vec!["NoColonHere".to_string()]);
    assert_eq!(
        create_request_buffer("/", &headers, &None, &None, FramingMode::KnownLength),
        Err(ClientError::MalformedMessage)
    );
}
