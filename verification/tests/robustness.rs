use ohttp_client::client::OhttpClientBuilder;
use ohttp_client::convert::{to_binary_request, FramingMode};
use ohttp_client::request_text::is_parse_safe;
use ohttp_client::hex::HexArg;
use ohttp_client::kms::{KeyConfigEntry, Verification};
use ohttp_client::multipart::{append_part, FormPart};
use std::path::PathBuf;

/// A small generator of repeatable pseudo-random numbers.
struct Numbers(u64);

impl Numbers {
    fn next(&mut self) -> u64 {
        self.0 = self.0.wrapping_mul(6364136223846793005).wrapping_add(1442695040888963407);
        self.0 >> 33
    }

    fn below(&mut self, n: usize) -> usize {
        (self.next() % n as u64) as usize
    }
}

const PIECES: [&[u8]; 50] = [
    b"Transfer-Encoding: chunked\r\n", b"transfer-encoding:gzip,\r\n", b" chunked", b", chunked",
    b"3\r\nabc\r\n", b"0\r\n\r\n", b"1;x\r\na\r\n", b"Content-Length: 3\r\n", b"abc", b"+3",
    b"POST", b"GET", b"CONNECT", b" ", b" ", b"/", b"/predict", b"HTTP/1.1", b"\r\n", b"\r\n",
    b"\r\n", b"\r\n\r\n", b"\n", b"\r", b":", b": ", b",", b"\t", b"+", b"-", b"0", b"1", b"7",
    b"99", b"18446744073709551615", b"18446744073709551616", b"content-length", b"Content-Length",
    b"transfer-encoding", b"Transfer-Encoding", b"chunked", b"gzip", b"connection", b"close",
    b"https://example.com:8080/a?b", b"a", b"x-y", b"ff", b";", b"\x00\xff",
];

#[test]
fn conversion_never_aborts() {
    let mut numbers = Numbers(1);
    let mut converted = 0;
    let mut unsafe_texts = 0;
    for _ in 0..40000 {
        let mut text = Vec::new();
        for _ in 0..numbers.below(24) {
            text.extend_from_slice(PIECES[numbers.below(PIECES.len())]);
        }
        if !is_parse_safe(&text) {
            unsafe_texts += 1;
        }
        for mode in [FramingMode::KnownLength, FramingMode::IndeterminateLength] {
            if to_binary_request(&text, mode).is_ok() {
                converted += 1;
            }
        }
    }
    assert!(converted > 0);
    assert!(unsafe_texts > 0);
}

#[test]
fn conversion_of_likely_requests_never_aborts() {
    let mut numbers = Numbers(2);
    let mut converted = 0;
    for _ in 0..40000 {
        let mut text = b"POST /p HTTP/1.1\r\n".to_vec();
        for _ in 0..numbers.below(4) {
            for _ in 0..1 + numbers.below(6) {
                text.extend_from_slice(PIECES[numbers.below(PIECES.len())]);
            }
            text.extend_from_slice(b"\r\n");
        }
        text.extend_from_slice(b"\r\n");
        for _ in 0..numbers.below(6) {
            text.extend_from_slice(PIECES[numbers.below(PIECES.len())]);
        }
        if to_binary_request(&text, FramingMode::KnownLength).is_ok() {
            converted += 1;
        }
    }
    assert!(converted > 1000);
}

#[test]
fn plus_sign_before_the_length_is_read() {
    let text = b"POST / HTTP/1.1\r\nContent-Length: +2\r\n\r\nok";
    assert!(to_binary_request(text, FramingMode::KnownLength).unwrap().ends_with(b"\x02ok\x00"));
    assert!(!is_parse_safe(b"POST / HTTP/1.1\r\nContent-Length: +200\r\n\r\nok"));
}

fn sample_config() -> Vec<u8> {
    let mut config = vec![1, 0x00, 0x20];
    config.extend_from_slice(&[9; 32]);
    config.extend_from_slice(&[0x00, 0x08, 0x00, 0x01, 0x00, 0x01, 0x00, 0x01, 0x00, 0x03]);
    config
}

fn mutated(numbers: &mut Numbers, bytes: &[u8]) -> Vec<u8> {
    let mut bytes = bytes.to_vec();
    for _ in 0..numbers.below(4) {
        if bytes.is_empty() {
            break;
        }
        let at = numbers.below(bytes.len());
        match numbers.below(4) {
            0 => bytes[at] = numbers.below(5) as u8,
            1 => bytes[at] = numbers.below(256) as u8,
            2 => {
                bytes.remove(at);
            }
            _ => bytes.insert(at, numbers.below(4) as u8),
        }
    }
    bytes
}

#[test]
fn building_from_any_configuration_never_aborts() {
    let mut numbers = Numbers(3);
    let config = sample_config();
    let mut built = 0;
    let mut refused = 0;
    for _ in 0..20000 {
        let entry = KeyConfigEntry {
            key_config: HexArg::from_bytes(&mutated(&mut numbers, &config)).to_hex(),
            receipt: String::new(),
        };
        let builder = OhttpClientBuilder::new()
            .kms_url(&Some("https://kms".to_string()))
            .kms_cert(&Some(PathBuf::from("/cert.pem")));
        match builder.build(Some(Ok((entry, Verification::Verified)))) {
            Ok(_) => built += 1,
            Err(_) => refused += 1,
        }
    }
    assert!(built > 0);
    assert!(refused > 0);
}

#[test]
fn building_from_any_list_never_aborts() {
    let mut numbers = Numbers(4);
    let config = sample_config();
    let mut built = 0;
    let mut refused = 0;
    for _ in 0..20000 {
        let mut list = Vec::new();
        for _ in 0..numbers.below(4) {
            let item = mutated(&mut numbers, &config);
            list.push((item.len() >> 8) as u8);
            list.push((item.len() & 0xff) as u8);
            list.extend_from_slice(&item);
        }
        let list = if numbers.below(4) == 0 { mutated(&mut numbers, &list) } else { list };
        match OhttpClientBuilder::new().config(&Some(HexArg::from_bytes(&list))).build(None) {
            Ok(_) => built += 1,
            Err(_) => refused += 1,
        }
    }
    assert!(built > 0);
    assert!(refused > 0);
}

#[test]
fn sniffing_any_short_content_never_aborts() {
    let mut numbers = Numbers(5);
    let magics: [&[u8]; 8] = [
        &[0x89, 0x50, 0x4e, 0x47, 0x0d, 0x0a, 0x1a, 0x0a],
        &[0xff, 0xd8, 0xff],
        b"GIF89a",
        b"%PDF-1.7",
        b"PK\x03\x04",
        b"RIFF\x00\x00\x00\x00WEBP",
        b"\x00\x00\x00\x18ftypmp42",
        b"\xd0\xcf\x11\xe0\xa1\xb1\x1a\xe1",
    ];
    for _ in 0..20000 {
        let mut contents = magics[numbers.below(magics.len())].to_vec();
        contents.truncate(numbers.below(contents.len() + 1));
        for _ in 0..numbers.below(40) {
            contents.push(numbers.below(256) as u8);
        }
        let part = FormPart::File { filename: "f".to_string(), contents: Some(contents) };
        let mut body = Vec::new();
        let _ = append_part(&mut body, &part, "b");
    }
}
