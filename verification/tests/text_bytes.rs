use ohttp_client::text::{append_bytes, append_decimal, append_str};

#[test]
fn bytes_are_appended() {
    let mut buf = vec![1u8, 2];
    append_bytes(&mut buf, &[3, 4, 5]);
    assert_eq!(buf, [1, 2, 3, 4, 5]);
    append_bytes(&mut buf, &[]);
    assert_eq!(buf, [1, 2, 3, 4, 5]);
}

#[test]
fn text_is_appended_as_utf8() {
    let mut buf = b"a".to_vec();
    append_str(&mut buf, "bé→");
    assert_eq!(buf, "abé→".as_bytes());
    assert_eq!(buf.len(), 7);
}

#[test]
fn numbers_are_appended_in_decimal() {
    for n in [0usize, 1, 9, 10, 11, 19, 20, 99, 100, 101, 999, 1000, 65535, 65536, usize::MAX] {
        let mut buf = b"n=".to_vec();
        append_decimal(&mut buf, n);
        assert_eq!(buf, format!("n={n}").as_bytes());
    }
}
