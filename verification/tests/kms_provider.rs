use ohttp_client::error::ClientError;
use ohttp_client::kms::{
    kms_list_url, poll_step, select_entry, trusted_certificate, trusted_key_config,
    KeyConfigEntry, PollEvent, PollStep, Verification, MAX_RETRIES, RETRY_DELAY_SECONDS,
};

/// Polls a service that gives the listed answers in turn, and repeats the last.
fn poll(answers: &[PollEvent]) -> (PollStep, usize) {
    let mut retries = 0;
    let mut asked = 0;
    loop {
        let event = answers[asked.min(answers.len() - 1)];
        asked += 1;
        match poll_step(retries, event) {
            PollStep::Retry { retries: next } => retries = next,
            ended => return (ended, asked),
        }
    }
}

fn entry(key: &str, receipt: &str) -> KeyConfigEntry {
    KeyConfigEntry { key_config: key.to_string(), receipt: receipt.to_string() }
}

#[test]
fn list_url_is_the_address_and_the_path() {
    assert_eq!(kms_list_url("https://kms.example"), "https://kms.example/listpubkeys");
    assert_eq!(kms_list_url(""), "/listpubkeys");
}

#[test]
fn retry_policy_is_three_retries_a_second_apart() {
    assert_eq!(MAX_RETRIES, 3);
    assert_eq!(RETRY_DELAY_SECONDS, 1);
}

#[test]
fn success_ends_the_polling_at_once() {
    assert_eq!(poll(&[PollEvent::Status(200)]), (PollStep::Ready { retries: 0 }, 1));
}

#[test]
fn three_times_not_ready_then_success_takes_three_retries() {
    let answers = [
        PollEvent::Status(202),
        PollEvent::Status(202),
        PollEvent::Status(202),
        PollEvent::Status(200),
    ];
    assert_eq!(poll(&answers), (PollStep::Ready { retries: 3 }, 4));
}

#[test]
fn not_ready_for_ever_times_out_after_the_ceiling() {
    assert_eq!(poll(&[PollEvent::Status(202)]), (PollStep::Fail(ClientError::KmsTimeout), 4));
}

#[test]
fn each_step_of_the_rule() {
    assert_eq!(poll_step(0, PollEvent::Status(202)), PollStep::Retry { retries: 1 });
    assert_eq!(poll_step(2, PollEvent::Status(202)), PollStep::Retry { retries: 3 });
    assert_eq!(poll_step(3, PollEvent::Status(202)), PollStep::Fail(ClientError::KmsTimeout));
    assert_eq!(poll_step(u32::MAX, PollEvent::Status(202)), PollStep::Fail(ClientError::KmsTimeout));
    assert_eq!(poll_step(2, PollEvent::Status(200)), PollStep::Ready { retries: 2 });
}

#[test]
fn other_status_fails_with_the_status() {
    for status in [100u16, 201, 204, 301, 404, 500] {
        assert_eq!(
            poll_step(1, PollEvent::Status(status)),
            PollStep::Fail(ClientError::KmsUnexpectedStatus(status))
        );
    }
}

#[test]
fn failed_request_is_not_retried() {
    assert_eq!(poll_step(0, PollEvent::RequestFailed), PollStep::Fail(ClientError::KmsRequestError));
    let answers = [PollEvent::Status(202), PollEvent::RequestFailed, PollEvent::Status(200)];
    assert_eq!(poll(&answers), (PollStep::Fail(ClientError::KmsRequestError), 2));
}

#[test]
fn unread_certificate_is_an_error() {
    assert_eq!(trusted_certificate(None), Err(ClientError::CertificateReadError));
    assert_eq!(trusted_certificate(Some("pem".to_string())), Ok("pem".to_string()));
}

#[test]
fn last_entry_is_selected() {
    let entries = vec![entry("00", "r0"), entry("01", "r1"), entry("02", "r2")];
    assert_eq!(select_entry(entries), Ok(entry("02", "r2")));
    assert_eq!(select_entry(vec![entry("aa", "only")]), Ok(entry("aa", "only")));
}

#[test]
fn empty_list_has_no_configuration() {
    assert_eq!(select_entry(Vec::new()), Err(ClientError::NoKmsConfiguration));
}

#[test]
fn verified_entry_yields_its_decoded_key() {
    let key = trusted_key_config(&entry("0a0B", "r"), Verification::Verified).unwrap();
    assert_eq!(key.as_slice(), &[0x0a, 0x0b][..]);
}

#[test]
fn rejected_receipt_yields_no_key() {
    let r = trusted_key_config(&entry("0a0b", "r"), Verification::Rejected("bad receipt".to_string()));
    assert_eq!(r.unwrap_err(), ClientError::ReceiptVerificationFailed("bad receipt".to_string()));
    let r = trusted_key_config(&entry("zz", "r"), Verification::Rejected("bad".to_string()));
    assert_eq!(r.unwrap_err(), ClientError::ReceiptVerificationFailed("bad".to_string()));
}

#[test]
fn verified_entry_with_bad_hex_is_invalid() {
    let r = trusted_key_config(&entry("0g", "r"), Verification::Verified);
    assert_eq!(r.unwrap_err(), ClientError::InvalidEncoding);
    let r = trusted_key_config(&entry("abc", "r"), Verification::Verified);
    assert_eq!(r.unwrap_err(), ClientError::InvalidEncoding);
}
