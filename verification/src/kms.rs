//! Trust in a key that a key management service publishes: the polling
//! rule, the choice among the published entries, and the verdict that a
//! receipt needs before its key is used.

use crate::error::ClientError;
use crate::hex::{hex_decoding, is_hex_text, HexArg};
use crate::text::bytes_of;
use vstd::prelude::*;
use vstd::string::*;

verus! {

/// How often a "not ready" answer is followed by another request.
pub const MAX_RETRIES: u32 = 3;

/// The seconds to wait before asking again.
pub const RETRY_DELAY_SECONDS: u64 = 1;

/// The status that carries the published keys.
pub const STATUS_READY: u16 = 200;

/// The status that asks the client to come back later.
pub const STATUS_NOT_READY: u16 = 202;

/// Where the service lists its public keys.
pub fn kms_list_url(kms_url: &str) -> (r: String)
    ensures
        r@ == kms_url@ + "/listpubkeys"@,
{
    let mut url = kms_url.to_owned();
    url.append("/listpubkeys");
    url
}

/// The trusted certificate, from what reading its file gave: its text, or
/// nothing where the file could not be read.
pub fn trusted_certificate(read: Option<String>) -> (r: Result<String, ClientError>)
    ensures
        match read {
            Some(text) => r == Ok::<String, ClientError>(text),
            None => r matches Err(e) && e is CertificateReadError,
        },
{
    match read {
        Some(text) => Ok(text),
        None => Err(ClientError::CertificateReadError),
    }
}

/// What came of one request to the service.
#[derive(Debug, Clone, Copy, PartialEq, Eq, Structural)]
pub enum PollEvent {
    /// A response arrived with this status.
    Status(u16),
    /// No usable response arrived.
    RequestFailed,
}

/// What to do after one request to the service.
#[derive(Debug, Clone, PartialEq, Eq)]
pub enum PollStep {
    /// Wait, then ask again; `retries` counts the retries so far, this one
    /// included.
    Retry { retries: u32 },
    /// Read the keys from the response; `retries` retries were needed.
    Ready { retries: u32 },
    /// Give up.
    Fail(ClientError),
}

/// The polling rule: success ends the polling, "not ready" is retried up to
/// the ceiling, and anything else fails at once.
pub open spec fn next_poll_step(retries: u32, event: PollEvent) -> PollStep {
    match event {
        PollEvent::RequestFailed => PollStep::Fail(ClientError::KmsRequestError),
        PollEvent::Status(status) => if status == STATUS_READY {
            PollStep::Ready { retries }
        } else if status == STATUS_NOT_READY {
            if retries < MAX_RETRIES {
                PollStep::Retry { retries: (retries + 1) as u32 }
            } else {
                PollStep::Fail(ClientError::KmsTimeout)
            }
        } else {
            PollStep::Fail(ClientError::KmsUnexpectedStatus(status))
        },
    }
}

/// Decides what follows one request, after `retries` retries.
pub fn poll_step(retries: u32, event: PollEvent) -> (r: PollStep)
    ensures
        r == next_poll_step(retries, event),
{
    match event {
        PollEvent::RequestFailed => PollStep::Fail(ClientError::KmsRequestError),
        PollEvent::Status(status) => {
            if status == STATUS_READY {
                PollStep::Ready { retries }
            } else if status == STATUS_NOT_READY {
                if retries < MAX_RETRIES {
                    PollStep::Retry { retries: retries + 1 }
                } else {
                    PollStep::Fail(ClientError::KmsTimeout)
                }
            } else {
                PollStep::Fail(ClientError::KmsUnexpectedStatus(status))
            }
        },
    }
}

/// Where the polling stands after a run of events, starting from `retries`
/// retries. Events after the one that ends the polling do not count; while
/// none has ended it, the polling is about to ask again.
pub open spec fn poll_run(retries: u32, events: Seq<PollEvent>) -> PollStep
    decreases events.len(),
{
    if events.len() == 0 {
        PollStep::Retry { retries }
    } else {
        match next_poll_step(retries, events[0]) {
            PollStep::Retry { retries: next } => poll_run(next, events.drop_first()),
            ended => ended,
        }
    }
}

/// `n` answers of "not ready".
pub open spec fn not_ready(n: nat) -> Seq<PollEvent> {
    Seq::new(n, |i: int| PollEvent::Status(STATUS_NOT_READY))
}

/// While the ceiling is not passed, every "not ready" costs one retry.
pub proof fn lemma_not_ready_is_retried(start: u32, n: nat)
    requires
        start + n <= MAX_RETRIES,
    ensures
        poll_run(start, not_ready(n)) == (PollStep::Retry { retries: (start + n) as u32 }),
    decreases n,
{
    if n > 0 {
        assert(not_ready(n).drop_first() =~= not_ready((n - 1) as nat));
        lemma_not_ready_is_retried((start + 1) as u32, (n - 1) as nat);
    }
}

/// Success after `n` answers of "not ready", with `n` within the ceiling,
/// ends the polling after exactly `n` retries.
pub proof fn lemma_ready_after_retries(n: nat)
    requires
        n <= MAX_RETRIES,
    ensures
        poll_run(0, not_ready(n).push(PollEvent::Status(STATUS_READY))) == (PollStep::Ready {
            retries: n as u32,
        }),
{
    lemma_run_then(0, not_ready(n), PollEvent::Status(STATUS_READY));
    lemma_not_ready_is_retried(0, n);
}

/// More answers of "not ready" than the ceiling allows end in a timeout.
pub proof fn lemma_not_ready_times_out(n: nat)
    requires
        n > MAX_RETRIES,
    ensures
        poll_run(0, not_ready(n)) == PollStep::Fail(ClientError::KmsTimeout),
    decreases n,
{
    let ceiling = MAX_RETRIES as nat;
    if n == ceiling + 1 {
        assert(not_ready(n) =~= not_ready(ceiling).push(PollEvent::Status(STATUS_NOT_READY)));
        lemma_run_then(0, not_ready(ceiling), PollEvent::Status(STATUS_NOT_READY));
        lemma_not_ready_is_retried(0, ceiling);
    } else {
        assert(not_ready(n) =~= not_ready((n - 1) as nat).push(
            PollEvent::Status(STATUS_NOT_READY),
        ));
        lemma_not_ready_times_out((n - 1) as nat);
        lemma_run_then(0, not_ready((n - 1) as nat), PollEvent::Status(STATUS_NOT_READY));
    }
}

/// One more event counts only while the polling has not ended.
proof fn lemma_run_then(retries: u32, events: Seq<PollEvent>, event: PollEvent)
    ensures
        poll_run(retries, events.push(event)) == match poll_run(retries, events) {
            PollStep::Retry { retries: reached } => next_poll_step(reached, event),
            ended => ended,
        },
    decreases events.len(),
{
    let longer = events.push(event);
    assert(longer.len() > 0);
    if events.len() == 0 {
        assert(longer[0] == event);
        assert(longer.drop_first().len() == 0);
        assert(poll_run(retries, events) == (PollStep::Retry { retries }));
        match next_poll_step(retries, event) {
            PollStep::Retry { retries: next } => {
                assert(poll_run(next, longer.drop_first()) == (PollStep::Retry { retries: next }));
            },
            _ => {},
        }
    } else {
        assert(longer.drop_first() =~= events.drop_first().push(event));
        assert(longer[0] == events[0]);
        match next_poll_step(retries, events[0]) {
            PollStep::Retry { retries: next } => {
                lemma_run_then(next, events.drop_first(), event);
            },
            _ => {},
        }
    }
}

/// One entry of the list that the service publishes.
#[derive(Debug, Clone, PartialEq, Eq)]
pub struct KeyConfigEntry {
    /// The key configuration, as hexadecimal text.
    pub key_config: String,
    /// The receipt that vouches for the key.
    pub receipt: String,
}

/// Picks the entry to use: the last one published.
pub fn select_entry(entries: Vec<KeyConfigEntry>) -> (r: Result<KeyConfigEntry, ClientError>)
    ensures
        match r {
            Ok(entry) => entries@.len() >= 1 && entry == entries@.last(),
            Err(e) => entries@.len() == 0 && e is NoKmsConfiguration,
        },
{
    let mut entries = entries;
    match entries.pop() {
        Some(entry) => Ok(entry),
        None => Err(ClientError::NoKmsConfiguration),
    }
}

/// The verdict on a receipt.
#[derive(Debug, Clone, PartialEq, Eq)]
pub enum Verification {
    /// The receipt verifies against the trusted certificate.
    Verified,
    /// It does not; the verifier's diagnostic is carried along.
    Rejected(String),
}

/// The key configuration that an entry yields under a verdict on its
/// receipt: none unless the receipt verified, and then the bytes that its
/// hexadecimal text stands for.
pub open spec fn released_key_config(entry: KeyConfigEntry, verification: Verification) -> Result<
    Seq<u8>,
    ClientError,
> {
    match verification {
        Verification::Rejected(diagnostic) => Err(
            ClientError::ReceiptVerificationFailed(diagnostic),
        ),
        Verification::Verified => if is_hex_text(bytes_of(entry.key_config@)) {
            Ok(hex_decoding(bytes_of(entry.key_config@)))
        } else {
            Err(ClientError::InvalidEncoding)
        },
    }
}

/// Hands out the key configuration of an entry, once its receipt verified.
pub fn trusted_key_config(entry: &KeyConfigEntry, verification: Verification) -> (r: Result<
    HexArg,
    ClientError,
>)
    ensures
        match r {
            Ok(key) => released_key_config(*entry, verification) == Ok::<Seq<u8>, ClientError>(key@),
            Err(e) => released_key_config(*entry, verification) == Err::<Seq<u8>, ClientError>(e),
        },
{
    match verification {
        Verification::Rejected(diagnostic) => Err(
            ClientError::ReceiptVerificationFailed(diagnostic),
        ),
        Verification::Verified => HexArg::decode(entry.key_config.as_str()),
    }
}

/// No key is handed out for a receipt that was rejected, however well its
/// key configuration is formed.
pub proof fn lemma_rejected_receipt_yields_no_key(entry: KeyConfigEntry, diagnostic: String)
    ensures
        released_key_config(entry, Verification::Rejected(diagnostic)) is Err,
{
}

} // verus!
