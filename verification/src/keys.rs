//! The gateway's key configuration, and the sealing that is done with it.
//!
//! Sealing and opening are `ohttp`'s. Before a key configuration is handed
//! over it is screened: `ohttp` drops the cipher suites that it does not
//! support and then reaches for the first that is left, so it is not given a
//! configuration that it would read to the end and find no suite in.

use vstd::prelude::*;
use vstd::slice::slice_subrange;

verus! {

/// Where the list of cipher suites starts in an encoded configuration:
/// after the key identifier, the KEM identifier, the 32 bytes of the public
/// key and the length of the list.
pub const SUITES_OFFSET: usize = 37;

/// The bytes that sealing adds to a request: 7 of header, 32 of
/// encapsulated key and 16 of authentication tag.
pub const SEALING_OVERHEAD: usize = 55;

/// The number that two bytes spell, the first being the high half.
pub open spec fn be16(high: u8, low: u8) -> int {
    high * 256 + low
}

/// The length in bytes that a configuration declares for its suites.
pub open spec fn declared_suites_len(config: Seq<u8>) -> int {
    be16(config[SUITES_OFFSET - 2], config[SUITES_OFFSET - 1])
}

/// Whether the four bytes at `at` name a suite that is supported:
/// HKDF-SHA256 with AES-128-GCM or with ChaCha20-Poly1305.
pub open spec fn is_supported_suite(config: Seq<u8>, at: int) -> bool {
    &&& config[at] == 0
    &&& config[at + 1] == 1
    &&& config[at + 2] == 0
    &&& (config[at + 3] == 1 || config[at + 3] == 3)
}

/// Whether the `k`-th suite lies within both the declared list and the
/// bytes at hand.
pub open spec fn suite_in_reach(config: Seq<u8>, k: int) -> bool {
    &&& 0 <= k
    &&& 4 * k + 4 <= declared_suites_len(config)
    &&& SUITES_OFFSET + 4 * k + 4 <= config.len()
}

/// Whether the `k`-th suite of the configuration is in reach and supported.
pub open spec fn supported_suite_at(config: Seq<u8>, k: int) -> bool {
    &&& suite_in_reach(config, k)
    &&& is_supported_suite(config, SUITES_OFFSET + 4 * k)
}

/// Whether an encoded configuration names a supported suite.
pub open spec fn offers_supported_suite(config: Seq<u8>) -> bool {
    &&& config.len() >= SUITES_OFFSET
    &&& exists|k: int| supported_suite_at(config, k)
}

/// Whether the four bytes at `at` name a suite that the protocol defines: a
/// key derivation and a cipher, each numbered 1 to 3.
pub open spec fn is_known_suite(config: Seq<u8>, at: int) -> bool {
    &&& config[at] == 0
    &&& 1 <= config[at + 1] <= 3
    &&& config[at + 2] == 0
    &&& 1 <= config[at + 3] <= 3
}

/// Whether an encoded configuration can be read to the end: it is long
/// enough to declare its suites, its KEM is X25519, and every suite in reach
/// is one that the protocol defines. Any other configuration is passed over
/// or fails before a suite is taken.
pub open spec fn names_known_suites(config: Seq<u8>) -> bool {
    &&& config.len() >= SUITES_OFFSET
    &&& config[1] == 0
    &&& config[2] == 0x20
    &&& forall|k: int|
        suite_in_reach(config, k) ==> is_known_suite(config, #[trigger] (SUITES_OFFSET + 4 * k))
}

/// Whether an encoded configuration may be handed over: where it can be read
/// to the end, it names a supported suite.
pub open spec fn config_is_safe(config: Seq<u8>) -> bool {
    names_known_suites(config) ==> offers_supported_suite(config)
}

/// Whether the configuration that is taken from an encoded list, the last
/// that can be read to the end, names a supported suite; `so_far` says so of
/// the configurations before. Each configuration is preceded by its length
/// in two bytes, and the reading stops where the list is cut short.
pub open spec fn last_names_supported(list: Seq<u8>, so_far: bool) -> bool
    decreases list.len(),
{
    if list.len() < 2 {
        so_far
    } else {
        let n = be16(list[0], list[1]);
        if 2 + n > list.len() {
            so_far
        } else {
            let config = list.subrange(2, 2 + n);
            let next = if names_known_suites(config) {
                offers_supported_suite(config)
            } else {
                so_far
            };
            last_names_supported(list.skip(2 + n), next)
        }
    }
}

/// Whether an encoded list of configurations may be handed over.
pub open spec fn config_list_is_safe(list: Seq<u8>) -> bool {
    last_names_supported(list, true)
}

/// Tells whether an encoded configuration names a supported suite.
pub fn has_supported_suite(config: &[u8]) -> (r: bool)
    ensures
        r == offers_supported_suite(config@),
{
    if config.len() < SUITES_OFFSET {
        return false;
    }
    let declared: usize = (config[SUITES_OFFSET - 2] as usize) * 256 + (config[SUITES_OFFSET
        - 1] as usize);
    let mut k: usize = 0;
    while 4 * k + 4 <= declared && SUITES_OFFSET + 4 * k + 4 <= config.len()
        invariant
            declared == declared_suites_len(config@),
            declared < 65536,
            4 * k <= declared,
            forall|j: int| 0 <= j < k ==> !supported_suite_at(config@, j),
        decreases declared - 4 * k,
    {
        let at: usize = SUITES_OFFSET + 4 * k;
        if config[at] == 0 && config[at + 1] == 1 && config[at + 2] == 0 && (config[at + 3] == 1
            || config[at + 3] == 3) {
            assert(supported_suite_at(config@, k as int));
            return true;
        }
        k += 1;
    }
    assert forall|j: int| !supported_suite_at(config@, j) by {
        if j >= k && supported_suite_at(config@, j) {
            assert(4 * k + 4 <= 4 * j + 4);
        }
    }
    false
}

/// Tells whether an encoded configuration can be read to the end.
pub fn has_known_suites(config: &[u8]) -> (r: bool)
    ensures
        r == names_known_suites(config@),
{
    if config.len() < SUITES_OFFSET || config[1] != 0 || config[2] != 0x20 {
        return false;
    }
    let declared: usize = (config[SUITES_OFFSET - 2] as usize) * 256 + (config[SUITES_OFFSET
        - 1] as usize);
    let mut k: usize = 0;
    while 4 * k + 4 <= declared && SUITES_OFFSET + 4 * k + 4 <= config.len()
        invariant
            declared == declared_suites_len(config@),
            declared < 65536,
            4 * k <= declared,
            forall|j: int|
                0 <= j < k ==> is_known_suite(config@, #[trigger] (SUITES_OFFSET + 4 * j)),
        decreases declared - 4 * k,
    {
        let at: usize = SUITES_OFFSET + 4 * k;
        if !(config[at] == 0 && 1 <= config[at + 1] && config[at + 1] <= 3 && config[at + 2] == 0
            && 1 <= config[at + 3] && config[at + 3] <= 3) {
            assert(suite_in_reach(config@, k as int));
            assert(!is_known_suite(config@, SUITES_OFFSET + 4 * k));
            return false;
        }
        k += 1;
    }
    assert forall|j: int| suite_in_reach(config@, j) implies is_known_suite(
        config@,
        #[trigger] (SUITES_OFFSET + 4 * j),
    ) by {
        if j >= k {
            assert(4 * k + 4 <= 4 * j + 4);
        }
    }
    true
}

/// Tells whether an encoded configuration may be handed over.
pub fn is_safe_config(config: &[u8]) -> (r: bool)
    ensures
        r == config_is_safe(config@),
{
    !has_known_suites(config) || has_supported_suite(config)
}

/// Tells whether an encoded list of configurations may be handed over.
pub fn is_safe_config_list(list: &[u8]) -> (r: bool)
    ensures
        r == config_list_is_safe(list@),
{
    let mut at: usize = 0;
    let mut so_far: bool = true;
    assert(list@.skip(0) =~= list@);
    while list.len() - at >= 2
        invariant
            at <= list.len(),
            config_list_is_safe(list@) == last_names_supported(list@.skip(at as int), so_far),
        decreases list.len() - at,
    {
        let ghost rest = list@.skip(at as int);
        let n: usize = (list[at] as usize) * 256 + (list[at + 1] as usize);
        proof {
            assert(rest[0] == list@[at as int]);
            assert(rest[1] == list@[at + 1]);
        }
        if list.len() - at - 2 < n {
            return so_far;
        }
        let config = slice_subrange(list, at + 2, at + 2 + n);
        proof {
            assert(config@ =~= rest.subrange(2, 2 + n));
            assert(rest.skip(2 + n) =~= list@.skip(at + 2 + n));
        }
        if has_known_suites(config) {
            so_far = has_supported_suite(config);
        }
        at = at + 2 + n;
    }
    so_far
}

/// `ohttp::ClientRequest`: the sender for one request.
#[verifier::external_type_specification]
#[verifier::external_body]
pub struct ExClientRequest(ohttp::ClientRequest);

/// `ohttp::ClientResponse`: the context that opens the response to one
/// request.
#[verifier::external_type_specification]
#[verifier::external_body]
pub struct ExClientResponse(ohttp::ClientResponse);

/// `ohttp::Error`, which is only passed on.
#[verifier::external_type_specification]
#[verifier::external_body]
pub struct ExSealingError(ohttp::Error);

/// Whether `ohttp` makes a sender from this encoded configuration.
pub uninterp spec fn config_accepted(config: Seq<u8>) -> bool;

/// Whether `ohttp` makes a sender from this encoded list of configurations.
pub uninterp spec fn config_list_accepted(list: Seq<u8>) -> bool;

/// What opening `sealed` with a response context gives, where it gives
/// anything.
pub uninterp spec fn opened_response(context: ohttp::ClientResponse, sealed: Seq<u8>) -> Option<
    Seq<u8>,
>;

/// `ohttp::ClientRequest::from_encoded_config`: a sender for the decoded
/// configuration, or a failure; which of the two, the bytes alone decide.
/// It is kept from a configuration that it reads to the end and finds no
/// supported suite in, of whose suites it would take the first.
#[verifier::external_body]
pub(crate) fn from_encoded_config(config: &[u8]) -> (r: Result<ohttp::ClientRequest, ohttp::Error>)
    requires
        config_is_safe(config@),
    ensures
        r is Ok <==> config_accepted(config@),
{
    ohttp::ClientRequest::from_encoded_config(config)
}

/// `ohttp::ClientRequest::from_encoded_config_list`: a sender for the last
/// of the configurations that it reads to the end, or a failure; which of
/// the two, the bytes alone decide. It is kept from lists whose last such
/// configuration holds no supported suite, of whose suites it would take
/// the first.
#[verifier::external_body]
pub(crate) fn from_encoded_config_list(list: &[u8]) -> (r: Result<
    ohttp::ClientRequest,
    ohttp::Error,
>)
    requires
        config_list_is_safe(list@),
    ensures
        r is Ok <==> config_list_accepted(list@),
{
    ohttp::ClientRequest::from_encoded_config_list(list)
}

/// `ohttp::ClientRequest::encapsulate`: the sealed message and the context
/// that opens the response to it. The sealed bytes differ from call to call;
/// their number is that of the message and the overhead.
#[verifier::external_body]
pub(crate) fn encapsulate(sender: ohttp::ClientRequest, message: &[u8]) -> (r: Result<
    (Vec<u8>, ohttp::ClientResponse),
    ohttp::Error,
>)
    ensures
        r matches Ok(sealed) ==> sealed.0@.len() == message@.len() + SEALING_OVERHEAD,
{
    sender.encapsulate(message)
}

/// `ohttp::ClientResponse::decapsulate`: the response that the sealed bytes
/// hold, or a failure; the same for the same context and bytes.
#[verifier::external_body]
pub(crate) fn decapsulate(context: ohttp::ClientResponse, sealed: &[u8]) -> (r: Result<
    Vec<u8>,
    ohttp::Error,
>)
    ensures
        r matches Ok(plain) ==> opened_response(context, sealed@) == Some(plain@),
        r is Err ==> opened_response(context, sealed@) is None,
{
    context.decapsulate(sealed)
}

} // verus!
