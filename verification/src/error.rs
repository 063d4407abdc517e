//! The failures a request can end in.

use vstd::prelude::*;

verus! {

/// Why a request could not be prepared or completed.
#[derive(Debug, Clone, PartialEq, Eq)]
pub enum ClientError {
    /// A hexadecimal value holds a character that is no hex digit, or an odd
    /// number of digits.
    InvalidEncoding,
    /// Neither a static key configuration nor a key management service was given.
    MissingConfiguration,
    /// The key management service published no key configuration.
    NoKmsConfiguration,
    /// The trusted certificate could not be read.
    CertificateReadError,
    /// The request to the key management service failed in transport.
    KmsRequestError,
    /// The key management service answered with a status that is neither
    /// success nor "not ready"; the status is carried along.
    KmsUnexpectedStatus(u16),
    /// The key management service stayed "not ready" through every retry.
    KmsTimeout,
    /// The receipt of the published key did not verify; the verifier's
    /// diagnostic is carried along.
    ReceiptVerificationFailed(String),
    /// A file named by a form field could not be read.
    FileAccessError,
    /// The type of a file named by a form field could not be inferred.
    FileTypeError,
    /// The textual request could not be parsed.
    MalformedMessage,
    /// An outer header holds no colon.
    InvalidHeaderSyntax,
    /// The key configuration was refused or the request could not be sealed.
    EncapsulationError,
    /// No response was received from the relay.
    TransportError,
}

} // verus!
