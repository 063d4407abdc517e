//! One request and its response: the client that seals the inner request,
//! the outer request that carries it, and the stream that opens the reply.

use crate::convert::{
    binary_request, create_request_buffer, request_buffer, to_binary_request, FramingMode,
};
use crate::error::ClientError;
use crate::hex::HexArg;
use crate::keys::{
    config_accepted, config_is_safe, config_list_accepted, config_list_is_safe, decapsulate,
    encapsulate, from_encoded_config, from_encoded_config_list, is_safe_config,
    is_safe_config_list, opened_response, SEALING_OVERHEAD,
};
use crate::kms::{released_key_config, trusted_key_config, KeyConfigEntry, Verification};
use crate::multipart::{boundary_of, first_failure, is_boundary_token, optional_parts, FormPart};
use crate::text::split_once;
use std::path::PathBuf;
use vstd::prelude::*;
use vstd::string::*;

verus! {

/// `std::path::PathBuf`, which is only held and passed on.
#[verifier::external_type_specification]
#[verifier::external_body]
pub struct ExPathBuf(PathBuf);

/// `PathBuf::clone`: the copy is the path that was copied.
pub assume_specification[ <PathBuf as Clone>::clone ](path: &PathBuf) -> (r: PathBuf)
    ensures
        r == *path,
;

/// The byte `:`, which parts an outer header's name from its value.
pub const HEADER_SEPARATOR: u8 = 0x3a;

/// Whether `pair` is `header` cut at its first colon.
pub open spec fn is_header_pair(header: Seq<char>, pair: (String, String)) -> bool {
    &&& !pair.0@.contains(':')
    &&& header == pair.0@.push(':') + pair.1@
}

/// Cuts an outer header at its first colon.
pub fn parse_outer_header(header: &str) -> (r: Result<(String, String), ClientError>)
    ensures
        match r {
            Ok(pair) => is_header_pair(header@, pair),
            Err(e) => e is InvalidHeaderSyntax && !header@.contains(':'),
        },
{
    assert(HEADER_SEPARATOR as char == ':');
    match split_once(header, HEADER_SEPARATOR) {
        Some((name, value)) => Ok((name.to_owned(), value.to_owned())),
        None => Err(ClientError::InvalidHeaderSyntax),
    }
}

/// The headers of an optional list.
pub open spec fn optional_headers(headers: Option<Vec<String>>) -> Seq<String> {
    match headers {
        Some(list) => list@,
        None => Seq::empty(),
    }
}

/// Whether every outer header holds a colon.
pub open spec fn headers_well_formed(headers: Option<Vec<String>>) -> bool {
    forall|i: int|
        0 <= i < optional_headers(headers).len() ==> (#[trigger] optional_headers(
            headers,
        )[i])@.contains(':')
}

/// Whether `list` is what the outer request carries for the given headers:
/// the content type of a sealed request first, then each header, cut at its
/// first colon, in the order given.
pub open spec fn is_outer_header_list(headers: Option<Vec<String>>, list: Seq<(String, String)>) -> bool {
    &&& list.len() == optional_headers(headers).len() + 1
    &&& list[0].0@ == "content-type"@
    &&& list[0].1@ == "message/ohttp-chunked-req"@
    &&& forall|i: int|
        0 <= i < optional_headers(headers).len() ==> is_header_pair(
            optional_headers(headers)[i]@,
            #[trigger] list[i + 1],
        )
}

/// Lists the headers of the outer request. One header without a colon fails
/// them all.
pub fn outer_request_headers(outer_headers: &Option<Vec<String>>) -> (r: Result<
    Vec<(String, String)>,
    ClientError,
>)
    ensures
        match r {
            Ok(list) => headers_well_formed(*outer_headers) && is_outer_header_list(
                *outer_headers,
                list@,
            ),
            Err(e) => e is InvalidHeaderSyntax && !headers_well_formed(*outer_headers),
        },
{
    let mut list: Vec<(String, String)> = Vec::new();
    list.push(("content-type".to_owned(), "message/ohttp-chunked-req".to_owned()));
    match outer_headers {
        None => Ok(list),
        Some(given) => {
            let mut i: usize = 0;
            while i < given.len()
                invariant
                    i <= given.len(),
                    optional_headers(*outer_headers) == given@,
                    list@.len() == i + 1,
                    list@[0].0@ == "content-type"@,
                    list@[0].1@ == "message/ohttp-chunked-req"@,
                    forall|j: int| 0 <= j < i ==> (#[trigger] given@[j])@.contains(':'),
                    forall|j: int| 0 <= j < i ==> is_header_pair(given@[j]@, #[trigger] list@[j + 1]),
                decreases given.len() - i,
            {
                let pair = parse_outer_header(given[i].as_str())?;
                proof {
                    let h = given@[i as int]@;
                    assert(h[pair.0@.len() as int] == ':');
                }
                list.push(pair);
                i += 1;
            }
            Ok(list)
        },
    }
}

/// The request that is sent to the relay.
#[derive(Debug)]
pub struct OuterRequest {
    /// Where it is posted.
    pub url: String,
    /// Its headers, in order.
    pub headers: Vec<(String, String)>,
    /// Its body: the sealed inner request.
    pub body: Vec<u8>,
}

/// What has come of one read from the relay's response.
#[derive(Debug)]
pub enum Pull {
    /// More sealed bytes.
    Chunk(Vec<u8>),
    /// The response has ended.
    End,
    /// The read failed; the response is taken to have ended.
    Failed,
}

/// What the stream of plain bytes yields for one read.
#[derive(Debug)]
pub enum Yield {
    /// Nothing yet: read on.
    Nothing,
    /// The last item: the opened response, or the failure to open it.
    Last(Result<Vec<u8>, ClientError>),
    /// The stream had ended before.
    Ended,
}

/// The relay's response as it is read and opened: the context that opens it,
/// held until the response has ended, and the sealed bytes read so far.
pub struct ResponseStream {
    context: Option<ohttp::ClientResponse>,
    pending: Vec<u8>,
}

/// A response stream as contracts see it.
pub struct StreamView {
    /// The context, while the stream is open.
    pub context: Option<ohttp::ClientResponse>,
    /// The sealed bytes read so far, in order of arrival.
    pub pending: Seq<u8>,
}

impl View for ResponseStream {
    type V = StreamView;

    closed spec fn view(&self) -> StreamView {
        StreamView { context: self.context, pending: self.pending@ }
    }
}

/// What opening the sealed bytes yields as the stream's last item.
pub open spec fn is_opening(
    item: Result<Vec<u8>, ClientError>,
    context: ohttp::ClientResponse,
    sealed: Seq<u8>,
) -> bool {
    match opened_response(context, sealed) {
        Some(plain) => item matches Ok(bytes) && bytes@ == plain,
        None => item matches Err(e) && e is EncapsulationError,
    }
}

impl ResponseStream {
    /// A stream that has read nothing yet.
    pub fn new(context: ohttp::ClientResponse) -> (r: ResponseStream)
        ensures
            r@.context == Some(context),
            r@.pending == Seq::<u8>::empty(),
    {
        ResponseStream { context: Some(context), pending: Vec::new() }
    }

    /// Hands the stream on, once the request was sent. A response of any
    /// status counts; where none was received, the exchange has failed in
    /// transport and nothing is opened.
    pub fn received(self, responded: bool) -> (r: Result<ResponseStream, ClientError>)
        ensures
            match r {
                Ok(stream) => responded && stream@ == self@,
                Err(e) => !responded && e is TransportError,
            },
    {
        if responded {
            Ok(self)
        } else {
            Err(ClientError::TransportError)
        }
    }

    /// Takes in what one read gave. Sealed bytes are kept, in order; the end
    /// of the response, or a failed read, has all that was kept opened, once.
    pub fn on_pull(&mut self, pull: Pull) -> (r: Yield)
        ensures
            match old(self)@.context {
                None => r is Ended && final(self)@ == old(self)@,
                Some(context) => match pull {
                    Pull::Chunk(bytes) => {
                        &&& r is Nothing
                        &&& final(self)@.context == Some(context)
                        &&& final(self)@.pending == old(self)@.pending + bytes@
                    },
                    _ => {
                        &&& final(self)@.context is None
                        &&& final(self)@.pending == old(self)@.pending
                        &&& r matches Yield::Last(item) && is_opening(
                            item,
                            context,
                            old(self)@.pending,
                        )
                    },
                },
            },
    {
        if self.context.is_none() {
            return Yield::Ended;
        }
        match pull {
            Pull::Chunk(bytes) => {
                crate::text::append_bytes(&mut self.pending, bytes.as_slice());
                Yield::Nothing
            },
            _ => {
                let context = self.context.take().unwrap();
                match decapsulate(context, self.pending.as_slice()) {
                    Ok(plain) => Yield::Last(Ok(plain)),
                    Err(_) => Yield::Last(Err(ClientError::EncapsulationError)),
                }
            },
        }
    }
}

/// The bytes of a run of chunks, taken together in order of arrival.
pub open spec fn joined(chunks: Seq<Seq<u8>>) -> Seq<u8>
    decreases chunks.len(),
{
    if chunks.len() == 0 {
        Seq::empty()
    } else {
        joined(chunks.drop_last()) + chunks.last()
    }
}

/// `bytes` cut into chunks of `size` bytes, the last of them shorter where
/// the bytes do not divide; a `size` of zero leaves them whole.
pub open spec fn cut(bytes: Seq<u8>, size: nat) -> Seq<Seq<u8>>
    decreases bytes.len(),
{
    if size == 0 || bytes.len() <= size {
        seq![bytes]
    } else {
        seq![bytes.take(size as int)] + cut(bytes.skip(size as int), size)
    }
}

proof fn lemma_joined_after_first(first: Seq<u8>, rest: Seq<Seq<u8>>)
    ensures
        joined(seq![first] + rest) == first + joined(rest),
    decreases rest.len(),
{
    let all = seq![first] + rest;
    if rest.len() == 0 {
        assert(all.len() == 1);
        assert(all.last() == first);
        assert(all.drop_last() =~= Seq::<Seq<u8>>::empty());
        assert(joined(all.drop_last()) =~= Seq::<u8>::empty());
        assert(joined(all) =~= first + joined(rest));
    } else {
        assert(all.drop_last() =~= seq![first] + rest.drop_last());
        assert(all.last() == rest.last());
        lemma_joined_after_first(first, rest.drop_last());
        assert(joined(all) =~= first + joined(rest));
    }
}

/// However a response is cut into chunks, the chunks taken together are the
/// response: what is opened does not depend on how the bytes arrived.
pub proof fn lemma_chunking_is_immaterial(bytes: Seq<u8>, size: nat)
    ensures
        joined(cut(bytes, size)) == bytes,
    decreases bytes.len(),
{
    if size == 0 || bytes.len() <= size {
        let whole = cut(bytes, size);
        assert(whole.len() == 1);
        assert(whole.last() == bytes);
        assert(whole.drop_last() =~= Seq::<Seq<u8>>::empty());
        assert(joined(whole.drop_last()) =~= Seq::<u8>::empty());
        assert(joined(whole) =~= bytes);
    } else {
        lemma_chunking_is_immaterial(bytes.skip(size as int), size);
        lemma_joined_after_first(bytes.take(size as int), cut(bytes.skip(size as int), size));
        assert(bytes.take(size as int) + bytes.skip(size as int) =~= bytes);
    }
}

/// One exchange, ready to be carried out: the request to send, and the
/// stream that opens what comes back.
pub struct Exchange {
    /// The request to send to the relay.
    pub request: OuterRequest,
    /// The stream to feed the relay's response to.
    pub response: ResponseStream,
}

/// Whether `exchange` carries a message of `message_len` bytes to `url`
/// under the given outer headers, and has read nothing of a response yet.
pub open spec fn is_exchange_for(
    exchange: Exchange,
    url: Seq<char>,
    outer_headers: Option<Vec<String>>,
    message_len: nat,
) -> bool {
    &&& exchange.request.url@ == url
    &&& is_outer_header_list(outer_headers, exchange.request.headers@)
    &&& exchange.request.body@.len() == message_len + SEALING_OVERHEAD
    &&& exchange.response@.context is Some
    &&& exchange.response@.pending == Seq::<u8>::empty()
}

/// Makes the exchange from what sealing gave. A failure to seal is final;
/// after it, a header without a colon fails the exchange.
pub fn finish_exchange(
    url: &String,
    outer_headers: &Option<Vec<String>>,
    sealed: Result<(Vec<u8>, ohttp::ClientResponse), ohttp::Error>,
) -> (r: Result<Exchange, ClientError>)
    ensures
        match sealed {
            Err(_) => r matches Err(e) && e is EncapsulationError,
            Ok(pair) => if headers_well_formed(*outer_headers) {
                &&& r matches Ok(exchange)
                &&& exchange.request.url@ == url@
                &&& is_outer_header_list(*outer_headers, exchange.request.headers@)
                &&& exchange.request.body@ == pair.0@
                &&& exchange.response@.context == Some(pair.1)
                &&& exchange.response@.pending == Seq::<u8>::empty()
            } else {
                r matches Err(e) && e is InvalidHeaderSyntax
            },
        },
{
    match sealed {
        Err(_) => Err(ClientError::EncapsulationError),
        Ok((body, context)) => {
            let headers = outer_request_headers(outer_headers)?;
            Ok(
                Exchange {
                    request: OuterRequest { url: url.clone(), headers, body },
                    response: ResponseStream::new(context),
                },
            )
        },
    }
}

/// What preparing an exchange for a message of `message_len` bytes may end
/// in: the exchange, where the outer headers are well formed, or a failure
/// to seal, or the failure of a header without a colon.
pub open spec fn is_prepared(
    r: Result<Exchange, ClientError>,
    url: Seq<char>,
    outer_headers: Option<Vec<String>>,
    message_len: nat,
) -> bool {
    match r {
        Ok(exchange) => headers_well_formed(outer_headers) && is_exchange_for(
            exchange,
            url,
            outer_headers,
            message_len,
        ),
        Err(e) => e is EncapsulationError || (e is InvalidHeaderSyntax && !headers_well_formed(
            outer_headers,
        )),
    }
}

/// A client for one request: the sender made from the gateway's key
/// configuration, and the framing of the binary request.
pub struct OhttpClient {
    ohttp_request: ohttp::ClientRequest,
    framing: FramingMode,
}

impl OhttpClient {
    /// The framing that this client encodes its request in.
    pub closed spec fn framing(&self) -> FramingMode {
        self.framing
    }

    /// Seals a binary request and prepares its exchange with the relay at
    /// `url`. The client is used up.
    pub fn prepare_exchange(
        self,
        url: &String,
        outer_headers: &Option<Vec<String>>,
        bhttp_request: &[u8],
    ) -> (r: Result<Exchange, ClientError>)
        ensures
            is_prepared(r, url@, *outer_headers, bhttp_request@.len()),
    {
        let sealed = encapsulate(self.ohttp_request, bhttp_request);
        finish_exchange(url, outer_headers, sealed)
    }

    /// Prepares the exchange for a request that the caller wrote out as text.
    pub fn post_raw(
        self,
        url: &String,
        outer_headers: &Option<Vec<String>>,
        http_request: &Vec<u8>,
    ) -> (r: Result<Exchange, ClientError>)
        ensures
            match binary_request(http_request@, self.framing()) {
                None => r matches Err(e) && e is MalformedMessage,
                Some(message) => is_prepared(r, url@, *outer_headers, message.len()),
            },
    {
        let framing = self.framing;
        let request_buf = to_binary_request(http_request.as_slice(), framing)?;
        self.prepare_exchange(url, outer_headers, request_buf.as_slice())
    }

    /// Prepares the exchange for a multipart request built from the caller's
    /// path, headers, text and form fields.
    pub fn post(
        self,
        url: &String,
        target_path: &str,
        headers: &Option<Vec<String>>,
        data: &Option<String>,
        form_fields: &Option<Vec<FormPart>>,
        outer_headers: &Option<Vec<String>>,
    ) -> (r: Result<Exchange, ClientError>)
        ensures
            match first_failure(optional_parts(*form_fields)) {
                Some(failure) => r matches Err(e) && e == failure,
                None => exists|token: Seq<char>|
                    is_boundary_token(token) && match #[trigger] request_buffer(
                        target_path@,
                        *headers,
                        *data,
                        *form_fields,
                        boundary_of(token),
                        self.framing(),
                    ) {
                        None => r matches Err(e) && e is MalformedMessage,
                        Some(message) => is_prepared(r, url@, *outer_headers, message.len()),
                    },
            },
    {
        let framing = self.framing;
        let request_buf = create_request_buffer(target_path, headers, data, form_fields, framing)?;
        self.prepare_exchange(url, outer_headers, request_buf.as_slice())
    }
}

/// How the key configuration is to be had.
#[derive(Debug)]
pub enum KeySource {
    /// From the key management service at `url`, trusted by `certificate`.
    Kms { url: String, certificate: PathBuf },
    /// From the configuration that the caller gave, if any.
    Static,
}

/// Collects what a client is made from.
pub struct OhttpClientBuilder {
    kms_url: Option<String>,
    kms_cert: Option<PathBuf>,
    config: Option<HexArg>,
    framing: FramingMode,
}

/// A builder as contracts see it.
pub struct BuilderView {
    /// The address of the key management service.
    pub kms_url: Option<Seq<char>>,
    /// The file of the certificate that the service is trusted by.
    pub kms_cert: Option<PathBuf>,
    /// The encoded list of key configurations that the caller gave.
    pub config: Option<Seq<u8>>,
    /// The framing of the binary request.
    pub framing: FramingMode,
}

impl View for OhttpClientBuilder {
    type V = BuilderView;

    closed spec fn view(&self) -> BuilderView {
        BuilderView {
            kms_url: match self.kms_url {
                Some(url) => Some(url@),
                None => None,
            },
            kms_cert: self.kms_cert,
            config: match self.config {
                Some(config) => Some(config@),
                None => None,
            },
            framing: self.framing,
        }
    }
}

impl Default for OhttpClientBuilder {
    fn default() -> (r: Self)
        ensures
            r@ == (BuilderView {
                kms_url: None,
                kms_cert: None,
                config: None,
                framing: FramingMode::KnownLength,
            }),
    {
        OhttpClientBuilder::new()
    }
}

impl OhttpClientBuilder {
    /// A builder that holds nothing, for the known-length framing.
    pub fn new() -> (r: OhttpClientBuilder)
        ensures
            r@ == (BuilderView {
                kms_url: None,
                kms_cert: None,
                config: None,
                framing: FramingMode::KnownLength,
            }),
    {
        OhttpClientBuilder {
            kms_url: None,
            kms_cert: None,
            config: None,
            framing: FramingMode::KnownLength,
        }
    }

    /// Sets, or clears, the address of the key management service.
    pub fn kms_url(self, kms_url: &Option<String>) -> (r: OhttpClientBuilder)
        ensures
            r@ == (BuilderView {
                kms_url: match *kms_url {
                    Some(url) => Some(url@),
                    None => None,
                },
                ..self@
            }),
    {
        let mut builder = self;
        builder.kms_url = match kms_url {
            Some(url) => Some(url.clone()),
            None => None,
        };
        builder
    }

    /// Sets, or clears, the file of the trusted certificate.
    pub fn kms_cert(self, kms_cert: &Option<PathBuf>) -> (r: OhttpClientBuilder)
        ensures
            r@ == (BuilderView { kms_cert: *kms_cert, ..self@ }),
    {
        let mut builder = self;
        builder.kms_cert = match kms_cert {
            Some(path) => Some(path.clone()),
            None => None,
        };
        builder
    }

    /// Sets, or clears, the encoded list of key configurations.
    pub fn config(self, config: &Option<HexArg>) -> (r: OhttpClientBuilder)
        ensures
            r@ == (BuilderView {
                config: match *config {
                    Some(list) => Some(list@),
                    None => None,
                },
                ..self@
            }),
    {
        let mut builder = self;
        builder.config = match config {
            Some(list) => Some(list.clone()),
            None => None,
        };
        builder
    }

    /// Chooses the framing of the binary request.
    pub fn framing(self, framing: FramingMode) -> (r: OhttpClientBuilder)
        ensures
            r@ == (BuilderView { framing, ..self@ }),
    {
        let mut builder = self;
        builder.framing = framing;
        builder
    }

    /// Tells how the key configuration is to be had: from the key management
    /// service where both its address and its certificate are held, and
    /// from the caller's configuration otherwise.
    pub fn key_source(&self) -> (r: KeySource)
        ensures
            match r {
                KeySource::Kms { url, certificate } => self@.kms_url == Some(url@)
                    && self@.kms_cert == Some(certificate),
                KeySource::Static => self@.kms_url is None || self@.kms_cert is None,
            },
    {
        match (&self.kms_url, &self.kms_cert) {
            (Some(url), Some(certificate)) => KeySource::Kms {
                url: url.clone(),
                certificate: certificate.clone(),
            },
            _ => KeySource::Static,
        }
    }

    /// Makes the client, on the path that the builder's own inputs choose.
    ///
    /// Where both the address and the certificate of the key management
    /// service are held, the client is made from what the round with the
    /// service gave, `published`: the selected entry and the verdict on its
    /// receipt, or the failure of the round. A round that was not made is a
    /// failed request. The caller's configuration is not looked at on this
    /// path, and is no fallback.
    ///
    /// Otherwise the client is made from the caller's list of key
    /// configurations, and `published` is not looked at.
    pub fn build(
        self,
        published: Option<Result<(KeyConfigEntry, Verification), ClientError>>,
    ) -> (r: Result<OhttpClient, ClientError>)
        ensures
            match (self@.kms_url, self@.kms_cert) {
                (Some(_), Some(_)) => match published {
                    Some(Ok(pair)) => is_built_from_entry(r, pair.0, pair.1, self@.framing),
                    Some(Err(failure)) => r matches Err(e) && e == failure,
                    None => r matches Err(e) && e is KmsRequestError,
                },
                _ => is_built_from_list(r, self@.config, self@.framing),
            },
    {
        match self.key_source() {
            KeySource::Kms { .. } => match published {
                Some(Ok((entry, verification))) => from_entry(&entry, verification, self.framing),
                Some(Err(failure)) => Err(failure),
                None => Err(ClientError::KmsRequestError),
            },
            KeySource::Static => from_list(&self.config, self.framing),
        }
    }
}

/// What making a client from a published entry ends in: the receipt has to
/// have verified, and the key configuration has to be hexadecimal text, to
/// be safe to hand over, and to be accepted.
pub open spec fn is_built_from_entry(
    r: Result<OhttpClient, ClientError>,
    entry: KeyConfigEntry,
    verification: Verification,
    framing: FramingMode,
) -> bool {
    match released_key_config(entry, verification) {
        Err(failure) => r matches Err(e) && e == failure,
        Ok(key) => if config_is_safe(key) && config_accepted(key) {
            r matches Ok(client) && client.framing() == framing
        } else {
            r matches Err(e) && e is EncapsulationError
        },
    }
}

/// What making a client from the caller's list of key configurations ends
/// in: there has to be a list, it has to be safe to hand over, and it has to
/// be accepted.
pub open spec fn is_built_from_list(
    r: Result<OhttpClient, ClientError>,
    config: Option<Seq<u8>>,
    framing: FramingMode,
) -> bool {
    match config {
        None => r matches Err(e) && e is MissingConfiguration,
        Some(list) => if config_list_is_safe(list) && config_list_accepted(list) {
            r matches Ok(client) && client.framing() == framing
        } else {
            r matches Err(e) && e is EncapsulationError
        },
    }
}

fn from_entry(entry: &KeyConfigEntry, verification: Verification, framing: FramingMode) -> (r:
    Result<OhttpClient, ClientError>)
    ensures
        is_built_from_entry(r, *entry, verification, framing),
{
    let key = trusted_key_config(entry, verification)?;
    if !is_safe_config(key.as_slice()) {
        return Err(ClientError::EncapsulationError);
    }
    match from_encoded_config(key.as_slice()) {
        Ok(ohttp_request) => Ok(OhttpClient { ohttp_request, framing }),
        Err(_) => Err(ClientError::EncapsulationError),
    }
}

fn from_list(config: &Option<HexArg>, framing: FramingMode) -> (r: Result<OhttpClient, ClientError>)
    ensures
        is_built_from_list(
            r,
            match *config {
                Some(list) => Some(list@),
                None => None,
            },
            framing,
        ),
{
    match config {
        None => Err(ClientError::MissingConfiguration),
        Some(list) => {
            if !is_safe_config_list(list.as_slice()) {
                return Err(ClientError::EncapsulationError);
            }
            match from_encoded_config_list(list.as_slice()) {
                Ok(ohttp_request) => Ok(OhttpClient { ohttp_request, framing }),
                Err(_) => Err(ClientError::EncapsulationError),
            }
        },
    }
}

} // verus!
