//! The request header of VMess and the response header that answers it.

use crate::common::aead::{aead_opened, aead_sealed, is_sealed, open, seal};
use crate::common::hash::{concat, contents, kdf, kdf_of, md5, md5_of, sha256, sha256_of};
use crate::common::{
    address_of, be16, parse_addr, parse_port, read_be16, Reader, KDFSALT_CONST_AEAD_RESP_HEADER_IV,
    KDFSALT_CONST_AEAD_RESP_HEADER_KEY, KDFSALT_CONST_AEAD_RESP_HEADER_LEN_IV,
    KDFSALT_CONST_AEAD_RESP_HEADER_LEN_KEY, KDFSALT_CONST_VMESS_HEADER_PAYLOAD_AEAD_IV,
    KDFSALT_CONST_VMESS_HEADER_PAYLOAD_AEAD_KEY, KDFSALT_CONST_VMESS_HEADER_PAYLOAD_LENGTH_AEAD_IV,
    KDFSALT_CONST_VMESS_HEADER_PAYLOAD_LENGTH_AEAD_KEY,
};
use crate::error::TunlError;
use vstd::prelude::*;
use vstd::slice::slice_subrange;
use vstd::utf8::encode_utf8;

verus! {

/// What is hashed behind the UUID to get the key of a user.
pub const USER_KEY_SALT: &'static str = "c48619fe-8f02-49e0-b9e9-edf763e17e21";

/// The length of the sealed header length.
pub const SEALED_LENGTH_LEN: usize = 18;

/// The key of a user.
pub open spec fn user_key(uuid: Seq<u8>) -> Seq<u8> {
    md5_of(uuid + encode_utf8(USER_KEY_SALT@))
}

/// What is derived for one request of a user under the label `salt`.
pub open spec fn request_secret(
    uuid: Seq<u8>,
    salt: Seq<char>,
    auth_id: Seq<u8>,
    nonce: Seq<u8>,
) -> Seq<u8> {
    kdf_of(user_key(uuid), seq![encode_utf8(salt), auth_id, nonce])
}

/// The header length that a user's request announces, as the bytes under the seal.
pub open spec fn opened_length(
    uuid: Seq<u8>,
    auth_id: Seq<u8>,
    sealed: Seq<u8>,
    nonce: Seq<u8>,
) -> Option<Seq<u8>> {
    aead_opened(
        request_secret(
            uuid,
            KDFSALT_CONST_VMESS_HEADER_PAYLOAD_LENGTH_AEAD_KEY@,
            auth_id,
            nonce,
        ).take(16),
        request_secret(
            uuid,
            KDFSALT_CONST_VMESS_HEADER_PAYLOAD_LENGTH_AEAD_IV@,
            auth_id,
            nonce,
        ).take(12),
        auth_id,
        sealed,
    )
}

/// The header of a user's request.
pub open spec fn opened_header(
    uuid: Seq<u8>,
    auth_id: Seq<u8>,
    nonce: Seq<u8>,
    sealed: Seq<u8>,
) -> Option<Seq<u8>> {
    aead_opened(
        request_secret(
            uuid,
            KDFSALT_CONST_VMESS_HEADER_PAYLOAD_AEAD_KEY@,
            auth_id,
            nonce,
        ).take(16),
        request_secret(
            uuid,
            KDFSALT_CONST_VMESS_HEADER_PAYLOAD_AEAD_IV@,
            auth_id,
            nonce,
        ).take(12),
        auth_id,
        sealed,
    )
}

/// The bytes of a header length, the high one first.
pub open spec fn length_bytes(length: u16) -> Seq<u8> {
    seq![(length / 256) as u8, (length % 256) as u8]
}

/// Whether a client of the user has sealed this header length, with the identifier of the request as
/// associated data.
pub open spec fn is_sealed_length(
    uuid: Seq<u8>,
    auth_id: Seq<u8>,
    nonce: Seq<u8>,
    length: u16,
    sealed: Seq<u8>,
) -> bool {
    is_sealed(
        request_secret(uuid, KDFSALT_CONST_VMESS_HEADER_PAYLOAD_LENGTH_AEAD_KEY@, auth_id, nonce).take(16),
        request_secret(uuid, KDFSALT_CONST_VMESS_HEADER_PAYLOAD_LENGTH_AEAD_IV@, auth_id, nonce).take(12),
        auth_id,
        length_bytes(length),
        sealed,
    )
}

/// Whether a client of the user has sealed this header, with the identifier of the request as
/// associated data.
pub open spec fn is_sealed_header(
    uuid: Seq<u8>,
    auth_id: Seq<u8>,
    nonce: Seq<u8>,
    header: Seq<u8>,
    sealed: Seq<u8>,
) -> bool {
    is_sealed(
        request_secret(uuid, KDFSALT_CONST_VMESS_HEADER_PAYLOAD_AEAD_KEY@, auth_id, nonce).take(16),
        request_secret(uuid, KDFSALT_CONST_VMESS_HEADER_PAYLOAD_AEAD_IV@, auth_id, nonce).take(12),
        auth_id,
        header,
        sealed,
    )
}

/// Derives the secret of one request under the label `salt`.
fn derive_request_secret(key: &[u8], salt: &str, auth_id: &[u8], nonce: &[u8]) -> (secret: Vec<u8>)
    ensures
        secret@ == kdf_of(key@, seq![encode_utf8(salt@), auth_id@, nonce@]),
        secret@.len() == 32,
{
    let path: [&[u8]; 3] = [salt.as_bytes(), auth_id, nonce];
    assert(contents(path@) == seq![encode_utf8(salt@), auth_id@, nonce@]);
    kdf(key, path.as_slice())
}

/// Derives the key of a user.
fn derive_user_key(uuid: &[u8]) -> (key: Vec<u8>)
    ensures
        key@ == user_key(uuid@),
{
    md5(concat(uuid, USER_KEY_SALT.as_bytes()).as_slice())
}

/// Opens the header length of a request. A length that a client of the user has sealed is read back.
pub fn open_length(uuid: &[u8], auth_id: &[u8], sealed: &[u8], nonce: &[u8]) -> (length: Result<
    u16,
    TunlError,
>)
    requires
        sealed@.len() == SEALED_LENGTH_LEN,
    ensures
        match opened_length(uuid@, auth_id@, sealed@, nonce@) {
            Some(bytes) => bytes.len() == 2 && length == Ok::<u16, TunlError>(
                be16(bytes[0], bytes[1]),
            ),
            None => length == Err::<u16, TunlError>(TunlError::Cipher),
        },
        forall|original: u16|
            is_sealed_length(uuid@, auth_id@, nonce@, original, sealed@) ==> length == Ok::<
                u16,
                TunlError,
            >(original),
{
    let user = derive_user_key(uuid);
    let key = derive_request_secret(
        user.as_slice(),
        KDFSALT_CONST_VMESS_HEADER_PAYLOAD_LENGTH_AEAD_KEY,
        auth_id,
        nonce,
    );
    let iv = derive_request_secret(
        user.as_slice(),
        KDFSALT_CONST_VMESS_HEADER_PAYLOAD_LENGTH_AEAD_IV,
        auth_id,
        nonce,
    );
    let bytes = open(
        slice_subrange(key.as_slice(), 0, 16),
        slice_subrange(iv.as_slice(), 0, 12),
        auth_id,
        sealed,
    )?;
    Ok(read_be16(bytes[0], bytes[1]))
}

/// Opens the header of a request. A header that a client of the user has sealed is read back.
pub fn open_header(uuid: &[u8], auth_id: &[u8], nonce: &[u8], sealed: &[u8]) -> (header: Result<
    Vec<u8>,
    TunlError,
>)
    ensures
        match opened_header(uuid@, auth_id@, nonce@, sealed@) {
            Some(bytes) => header matches Ok(header) && header@ == bytes && header@.len() + 16
                == sealed@.len(),
            None => header == Err::<Vec<u8>, TunlError>(TunlError::Cipher),
        },
        forall|original: Seq<u8>|
            is_sealed_header(uuid@, auth_id@, nonce@, original, sealed@) ==> (header matches Ok(
                header,
            ) && header@ == original),
{
    let user = derive_user_key(uuid);
    let key = derive_request_secret(
        user.as_slice(),
        KDFSALT_CONST_VMESS_HEADER_PAYLOAD_AEAD_KEY,
        auth_id,
        nonce,
    );
    let iv = derive_request_secret(
        user.as_slice(),
        KDFSALT_CONST_VMESS_HEADER_PAYLOAD_AEAD_IV,
        auth_id,
        nonce,
    );
    open(
        slice_subrange(key.as_slice(), 0, 16),
        slice_subrange(iv.as_slice(), 0, 12),
        auth_id,
        sealed,
    )
}

/// A request, as its header tells it.
pub struct Request {
    /// The initial vector for the response.
    pub iv: Vec<u8>,
    /// The key for the response.
    pub key: Vec<u8>,
    /// The byte that the response has to repeat.
    pub response_auth: u8,
    /// Whether a TCP connection is asked for, rather than a datagram.
    pub is_tcp: bool,
    /// The port to connect to.
    pub port: u16,
    /// The address to connect to.
    pub addr: String,
}

/// The contents of a [`Request`].
pub ghost struct RequestView {
    pub iv: Seq<u8>,
    pub key: Seq<u8>,
    pub response_auth: u8,
    pub is_tcp: bool,
    pub port: u16,
    pub addr: Seq<char>,
}

impl View for Request {
    type V = RequestView;

    open spec fn view(&self) -> RequestView {
        RequestView {
            iv: self.iv@,
            key: self.key@,
            response_auth: self.response_auth,
            is_tcp: self.is_tcp,
            port: self.port,
            addr: self.addr@,
        }
    }
}

/// The request in a header: the version, 16 bytes of initial vector, 16 of key, 4 of options that
/// start with the byte to repeat, the command, the port and the address. A header that ends where
/// the command, a field of one byte, should stand fails otherwise than one that ends elsewhere. What
/// follows the address is not looked at.
pub open spec fn request_of(header: Seq<u8>) -> Result<RequestView, TunlError> {
    if header.len() == 0 {
        Err(TunlError::UnexpectedEof)
    } else if header[0] != 1 {
        Err(TunlError::InvalidVersion)
    } else if header.len() == 37 {
        Err(TunlError::UnexpectedEof)
    } else if header.len() < 40 {
        Err(TunlError::EarlyEof)
    } else {
        match address_of(header.skip(40)) {
            Ok((addr, _)) => Ok(
                RequestView {
                    iv: header.subrange(1, 17),
                    key: header.subrange(17, 33),
                    response_auth: header[33],
                    is_tcp: header[37] == 1,
                    port: be16(header[38], header[39]),
                    addr,
                },
            ),
            Err(error) => Err(error),
        }
    }
}

/// Reads the header of a request.
pub fn parse_request(header: &[u8]) -> (request: Result<Request, TunlError>)
    ensures
        match request_of(header@) {
            Ok(view) => request matches Ok(request) && request@ == view,
            Err(error) => request == Err::<Request, TunlError>(error),
        },
{
    let mut buf = Reader::new(header);
    let version = buf.read_u8()?;
    if version != 1 {
        return Err(TunlError::InvalidVersion);
    }
    let iv = buf.read_exact(16)?;
    assert(iv@ == header@.subrange(1, 17) && buf@ == header@.skip(17));
    let key = buf.read_exact(16)?;
    assert(key@ == header@.subrange(17, 33) && buf@ == header@.skip(33));
    let options = buf.read_exact(4)?;
    assert(options@ == header@.subrange(33, 37) && buf@ == header@.skip(37));
    let cmd = buf.read_u8()?;
    assert(buf@ == header@.skip(38));
    let is_tcp = cmd == 1;
    let port = parse_port(&mut buf)?;
    assert(buf@ == header@.skip(40));
    let addr = parse_addr(&mut buf)?;
    Ok(Request { iv, key, response_auth: options[0], is_tcp, port, addr })
}

/// The key under which the response to a request is sealed, for the label `salt`.
pub open spec fn response_key(request: RequestView, salt: Seq<char>) -> Seq<u8> {
    kdf_of(sha256_of(request.key).take(16), seq![encode_utf8(salt)]).take(16)
}

/// The nonce under which the response to a request is sealed, for the label `salt`.
pub open spec fn response_nonce(request: RequestView, salt: Seq<char>) -> Seq<u8> {
    kdf_of(sha256_of(request.iv).take(16), seq![encode_utf8(salt)]).take(12)
}

/// The response header: the byte that the request asked to repeat, and three zeros.
pub open spec fn response_header(request: RequestView) -> Seq<u8> {
    seq![request.response_auth, 0, 0, 0]
}

/// The length of the response header, the high byte first.
pub open spec fn response_length() -> Seq<u8> {
    seq![0, 4]
}

/// The sealed length of the response header.
pub open spec fn sealed_response_length(request: RequestView) -> Seq<u8> {
    aead_sealed(
        response_key(request, KDFSALT_CONST_AEAD_RESP_HEADER_LEN_KEY@),
        response_nonce(request, KDFSALT_CONST_AEAD_RESP_HEADER_LEN_IV@),
        Seq::empty(),
        response_length(),
    )
}

/// The sealed response header.
pub open spec fn sealed_response_header(request: RequestView) -> Seq<u8> {
    aead_sealed(
        response_key(request, KDFSALT_CONST_AEAD_RESP_HEADER_KEY@),
        response_nonce(request, KDFSALT_CONST_AEAD_RESP_HEADER_IV@),
        Seq::empty(),
        response_header(request),
    )
}

/// What a client finds that opens the length of the response to its request.
pub open spec fn opened_response_length(request: RequestView, sealed: Seq<u8>) -> Option<Seq<u8>> {
    aead_opened(
        response_key(request, KDFSALT_CONST_AEAD_RESP_HEADER_LEN_KEY@),
        response_nonce(request, KDFSALT_CONST_AEAD_RESP_HEADER_LEN_IV@),
        Seq::empty(),
        sealed,
    )
}

/// What a client finds that opens the response to its request.
pub open spec fn opened_response_header(request: RequestView, sealed: Seq<u8>) -> Option<Seq<u8>> {
    aead_opened(
        response_key(request, KDFSALT_CONST_AEAD_RESP_HEADER_KEY@),
        response_nonce(request, KDFSALT_CONST_AEAD_RESP_HEADER_IV@),
        Seq::empty(),
        sealed,
    )
}

/// Derives 32 bytes from the first 16 bytes of the digest of `secret`, under the label `salt`.
fn derive_response_secret(secret: &[u8], salt: &str) -> (derived: Vec<u8>)
    ensures
        derived@ == kdf_of(sha256_of(secret@).take(16), seq![encode_utf8(salt@)]),
        derived@.len() == 32,
{
    let digest = sha256(secret);
    let path: [&[u8]; 1] = [salt.as_bytes()];
    assert(contents(path@) == seq![encode_utf8(salt@)]);
    assert(digest@.subrange(0, 16) == digest@.take(16));
    kdf(slice_subrange(digest.as_slice(), 0, 16), path.as_slice())
}

/// Seals the length of the response header. Who has the key and initial vector of the request
/// opens it again.
pub fn seal_response_length(request: &Request) -> (sealed: Result<Vec<u8>, TunlError>)
    ensures
        sealed matches Ok(bytes) && bytes@ == sealed_response_length(request@) && bytes@.len() == 18
            && opened_response_length(request@, bytes@) == Some(response_length()),
{
    let key = derive_response_secret(request.key.as_slice(), KDFSALT_CONST_AEAD_RESP_HEADER_LEN_KEY);
    let iv = derive_response_secret(request.iv.as_slice(), KDFSALT_CONST_AEAD_RESP_HEADER_LEN_IV);
    let nothing: [u8; 0] = [];
    assert(nothing@ == Seq::<u8>::empty());
    let length: [u8; 2] = [0, 4];
    assert(length@ == response_length());
    seal(
        slice_subrange(key.as_slice(), 0, 16),
        slice_subrange(iv.as_slice(), 0, 12),
        nothing.as_slice(),
        length.as_slice(),
    )
}

/// Seals the response header. Who has the key and initial vector of the request opens it again,
/// and finds the byte that the request asked to repeat.
pub fn seal_response_header(request: &Request) -> (sealed: Result<Vec<u8>, TunlError>)
    ensures
        sealed matches Ok(bytes) && bytes@ == sealed_response_header(request@) && bytes@.len() == 20
            && opened_response_header(request@, bytes@) == Some(response_header(request@)),
{
    let key = derive_response_secret(request.key.as_slice(), KDFSALT_CONST_AEAD_RESP_HEADER_KEY);
    let iv = derive_response_secret(request.iv.as_slice(), KDFSALT_CONST_AEAD_RESP_HEADER_IV);
    let nothing: [u8; 0] = [];
    assert(nothing@ == Seq::<u8>::empty());
    let header: [u8; 4] = [request.response_auth, 0, 0, 0];
    assert(header@ == response_header(request@));
    seal(
        slice_subrange(key.as_slice(), 0, 16),
        slice_subrange(iv.as_slice(), 0, 12),
        nothing.as_slice(),
        header.as_slice(),
    )
}

/// The header of a request for `addr`, an address in the form that [`address_of`] reads.
pub open spec fn header_of(
    iv: Seq<u8>,
    key: Seq<u8>,
    options: Seq<u8>,
    command: u8,
    port: u16,
    addr: Seq<u8>,
) -> Seq<u8> {
    seq![1u8] + iv + key + options + seq![command, (port / 256) as u8, (port % 256) as u8] + addr
}

/// What a client writes into a header is what is read from it, whatever follows the address.
pub proof fn header_reads_back(
    iv: Seq<u8>,
    key: Seq<u8>,
    options: Seq<u8>,
    command: u8,
    port: u16,
    addr: Seq<u8>,
)
    requires
        iv.len() == 16,
        key.len() == 16,
        options.len() == 4,
    ensures
        request_of(header_of(iv, key, options, command, port, addr)) == match address_of(addr) {
            Ok((text, _)) => Ok::<RequestView, TunlError>(
                RequestView {
                    iv,
                    key,
                    response_auth: options[0],
                    is_tcp: command == 1,
                    port,
                    addr: text,
                },
            ),
            Err(error) => Err::<RequestView, TunlError>(error),
        },
{
    let header = header_of(iv, key, options, command, port, addr);
    assert(header.subrange(1, 17) == iv);
    assert(header.subrange(17, 33) == key);
    assert(header[33] == options[0]);
    assert(header[37] == command);
    assert(header.skip(40) == addr);
}

/// What keys a request is the derivation from the digest of the user's UUID and the salt, along the
/// label, the identifier of the request and its nonce, each as it stands.
pub proof fn request_secret_is_derived(
    uuid: Seq<u8>,
    label: Seq<char>,
    auth_id: Seq<u8>,
    nonce: Seq<u8>,
)
    ensures
        user_key(uuid) == md5_of(uuid + encode_utf8("c48619fe-8f02-49e0-b9e9-edf763e17e21"@)),
        request_secret(uuid, label, auth_id, nonce) == kdf_of(
            md5_of(uuid + encode_utf8("c48619fe-8f02-49e0-b9e9-edf763e17e21"@)),
            seq![encode_utf8(label), auth_id, nonce],
        ),
{
}

/// The header length and the header of a request are opened under keys of 16 bytes and nonces of 12,
/// each derived under its own label, with the identifier of the request as associated data.
pub proof fn request_is_opened_under_derived_keys(
    uuid: Seq<u8>,
    auth_id: Seq<u8>,
    nonce: Seq<u8>,
    sealed: Seq<u8>,
)
    ensures
        opened_length(uuid, auth_id, sealed, nonce) == aead_opened(
            kdf_of(
                md5_of(uuid + encode_utf8("c48619fe-8f02-49e0-b9e9-edf763e17e21"@)),
                seq![encode_utf8("VMess Header AEAD Key_Length"@), auth_id, nonce],
            ).take(16),
            kdf_of(
                md5_of(uuid + encode_utf8("c48619fe-8f02-49e0-b9e9-edf763e17e21"@)),
                seq![encode_utf8("VMess Header AEAD Nonce_Length"@), auth_id, nonce],
            ).take(12),
            auth_id,
            sealed,
        ),
        opened_header(uuid, auth_id, nonce, sealed) == aead_opened(
            kdf_of(
                md5_of(uuid + encode_utf8("c48619fe-8f02-49e0-b9e9-edf763e17e21"@)),
                seq![encode_utf8("VMess Header AEAD Key"@), auth_id, nonce],
            ).take(16),
            kdf_of(
                md5_of(uuid + encode_utf8("c48619fe-8f02-49e0-b9e9-edf763e17e21"@)),
                seq![encode_utf8("VMess Header AEAD Nonce"@), auth_id, nonce],
            ).take(12),
            auth_id,
            sealed,
        ),
{
}

/// What counts as sealed by a client of the user is the two bytes of the header length, the high one
/// first, or the header, sealed under those same keys, nonces and associated data.
pub proof fn request_is_sealed_under_derived_keys(
    uuid: Seq<u8>,
    auth_id: Seq<u8>,
    nonce: Seq<u8>,
    length: u16,
    header: Seq<u8>,
    sealed: Seq<u8>,
)
    requires
        auth_id.len() <= 0x10_0000_0000,
        header.len() <= 0x10_0000_0000,
    ensures
        is_sealed_length(uuid, auth_id, nonce, length, sealed) <==> sealed == aead_sealed(
            kdf_of(
                md5_of(uuid + encode_utf8("c48619fe-8f02-49e0-b9e9-edf763e17e21"@)),
                seq![encode_utf8("VMess Header AEAD Key_Length"@), auth_id, nonce],
            ).take(16),
            kdf_of(
                md5_of(uuid + encode_utf8("c48619fe-8f02-49e0-b9e9-edf763e17e21"@)),
                seq![encode_utf8("VMess Header AEAD Nonce_Length"@), auth_id, nonce],
            ).take(12),
            auth_id,
            seq![(length / 256) as u8, (length % 256) as u8],
        ),
        is_sealed_header(uuid, auth_id, nonce, header, sealed) <==> sealed == aead_sealed(
            kdf_of(
                md5_of(uuid + encode_utf8("c48619fe-8f02-49e0-b9e9-edf763e17e21"@)),
                seq![encode_utf8("VMess Header AEAD Key"@), auth_id, nonce],
            ).take(16),
            kdf_of(
                md5_of(uuid + encode_utf8("c48619fe-8f02-49e0-b9e9-edf763e17e21"@)),
                seq![encode_utf8("VMess Header AEAD Nonce"@), auth_id, nonce],
            ).take(12),
            auth_id,
            header,
        ),
{
}

/// The answer to a request is sealed without associated data, under keys of 16 bytes derived from the
/// first half of the digest of the request's key and nonces of 12 derived from that of its initial
/// vector: first the two bytes of the length 4, then the byte to repeat and three zeros. The client
/// opens them under the same keys and nonces.
pub proof fn response_is_sealed_under_derived_keys(request: RequestView, sealed: Seq<u8>)
    ensures
        sealed_response_length(request) == aead_sealed(
            kdf_of(sha256_of(request.key).take(16), seq![encode_utf8("AEAD Resp Header Len Key"@)]).take(16),
            kdf_of(sha256_of(request.iv).take(16), seq![encode_utf8("AEAD Resp Header Len IV"@)]).take(12),
            Seq::empty(),
            seq![0u8, 4u8],
        ),
        opened_response_length(request, sealed) == aead_opened(
            kdf_of(sha256_of(request.key).take(16), seq![encode_utf8("AEAD Resp Header Len Key"@)]).take(16),
            kdf_of(sha256_of(request.iv).take(16), seq![encode_utf8("AEAD Resp Header Len IV"@)]).take(12),
            Seq::empty(),
            sealed,
        ),
        sealed_response_header(request) == aead_sealed(
            kdf_of(sha256_of(request.key).take(16), seq![encode_utf8("AEAD Resp Header Key"@)]).take(16),
            kdf_of(sha256_of(request.iv).take(16), seq![encode_utf8("AEAD Resp Header IV"@)]).take(12),
            Seq::empty(),
            seq![request.response_auth, 0u8, 0u8, 0u8],
        ),
        opened_response_header(request, sealed) == aead_opened(
            kdf_of(sha256_of(request.key).take(16), seq![encode_utf8("AEAD Resp Header Key"@)]).take(16),
            kdf_of(sha256_of(request.iv).take(16), seq![encode_utf8("AEAD Resp Header IV"@)]).take(12),
            Seq::empty(),
            sealed,
        ),
        response_length() == seq![0u8, 4u8],
        response_header(request) == seq![request.response_auth, 0u8, 0u8, 0u8],
{
}

/// A header is read field by field: behind the version come 16 bytes of initial vector, 16 of key, the
/// byte to repeat with three more, the command, of which 1 is TCP, the port with its high byte first,
/// and the address.
pub proof fn request_is_read_by_field(header: Seq<u8>)
    requires
        header.len() >= 40,
        header[0] == 1,
        address_of(header.skip(40)) is Ok,
    ensures
        request_of(header) matches Ok(request) && {
            &&& request.iv.len() == 16
            &&& request.key.len() == 16
            &&& forall|i: int| 0 <= i < 16 ==> #[trigger] request.iv[i] == header[i + 1]
            &&& forall|i: int| 0 <= i < 16 ==> #[trigger] request.key[i] == header[i + 17]
            &&& request.response_auth == header[33]
            &&& request.is_tcp <==> header[37] == 1
            &&& request.port as int == 256 * header[38] + header[39]
            &&& request.addr == address_of(header.skip(40))->Ok_0.0
        },
{
}

/// A header is refused for its version before anything else, for being cut short where it ends before
/// the address, otherwise where the command byte is wanting than elsewhere, and then for its address.
pub proof fn request_is_refused_in_order(header: Seq<u8>)
    ensures
        header.len() == 0 ==> request_of(header) == Err::<RequestView, TunlError>(
            TunlError::UnexpectedEof,
        ),
        header.len() > 0 && header[0] != 1 ==> request_of(header) == Err::<RequestView, TunlError>(
            TunlError::InvalidVersion,
        ),
        0 < header.len() < 40 && header[0] == 1 ==> request_of(header) == Err::<
            RequestView,
            TunlError,
        >(
            if header.len() == 37 {
                TunlError::UnexpectedEof
            } else {
                TunlError::EarlyEof
            },
        ),
        header.len() >= 40 && header[0] == 1 ==> (address_of(header.skip(40)) matches Err(error)
            ==> request_of(header) == Err::<RequestView, TunlError>(error)),
{
}

/// A request holds what each of its fields holds.
pub proof fn request_view_is_its_fields(request: Request)
    ensures
        request@.iv == request.iv@,
        request@.key == request.key@,
        request@.response_auth == request.response_auth,
        request@.is_tcp == request.is_tcp,
        request@.port == request.port,
        request@.addr == request.addr@,
{
}

} // verus!
