//! What the handlers and the tunnel share: constants of the protocol and its address format.

pub mod aead;
pub mod hash;
pub mod ip;
pub mod text;

use crate::common::ip::{
    ipv4_in, ipv4_text, ipv4_text_reads_back, ipv6_in, ipv6_text, ipv6_text_reads_back, write_ipv4,
    write_ipv6,
};
use crate::error::TunlError;
use vstd::prelude::*;
use vstd::utf8::encode_utf8;

verus! {

pub const KDFSALT_CONST_VMESS_HEADER_PAYLOAD_LENGTH_AEAD_KEY: &'static str =
    "VMess Header AEAD Key_Length";

pub const KDFSALT_CONST_VMESS_HEADER_PAYLOAD_LENGTH_AEAD_IV: &'static str =
    "VMess Header AEAD Nonce_Length";

pub const KDFSALT_CONST_VMESS_HEADER_PAYLOAD_AEAD_KEY: &'static str = "VMess Header AEAD Key";

pub const KDFSALT_CONST_VMESS_HEADER_PAYLOAD_AEAD_IV: &'static str = "VMess Header AEAD Nonce";

pub const KDFSALT_CONST_AEAD_RESP_HEADER_LEN_KEY: &'static str = "AEAD Resp Header Len Key";

pub const KDFSALT_CONST_AEAD_RESP_HEADER_LEN_IV: &'static str = "AEAD Resp Header Len IV";

pub const KDFSALT_CONST_AEAD_RESP_HEADER_KEY: &'static str = "AEAD Resp Header Key";

pub const KDFSALT_CONST_AEAD_RESP_HEADER_IV: &'static str = "AEAD Resp Header IV";

/// The number that two bytes spell, the high one first.
pub open spec fn be16(high: u8, low: u8) -> u16 {
    (high * 256 + low) as u16
}

/// Reads a number out of two bytes, the high one first.
pub fn read_be16(high: u8, low: u8) -> (number: u16)
    ensures
        number == be16(high, low),
{
    (high as u16) * 256 + (low as u16)
}

/// Bytes that are read from front to back. Its view is what is still unread.
pub struct Reader<'a> {
    bytes: &'a [u8],
    position: usize,
}

impl<'a> View for Reader<'a> {
    type V = Seq<u8>;

    closed spec fn view(&self) -> Seq<u8> {
        self.bytes@.skip(self.position as int)
    }
}

impl<'a> Reader<'a> {
    #[verifier::type_invariant]
    spec fn in_bounds(self) -> bool {
        self.position <= self.bytes@.len()
    }

    /// A reader at the front of `bytes`.
    pub fn new(bytes: &'a [u8]) -> (reader: Reader<'a>)
        ensures
            reader@ == bytes@,
    {
        Reader { bytes, position: 0 }
    }

    /// Reads one byte; there must be one.
    pub fn read_u8(&mut self) -> (byte: Result<u8, TunlError>)
        ensures
            match byte {
                Ok(byte) => {
                    &&& old(self)@.len() > 0
                    &&& byte == old(self)@[0]
                    &&& final(self)@ == old(self)@.skip(1)
                },
                Err(error) => {
                    &&& old(self)@.len() == 0
                    &&& error == TunlError::UnexpectedEof
                    &&& final(self)@ == old(self)@
                },
            },
    {
        proof {
            use_type_invariant(&*self);
        }
        if self.position < self.bytes.len() {
            let byte = self.bytes[self.position];
            self.position = self.position + 1;
            Ok(byte)
        } else {
            Err(TunlError::UnexpectedEof)
        }
    }

    /// Reads `count` bytes. Where there are fewer, reading them all off fails.
    pub fn read_exact(&mut self, count: usize) -> (bytes: Result<Vec<u8>, TunlError>)
        ensures
            match bytes {
                Ok(bytes) => {
                    &&& count <= old(self)@.len()
                    &&& bytes@ == old(self)@.take(count as int)
                    &&& final(self)@ == old(self)@.skip(count as int)
                },
                Err(error) => {
                    &&& count > old(self)@.len()
                    &&& error == TunlError::EarlyEof
                    &&& final(self)@.len() == 0
                },
            },
    {
        proof {
            use_type_invariant(&*self);
        }
        if count <= self.bytes.len() - self.position {
            let start = self.position;
            let bytes = vstd::slice::slice_to_vec(
                vstd::slice::slice_subrange(self.bytes, start, start + count),
            );
            self.position = start + count;
            Ok(bytes)
        } else {
            self.position = self.bytes.len();
            Err(TunlError::EarlyEof)
        }
    }
}

/// The text that `String::from_utf8_lossy` makes of a byte string.
pub uninterp spec fn utf8_lossy(bytes: Seq<u8>) -> Seq<char>;

/// `String::from_utf8_lossy`: the text is a function of the bytes, and where these are valid UTF-8
/// it is the text that they encode.
#[verifier::external_body]
fn from_utf8_lossy(bytes: &[u8]) -> (text: String)
    ensures
        text@ == utf8_lossy(bytes@),
        vstd::utf8::valid_utf8(bytes@) ==> text@ == vstd::utf8::decode_utf8(bytes@),
{
    String::from_utf8_lossy(bytes).to_string()
}

/// The text of a domain: what its bytes encode, with replacements where they are not valid UTF-8.
pub open spec fn domain_text(bytes: Seq<u8>) -> Seq<char> {
    if vstd::utf8::valid_utf8(bytes) {
        vstd::utf8::decode_utf8(bytes)
    } else {
        utf8_lossy(bytes)
    }
}

/// The eight groups of an IPv6 address in its sixteen bytes.
pub open spec fn ipv6_groups(octets: Seq<u8>) -> Seq<u16> {
    Seq::new(8, |i: int| be16(octets[2 * i], octets[2 * i + 1]))
}

/// The address at the front of `bytes` as a text, and what follows it. The first byte gives the
/// kind of address: 1 for IPv4, 2 for a domain behind its length, 3 for IPv6.
pub open spec fn address_of(bytes: Seq<u8>) -> Result<(Seq<char>, Seq<u8>), TunlError> {
    if bytes.len() == 0 {
        Err(TunlError::UnexpectedEof)
    } else if bytes[0] == 1 {
        if bytes.len() < 5 {
            Err(TunlError::EarlyEof)
        } else {
            Ok((ipv4_text(bytes.subrange(1, 5)), bytes.skip(5)))
        }
    } else if bytes[0] == 2 {
        if bytes.len() < 2 {
            Err(TunlError::UnexpectedEof)
        } else if bytes.len() < 2 + bytes[1] {
            Err(TunlError::EarlyEof)
        } else {
            Ok((domain_text(bytes.subrange(2, 2 + bytes[1])), bytes.skip(2 + bytes[1])))
        }
    } else if bytes[0] == 3 {
        if bytes.len() < 17 {
            Err(TunlError::EarlyEof)
        } else {
            Ok((ipv6_text(ipv6_groups(bytes.subrange(1, 17))), bytes.skip(17)))
        }
    } else {
        Err(TunlError::InvalidAddressType)
    }
}

/// The sixteen bytes of an IPv6 address in its eight groups.
pub open spec fn ipv6_octets(groups: Seq<u16>) -> Seq<u8> {
    Seq::new(
        2 * groups.len(),
        |i: int|
            if i % 2 == 0 {
                (groups[i / 2] / 256) as u8
            } else {
                (groups[i / 2] % 256) as u8
            },
    )
}

/// The address that a client encodes as IPv4 is the one in the text that is read, whatever follows.
pub proof fn ipv4_address_reads_back(octets: Seq<u8>, rest: Seq<u8>)
    requires
        octets.len() == 4,
    ensures
        address_of(seq![1u8] + octets + rest) matches Ok((text, left)) && ipv4_in(text) == octets
            && left == rest,
{
    let bytes = seq![1u8] + octets + rest;
    assert(bytes.subrange(1, 5) == octets);
    assert(bytes.skip(5) == rest);
    ipv4_text_reads_back(octets);
}

/// The address that a client encodes as IPv6 is the one in the text that is read, whatever follows.
pub proof fn ipv6_address_reads_back(octets: Seq<u8>, rest: Seq<u8>)
    requires
        octets.len() == 16,
    ensures
        address_of(seq![3u8] + octets + rest) matches Ok((text, left)) && ipv6_octets(ipv6_in(text))
            == octets && left == rest,
{
    let bytes = seq![3u8] + octets + rest;
    let groups = ipv6_groups(octets);
    assert(bytes.subrange(1, 17) == octets);
    assert(bytes.skip(17) == rest);
    ipv6_text_reads_back(groups);
    assert forall|i: int| 0 <= i < 16 implies #[trigger] ipv6_octets(groups)[i] == octets[i] by {
        let high = octets[i / 2 * 2];
        let low = octets[i / 2 * 2 + 1];
        assert(groups[i / 2] == high * 256 + low);
    }
    assert(ipv6_octets(groups) =~= octets);
}

/// The domain that a client encodes is the text that is read, whatever follows.
pub proof fn domain_reads_back(domain: Seq<char>, rest: Seq<u8>)
    requires
        encode_utf8(domain).len() <= 255,
    ensures
        address_of(
            seq![2u8, encode_utf8(domain).len() as u8] + encode_utf8(domain) + rest,
        ) == Ok::<(Seq<char>, Seq<u8>), TunlError>((domain, rest)),
{
    let encoded = encode_utf8(domain);
    let bytes = seq![2u8, encoded.len() as u8] + encoded + rest;
    assert(bytes.subrange(2, 2 + bytes[1]) == encoded);
    assert(bytes.skip(2 + bytes[1]) == rest);
    vstd::utf8::encode_utf8_valid_utf8(domain);
    vstd::utf8::encode_utf8_decode_utf8(domain);
}

/// Reads an address.
pub fn parse_addr(buf: &mut Reader<'_>) -> (addr: Result<String, TunlError>)
    ensures
        match address_of(old(buf)@) {
            Ok((text, rest)) => addr matches Ok(addr) && addr@ == text && final(buf)@ == rest,
            Err(error) => {
                &&& addr == Err::<String, TunlError>(error)
                &&& final(buf)@ == if error == TunlError::InvalidAddressType {
                    old(buf)@.skip(1)
                } else {
                    Seq::empty()
                }
            },
        },
{
    let ghost bytes = buf@;
    let addr_type = buf.read_u8()?;
    match addr_type {
        1 => {
            let octets = buf.read_exact(4)?;
            assert(octets@ == bytes.subrange(1, 5));
            assert(buf@ == bytes.skip(5));
            Ok(write_ipv4(octets.as_slice()))
        },
        2 => {
            let len = buf.read_u8()?;
            let domain = buf.read_exact(len as usize)?;
            assert(domain@ == bytes.subrange(2, 2 + len));
            assert(buf@ == bytes.skip(2 + len));
            Ok(from_utf8_lossy(domain.as_slice()))
        },
        3 => {
            let octets = buf.read_exact(16)?;
            assert(octets@ == bytes.subrange(1, 17));
            assert(buf@ == bytes.skip(17));
            let mut groups: Vec<u16> = Vec::new();
            for i in 0..8usize
                invariant
                    octets@.len() == 16,
                    groups@ == ipv6_groups(octets@).take(i as int),
            {
                groups.push(read_be16(octets[2 * i], octets[2 * i + 1]));
            }
            assert(groups@ == ipv6_groups(octets@));
            Ok(write_ipv6(groups.as_slice()))
        },
        _ => Err(TunlError::InvalidAddressType),
    }
}

/// Reads a port, the high byte first.
pub fn parse_port(buf: &mut Reader<'_>) -> (port: Result<u16, TunlError>)
    ensures
        match port {
            Ok(port) => {
                &&& old(buf)@.len() >= 2
                &&& port == be16(old(buf)@[0], old(buf)@[1])
                &&& final(buf)@ == old(buf)@.skip(2)
            },
            Err(error) => {
                &&& old(buf)@.len() < 2
                &&& error == TunlError::EarlyEof
                &&& final(buf)@.len() == 0
            },
        },
{
    let port = buf.read_exact(2)?;
    Ok(read_be16(port[0], port[1]))
}

/// Two bytes make the number whose high byte is the first.
pub proof fn be16_is_high_byte_first(high: u8, low: u8, number: u16)
    ensures
        be16(high, low) as int == 256 * (high as int) + low as int,
        be16((number / 256) as u8, (number % 256) as u8) == number,
{
}

/// An address of the first kind is four bytes of IPv4; one of the third is sixteen bytes of IPv6, each
/// two a group; one of the second is a domain behind the number of its bytes, and where these are no
/// valid UTF-8, its text has replacements. What follows the address is left unread.
pub proof fn address_by_its_kind(
    a: u8,
    b: u8,
    c: u8,
    d: u8,
    octets: Seq<u8>,
    domain: Seq<u8>,
    rest: Seq<u8>,
)
    requires
        octets.len() == 16,
        domain.len() <= 255,
    ensures
        address_of(seq![1u8, a, b, c, d] + rest) == Ok::<(Seq<char>, Seq<u8>), TunlError>(
            (ipv4_text(seq![a, b, c, d]), rest),
        ),
        address_of(seq![3u8] + octets + rest) == Ok::<(Seq<char>, Seq<u8>), TunlError>(
            (
                ipv6_text(
                    Seq::new(8, |i: int| (256 * octets[2 * i] + octets[2 * i + 1]) as u16),
                ),
                rest,
            ),
        ),
        vstd::utf8::valid_utf8(domain) ==> address_of(
            seq![2u8, domain.len() as u8] + domain + rest,
        ) == Ok::<(Seq<char>, Seq<u8>), TunlError>((vstd::utf8::decode_utf8(domain), rest)),
        !vstd::utf8::valid_utf8(domain) ==> address_of(
            seq![2u8, domain.len() as u8] + domain + rest,
        ) == Ok::<(Seq<char>, Seq<u8>), TunlError>((utf8_lossy(domain), rest)),
{
    let v4 = seq![1u8, a, b, c, d] + rest;
    assert(v4.subrange(1, 5) == seq![a, b, c, d]);
    assert(v4.skip(5) == rest);
    let v6 = seq![3u8] + octets + rest;
    assert(v6.subrange(1, 17) == octets);
    assert(v6.skip(17) == rest);
    assert(ipv6_groups(octets) == Seq::new(
        8,
        |i: int| (256 * octets[2 * i] + octets[2 * i + 1]) as u16,
    ));
    let named = seq![2u8, domain.len() as u8] + domain + rest;
    assert(named.subrange(2, 2 + named[1]) == domain);
    assert(named.skip(2 + named[1]) == rest);
}

/// An address of no known kind is refused as such, and one that is cut short as cut short: otherwise
/// where a single byte is wanting than where a field of several is.
pub proof fn address_is_refused_by_kind_and_length(bytes: Seq<u8>)
    ensures
        bytes.len() == 0 ==> address_of(bytes) == Err::<(Seq<char>, Seq<u8>), TunlError>(
            TunlError::UnexpectedEof,
        ),
        bytes.len() > 0 && (bytes[0] == 0 || bytes[0] > 3) ==> address_of(bytes) == Err::<
            (Seq<char>, Seq<u8>),
            TunlError,
        >(TunlError::InvalidAddressType),
        0 < bytes.len() < 5 && bytes[0] == 1 ==> address_of(bytes) == Err::<
            (Seq<char>, Seq<u8>),
            TunlError,
        >(TunlError::EarlyEof),
        bytes.len() == 1 && bytes[0] == 2 ==> address_of(bytes) == Err::<
            (Seq<char>, Seq<u8>),
            TunlError,
        >(TunlError::UnexpectedEof),
        bytes.len() >= 2 && bytes[0] == 2 && bytes.len() - 2 < bytes[1] ==> address_of(bytes) == Err::<
            (Seq<char>, Seq<u8>),
            TunlError,
        >(TunlError::EarlyEof),
        0 < bytes.len() < 17 && bytes[0] == 3 ==> address_of(bytes) == Err::<
            (Seq<char>, Seq<u8>),
            TunlError,
        >(TunlError::EarlyEof),
{
}

} // verus!
