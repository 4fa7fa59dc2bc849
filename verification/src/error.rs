//! What can go wrong.

use crate::common::text::{numeral, numeral_of};
use vstd::prelude::*;

verus! {

/// Every failure that the library reports.
#[derive(Clone, Copy, Debug, PartialEq, Eq, Structural)]
pub enum TunlError {
    /// A request header ends before a field of one byte.
    UnexpectedEof,
    /// A request header ends before or within a longer field.
    EarlyEof,
    /// A request header has a version other than 1.
    InvalidVersion,
    /// An address is neither IPv4, nor a domain, nor IPv6.
    InvalidAddressType,
    /// A sealed message does not open under the keys derived for it, or cannot be sealed.
    Cipher,
    /// The announced header length leaves no room for the authentication tag.
    HeaderLengthOverflow,
    /// Neither the requested target nor the fallback proxy could be relayed to.
    NoUpstream,
    /// An event that the session does not wait for.
    OutOfTurn,
    /// The proxy list was answered with this HTTP status.
    ProxyListStatus(u16),
    /// The proxy list has no usable line.
    EmptyProxyList,
    /// The `proxy` query parameter has not the form of a proxy address.
    InvalidProxyQuery,
    /// The request path has not the form of a proxy address.
    InvalidProxyPath,
    /// The port of a proxy address does not fit 16 bits.
    InvalidPort,
    /// The system's random number source failed.
    RandomFailed,
}

impl TunlError {
    /// What [`TunlError::message`] says.
    pub open spec fn text(self) -> Seq<char> {
        match self {
            TunlError::UnexpectedEof => "unexpected end of file"@,
            TunlError::EarlyEof => "early eof"@,
            TunlError::InvalidVersion => "invalid version"@,
            TunlError::InvalidAddressType => "invalid address type"@,
            TunlError::Cipher => "aead::Error"@,
            TunlError::HeaderLengthOverflow => "header length out of range"@,
            TunlError::NoUpstream => "No available upstream"@,
            TunlError::OutOfTurn => "unexpected session event"@,
            TunlError::ProxyListStatus(status) => "Failed to fetch proxy list: HTTP "@ + numeral_of(
                status as nat,
                10,
            ),
            TunlError::EmptyProxyList => "No valid proxy entries found"@,
            TunlError::InvalidProxyQuery => "Invalid proxy format, use IP:PORT or IP-PORT"@,
            TunlError::InvalidProxyPath => "Invalid proxy format. Use /IP:PORT or /IP-PORT"@,
            TunlError::InvalidPort => "Invalid port number"@,
            TunlError::RandomFailed => "Random gen failed"@,
        }
    }

    /// The text shown to whoever caused or watches the failure.
    pub fn message(&self) -> (message: String)
        ensures
            message@ == self.text(),
    {
        match self {
            TunlError::UnexpectedEof => "unexpected end of file".to_owned(),
            TunlError::EarlyEof => "early eof".to_owned(),
            TunlError::InvalidVersion => "invalid version".to_owned(),
            TunlError::InvalidAddressType => "invalid address type".to_owned(),
            TunlError::Cipher => "aead::Error".to_owned(),
            TunlError::HeaderLengthOverflow => "header length out of range".to_owned(),
            TunlError::NoUpstream => "No available upstream".to_owned(),
            TunlError::OutOfTurn => "unexpected session event".to_owned(),
            TunlError::ProxyListStatus(status) => {
                let mut message = "Failed to fetch proxy list: HTTP ".to_owned();
                message.append(numeral(*status, 10).as_str());
                message
            },
            TunlError::EmptyProxyList => "No valid proxy entries found".to_owned(),
            TunlError::InvalidProxyQuery => "Invalid proxy format, use IP:PORT or IP-PORT".to_owned(),
            TunlError::InvalidProxyPath => "Invalid proxy format. Use /IP:PORT or /IP-PORT".to_owned(),
            TunlError::InvalidPort => "Invalid port number".to_owned(),
            TunlError::RandomFailed => "Random gen failed".to_owned(),
        }
    }
}

/// A failed fetch of the proxy list is told with its status in decimal, and every refusal of a proxy
/// with the forms that are taken.
pub proof fn messages_tell_status_and_forms(status: u16)
    ensures
        TunlError::ProxyListStatus(status).text() == "Failed to fetch proxy list: HTTP "@ + numeral_of(
            status as nat,
            10,
        ),
        TunlError::EmptyProxyList.text() == "No valid proxy entries found"@,
        TunlError::InvalidProxyQuery.text() == "Invalid proxy format, use IP:PORT or IP-PORT"@,
        TunlError::InvalidProxyPath.text() == "Invalid proxy format. Use /IP:PORT or /IP-PORT"@,
        TunlError::InvalidPort.text() == "Invalid port number"@,
        TunlError::RandomFailed.text() == "Random gen failed"@,
        TunlError::NoUpstream.text() == "No available upstream"@,
        TunlError::InvalidVersion.text() == "invalid version"@,
        TunlError::InvalidAddressType.text() == "invalid address type"@,
        TunlError::Cipher.text() == "aead::Error"@,
        TunlError::UnexpectedEof.text() == "unexpected end of file"@,
        TunlError::EarlyEof.text() == "early eof"@,
{
}

} // verus!
