use tunl::common::text::{is_white_space, numeral, split, trim};
use tunl::error::TunlError;

fn chars(text: &str) -> Vec<char> {
    text.chars().collect()
}

#[test]
fn white_space_is_that_of_std() {
    for code in 0..=0x10ffffu32 {
        if let Some(c) = char::from_u32(code) {
            assert_eq!(is_white_space(c), c.is_whitespace(), "{:x}", code);
        }
    }
}

#[test]
fn numerals_have_no_leading_zeros() {
    assert_eq!(numeral(0, 10), "0");
    assert_eq!(numeral(65535, 10), "65535");
    assert_eq!(numeral(100, 10), "100");
    assert_eq!(numeral(0xab0f, 16), "ab0f");
    assert_eq!(numeral(5, 2), "101");
}

#[test]
fn splitting_is_that_of_std() {
    for text in ["", ",", "a", "a,b", ",a,,b,", "\u{1f600},\u{e9}"] {
        let expected: Vec<Vec<char>> = text.split(',').map(chars).collect();
        assert_eq!(split(&chars(text), ','), expected);
    }
}

#[test]
fn trimming_is_that_of_std() {
    for text in ["", " ", "a", " a b\t", "\r\n\u{3000}x\u{a0}", "x  "] {
        assert_eq!(trim(&chars(text)), chars(text.trim()));
    }
}

#[test]
fn messages() {
    assert_eq!(
        TunlError::ProxyListStatus(404).message(),
        "Failed to fetch proxy list: HTTP 404"
    );
    assert_eq!(TunlError::EmptyProxyList.message(), "No valid proxy entries found");
    assert_eq!(TunlError::UnexpectedEof.message(), "unexpected end of file");
    assert_eq!(TunlError::EarlyEof.message(), "early eof");
    assert_eq!(TunlError::InvalidVersion.message(), "invalid version");
    assert_eq!(TunlError::InvalidAddressType.message(), "invalid address type");
    assert_eq!(TunlError::Cipher.message(), "aead::Error");
    assert_eq!(TunlError::NoUpstream.message(), "No available upstream");
    assert_eq!(
        TunlError::InvalidProxyQuery.message(),
        "Invalid proxy format, use IP:PORT or IP-PORT"
    );
    assert_eq!(
        TunlError::InvalidProxyPath.message(),
        "Invalid proxy format. Use /IP:PORT or /IP-PORT"
    );
    assert_eq!(TunlError::InvalidPort.message(), "Invalid port number");
    assert_eq!(TunlError::RandomFailed.message(), "Random gen failed");
}
