use tunl::common::ip::{write_ipv4, write_ipv6};
use tunl::common::{parse_addr, parse_port, Reader};
use tunl::error::TunlError;

fn v6(groups: [u16; 8]) -> String {
    write_ipv6(&groups)
}

#[test]
fn ipv4_address() {
    let mut buf = Reader::new(&[1, 127, 0, 0, 1, 9]);
    assert_eq!(parse_addr(&mut buf), Ok("127.0.0.1".to_string()));
    assert_eq!(buf.read_u8(), Ok(9));
}

#[test]
fn ipv4_texts() {
    assert_eq!(write_ipv4(&[0, 0, 0, 0]), "0.0.0.0");
    assert_eq!(write_ipv4(&[255, 255, 255, 255]), "255.255.255.255");
    assert_eq!(write_ipv4(&[10, 0, 99, 100]), "10.0.99.100");
    assert_eq!(write_ipv4(&[1, 20, 3, 240]), "1.20.3.240");
}

#[test]
fn domain_address() {
    let mut bytes = vec![2, 11];
    bytes.extend_from_slice(b"example.com");
    bytes.extend_from_slice(b"rest");
    let mut buf = Reader::new(&bytes);
    assert_eq!(parse_addr(&mut buf), Ok("example.com".to_string()));
    assert_eq!(buf.read_exact(4), Ok(b"rest".to_vec()));
}

#[test]
fn domain_that_is_not_utf8() {
    let mut buf = Reader::new(&[2, 3, b'a', 0xff, b'b']);
    assert_eq!(parse_addr(&mut buf), Ok("a\u{fffd}b".to_string()));
}

#[test]
fn empty_domain() {
    let mut buf = Reader::new(&[2, 0]);
    assert_eq!(parse_addr(&mut buf), Ok(String::new()));
}

#[test]
fn ipv6_address() {
    let mut buf = Reader::new(&[3, 0x20, 0x01, 0x0d, 0xb8, 0, 0, 0, 0, 0, 0, 0, 0, 0, 0, 0, 1]);
    assert_eq!(parse_addr(&mut buf), Ok("2001:db8::1".to_string()));
    assert_eq!(buf.read_u8(), Err(TunlError::UnexpectedEof));
}

#[test]
fn ipv6_text_forms() {
    assert_eq!(v6([0; 8]), "::");
    assert_eq!(v6([0, 0, 0, 0, 0, 0, 0, 1]), "::1");
    assert_eq!(v6([1, 0, 0, 0, 0, 0, 0, 0]), "1::");
    assert_eq!(v6([0, 0, 0, 0, 0, 0xffff, 0xc0a8, 0x01fe]), "::ffff:192.168.1.254");
    assert_eq!(v6([0, 0, 0, 0, 0, 0, 0xc0a8, 0x01fe]), "::c0a8:1fe");
    assert_eq!(v6([1, 2, 3, 4, 5, 6, 7, 0xabcd]), "1:2:3:4:5:6:7:abcd");
}

#[test]
fn first_longest_row_of_zeros_is_left_out() {
    assert_eq!(v6([1, 0, 0, 4, 0, 0, 7, 8]), "1::4:0:0:7:8");
    assert_eq!(v6([1, 0, 0, 4, 0, 0, 0, 8]), "1:0:0:4::8");
    assert_eq!(v6([1, 0, 3, 4, 5, 0, 7, 8]), "1:0:3:4:5:0:7:8");
    assert_eq!(v6([0, 0, 3, 4, 5, 6, 0, 0]), "::3:4:5:6:0:0");
}

#[test]
fn mapped_addresses_have_five_zero_groups() {
    assert_eq!(v6([0, 0, 0, 0, 0, 0xffff, 0, 0]), "::ffff:0.0.0.0");
    assert_eq!(v6([0, 0, 0, 0, 1, 0xffff, 1, 2]), "::1:ffff:1:2");
    assert_eq!(v6([0, 0, 0, 0, 0, 0xfffe, 1, 2]), "::fffe:1:2");
    assert_eq!(v6([0, 0, 0, 0, 0xffff, 0, 1, 2]), "::ffff:0:1:2");
}

#[test]
fn short_addresses_end_the_reading() {
    for (bytes, error) in [
        (&[][..], TunlError::UnexpectedEof),
        (&[1, 127, 0, 0], TunlError::EarlyEof),
        (&[2], TunlError::UnexpectedEof),
        (&[2, 3, b'a', b'b'], TunlError::EarlyEof),
        (&[3, 0, 0, 0, 0, 0, 0, 0, 0, 0, 0, 0, 0, 0, 0, 0], TunlError::EarlyEof),
    ] {
        let mut buf = Reader::new(bytes);
        assert_eq!(parse_addr(&mut buf), Err(error));
        assert_eq!(buf.read_u8(), Err(TunlError::UnexpectedEof));
    }
}

#[test]
fn unknown_kind_of_address() {
    for kind in [0, 4, 255] {
        let bytes = [kind, 1, 2];
        let mut buf = Reader::new(&bytes);
        assert_eq!(parse_addr(&mut buf), Err(TunlError::InvalidAddressType));
        assert_eq!(buf.read_exact(2), Ok(vec![1, 2]));
    }
}

#[test]
fn ports() {
    let bytes = [0x01, 0xbb, 0xff, 0xff, 0];
    let mut buf = Reader::new(&bytes);
    assert_eq!(parse_port(&mut buf), Ok(443));
    assert_eq!(parse_port(&mut buf), Ok(65535));
    assert_eq!(parse_port(&mut buf), Err(TunlError::EarlyEof));
}

#[test]
fn texts_tell_addresses_apart() {
    let addresses = [
        [0, 0, 0, 0, 0, 0, 0, 0],
        [0, 0, 0, 0, 0, 0, 0, 1],
        [1, 0, 0, 0, 0, 0, 0, 0],
        [1, 0, 0, 0, 0, 0, 0, 1],
        [1, 1, 0, 0, 0, 0, 0, 1],
        [0x11, 0, 0, 0, 0, 0, 0, 1],
        [1, 0, 0, 1, 0, 0, 0, 1],
        [1, 0, 0, 0, 1, 0, 0, 1],
        [0, 0, 0, 0, 0, 0xffff, 1, 1],
        [0, 0, 0, 0, 0, 0xffff, 0x101, 1],
        [1, 2, 3, 4, 5, 6, 7, 8],
        [0x12, 3, 4, 5, 6, 7, 8, 0],
    ];
    for (i, one) in addresses.iter().enumerate() {
        for other in &addresses[..i] {
            assert_ne!(v6(*one), v6(*other));
        }
    }
}

#[test]
fn domains_read_back() {
    for domain in ["", "example.com", "b\u{fc}cher.example"] {
        let mut bytes = vec![2, domain.len() as u8];
        bytes.extend_from_slice(domain.as_bytes());
        bytes.push(9);
        let mut buf = Reader::new(&bytes);
        assert_eq!(parse_addr(&mut buf), Ok(domain.to_string()));
        assert_eq!(buf.read_u8(), Ok(9));
    }
}
