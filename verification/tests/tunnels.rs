use regex::Regex;
use tunl::config::{default_sni, Config, DEFAULT_PROXY_LIST_URL};
use tunl::error::TunlError;
use tunl::tunnel::{is_proxy_address, parse_proxyip, tunnel_handler, upgrade_reply, UpgradeReply};

fn config() -> Config {
    Config::from_vars(
        "550e8400-e29b-41d4-a716-446655440000",
        Some("worker.example".to_string()),
        None,
    )
}

#[test]
fn proxy_addresses_are_those_of_the_pattern() {
    let pattern =
        Regex::new(r"^(\d{1,3}\.\d{1,3}\.\d{1,3}\.\d{1,3})[:-](\d{1,5})$").unwrap();
    for text in [
        "1.2.3.4:80",
        "1.2.3.4-80",
        "1.2.3.4|80",
        "999.999.999.999:99999",
        "1.2.3.4:",
        "1.2.3.4",
        "",
        ":",
        "1.2.3:80",
        "1.2.3.4.5:80",
        "1.2.3.4:123456",
        "1234.2.3.4:80",
        "1..3.4:80",
        ".2.3.4:80",
        "1.2.3.4.:80",
        "1.2.3.4::80",
        "1.2.3.4:80-81",
        "1.2.3.4-80:81",
        "1.2.3.4/80",
        "1.2.3.4:80\n",
        " 1.2.3.4:80",
        "1.2.3.4:8x",
        "a.b.c.d:80",
        "\u{661}.\u{662}.3.4:80",
        "1.2.3.4:\u{0967}",
        "1.2.3.4:\u{b2}",
        "\u{1d7ce}.2.3.4:80",
        "1.2.3.4\u{ff1a}80",
    ] {
        let captures = pattern.captures(text);
        assert_eq!(is_proxy_address(text), captures.is_some(), "{:?}", text);
        match (parse_proxyip(text), captures) {
            (Ok((addr, port)), Some(captures)) => {
                assert_eq!(addr, captures.get(1).unwrap().as_str());
                assert_eq!(Ok(port), captures.get(2).unwrap().as_str().parse::<u16>());
            }
            (Err(TunlError::InvalidPort), Some(captures)) => {
                assert!(captures.get(2).unwrap().as_str().parse::<u16>().is_err());
            }
            (Err(error), None) => assert_eq!(error, TunlError::InvalidProxyPath),
            _ => panic!("{:?}", text),
        }
    }
}

#[test]
fn proxy_address_and_port() {
    assert_eq!(parse_proxyip("10.0.0.1:8443"), Ok(("10.0.0.1".to_string(), 8443)));
    assert_eq!(parse_proxyip("10.0.0.1-00080"), Ok(("10.0.0.1".to_string(), 80)));
    assert_eq!(parse_proxyip("10.0.0.1:65535"), Ok(("10.0.0.1".to_string(), 65535)));
    assert_eq!(parse_proxyip("10.0.0.1:65536"), Err(TunlError::InvalidPort));
    assert_eq!(parse_proxyip("10.0.0.1:\u{0661}"), Err(TunlError::InvalidPort));
    assert_eq!(parse_proxyip("example.com:80"), Err(TunlError::InvalidProxyPath));
    assert_eq!(parse_proxyip("1.2.3.4|8080"), Err(TunlError::InvalidProxyPath));
}

#[test]
fn digits_outside_ascii_count_in_addresses() {
    assert_eq!(
        parse_proxyip("\u{661}.2.3.4:80"),
        Ok(("\u{661}.2.3.4".to_string(), 80))
    );
    assert_eq!(parse_proxyip("\u{b2}.2.3.4:80"), Err(TunlError::InvalidProxyPath));
}

#[test]
fn colon_and_hyphen_name_the_same_proxy() {
    assert_eq!(parse_proxyip("1.2.3.4:443"), parse_proxyip("1.2.3.4-443"));
}

#[test]
fn tunnel_takes_the_proxy_of_the_path() {
    let tunnel = tunnel_handler(config(), "203.0.113.7-8080").ok().unwrap();
    assert_eq!(tunnel.proxy_addr, "203.0.113.7");
    assert_eq!(tunnel.proxy_port, 8080);
    assert_eq!(tunnel.host, "worker.example");
    assert_eq!(tunnel.uuid, config().uuid);
    assert_eq!(tunnel.proxy_list_url, DEFAULT_PROXY_LIST_URL);
    assert_eq!(tunnel_handler(config(), "x").err(), Some(TunlError::InvalidProxyPath));
    assert_eq!(tunnel_handler(config(), "1.2.3.4|8080").err(), Some(TunlError::InvalidProxyPath));
    assert_eq!(tunnel_handler(config(), "1.2.3.4:70000").err(), Some(TunlError::InvalidPort));
}

#[test]
fn only_websocket_gets_a_socket() {
    assert!(matches!(upgrade_reply(Some("websocket".to_string())), UpgradeReply::Socket));
    for other in [None, Some(String::new()), Some("WebSocket".to_string())] {
        assert!(matches!(
            upgrade_reply(other),
            UpgradeReply::Redirect("https://example.com")
        ));
    }
}

#[test]
fn configuration_from_the_environment() {
    let config = config();
    assert_eq!(
        config.uuid,
        [0x55, 0x0e, 0x84, 0, 0xe2, 0x9b, 0x41, 0xd4, 0xa7, 0x16, 0x44, 0x66, 0x55, 0x44, 0, 0]
    );
    assert_eq!(config.host, "worker.example");
    assert_eq!(config.proxy_addr, "worker.example");
    assert_eq!(config.proxy_port, 443);
    assert_eq!(config.proxy_list_url, DEFAULT_PROXY_LIST_URL);
}

#[test]
fn forms_of_a_uuid() {
    let expected = config().uuid;
    for text in [
        "550e8400e29b41d4a716446655440000",
        "550E8400-E29B-41D4-A716-446655440000",
        "{550e8400-e29b-41d4-a716-446655440000}",
        "Urn:UUID:550e8400-e29b-41d4-a716-446655440000",
    ] {
        assert_eq!(Config::from_vars(text, None, None).uuid, expected);
    }
}

#[test]
fn unreadable_uuid_counts_as_zeros() {
    for text in [
        "",
        "nonsense",
        "550e8400-e29b-41d4-a716-44665544000g",
        "550e8400e-29b-41d4-a716-446655440000",
        "{550e8400-e29b-41d4-a716-446655440000",
        "uri:uuid:550e8400-e29b-41d4-a716-446655440000",
    ] {
        let config = Config::from_vars(text, None, Some("https://list.example".to_string()));
        assert_eq!(config.uuid, [0; 16]);
        assert_eq!(config.host, "");
        assert_eq!(config.proxy_list_url, "https://list.example");
    }
}

#[test]
fn server_name_defaults_to_the_host() {
    assert_eq!(default_sni(None, "worker.example"), "worker.example");
    assert_eq!(default_sni(Some("sni.example".to_string()), "worker.example"), "sni.example");
}
