use base64::engine::general_purpose::URL_SAFE;
use base64::Engine;
use serde_json::Value;
use tunl::config::Config;
use tunl::error::TunlError;
use tunl::link::{
    check_list_status, choose_proxy, link_for_url, link_handler, link_with_random,
    parse_proxy_list, query_value, reply_object, vmess_link, welcome, write_link_json,
    write_link_path, LinkReply,
};
use tunl::tunnel::parse_proxyip;

fn config() -> Config {
    Config::from_vars(
        "550e8400-e29b-41d4-a716-446655440000",
        Some("worker.example".to_string()),
        None,
    )
}

fn pairs(list: &[(&str, &str)]) -> Vec<(String, String)> {
    list.iter().map(|(k, v)| (k.to_string(), v.to_string())).collect()
}

fn texts(list: &[&str]) -> Vec<String> {
    list.iter().map(|text| text.to_string()).collect()
}

fn decoded(reply: &LinkReply) -> Value {
    let encoded = reply.vmess.strip_prefix("vmess://").unwrap();
    serde_json::from_slice(&URL_SAFE.decode(encoded).unwrap()).unwrap()
}

#[test]
fn list_lines() {
    let text = "1.2.3.4,443,US,Example\n 5.6.7.8 , 8080\r\n\n,80\n9.9.9.9,\nalone\n a , b ,c";
    assert_eq!(
        parse_proxy_list(text),
        Ok(texts(&["1.2.3.4:443", "5.6.7.8:8080", "a:b"]))
    );
}

#[test]
fn list_without_usable_lines() {
    for text in ["", "\n\n", "1.2.3.4", " , ", "a,\t\r\n"] {
        assert_eq!(parse_proxy_list(text), Err(TunlError::EmptyProxyList));
    }
}

#[test]
fn list_status() {
    assert_eq!(check_list_status(200), Ok(()));
    assert_eq!(check_list_status(404), Err(TunlError::ProxyListStatus(404)));
    assert_eq!(check_list_status(204), Err(TunlError::ProxyListStatus(204)));
}

#[test]
fn first_parameter_of_a_name_counts() {
    let query = pairs(&[("a", "1"), ("sni", "x"), ("sni", "y")]);
    assert_eq!(query_value(&query, "sni"), Some("x".to_string()));
    assert_eq!(query_value(&query, "a"), Some("1".to_string()));
    assert_eq!(query_value(&query, "proxy"), None);
}

#[test]
fn random_byte_wraps_around_the_list() {
    let list = texts(&["a:1", "b:2", "c:3"]);
    assert_eq!(choose_proxy(None, &list, Some(0)), Ok("a:1".to_string()));
    assert_eq!(choose_proxy(None, &list, Some(5)), Ok("c:3".to_string()));
    assert_eq!(choose_proxy(None, &list, Some(255)), Ok("a:1".to_string()));
    assert_eq!(choose_proxy(None, &list, None), Err(TunlError::RandomFailed));
}

#[test]
fn queried_proxy_must_have_the_form() {
    let list = texts(&["a:1"]);
    assert_eq!(
        choose_proxy(Some("1.2.3.4:5".to_string()), &list, None),
        Ok("1.2.3.4:5".to_string())
    );
    assert_eq!(
        choose_proxy(Some("1.2.3.4-5".to_string()), &list, None),
        Ok("1.2.3.4-5".to_string())
    );
    for proxy in ["a:1", "1.2.3.4|5", ""] {
        assert_eq!(
            choose_proxy(Some(proxy.to_string()), &list, Some(0)),
            Err(TunlError::InvalidProxyQuery)
        );
    }
}

#[test]
fn link_json_text() {
    assert_eq!(
        write_link_json(&config(), "sni.\"example\"", "1.2.3.4:443"),
        "{\"add\":\"worker.example\",\"aid\":\"0\",\"alpn\":\"\",\"host\":\"worker.example\",\
         \"id\":\"550e8400-e29b-41d4-a716-446655440000\",\"net\":\"ws\",\
         \"path\":\"/1.2.3.4-443\",\"port\":443,\"ps\":\"tunl\",\"scy\":\"auto\",\
         \"sni\":\"sni.\\\"example\\\"\",\"tls\":\"tls\",\"type\":\"none\",\"v\":\"2\"}"
    );
}

#[test]
fn link_text() {
    assert_eq!(vmess_link(""), "vmess://");
    assert_eq!(vmess_link("f"), "vmess://Zg==");
    assert_eq!(vmess_link("fo"), "vmess://Zm8=");
    assert_eq!(vmess_link("foobar"), "vmess://Zm9vYmFy");
    assert_eq!(vmess_link("??>~"), "vmess://Pz8-fg==");
    assert_eq!(vmess_link("\u{fff}?"), "vmess://4L-_Pw==");
}

#[test]
fn link_path_leads_through_the_proxy() {
    assert_eq!(write_link_path("1.2.3.4:443"), "/1.2.3.4-443");
    assert_eq!(write_link_path("::"), "/--");
    assert_eq!(
        parse_proxyip(&write_link_path("1.2.3.4:443")[1..]),
        parse_proxyip("1.2.3.4:443")
    );
}

#[test]
fn link_for_a_queried_proxy() {
    let query = pairs(&[("proxy", "1.2.3.4:8443"), ("sni", "cdn.example")]);
    let reply = link_handler(&config(), "default.example", &query, &texts(&["a:1"])).ok().unwrap();
    assert_eq!(reply.sni_used, "cdn.example");
    assert_eq!(reply.proxy_used, "1.2.3.4:8443");
    assert_eq!(reply.info, "Use /IP:PORT or /IP-PORT for WebSocket tunnel");
    let link = decoded(&reply);
    assert_eq!(link["add"], "worker.example");
    assert_eq!(link["host"], "worker.example");
    assert_eq!(link["port"], 443);
    assert_eq!(link["id"], "550e8400-e29b-41d4-a716-446655440000");
    assert_eq!(link["path"], "/1.2.3.4-8443");
    assert_eq!(link["sni"], "cdn.example");
    assert_eq!(
        Config::from_vars(link["id"].as_str().unwrap(), None, None).uuid,
        config().uuid
    );
}

#[test]
fn link_for_a_drawn_proxy() {
    let list = texts(&["5.6.7.8:80", "9.9.9.9:443"]);
    let reply = link_handler(&config(), "default.example", &pairs(&[]), &list).ok().unwrap();
    assert!(list.contains(&reply.proxy_used));
    assert_eq!(reply.sni_used, "default.example");
    let drawn = link_with_random(&config(), "d", &pairs(&[]), &list, Some(3)).ok().unwrap();
    assert_eq!(drawn.proxy_used, "9.9.9.9:443");
    assert_eq!(decoded(&drawn)["path"], "/9.9.9.9-443");
}

#[test]
fn drawing_reaches_every_proxy() {
    let list = texts(&["5.6.7.8:80", "9.9.9.9:443"]);
    let mut seen = [false, false];
    for _ in 0..200 {
        let reply = link_handler(&config(), "d", &pairs(&[]), &list).ok().unwrap();
        seen[if reply.proxy_used == list[0] { 0 } else { 1 }] = true;
    }
    assert_eq!(seen, [true, true]);
}

#[test]
fn link_refusals() {
    let list = texts(&["5.6.7.8:80"]);
    let refused = |proxy: &str| {
        link_handler(&config(), "d", &pairs(&[("proxy", proxy)]), &list).err()
    };
    assert_eq!(refused("nonsense"), Some(TunlError::InvalidProxyQuery));
    assert_eq!(refused("1.2.3.4|8080"), Some(TunlError::InvalidProxyQuery));
    assert_eq!(refused("1.2.3.4-443"), None);
    assert_eq!(refused("1.2.3.4:443"), None);
    assert_eq!(
        link_with_random(&config(), "d", &pairs(&[]), &list, None).err(),
        Some(TunlError::RandomFailed)
    );
}

#[test]
fn link_for_a_url() {
    let list = texts(&["5.6.7.8:443"]);
    let ask = |url: &str| link_for_url(&config(), "default.example", url, &list);
    let reply = ask("https://h.example/link?proxy=1.2.3.4-443").unwrap().ok().unwrap();
    assert_eq!(reply.proxy_used, "1.2.3.4-443");
    assert_eq!(reply.sni_used, "default.example");
    assert_eq!(decoded(&reply)["path"], "/1.2.3.4-443");
    let reply = ask("https://h.example/link?sni=a%2Eb+c&proxy=1.2.3.4%3A80&proxy=x&sni=y#sni=z");
    let reply = reply.unwrap().ok().unwrap();
    assert_eq!(reply.proxy_used, "1.2.3.4:80");
    assert_eq!(reply.sni_used, "a.b c");
    assert_eq!(decoded(&reply)["path"], "/1.2.3.4-80");
    let reply = ask("https://h.example/link").unwrap().ok().unwrap();
    assert_eq!(reply.proxy_used, "5.6.7.8:443");
    assert_eq!(
        ask("https://h.example/link?proxy=1.2.3.4|8080").unwrap().err(),
        Some(TunlError::InvalidProxyQuery)
    );
    assert!(ask("no url").is_none());
}

#[test]
fn answer_as_an_object() {
    let reply = LinkReply {
        vmess: "a".to_string(),
        info: "b".to_string(),
        sni_used: "c".to_string(),
        proxy_used: "d\"".to_string(),
    };
    assert_eq!(
        Value::Object(reply_object(&reply)).to_string(),
        "{\"info\":\"b\",\"proxy_used\":\"d\\\"\",\"sni_used\":\"c\",\"vmess\":\"a\"}"
    );
}

#[test]
fn root_page() {
    assert_eq!(
        welcome(),
        "<h1>tunl Worker Active</h1><p>Use /link to get config or /IP:PORT (or IP-PORT) for WebSocket tunnel</p>"
    );
}
