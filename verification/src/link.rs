//! The link route: a proxy from the list or the query, and the link that leads through it.

use crate::common::text::{
    chars_of, pieces_of, split, split_ends_with_last_piece, split_keeps_earlier_pieces,
    split_keeps_one_piece, split_of, text_of, trim, trim_keeps_the_middle, trim_of, white_space,
};
use crate::config::{parsed_uuid, uuid_text, uuid_text_reads_back, write_uuid, Config, ConfigView};
use crate::error::TunlError;
use crate::tunnel::{
    hyphens_keep_the_proxy, is_proxy_address, proxy_parts, proxy_target, with_hyphens,
};
use base64::engine::general_purpose::URL_SAFE;
use base64::Engine;
use vstd::prelude::*;
use vstd::utf8::encode_utf8;

verus! {

/// The page at the root of the worker.
pub const WELCOME_HTML: &'static str =
    "<h1>tunl Worker Active</h1><p>Use /link to get config or /IP:PORT (or IP-PORT) for WebSocket tunnel</p>";

/// What a link comes with.
pub const LINK_INFO: &'static str = "Use /IP:PORT or /IP-PORT for WebSocket tunnel";

/// What the root of the worker shows.
pub fn welcome() -> (html: &'static str)
    ensures
        html@ == WELCOME_HTML@,
{
    WELCOME_HTML
}

/// The proxy in a line of the list: its first field as address and its second as port. A line with
/// one field only, or with an empty one, has none.
pub open spec fn entry_of(line: Seq<char>) -> Option<Seq<char>> {
    let fields = split_of(line, ',');
    if fields.len() >= 2 && trim_of(fields[0]).len() > 0 && trim_of(fields[1]).len() > 0 {
        Some(trim_of(fields[0]).push(':') + trim_of(fields[1]))
    } else {
        None
    }
}

/// The proxies in the lines of a list, in order.
pub open spec fn entries_of(lines: Seq<Seq<char>>) -> Seq<Seq<char>>
    decreases lines.len(),
{
    if lines.len() == 0 {
        Seq::empty()
    } else {
        match entry_of(lines.last()) {
            Some(entry) => entries_of(lines.drop_last()).push(entry),
            None => entries_of(lines.drop_last()),
        }
    }
}

/// The proxies in the text of a list.
pub open spec fn proxies_of(text: Seq<char>) -> Seq<Seq<char>> {
    entries_of(split_of(text, '\n'))
}

/// The contents of a list of texts.
pub open spec fn texts_of(texts: Seq<String>) -> Seq<Seq<char>> {
    texts.map_values(|text: String| text@)
}

/// Reads one line of the list.
fn read_entry(line: &[char]) -> (entry: Option<String>)
    ensures
        match entry_of(line@) {
            Some(text) => entry matches Some(entry) && entry@ == text,
            None => entry is None,
        },
{
    let fields = split(line, ',');
    let ghost expected = split_of(line@, ',');
    assert(pieces_of(fields@) == expected);
    assert(expected.len() == fields@.len());
    if fields.len() < 2 {
        return None;
    }
    assert(expected[0] == fields@[0]@ && expected[1] == fields@[1]@);
    let ip = trim(fields[0].as_slice());
    let port = trim(fields[1].as_slice());
    if ip.len() > 0 && port.len() > 0 {
        let mut entry = text_of(ip.as_slice());
        entry.push(':');
        entry.append(text_of(port.as_slice()).as_str());
        Some(entry)
    } else {
        None
    }
}

/// Checks the status of the answer to the request for the proxy list: it must be 200.
pub fn check_list_status(status: u16) -> (checked: Result<(), TunlError>)
    ensures
        checked == if status == 200 {
            Ok::<(), TunlError>(())
        } else {
            Err::<(), TunlError>(TunlError::ProxyListStatus(status))
        },
{
    if status != 200 {
        return Err(TunlError::ProxyListStatus(status));
    }
    Ok(())
}

/// Reads the proxy list, which must have at least one usable line. A carriage return before a line
/// feed is white space at the end of a field.
pub fn parse_proxy_list(text: &str) -> (list: Result<Vec<String>, TunlError>)
    ensures
        match list {
            Ok(list) => texts_of(list@) == proxies_of(text@) && list@.len() > 0,
            Err(error) => error == TunlError::EmptyProxyList && proxies_of(text@).len() == 0,
        },
{
    let lines = split(chars_of(text).as_slice(), '\n');
    let ghost expected = split_of(text@, '\n');
    let mut list: Vec<String> = Vec::new();
    for i in 0..lines.len()
        invariant
            pieces_of(lines@) == expected,
            texts_of(list@) == entries_of(expected.take(i as int)),
    {
        proof {
            assert(expected.take(i + 1).drop_last() == expected.take(i as int));
            assert(expected.take(i + 1).last() == lines@[i as int]@);
        }
        if let Some(entry) = read_entry(lines[i].as_slice()) {
            let ghost before = texts_of(list@);
            let ghost added = entry@;
            list.push(entry);
            assert(texts_of(list@) == before.push(added));
        }
    }
    assert(expected.take(expected.len() as int) == expected);
    assert(texts_of(list@).len() == list@.len());
    if list.len() == 0 {
        return Err(TunlError::EmptyProxyList);
    }
    Ok(list)
}

/// The JSON object of the `serde_json` crate.
#[verifier::external_type_specification]
#[verifier::external_body]
#[verifier::reject_recursive_types(K)]
#[verifier::reject_recursive_types(V)]
pub struct ExJsonMap<K, V>(serde_json::Map<K, V>);

/// The JSON value of the `serde_json` crate.
#[verifier::external_type_specification]
#[verifier::external_body]
pub struct ExJsonValue(serde_json::Value);

/// A JSON object.
pub type JsonObject = serde_json::Map<String, serde_json::Value>;

/// A value in a JSON object.
pub ghost enum JsonMember {
    Text(Seq<char>),
    Number(nat),
}

/// The members of a JSON object by their names.
pub uninterp spec fn json_members(object: JsonObject) -> Map<Seq<char>, JsonMember>;

/// The compact text that `serde_json` writes for an object with the given members.
pub uninterp spec fn json_text(members: Map<Seq<char>, JsonMember>) -> Seq<char>;

/// The members of an empty JSON object.
pub open spec fn no_members() -> Map<Seq<char>, JsonMember> {
    Map::empty()
}

/// `serde_json::Map::new` makes an object without members.
#[verifier::external_body]
fn new_object() -> (object: JsonObject)
    ensures
        json_members(object) == no_members(),
{
    serde_json::Map::new()
}

/// `serde_json::Map::insert` of a text: the object gets a member of that name, in place of the one
/// it may have had.
#[verifier::external_body]
fn insert_text(object: &mut JsonObject, name: &str, value: &str)
    ensures
        json_members(*final(object)) == json_members(*old(object)).insert(
            name@,
            JsonMember::Text(value@),
        ),
{
    object.insert(name.to_string(), serde_json::Value::from(value));
}

/// `serde_json::Map::insert` of a number.
#[verifier::external_body]
fn insert_number(object: &mut JsonObject, name: &str, value: u16)
    ensures
        json_members(*final(object)) == json_members(*old(object)).insert(
            name@,
            JsonMember::Number(value as nat),
        ),
{
    object.insert(name.to_string(), serde_json::Value::from(value));
}

/// `serde_json::Value::to_string` of an object. The crate keeps members sorted by name, unless it is
/// built with its `preserve_order` feature, which this crate does not enable; so the text is a
/// function of the members.
#[verifier::external_body]
fn write_object(object: JsonObject) -> (text: String)
    ensures
        text@ == json_text(json_members(object)),
{
    serde_json::Value::Object(object).to_string()
}

/// The digit of base64 with the given value, in the alphabet for URLs.
pub open spec fn base64_digit(value: int) -> char {
    if value < 26 {
        ('A' as int + value) as char
    } else if value < 52 {
        ('a' as int + value - 26) as char
    } else if value < 62 {
        ('0' as int + value - 52) as char
    } else if value == 62 {
        '-'
    } else {
        '_'
    }
}

/// A byte, or zero behind the end.
pub open spec fn byte_at(bytes: Seq<u8>, i: int) -> int {
    if i < bytes.len() {
        bytes[i] as int
    } else {
        0
    }
}

/// The character at an index of the base64 text of `bytes`: each three bytes make four digits of
/// six bits, and digits that would hold no bit are padding.
pub open spec fn base64_char(bytes: Seq<u8>, i: int) -> char {
    let first = i / 4 * 3;
    let bits = 65536 * byte_at(bytes, first) + 256 * byte_at(bytes, first + 1) + byte_at(
        bytes,
        first + 2,
    );
    if i % 4 == 0 {
        base64_digit(bits / 262144)
    } else if i % 4 == 1 {
        base64_digit(bits / 4096 % 64)
    } else if i % 4 == 2 {
        if first + 1 < bytes.len() {
            base64_digit(bits / 64 % 64)
        } else {
            '='
        }
    } else {
        if first + 2 < bytes.len() {
            base64_digit(bits % 64)
        } else {
            '='
        }
    }
}

/// The base64 text of `bytes` in the alphabet for URLs, with padding.
pub open spec fn base64_url(bytes: Seq<u8>) -> Seq<char> {
    Seq::new((4 * ((bytes.len() + 2) / 3)) as nat, |i: int| base64_char(bytes, i))
}

/// `base64::Engine::encode` of the engine `URL_SAFE`.
#[verifier::external_body]
fn encode_url_safe(bytes: &[u8]) -> (text: String)
    ensures
        text@ == base64_url(bytes@),
{
    URL_SAFE.encode(bytes)
}

/// The link that carries a JSON text.
pub fn vmess_link(json: &str) -> (link: String)
    ensures
        link@ == "vmess://"@ + base64_url(encode_utf8(json@)),
{
    let mut link = "vmess://".to_owned();
    link.append(encode_url_safe(json.as_bytes()).as_str());
    link
}

/// The path that leads through a proxy.
pub open spec fn link_path(proxy: Seq<char>) -> Seq<char> {
    seq!['/'] + with_hyphens(proxy)
}

/// Writes the path that leads through a proxy.
pub fn write_link_path(proxy: &str) -> (path: String)
    ensures
        path@ == link_path(proxy@),
{
    let chars = chars_of(proxy);
    let mut path = "/".to_owned();
    proof {
        reveal_strlit("/");
        assert(path@ == seq!['/'] + with_hyphens(chars@).take(0));
    }
    for i in 0..chars.len()
        invariant
            path@ == seq!['/'] + with_hyphens(chars@).take(i as int),
    {
        let c = chars[i];
        if c == ':' {
            path.push('-');
        } else {
            path.push(c);
        }
    }
    assert(with_hyphens(chars@).take(chars@.len() as int) == with_hyphens(chars@));
    path
}

/// What a link tells the client: to connect to the worker itself, and through it by the path to the
/// proxy.
pub open spec fn link_members(config: ConfigView, sni: Seq<char>, proxy: Seq<char>) -> Map<
    Seq<char>,
    JsonMember,
> {
    no_members().insert("v"@, JsonMember::Text("2"@)).insert(
        "ps"@,
        JsonMember::Text("tunl"@),
    ).insert("add"@, JsonMember::Text(config.host)).insert("port"@, JsonMember::Number(443)).insert(
        "id"@,
        JsonMember::Text(uuid_text(config.uuid)),
    ).insert("aid"@, JsonMember::Text("0"@)).insert("scy"@, JsonMember::Text("auto"@)).insert(
        "net"@,
        JsonMember::Text("ws"@),
    ).insert("type"@, JsonMember::Text("none"@)).insert(
        "host"@,
        JsonMember::Text(config.host),
    ).insert("path"@, JsonMember::Text(link_path(proxy))).insert(
        "tls"@,
        JsonMember::Text("tls"@),
    ).insert("sni"@, JsonMember::Text(sni)).insert("alpn"@, JsonMember::Text(""@))
}

/// Writes what a link tells the client.
pub fn write_link_json(config: &Config, sni: &str, proxy: &str) -> (json: String)
    ensures
        json@ == json_text(link_members(config@, sni@, proxy@)),
{
    let mut object = new_object();
    insert_text(&mut object, "v", "2");
    insert_text(&mut object, "ps", "tunl");
    insert_text(&mut object, "add", config.host.as_str());
    insert_number(&mut object, "port", 443);
    insert_text(&mut object, "id", write_uuid(&config.uuid).as_str());
    insert_text(&mut object, "aid", "0");
    insert_text(&mut object, "scy", "auto");
    insert_text(&mut object, "net", "ws");
    insert_text(&mut object, "type", "none");
    insert_text(&mut object, "host", config.host.as_str());
    insert_text(&mut object, "path", write_link_path(proxy).as_str());
    insert_text(&mut object, "tls", "tls");
    insert_text(&mut object, "sni", sni);
    insert_text(&mut object, "alpn", "");
    write_object(object)
}

/// The answer on the link route.
pub struct LinkReply {
    /// The link.
    pub vmess: String,
    /// How else the worker can be used.
    pub info: String,
    /// The server name in the link.
    pub sni_used: String,
    /// The proxy that the link leads through.
    pub proxy_used: String,
}

/// The contents of a [`LinkReply`].
pub ghost struct LinkReplyView {
    pub vmess: Seq<char>,
    pub info: Seq<char>,
    pub sni_used: Seq<char>,
    pub proxy_used: Seq<char>,
}

impl View for LinkReply {
    type V = LinkReplyView;

    open spec fn view(&self) -> LinkReplyView {
        LinkReplyView {
            vmess: self.vmess@,
            info: self.info@,
            sni_used: self.sni_used@,
            proxy_used: self.proxy_used@,
        }
    }
}

/// The answer that leads through `proxy`.
pub open spec fn reply_of(config: ConfigView, sni: Seq<char>, proxy: Seq<char>) -> LinkReplyView {
    LinkReplyView {
        vmess: "vmess://"@ + base64_url(encode_utf8(json_text(link_members(config, sni, proxy)))),
        info: LINK_INFO@,
        sni_used: sni,
        proxy_used: proxy,
    }
}

/// Makes the answer that leads through `proxy`.
pub fn link_reply(config: &Config, sni: String, proxy: String) -> (reply: LinkReply)
    ensures
        reply@ == reply_of(config@, sni@, proxy@),
{
    let json = write_link_json(config, sni.as_str(), proxy.as_str());
    LinkReply {
        vmess: vmess_link(json.as_str()),
        info: LINK_INFO.to_owned(),
        sni_used: sni,
        proxy_used: proxy,
    }
}

/// The contents of a list of query parameters.
pub open spec fn pairs_of(pairs: Seq<(String, String)>) -> Seq<(Seq<char>, Seq<char>)> {
    pairs.map_values(|pair: (String, String)| (pair.0@, pair.1@))
}

/// The value of the first query parameter with the given name.
pub open spec fn value_of(pairs: Seq<(Seq<char>, Seq<char>)>, name: Seq<char>) -> Option<Seq<char>>
    decreases pairs.len(),
{
    if pairs.len() == 0 {
        None
    } else if pairs[0].0 == name {
        Some(pairs[0].1)
    } else {
        value_of(pairs.skip(1), name)
    }
}

/// Looks up a query parameter.
pub fn query_value(pairs: &Vec<(String, String)>, name: &str) -> (value: Option<String>)
    ensures
        match value_of(pairs_of(pairs@), name@) {
            Some(text) => value matches Some(value) && value@ == text,
            None => value is None,
        },
{
    let wanted = name.to_owned();
    let ghost all = pairs_of(pairs@);
    assert(all.skip(0) == all);
    for i in 0..pairs.len()
        invariant
            wanted@ == name@,
            all == pairs_of(pairs@),
            value_of(all.skip(i as int), name@) == value_of(all, name@),
    {
        assert(all.skip(i as int).skip(1) == all.skip(i + 1));
        assert(all.skip(i as int)[0] == all[i as int]);
        if pairs[i].0 == wanted {
            return Some(pairs[i].1.clone());
        }
    }
    None
}

/// `getrandom::getrandom` for one byte; nothing where the system's source fails. The byte can be
/// any.
#[verifier::external_body]
fn random_byte() -> (byte: Option<u8>) {
    let mut buffer = [0u8; 1];
    match getrandom::getrandom(&mut buffer) {
        Ok(()) => Some(buffer[0]),
        Err(_) => None,
    }
}

/// The proxy for a link: the one of the query, where it has the form of one, or else the one of the
/// list that a random byte picks.
pub open spec fn chosen_proxy(
    query: Option<Seq<char>>,
    list: Seq<Seq<char>>,
    random: Option<u8>,
) -> Result<Seq<char>, TunlError> {
    match (query, random) {
        (Some(proxy), _) => if proxy_parts(proxy) is Some {
            Ok(proxy)
        } else {
            Err(TunlError::InvalidProxyQuery)
        },
        (None, Some(byte)) => Ok(list[byte as int % list.len() as int]),
        (None, None) => Err(TunlError::RandomFailed),
    }
}

/// Chooses the proxy for a link.
pub fn choose_proxy(query: Option<String>, list: &Vec<String>, random: Option<u8>) -> (proxy:
    Result<String, TunlError>)
    requires
        list@.len() > 0,
    ensures
        match chosen_proxy(
            match query {
                Some(text) => Some(text@),
                None => None,
            },
            texts_of(list@),
            random,
        ) {
            Ok(text) => proxy matches Ok(proxy) && proxy@ == text,
            Err(error) => proxy == Err::<String, TunlError>(error),
        },
{
    match query {
        Some(proxy) => if is_proxy_address(proxy.as_str()) {
            Ok(proxy)
        } else {
            Err(TunlError::InvalidProxyQuery)
        },
        None => match random {
            Some(byte) => Ok(list[byte as usize % list.len()].clone()),
            None => Err(TunlError::RandomFailed),
        },
    }
}

/// The answer on the link route, given the outcome of drawing a random byte.
pub open spec fn link_outcome(
    config: ConfigView,
    default_sni: Seq<char>,
    pairs: Seq<(Seq<char>, Seq<char>)>,
    list: Seq<Seq<char>>,
    random: Option<u8>,
) -> Result<LinkReplyView, TunlError> {
    let sni = match value_of(pairs, "sni"@) {
        Some(sni) => sni,
        None => default_sni,
    };
    match chosen_proxy(value_of(pairs, "proxy"@), list, random) {
        Ok(proxy) => Ok(reply_of(config, sni, proxy)),
        Err(error) => Err(error),
    }
}

/// The contents of an answer on the link route.
pub open spec fn link_view(reply: Result<LinkReply, TunlError>) -> Result<LinkReplyView, TunlError> {
    match reply {
        Ok(reply) => Ok(reply@),
        Err(error) => Err(error),
    }
}

/// Answers on the link route with the outcome of drawing a random byte.
pub fn link_with_random(
    config: &Config,
    default_sni: &str,
    pairs: &Vec<(String, String)>,
    list: &Vec<String>,
    random: Option<u8>,
) -> (reply: Result<LinkReply, TunlError>)
    requires
        list@.len() > 0,
    ensures
        link_view(reply) == link_outcome(
            config@,
            default_sni@,
            pairs_of(pairs@),
            texts_of(list@),
            random,
        ),
{
    let sni = match query_value(pairs, "sni") {
        Some(sni) => sni,
        None => default_sni.to_owned(),
    };
    let proxy = choose_proxy(query_value(pairs, "proxy"), list, random)?;
    Ok(link_reply(config, sni, proxy))
}

/// Answers on the link route. A random byte is drawn where the query names no proxy.
pub fn link_handler(
    config: &Config,
    default_sni: &str,
    pairs: &Vec<(String, String)>,
    list: &Vec<String>,
) -> (reply: Result<LinkReply, TunlError>)
    requires
        list@.len() > 0,
    ensures
        exists|random: Option<u8>|
            link_view(reply) == #[trigger] link_outcome(
                config@,
                default_sni@,
                pairs_of(pairs@),
                texts_of(list@),
                random,
            ),
{
    let random = match query_value(pairs, "proxy") {
        Some(_) => None,
        None => random_byte(),
    };
    link_with_random(config, default_sni, pairs, list, random)
}

/// What the query of a URL says by `worker::Url`: its parameters, names and values decoded, in order;
/// none where the text is no URL.
pub uninterp spec fn url_query(url: Seq<char>) -> Option<Seq<(Seq<char>, Seq<char>)>>;

/// `worker::Url::parse` and `query_pairs` of the URL: whether the text is a URL, and which parameters
/// its query has, is a function of the text.
#[verifier::external_body]
fn query_pairs(url: &str) -> (pairs: Option<Vec<(String, String)>>)
    ensures
        match pairs {
            Some(pairs) => url_query(url@) == Some(pairs_of(pairs@)),
            None => url_query(url@) is None,
        },
{
    match worker::Url::parse(url) {
        Ok(url) => Some(url.query_pairs().into_owned().collect()),
        Err(_) => None,
    }
}

/// Answers a request on the link route by its URL; none where the text is no URL.
pub fn link_for_url(config: &Config, default_sni: &str, url: &str, list: &Vec<String>) -> (reply:
    Option<Result<LinkReply, TunlError>>)
    requires
        list@.len() > 0,
    ensures
        reply is Some <==> url_query(url@) is Some,
        reply matches Some(reply) ==> exists|random: Option<u8>|
            link_view(reply) == #[trigger] link_outcome(
                config@,
                default_sni@,
                url_query(url@)->0,
                texts_of(list@),
                random,
            ),
{
    match query_pairs(url) {
        Some(pairs) => {
            let reply = link_handler(config, default_sni, &pairs, list);
            proof {
                let random = choose|random: Option<u8>|
                    link_view(reply) == #[trigger] link_outcome(
                        config@,
                        default_sni@,
                        pairs_of(pairs@),
                        texts_of(list@),
                        random,
                    );
                assert(link_view(reply) == link_outcome(
                    config@,
                    default_sni@,
                    url_query(url@)->0,
                    texts_of(list@),
                    random,
                ));
            }
            Some(reply)
        },
        None => None,
    }
}

/// The members of the JSON object that an answer on the link route is sent as.
pub open spec fn reply_members(reply: LinkReplyView) -> Map<Seq<char>, JsonMember> {
    no_members().insert("vmess"@, JsonMember::Text(reply.vmess)).insert(
        "info"@,
        JsonMember::Text(reply.info),
    ).insert("sni_used"@, JsonMember::Text(reply.sni_used)).insert(
        "proxy_used"@,
        JsonMember::Text(reply.proxy_used),
    )
}

/// Makes the JSON object that an answer on the link route is sent as.
pub fn reply_object(reply: &LinkReply) -> (object: JsonObject)
    ensures
        json_members(object) == reply_members(reply@),
{
    let mut object = new_object();
    insert_text(&mut object, "vmess", reply.vmess.as_str());
    insert_text(&mut object, "info", reply.info.as_str());
    insert_text(&mut object, "sni_used", reply.sni_used.as_str());
    insert_text(&mut object, "proxy_used", reply.proxy_used.as_str());
    object
}

/// Where the query names a proxy, the answer does not depend on chance.
pub proof fn queried_proxy_leaves_nothing_to_chance(
    config: ConfigView,
    default_sni: Seq<char>,
    pairs: Seq<(Seq<char>, Seq<char>)>,
    list: Seq<Seq<char>>,
    one: Option<u8>,
    other: Option<u8>,
)
    requires
        value_of(pairs, "proxy"@) is Some,
    ensures
        link_outcome(config, default_sni, pairs, list, one) == link_outcome(
            config,
            default_sni,
            pairs,
            list,
            other,
        ),
{
}

/// Every proxy in the list is an address, a colon and a port, neither of them empty.
pub proof fn listed_proxies_have_a_colon(text: Seq<char>, i: int)
    requires
        0 <= i < proxies_of(text).len(),
    ensures
        exists|at: int|
            0 < at < proxies_of(text)[i].len() - 1 && #[trigger] proxies_of(text)[i][at] == ':',
{
    entries_have_a_colon(split_of(text, '\n'), i);
}

/// The same of the lines of a list.
proof fn entries_have_a_colon(lines: Seq<Seq<char>>, i: int)
    requires
        0 <= i < entries_of(lines).len(),
    ensures
        exists|at: int|
            0 < at < entries_of(lines)[i].len() - 1 && #[trigger] entries_of(lines)[i][at] == ':',
    decreases lines.len(),
{
    let earlier = entries_of(lines.drop_last());
    if i < earlier.len() {
        entries_have_a_colon(lines.drop_last(), i);
        assert(entries_of(lines)[i] == earlier[i]);
    } else {
        let fields = split_of(lines.last(), ',');
        let ip = trim_of(fields[0]);
        assert(entries_of(lines)[i][ip.len() as int] == ':');
    }
}

/// A proxy that the query names in either form, `IP:PORT` or `IP-PORT`, gets a link through it as it
/// was written, and the path in that link names the same proxy to the tunnel route.
pub proof fn queried_proxy_gets_a_link(
    config: ConfigView,
    default_sni: Seq<char>,
    pairs: Seq<(Seq<char>, Seq<char>)>,
    list: Seq<Seq<char>>,
    random: Option<u8>,
    proxy: Seq<char>,
)
    requires
        value_of(pairs, "proxy"@) == Some(proxy),
        proxy_parts(proxy) is Some,
    ensures
        link_outcome(config, default_sni, pairs, list, random) == Ok::<LinkReplyView, TunlError>(
            reply_of(
                config,
                match value_of(pairs, "sni"@) {
                    Some(sni) => sni,
                    None => default_sni,
                },
                proxy,
            ),
        ),
        proxy_target(link_path(proxy).skip(1)) == proxy_target(proxy),
{
    link_path_names_the_proxy(proxy);
}

/// Drawing from a list that was fetched always gives a link through a proxy of that list, whatever
/// byte was drawn.
pub proof fn listed_proxy_always_gives_a_link(
    config: ConfigView,
    default_sni: Seq<char>,
    pairs: Seq<(Seq<char>, Seq<char>)>,
    text: Seq<char>,
    byte: u8,
)
    requires
        value_of(pairs, "proxy"@) is None,
        proxies_of(text).len() > 0,
    ensures
        link_outcome(config, default_sni, pairs, proxies_of(text), Some(byte)) matches Ok(reply)
            && proxies_of(text).contains(reply.proxy_used),
{
    let list = proxies_of(text);
    let i = byte as int % list.len() as int;
    assert(0 <= i < list.len()) by (nonlinear_arith)
        requires
            list.len() > 0,
            i == byte as int % list.len() as int,
    ;
    assert(list.contains(list[i]));
}

/// The path in a link names the proxy of the link to the tunnel route.
pub proof fn link_path_names_the_proxy(proxy: Seq<char>)
    ensures
        proxy_target(link_path(proxy).skip(1)) == proxy_target(proxy),
{
    assert(link_path(proxy).skip(1) == with_hyphens(proxy));
    hyphens_keep_the_proxy(proxy);
}

/// What a client finds in a link: the worker's host, the user, the path to the proxy and the server
/// name; and the user reads back as the configured one.
pub proof fn link_tells_host_user_path_and_sni(
    config: ConfigView,
    sni: Seq<char>,
    proxy: Seq<char>,
)
    requires
        config.uuid.len() == 16,
    ensures
        ({
            let members = link_members(config, sni, proxy);
            &&& members["add"@] == JsonMember::Text(config.host)
            &&& members["host"@] == JsonMember::Text(config.host)
            &&& members["port"@] == JsonMember::Number(443)
            &&& members["path"@] == JsonMember::Text(link_path(proxy))
            &&& members["sni"@] == JsonMember::Text(sni)
            &&& members["id"@] == JsonMember::Text(uuid_text(config.uuid))
            &&& parsed_uuid(members["id"@]->Text_0) == Some(config.uuid)
        }),
{
    reveal_strlit("v");
    reveal_strlit("ps");
    reveal_strlit("add");
    reveal_strlit("port");
    reveal_strlit("id");
    reveal_strlit("aid");
    reveal_strlit("scy");
    reveal_strlit("net");
    reveal_strlit("type");
    reveal_strlit("host");
    reveal_strlit("path");
    reveal_strlit("tls");
    reveal_strlit("sni");
    reveal_strlit("alpn");
    assert("port"@[1] != "type"@[1] && "port"@[0] != "host"@[0] && "port"@[1] != "path"@[1]
        && "port"@[0] != "alpn"@[0]);
    assert("host"@[0] != "path"@[0] && "host"@[0] != "alpn"@[0]);
    assert("path"@[0] != "alpn"@[0]);
    assert("add"@[1] != "aid"@[1] && "add"@[0] != "scy"@[0] && "add"@[0] != "net"@[0] && "add"@[0]
        != "tls"@[0] && "add"@[0] != "sni"@[0]);
    uuid_text_reads_back(config.uuid);
}

/// Lists of texts and of query parameters, and answers, hold what each of their parts holds.
pub proof fn link_views_are_their_parts(
    texts: Seq<String>,
    pairs: Seq<(String, String)>,
    reply: Result<LinkReply, TunlError>,
    i: int,
)
    ensures
        texts_of(texts).len() == texts.len(),
        0 <= i < texts.len() ==> texts_of(texts)[i] == texts[i]@,
        pairs_of(pairs).len() == pairs.len(),
        0 <= i < pairs.len() ==> pairs_of(pairs)[i] == (pairs[i].0@, pairs[i].1@),
        match reply {
            Ok(link) => {
                &&& link_view(reply) is Ok
                &&& link_view(reply)->Ok_0.vmess == link.vmess@
                &&& link_view(reply)->Ok_0.info == link.info@
                &&& link_view(reply)->Ok_0.sni_used == link.sni_used@
                &&& link_view(reply)->Ok_0.proxy_used == link.proxy_used@
            },
            Err(error) => link_view(reply) == Err::<LinkReplyView, TunlError>(error),
        },
{
}

/// A line of the list gives the proxy of its first two fields, with a colon between them. White space
/// round the fields does not count, nor do further fields.
pub proof fn entry_is_the_first_two_fields(
    before_ip: Seq<char>,
    ip: Seq<char>,
    behind_ip: Seq<char>,
    before_port: Seq<char>,
    port: Seq<char>,
    behind_port: Seq<char>,
    rest: Seq<char>,
)
    requires
        ip.len() > 0,
        port.len() > 0,
        !white_space(ip[0]) && !white_space(ip.last()),
        !white_space(port[0]) && !white_space(port.last()),
        forall|i: int| 0 <= i < ip.len() ==> #[trigger] ip[i] != ',',
        forall|i: int| 0 <= i < port.len() ==> #[trigger] port[i] != ',',
        forall|i: int| 0 <= i < before_ip.len() ==> white_space(#[trigger] before_ip[i]),
        forall|i: int| 0 <= i < behind_ip.len() ==> white_space(#[trigger] behind_ip[i]),
        forall|i: int| 0 <= i < before_port.len() ==> white_space(#[trigger] before_port[i]),
        forall|i: int| 0 <= i < behind_port.len() ==> white_space(#[trigger] behind_port[i]),
        rest.len() > 0 ==> rest[0] == ',',
    ensures
        entry_of(
            before_ip + ip + behind_ip + seq![','] + before_port + port + behind_port + rest,
        ) == Some(ip + seq![':'] + port),
{
    let first = before_ip + ip + behind_ip;
    let second = before_port + port + behind_port;
    field_is_plain(before_ip, ip, behind_ip);
    field_is_plain(before_port, port, behind_port);
    first_two_fields(first, second, rest);
    trim_keeps_the_middle(before_ip, ip, behind_ip);
    trim_keeps_the_middle(before_port, port, behind_port);
    assert(before_ip + ip + behind_ip + seq![','] + before_port + port + behind_port + rest
        == first.push(',') + second + rest);
    assert(ip.push(':') + port == ip + seq![':'] + port);
}

/// White space and what holds no comma make a field.
proof fn field_is_plain(front: Seq<char>, middle: Seq<char>, end: Seq<char>)
    requires
        forall|i: int| 0 <= i < front.len() ==> white_space(#[trigger] front[i]),
        forall|i: int| 0 <= i < end.len() ==> white_space(#[trigger] end[i]),
        forall|i: int| 0 <= i < middle.len() ==> #[trigger] middle[i] != ',',
    ensures
        forall|i: int|
            0 <= i < (front + middle + end).len() ==> #[trigger] (front + middle + end)[i] != ',',
{
    let field = front + middle + end;
    assert forall|i: int| 0 <= i < field.len() implies #[trigger] field[i] != ',' by {
        if i < front.len() {
            assert(field[i] == front[i]);
        } else if i < front.len() + middle.len() {
            assert(field[i] == middle[i - front.len()]);
        } else {
            assert(field[i] == end[i - front.len() - middle.len()]);
        }
    }
}

/// The first two fields of a line are what stands before its first comma and before its second.
proof fn first_two_fields(first: Seq<char>, second: Seq<char>, rest: Seq<char>)
    requires
        forall|i: int| 0 <= i < first.len() ==> #[trigger] first[i] != ',',
        forall|i: int| 0 <= i < second.len() ==> #[trigger] second[i] != ',',
        rest.len() > 0 ==> rest[0] == ',',
    ensures
        ({
            let fields = split_of(first.push(',') + second + rest, ',');
            fields.len() >= 2 && fields[0] == first && fields[1] == second
        }),
{
    split_keeps_one_piece(first, ',');
    split_ends_with_last_piece(first, ',', second);
    let fields = split_of(first.push(',') + second, ',');
    assert(fields == seq![first, second]);
    split_keeps_earlier_pieces(first.push(',') + second, ',', rest);
    assert(split_of(first.push(',') + second + rest, ',')[0] == fields[0]);
    assert(split_of(first.push(',') + second + rest, ',')[1] == fields[1]);
}

/// A line without a comma gives no proxy, nor does one whose first or second field is blank.
pub proof fn incomplete_lines_give_no_entry(field: Seq<char>, blank: Seq<char>, rest: Seq<char>)
    requires
        forall|i: int| 0 <= i < field.len() ==> #[trigger] field[i] != ',',
        forall|i: int| 0 <= i < blank.len() ==> white_space(#[trigger] blank[i]),
        rest.len() > 0 ==> rest[0] == ',',
    ensures
        entry_of(field) is None,
        entry_of(blank + seq![','] + field + rest) is None,
        entry_of(field + seq![','] + blank + rest) is None,
{
    let nothing = Seq::<char>::empty();
    split_keeps_one_piece(field, ',');
    field_is_plain(blank, nothing, nothing);
    assert(blank + nothing + nothing == blank);
    first_two_fields(blank, field, rest);
    first_two_fields(field, blank, rest);
    trim_keeps_the_middle(blank, nothing, nothing);
    assert(blank + seq![','] + field + rest == blank.push(',') + field + rest);
    assert(field + seq![','] + blank + rest == field.push(',') + blank + rest);
}

/// The list is read line by line: a further line adds its proxy at the end, if it has one.
pub proof fn list_is_read_by_line(text: Seq<char>, line: Seq<char>)
    requires
        forall|i: int| 0 <= i < line.len() ==> #[trigger] line[i] != '\n',
    ensures
        ({
            let added = match entry_of(line) {
                Some(entry) => seq![entry],
                None => Seq::empty(),
            };
            &&& proxies_of(line) == added
            &&& proxies_of(text + seq!['\n'] + line) == proxies_of(text) + added
        }),
{
    split_keeps_one_piece(line, '\n');
    split_ends_with_last_piece(text, '\n', line);
    assert(text + seq!['\n'] + line == text.push('\n') + line);
    let lines = split_of(text, '\n');
    assert(lines.push(line).drop_last() == lines);
    assert(seq![line].drop_last() == Seq::<Seq<char>>::empty());
    assert(entries_of(Seq::empty()) == Seq::<Seq<char>>::empty());
}

/// A carriage return at the end of a line does not count.
pub proof fn carriage_return_does_not_count(field: Seq<char>, port: Seq<char>)
    requires
        forall|i: int| 0 <= i < field.len() ==> #[trigger] field[i] != ',',
        forall|i: int| 0 <= i < port.len() ==> #[trigger] port[i] != ',',
        port.len() > 0 ==> !white_space(port[0]) && !white_space(port.last()),
    ensures
        entry_of(field + seq![','] + port + seq!['\r']) == entry_of(field + seq![','] + port),
{
    let nothing = Seq::<char>::empty();
    field_is_plain(nothing, port, seq!['\r']);
    assert(nothing + port + seq!['\r'] == port + seq!['\r']);
    assert(nothing + port + nothing == port);
    first_two_fields(field, port + seq!['\r'], nothing);
    first_two_fields(field, port, nothing);
    assert(field.push(',') + (port + seq!['\r']) + nothing == field + seq![','] + port + seq!['\r']);
    assert(field.push(',') + port + nothing == field + seq![','] + port);
    trim_keeps_the_middle(nothing, port, seq!['\r']);
    trim_keeps_the_middle(nothing, port, nothing);
}

/// The code of the digit with the given value in the base64 alphabet for URLs.
pub open spec fn base64_code(value: int) -> int {
    if value < 26 {
        value + 65
    } else if value < 52 {
        value + 71
    } else if value < 62 {
        value - 4
    } else if value == 62 {
        45
    } else {
        95
    }
}

/// A digit has the code of its value.
proof fn digit_has_code(value: int)
    requires
        0 <= value < 64,
    ensures
        base64_digit(value) as int == base64_code(value),
{
}

/// The digits of six bits in three bytes.
proof fn bits_make_digits(a: int, b: int, c: int)
    requires
        0 <= a < 256,
        0 <= b < 256,
        0 <= c < 256,
    ensures
        (65536 * a + 256 * b + c) / 262144 == a / 4,
        (65536 * a + 256 * b + c) / 4096 % 64 == a % 4 * 16 + b / 16,
        (65536 * a + 256 * b + c) / 64 % 64 == b % 16 * 4 + c / 64,
        (65536 * a + 256 * b + c) % 64 == c % 64,
        0 <= a / 4 < 64,
        0 <= a % 4 * 16 + b / 16 < 64,
        0 <= b % 16 * 4 + c / 64 < 64,
{
    let bits = 65536 * a + 256 * b + c;
    assert(bits / 4096 == 16 * a + b / 16);
    assert(bits / 64 == 1024 * a + 4 * b + c / 64);
    assert((16 * a + b / 16) % 64 == a % 4 * 16 + b / 16);
    assert((1024 * a + 4 * b + c / 64) % 64 == b % 16 * 4 + c / 64);
}

/// Base64 writes every three bytes as four digits of six bits each, from the high bits on; at the end
/// the bits that are wanting are zero, and the digits that are wanting are equals signs.
pub proof fn base64_splits_bits(bytes: Seq<u8>, k: int)
    requires
        0 <= 3 * k < bytes.len(),
    ensures
        ({
            let text = base64_url(bytes);
            let a = bytes[3 * k];
            let b = if 3 * k + 1 < bytes.len() {
                bytes[3 * k + 1]
            } else {
                0
            };
            let c = if 3 * k + 2 < bytes.len() {
                bytes[3 * k + 2]
            } else {
                0
            };
            &&& text.len() == 4 * ((bytes.len() + 2) / 3)
            &&& text[4 * k] as int == base64_code(a as int / 4)
            &&& text[4 * k + 1] as int == base64_code(a as int % 4 * 16 + b as int / 16)
            &&& text[4 * k + 2] as int == if 3 * k + 1 < bytes.len() {
                base64_code(b as int % 16 * 4 + c as int / 64)
            } else {
                61
            }
            &&& text[4 * k + 3] as int == if 3 * k + 2 < bytes.len() {
                base64_code(c as int % 64)
            } else {
                61
            }
        }),
{
    let text = base64_url(bytes);
    assert(4 * k + 3 < text.len());
    assert(text[4 * k] == base64_char(bytes, 4 * k));
    assert(text[4 * k + 1] == base64_char(bytes, 4 * k + 1));
    assert(text[4 * k + 2] == base64_char(bytes, 4 * k + 2));
    assert(text[4 * k + 3] == base64_char(bytes, 4 * k + 3));
    let a = bytes[3 * k] as int;
    let b = byte_at(bytes, 3 * k + 1);
    let c = byte_at(bytes, 3 * k + 2);
    bits_make_digits(a, b, c);
    digit_has_code(a / 4);
    digit_has_code(a % 4 * 16 + b / 16);
    digit_has_code(b % 16 * 4 + c / 64);
    digit_has_code(c % 64);
    assert((4 * k) / 4 == k && (4 * k + 1) / 4 == k && (4 * k + 2) / 4 == k && (4 * k + 3) / 4 == k);
    assert((4 * k) % 4 == 0 && (4 * k + 1) % 4 == 1 && (4 * k + 2) % 4 == 2 && (4 * k + 3) % 4 == 3);
}

/// The path of a link is a slash and the proxy with its colons as hyphens.
pub proof fn link_path_is_the_proxy(proxy: Seq<char>, i: int)
    requires
        0 <= i < proxy.len(),
    ensures
        link_path(proxy).len() == proxy.len() + 1,
        link_path(proxy)[0] == '/',
        link_path(proxy)[i + 1] == if proxy[i] == ':' {
            '-'
        } else {
            proxy[i]
        },
{
}

/// A link tells these fourteen things and no other.
pub proof fn link_tells_fourteen_things(
    config: ConfigView,
    sni: Seq<char>,
    proxy: Seq<char>,
    name: Seq<char>,
)
    ensures
        ({
            let members = link_members(config, sni, proxy);
            &&& members.contains_key(name) <==> {
                ||| name == "v"@
                ||| name == "ps"@
                ||| name == "add"@
                ||| name == "port"@
                ||| name == "id"@
                ||| name == "aid"@
                ||| name == "scy"@
                ||| name == "net"@
                ||| name == "type"@
                ||| name == "host"@
                ||| name == "path"@
                ||| name == "tls"@
                ||| name == "sni"@
                ||| name == "alpn"@
            }
            &&& members["v"@] == JsonMember::Text("2"@)
            &&& members["ps"@] == JsonMember::Text("tunl"@)
            &&& members["add"@] == JsonMember::Text(config.host)
            &&& members["port"@] == JsonMember::Number(443)
            &&& members["id"@] == JsonMember::Text(uuid_text(config.uuid))
            &&& members["aid"@] == JsonMember::Text("0"@)
            &&& members["scy"@] == JsonMember::Text("auto"@)
            &&& members["net"@] == JsonMember::Text("ws"@)
            &&& members["type"@] == JsonMember::Text("none"@)
            &&& members["host"@] == JsonMember::Text(config.host)
            &&& members["path"@] == JsonMember::Text(link_path(proxy))
            &&& members["tls"@] == JsonMember::Text("tls"@)
            &&& members["sni"@] == JsonMember::Text(sni)
            &&& members["alpn"@] == JsonMember::Text(""@)
        }),
{
    reveal_strlit("v");
    assert("v"@.len() == 1);
    reveal_strlit("ps");
    assert("ps"@.len() == 2);
    reveal_strlit("add");
    assert("add"@.len() == 3);
    reveal_strlit("port");
    assert("port"@.len() == 4);
    reveal_strlit("id");
    assert("id"@.len() == 2);
    reveal_strlit("aid");
    assert("aid"@.len() == 3);
    reveal_strlit("scy");
    assert("scy"@.len() == 3);
    reveal_strlit("net");
    assert("net"@.len() == 3);
    reveal_strlit("type");
    assert("type"@.len() == 4);
    reveal_strlit("host");
    assert("host"@.len() == 4);
    reveal_strlit("path");
    assert("path"@.len() == 4);
    reveal_strlit("tls");
    assert("tls"@.len() == 3);
    reveal_strlit("sni");
    assert("sni"@.len() == 3);
    reveal_strlit("alpn");
    assert("alpn"@.len() == 4);
    assert("ps"@[0] != "id"@[0]);
    assert("add"@[1] != "aid"@[1]);
    assert("add"@[0] != "scy"@[0]);
    assert("add"@[0] != "net"@[0]);
    assert("add"@[0] != "tls"@[0]);
    assert("add"@[0] != "sni"@[0]);
    assert("port"@[0] != "type"@[0]);
    assert("port"@[0] != "host"@[0]);
    assert("port"@[1] != "path"@[1]);
    assert("port"@[0] != "alpn"@[0]);
    assert("aid"@[0] != "scy"@[0]);
    assert("aid"@[0] != "net"@[0]);
    assert("aid"@[0] != "tls"@[0]);
    assert("aid"@[0] != "sni"@[0]);
    assert("scy"@[0] != "net"@[0]);
    assert("scy"@[0] != "tls"@[0]);
    assert("scy"@[1] != "sni"@[1]);
    assert("net"@[0] != "tls"@[0]);
    assert("net"@[0] != "sni"@[0]);
    assert("type"@[0] != "host"@[0]);
    assert("type"@[0] != "path"@[0]);
    assert("type"@[0] != "alpn"@[0]);
    assert("host"@[0] != "path"@[0]);
    assert("host"@[0] != "alpn"@[0]);
    assert("path"@[0] != "alpn"@[0]);
    assert("tls"@[0] != "sni"@[0]);
}

/// An answer gives the link as base64 of the JSON text behind `vmess://`, the hint at other uses, and
/// the server name and the proxy that are in the link.
pub proof fn answer_gives_link_sni_and_proxy(config: ConfigView, sni: Seq<char>, proxy: Seq<char>)
    ensures
        reply_of(config, sni, proxy).vmess == "vmess://"@ + base64_url(
            encode_utf8(json_text(link_members(config, sni, proxy))),
        ),
        reply_of(config, sni, proxy).info == "Use /IP:PORT or /IP-PORT for WebSocket tunnel"@,
        reply_of(config, sni, proxy).sni_used == sni,
        reply_of(config, sni, proxy).proxy_used == proxy,
{
}

/// An answer is sent as an object of its four parts under their names and nothing else.
pub proof fn answer_is_sent_by_name(reply: LinkReplyView, name: Seq<char>)
    ensures
        reply_members(reply).contains_key(name) <==> ({
            ||| name == "vmess"@
            ||| name == "info"@
            ||| name == "sni_used"@
            ||| name == "proxy_used"@
        }),
        reply_members(reply)["vmess"@] == JsonMember::Text(reply.vmess),
        reply_members(reply)["info"@] == JsonMember::Text(reply.info),
        reply_members(reply)["sni_used"@] == JsonMember::Text(reply.sni_used),
        reply_members(reply)["proxy_used"@] == JsonMember::Text(reply.proxy_used),
{
    reveal_strlit("vmess");
    assert("vmess"@.len() == 5);
    reveal_strlit("info");
    assert("info"@.len() == 4);
    reveal_strlit("sni_used");
    assert("sni_used"@.len() == 8);
    reveal_strlit("proxy_used");
    assert("proxy_used"@.len() == 10);
}

/// A query parameter has the value that stands with the first occurrence of its name.
pub proof fn first_parameter_counts(pairs: Seq<(Seq<char>, Seq<char>)>, name: Seq<char>, i: int)
    requires
        0 <= i <= pairs.len(),
        forall|j: int| 0 <= j < i ==> (#[trigger] pairs[j]).0 != name,
        i < pairs.len() ==> pairs[i].0 == name,
    ensures
        value_of(pairs, name) == if i < pairs.len() {
            Some(pairs[i].1)
        } else {
            None
        },
    decreases pairs.len(),
{
    if pairs.len() > 0 && i > 0 {
        let rest = pairs.skip(1);
        assert forall|j: int| 0 <= j < i - 1 implies (#[trigger] rest[j]).0 != name by {
            assert(rest[j] == pairs[j + 1]);
        }
        assert(pairs[0].0 != name);
        first_parameter_counts(rest, name, i - 1);
    }
}

/// The server name of a link is the one of the query, or the default where the query has none, whatever
/// the query says of a proxy and whatever byte was drawn.
pub proof fn sni_does_not_depend_on_the_proxy(
    config: ConfigView,
    default_sni: Seq<char>,
    pairs: Seq<(Seq<char>, Seq<char>)>,
    list: Seq<Seq<char>>,
    random: Option<u8>,
)
    ensures
        link_outcome(config, default_sni, pairs, list, random) matches Ok(reply) ==> match value_of(
            pairs,
            "sni"@,
        ) {
            Some(sni) => reply == reply_of(config, sni, reply.proxy_used),
            None => reply == reply_of(config, default_sni, reply.proxy_used),
        },
{
}

/// The proxy of a link is the one of the query, which must have the form of one; where the query names
/// none, it is the one of the list at the place that the drawn byte points to, counted round.
pub proof fn proxy_is_queried_or_drawn(
    config: ConfigView,
    default_sni: Seq<char>,
    pairs: Seq<(Seq<char>, Seq<char>)>,
    list: Seq<Seq<char>>,
    random: Option<u8>,
    rounds: nat,
    at: int,
)
    ensures
        ({
            let outcome = link_outcome(config, default_sni, pairs, list, random);
            match (value_of(pairs, "proxy"@), random) {
                (Some(proxy), _) => if proxy_parts(proxy) is Some {
                    outcome matches Ok(reply) && reply.proxy_used == proxy
                } else {
                    outcome == Err::<LinkReplyView, TunlError>(TunlError::InvalidProxyQuery)
                },
                (None, None) => outcome == Err::<LinkReplyView, TunlError>(TunlError::RandomFailed),
                (None, Some(byte)) => 0 <= at < list.len() && byte == rounds * list.len() + at ==> (
                outcome matches Ok(reply) && reply.proxy_used == list[at]),
            }
        }),
{
    if let Some(byte) = random {
        if 0 <= at < list.len() && byte == rounds * list.len() + at {
            let count = list.len() as int;
            assert(byte as int % count == at) by (nonlinear_arith)
                requires
                    0 <= at < count,
                    byte as int == rounds * count + at,
            ;
        }
    }
}

} // verus!
