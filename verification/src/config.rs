//! The configuration of the worker.

use crate::common::text::{hex_digit_value, is_hex_digit, DIGITS};
use uuid::Uuid;
use vstd::prelude::*;

verus! {

/// Where the proxy list is fetched from unless the environment names another place.
pub const DEFAULT_PROXY_LIST_URL: &'static str =
    "https://raw.githubusercontent.com/ziyosen/hompage/main/ProxyList%20(1)%20(1).txt";

/// The port of the fallback proxy until a request names another.
pub const DEFAULT_PROXY_PORT: u16 = 443;

/// What a request is served with.
pub struct Config {
    /// The user that may open tunnels, as the sixteen bytes of a UUID.
    pub uuid: [u8; 16],
    /// The host name of the worker.
    pub host: String,
    /// Where the proxy list is fetched from.
    pub proxy_list_url: String,
    /// The address of the fallback proxy.
    pub proxy_addr: String,
    /// The port of the fallback proxy.
    pub proxy_port: u16,
}

/// The contents of a [`Config`].
pub ghost struct ConfigView {
    pub uuid: Seq<u8>,
    pub host: Seq<char>,
    pub proxy_list_url: Seq<char>,
    pub proxy_addr: Seq<char>,
    pub proxy_port: u16,
}

impl View for Config {
    type V = ConfigView;

    open spec fn view(&self) -> ConfigView {
        ConfigView {
            uuid: self.uuid@,
            host: self.host@,
            proxy_list_url: self.proxy_list_url@,
            proxy_addr: self.proxy_addr@,
            proxy_port: self.proxy_port,
        }
    }
}

/// A character with ASCII capitals made small.
pub open spec fn ascii_lower(c: char) -> char {
    if 'A' <= c <= 'Z' {
        (c as u32 + 32) as char
    } else {
        c
    }
}

/// The 32 digits of a UUID written in five groups; none where the hyphens are not in place.
pub open spec fn without_hyphens(text: Seq<char>) -> Option<Seq<char>> {
    if text.len() == 36 && text[8] == '-' && text[13] == '-' && text[18] == '-' && text[23] == '-' {
        Some(
            text.subrange(0, 8) + text.subrange(9, 13) + text.subrange(14, 18) + text.subrange(
                19,
                23,
            ) + text.subrange(24, 36),
        )
    } else {
        None
    }
}

/// The 32 digits of a UUID in any form: plain, hyphenated, in braces or as a URN.
pub open spec fn uuid_digits(text: Seq<char>) -> Option<Seq<char>> {
    if text.len() == 32 {
        Some(text)
    } else if text.len() == 36 {
        without_hyphens(text)
    } else if text.len() == 38 && text[0] == '{' && text[37] == '}' {
        without_hyphens(text.subrange(1, 37))
    } else if text.len() == 45 && text.take(9).map_values(|c: char| ascii_lower(c))
        == "urn:uuid:"@ {
        without_hyphens(text.skip(9))
    } else {
        None
    }
}

/// The UUID that a text spells, if it spells one.
pub open spec fn parsed_uuid(text: Seq<char>) -> Option<Seq<u8>> {
    match uuid_digits(text) {
        Some(digits) => if forall|i: int|
            0 <= i < digits.len() ==> is_hex_digit(#[trigger] digits[i]) {
            Some(
                Seq::new(
                    16,
                    |i: int|
                        (16 * hex_digit_value(digits[2 * i]) + hex_digit_value(
                            digits[2 * i + 1],
                        )) as u8,
                ),
            )
        } else {
            None
        },
        None => None,
    }
}

/// The bytes of a UUID in lower-case hexadecimal.
pub open spec fn hex_of(bytes: Seq<u8>) -> Seq<char> {
    Seq::new(
        2 * bytes.len(),
        |i: int| DIGITS@[if i % 2 == 0 { bytes[i / 2] / 16 } else { bytes[i / 2] % 16 } as int],
    )
}

/// The hyphenated text of a UUID.
pub open spec fn uuid_text(uuid: Seq<u8>) -> Seq<char> {
    let hex = hex_of(uuid);
    hex.subrange(0, 8).push('-') + hex.subrange(8, 12).push('-') + hex.subrange(12, 16).push('-')
        + hex.subrange(16, 20).push('-') + hex.subrange(20, 32)
}

/// `Uuid::parse_str`, which reads a UUID in any of its textual forms.
#[verifier::external_body]
fn parse_uuid(text: &str) -> (uuid: Option<[u8; 16]>)
    ensures
        match uuid {
            Some(bytes) => parsed_uuid(text@) == Some(bytes@),
            None => parsed_uuid(text@) is None,
        },
{
    match Uuid::parse_str(text) {
        Ok(uuid) => Some(uuid.into_bytes()),
        Err(_) => None,
    }
}

/// `Uuid::to_string`, which writes a UUID hyphenated and in lower case.
#[verifier::external_body]
pub(crate) fn write_uuid(uuid: &[u8; 16]) -> (text: String)
    ensures
        text@ == uuid_text(uuid@),
{
    Uuid::from_bytes(*uuid).to_string()
}

impl Config {
    /// The configuration given by the environment: a UUID that cannot be read counts as all
    /// zeros, and until a request names a proxy, the host itself stands for it.
    pub fn from_vars(uuid: &str, host: Option<String>, proxy_list_url: Option<String>) -> (config:
        Config)
        ensures
            config@ == (ConfigView {
                uuid: match parsed_uuid(uuid@) {
                    Some(bytes) => bytes,
                    None => Seq::new(16, |i: int| 0u8),
                },
                host: match host {
                    Some(host) => host@,
                    None => Seq::empty(),
                },
                proxy_list_url: match proxy_list_url {
                    Some(url) => url@,
                    None => DEFAULT_PROXY_LIST_URL@,
                },
                proxy_addr: config@.host,
                proxy_port: DEFAULT_PROXY_PORT,
            }),
            config.proxy_port == 443,
            proxy_list_url is None ==> config@.proxy_list_url
                == "https://raw.githubusercontent.com/ziyosen/hompage/main/ProxyList%20(1)%20(1).txt"@,
    {
        let bytes = match parse_uuid(uuid) {
            Some(bytes) => bytes,
            None => [0u8; 16],
        };
        let host = match host {
            Some(host) => host,
            None => String::new(),
        };
        let proxy_list_url = match proxy_list_url {
            Some(url) => url,
            None => DEFAULT_PROXY_LIST_URL.to_owned(),
        };
        let proxy_addr = host.clone();
        let config = Config {
            uuid: bytes,
            host,
            proxy_list_url,
            proxy_addr,
            proxy_port: DEFAULT_PROXY_PORT,
        };
        assert(parsed_uuid(uuid@) is None ==> config.uuid@ == Seq::new(16, |i: int| 0u8));
        config
    }
}

/// The server name of a link that names none: the one of the environment, or else the host.
pub fn default_sni(sni_domain: Option<String>, host: &str) -> (sni: String)
    ensures
        sni@ == match sni_domain {
            Some(domain) => domain@,
            None => host@,
        },
{
    match sni_domain {
        Some(domain) => domain,
        None => host.to_owned(),
    }
}

/// The text of a UUID reads back as that UUID.
pub proof fn uuid_text_reads_back(uuid: Seq<u8>)
    requires
        uuid.len() == 16,
    ensures
        parsed_uuid(uuid_text(uuid)) == Some(uuid),
{
    let text = uuid_text(uuid);
    let digits = hex_of(uuid);
    assert(without_hyphens(text)->0 =~= digits);
    assert forall|i: int| 0 <= i < 32 implies is_hex_digit(#[trigger] digits[i]) by {
        let d = if i % 2 == 0 {
            uuid[i / 2] / 16
        } else {
            uuid[i / 2] % 16
        };
        assert(digits[i] == DIGITS@[d as int]);
    }
    assert forall|i: int| 0 <= i < 16 implies 16 * hex_digit_value(digits[2 * i]) + hex_digit_value(
        digits[2 * i + 1],
    ) == #[trigger] uuid[i] by {
        assert(digits[2 * i] == DIGITS@[(uuid[i] / 16) as int]);
        assert(digits[2 * i + 1] == DIGITS@[(uuid[i] % 16) as int]);
    }
    assert(parsed_uuid(text)->0 =~= uuid);
}

/// A configuration holds what each of its fields holds.
pub proof fn config_view_is_its_fields(config: Config)
    ensures
        config@.uuid == config.uuid@,
        config@.host == config.host@,
        config@.proxy_list_url == config.proxy_list_url@,
        config@.proxy_addr == config.proxy_addr@,
        config@.proxy_port == config.proxy_port,
{
}

/// Thirty-two hexadecimal digits spell a UUID, each two of them a byte, the high one first; with any
/// other character among them they spell none.
pub proof fn uuid_is_spelled_by_digits(digits: Seq<char>)
    requires
        digits.len() == 32,
    ensures
        parsed_uuid(digits) is Some <==> forall|i: int|
            0 <= i < 32 ==> (48 <= #[trigger] digits[i] as int <= 57 || 65 <= digits[i] as int <= 70
                || 97 <= digits[i] as int <= 102),
        parsed_uuid(digits) matches Some(bytes) ==> {
            &&& bytes.len() == 16
            &&& forall|i: int|
                0 <= i < 16 ==> #[trigger] bytes[i] as int == 16 * hex_digit_value(digits[2 * i])
                    + hex_digit_value(digits[2 * i + 1])
        },
{
    assert(forall|i: int| 0 <= i < 32 ==> (is_hex_digit(#[trigger] digits[i]) <==> (48
        <= digits[i] as int <= 57 || 65 <= digits[i] as int <= 70 || 97 <= digits[i] as int <= 102)));
    if let Some(bytes) = parsed_uuid(digits) {
        assert(forall|i: int| 0 <= i < 32 ==> is_hex_digit(#[trigger] digits[i]));
        assert forall|i: int| 0 <= i < 16 implies #[trigger] bytes[i] as int == 16 * hex_digit_value(
            digits[2 * i],
        ) + hex_digit_value(digits[2 * i + 1]) by {
            assert(is_hex_digit(digits[2 * i]) && is_hex_digit(digits[2 * i + 1]));
        }
    }
}

/// Two digits that differ in case only spell the same.
pub proof fn uuid_ignores_case(digits: Seq<char>, other: Seq<char>)
    requires
        digits.len() == 32,
        other.len() == 32,
        forall|i: int|
            0 <= i < 32 ==> (#[trigger] digits[i] == other[i] || (65 <= digits[i] as int <= 70
                && other[i] as int == digits[i] as int + 32)),
    ensures
        parsed_uuid(digits) == parsed_uuid(other),
{
    assert(forall|i: int| 0 <= i < 32 ==> (is_hex_digit(#[trigger] digits[i]) <==> is_hex_digit(other[i])));
    assert(forall|i: int|
        0 <= i < 32 && is_hex_digit(#[trigger] digits[i]) ==> hex_digit_value(digits[i]) == hex_digit_value(
            other[i],
        ));
    uuid_is_spelled_by_digits(digits);
    uuid_is_spelled_by_digits(other);
    if parsed_uuid(digits) is Some {
        assert forall|i: int| 0 <= i < 32 implies is_hex_digit(#[trigger] other[i]) by {
            assert(is_hex_digit(digits[i]));
        }
        let one = parsed_uuid(digits)->0;
        let two = parsed_uuid(other)->0;
        assert forall|i: int| 0 <= i < 16 implies #[trigger] one[i] == two[i] by {
            assert(is_hex_digit(digits[2 * i]) && is_hex_digit(digits[2 * i + 1]));
            assert(two[i] as int == 16 * hex_digit_value(other[2 * i]) + hex_digit_value(
                other[2 * i + 1],
            ));
        }
        assert(one =~= two);
    } else {
        let i = choose|i: int| 0 <= i < 32 && !is_hex_digit(#[trigger] digits[i]);
        assert(!is_hex_digit(other[i]));
    }
}

/// A UUID in five groups with hyphens between them spells what its digits spell; so it does in braces,
/// and behind `urn:uuid:` in any case.
pub proof fn uuid_forms_spell_the_same(
    a: Seq<char>,
    b: Seq<char>,
    c: Seq<char>,
    d: Seq<char>,
    e: Seq<char>,
    prefix: Seq<char>,
)
    requires
        a.len() == 8,
        b.len() == 4,
        c.len() == 4,
        d.len() == 4,
        e.len() == 12,
        prefix.len() == 9,
        forall|i: int|
            0 <= i < 9 ==> (#[trigger] prefix[i] == "urn:uuid:"@[i] || (65 <= prefix[i] as int <= 90
                && prefix[i] as int + 32 == "urn:uuid:"@[i] as int)),
    ensures
        ({
            let digits = a + b + c + d + e;
            let hyphenated = a + seq!['-'] + b + seq!['-'] + c + seq!['-'] + d + seq!['-'] + e;
            &&& parsed_uuid(hyphenated) == parsed_uuid(digits)
            &&& parsed_uuid(seq!['{'] + hyphenated + seq!['}']) == parsed_uuid(digits)
            &&& parsed_uuid(prefix + hyphenated) == parsed_uuid(digits)
        }),
{
    let digits = a + b + c + d + e;
    let hyphenated = a + seq!['-'] + b + seq!['-'] + c + seq!['-'] + d + seq!['-'] + e;
    assert(without_hyphens(hyphenated)->0 =~= digits);
    let braced = seq!['{'] + hyphenated + seq!['}'];
    assert(braced.subrange(1, 37) == hyphenated);
    let urn = prefix + hyphenated;
    reveal_strlit("urn:uuid:");
    assert(urn.take(9) == prefix);
    assert(urn.skip(9) == hyphenated);
    assert forall|i: int| 0 <= i < 9 implies ascii_lower(#[trigger] prefix[i]) == "urn:uuid:"@[i] by {
        let c = prefix[i];
        if 65 <= c as int <= 90 && c as int + 32 == "urn:uuid:"@[i] as int {
            assert(ascii_lower(c) == (c as u32 + 32) as char);
        } else {
            assert(c == "urn:uuid:"@[i]);
        }
    }
    assert(prefix.map_values(|c: char| ascii_lower(c)) =~= "urn:uuid:"@);
}

/// No other text spells a UUID: not one of another length, nor one without its hyphens, its braces or
/// its prefix in place.
pub proof fn other_texts_spell_no_uuid(text: Seq<char>, at: int)
    requires
        at == 0 || at == 1 || at == 9,
    ensures
        parsed_uuid(text) is Some ==> (text.len() == 32 || text.len() == 36 || text.len() == 38
            || text.len() == 45),
        parsed_uuid(text) is Some && text.len() == 38 ==> text[0] == '{' && text[37] == '}',
        parsed_uuid(text) is Some && (text.len() == 36 && at == 0 || text.len() == 38 && at == 1
            || text.len() == 45 && at == 9) ==> text[at + 8] == '-' && text[at + 13] == '-'
            && text[at + 18] == '-' && text[at + 23] == '-',
        parsed_uuid(text) is Some && text.len() == 45 ==> forall|i: int|
            0 <= i < 9 ==> (#[trigger] text[i] == "urn:uuid:"@[i] || (65 <= text[i] as int <= 90
                && text[i] as int + 32 == "urn:uuid:"@[i] as int)),
{
    if parsed_uuid(text) is Some && text.len() == 45 {
        reveal_strlit("urn:uuid:");
        let lower = text.take(9).map_values(|c: char| ascii_lower(c));
        assert(lower == "urn:uuid:"@);
        assert forall|i: int| 0 <= i < 9 implies (#[trigger] text[i] == "urn:uuid:"@[i] || (65
            <= text[i] as int <= 90 && text[i] as int + 32 == "urn:uuid:"@[i] as int)) by {
            assert(lower[i] == ascii_lower(text[i]));
        }
    }
}

/// A UUID is written in small hexadecimal digits, two for each byte with the high one first, with
/// hyphens behind the fourth, sixth, eighth and tenth byte.
pub proof fn uuid_is_written_in_groups(uuid: Seq<u8>)
    requires
        uuid.len() == 16,
    ensures
        uuid_text(uuid).len() == 36,
        uuid_text(uuid)[8] == '-',
        uuid_text(uuid)[13] == '-',
        uuid_text(uuid)[18] == '-',
        uuid_text(uuid)[23] == '-',
        forall|i: int|
            0 <= i < 16 ==> ({
                let high = #[trigger] uuid[i] / 16;
                let low = uuid[i] % 16;
                let at = if i < 4 {
                    2 * i
                } else if i < 6 {
                    2 * i + 1
                } else if i < 8 {
                    2 * i + 2
                } else if i < 10 {
                    2 * i + 3
                } else {
                    2 * i + 4
                };
                &&& uuid_text(uuid)[at] as int == if high < 10 {
                    48 + high
                } else {
                    87 + high
                }
                &&& uuid_text(uuid)[at + 1] as int == if low < 10 {
                    48 + low
                } else {
                    87 + low
                }
            }),
{
    let hex = hex_of(uuid);
    let text = uuid_text(uuid);
    assert forall|i: int| 0 <= i < 16 implies ({
        let high = #[trigger] uuid[i] / 16;
        let low = uuid[i] % 16;
        let at = if i < 4 {
            2 * i
        } else if i < 6 {
            2 * i + 1
        } else if i < 8 {
            2 * i + 2
        } else if i < 10 {
            2 * i + 3
        } else {
            2 * i + 4
        };
        &&& text[at] as int == if high < 10 {
            48 + high
        } else {
            87 + high
        }
        &&& text[at + 1] as int == if low < 10 {
            48 + low
        } else {
            87 + low
        }
    }) by {
        assert(hex[2 * i] == DIGITS@[(uuid[i] / 16) as int]);
        assert(hex[2 * i + 1] == DIGITS@[(uuid[i] % 16) as int]);
    }
}

} // verus!
