//! The tunnel route: a proxy address in the path, and the upgrade to a socket.

use crate::common::text::{
    chars_of, joined, numeral_is_positional, numeral_of, pieces_of, split, split_ends_with_last_piece,
    split_joins_back, split_keeps_one_piece, split_of, text_of,
};
use crate::config::{Config, ConfigView};
use crate::error::TunlError;
use vstd::prelude::*;
use vstd::slice::{slice_subrange, slice_to_vec};

verus! {

/// Where a request goes that does not ask for a socket.
pub const REDIRECT_URL: &'static str = "https://example.com";

/// Whether the class `\d` of the `regex` crate, the decimal digits of Unicode, holds a character.
pub uninterp spec fn unicode_digit(c: char) -> bool;

/// `Regex::is_match` of `^\d$` on a single character: whether it is in the class of digits.
#[verifier::external_body]
fn is_unicode_digit(c: char) -> (digit: bool)
    ensures
        digit == unicode_digit(c),
{
    regex::Regex::new(r"^\d$").unwrap().is_match(c.encode_utf8(&mut [0; 4]))
}

/// Whether a character is a decimal digit.
pub open spec fn digit(c: char) -> bool {
    if c <= '\u{7f}' {
        '0' <= c <= '9'
    } else {
        unicode_digit(c)
    }
}

/// Tests for a decimal digit.
pub fn is_digit(c: char) -> (yes: bool)
    ensures
        yes == digit(c),
{
    if c <= '\u{7f}' {
        '0' <= c && c <= '9'
    } else {
        is_unicode_digit(c)
    }
}

/// Whether a text consists of one to `most` digits.
pub open spec fn is_number(text: Seq<char>, most: nat) -> bool {
    1 <= text.len() <= most && forall|i: int| 0 <= i < text.len() ==> digit(#[trigger] text[i])
}

/// Whether a text has the form of an IPv4 address: four numbers of up to three digits between dots.
pub open spec fn is_address(text: Seq<char>) -> bool {
    let numbers = split_of(text, '.');
    numbers.len() == 4 && forall|i: int| 0 <= i < 4 ==> is_number(#[trigger] numbers[i], 3)
}

/// Whether a character may stand between address and port.
pub open spec fn separator(c: char) -> bool {
    c == ':' || c == '-'
}

/// Whether a text is an address, a separator at index `at`, and a port of up to five digits.
pub open spec fn divides(text: Seq<char>, at: int) -> bool {
    &&& 0 <= at < text.len()
    &&& is_address(text.take(at))
    &&& separator(text[at])
    &&& is_number(text.skip(at + 1), 5)
}

/// The index of the first separator from index `i` on, or the length of the text.
pub open spec fn first_separator(text: Seq<char>, i: int) -> int
    decreases text.len() - i,
{
    if i >= text.len() || separator(text[i]) {
        i
    } else {
        first_separator(text, i + 1)
    }
}

/// The address and the port in a text of the form `IP:PORT` or `IP-PORT`.
pub open spec fn proxy_parts(text: Seq<char>) -> Option<(Seq<char>, Seq<char>)> {
    let at = first_separator(text, 0);
    if divides(text, at) {
        Some((text.take(at), text.skip(at + 1)))
    } else {
        None
    }
}

/// The value of a text of ASCII digits.
pub open spec fn decimal_value(text: Seq<char>) -> nat
    decreases text.len(),
{
    if text.len() == 0 {
        0
    } else {
        10 * decimal_value(text.drop_last()) + (text.last() as int - '0' as int) as nat
    }
}

/// The port that a text of digits names. Digits outside ASCII name none.
pub open spec fn port_of(text: Seq<char>) -> Option<u16> {
    if (forall|i: int| 0 <= i < text.len() ==> '0' <= #[trigger] text[i] <= '9') && decimal_value(
        text,
    ) <= u16::MAX {
        Some(decimal_value(text) as u16)
    } else {
        None
    }
}

/// The proxy that a path names.
pub open spec fn proxy_target(text: Seq<char>) -> Result<(Seq<char>, u16), TunlError> {
    match proxy_parts(text) {
        Some((addr, port)) => match port_of(port) {
            Some(port) => Ok((addr, port)),
            None => Err(TunlError::InvalidPort),
        },
        None => Err(TunlError::InvalidProxyPath),
    }
}

/// Tests for one to `most` digits.
fn is_number_text(text: &[char], most: usize) -> (yes: bool)
    ensures
        yes == is_number(text@, most as nat),
{
    if text.len() < 1 || text.len() > most {
        return false;
    }
    for i in 0..text.len()
        invariant
            forall|j: int| 0 <= j < i ==> digit(#[trigger] text@[j]),
    {
        if !is_digit(text[i]) {
            return false;
        }
    }
    true
}

/// Tests for the form of an IPv4 address.
fn is_address_text(text: &[char]) -> (yes: bool)
    ensures
        yes == is_address(text@),
{
    let numbers = split(text, '.');
    let ghost expected = split_of(text@, '.');
    assert(expected.len() == numbers@.len());
    if numbers.len() != 4 {
        return false;
    }
    for i in 0..4usize
        invariant
            numbers@.len() == 4,
            pieces_of(numbers@) == expected,
            expected == split_of(text@, '.'),
            forall|j: int| 0 <= j < i ==> is_number(#[trigger] expected[j], 3),
    {
        assert(expected[i as int] == numbers@[i as int]@);
        if !is_number_text(numbers[i].as_slice(), 3) {
            return false;
        }
    }
    true
}

/// Splits a text of the form `IP:PORT` or `IP-PORT` into address and port.
fn split_proxy(text: &[char]) -> (parts: Option<(Vec<char>, Vec<char>)>)
    ensures
        match proxy_parts(text@) {
            Some((addr, port)) => parts matches Some((a, p)) && a@ == addr && p@ == port,
            None => parts is None,
        },
{
    let mut at: usize = 0;
    while at < text.len() && !(text[at] == ':' || text[at] == '-')
        invariant
            at <= text@.len(),
            first_separator(text@, at as int) == first_separator(text@, 0),
        decreases text@.len() - at,
    {
        at = at + 1;
    }
    if at >= text.len() {
        return None;
    }
    let addr = slice_subrange(text, 0, at);
    let port = slice_subrange(text, at + 1, text.len());
    assert(addr@ == text@.take(at as int));
    assert(port@ == text@.skip(at + 1));
    if is_address_text(addr) && is_number_text(port, 5) {
        Some((slice_to_vec(addr), slice_to_vec(port)))
    } else {
        None
    }
}

/// Whether a text has the form of a proxy address.
pub fn is_proxy_address(text: &str) -> (yes: bool)
    ensures
        yes == (proxy_parts(text@) is Some),
{
    split_proxy(chars_of(text).as_slice()).is_some()
}

/// Reads a port of at most five digits.
fn read_port(text: &[char]) -> (port: Option<u16>)
    requires
        text@.len() <= 5,
    ensures
        port == port_of(text@),
{
    let mut value: u32 = 0;
    for i in 0..text.len()
        invariant
            text@.len() <= 5,
            forall|j: int| 0 <= j < i ==> '0' <= #[trigger] text@[j] <= '9',
            value == decimal_value(text@.take(i as int)),
            i == 0 ==> value < 1,
            i == 1 ==> value < 10,
            i == 2 ==> value < 100,
            i == 3 ==> value < 1000,
            i == 4 ==> value < 10000,
            i == 5 ==> value < 100000,
    {
        let c = text[i];
        if !('0' <= c && c <= '9') {
            assert(!('0' <= text@[i as int] <= '9'));
            return None;
        }
        assert(text@.take(i + 1).drop_last() == text@.take(i as int));
        value = 10 * value + (c as u32 - '0' as u32);
    }
    assert(text@.take(text@.len() as int) == text@);
    if value <= 65535 {
        Some(value as u16)
    } else {
        None
    }
}

/// Reads the proxy that a path names.
pub fn parse_proxyip(text: &str) -> (target: Result<(String, u16), TunlError>)
    ensures
        match proxy_target(text@) {
            Ok((addr, port)) => target matches Ok((a, p)) && a@ == addr && p == port,
            Err(error) => target == Err::<(String, u16), TunlError>(error),
        },
{
    match split_proxy(chars_of(text).as_slice()) {
        Some((addr, port)) => match read_port(port.as_slice()) {
            Some(port) => Ok((text_of(addr.as_slice()), port)),
            None => Err(TunlError::InvalidPort),
        },
        None => Err(TunlError::InvalidProxyPath),
    }
}

/// The configuration for a tunnel through the proxy that the path names.
pub fn tunnel_handler(config: Config, proxyip: &str) -> (tunnel: Result<Config, TunlError>)
    ensures
        match proxy_target(proxyip@) {
            Ok((addr, port)) => tunnel matches Ok(tunnel) && tunnel@ == (ConfigView {
                proxy_addr: addr,
                proxy_port: port,
                ..config@
            }),
            Err(error) => tunnel == Err::<Config, TunlError>(error),
        },
{
    let (proxy_addr, proxy_port) = parse_proxyip(proxyip)?;
    Ok(
        Config {
            uuid: config.uuid,
            host: config.host,
            proxy_list_url: config.proxy_list_url,
            proxy_addr,
            proxy_port,
        },
    )
}

/// How a request on the tunnel route is answered.
pub enum UpgradeReply {
    /// With a socket.
    Socket,
    /// With a redirection to this place.
    Redirect(&'static str),
}

/// Answers a request by the value of its `Upgrade` header: only `websocket` gets a socket.
pub fn upgrade_reply(upgrade: Option<String>) -> (reply: UpgradeReply)
    ensures
        reply is Socket <==> (upgrade matches Some(value) && value@ == "websocket"@),
        reply matches UpgradeReply::Redirect(url) ==> url@ == REDIRECT_URL@ && url@
            == "https://example.com"@,
{
    match upgrade {
        Some(value) => if value == "websocket".to_owned() {
            UpgradeReply::Socket
        } else {
            UpgradeReply::Redirect(REDIRECT_URL)
        },
        None => UpgradeReply::Redirect(REDIRECT_URL),
    }
}

/// The first separator is the one with none before it.
proof fn first_separator_stops(text: Seq<char>, i: int, at: int)
    requires
        0 <= i <= at < text.len(),
        separator(text[at]),
        forall|j: int| i <= j < at ==> !separator(#[trigger] text[j]),
    ensures
        first_separator(text, i) == at,
    decreases at - i,
{
    if i < at {
        assert(!separator(text[i]));
        first_separator_stops(text, i + 1, at);
    }
}

/// Every character of a text is a separator of its pieces or stands in one of them.
proof fn split_covers(text: Seq<char>, c: char, i: int) -> (place: (int, int))
    requires
        0 <= i < text.len(),
        text[i] != c,
    ensures
        0 <= place.0 < split_of(text, c).len(),
        0 <= place.1 < split_of(text, c)[place.0].len(),
        split_of(text, c)[place.0][place.1] == text[i],
    decreases text.len(),
{
    let front = text.drop_last();
    let pieces = split_of(front, c);
    crate::common::text::split_is_not_empty(front, c);
    if i == text.len() - 1 {
        (pieces.len() - 1, pieces.last().len() as int)
    } else {
        split_covers(front, c, i)
    }
}

/// An address holds digits and dots only, so no separator.
proof fn address_has_no_separator(text: Seq<char>, i: int)
    requires
        is_address(text),
        0 <= i < text.len(),
    ensures
        !separator(text[i]),
{
    if text[i] != '.' {
        let (piece, index) = split_covers(text, '.', i);
        let numbers = split_of(text, '.');
        assert(is_number(numbers[piece], 3));
        assert(digit(numbers[piece][index]));
    }
}

/// A text can be divided into address and port in one way only, and [`proxy_parts`] finds it.
pub proof fn proxy_parts_are_unique(text: Seq<char>, at: int)
    requires
        divides(text, at),
    ensures
        proxy_parts(text) == Some((text.take(at), text.skip(at + 1))),
{
    assert forall|j: int| 0 <= j < at implies !separator(#[trigger] text[j]) by {
        assert(text.take(at)[j] == text[j]);
        address_has_no_separator(text.take(at), j);
    }
    first_separator_stops(text, 0, at);
}

/// A text with its colons turned into hyphens.
pub open spec fn with_hyphens(text: Seq<char>) -> Seq<char> {
    text.map_values(
        |c: char|
            if c == ':' {
                '-'
            } else {
                c
            },
    )
}

/// Turning colons into hyphens moves no separator.
proof fn hyphens_keep_separators(text: Seq<char>, i: int)
    requires
        0 <= i <= text.len(),
    ensures
        first_separator(with_hyphens(text), i) == first_separator(text, i),
        i <= first_separator(text, i) <= text.len(),
        forall|j: int| i <= j < first_separator(text, i) ==> !separator(#[trigger] text[j]),
    decreases text.len() - i,
{
    if i < text.len() && !separator(text[i]) {
        hyphens_keep_separators(text, i + 1);
    }
}

/// A proxy address means the same whether its colon is written as a hyphen or not.
pub proof fn hyphens_keep_the_proxy(text: Seq<char>)
    ensures
        proxy_parts(with_hyphens(text)) == proxy_parts(text),
        proxy_target(with_hyphens(text)) == proxy_target(text),
{
    hyphens_keep_separators(text, 0);
    let other = with_hyphens(text);
    let at = first_separator(text, 0);
    assert(other.take(at) =~= text.take(at));
    if at < text.len() {
        let port = text.skip(at + 1);
        assert(other.skip(at + 1) =~= with_hyphens(port));
        if is_number(port, 5) {
            assert forall|i: int| 0 <= i < port.len() implies with_hyphens(port)[i] == #[trigger] port[i] by {
                assert(digit(port[i]));
            }
            assert(with_hyphens(port) =~= port);
        }
        if is_number(with_hyphens(port), 5) {
            assert forall|i: int| 0 <= i < port.len() implies with_hyphens(port)[i] == #[trigger] port[i] by {
                assert(digit(with_hyphens(port)[i]));
            }
            assert(with_hyphens(port) =~= port);
        }
    }
}

/// The digits are those of ASCII, and outside it those of the class `\d`.
pub proof fn digits_by_code(c: char)
    ensures
        c as int <= 127 ==> (digit(c) <==> 48 <= c as int <= 57),
        c as int > 127 ==> (digit(c) <==> unicode_digit(c)),
{
}

/// A number of digits holds neither a dot nor a separator.
proof fn number_is_plain(text: Seq<char>, most: nat)
    requires
        is_number(text, most),
    ensures
        forall|i: int| 0 <= i < text.len() ==> #[trigger] text[i] != '.',
{
    assert forall|i: int| 0 <= i < text.len() implies #[trigger] text[i] != '.' by {
        assert(digit(text[i]));
    }
}

/// Four numbers of one to three digits with dots between them, a colon or a hyphen, and one to five
/// digits: every such text is taken apart into what stands before and behind the colon or hyphen.
pub proof fn address_and_port_are_taken_apart(
    a: Seq<char>,
    b: Seq<char>,
    c: Seq<char>,
    d: Seq<char>,
    between: char,
    port: Seq<char>,
)
    requires
        1 <= a.len() <= 3,
        1 <= b.len() <= 3,
        1 <= c.len() <= 3,
        1 <= d.len() <= 3,
        1 <= port.len() <= 5,
        forall|i: int| 0 <= i < a.len() ==> digit(#[trigger] a[i]),
        forall|i: int| 0 <= i < b.len() ==> digit(#[trigger] b[i]),
        forall|i: int| 0 <= i < c.len() ==> digit(#[trigger] c[i]),
        forall|i: int| 0 <= i < d.len() ==> digit(#[trigger] d[i]),
        forall|i: int| 0 <= i < port.len() ==> digit(#[trigger] port[i]),
        between == ':' || between == '-',
    ensures
        ({
            let addr = a + seq!['.'] + b + seq!['.'] + c + seq!['.'] + d;
            &&& is_address(addr)
            &&& proxy_parts(addr + seq![between] + port) == Some((addr, port))
        }),
{
    let ab = a.push('.') + b;
    let abc = ab.push('.') + c;
    let addr = abc.push('.') + d;
    assert(addr == a + seq!['.'] + b + seq!['.'] + c + seq!['.'] + d);
    number_is_plain(a, 3);
    number_is_plain(b, 3);
    number_is_plain(c, 3);
    number_is_plain(d, 3);
    split_keeps_one_piece(a, '.');
    split_ends_with_last_piece(a, '.', b);
    split_ends_with_last_piece(ab, '.', c);
    split_ends_with_last_piece(abc, '.', d);
    assert(split_of(addr, '.') == seq![a, b, c, d]);
    let text = addr + seq![between] + port;
    let at = addr.len() as int;
    assert(text.take(at) == addr);
    assert(text[at] == between);
    assert(text.skip(at + 1) == port);
    assert(divides(text, at));
    proxy_parts_are_unique(text, at);
}

/// Nothing else is taken apart: where a text is, it is an address, a colon or a hyphen, and a port of
/// one to five digits, and the address is four numbers of one to three digits with dots between them,
/// which are the result.
pub proof fn taken_apart_is_address_and_port(text: Seq<char>) -> (numbers: Seq<Seq<char>>)
    requires
        proxy_parts(text) is Some,
    ensures
        ({
            let (addr, port) = proxy_parts(text)->0;
            &&& text == addr + seq![':'] + port || text == addr + seq!['-'] + port
            &&& 1 <= port.len() <= 5
            &&& forall|i: int| 0 <= i < port.len() ==> digit(#[trigger] port[i])
            &&& numbers.len() == 4
            &&& addr == numbers[0] + seq!['.'] + numbers[1] + seq!['.'] + numbers[2] + seq!['.']
                + numbers[3]
            &&& forall|i: int| 0 <= i < 4 ==> 1 <= (#[trigger] numbers[i]).len() <= 3
            &&& forall|i: int, j: int|
                0 <= i < 4 && 0 <= j < numbers[i].len() ==> digit(#[trigger] numbers[i][j])
        }),
{
    let at = first_separator(text, 0);
    let (addr, port) = proxy_parts(text)->0;
    let numbers = split_of(addr, '.');
    assert(text == addr + seq![text[at]] + port);
    split_joins_back(addr, '.');
    let three = numbers.drop_last();
    let two = three.drop_last();
    let one = two.drop_last();
    assert(joined(one, '.') == numbers[0]);
    assert(joined(two, '.') == joined(one, '.') + seq!['.'] + numbers[1]);
    assert(joined(three, '.') == joined(two, '.') + seq!['.'] + numbers[2]);
    assert(joined(numbers, '.') == joined(three, '.') + seq!['.'] + numbers[3]);
    assert forall|i: int| 0 <= i < 4 implies 1 <= (#[trigger] numbers[i]).len() <= 3 by {
        assert(is_number(numbers[i], 3));
    }
    assert forall|i: int, j: int| 0 <= i < 4 && 0 <= j < numbers[i].len() implies digit(
        #[trigger] numbers[i][j],
    ) by {
        assert(is_number(numbers[i], 3));
    }
    numbers
}

/// A port is read digit by digit: a further ASCII digit makes ten times the port and the digit, as long
/// as that fits 16 bits; any other character makes no port.
pub proof fn port_grows_by_digits(text: Seq<char>, c: char)
    ensures
        port_of(Seq::empty()) == Some(0u16),
        48 <= c as int <= 57 ==> port_of(text.push(c)) == match port_of(text) {
            Some(port) => if 10 * port + (c as int - 48) <= 65535 {
                Some((10 * port + (c as int - 48)) as u16)
            } else {
                None
            },
            None => None,
        },
        !(48 <= c as int <= 57) ==> port_of(text.push(c)) is None,
{
    let longer = text.push(c);
    assert(longer.drop_last() == text);
    assert(longer[text.len() as int] == c);
    assert(decimal_value(Seq::empty()) == 0);
    assert(forall|i: int| 0 <= i < text.len() ==> longer[i] == text[i]);
    if exists|i: int| 0 <= i < text.len() && !('0' <= #[trigger] text[i] <= '9') {
        let i = choose|i: int| 0 <= i < text.len() && !('0' <= #[trigger] text[i] <= '9');
        assert(longer[i] == text[i]);
    } else if 48 <= c as int <= 57 {
        assert forall|i: int| 0 <= i < longer.len() implies '0' <= #[trigger] longer[i] <= '9' by {
            if i < text.len() {
                assert(longer[i] == text[i]);
            }
        }
        assert(decimal_value(longer) == 10 * decimal_value(text) + (c as int - 48));
    }
}

/// A decimal numeral consists of ASCII digits and is read as its number.
proof fn numeral_is_decimal(value: nat)
    ensures
        decimal_value(numeral_of(value, 10)) == value,
        forall|i: int|
            0 <= i < numeral_of(value, 10).len() ==> '0' <= #[trigger] numeral_of(value, 10)[i]
                <= '9',
    decreases value,
{
    let text = numeral_of(value, 10);
    numeral_is_positional(value, 10);
    if value < 10 {
        assert(text.drop_last() == Seq::<char>::empty());
        assert(decimal_value(text.drop_last()) == 0);
    } else {
        numeral_is_decimal(value / 10);
        numeral_is_positional(value % 10, 10);
        let front = numeral_of(value / 10, 10);
        let last = numeral_of(value % 10, 10);
        assert(text.drop_last() == front);
        assert(text.last() == last[0]);
        assert forall|i: int| 0 <= i < text.len() implies '0' <= #[trigger] text[i] <= '9' by {
            if i < front.len() {
                assert(text[i] == front[i]);
            } else {
                assert(text[i] == last[0]);
            }
        }
    }
}

/// Every port can be named: behind any address, a colon or a hyphen and the decimal numeral of a port
/// name that address and that port.
pub proof fn every_port_can_be_named(addr: Seq<char>, between: char, port: u16)
    requires
        is_address(addr),
        between == ':' || between == '-',
    ensures
        port_of(numeral_of(port as nat, 10)) == Some(port),
        proxy_target(addr + seq![between] + numeral_of(port as nat, 10)) == Ok::<
            (Seq<char>, u16),
            TunlError,
        >((addr, port)),
{
    let value = port as nat;
    let text = numeral_of(value, 10);
    numeral_is_decimal(value);
    reveal_with_fuel(numeral_of, 6);
    assert(1 <= text.len() <= 5);
    assert forall|i: int| 0 <= i < text.len() implies digit(#[trigger] text[i]) by {
        assert('0' <= text[i] <= '9');
    }
    let whole = addr + seq![between] + text;
    let at = addr.len() as int;
    assert(whole.take(at) == addr);
    assert(whole[at] == between);
    assert(whole.skip(at + 1) == text);
    assert(divides(whole, at));
    proxy_parts_are_unique(whole, at);
}

/// A path names the address and the port that it is taken apart into. One that cannot be taken apart is
/// refused for its form, and one whose port does not fit 16 bits for its port.
pub proof fn path_names_its_parts(text: Seq<char>)
    ensures
        match proxy_parts(text) {
            Some((addr, digits)) => match port_of(digits) {
                Some(port) => proxy_target(text) == Ok::<(Seq<char>, u16), TunlError>((addr, port)),
                None => proxy_target(text) == Err::<(Seq<char>, u16), TunlError>(
                    TunlError::InvalidPort,
                ),
            },
            None => proxy_target(text) == Err::<(Seq<char>, u16), TunlError>(
                TunlError::InvalidProxyPath,
            ),
        },
{
}

/// Turning colons into hyphens changes nothing else.
pub proof fn hyphens_replace_colons(text: Seq<char>, i: int)
    requires
        0 <= i < text.len(),
    ensures
        with_hyphens(text).len() == text.len(),
        with_hyphens(text)[i] == if text[i] == ':' {
            '-'
        } else {
            text[i]
        },
{
}

} // verus!
