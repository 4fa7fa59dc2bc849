//! The textual form of IP addresses.

use crate::common::be16;
use crate::common::text::{
    is_hex_digit, numbers_of, numeral_of, numerals, numerals_are_joined, numerals_of,
    numerals_read_back, separators_stand_alone,
};
use vstd::prelude::*;

verus! {

/// The bytes of an IPv4 address in decimal, separated by dots.
pub open spec fn ipv4_text(octets: Seq<u8>) -> Seq<char> {
    numerals_of(octets.map_values(|octet: u8| octet as u16), '.', 10)
}

/// How many zero groups stand in a row from index `i` on.
pub open spec fn zeros_at(groups: Seq<u16>, i: int) -> nat
    decreases groups.len() - i,
{
    if 0 <= i < groups.len() && groups[i] == 0 {
        1 + zeros_at(groups, i + 1)
    } else {
        0
    }
}

/// Where the longest row of zero groups among those that start at `i` or later starts; of two
/// equally long ones, the first counts.
pub open spec fn longest_zeros(groups: Seq<u16>, i: int) -> int
    decreases groups.len() - i,
{
    if i >= groups.len() {
        groups.len() as int
    } else {
        let later = longest_zeros(groups, i + 1);
        if zeros_at(groups, i) >= zeros_at(groups, later) {
            i
        } else {
            later
        }
    }
}

/// Whether the eight groups hold an IPv4 address mapped into IPv6.
pub open spec fn is_mapped_ipv4(groups: Seq<u16>) -> bool {
    zeros_at(groups, 0) == 5 && groups[5] == 0xffff
}

/// The IPv4 address held in the last two groups.
pub open spec fn mapped_octets(groups: Seq<u16>) -> Seq<u8> {
    seq![
        (groups[6] / 256) as u8,
        (groups[6] % 256) as u8,
        (groups[7] / 256) as u8,
        (groups[7] % 256) as u8,
    ]
}

/// The text of an IPv6 address: a mapped IPv4 address behind `::ffff:`, otherwise the groups in
/// hexadecimal between colons, with the first longest row of two or more zero groups left out.
pub open spec fn ipv6_text(groups: Seq<u16>) -> Seq<char> {
    let start = longest_zeros(groups, 0);
    let end = start + zeros_at(groups, start);
    if is_mapped_ipv4(groups) {
        "::ffff:"@ + ipv4_text(mapped_octets(groups))
    } else if end - start > 1 {
        numerals_of(groups.take(start), ':', 16) + "::"@ + numerals_of(groups.skip(end), ':', 16)
    } else {
        numerals_of(groups, ':', 16)
    }
}

/// No row of zero groups is longer than the one that [`longest_zeros`] finds, and every row that
/// starts before it is shorter.
pub proof fn longest_zeros_is_first_longest(groups: Seq<u16>, i: int, j: int)
    requires
        0 <= i <= j < groups.len(),
    ensures
        i <= longest_zeros(groups, i) < groups.len(),
        zeros_at(groups, j) <= zeros_at(groups, longest_zeros(groups, i)),
        j < longest_zeros(groups, i) ==> zeros_at(groups, j) < zeros_at(
            groups,
            longest_zeros(groups, i),
        ),
    decreases groups.len() - i,
{
    if i + 1 < groups.len() {
        longest_zeros_is_first_longest(groups, i + 1, if j == i { j + 1 } else { j });
    } else {
        assert(longest_zeros(groups, i + 1) == groups.len());
    }
}

/// What [`zeros_at`] counts: a row of zero groups that cannot be made longer at its end.
pub proof fn zeros_at_is_a_whole_row(groups: Seq<u16>, i: int)
    requires
        0 <= i <= groups.len(),
    ensures
        i + zeros_at(groups, i) <= groups.len(),
        forall|j: int| i <= j < i + zeros_at(groups, i) ==> groups[j] == 0,
        i + zeros_at(groups, i) < groups.len() ==> groups[i + zeros_at(groups, i)] != 0,
    decreases groups.len() - i,
{
    if i < groups.len() && groups[i] == 0 {
        zeros_at_is_a_whole_row(groups, i + 1);
    }
}

/// The address in the text of an IPv4 address: the numbers between its dots.
pub open spec fn ipv4_in(text: Seq<char>) -> Seq<u8> {
    numbers_of(text, '.', 10).map_values(|number: int| number as u8)
}

/// The text of an IPv4 address reads back as that address.
pub proof fn ipv4_text_reads_back(octets: Seq<u8>)
    ensures
        ipv4_in(ipv4_text(octets)) == octets,
{
    let values = octets.map_values(|octet: u8| octet as u16);
    numerals_read_back(values, '.', 10);
    let numbers = values.map_values(|value: u16| value as int);
    assert forall|i: int| 0 <= i < octets.len() implies #[trigger] numbers[i] as u8 == octets[i] by {
        assert(numbers[i] == octets[i]);
    }
    assert(ipv4_in(ipv4_text(octets)) =~= octets);
}

/// The text of an IPv4 address tells it from every other one.
pub proof fn ipv4_text_is_unique(one: Seq<u8>, other: Seq<u8>)
    requires
        ipv4_text(one) == ipv4_text(other),
    ensures
        one == other,
{
    ipv4_text_reads_back(one);
    ipv4_text_reads_back(other);
}

/// The groups that stand in hexadecimal between the colons of a text.
pub open spec fn groups_in(text: Seq<char>) -> Seq<u16> {
    numbers_of(text, ':', 16).map_values(|number: int| number as u16)
}

/// The index of the first two colons in a row from index `i` on, or the length of the text.
pub open spec fn gap_from(text: Seq<char>, i: int) -> int
    decreases text.len() - i,
{
    if i + 1 >= text.len() {
        text.len() as int
    } else if text[i] == ':' && text[i + 1] == ':' {
        i
    } else {
        gap_from(text, i + 1)
    }
}

/// The groups of the address in the text of an IPv6 address: an IPv4 address behind `::ffff:` where
/// there is a dot, otherwise the groups between the colons, with as many zeros for two colons in a
/// row as are wanting.
pub open spec fn ipv6_in(text: Seq<char>) -> Seq<u16> {
    let at = gap_from(text, 0);
    if text.contains('.') {
        let octets = ipv4_in(text.skip(7));
        seq![0, 0, 0, 0, 0, 0xffff, be16(octets[0], octets[1]), be16(octets[2], octets[3])]
    } else if at < text.len() {
        let before = groups_in(text.take(at));
        let after = groups_in(text.skip(at + 2));
        before + Seq::new((8 - before.len() - after.len()) as nat, |i: int| 0u16) + after
    } else {
        groups_in(text)
    }
}

/// Groups in hexadecimal between colons read back.
proof fn groups_read_back(groups: Seq<u16>)
    ensures
        groups_in(numerals_of(groups, ':', 16)) == groups,
{
    numerals_read_back(groups, ':', 16);
    let numbers = groups.map_values(|value: u16| value as int);
    assert forall|i: int| 0 <= i < groups.len() implies #[trigger] numbers[i] as u16 == groups[i] by {
        assert(numbers[i] == groups[i]);
    }
    assert(groups_in(numerals_of(groups, ':', 16)) =~= groups);
}

/// The first two colons in a row are those with no two before them.
proof fn gap_stops(text: Seq<char>, i: int, at: int)
    requires
        0 <= i <= at <= text.len(),
        at < text.len() ==> at + 1 < text.len() && text[at] == ':' && text[at + 1] == ':',
        forall|j: int| i <= j < at && j + 1 < text.len() && #[trigger] text[j] == ':' ==> text[j + 1]
            != ':',
    ensures
        gap_from(text, i) == at,
    decreases at - i,
{
    if i < at && i + 1 < text.len() {
        gap_stops(text, i + 1, at);
    }
}

/// The text of a mapped IPv4 address holds a dot and reads back.
proof fn mapped_text_reads_back(groups: Seq<u16>)
    requires
        groups.len() == 8,
        is_mapped_ipv4(groups),
    ensures
        ipv6_in(ipv6_text(groups)) == groups,
{
    let octets = mapped_octets(groups);
    let rest = ipv4_text(octets);
    let text = "::ffff:"@ + rest;
    reveal_strlit("::ffff:");
    let values = octets.map_values(|octet: u8| octet as u16);
    let front = numerals_of(values.drop_last(), '.', 10);
    assert(rest[front.len() as int] == '.');
    assert(text[front.len() + 7int] == '.');
    assert(text.skip(7) == rest);
    ipv4_text_reads_back(octets);
    zeros_at_is_a_whole_row(groups, 0);
    assert(groups[0] == 0 && groups[1] == 0 && groups[2] == 0 && groups[3] == 0 && groups[4] == 0);
    assert(ipv6_in(text) =~= groups);
}

/// The text of an IPv6 address that leaves out zero groups reads back.
proof fn short_text_reads_back(groups: Seq<u16>, start: int, end: int)
    requires
        groups.len() == 8,
        0 <= start <= end <= 8,
        forall|i: int| start <= i < end ==> groups[i] == 0,
    ensures
        ipv6_in(
            numerals_of(groups.take(start), ':', 16) + "::"@ + numerals_of(groups.skip(end), ':', 16),
        ) == groups,
{
    let before = numerals_of(groups.take(start), ':', 16);
    let after = numerals_of(groups.skip(end), ':', 16);
    let text = before + "::"@ + after;
    let at = before.len() as int;
    reveal_strlit("::");
    separators_stand_alone(groups.take(start), ':', 16);
    separators_stand_alone(groups.skip(end), ':', 16);
    assert forall|j: int| 0 <= j < text.len() implies #[trigger] text[j] != '.' by {
        if j < at {
            assert(text[j] == before[j]);
        } else if j >= at + 2 {
            assert(text[j] == after[j - at - 2]);
        }
    }
    assert forall|j: int| 0 <= j < at && j + 1 < text.len() && #[trigger] text[j] == ':' implies text[j
        + 1] != ':' by {
        assert(text[j] == before[j]);
        if j + 1 < at {
            assert(text[j + 1] == before[j + 1]);
        } else {
            assert(before[j] == before.last());
        }
    }
    gap_stops(text, 0, at);
    assert(text.take(at) == before);
    assert(text.skip(at + 2) == after);
    groups_read_back(groups.take(start));
    groups_read_back(groups.skip(end));
    assert(ipv6_in(text) =~= groups);
}

/// The text of an IPv6 address with all of its groups reads back.
proof fn full_text_reads_back(groups: Seq<u16>)
    ensures
        ipv6_in(numerals_of(groups, ':', 16)) == groups,
{
    let text = numerals_of(groups, ':', 16);
    separators_stand_alone(groups, ':', 16);
    assert forall|j: int| 0 <= j < text.len() implies #[trigger] text[j] != '.' by {
        assert(is_hex_digit(text[j]) || text[j] == ':');
    }
    gap_stops(text, 0, text.len() as int);
    groups_read_back(groups);
}

/// The text of an IPv6 address reads back as that address.
pub proof fn ipv6_text_reads_back(groups: Seq<u16>)
    requires
        groups.len() == 8,
    ensures
        ipv6_in(ipv6_text(groups)) == groups,
{
    let start = longest_zeros(groups, 0);
    let end = start + zeros_at(groups, start);
    longest_zeros_is_first_longest(groups, 0, 0);
    zeros_at_is_a_whole_row(groups, start);
    if is_mapped_ipv4(groups) {
        mapped_text_reads_back(groups);
    } else if end - start > 1 {
        short_text_reads_back(groups, start, end);
    } else {
        full_text_reads_back(groups);
    }
}

/// The text of an IPv6 address tells it from every other one.
pub proof fn ipv6_text_is_unique(one: Seq<u16>, other: Seq<u16>)
    requires
        one.len() == 8,
        other.len() == 8,
        ipv6_text(one) == ipv6_text(other),
    ensures
        one == other,
{
    ipv6_text_reads_back(one);
    ipv6_text_reads_back(other);
}

/// Writes an IPv4 address.
pub fn write_ipv4(octets: &[u8]) -> (text: String)
    ensures
        text@ == ipv4_text(octets@),
{
    let mut values: Vec<u16> = Vec::new();
    for i in 0..octets.len()
        invariant
            values@ == octets@.map_values(|octet: u8| octet as u16).take(i as int),
    {
        values.push(octets[i] as u16);
    }
    assert(values@ == octets@.map_values(|octet: u8| octet as u16));
    numerals(values.as_slice(), '.', 10)
}

/// Writes an IPv6 address given by its eight groups.
pub fn write_ipv6(groups: &[u16]) -> (text: String)
    requires
        groups@.len() == 8,
    ensures
        text@ == ipv6_text(groups@),
{
    let mut start: usize = 8;
    let mut zeros: usize = 0;
    let mut here: usize = 0;
    let mut i: usize = 8;
    while i > 0
        invariant
            groups@.len() == 8,
            i <= 8,
            here == zeros_at(groups@, i as int),
            here <= 8 - i,
            start == longest_zeros(groups@, i as int),
            zeros == zeros_at(groups@, start as int),
        decreases i,
    {
        i = i - 1;
        if groups[i] == 0 {
            here = here + 1;
        } else {
            here = 0;
        }
        if here >= zeros {
            start = i;
            zeros = here;
        }
    }
    proof {
        longest_zeros_is_first_longest(groups@, 0, 0);
        zeros_at_is_a_whole_row(groups@, start as int);
        assert(groups@.subrange(0, 8) == groups@);
        assert(groups@.subrange(0, start as int) == groups@.take(start as int));
        assert(groups@.subrange(start + zeros, 8) == groups@.skip(start + zeros));
    }
    if here == 5 && groups[5] == 0xffff {
        let mut octets: Vec<u8> = Vec::new();
        octets.push((groups[6] / 256) as u8);
        octets.push((groups[6] % 256) as u8);
        octets.push((groups[7] / 256) as u8);
        octets.push((groups[7] % 256) as u8);
        assert(octets@ == mapped_octets(groups@));
        let mut text = "::ffff:".to_owned();
        text.append(write_ipv4(octets.as_slice()).as_str());
        text
    } else if zeros > 1 {
        let mut text = numerals(vstd::slice::slice_subrange(groups, 0, start), ':', 16);
        text.append("::");
        text.append(
            numerals(vstd::slice::slice_subrange(groups, start + zeros, 8), ':', 16).as_str(),
        );
        text
    } else {
        numerals(groups, ':', 16)
    }
}

/// An IPv4 address is written as its four bytes in decimal with dots between them.
pub proof fn ipv4_text_is_dotted(a: u8, b: u8, c: u8, d: u8)
    ensures
        ipv4_text(seq![a, b, c, d]) == numeral_of(a as nat, 10) + seq!['.'] + numeral_of(b as nat, 10)
            + seq!['.'] + numeral_of(c as nat, 10) + seq!['.'] + numeral_of(d as nat, 10),
{
    let one = seq![a as u16];
    let two = one.push(b as u16);
    let three = two.push(c as u16);
    let values = seq![a, b, c, d].map_values(|octet: u8| octet as u16);
    assert(values == three.push(d as u16));
    numerals_are_joined(Seq::empty(), a as u16, '.', 10);
    numerals_are_joined(one, b as u16, '.', 10);
    numerals_are_joined(two, c as u16, '.', 10);
    numerals_are_joined(three, d as u16, '.', 10);
}

/// A row of zero groups is counted as far as it goes.
proof fn zeros_at_counts(groups: Seq<u16>, start: int, end: int)
    requires
        0 <= start <= end <= groups.len(),
        forall|i: int| start <= i < end ==> groups[i] == 0,
        end < groups.len() ==> groups[end] != 0,
    ensures
        zeros_at(groups, start) == end - start,
    decreases end - start,
{
    if start < end {
        zeros_at_counts(groups, start + 1, end);
    }
}

/// An address whose first five groups are zero and whose sixth has all bits set is written as the IPv4
/// address in its last four bytes behind `::ffff:`.
pub proof fn mapped_ipv4_is_dotted(groups: Seq<u16>)
    requires
        groups.len() == 8,
        groups.take(6) == seq![0u16, 0, 0, 0, 0, 0xffff],
    ensures
        ipv6_text(groups) == "::ffff:"@ + ipv4_text(
            seq![
                (groups[6] / 256) as u8,
                (groups[6] % 256) as u8,
                (groups[7] / 256) as u8,
                (groups[7] % 256) as u8,
            ],
        ),
{
    mapped_by_first_six(groups);
}

/// Whether the groups from index `from` up to `to` are zero.
pub open spec fn zero_row(groups: Seq<u16>, from: int, to: int) -> bool {
    forall|i: int| from <= i < to ==> groups[i] == 0
}

/// A row of zero groups is counted at least as far as it is known.
proof fn zeros_at_covers(groups: Seq<u16>, start: int, end: int)
    requires
        0 <= start <= end <= groups.len(),
        zero_row(groups, start, end),
    ensures
        zeros_at(groups, start) >= end - start,
    decreases end - start,
{
    if start < end {
        zeros_at_covers(groups, start + 1, end);
    }
}

/// Whether the eight groups are those of a mapped IPv4 address is a matter of the first six.
proof fn mapped_by_first_six(groups: Seq<u16>)
    requires
        groups.len() == 8,
    ensures
        is_mapped_ipv4(groups) <==> groups.take(6) == seq![0u16, 0, 0, 0, 0, 0xffff],
{
    let front = groups.take(6);
    assert(forall|i: int| 0 <= i < 6 ==> front[i] == groups[i]);
    if front == seq![0u16, 0, 0, 0, 0, 0xffff] {
        assert(front[0] == 0 && front[1] == 0 && front[2] == 0 && front[3] == 0 && front[4] == 0
            && front[5] == 0xffff);
        zeros_at_counts(groups, 0, 5);
    }
    if is_mapped_ipv4(groups) {
        zeros_at_is_a_whole_row(groups, 0);
        assert(front =~= seq![0u16, 0, 0, 0, 0, 0xffff]);
    }
}

/// In any other address the longest row of two or more zero groups, of equally long ones the first, is
/// written as two colons, and the groups on both sides of it in hexadecimal between colons.
pub proof fn longest_zeros_are_left_out(groups: Seq<u16>, start: int, end: int)
    requires
        groups.len() == 8,
        groups.take(6) != seq![0u16, 0, 0, 0, 0, 0xffff],
        0 <= start,
        start + 2 <= end <= 8,
        zero_row(groups, start, end),
        forall|from: int, to: int|
            0 <= from <= to <= 8 && #[trigger] zero_row(groups, from, to) ==> to - from <= end
                - start,
        forall|from: int, to: int|
            0 <= from < start && from <= to <= 8 && #[trigger] zero_row(groups, from, to) ==> to - from
                < end - start,
    ensures
        ipv6_text(groups) == numerals_of(groups.take(start), ':', 16) + "::"@ + numerals_of(
            groups.skip(end),
            ':',
            16,
        ),
{
    mapped_by_first_six(groups);
    let found = longest_zeros(groups, 0);
    longest_zeros_is_first_longest(groups, 0, start);
    zeros_at_is_a_whole_row(groups, found);
    zeros_at_is_a_whole_row(groups, start);
    zeros_at_covers(groups, start, end);
    assert(zero_row(groups, found, found + zeros_at(groups, found)));
    assert(zero_row(groups, start, start + zeros_at(groups, start)));
    assert(found == start);
}

/// An address without two zero groups in a row is written with all of its groups.
pub proof fn lone_zeros_are_written(groups: Seq<u16>)
    requires
        groups.len() == 8,
        forall|i: int| 0 <= i < 7 && #[trigger] groups[i] == 0 ==> groups[i + 1] != 0,
    ensures
        ipv6_text(groups) == numerals_of(groups, ':', 16),
{
    mapped_by_first_six(groups);
    if groups.take(6) == seq![0u16, 0, 0, 0, 0, 0xffff] {
        assert(groups.take(6)[0] == groups[0] && groups.take(6)[1] == groups[1]);
    }
    let found = longest_zeros(groups, 0);
    longest_zeros_is_first_longest(groups, 0, 0);
    zeros_at_is_a_whole_row(groups, found);
    if zeros_at(groups, found) > 1 {
        assert(groups[found] == 0 && groups[found + 1] == 0);
    }
}

} // verus!
