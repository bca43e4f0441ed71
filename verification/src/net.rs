//! Network addresses and ranges of them, as numbers.

use crate::text::{is_digit, all_digits, chars_of, decimal, digits_from, parse_int, parse_unsigned};
use crate::text::{slice_of, split, text_of, trim, trimmed};
use vstd::arithmetic::power2::pow2;
use vstd::prelude::*;
use vstd::string::*;

verus! {

/// The address of a machine.
#[derive(Debug, Clone, Copy, PartialEq, Eq, Hash, Structural)]
pub enum Address {
    V4(u32),
    V6(u128),
}

/// The addresses that begin with the same bits as a given one.
#[derive(Debug, Clone, Copy, PartialEq, Eq, Structural)]
pub struct Network {
    pub address: Address,
    /// How many bits count.
    pub prefix: u8,
}

/// How many bits an address of a kind has.
pub open spec fn width(address: Address) -> int {
    match address {
        Address::V4(_) => 32,
        Address::V6(_) => 128,
    }
}

/// Whether no more bits count than there are.
pub open spec fn well_formed(net: Network) -> bool {
    net.prefix <= width(net.address)
}

/// Whether the first `prefix` of `width` bits of two numbers are the same.
pub open spec fn same_prefix(a: int, b: int, width: int, prefix: int) -> bool {
    a / pow2((width - prefix) as nat) as int == b / pow2((width - prefix) as nat) as int
}

/// Whether a range holds an address. An address of the other kind is in no range.
pub open spec fn in_network(net: Network, address: Address) -> bool {
    match (net.address, address) {
        (Address::V4(n), Address::V4(a)) => same_prefix(n as int, a as int, 32, net.prefix as int),
        (Address::V6(n), Address::V6(a)) => same_prefix(n as int, a as int, 128, net.prefix as int),
        _ => false,
    }
}

/// `ipnet::Ipv4Net::contains`: whether an address lies between the first and the last one of a
/// range, which is whether the first `prefix` bits are those of the range.
#[verifier::external_body]
fn range4_contains(net: u32, prefix: u8, address: u32) -> (r: bool)
    requires
        prefix <= 32,
    ensures
        r == same_prefix(net as int, address as int, 32, prefix as int),
{
    let host = ipnet::Ipv4Net::new_assert(address.into(), 32).addr();
    ipnet::Ipv4Net::new_assert(net.into(), prefix).contains(&host)
}

/// `ipnet::Ipv6Net::contains`: whether an address lies between the first and the last one of a
/// range, which is whether the first `prefix` bits are those of the range.
#[verifier::external_body]
fn range6_contains(net: u128, prefix: u8, address: u128) -> (r: bool)
    requires
        prefix <= 128,
    ensures
        r == same_prefix(net as int, address as int, 128, prefix as int),
{
    let host = ipnet::Ipv6Net::new_assert(address.into(), 128).addr();
    ipnet::Ipv6Net::new_assert(net.into(), prefix).contains(&host)
}

impl Network {
    /// Whether a range holds an address.
    pub fn contains(&self, address: Address) -> (r: bool)
        requires
            well_formed(*self),
        ensures
            r == in_network(*self, address),
    {
        match (self.address, address) {
            (Address::V4(n), Address::V4(a)) => range4_contains(n, self.prefix, a),
            (Address::V6(n), Address::V6(a)) => range6_contains(n, self.prefix, a),
            _ => false,
        }
    }

    /// The range that holds one address only.
    pub fn host(address: Address) -> (r: Self)
        ensures
            r == (Network {
                address,
                prefix: match address {
                    Address::V4(_) => 32u8,
                    Address::V6(_) => 128u8,
                },
            }),
            well_formed(r),
    {
        match address {
            Address::V4(_) => Network { address, prefix: 32 },
            Address::V6(_) => Network { address, prefix: 128 },
        }
    }
}

/// What a row of digits writes, if that is one byte of an address. Zeros that open it are allowed
/// only where `padded` says so.
pub open spec fn octet(s: Seq<char>, padded: bool) -> Option<int> {
    if 1 <= s.len() <= 3 && all_digits(s) && decimal(s) <= 255 && (padded || s.len() == 1 || s[0]
        != '0') {
        Some(decimal(s))
    } else {
        None
    }
}

/// The address of the older kind that a text writes: four bytes with dots between them.
pub open spec fn dotted(s: Seq<char>, padded: bool) -> Option<Address> {
    let p = split(s, '.');
    if p.len() == 4 && octet(p[0], padded) is Some && octet(p[1], padded) is Some && octet(
        p[2],
        padded,
    ) is Some && octet(p[3], padded) is Some {
        Some(
            Address::V4(
                (octet(p[0], padded)->0 * 0x100_0000 + octet(p[1], padded)->0 * 0x1_0000 + octet(
                    p[2],
                    padded,
                )->0 * 0x100 + octet(p[3], padded)->0) as u32,
            ),
        )
    } else {
        None
    }
}

/// The range of the older kind that a text writes: an address, a slash and how many bits count.
pub open spec fn slashed(s: Seq<char>) -> Option<Network> {
    let p = split(s, '/');
    if p.len() == 2 && dotted(p[0], true) is Some && 1 <= p[1].len() <= 2 && all_digits(p[1])
        && decimal(p[1]) <= 32 {
        Some(Network { address: dotted(p[0], true)->0, prefix: decimal(p[1]) as u8 })
    } else {
        None
    }
}

/// The address that the standard library reads from a text with a colon.
pub uninterp spec fn colon_address(text: Seq<char>) -> Option<Address>;

/// The range that `ipnet::IpNet` reads from a text with a colon.
pub uninterp spec fn colon_network(text: Seq<char>) -> Option<Network>;

/// The address that a text writes.
pub open spec fn parsed_address(text: Seq<char>) -> Option<Address> {
    if text.contains(':') {
        colon_address(text)
    } else {
        dotted(text, false)
    }
}

/// The range that a text writes.
pub open spec fn parsed_network(text: Seq<char>) -> Option<Network> {
    if text.contains(':') {
        colon_network(text)
    } else {
        slashed(text)
    }
}

/// `str::parse` for an address of either kind, handed through `ipnet::IpNet::new` and taken apart
/// into a number. A text without a colon is read as an address of the older kind: four decimal
/// bytes with dots between them, none of them opened by a zero that could be left out.
#[verifier::external_body]
pub(crate) fn parse_address(text: &str) -> (r: Option<Address>)
    ensures
        text@.contains(':') ==> r == colon_address(text@),
        !text@.contains(':') ==> r == dotted(text@, false),
{
    match ipnet::IpNet::new(text.parse().ok()?, 0).ok()? {
        ipnet::IpNet::V4(net) => Some(Address::V4(net.addr().into())),
        ipnet::IpNet::V6(net) => Some(Address::V6(net.addr().into())),
    }
}

/// `str::parse` for an `ipnet::IpNet`: an address, a slash and how many bits count, taken apart
/// into numbers. No more bits count than the address has. A text without a colon is read as a range
/// of the older kind; here zeros may open the bytes.
#[verifier::external_body]
pub(crate) fn parse_network(text: &str) -> (r: Option<Network>)
    ensures
        text@.contains(':') ==> r == colon_network(text@),
        !text@.contains(':') ==> r == slashed(text@),
        r matches Some(net) ==> well_formed(net),
{
    match text.parse::<ipnet::IpNet>().ok()? {
        ipnet::IpNet::V4(net) => {
            Some(Network { address: Address::V4(net.addr().into()), prefix: net.prefix_len() })
        }
        ipnet::IpNet::V6(net) => {
            Some(Network { address: Address::V6(net.addr().into()), prefix: net.prefix_len() })
        }
    }
}

/// An address of the newer kind that stands for one of the older kind, as the latter.
pub open spec fn canonical(address: Address) -> Address {
    match address {
        Address::V6(n) => if n / 0x1_0000_0000 == 0xffff {
            Address::V4((n % 0x1_0000_0000) as u32)
        } else {
            address
        },
        Address::V4(_) => address,
    }
}

/// An address of the newer kind that stands for one of the older kind, as the latter.
pub fn to_canonical(address: Address) -> (r: Address)
    ensures
        r == canonical(address),
{
    match address {
        Address::V6(n) => {
            if n / 0x1_0000_0000 == 0xffff {
                Address::V4((n % 0x1_0000_0000) as u32)
            } else {
                address
            }
        },
        Address::V4(_) => address,
    }
}

/// Where the last colon of a text stands; -1 if it has none.
pub open spec fn last_colon(s: Seq<char>) -> int
    decreases s.len(),
{
    if s.len() == 0 {
        -1
    } else if s.last() == ':' {
        s.len() - 1
    } else {
        last_colon(s.drop_last())
    }
}

/// Where the first percent sign of a text stands; its length if it has none.
pub open spec fn first_percent(s: Seq<char>) -> int
    decreases s.len(),
{
    if s.len() == 0 || s[0] == '%' {
        0
    } else {
        1 + first_percent(s.drop_first())
    }
}

/// Whether a text is a row of digits that writes a number up to `max`.
pub open spec fn writes_number(s: Seq<char>, max: int) -> bool {
    s.len() > 0 && all_digits(s) && parse_int(s, 0, max) is Some
}

/// The address in a text that also gives a port: an older one before a colon, or a newer one in
/// square brackets, with or without a zone.
pub open spec fn socket_address(s: Seq<char>) -> Option<Address> {
    let c = last_colon(s);
    let host = s.take(c);
    if c < 0 || !writes_number(s.skip(c + 1), 65535) {
        None
    } else if host.len() >= 2 && host[0] == '[' && host.last() == ']' {
        let inner = host.subrange(1, host.len() - 1);
        let z = first_percent(inner);
        let zoned = z == inner.len() || writes_number(inner.skip(z + 1), 0xffff_ffff);
        match parsed_address(inner.take(z)) {
            Some(Address::V6(n)) => if zoned {
                Some(Address::V6(n))
            } else {
                None
            },
            _ => None,
        }
    } else {
        match parsed_address(host) {
            Some(Address::V4(n)) => Some(Address::V4(n)),
            _ => None,
        }
    }
}

/// Whether the characters from `from` on are digits that write a number up to `max`.
fn number_from(cs: &Vec<char>, from: usize, max: u64) -> (r: bool)
    requires
        from <= cs.len(),
    ensures
        r == writes_number(cs@.skip(from as int), max as int),
{
    if from == cs.len() || !digits_from(cs, from) {
        return false;
    }
    let number: String = text_of(&slice_of(cs, from, cs.len()));
    assert(number@ =~= cs@.skip(from as int));
    parse_unsigned(&number, max).is_some()
}

/// One past the last colon of a text; 0 if it has none.
pub(crate) fn after_last_colon(cs: &Vec<char>) -> (r: usize)
    ensures
        r == last_colon(cs@) + 1,
        r <= cs.len(),
{
    let mut i: usize = cs.len();
    assert(cs@.take(i as int) =~= cs@);
    while i > 0 && cs[i - 1] != ':'
        invariant
            i <= cs.len(),
            last_colon(cs@) == last_colon(cs@.take(i as int)),
        decreases i,
    {
        assert(cs@.take(i as int).drop_last() =~= cs@.take(i - 1));
        i = i - 1;
    }
    i
}

/// The first percent sign of a text.
fn find_percent(cs: &Vec<char>) -> (r: usize)
    ensures
        r == first_percent(cs@),
        r <= cs.len(),
{
    let mut i: usize = 0;
    assert(cs@.skip(0) =~= cs@);
    while i < cs.len() && cs[i] != '%'
        invariant
            i <= cs.len(),
            first_percent(cs@) == i + first_percent(cs@.skip(i as int)),
        decreases cs.len() - i,
    {
        assert(cs@.skip(i as int).drop_first() =~= cs@.skip(i + 1));
        i = i + 1;
    }
    i
}

/// The address in a text that also gives a port.
pub fn parse_socket_address(s: &str) -> (r: Option<Address>)
    ensures
        r == socket_address(s@),
{
    let cs: Vec<char> = chars_of(s);
    let c: usize = after_last_colon(&cs);
    if c == 0 || !number_from(&cs, c, 65535) {
        return None;
    }
    let host: Vec<char> = slice_of(&cs, 0, c - 1);
    assert(host@ =~= s@.take(c - 1));
    if host.len() >= 2 && host[0] == '[' && host[host.len() - 1] == ']' {
        let inner: Vec<char> = slice_of(&host, 1, host.len() - 1);
        let z: usize = find_percent(&inner);
        let zoned: bool = z == inner.len() || number_from(&inner, z + 1, 0xffff_ffff);
        let bare: String = text_of(&slice_of(&inner, 0, z));
        assert(bare@ =~= inner@.take(z as int));
        match parse_address(&bare) {
            Some(Address::V6(n)) => if zoned {
                Some(Address::V6(n))
            } else {
                None
            },
            _ => None,
        }
    } else {
        match parse_address(&text_of(&host)) {
            Some(Address::V4(n)) => Some(Address::V4(n)),
            _ => None,
        }
    }
}

/// The address that an entry of a forwarding chain gives, with or without a port.
pub open spec fn entry_address(entry: Seq<char>) -> Option<Address> {
    match parsed_address(trim(entry)) {
        Some(a) => Some(a),
        None => socket_address(trim(entry)),
    }
}

/// The address that an entry of a forwarding chain gives.
pub fn parse_entry(entry: &str) -> (r: Option<Address>)
    ensures
        r == entry_address(entry@),
{
    let bare: String = trimmed(entry);
    match parse_address(&bare) {
        Some(a) => Some(a),
        None => parse_socket_address(&bare),
    }
}

/// The range that a text gives: one with a slash, or that of a single address.
pub open spec fn trusted_range(text: Seq<char>) -> Option<Network> {
    match parsed_network(text) {
        Some(net) => Some(net),
        None => match parsed_address(text) {
            Some(Address::V4(n)) => Some(Network { address: Address::V4(n), prefix: 32 }),
            Some(Address::V6(n)) => Some(Network { address: Address::V6(n), prefix: 128 }),
            None => None,
        },
    }
}

/// The range that a text gives.
pub fn parse_trusted(text: &str) -> (r: Option<Network>)
    ensures
        r == trusted_range(text@),
        r matches Some(net) ==> well_formed(net),
{
    match parse_network(text) {
        Some(net) => Some(net),
        None => match parse_address(text) {
            Some(address) => Some(Network::host(address)),
            None => None,
        },
    }
}

/// A range that leaves no bits open holds one address, one that leaves all open holds all of its
/// kind, and no range holds an address of the other kind.
pub proof fn ranges_hold_their_addresses(n: u32, m: u128, a: u32, b: u128, prefix: u8)
    ensures
        in_network(Network { address: Address::V4(n), prefix: 32 }, Address::V4(a)) <==> n == a,
        in_network(Network { address: Address::V6(m), prefix: 128 }, Address::V6(b)) <==> m == b,
        in_network(Network { address: Address::V4(n), prefix: 0 }, Address::V4(a)),
        !in_network(Network { address: Address::V4(n), prefix }, Address::V6(b)),
        !in_network(Network { address: Address::V6(m), prefix }, Address::V4(a)),
        prefix <= 32 ==> in_network(
            Network { address: Address::V4(n), prefix },
            Address::V4(n),
        ),
        prefix <= 128 ==> in_network(
            Network { address: Address::V6(m), prefix },
            Address::V6(m),
        ),
{
    vstd::arithmetic::power2::lemma2_to64();
    assert(pow2(0) == 1 && pow2(32) == 0x1_0000_0000);
    assert(pow2((32 - 32) as nat) as int == 1);
    assert(pow2((128 - 128) as nat) as int == 1);
    assert(n as int / 1 == n && a as int / 1 == a && m as int / 1 == m && b as int / 1 == b);
    assert(same_prefix(n as int, a as int, 32, 32) <==> n == a);
    assert(same_prefix(m as int, b as int, 128, 128) <==> m == b);
    assert(pow2((32 - 0) as nat) as int == 0x1_0000_0000);
    assert(n as int / 0x1_0000_0000 == 0 && a as int / 0x1_0000_0000 == 0);
    assert(same_prefix(n as int, a as int, 32, 0));
}

/// Addresses in one range of the older kind differ only in the bits that it leaves open: each is less
/// than the size of the range apart from the range's first.
pub proof fn ranges_are_runs_of_addresses(n: u32, a: u32, prefix: u8)
    requires
        prefix <= 32,
    ensures
        ({
            let size = pow2((32 - prefix) as nat) as int;
            let first = (n as int / size) * size;
            in_network(Network { address: Address::V4(n), prefix }, Address::V4(a)) <==> first <= a
                < first + size
        }),
{
    let size = pow2((32 - prefix) as nat) as int;
    vstd::arithmetic::power2::lemma_pow2_pos((32 - prefix) as nat);
    let q = n as int / size;
    let p = a as int / size;
    vstd::arithmetic::div_mod::lemma_fundamental_div_mod(a as int, size);
    vstd::arithmetic::div_mod::lemma_mod_bound(a as int, size);
    assert(size * p == p * size) by (nonlinear_arith);
    if p < q {
        assert(p * size + size <= q * size) by (nonlinear_arith)
            requires
                p + 1 <= q,
                size > 0,
        ;
    }
    if q < p {
        assert(q * size + size <= p * size) by (nonlinear_arith)
            requires
                q + 1 <= p,
                size > 0,
        ;
    }
}

/// An address has one canonical form, which is its own.
pub proof fn addresses_have_one_form(a: Address, n: u32)
    ensures
        canonical(canonical(a)) == canonical(a),
        canonical(Address::V4(n)) == Address::V4(n),
        canonical(Address::V6((0xffff_0000_0000 + n) as u128)) == Address::V4(n),
        canonical(a) is V6 ==> canonical(a) == a,
{
}

/// A trusted proxy is given as a range or as one address, which is a range of its own.
pub proof fn single_addresses_are_ranges(text: Seq<char>)
    ensures
        parsed_network(text) is Some ==> trusted_range(text) == parsed_network(text),
        parsed_network(text) is None && parsed_address(text) is None ==> trusted_range(text)
            is None,
        parsed_network(text) is None ==> (parsed_address(text) matches Some(a) ==> (trusted_range(
            text,
        ) matches Some(net) && net.address == a && net.prefix == width(a))),
{
}

/// An entry of a forwarding chain is an address, with or without a port; white space around it does
/// not matter.
pub proof fn entries_may_have_a_port(entry: Seq<char>)
    ensures
        parsed_address(trim(entry)) is Some ==> entry_address(entry) == parsed_address(
            trim(entry),
        ),
        parsed_address(trim(entry)) is None ==> entry_address(entry) == socket_address(trim(entry)),
{
}


/// The last colon before digits.
pub proof fn lemma_colon_before(name: Seq<char>, port: Seq<char>)
    requires
        all_digits(port),
    ensures
        last_colon(name.push(':') + port) == name.len(),
    decreases port.len(),
{
    let whole = name.push(':') + port;
    if port.len() == 0 {
        assert(whole =~= name.push(':'));
        assert(whole.last() == ':');
    } else {
        let shorter = port.drop_last();
        assert forall|i: int| 0 <= i < shorter.len() implies is_digit(
            #[trigger] shorter[i],
        ) by {
            assert(shorter[i] == port[i]);
        }
        lemma_colon_before(name, shorter);
        assert(whole.drop_last() =~= name.push(':') + shorter);
        assert(is_digit(port[port.len() - 1]));
        assert(whole.last() == port.last());
    }
}

/// A text without a percent sign has no first one.
proof fn lemma_no_percent(s: Seq<char>)
    requires
        !s.contains('%'),
    ensures
        first_percent(s) == s.len(),
    decreases s.len(),
{
    if s.len() > 0 {
        assert(s.contains(s[0]));
        assert(!s.drop_first().contains('%')) by {
            if s.drop_first().contains('%') {
                let i = choose|i: int| 0 <= i < s.drop_first().len() && s.drop_first()[i] == '%';
                assert(s[i + 1] == '%');
            }
        }
        lemma_no_percent(s.drop_first());
    }
}

/// The address before a port is read: one of the older kind as it stands, one of the newer kind in
/// square brackets. Without a port that is a number, nothing is read.
pub proof fn addresses_with_a_port_are_read(host: Seq<char>, port: Seq<char>)
    requires
        port.len() > 0,
        all_digits(port),
    ensures
        parse_int(port, 0, 65535) is Some ==> {
            &&& host.len() > 0 && host[0] != '[' && parsed_address(host) is Some && parsed_address(
                host,
            )->0 is V4 ==> socket_address(host.push(':') + port) == parsed_address(host)
            &&& !host.contains('%') && parsed_address(host) is Some && parsed_address(host)->0 is V6
                ==> socket_address((seq!['['] + host + seq![']']).push(':') + port)
                == parsed_address(host)
        },
        parse_int(port, 0, 65535) is None ==> socket_address(host.push(':') + port) is None,
        !host.contains(':') ==> socket_address(host) is None,
{
    let plain = host.push(':') + port;
    lemma_colon_before(host, port);
    assert(plain.take(host.len() as int) =~= host);
    assert(plain.skip((host.len() + 1) as int) =~= port);
    let boxed = seq!['['] + host + seq![']'];
    let whole = boxed.push(':') + port;
    lemma_colon_before(boxed, port);
    assert(whole.take(boxed.len() as int) =~= boxed);
    assert(whole.skip((boxed.len() + 1) as int) =~= port);
    assert(boxed.subrange(1, boxed.len() - 1) =~= host);
    if !host.contains('%') {
        lemma_no_percent(host);
        assert(host.take(host.len() as int) =~= host);
    }
    if !host.contains(':') {
        lemma_colon_none(host);
    }
}

/// A text without a colon has no last one.
pub proof fn lemma_colon_none(s: Seq<char>)
    requires
        !s.contains(':'),
    ensures
        last_colon(s) == -1,
    decreases s.len(),
{
    if s.len() > 0 {
        assert(s.contains(s.last()));
        assert(!s.drop_last().contains(':')) by {
            if s.drop_last().contains(':') {
                let i = choose|i: int| 0 <= i < s.drop_last().len() && s.drop_last()[i] == ':';
                assert(s[i] == ':');
            }
        }
        lemma_colon_none(s.drop_last());
    }
}

} // verus!
