//! Access control for the served tree.
//!
//! A policy has two lists of networks: the proxies that are trusted, and
//! the clients that are allowed. Without trusted proxies the remote address
//! itself is judged. With them, a request must come from a trusted proxy,
//! and the client named first in the forwarded-for header is judged.
//! Addresses that write an IPv4 address inside IPv6 are judged as IPv4.

use crate::text::{chars_of, find_char, first_segment, index_of, string_of, texts, trim, trimmed};
use vstd::prelude::*;

verus! {

/// An IP address, by its bits.
#[derive(Clone, Copy, Debug, PartialEq, Eq, Structural)]
pub enum IpAddress {
    V4(u32),
    V6(u128),
}

/// A network in CIDR notation: an address and the length of the prefix
/// that counts.
#[allow(inconsistent_fields)]
#[derive(Clone, Copy, Debug, PartialEq, Eq, Structural)]
pub enum CidrBlock {
    V4 { addr: u32, prefix_len: u8 },
    V6 { addr: u128, prefix_len: u8 },
}

// ---------------------------------------------------------------------
// Membership
// ---------------------------------------------------------------------

/// The mask of the first `prefix_len` bits of an IPv4 address.
pub open spec fn netmask_v4(prefix_len: u8) -> u32 {
    if prefix_len == 0 {
        0
    } else if prefix_len >= 32 {
        0xffff_ffffu32
    } else {
        0xffff_ffffu32 << ((32 - prefix_len) as u32)
    }
}

/// The mask of the bits of an IPv4 address after the first `prefix_len`.
pub open spec fn hostmask_v4(prefix_len: u8) -> u32 {
    if prefix_len >= 32 {
        0
    } else {
        0xffff_ffffu32 >> (prefix_len as u32)
    }
}

/// The mask of the first `prefix_len` bits of an IPv6 address.
pub open spec fn netmask_v6(prefix_len: u8) -> u128 {
    if prefix_len == 0 {
        0
    } else if prefix_len >= 128 {
        0xffff_ffff_ffff_ffff_ffff_ffff_ffff_ffffu128
    } else {
        0xffff_ffff_ffff_ffff_ffff_ffff_ffff_ffffu128 << ((128 - prefix_len) as u128)
    }
}

/// The mask of the bits of an IPv6 address after the first `prefix_len`.
pub open spec fn hostmask_v6(prefix_len: u8) -> u128 {
    if prefix_len >= 128 {
        0
    } else {
        0xffff_ffff_ffff_ffff_ffff_ffff_ffff_ffffu128 >> (prefix_len as u128)
    }
}

/// Whether `ip` lies in `net`: between the first and the last address of
/// the network, and of the same family.
pub open spec fn net_contains(net: CidrBlock, ip: IpAddress) -> bool {
    match (net, ip) {
        (CidrBlock::V4 { addr, prefix_len }, IpAddress::V4(bits)) => (addr & netmask_v4(
            prefix_len,
        )) <= bits && bits <= (addr | hostmask_v4(prefix_len)),
        (CidrBlock::V6 { addr, prefix_len }, IpAddress::V6(bits)) => (addr & netmask_v6(
            prefix_len,
        )) <= bits && bits <= (addr | hostmask_v6(prefix_len)),
        _ => false,
    }
}

/// Whether some network of `nets` holds `ip`.
pub open spec fn any_contains(nets: Seq<CidrBlock>, ip: IpAddress) -> bool {
    exists|i: int| 0 <= i < nets.len() && net_contains(#[trigger] nets[i], ip)
}

/// The IPv4 address that an IPv6 address of the form `::ffff:a.b.c.d`
/// writes.
pub open spec fn mapped_v4(bits: u128) -> Option<u32> {
    if bits >> 32 == 0xffffu128 {
        Some((bits & 0xffff_ffffu128) as u32)
    } else {
        None
    }
}

/// `ip`, as IPv4 where it is an IPv4 address written inside IPv6.
pub open spec fn normalized(ip: IpAddress) -> IpAddress {
    match ip {
        IpAddress::V6(bits) => match mapped_v4(bits) {
            Some(v4) => IpAddress::V4(v4),
            None => ip,
        },
        IpAddress::V4(_) => ip,
    }
}

/// Whether `ip` matches `nets`, as it is or in its IPv4 form.
pub open spec fn in_nets(nets: Seq<CidrBlock>, ip: IpAddress) -> bool {
    any_contains(nets, ip) || any_contains(nets, normalized(ip))
}

impl CidrBlock {
    /// Whether `ip` lies in this network.
    pub fn contains(&self, ip: IpAddress) -> (b: bool)
        ensures
            b == net_contains(*self, ip),
    {
        match (*self, ip) {
            (CidrBlock::V4 { addr, prefix_len }, IpAddress::V4(bits)) => {
                let netmask: u32 = if prefix_len == 0 {
                    0
                } else if prefix_len >= 32 {
                    0xffff_ffffu32
                } else {
                    0xffff_ffffu32 << ((32 - prefix_len) as u32)
                };
                let hostmask: u32 = if prefix_len >= 32 {
                    0
                } else {
                    0xffff_ffffu32 >> (prefix_len as u32)
                };
                (addr & netmask) <= bits && bits <= (addr | hostmask)
            },
            (CidrBlock::V6 { addr, prefix_len }, IpAddress::V6(bits)) => {
                let netmask: u128 = if prefix_len == 0 {
                    0
                } else if prefix_len >= 128 {
                    0xffff_ffff_ffff_ffff_ffff_ffff_ffff_ffffu128
                } else {
                    0xffff_ffff_ffff_ffff_ffff_ffff_ffff_ffffu128 << ((128 - prefix_len) as u128)
                };
                let hostmask: u128 = if prefix_len >= 128 {
                    0
                } else {
                    0xffff_ffff_ffff_ffff_ffff_ffff_ffff_ffffu128 >> (prefix_len as u128)
                };
                (addr & netmask) <= bits && bits <= (addr | hostmask)
            },
            _ => false,
        }
    }
}

/// Whether some network of `nets` holds `ip`.
fn any_net_contains(nets: &Vec<CidrBlock>, ip: IpAddress) -> (b: bool)
    ensures
        b == any_contains(nets@, ip),
{
    let mut i: usize = 0;
    while i < nets.len()
        invariant
            i <= nets.len(),
            forall|k: int| 0 <= k < i ==> !net_contains(#[trigger] nets@[k], ip),
        decreases nets.len() - i,
    {
        if nets[i].contains(ip) {
            return true;
        }
        i = i + 1;
    }
    false
}

// ---------------------------------------------------------------------
// Reading addresses and networks
// ---------------------------------------------------------------------

/// The address that a text writes, as the standard parser reads it.
pub uninterp spec fn parsed_ip(s: Seq<char>) -> Option<IpAddress>;

/// The network that a text in CIDR notation writes, as `ipnet` reads it.
pub uninterp spec fn parsed_net(s: Seq<char>) -> Option<CidrBlock>;

/// `str::parse` to an `IpAddr`: the bits of the address that `s` writes.
/// The outcome is a function of the text, named `parsed_ip`.
#[verifier::external_body]
fn parse_ip(s: &str) -> (r: Option<IpAddress>)
    ensures
        r == parsed_ip(s@),
{
    match s.parse::<core::net::IpAddr>() {
        Ok(core::net::IpAddr::V4(a)) => Some(IpAddress::V4(u32::from(a))),
        Ok(core::net::IpAddr::V6(a)) => Some(IpAddress::V6(u128::from(a))),
        Err(_) => None,
    }
}

/// `str::parse` to an `ipnet::IpNet`: the address and prefix length of the
/// network that `s` writes. The outcome is a function of the text, named
/// `parsed_net`.
#[verifier::external_body]
fn parse_net(s: &str) -> (r: Option<CidrBlock>)
    ensures
        r == parsed_net(s@),
{
    match s.parse::<ipnet::IpNet>() {
        Ok(ipnet::IpNet::V4(net)) => Some(
            CidrBlock::V4 { addr: u32::from(net.addr()), prefix_len: net.prefix_len() },
        ),
        Ok(ipnet::IpNet::V6(net)) => Some(
            CidrBlock::V6 { addr: u128::from(net.addr()), prefix_len: net.prefix_len() },
        ),
        Err(_) => None,
    }
}

/// The network of one address: the address with its full length as prefix.
pub open spec fn host_net(ip: IpAddress) -> CidrBlock {
    match ip {
        IpAddress::V4(bits) => CidrBlock::V4 { addr: bits, prefix_len: 32 },
        IpAddress::V6(bits) => CidrBlock::V6 { addr: bits, prefix_len: 128 },
    }
}

/// The network that a configured entry stands for, given what the entry
/// reads as: the network where it is one, else the network of the one
/// address where it is an address, else nothing.
pub open spec fn entry_net(net: Option<CidrBlock>, ip: Option<IpAddress>) -> Option<CidrBlock> {
    match net {
        Some(n) => Some(n),
        None => match ip {
            Some(a) => Some(host_net(a)),
            None => None,
        },
    }
}

/// The network that the configured text `entry` stands for: blank entries
/// and entries that are neither a network nor an address stand for none.
pub open spec fn compiled_entry(entry: Seq<char>) -> Option<CidrBlock> {
    let t = trimmed(entry);
    if t.len() == 0 {
        None
    } else {
        entry_net(parsed_net(t), parsed_ip(t))
    }
}

/// The networks that the configured texts stand for, in their order.
pub open spec fn compiled(entries: Seq<Seq<char>>) -> Seq<CidrBlock>
    decreases entries.len(),
{
    if entries.len() == 0 {
        Seq::empty()
    } else {
        let rest = compiled(entries.drop_last());
        match compiled_entry(entries.last()) {
            Some(net) => rest.push(net),
            None => rest,
        }
    }
}

/// The network that an entry stands for, given what it reads as.
pub fn net_of_entry(net: Option<CidrBlock>, ip: Option<IpAddress>) -> (r: Option<CidrBlock>)
    ensures
        r == entry_net(net, ip),
{
    match net {
        Some(n) => Some(n),
        None => match ip {
            Some(IpAddress::V4(bits)) => Some(CidrBlock::V4 { addr: bits, prefix_len: 32 }),
            Some(IpAddress::V6(bits)) => Some(CidrBlock::V6 { addr: bits, prefix_len: 128 }),
            None => None,
        },
    }
}

// ---------------------------------------------------------------------
// The decision
// ---------------------------------------------------------------------

/// The token of a forwarded-for header that names the client: what stands
/// before the first comma, trimmed.
pub open spec fn forwarded_token(header: Seq<char>) -> Seq<char> {
    trimmed(first_segment(header, ','))
}

/// The client that a forwarded-for header claims, if it names one.
pub open spec fn claimed_client(header: Option<Seq<char>>) -> Option<IpAddress> {
    match header {
        Some(h) => match parsed_ip(forwarded_token(h)) {
            Some(ip) => Some(normalized(ip)),
            None => None,
        },
        None => None,
    }
}

/// The verdict on a request and its reason, for a policy with the trusted
/// `proxies` and the `allowed` clients.
pub open spec fn decision(
    proxies: Seq<CidrBlock>,
    allowed: Seq<CidrBlock>,
    remote: IpAddress,
    client: Option<IpAddress>,
) -> (bool, Seq<char>) {
    let remote = normalized(remote);
    if proxies.len() == 0 {
        if allowed.len() == 0 {
            (true, "no proxies configured and no allowed_ips -> allow all"@)
        } else if in_nets(allowed, remote) {
            (true, "remote addr in allowed_ips"@)
        } else {
            (false, "remote addr not in allowed_ips"@)
        }
    } else if !in_nets(proxies, remote) {
        (false, "request did not come from trusted proxy"@)
    } else if allowed.len() == 0 {
        (true, "Trusted proxy -> No allowed_ips configured -> allow all"@)
    } else {
        match client {
            Some(ip) if in_nets(allowed, ip) => (true, "client ip from header in allowed_ips"@),
            _ => (false, "client ip not allowed"@),
        }
    }
}

/// What becomes of a request.
#[derive(Clone, Copy, Debug, PartialEq, Eq, Structural)]
pub enum AccessOutcome {
    /// The request goes on to the served tree.
    Forward,
    /// The request is answered as forbidden.
    Forbidden,
}

/// The access policy, compiled once from the configured texts.
#[derive(Debug)]
pub struct AccessControl {
    pub allowed_proxies: Vec<CidrBlock>,
    pub allowed_ips: Vec<CidrBlock>,
}

impl AccessControl {
    /// Compiles a policy from the configured allowed clients and trusted
    /// proxies. Entries that are blank or cannot be read are left out.
    pub fn new(allowed_ips: Vec<String>, allowed_proxies: Vec<String>) -> (policy: Self)
        ensures
            policy.allowed_ips@ == compiled(texts(allowed_ips@)),
            policy.allowed_proxies@ == compiled(texts(allowed_proxies@)),
    {
        AccessControl {
            allowed_proxies: Self::compile_nets(allowed_proxies),
            allowed_ips: Self::compile_nets(allowed_ips),
        }
    }

    /// The networks that the configured texts stand for: each text is
    /// trimmed and read as a network, else as a single address.
    pub fn compile_nets(entries: Vec<String>) -> (nets: Vec<CidrBlock>)
        ensures
            nets@ == compiled(texts(entries@)),
    {
        let ghost all = texts(entries@);
        let mut nets: Vec<CidrBlock> = Vec::new();
        let mut i: usize = 0;
        assert(all.take(0) =~= Seq::<Seq<char>>::empty());
        while i < entries.len()
            invariant
                i <= entries.len(),
                all == texts(entries@),
                nets@ == compiled(all.take(i as int)),
            decreases entries.len() - i,
        {
            proof {
                assert(all.take(i + 1).drop_last() =~= all.take(i as int));
                assert(all.take(i + 1).last() == entries@[i as int]@);
            }
            let text = trim(entries[i].as_str());
            if text.as_str().unicode_len() > 0 {
                let net = parse_net(text.as_str());
                let ip = if net.is_none() {
                    parse_ip(text.as_str())
                } else {
                    None
                };
                match net_of_entry(net, ip) {
                    Some(n) => {
                        nets.push(n);
                    },
                    None => {},
                }
            }
            i = i + 1;
        }
        assert(all.take(i as int) =~= all);
        nets
    }

    /// Whether `ip` matches `nets`, as it is or in its IPv4 form.
    pub fn ip_in_nets(ip: IpAddress, nets: &Vec<CidrBlock>) -> (b: bool)
        ensures
            b == in_nets(nets@, ip),
    {
        if any_net_contains(nets, ip) {
            return true;
        }
        match ip {
            IpAddress::V6(bits) => {
                if bits >> 32 == 0xffffu128 {
                    any_net_contains(nets, IpAddress::V4((bits & 0xffff_ffffu128) as u32))
                } else {
                    false
                }
            },
            IpAddress::V4(_) => false,
        }
    }

    /// `ip`, as IPv4 where it is an IPv4 address written inside IPv6.
    pub fn normalize_ip(ip: IpAddress) -> (r: IpAddress)
        ensures
            r == normalized(ip),
    {
        match ip {
            IpAddress::V6(bits) => {
                if bits >> 32 == 0xffffu128 {
                    IpAddress::V4((bits & 0xffff_ffffu128) as u32)
                } else {
                    ip
                }
            },
            IpAddress::V4(_) => ip,
        }
    }

    /// Judges a request from `remote` whose forwarded-for header claims
    /// `client`, an address already normalized, or no client.
    pub fn decide(&self, remote: IpAddress, client: Option<IpAddress>) -> (r: (bool, &'static str))
        ensures
            r.0 == decision(self.allowed_proxies@, self.allowed_ips@, remote, client).0,
            r.1@ == decision(self.allowed_proxies@, self.allowed_ips@, remote, client).1,
    {
        let remote = Self::normalize_ip(remote);
        if self.allowed_proxies.len() == 0 {
            if self.allowed_ips.len() == 0 {
                return (true, "no proxies configured and no allowed_ips -> allow all");
            }
            if Self::ip_in_nets(remote, &self.allowed_ips) {
                return (true, "remote addr in allowed_ips");
            }
            return (false, "remote addr not in allowed_ips");
        }
        if !Self::ip_in_nets(remote, &self.allowed_proxies) {
            return (false, "request did not come from trusted proxy");
        }
        if self.allowed_ips.len() == 0 {
            return (true, "Trusted proxy -> No allowed_ips configured -> allow all");
        }
        match client {
            Some(ip) => {
                if Self::ip_in_nets(ip, &self.allowed_ips) {
                    (true, "client ip from header in allowed_ips")
                } else {
                    (false, "client ip not allowed")
                }
            },
            None => (false, "client ip not allowed"),
        }
    }

    /// The client that the forwarded-for header `xff` claims: its first
    /// token, read as an address and normalized.
    pub fn forwarded_client(xff: Option<&str>) -> (client: Option<IpAddress>)
        ensures
            client == claimed_client(
                match xff {
                    Some(h) => Some(h@),
                    None => None,
                },
            ),
    {
        match xff {
            None => None,
            Some(header) => {
                let chars = chars_of(header);
                let cut = find_char(&chars, ',');
                let first = string_of(&chars, 0, cut);
                assert(first@ =~= first_segment(header@, ','));
                let token = trim(first.as_str());
                match parse_ip(token.as_str()) {
                    Some(ip) => Some(Self::normalize_ip(ip)),
                    None => None,
                }
            },
        }
    }

    /// Judges a request from `remote` with the forwarded-for header `xff`:
    /// the verdict and its reason.
    pub fn is_allowed(&self, remote: IpAddress, xff: Option<&str>) -> (r: (bool, &'static str))
        ensures
            r.0 == decision(
                self.allowed_proxies@,
                self.allowed_ips@,
                remote,
                claimed_client(
                    match xff {
                        Some(h) => Some(h@),
                        None => None,
                    },
                ),
            ).0,
            r.1@ == decision(
                self.allowed_proxies@,
                self.allowed_ips@,
                remote,
                claimed_client(
                    match xff {
                        Some(h) => Some(h@),
                        None => None,
                    },
                ),
            ).1,
    {
        let client = Self::forwarded_client(xff);
        self.decide(remote, client)
    }
}

/// What becomes of a request: it goes on where the remote
/// address is known and the policy allows it, and is forbidden otherwise.
pub fn access_control(policy: &AccessControl, remote: Option<IpAddress>, xff: Option<&str>) -> (r:
    AccessOutcome)
    ensures
        r == (match remote {
            Some(ip) if decision(
                policy.allowed_proxies@,
                policy.allowed_ips@,
                ip,
                claimed_client(
                    match xff {
                        Some(h) => Some(h@),
                        None => None,
                    },
                ),
            ).0 => AccessOutcome::Forward,
            _ => AccessOutcome::Forbidden,
        }),
{
    match remote {
        Some(ip) => {
            let (allowed, _reason) = policy.is_allowed(ip, xff);
            if allowed {
                AccessOutcome::Forward
            } else {
                AccessOutcome::Forbidden
            }
        },
        None => AccessOutcome::Forbidden,
    }
}

// ---------------------------------------------------------------------
// Configured lists
// ---------------------------------------------------------------------

/// The entries of a comma-separated list: the parts between the commas,
/// trimmed, without those that are blank.
pub open spec fn listed_items(raw: Seq<char>) -> Seq<Seq<char>>
    decreases raw.len(),
{
    let cut = index_of(raw, ',');
    let head = trimmed(raw.take(cut));
    let here = if head.len() > 0 {
        seq![head]
    } else {
        Seq::empty()
    };
    if 0 <= cut < raw.len() {
        here + listed_items(raw.skip(cut + 1))
    } else {
        here
    }
}

/// Reads a comma-separated list of addresses and networks as it is
/// configured: each entry trimmed, blank entries left out.
pub fn parse_address_list(raw: &str) -> (items: Vec<String>)
    ensures
        texts(items@) == listed_items(raw@),
{
    let chars = chars_of(raw);
    let mut items: Vec<String> = Vec::new();
    let mut start: usize = 0;
    let mut done = false;
    assert(chars@.skip(0) =~= chars@);
    assert(texts(items@) =~= Seq::<Seq<char>>::empty());
    while !done
        invariant
            chars@ == raw@,
            start <= chars.len(),
            !done ==> listed_items(raw@) == texts(items@) + listed_items(
                chars@.skip(start as int),
            ),
            done ==> listed_items(raw@) == texts(items@),
        decreases chars.len() - start + (if done { 0int } else { 1int }),
    {
        let ghost rest = chars@.skip(start as int);
        let ghost shown = texts(items@);
        let mut end: usize = start;
        while end < chars.len() && chars[end] != ','
            invariant
                start <= end <= chars.len(),
                forall|k: int| start <= k < end ==> chars@[k] != ',',
            decreases chars.len() - end,
        {
            end = end + 1;
        }
        proof {
            assert forall|k: int| 0 <= k < end - start implies rest[k] != ',' by {
                assert(rest[k] == chars@[start + k]);
            }
            if end < chars.len() {
                assert(rest[end - start] == ',');
            }
            crate::text::lemma_index_of_unique(rest, ',', end - start);
            assert(rest.take(end - start) =~= chars@.subrange(start as int, end as int));
        }
        let part = string_of(&chars, start, end);
        let item = trim(part.as_str());
        if item.as_str().unicode_len() > 0 {
            items.push(item);
            assert(texts(items@) =~= shown + seq![trimmed(rest.take(end - start))]);
        } else {
            assert(texts(items@) =~= shown + Seq::<Seq<char>>::empty());
        }
        if end < chars.len() {
            assert(rest.skip(end - start + 1) =~= chars@.skip(end + 1));
            assert(listed_items(raw@) =~= texts(items@) + listed_items(chars@.skip(end + 1)));
            start = end + 1;
        } else {
            assert(listed_items(raw@) =~= texts(items@));
            done = true;
        }
    }
    items
}

} // verus!
