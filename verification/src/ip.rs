//! IP addresses and CIDR networks, as the trusted-proxy policy needs
//! them: a dotted-quad parser, prefix containment, loopback detection,
//! textual rendering, and parsing of the configured proxy list.
//!
//! Addresses are held as plain integers (32 or 128 bits). Textual
//! addresses are read in IPv4 dotted-quad form and in IPv6 hex-group
//! form, with one `::` for a zero run and an optional embedded
//! dotted-quad tail.

use vstd::prelude::*;

verus! {

use crate::text::{
    split_bytes,
    split_vec,
    trim_spec,
    trim_vec,
    ascii_to_string,
};

/// An IP address, either family, as a plain integer (network byte order,
/// most significant first).
#[derive(Clone, Copy, Debug, PartialEq, Eq, Structural)]
pub enum IpAddress {
    V4(u32),
    V6(u128),
}

/// A CIDR network: an address and a prefix length.
#[derive(Clone, Copy, Debug, PartialEq, Eq, Structural)]
pub struct IpNetwork {
    pub addr: IpAddress,
    pub prefix: u8,
}

impl IpAddress {
    /// Is this a loopback address (127.0.0.0/8 or ::1)?
    pub open spec fn is_loopback_spec(self) -> bool {
        match self {
            IpAddress::V4(ip) => ip >> 24 == 127,
            IpAddress::V6(ip) => ip == 1,
        }
    }

    /// Is this a loopback address (127.0.0.0/8 or ::1)?
    pub fn is_loopback(&self) -> (r: bool)
        ensures
            r == self.is_loopback_spec(),
    {
        match self {
            IpAddress::V4(ip) => *ip >> 24 == 127,
            IpAddress::V6(ip) => *ip == 1,
        }
    }
}

impl IpNetwork {
    /// A prefix length no longer than the address.
    pub open spec fn wf(self) -> bool {
        match self.addr {
            IpAddress::V4(_) => self.prefix <= 32,
            IpAddress::V6(_) => self.prefix <= 128,
        }
    }

    /// Does the network contain the address? An address of the other
    /// family is never contained; a zero prefix contains every address
    /// of its family.
    pub open spec fn contains_spec(self, ip: IpAddress) -> bool {
        match (self.addr, ip) {
            (IpAddress::V4(net), IpAddress::V4(host)) => self.prefix == 0 || (self.prefix <= 32
                && host >> ((32 - self.prefix) as u32) == net >> ((32 - self.prefix) as u32)),
            (IpAddress::V6(net), IpAddress::V6(host)) => self.prefix == 0 || (self.prefix <= 128
                && host >> ((128 - self.prefix) as u128) == net >> ((128 - self.prefix) as u128)),
            _ => false,
        }
    }

    /// Does the network contain the address?
    pub fn contains(&self, ip: &IpAddress) -> (r: bool)
        requires
            self.wf(),
        ensures
            r == self.contains_spec(*ip),
    {
        match (&self.addr, ip) {
            (IpAddress::V4(net), IpAddress::V4(host)) => {
                if self.prefix == 0 {
                    true
                } else {
                    let shift: u32 = 32 - (self.prefix as u32);
                    (*host >> shift) == (*net >> shift)
                }
            },
            (IpAddress::V6(net), IpAddress::V6(host)) => {
                if self.prefix == 0 {
                    true
                } else {
                    let shift: u128 = 128 - (self.prefix as u128);
                    (*host >> shift) == (*net >> shift)
                }
            },
            _ => false,
        }
    }
}

/// An ASCII decimal digit.
pub open spec fn is_digit(b: u8) -> bool {
    48 <= b && b <= 57
}

/// One to three decimal digits, no leading zero.
pub open spec fn is_valid_decimal(p: Seq<u8>) -> bool {
    &&& 1 <= p.len() <= 3
    &&& forall|i: int| 0 <= i < p.len() ==> is_digit(#[trigger] p[i])
    &&& (p.len() > 1 ==> p[0] != 48)
}

/// The value of up to three decimal digits.
pub open spec fn decimal_val(p: Seq<u8>) -> int {
    if p.len() == 1 {
        p[0] - 48
    } else if p.len() == 2 {
        (p[0] - 48) * 10 + (p[1] - 48)
    } else if p.len() == 3 {
        (p[0] - 48) * 100 + (p[1] - 48) * 10 + (p[2] - 48)
    } else {
        0
    }
}

/// A dotted-quad octet: decimal digits standing for at most 255.
pub open spec fn is_valid_octet(p: Seq<u8>) -> bool {
    is_valid_decimal(p) && decimal_val(p) <= 255
}

/// A textual IPv4 address: four octets separated by dots.
pub open spec fn is_valid_ipv4(s: Seq<u8>) -> bool {
    let ps = split_bytes(s, 46);
    ps.len() == 4 && forall|i: int| 0 <= i < 4 ==> is_valid_octet(#[trigger] ps[i])
}

/// The address a valid textual IPv4 address stands for.
pub open spec fn ipv4_of(s: Seq<u8>) -> u32 {
    let ps = split_bytes(s, 46);
    (decimal_val(ps[0]) * 0x1000000 + decimal_val(ps[1]) * 0x10000 + decimal_val(ps[2]) * 0x100
        + decimal_val(ps[3])) as u32
}

/// Parse one to three decimal digits with no leading zero; values above
/// `max` are rejected.
fn parse_decimal(p: &Vec<u8>, max: u32) -> (r: Option<u32>)
    requires
        max <= 255,
    ensures
        match r {
            Some(v) => is_valid_decimal(p@) && decimal_val(p@) == v && v <= max,
            None => !(is_valid_decimal(p@) && decimal_val(p@) <= max),
        },
{
    if p.len() < 1 || p.len() > 3 {
        return None;
    }
    let mut i: usize = 0;
    while i < p.len()
        invariant
            i <= p@.len(),
            forall|j: int| 0 <= j < i ==> is_digit(#[trigger] p@[j]),
        decreases p@.len() - i,
    {
        if p[i] < 48 || p[i] > 57 {
            return None;
        }
        i = i + 1;
    }
    if p.len() > 1 && p[0] == 48 {
        return None;
    }
    let v: u32 = if p.len() == 1 {
        (p[0] - 48) as u32
    } else if p.len() == 2 {
        (p[0] - 48) as u32 * 10 + (p[1] - 48) as u32
    } else {
        (p[0] - 48) as u32 * 100 + (p[1] - 48) as u32 * 10 + (p[2] - 48) as u32
    };
    if v > max {
        return None;
    }
    Some(v)
}

/// Parse a textual IPv4 address in dotted-quad form.
pub fn parse_ipv4(s: &Vec<u8>) -> (r: Option<u32>)
    ensures
        match r {
            Some(v) => is_valid_ipv4(s@) && v == ipv4_of(s@),
            None => !is_valid_ipv4(s@),
        },
{
    let parts = split_vec(s, 46);
    if parts.len() != 4 {
        return None;
    }
    proof {
        assert(split_bytes(s@, 46)[0] == parts@.map_values(|p: Vec<u8>| p@)[0]);
        assert(split_bytes(s@, 46)[1] == parts@.map_values(|p: Vec<u8>| p@)[1]);
        assert(split_bytes(s@, 46)[2] == parts@.map_values(|p: Vec<u8>| p@)[2]);
        assert(split_bytes(s@, 46)[3] == parts@.map_values(|p: Vec<u8>| p@)[3]);
    }
    let v0 = match parse_decimal(&parts[0], 255) {
        Some(v) => v,
        None => {
            return None;
        },
    };
    let v1 = match parse_decimal(&parts[1], 255) {
        Some(v) => v,
        None => {
            return None;
        },
    };
    let v2 = match parse_decimal(&parts[2], 255) {
        Some(v) => v,
        None => {
            return None;
        },
    };
    let v3 = match parse_decimal(&parts[3], 255) {
        Some(v) => v,
        None => {
            return None;
        },
    };
    Some(v0 * 0x1000000 + v1 * 0x10000 + v2 * 0x100 + v3)
}

/// An ASCII hex digit, either case.
pub open spec fn is_hex_digit(b: u8) -> bool {
    is_digit(b) || (97 <= b && b <= 102) || (65 <= b && b <= 70)
}

/// The value of one hex digit.
pub open spec fn hex_val(b: u8) -> int {
    if is_digit(b) {
        b - 48
    } else if 97 <= b && b <= 102 {
        b - 87
    } else {
        b - 55
    }
}

/// One to four hex digits: one 16-bit group of a textual IPv6 address.
pub open spec fn is_valid_group(p: Seq<u8>) -> bool {
    1 <= p.len() <= 4 && forall|i: int| 0 <= i < p.len() ==> is_hex_digit(#[trigger] p[i])
}

/// The value of up to four hex digits.
pub open spec fn group_val(p: Seq<u8>) -> int {
    if p.len() == 1 {
        hex_val(p[0])
    } else if p.len() == 2 {
        hex_val(p[0]) * 16 + hex_val(p[1])
    } else if p.len() == 3 {
        hex_val(p[0]) * 256 + hex_val(p[1]) * 16 + hex_val(p[2])
    } else if p.len() == 4 {
        hex_val(p[0]) * 4096 + hex_val(p[1]) * 256 + hex_val(p[2]) * 16 + hex_val(p[3])
    } else {
        0
    }
}

/// The values of a run of groups.
pub open spec fn group_vals(parts: Seq<Seq<u8>>) -> Seq<int> {
    parts.map_values(|p: Seq<u8>| group_val(p))
}

/// So many zero groups.
pub open spec fn zero_groups(k: int) -> Seq<int> {
    Seq::new(k as nat, |i: int| 0)
}

/// The address eight 16-bit groups stand for, most significant first.
pub open spec fn groups_val(g: Seq<int>) -> int
    decreases g.len(),
{
    if g.len() == 0 {
        0
    } else {
        groups_val(g.drop_last()) * 0x10000 + g.last()
    }
}

/// The first empty part, or -1.
pub open spec fn find_empty(parts: Seq<Seq<u8>>) -> int
    decreases parts.len(),
{
    if parts.len() == 0 {
        -1
    } else if parts[0].len() == 0 {
        0
    } else {
        let r = find_empty(parts.skip(1));
        if r < 0 {
            -1
        } else {
            r + 1
        }
    }
}

/// When `i` is the first empty part, `find_empty` returns `i`.
proof fn lemma_find_empty_at(parts: Seq<Seq<u8>>, i: int)
    requires
        0 <= i < parts.len(),
        parts[i].len() == 0,
        forall|j: int| 0 <= j < i ==> (#[trigger] parts[j]).len() != 0,
    ensures
        find_empty(parts) == i,
    decreases parts.len(),
{
    if i > 0 {
        assert forall|j: int| 0 <= j < i - 1 implies (#[trigger] parts.skip(1)[j]).len() != 0 by {
            assert(parts.skip(1)[j] == parts[j + 1]);
        }
        assert(parts.skip(1)[i - 1] == parts[i]);
        lemma_find_empty_at(parts.skip(1), i - 1);
    }
}

/// When no part is empty, `find_empty` returns -1.
proof fn lemma_find_empty_none(parts: Seq<Seq<u8>>)
    requires
        forall|j: int| 0 <= j < parts.len() ==> (#[trigger] parts[j]).len() != 0,
    ensures
        find_empty(parts) == -1,
    decreases parts.len(),
{
    if parts.len() > 0 {
        assert forall|j: int|
            0 <= j < parts.skip(1).len() implies (#[trigger] parts.skip(1)[j]).len() != 0 by {
            assert(parts.skip(1)[j] == parts[j + 1]);
        }
        lemma_find_empty_none(parts.skip(1));
    }
}

/// What the final part of a run stands for: one hex group, or — only in
/// the last position of an address — an embedded dotted quad, which
/// stands for two groups.
pub open spec fn tail_groups(p: Seq<u8>) -> Option<Seq<int>> {
    if is_valid_group(p) {
        Some(seq![group_val(p)])
    } else if is_valid_ipv4(p) {
        Some(seq![(ipv4_of(p) >> 16) as int, (ipv4_of(p) & 0xffff) as int])
    } else {
        None
    }
}

/// The groups of the parts `[from, to)`, where every part but the last
/// is a hex group and the last may also be a dotted quad.
pub open spec fn run_with_tail(parts: Seq<Seq<u8>>, from: int, to: int) -> Option<Seq<int>> {
    if from >= to {
        Some(Seq::empty())
    } else if (forall|i: int| from <= i < to - 1 ==> is_valid_group(#[trigger] parts[i]))
        && tail_groups(parts[to - 1]) is Some {
        Some(group_vals(parts.subrange(from, to - 1)) + tail_groups(parts[to - 1])->0)
    } else {
        None
    }
}

/// The address a textual IPv6 address stands for: colon-separated hex
/// groups, eight of them, or fewer around one `::` that stands for the
/// missing zero groups; the final part may be an embedded dotted quad
/// (two groups).
pub open spec fn parsed_ipv6(s: Seq<u8>) -> Option<u128> {
    let parts = split_bytes(s, 58);
    let n = parts.len() as int;
    let e = find_empty(parts);
    if e == -1 {
        // A full address, no compression.
        match run_with_tail(parts, 0, n) {
            Some(g) => if g.len() == 8 {
                Some(groups_val(g) as u128)
            } else {
                None
            },
            None => None,
        }
    } else if e == 0 {
        // Leading `::`, possibly the whole address.
        if n >= 3 && parts[1].len() == 0 {
            if n == 3 && parts[2].len() == 0 {
                Some(0)
            } else {
                match run_with_tail(parts, 2, n) {
                    Some(g) => if g.len() <= 7 {
                        Some(groups_val(zero_groups(8 - g.len()) + g) as u128)
                    } else {
                        None
                    },
                    None => None,
                }
            }
        } else {
            None
        }
    } else if e == n - 2 && parts[n - 1].len() == 0 {
        // Trailing `::`: nothing follows, so no dotted-quad tail.
        if n >= 3 && n <= 9 && (forall|i: int| 0 <= i < n - 2 ==> is_valid_group(
            #[trigger] parts[i],
        )) {
            Some(groups_val(group_vals(parts.take(n - 2)) + zero_groups(10 - n)) as u128)
        } else {
            None
        }
    } else if 1 <= e <= n - 2 {
        // One interior `::`.
        if forall|i: int| 0 <= i < e ==> is_valid_group(#[trigger] parts[i]) {
            match run_with_tail(parts, e + 1, n) {
                Some(g) => if e + g.len() <= 7 {
                    Some(
                        groups_val(
                            group_vals(parts.take(e)) + zero_groups(8 - e - g.len()) + g,
                        ) as u128,
                    )
                } else {
                    None
                },
                None => None,
            }
        } else {
            None
        }
    } else {
        None
    }
}

/// The address a textual form stands for: a dotted quad, else an IPv6
/// form.
pub open spec fn parsed_ip(s: Seq<u8>) -> Option<IpAddress> {
    if is_valid_ipv4(s) {
        Some(IpAddress::V4(ipv4_of(s)))
    } else {
        match parsed_ipv6(s) {
            Some(v) => Some(IpAddress::V6(v)),
            None => None,
        }
    }
}

/// Parse one hex group.
fn parse_group(p: &Vec<u8>) -> (r: Option<u16>)
    ensures
        match r {
            Some(v) => is_valid_group(p@) && group_val(p@) == v,
            None => !is_valid_group(p@),
        },
{
    if p.len() < 1 || p.len() > 4 {
        return None;
    }
    let mut i: usize = 0;
    let mut v: u16 = 0;
    while i < p.len()
        invariant
            i <= p@.len(),
            1 <= p@.len() <= 4,
            forall|j: int| 0 <= j < i ==> is_hex_digit(#[trigger] p@[j]),
            i == 0 ==> v == 0,
            i == 1 ==> v < 16,
            i == 2 ==> v < 256,
            i == 3 ==> v < 4096,
            i >= 1 ==> v as int == group_val(p@.take(i as int)),
        decreases p@.len() - i,
    {
        let b = p[i];
        let d: u16 = if 48 <= b && b <= 57 {
            (b - 48) as u16
        } else if 97 <= b && b <= 102 {
            (b - 87) as u16
        } else if 65 <= b && b <= 70 {
            (b - 55) as u16
        } else {
            return None;
        };
        v = v * 16 + d;
        proof {
            assert(d as int == hex_val(p@[i as int]));
            assert(forall|j: int| 0 <= j <= i ==> p@.take(i + 1)[j] == p@[j]);
            if i >= 1 {
                assert(forall|j: int| 0 <= j < i ==> p@.take(i as int)[j] == p@[j]);
            }
        }
        i = i + 1;
    }
    proof {
        assert(p@.take(p@.len() as int) =~= p@);
    }
    Some(v)
}

/// Locate the first empty part.
fn find_empty_exec(parts: &Vec<Vec<u8>>) -> (r: Option<usize>)
    ensures
        match r {
            Some(i) => i < parts@.len() && find_empty(parts@.map_values(|p: Vec<u8>| p@)) == i,
            None => find_empty(parts@.map_values(|p: Vec<u8>| p@)) == -1,
        },
{
    let ghost pviews = parts@.map_values(|p: Vec<u8>| p@);
    let mut i: usize = 0;
    while i < parts.len()
        invariant
            i <= parts@.len(),
            pviews == parts@.map_values(|p: Vec<u8>| p@),
            pviews.len() == parts@.len(),
            forall|j: int| 0 <= j < i ==> (#[trigger] pviews[j]).len() != 0,
        decreases parts@.len() - i,
    {
        proof {
            assert(pviews[i as int] == parts@[i as int]@);
        }
        if parts[i].len() == 0 {
            proof {
                lemma_find_empty_at(pviews, i as int);
            }
            return Some(i);
        }
        i = i + 1;
    }
    proof {
        lemma_find_empty_none(pviews);
    }
    None
}

/// The byte views of split parts.
pub open spec fn part_views(parts: Seq<Vec<u8>>) -> Seq<Seq<u8>> {
    parts.map_values(|p: Vec<u8>| p@)
}

/// Parse a run of parts as hex groups.
fn parse_groups_range(parts: &Vec<Vec<u8>>, from: usize, to: usize) -> (r: Option<Vec<u16>>)
    requires
        from <= to <= parts@.len(),
    ensures
        match r {
            Some(g) => {
                &&& forall|j: int|
                    from <= j < to ==> is_valid_group(#[trigger] part_views(parts@)[j])
                &&& g@.len() == to - from
                &&& forall|j: int|
                    0 <= j < g@.len() ==> (#[trigger] g@[j]) as int == group_val(
                        part_views(parts@)[from + j],
                    )
            },
            None => !(forall|j: int|
                from <= j < to ==> is_valid_group(#[trigger] part_views(parts@)[j])),
        },
{
    let ghost pviews = part_views(parts@);
    let mut g: Vec<u16> = Vec::new();
    let mut k = from;
    while k < to
        invariant
            from <= k <= to <= parts@.len(),
            pviews == part_views(parts@),
            pviews.len() == parts@.len(),
            g@.len() == k - from,
            forall|j: int| from <= j < k ==> is_valid_group(#[trigger] pviews[j]),
            forall|j: int|
                0 <= j < g@.len() ==> (#[trigger] g@[j]) as int == group_val(pviews[from + j]),
        decreases to - k,
    {
        proof {
            assert(pviews[k as int] == parts@[k as int]@);
        }
        match parse_group(&parts[k]) {
            Some(v) => g.push(v),
            None => {
                return None;
            },
        }
        k = k + 1;
    }
    Some(g)
}

/// So many zero groups, executable form.
fn zero_groups_vec(k: usize) -> (r: Vec<u16>)
    ensures
        r@.len() == k,
        forall|j: int| 0 <= j < k ==> (#[trigger] r@[j]) == 0u16,
{
    let mut r: Vec<u16> = Vec::new();
    let mut i: usize = 0;
    while i < k
        invariant
            i <= k,
            r@.len() == i,
            forall|j: int| 0 <= j < i ==> (#[trigger] r@[j]) == 0u16,
        decreases k - i,
    {
        r.push(0);
        i = i + 1;
    }
    r
}

/// Parse the parts `[from, to)`, where the part at `to - 1` may also be
/// an embedded dotted quad.
fn parse_run_with_tail(parts: &Vec<Vec<u8>>, from: usize, to: usize) -> (r: Option<Vec<u16>>)
    requires
        from <= to <= parts@.len(),
    ensures
        match r {
            Some(g) => run_with_tail(part_views(parts@), from as int, to as int) == Some(
                g@.map_values(|x: u16| x as int),
            ),
            None => run_with_tail(part_views(parts@), from as int, to as int) is None,
        },
{
    let ghost pviews = part_views(parts@);
    if from >= to {
        let g: Vec<u16> = Vec::new();
        proof {
            assert(g@.map_values(|x: u16| x as int) =~= Seq::<int>::empty());
        }
        return Some(g);
    }
    let mut g = match parse_groups_range(parts, from, to - 1) {
        Some(g) => g,
        None => {
            return None;
        },
    };
    proof {
        assert(pviews[to - 1] == parts@[to - 1]@);
        assert forall|j: int| 0 <= j < to - 1 - from implies #[trigger] group_vals(
            pviews.subrange(from as int, to - 1),
        )[j] == group_val(pviews[from + j]) by {
            assert(pviews.subrange(from as int, to - 1)[j] == pviews[from + j]);
        }
    }
    match parse_group(&parts[to - 1]) {
        Some(v) => {
            g.push(v);
            proof {
                assert(g@.map_values(|x: u16| x as int) =~= group_vals(
                    pviews.subrange(from as int, to - 1),
                ) + tail_groups(pviews[to - 1])->0);
            }
            Some(g)
        },
        None => {
            match parse_ipv4(&parts[to - 1]) {
                Some(v4) => {
                    proof {
                        assert((v4 >> 16) < 0x10000 && (v4 & 0xffff) < 0x10000) by (bit_vector);
                    }
                    g.push((v4 >> 16) as u16);
                    g.push((v4 & 0xffff) as u16);
                    proof {
                        assert(g@.map_values(|x: u16| x as int) =~= group_vals(
                            pviews.subrange(from as int, to - 1),
                        ) + tail_groups(pviews[to - 1])->0);
                    }
                    Some(g)
                },
                None => None,
            }
        },
    }
}

/// Parse a textual IPv6 address.
pub fn parse_ipv6(s: &Vec<u8>) -> (r: Option<u128>)
    ensures
        r == parsed_ipv6(s@),
{
    let parts = split_vec(s, 58);
    let ghost pviews = split_bytes(s@, 58);
    let n = parts.len();
    proof {
        assert(pviews.len() == n);
        assert(pviews == part_views(parts@));
    }
    match find_empty_exec(&parts) {
        None => {
            // A full address, no compression.
            let g = match parse_run_with_tail(&parts, 0, n) {
                Some(g) => g,
                None => {
                    return None;
                },
            };
            if g.len() != 8 {
                return None;
            }
            Some(fold_groups(&g))
        },
        Some(e) => {
            proof {
                assert(pviews[e as int] == parts@[e as int]@);
            }
            if e == 0 {
                // Leading `::`, possibly the whole address.
                if n < 3 {
                    return None;
                }
                proof {
                    assert(pviews[1] == parts@[1]@);
                    assert(pviews[2] == parts@[2]@);
                }
                if parts[1].len() != 0 {
                    return None;
                }
                if n == 3 && parts[2].len() == 0 {
                    return Some(0);
                }
                let right = match parse_run_with_tail(&parts, 2, n) {
                    Some(g) => g,
                    None => {
                        return None;
                    },
                };
                if right.len() > 7 {
                    return None;
                }
                let mut g = zero_groups_vec(8 - right.len());
                let mut right = right;
                g.append(&mut right);
                proof {
                    assert(g@.map_values(|x: u16| x as int) =~= zero_groups(
                        8 - run_with_tail(pviews, 2, n as int)->0.len(),
                    ) + run_with_tail(pviews, 2, n as int)->0);
                }
                Some(fold_groups(&g))
            } else if e == n - 2 && parts[n - 1].len() == 0 {
                // Trailing `::`: nothing follows, so no dotted-quad tail.
                proof {
                    assert(pviews[n - 1] == parts@[n - 1]@);
                }
                if n < 3 || n > 9 {
                    return None;
                }
                let left = match parse_groups_range(&parts, 0, n - 2) {
                    Some(g) => g,
                    None => {
                        return None;
                    },
                };
                let mut g = left;
                let mut zs = zero_groups_vec(10 - n);
                g.append(&mut zs);
                proof {
                    assert forall|j: int| 0 <= j < n - 2 implies #[trigger] group_vals(
                        pviews.take(n - 2),
                    )[j] == group_val(pviews[j]) by {
                        assert(pviews.take(n - 2)[j] == pviews[j]);
                    }
                    assert(g@.map_values(|x: u16| x as int) =~= group_vals(pviews.take(n - 2))
                        + zero_groups(10 - n as int));
                }
                Some(fold_groups(&g))
            } else {
                // One interior `::`.
                proof {
                    if e + 2 == n {
                        assert(pviews[n - 1] == parts@[n - 1]@);
                    }
                }
                if e + 1 >= n {
                    return None;
                }
                let left = match parse_groups_range(&parts, 0, e) {
                    Some(g) => g,
                    None => {
                        return None;
                    },
                };
                let right = match parse_run_with_tail(&parts, e + 1, n) {
                    Some(g) => g,
                    None => {
                        return None;
                    },
                };
                if e + right.len() > 7 {
                    return None;
                }
                let mut g = left;
                let mut zs = zero_groups_vec(8 - e - right.len());
                g.append(&mut zs);
                let mut right = right;
                g.append(&mut right);
                proof {
                    assert forall|j: int| 0 <= j < e implies #[trigger] group_vals(
                        pviews.take(e as int),
                    )[j] == group_val(pviews[j]) by {
                        assert(pviews.take(e as int)[j] == pviews[j]);
                    }
                    assert(g@.map_values(|x: u16| x as int) =~= group_vals(pviews.take(e as int))
                        + zero_groups(8 - e - run_with_tail(pviews, e + 1, n as int)->0.len())
                        + run_with_tail(pviews, e + 1, n as int)->0);
                }
                Some(fold_groups(&g))
            }
        },
    }
}

/// Sixteen to the `k`.
pub open spec fn pow16(k: int) -> int
    decreases k,
{
    if k <= 0 {
        1
    } else {
        0x10000 * pow16(k - 1)
    }
}

/// Assemble eight 16-bit groups into one value, most significant first.
fn fold_groups(groups: &Vec<u16>) -> (r: u128)
    requires
        groups@.len() == 8,
    ensures
        r as int == groups_val(groups@.map_values(|g: u16| g as int)),
{
    let ghost gview = groups@.map_values(|g: u16| g as int);
    let mut v: u128 = 0;
    let mut i: usize = 0;
    proof {
        reveal_with_fuel(pow16, 9);
    }
    while i < 8
        invariant
            i <= 8,
            groups@.len() == 8,
            gview == groups@.map_values(|g: u16| g as int),
            v as int == groups_val(gview.take(i as int)),
            v as int <= pow16(i as int) - 1,
        decreases 8 - i,
    {
        proof {
            reveal_with_fuel(pow16, 9);
            assert(gview.take(i + 1).drop_last() =~= gview.take(i as int));
            assert(gview.take(i + 1).last() == groups@[i as int] as int);
            assert(pow16(i as int) <= pow16(7));
            assert(pow16(i as int + 1) == 0x10000 * pow16(i as int));
        }
        v = v * 0x10000 + (groups[i] as u128);
        i = i + 1;
    }
    proof {
        assert(gview.take(8) =~= gview);
    }
    v
}

/// Parse a textual IP address, either family.
pub fn parse_ip(s: &Vec<u8>) -> (r: Option<IpAddress>)
    ensures
        r == parsed_ip(s@),
{
    match parse_ipv4(s) {
        Some(v) => Some(IpAddress::V4(v)),
        None => match parse_ipv6(s) {
            Some(v) => Some(IpAddress::V6(v)),
            None => None,
        },
    }
}

/// The decimal digits of a byte value, most significant first.
pub open spec fn dec_u8_bytes(n: u8) -> Seq<u8> {
    if n < 10 {
        seq![(48 + n) as u8]
    } else if n < 100 {
        seq![(48 + n / 10) as u8, (48 + n % 10) as u8]
    } else {
        seq![(48 + n / 100) as u8, (48 + (n / 10) % 10) as u8, (48 + n % 10) as u8]
    }
}

/// The textual form of an IPv4 address.
pub open spec fn ipv4_text(ip: u32) -> Seq<u8> {
    dec_u8_bytes((ip >> 24) as u8) + seq![46u8] + dec_u8_bytes(((ip >> 16) & 0xff) as u8) + seq![
        46u8,
    ] + dec_u8_bytes(((ip >> 8) & 0xff) as u8) + seq![46u8] + dec_u8_bytes((ip & 0xff) as u8)
}

/// The lowercase hex digits of a 16-bit group, no leading zeros.
pub open spec fn hex_u16_bytes(n: u16) -> Seq<u8>
    decreases n,
{
    if n < 16 {
        seq![hex_digit((n % 16) as u8)]
    } else {
        hex_u16_bytes(n / 16).push(hex_digit((n % 16) as u8))
    }
}

/// One lowercase hex digit.
pub open spec fn hex_digit(v: u8) -> u8 {
    if v < 10 {
        (48 + v) as u8
    } else {
        (87 + v) as u8
    }
}

/// The eight 16-bit groups of an address, most significant first.
pub open spec fn ip_groups(ip: u128) -> Seq<u16> {
    seq![
        (ip >> 112) as u16,
        ((ip >> 96) & 0xffff) as u16,
        ((ip >> 80) & 0xffff) as u16,
        ((ip >> 64) & 0xffff) as u16,
        ((ip >> 48) & 0xffff) as u16,
        ((ip >> 32) & 0xffff) as u16,
        ((ip >> 16) & 0xffff) as u16,
        (ip & 0xffff) as u16,
    ]
}

/// How many zero groups run from position `i`.
pub open spec fn zero_run_len(gs: Seq<u16>, i: int) -> int
    decreases gs.len() - i,
{
    if i < 0 || i >= gs.len() || gs[i] != 0 {
        0
    } else {
        1 + zero_run_len(gs, i + 1)
    }
}

/// Is `i` the run the rendering compresses: a zero run of at least two
/// groups, no run longer, and no equal run to its left?
pub open spec fn is_best_run(gs: Seq<u16>, i: int) -> bool {
    &&& 0 <= i < gs.len()
    &&& zero_run_len(gs, i) >= 2
    &&& forall|j: int| 0 <= j < gs.len() ==> zero_run_len(gs, j) <= #[trigger] zero_run_len(gs, i)
    &&& forall|j: int| 0 <= j < i ==> #[trigger] zero_run_len(gs, j) < zero_run_len(gs, i)
}

/// Hex groups joined with colons.
pub open spec fn join_colon(gs: Seq<u16>) -> Seq<u8>
    decreases gs.len(),
{
    if gs.len() == 0 {
        Seq::empty()
    } else if gs.len() == 1 {
        hex_u16_bytes(gs[0])
    } else {
        join_colon(gs.drop_last()) + seq![58u8] + hex_u16_bytes(gs.last())
    }
}

/// The textual form of an IPv6 address: hex groups separated by colons,
/// with the longest zero run of two or more groups (the leftmost on a
/// tie) compressed to `::`.
pub open spec fn ipv6_text(ip: u128) -> Seq<u8> {
    let gs = ip_groups(ip);
    if exists|i: int| is_best_run(gs, i) {
        let i = choose|i: int| is_best_run(gs, i);
        join_colon(gs.take(i)) + seq![58u8, 58u8] + join_colon(gs.skip(i + zero_run_len(gs, i)))
    } else {
        join_colon(gs)
    }
}

/// At most one run is best: any equal run to the right is not leftmost.
pub proof fn lemma_best_run_unique(gs: Seq<u16>, a: int, b: int)
    requires
        is_best_run(gs, a),
        is_best_run(gs, b),
    ensures
        a == b,
{
    if a < b {
        assert(zero_run_len(gs, a) < zero_run_len(gs, b));
        assert(zero_run_len(gs, b) <= zero_run_len(gs, a));
    } else if b < a {
        assert(zero_run_len(gs, b) < zero_run_len(gs, a));
        assert(zero_run_len(gs, a) <= zero_run_len(gs, b));
    }
}

/// A stretch of zeros closed off on the right runs exactly that far.
proof fn lemma_zero_run_exact(gs: Seq<u16>, i: int, k: int)
    requires
        0 <= i <= k <= gs.len(),
        forall|j: int| i <= j < k ==> gs[j] == 0,
        k == gs.len() || gs[k] != 0,
    ensures
        zero_run_len(gs, i) == k - i,
    decreases k - i,
{
    if i < k {
        lemma_zero_run_exact(gs, i + 1, k);
    }
}

/// The textual form of an address, as the library renders it.
pub open spec fn ip_text(ip: IpAddress) -> Seq<u8> {
    match ip {
        IpAddress::V4(v) => ipv4_text(v),
        IpAddress::V6(v) => ipv6_text(v),
    }
}

/// The decimal digits of a byte value, executable form.
fn dec_u8_vec(n: u8) -> (r: Vec<u8>)
    ensures
        r@ == dec_u8_bytes(n),
        forall|i: int| 0 <= i < r@.len() ==> r@[i] < 128,
{
    let mut r: Vec<u8> = Vec::new();
    if n < 10 {
        r.push(48 + n);
    } else if n < 100 {
        r.push(48 + n / 10);
        r.push(48 + n % 10);
    } else {
        r.push(48 + n / 100);
        r.push(48 + (n / 10) % 10);
        r.push(48 + n % 10);
    }
    proof {
        assert(r@ =~= dec_u8_bytes(n));
    }
    r
}

/// The lowercase hex digits of a 16-bit group, executable form.
fn hex_u16_vec(n: u16) -> (r: Vec<u8>)
    ensures
        r@ == hex_u16_bytes(n),
        forall|i: int| 0 <= i < r@.len() ==> r@[i] < 128,
{
    let mut r: Vec<u8> = Vec::new();
    if n >= 4096 {
        r.push(hex_digit_exec(((n / 4096) % 16) as u8));
    }
    if n >= 256 {
        r.push(hex_digit_exec(((n / 256) % 16) as u8));
    }
    if n >= 16 {
        r.push(hex_digit_exec(((n / 16) % 16) as u8));
    }
    r.push(hex_digit_exec((n % 16) as u8));
    proof {
        reveal_with_fuel(hex_u16_bytes, 5);
        assert(n / 16 / 16 == n / 256) by (nonlinear_arith);
        assert(n / 16 / 16 / 16 == n / 4096) by (nonlinear_arith);
        assert(r@ =~= hex_u16_bytes(n));
    }
    r
}

/// One lowercase hex digit, executable form.
pub(crate) fn hex_digit_exec(v: u8) -> (r: u8)
    requires
        v < 16,
    ensures
        r == hex_digit(v),
        r < 128,
{
    if v < 10 {
        48 + v
    } else {
        87 + v
    }
}

/// How many zero groups run from position `i`, executable form.
fn run_len_at(gs: &Vec<u16>, i: usize) -> (r: usize)
    requires
        i <= gs@.len(),
    ensures
        r as int == zero_run_len(gs@, i as int),
        i + r <= gs@.len(),
{
    let mut k = i;
    while k < gs.len() && gs[k] == 0
        invariant
            i <= k <= gs@.len(),
            forall|j: int| i <= j < k ==> gs@[j] == 0u16,
        decreases gs@.len() - k,
    {
        k = k + 1;
    }
    proof {
        lemma_zero_run_exact(gs@, i as int, k as int);
    }
    k - i
}

/// Join the groups `[from, to)` with colons.
fn join_colon_range(gs: &Vec<u16>, from: usize, to: usize) -> (r: Vec<u8>)
    requires
        from <= to <= gs@.len(),
    ensures
        r@ == join_colon(gs@.subrange(from as int, to as int)),
        forall|i: int| 0 <= i < r@.len() ==> r@[i] < 128,
{
    let mut out: Vec<u8> = Vec::new();
    let mut k = from;
    proof {
        assert(out@ =~= join_colon(gs@.subrange(from as int, from as int)));
    }
    while k < to
        invariant
            from <= k <= to <= gs@.len(),
            out@ == join_colon(gs@.subrange(from as int, k as int)),
            forall|i: int| 0 <= i < out@.len() ==> out@[i] < 128,
        decreases to - k,
    {
        proof {
            assert(gs@.subrange(from as int, k + 1).drop_last() =~= gs@.subrange(
                from as int,
                k as int,
            ));
            assert(gs@.subrange(from as int, k + 1).last() == gs@[k as int]);
        }
        if k > from {
            out.push(58);
        }
        let mut h = hex_u16_vec(gs[k]);
        out.append(&mut h);
        proof {
            if k == from {
                assert(gs@.subrange(from as int, k + 1).len() == 1);
                assert(out@ =~= join_colon(gs@.subrange(from as int, k + 1)));
            } else {
                assert(out@ =~= join_colon(gs@.subrange(from as int, k + 1)));
            }
        }
        k = k + 1;
    }
    out
}

/// Render an IPv6 address with its longest zero run compressed.
fn format_ipv6(v: u128) -> (r: Vec<u8>)
    ensures
        r@ == ipv6_text(v),
        forall|i: int| 0 <= i < r@.len() ==> r@[i] < 128,
{
    let gs: Vec<u16> = vec![
        (v >> 112) as u16,
        ((v >> 96) & 0xffff) as u16,
        ((v >> 80) & 0xffff) as u16,
        ((v >> 64) & 0xffff) as u16,
        ((v >> 48) & 0xffff) as u16,
        ((v >> 32) & 0xffff) as u16,
        ((v >> 16) & 0xffff) as u16,
        (v & 0xffff) as u16,
    ];
    proof {
        assert(gs@ =~= ip_groups(v));
    }
    let mut best_i: usize = 0;
    let mut best_len: usize = 0;
    let mut i: usize = 0;
    while i < gs.len()
        invariant
            i <= gs@.len(),
            gs@.len() == 8,
            gs@ == ip_groups(v),
            best_len == 0 || best_len >= 2,
            best_len == 0 ==> forall|j: int| 0 <= j < i ==> #[trigger] zero_run_len(gs@, j) < 2,
            best_len >= 2 ==> {
                &&& best_i < i
                &&& best_i + best_len <= 8
                &&& zero_run_len(gs@, best_i as int) == best_len
                &&& forall|j: int|
                    0 <= j < i ==> #[trigger] zero_run_len(gs@, j) <= best_len as int
                &&& forall|j: int|
                    0 <= j < best_i ==> #[trigger] zero_run_len(gs@, j) < best_len as int
            },
        decreases gs@.len() - i,
    {
        let rl = run_len_at(&gs, i);
        if rl >= 2 && rl > best_len {
            best_i = i;
            best_len = rl;
        }
        i = i + 1;
    }
    if best_len >= 2 {
        proof {
            assert(is_best_run(gs@, best_i as int));
            let c = choose|x: int| is_best_run(gs@, x);
            lemma_best_run_unique(gs@, best_i as int, c);
        }
        let mut out = join_colon_range(&gs, 0, best_i);
        out.push(58);
        out.push(58);
        let mut t = join_colon_range(&gs, best_i + best_len, 8);
        out.append(&mut t);
        proof {
            assert(gs@.take(best_i as int) =~= gs@.subrange(0, best_i as int));
            assert(gs@.skip(best_i + best_len) =~= gs@.subrange(best_i + best_len, 8));
            assert(out@ =~= ipv6_text(v));
        }
        out
    } else {
        proof {
            if exists|x: int| is_best_run(gs@, x) {
                let c = choose|x: int| is_best_run(gs@, x);
                assert(zero_run_len(gs@, c) < 2);
            }
            assert(gs@.subrange(0, 8) =~= gs@);
        }
        join_colon_range(&gs, 0, 8)
    }
}

/// Render an address in its textual form.
pub fn format_ip(ip: &IpAddress) -> (r: String)
    ensures
        r@ == ip_text(*ip).map_values(|b: u8| b as char),
{
    let mut out: Vec<u8> = Vec::new();
    match ip {
        IpAddress::V4(v) => {
            let mut p = dec_u8_vec((*v >> 24) as u8);
            out.append(&mut p);
            out.push(46);
            let mut p = dec_u8_vec(((*v >> 16) & 0xff) as u8);
            out.append(&mut p);
            out.push(46);
            let mut p = dec_u8_vec(((*v >> 8) & 0xff) as u8);
            out.append(&mut p);
            out.push(46);
            let mut p = dec_u8_vec((*v & 0xff) as u8);
            out.append(&mut p);
            proof {
                assert(out@ =~= ip_text(*ip));
            }
        },
        IpAddress::V6(v) => {
            let mut p = format_ipv6(*v);
            out.append(&mut p);
            proof {
                assert(out@ =~= ip_text(*ip));
            }
        },
    }
    ascii_to_string(out)
}

/// The full prefix length of an address's family.
pub open spec fn full_prefix(ip: IpAddress) -> u8 {
    match ip {
        IpAddress::V4(_) => 32,
        IpAddress::V6(_) => 128,
    }
}

/// The network a textual entry stands for: a CIDR such as `10.0.0.0/8`
/// or `fc00::/7`, or a bare address of either family, which counts as a
/// full-length prefix.
pub open spec fn parsed_network(s: Seq<u8>) -> Option<IpNetwork> {
    let parts = split_bytes(s, 47);
    if parts.len() == 1 && parsed_ip(parts[0]) is Some {
        Some(IpNetwork { addr: parsed_ip(parts[0])->0, prefix: full_prefix(parsed_ip(parts[0])->0) })
    } else if parts.len() == 2 && parsed_ip(parts[0]) is Some && is_valid_decimal(parts[1])
        && decimal_val(parts[1]) <= full_prefix(parsed_ip(parts[0])->0) {
        Some(IpNetwork { addr: parsed_ip(parts[0])->0, prefix: decimal_val(parts[1]) as u8 })
    } else {
        None
    }
}

/// Parse a textual CIDR network or bare address.
pub fn parse_network(s: &Vec<u8>) -> (r: Option<IpNetwork>)
    ensures
        r == parsed_network(s@),
        r is Some ==> r->0.wf(),
{
    let parts = split_vec(s, 47);
    if parts.len() == 1 {
        proof {
            assert(split_bytes(s@, 47)[0] == parts@.map_values(|p: Vec<u8>| p@)[0]);
        }
        match parse_ip(&parts[0]) {
            Some(ip) => {
                let prefix: u8 = match ip {
                    IpAddress::V4(_) => 32,
                    IpAddress::V6(_) => 128,
                };
                Some(IpNetwork { addr: ip, prefix })
            },
            None => None,
        }
    } else if parts.len() == 2 {
        proof {
            assert(split_bytes(s@, 47)[0] == parts@.map_values(|p: Vec<u8>| p@)[0]);
            assert(split_bytes(s@, 47)[1] == parts@.map_values(|p: Vec<u8>| p@)[1]);
        }
        match parse_ip(&parts[0]) {
            Some(ip) => {
                let max: u32 = match ip {
                    IpAddress::V4(_) => 32,
                    IpAddress::V6(_) => 128,
                };
                match parse_decimal(&parts[1], max) {
                    Some(p) => Some(IpNetwork { addr: ip, prefix: p as u8 }),
                    None => None,
                }
            },
            None => None,
        }
    } else {
        None
    }
}

/// The private networks that are always trusted as proxies.
pub open spec fn private_networks() -> Seq<IpNetwork> {
    seq![
        IpNetwork { addr: IpAddress::V4(0x0a000000), prefix: 8 },
        IpNetwork { addr: IpAddress::V4(0xac100000), prefix: 12 },
        IpNetwork { addr: IpAddress::V4(0xc0a80000), prefix: 16 },
    ]
}

/// The networks named by a comma-separated configuration value: each
/// entry is trimmed, and entries that are empty or unparsable are
/// dropped.
pub open spec fn parsed_proxy_entries(parts: Seq<Seq<u8>>) -> Seq<IpNetwork>
    decreases parts.len(),
{
    if parts.len() == 0 {
        Seq::empty()
    } else {
        parsed_proxy_entries(parts.drop_last()) + match parsed_network(
            trim_spec(parts.last()),
        ) {
            Some(net) => seq![net],
            None => Seq::empty(),
        }
    }
}

/// Build the trusted-proxy list: the private networks, then every
/// parsable entry of the configured comma-separated list.
pub fn trusted_proxy_list(csv: &Vec<u8>) -> (r: Vec<IpNetwork>)
    ensures
        r@ == private_networks() + parsed_proxy_entries(split_bytes(csv@, 44)),
        forall|i: int| 0 <= i < r@.len() ==> (#[trigger] r@[i]).wf(),
{
    let mut r: Vec<IpNetwork> = Vec::new();
    r.push(IpNetwork { addr: IpAddress::V4(0x0a000000), prefix: 8 });
    r.push(IpNetwork { addr: IpAddress::V4(0xac100000), prefix: 12 });
    r.push(IpNetwork { addr: IpAddress::V4(0xc0a80000), prefix: 16 });
    proof {
        assert(r@ =~= private_networks());
    }
    let parts = split_vec(csv, 44);
    let ghost pviews = split_bytes(csv@, 44);
    let mut i: usize = 0;
    while i < parts.len()
        invariant
            i <= parts@.len(),
            pviews == parts@.map_values(|p: Vec<u8>| p@),
            pviews.len() == parts@.len(),
            r@ == private_networks() + parsed_proxy_entries(pviews.take(i as int)),
            forall|j: int| 0 <= j < r@.len() ==> (#[trigger] r@[j]).wf(),
        decreases parts@.len() - i,
    {
        let t = trim_vec(&parts[i]);
        proof {
            assert(pviews.take(i + 1).drop_last() =~= pviews.take(i as int));
            assert(pviews.take(i + 1).last() == pviews[i as int]);
            assert(parts@.map_values(|p: Vec<u8>| p@)[i as int] == parts@[i as int]@);
        }
        match parse_network(&t) {
            Some(net) => {
                r.push(net);
                proof {
                    assert(r@ =~= private_networks() + parsed_proxy_entries(
                        pviews.take(i + 1),
                    ));
                }
            },
            None => {
                proof {
                    assert(r@ =~= private_networks() + parsed_proxy_entries(
                        pviews.take(i + 1),
                    ));
                }
            },
        }
        i = i + 1;
    }
    proof {
        assert(pviews.take(pviews.len() as int) =~= pviews);
    }
    r
}

/// Is the address inside one of the networks? This is the trusted-proxy
/// test.
pub open spec fn in_networks(nets: Seq<IpNetwork>, ip: IpAddress) -> bool {
    exists|i: int| 0 <= i < nets.len() && (#[trigger] nets[i]).contains_spec(ip)
}

/// Return whether an address is part of the allow list.
pub fn is_trusted_proxy(proxy_list: &Vec<IpNetwork>, host: &IpAddress) -> (r: bool)
    requires
        forall|i: int| 0 <= i < proxy_list@.len() ==> (#[trigger] proxy_list@[i]).wf(),
    ensures
        r == in_networks(proxy_list@, *host),
{
    let mut i: usize = 0;
    while i < proxy_list.len()
        invariant
            i <= proxy_list@.len(),
            forall|j: int| 0 <= j < proxy_list@.len() ==> (#[trigger] proxy_list@[j]).wf(),
            forall|j: int| 0 <= j < i ==> !(#[trigger] proxy_list@[j]).contains_spec(*host),
        decreases proxy_list@.len() - i,
    {
        if proxy_list[i].contains(host) {
            return true;
        }
        i = i + 1;
    }
    false
}

} // verus!
