//! Internet addresses as text: IPv4, IPv6 and socket addresses.
use vstd::prelude::*;

use crate::text::{
    all_digits, chars_of, decimal, digits_value, find, number, parse, position, slice, split,
    split_on, texts, Text,
};

verus! {

broadcast use vstd::string::group_string_axioms;

/// An IPv4 address by its four octets.
#[derive(Clone, Copy, Debug, PartialEq, Eq, Structural)]
pub struct Ipv4 {
    pub a: u8,
    pub b: u8,
    pub c: u8,
    pub d: u8,
}

/// An IP address; a version six address by its eight groups.
#[derive(Clone, Copy, Debug, PartialEq, Eq, Structural)]
pub enum Ip {
    V4(Ipv4),
    V6(u16, u16, u16, u16, u16, u16, u16, u16),
}

/// An IP address with a port; `scope` is zero but for a version six address
/// that names its zone.
#[derive(Clone, Copy, Debug, PartialEq, Eq, Structural)]
pub struct Socket {
    pub ip: Ip,
    pub scope: u32,
    pub port: u16,
}

impl Ipv4 {
    /// The address in dotted decimal.
    pub open spec fn text(self) -> Text {
        decimal(self.a as nat) + seq!['.'] + decimal(self.b as nat) + seq!['.'] + decimal(
            self.c as nat,
        ) + seq!['.'] + decimal(self.d as nat)
    }

    /// The address in dotted decimal.
    pub fn to_text(&self) -> (out: String)
        ensures
            out@ == self.text(),
    {
        let dot = ".";
        proof {
            reveal_strlit(".");
            assert("."@ =~= seq!['.']);
        }
        let mut out = number(self.a as u64);
        out.append(dot);
        out.append(number(self.b as u64).as_str());
        out.append(dot);
        out.append(number(self.c as u64).as_str());
        out.append(dot);
        out.append(number(self.d as u64).as_str());
        out
    }

    /// `127.0.0.0/8`.
    pub open spec fn loopback(self) -> bool {
        self.a == 127
    }

    /// `169.254.0.0/16`.
    pub open spec fn link_local(self) -> bool {
        self.a == 169 && self.b == 254
    }

    /// `0.0.0.0`.
    pub open spec fn unspecified(self) -> bool {
        self.a == 0 && self.b == 0 && self.c == 0 && self.d == 0
    }
}

/// One octet of a dotted address: one to three digits, no leading zero, at
/// most 255.
pub open spec fn octet(s: Text) -> Option<nat> {
    if 1 <= s.len() <= 3 && all_digits(s) && (s.len() == 1 || s[0] != '0') && digits_value(s)
        <= 255 {
        Some(digits_value(s))
    } else {
        None
    }
}

/// The address that a dotted text stands for.
pub open spec fn ipv4(s: Text) -> Option<Ipv4> {
    let p = split_on(s, '.');
    if p.len() == 4 && octet(p[0]) is Some && octet(p[1]) is Some && octet(p[2]) is Some && octet(
        p[3],
    ) is Some {
        Some(
            Ipv4 {
                a: octet(p[0])->0 as u8,
                b: octet(p[1])->0 as u8,
                c: octet(p[2])->0 as u8,
                d: octet(p[3])->0 as u8,
            },
        )
    } else {
        None
    }
}

fn parse_octet(s: &str) -> (r: Option<u8>)
    ensures
        match r {
            Some(n) => octet(s@) == Some(n as nat),
            None => octet(s@) is None,
        },
{
    let v = chars_of(s);
    if v.len() == 0 || v.len() > 3 {
        return None;
    }
    if v.len() > 1 && v[0] == '0' {
        return None;
    }
    if v[0] == '+' {
        return None;
    }
    match parse(s, 255) {
        Some(n) => Some(n as u8),
        None => None,
    }
}

/// Reads a dotted IPv4 address.
pub fn parse_ipv4(s: &str) -> (r: Option<Ipv4>)
    ensures
        r == ipv4(s@),
{
    let p = split(s, '.');
    let ghost t = texts(p@);
    if p.len() != 4 {
        return None;
    }
    proof {
        assert(t[0] == p@[0]@ && t[1] == p@[1]@ && t[2] == p@[2]@ && t[3] == p@[3]@);
    }
    match (
        parse_octet(p[0].as_str()),
        parse_octet(p[1].as_str()),
        parse_octet(p[2].as_str()),
        parse_octet(p[3].as_str()),
    ) {
        (Some(a), Some(b), Some(c), Some(d)) => Some(Ipv4 { a, b, c, d }),
        _ => None,
    }
}

/// The value of a hexadecimal digit.
pub open spec fn hex_digit(c: char) -> Option<nat> {
    if '0' <= c <= '9' {
        Some((c as nat - 48) as nat)
    } else if 'a' <= c <= 'f' {
        Some((c as nat - 87) as nat)
    } else if 'A' <= c <= 'F' {
        Some((c as nat - 55) as nat)
    } else {
        None
    }
}

/// The value of a hexadecimal digit.
pub fn hex_value(c: char) -> (r: Option<u8>)
    ensures
        match r {
            Some(n) => hex_digit(c) == Some(n as nat) && n < 16,
            None => hex_digit(c) is None,
        },
{
    if '0' <= c && c <= '9' {
        Some(c as u8 - 48u8)
    } else if 'a' <= c && c <= 'f' {
        Some(c as u8 - 87u8)
    } else if 'A' <= c && c <= 'F' {
        Some(c as u8 - 55u8)
    } else {
        None
    }
}

/// The number that a row of hexadecimal digits stands for.
pub open spec fn hex_number(s: Text) -> Option<nat>
    decreases s.len(),
{
    if s.len() == 0 {
        Some(0)
    } else {
        match (hex_number(s.drop_last()), hex_digit(s.last())) {
            (Some(n), Some(d)) => Some(n * 16 + d),
            _ => None,
        }
    }
}

/// One group of a version six address: one to four hexadecimal digits.
pub open spec fn hex_group(s: Text) -> Option<nat> {
    if 1 <= s.len() <= 4 {
        hex_number(s)
    } else {
        None
    }
}

proof fn lemma_hex_bad(s: Text, k: int)
    requires
        0 <= k < s.len(),
        hex_digit(s[k]) is None,
    ensures
        hex_number(s) is None,
    decreases s.len(),
{
    if k < s.len() - 1 {
        lemma_hex_bad(s.drop_last(), k);
    }
}

fn parse_group(s: &str) -> (r: Option<u16>)
    ensures
        match r {
            Some(n) => hex_group(s@) == Some(n as nat),
            None => hex_group(s@) is None,
        },
{
    let v = chars_of(s);
    if v.len() == 0 || v.len() > 4 {
        return None;
    }
    let mut n: u32 = 0;
    let mut i: usize = 0;
    proof {
        assert(v@.take(0) =~= Seq::<char>::empty());
    }
    while i < v.len()
        invariant
            v@ == s@,
            1 <= v.len() <= 4,
            i <= v.len(),
            hex_number(v@.take(i as int)) == Some(n as nat),
            i == 0 ==> n < 1,
            i == 1 ==> n < 16,
            i == 2 ==> n < 256,
            i == 3 ==> n < 4096,
            i == 4 ==> n < 65536,
        decreases v.len() - i,
    {
        match hex_value(v[i]) {
            Some(d) => {
                proof {
                    assert(v@.take(i + 1).drop_last() =~= v@.take(i as int));
                }
                n = n * 16 + d as u32;
            },
            None => {
                proof {
                    lemma_hex_bad(s@, i as int);
                }
                return None;
            },
        }
        i = i + 1;
    }
    proof {
        assert(v@.take(v@.len() as int) =~= v@);
    }
    Some(n as u16)
}

/// The groups that the pieces between colons stand for. With `v4`, the last
/// piece may be a dotted address, which fills two groups.
pub open spec fn groups_of(parts: Seq<Text>, v4: bool) -> Option<Seq<u16>>
    decreases parts.len(),
{
    if parts.len() == 0 {
        Some(Seq::empty())
    } else {
        match groups_of(parts.drop_last(), false) {
            Some(init) => match (ipv4(parts.last()), hex_group(parts.last())) {
                (Some(q), _) if v4 => Some(
                    init.push((q.a * 256 + q.b) as u16).push((q.c * 256 + q.d) as u16),
                ),
                (_, Some(n)) => Some(init.push(n as u16)),
                _ => None,
            },
            None => None,
        }
    }
}

/// The groups of one side of a version six address; none in an empty text.
pub open spec fn group_list(s: Text, v4: bool) -> Option<Seq<u16>> {
    if s.len() == 0 {
        Some(Seq::empty())
    } else {
        groups_of(split_on(s, ':'), v4)
    }
}

/// The eight groups that a version six address stands for. A double colon
/// stands for one or more groups of zero.
pub open spec fn ipv6(s: Text) -> Option<Seq<u16>> {
    match find(s, seq![':', ':']) {
        None => match group_list(s, true) {
            Some(g) if g.len() == 8 => Some(g),
            _ => None,
        },
        Some(i) => match (group_list(s.take(i), false), group_list(s.skip(i + 2), true)) {
            (Some(head), Some(tail)) if head.len() + tail.len() <= 7 => Some(
                head + Seq::new((8 - head.len() - tail.len()) as nat, |k: int| 0u16) + tail,
            ),
            _ => None,
        },
    }
}

proof fn lemma_groups_bad(parts: Seq<Text>, v4: bool, k: int)
    requires
        0 <= k < parts.len(),
        hex_group(parts[k]) is None,
        !(v4 && k == parts.len() - 1 && ipv4(parts[k]) is Some),
    ensures
        groups_of(parts, v4) is None,
    decreases parts.len(),
{
    if k < parts.len() - 1 {
        lemma_groups_bad(parts.drop_last(), false, k);
    }
}

fn parse_groups(s: &str, v4: bool) -> (r: Option<Vec<u16>>)
    ensures
        match r {
            Some(g) => group_list(s@, v4) == Some(g@),
            None => group_list(s@, v4) is None,
        },
{
    let mut out: Vec<u16> = Vec::new();
    if s.is_empty() {
        return Some(out);
    }
    let p = split(s, ':');
    let ghost t = texts(p@);
    let mut i: usize = 0;
    proof {
        assert(t.take(0) =~= Seq::<Text>::empty());
    }
    while i < p.len()
        invariant
            s@.len() > 0,
            t == texts(p@),
            t == split_on(s@, ':'),
            i <= p.len(),
            groups_of(t.take(i as int), v4 && i == p.len()) == Some(out@),
        decreases p.len() - i,
    {
        let last: bool = i + 1 == p.len();
        let piece = p[i].as_str();
        proof {
            assert(t[i as int] == piece@);
            assert(t.take(i + 1).drop_last() =~= t.take(i as int));
            assert(t.take(i + 1).last() == piece@);
            if last {
                assert(t.take(i + 1) =~= t);
            }
        }
        if last && v4 {
            if let Some(q) = parse_ipv4(piece) {
                out.push(q.a as u16 * 256 + q.b as u16);
                out.push(q.c as u16 * 256 + q.d as u16);
                return Some(out);
            }
        }
        match parse_group(piece) {
            Some(n) => {
                out.push(n);
            },
            None => {
                proof {
                    lemma_groups_bad(t, v4, i as int);
                }
                return None;
            },
        }
        i = i + 1;
    }
    proof {
        assert(t.take(t.len() as int) =~= t);
    }
    Some(out)
}

/// The address that eight groups make.
pub open spec fn of_groups(g: Seq<u16>) -> Ip {
    Ip::V6(g[0], g[1], g[2], g[3], g[4], g[5], g[6], g[7])
}

/// The address that a text stands for, of either version.
pub open spec fn ip(s: Text) -> Option<Ip> {
    match (ipv4(s), ipv6(s)) {
        (Some(q), _) => Some(Ip::V4(q)),
        (None, Some(g)) => Some(of_groups(g)),
        _ => None,
    }
}

fn make_v6(g: &Vec<u16>) -> (r: Ip)
    requires
        g.len() == 8,
    ensures
        r == of_groups(g@),
{
    Ip::V6(g[0], g[1], g[2], g[3], g[4], g[5], g[6], g[7])
}

fn parse_ipv6(s: &str) -> (r: Option<Ip>)
    ensures
        match ipv6(s@) {
            Some(g) => r == Some(of_groups(g)),
            None => r is None,
        },
{
    proof {
        reveal_strlit("::");
        assert("::"@ =~= seq![':', ':']);
        crate::text::lemma_find(s@, "::"@);
    }
    match position(s, "::") {
        None => match parse_groups(s, true) {
            Some(g) => {
                if g.len() == 8 {
                    Some(make_v6(&g))
                } else {
                    None
                }
            },
            None => None,
        },
        Some(i) => {
            let n: usize = s.unicode_len();
            let left = slice(s, 0, i);
            let right = slice(s, i + 2, n);
            proof {
                assert(left@ =~= s@.take(i as int));
                assert(right@ =~= s@.skip(i + 2));
            }
            match (parse_groups(left.as_str(), false), parse_groups(right.as_str(), true)) {
                (Some(mut head), Some(tail)) => {
                    if head.len() > 7 || tail.len() > 7 || head.len() + tail.len() > 7 {
                        return None;
                    }
                    let ghost h = head@;
                    let ghost zeros = (8 - h.len() - tail@.len()) as nat;
                    let want: usize = 8 - tail.len();
                    while head.len() < want
                        invariant
                            h.len() <= head.len() <= want,
                            head@ == h + Seq::new((head.len() - h.len()) as nat, |k: int| 0u16),
                        decreases want - head.len(),
                    {
                        head.push(0);
                        proof {
                            assert(head@ =~= h + Seq::new(
                                (head.len() - h.len()) as nat,
                                |k: int| 0u16,
                            ));
                        }
                    }
                    let mut j: usize = 0;
                    while j < tail.len()
                        invariant
                            j <= tail.len(),
                            head@ == h + Seq::new(zeros, |k: int| 0u16) + tail@.take(j as int),
                        decreases tail.len() - j,
                    {
                        head.push(tail[j]);
                        j = j + 1;
                        proof {
                            assert(head@ =~= h + Seq::new(zeros, |k: int| 0u16) + tail@.take(
                                j as int,
                            ));
                        }
                    }
                    proof {
                        assert(tail@.take(tail@.len() as int) =~= tail@);
                    }
                    Some(make_v6(&head))
                },
                _ => None,
            }
        },
    }
}

/// Reads an IP address of either version.
pub fn parse_ip(s: &str) -> (r: Option<Ip>)
    ensures
        r == ip(s@),
{
    match parse_ipv4(s) {
        Some(q) => Some(Ip::V4(q)),
        None => parse_ipv6(s),
    }
}

/// A port in decimal digits, without a sign.
pub open spec fn port_number(s: Text) -> Option<u16> {
    if s.len() > 0 && all_digits(s) && digits_value(s) <= 65535 {
        Some(digits_value(s) as u16)
    } else {
        None
    }
}

/// Reads a port in decimal digits.
pub fn parse_port(s: &str) -> (r: Option<u16>)
    ensures
        r == port_number(s@),
{
    if s.is_empty() {
        return None;
    }
    let first: char = s.get_char(0);
    if first == '+' {
        return None;
    }
    match parse(s, 65535) {
        Some(n) => Some(n as u16),
        None => None,
    }
}

/// A version six address with the number of its zone after a percent sign,
/// where it has one.
pub open spec fn zoned(s: Text) -> Option<(Ip, u32)> {
    match find(s, seq!['%']) {
        Some(k) => {
            let z = s.skip(k + 1);
            match ipv6(s.take(k)) {
                Some(g) if z.len() > 0 && all_digits(z) && digits_value(z) <= u32::MAX => Some(
                    (of_groups(g), digits_value(z) as u32),
                ),
                _ => None,
            }
        },
        None => match ipv6(s) {
            Some(g) => Some((of_groups(g), 0)),
            None => None,
        },
    }
}

fn parse_zoned(s: &str) -> (r: Option<(Ip, u32)>)
    ensures
        r == zoned(s@),
{
    proof {
        reveal_strlit("%");
        assert("%"@ =~= seq!['%']);
        crate::text::lemma_find(s@, "%"@);
    }
    match position(s, "%") {
        Some(k) => {
            let n: usize = s.unicode_len();
            let left = slice(s, 0, k);
            let rest = slice(s, k + 1, n);
            proof {
                assert(left@ =~= s@.take(k as int));
                assert(rest@ =~= s@.skip(k + 1));
            }
            if rest.as_str().is_empty() {
                return None;
            }
            let first: char = rest.as_str().get_char(0);
            if first == '+' {
                return None;
            }
            match (parse_ipv6(left.as_str()), parse(rest.as_str(), u32::MAX as u64)) {
                (Some(ip), Some(z)) => Some((ip, z as u32)),
                _ => None,
            }
        },
        None => match parse_ipv6(s) {
            Some(ip) => Some((ip, 0)),
            None => None,
        },
    }
}

/// The socket address that a text stands for: `1.2.3.4:80` or `[::1]:80`.
pub open spec fn socket(s: Text) -> Option<Socket> {
    if s.len() > 0 && s[0] == '[' {
        match find(s, seq![']', ':']) {
            Some(i) => match (zoned(s.subrange(1, i)), port_number(s.skip(i + 2))) {
                (Some((ip, scope)), Some(port)) => Some(Socket { ip, scope, port }),
                _ => None,
            },
            None => None,
        }
    } else {
        match find(s, seq![':']) {
            Some(i) => match (ipv4(s.take(i)), port_number(s.skip(i + 1))) {
                (Some(q), Some(port)) => Some(Socket { ip: Ip::V4(q), scope: 0, port }),
                _ => None,
            },
            None => None,
        }
    }
}

/// Reads a socket address.
pub fn parse_socket(s: &str) -> (r: Option<Socket>)
    ensures
        r == socket(s@),
{
    if s.is_empty() {
        proof {
            crate::text::lemma_find(s@, seq![':']);
        }
        return None;
    }
    let n: usize = s.unicode_len();
    let first: char = s.get_char(0);
    if first == '[' {
        proof {
            reveal_strlit("]:");
            assert("]:"@ =~= seq![']', ':']);
            crate::text::lemma_find(s@, "]:"@);
        }
        match position(s, "]:") {
            Some(i) => {
                if i == 0 {
                    proof {
                        assert(s@.subrange(0, 2)[0] == s@[0]);
                    }
                    return None;
                }
                let inside = slice(s, 1, i);
                let rest = slice(s, i + 2, n);
                proof {
                    assert(rest@ =~= s@.skip(i + 2));
                }
                match (parse_zoned(inside.as_str()), parse_port(rest.as_str())) {
                    (Some((ip, scope)), Some(port)) => Some(Socket { ip, scope, port }),
                    _ => None,
                }
            },
            None => None,
        }
    } else {
        proof {
            reveal_strlit(":");
            assert(":"@ =~= seq![':']);
            crate::text::lemma_find(s@, ":"@);
        }
        match position(s, ":") {
            Some(i) => {
                let left = slice(s, 0, i);
                let rest = slice(s, i + 1, n);
                proof {
                    assert(left@ =~= s@.take(i as int));
                    assert(rest@ =~= s@.skip(i + 1));
                }
                match (parse_ipv4(left.as_str()), parse_port(rest.as_str())) {
                    (Some(q), Some(port)) => Some(Socket { ip: Ip::V4(q), scope: 0, port }),
                    _ => None,
                }
            },
            None => None,
        }
    }
}

impl Ip {
    /// `127.0.0.0/8` or `::1`.
    pub open spec fn loopback(self) -> bool {
        match self {
            Ip::V4(q) => q.loopback(),
            Ip::V6(..) => self == Ip::V6(0, 0, 0, 0, 0, 0, 0, 1),
        }
    }

    /// Whether the address never leaves this machine.
    pub fn is_loopback(&self) -> (r: bool)
        ensures
            r == self.loopback(),
    {
        match self {
            Ip::V4(q) => q.a == 127,
            Ip::V6(a, b, c, d, e, f, g, h) => *a == 0 && *b == 0 && *c == 0 && *d == 0 && *e == 0
                && *f == 0 && *g == 0 && *h == 1,
        }
    }
}

} // verus!
