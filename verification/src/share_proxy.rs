//! Who is connected to the shared ports: peers read from the system's socket
//! tables, paired with the rate at which each port generates.
use vstd::prelude::*;

use crate::address::{ip, parse_ip, Ip, Ipv4};
use crate::download::minus;
use crate::ip_text::{law_address_round_trip, lemma_ipv4_reads_back};
use crate::listen::lemma_rfind_behind;
use crate::order::{is_order, lemma_text_total, lemma_text_trans, order_of, text_before, text_lt};
use crate::text::{
    chars_of, clip, decimal, find, last_position, lemma_decimal, lemma_find, lines, lines_of, lower, number,
    opt_text, parse, parsed, position, rfind, same, slice, starts_with, strip_suffix, texts,
    to_lower, trim, trimmed, without_suffix, words, words_of, Text,
};

verus! {

broadcast use vstd::string::group_string_axioms;

/// A text without the asterisks and slashes at its end.
pub open spec fn unmarked(s: Text) -> Text
    decreases s.len(),
{
    if s.len() > 0 && (s.last() == '*' || s.last() == '/') {
        unmarked(s.drop_last())
    } else {
        s
    }
}

fn unmark(s: &str) -> (out: String)
    ensures
        out@ == unmarked(s@),
{
    let v = chars_of(s);
    let mut n: usize = v.len();
    proof {
        assert(s@.take(n as int) =~= s@);
    }
    while n > 0 && (v[n - 1] == '*' || v[n - 1] == '/')
        invariant
            n <= v.len(),
            v@ == s@,
            unmarked(s@.take(n as int)) == unmarked(s@),
        decreases n,
    {
        proof {
            assert(s@.take(n as int).drop_last() =~= s@.take(n - 1));
        }
        n = n - 1;
    }
    let out = clip(s, n);
    proof {
        assert(out@ =~= s@.take(n as int));
    }
    out
}

/// An address and a port, where both can be read.
pub open spec fn endpoint_of(host: Text, port: Text) -> Option<(Ip, u16)> {
    match (ip(host), parsed(port, 65535)) {
        (Some(a), Some(p)) => Some((a, p as u16)),
        _ => None,
    }
}

fn read_endpoint(host: &str, port: &str) -> (r: Option<(Ip, u16)>)
    ensures
        r == endpoint_of(host@, port@),
{
    match (parse_ip(host), parse(port, 65535)) {
        (Some(a), Some(p)) => Some((a, p as u16)),
        _ => None,
    }
}

/// The address and port that a table's column gives: with a colon between
/// them, the address in brackets where it needs some, or with a dot.
pub open spec fn endpoint(value: Text) -> Option<(Ip, u16)> {
    let v = unmarked(trimmed(value));
    if v.len() == 0 || v[0] == '*' {
        None
    } else if v[0] == '[' {
        let rest = v.skip(1);
        match find(rest, "]:"@) {
            Some(i) => endpoint_of(rest.take(i), rest.skip(i + 2)),
            None => None,
        }
    } else {
        let by_colon = match rfind(v, ':') {
            Some(i) => if v.take(i).contains(':') {
                None
            } else {
                endpoint_of(v.take(i), v.skip(i + 1))
            },
            None => None,
        };
        if by_colon is Some {
            by_colon
        } else {
            match rfind(v, '.') {
                Some(i) => endpoint_of(v.take(i), v.skip(i + 1)),
                None => None,
            }
        }
    }
}

proof fn lemma_rfind(s: Text, c: char)
    ensures
        rfind(s, c) matches Some(i) ==> 0 <= i < s.len() && s[i] == c,
        rfind(s, c) is None <==> !s.contains(c),
    decreases s.len(),
{
    if s.len() > 0 {
        lemma_rfind(s.drop_last(), c);
        if s.last() == c {
            assert(s[s.len() - 1] == c);
        } else if s.contains(c) {
            let k = choose|k: int| 0 <= k < s.len() && s[k] == c;
            assert(s.drop_last()[k] == c);
        } else if s.drop_last().contains(c) {
            let k = choose|k: int| 0 <= k < s.drop_last().len() && s.drop_last()[k] == c;
            assert(s[k] == c);
        }
    }
}

fn parts_at(v: &str, i: usize, skip: usize) -> (r: Option<(Ip, u16)>)
    requires
        i + skip <= v@.len(),
    ensures
        r == endpoint_of(v@.take(i as int), v@.skip(i + skip)),
{
    let n: usize = v.unicode_len();
    let host = slice(v, 0, i);
    let port = slice(v, i + skip, n);
    proof {
        assert(host@ =~= v@.take(i as int));
        assert(port@ =~= v@.skip(i + skip));
    }
    read_endpoint(host.as_str(), port.as_str())
}

/// The address and port that a table's column gives.
pub fn split_endpoint(value: &str) -> (r: Option<(Ip, u16)>)
    ensures
        r == endpoint(value@),
{
    let v = unmark(trim(value).as_str());
    let n: usize = v.as_str().unicode_len();
    if n == 0 {
        return None;
    }
    let first: char = v.as_str().get_char(0);
    if first == '*' {
        return None;
    }
    if first == '[' {
        let rest = slice(v.as_str(), 1, n);
        proof {
            assert(rest@ =~= v@.skip(1));
            lemma_find(rest@, "]:"@);
            reveal_strlit("]:");
        }
        return match position(rest.as_str(), "]:") {
            Some(i) => parts_at(rest.as_str(), i, 2),
            None => None,
        };
    }
    proof {
        lemma_rfind(v@, ':');
        lemma_rfind(v@, '.');
    }
    match last_position(v.as_str(), ':') {
        Some(i) => {
            let host = slice(v.as_str(), 0, i);
            proof {
                assert(host@ =~= v@.take(i as int));
                lemma_rfind(host@, ':');
            }
            if last_position(host.as_str(), ':').is_none() {
                let found = parts_at(v.as_str(), i, 1);
                if found.is_some() {
                    return found;
                }
            }
        },
        None => {},
    }
    match last_position(v.as_str(), '.') {
        Some(i) => parts_at(v.as_str(), i, 1),
        None => None,
    }
}

/// The tools that list the system's connections.
#[derive(Clone, Copy, Debug, PartialEq, Eq, Structural)]
pub enum SocketTable {
    WindowsNetstat,
    Lsof,
    BsdNetstat,
    Ss,
    LinuxNetstat,
}

/// The columns for this end and the other end of a connection, in a line of a
/// tool's list.
pub open spec fn ends_of(table: SocketTable, line: Text) -> Option<(Text, Text)> {
    let cols = words_of(line);
    let n = cols.len() as int;
    match table {
        SocketTable::WindowsNetstat => if "tcp"@.is_prefix_of(lower(trimmed(line))) && n >= 4
            && lower(cols[3]) == "established"@ {
            Some((cols[1], cols[2]))
        } else {
            None
        },
        SocketTable::Lsof => {
            let name = if n >= 2 && cols[n - 1] == "(ESTABLISHED)"@ {
                cols[n - 2]
            } else if n >= 1 {
                trimmed(
                    match without_suffix(cols[n - 1], "(ESTABLISHED)"@) {
                        Some(s) => s,
                        None => cols[n - 1],
                    },
                )
            } else {
                Seq::empty()
            };
            match find(name, "->"@) {
                Some(i) => Some((name.take(i), name.skip(i + 2))),
                None => None,
            }
        },
        SocketTable::BsdNetstat => if "tcp"@.is_prefix_of(lower(trimmed(line))) && n >= 6 && lower(
            cols[n - 1],
        ) == "established"@ {
            Some((cols[3], cols[4]))
        } else {
            None
        },
        SocketTable::Ss => if n < 5 {
            None
        } else if lower(cols[0]) == "tcp"@ {
            if n < 6 {
                None
            } else {
                Some((cols[4], cols[5]))
            }
        } else {
            Some((cols[3], cols[4]))
        },
        SocketTable::LinuxNetstat => if "tcp"@.is_prefix_of(lower(trimmed(line))) && n >= 6
            && lower(cols[5]) == "established"@ {
            Some((cols[3], cols[4]))
        } else {
            None
        },
    }
}

/// The view of two columns.
pub open spec fn ends_view(r: Option<(String, String)>) -> Option<(Text, Text)> {
    match r {
        Some(p) => Some((p.0@, p.1@)),
        None => None,
    }
}

fn is_tcp(line: &str) -> (r: bool)
    ensures
        r == "tcp"@.is_prefix_of(lower(trimmed(line@))),
{
    starts_with(to_lower(trim(line).as_str()).as_str(), "tcp")
}

fn is_word(word: &str, low: &str) -> (r: bool)
    ensures
        r == (lower(word@) == low@),
{
    same(to_lower(word).as_str(), low)
}

fn split_arrow(name: &str) -> (r: Option<(String, String)>)
    ensures
        ends_view(r) == (match find(name@, "->"@) {
            Some(i) => Some((name@.take(i), name@.skip(i + 2))),
            None => None,
        }),
{
    let n: usize = name.unicode_len();
    match position(name, "->") {
        Some(i) => {
            proof {
                reveal_strlit("->");
                lemma_find(name@, "->"@);
            }
            let a = slice(name, 0, i);
            let b = slice(name, i + 2, n);
            proof {
                assert(a@ =~= name@.take(i as int));
                assert(b@ =~= name@.skip(i + 2));
            }
            Some((a, b))
        },
        None => None,
    }
}

fn read_ends(table: SocketTable, line: &str) -> (r: Option<(String, String)>)
    ensures
        ends_view(r) == ends_of(table, line@),
{
    let cols = words(line);
    let n: usize = cols.len();
    proof {
        assert(texts(cols@).len() == n);
        assert forall|i: int| 0 <= i < n implies (#[trigger] cols@[i])@ == words_of(line@)[i] by {
            assert(texts(cols@)[i] == cols@[i]@);
        }
    }
    match table {
        SocketTable::WindowsNetstat => {
            if is_tcp(line) && n >= 4 && is_word(cols[3].as_str(), "established") {
                Some((cols[1].clone(), cols[2].clone()))
            } else {
                None
            }
        },
        SocketTable::Lsof => {
            let name = if n >= 2 && same(cols[n - 1].as_str(), "(ESTABLISHED)") {
                cols[n - 2].clone()
            } else if n >= 1 {
                match strip_suffix(cols[n - 1].as_str(), "(ESTABLISHED)") {
                    Some(s) => trim(s.as_str()),
                    None => trim(cols[n - 1].as_str()),
                }
            } else {
                String::new()
            };
            split_arrow(name.as_str())
        },
        SocketTable::BsdNetstat => {
            if is_tcp(line) && n >= 6 && is_word(cols[n - 1].as_str(), "established") {
                Some((cols[3].clone(), cols[4].clone()))
            } else {
                None
            }
        },
        SocketTable::Ss => {
            if n < 5 {
                None
            } else if is_word(cols[0].as_str(), "tcp") {
                if n < 6 {
                    None
                } else {
                    Some((cols[4].clone(), cols[5].clone()))
                }
            } else {
                Some((cols[3].clone(), cols[4].clone()))
            }
        },
        SocketTable::LinuxNetstat => {
            if is_tcp(line) && n >= 6 && is_word(cols[5].as_str(), "established") {
                Some((cols[3].clone(), cols[4].clone()))
            } else {
                None
            }
        },
    }
}

/// The peer that a line tells of: on one of the ports, and another machine.
pub open spec fn peer_in(table: SocketTable, line: Text, ports: Seq<u16>) -> Option<(Ip, u16)> {
    match ends_of(table, line) {
        Some(e) => match (endpoint(e.0), endpoint(e.1)) {
            (Some(here), Some(there)) => if ports.contains(here.1) && !there.0.unspecified()
                && !there.0.loopback() {
                Some((there.0, here.1))
            } else {
                None
            },
            _ => None,
        },
        None => None,
    }
}

fn read_peer(table: SocketTable, line: &str, ports: &Vec<u16>) -> (r: Option<(Ip, u16)>)
    ensures
        r == peer_in(table, line@, ports@),
{
    match read_ends(table, line) {
        Some((local, remote)) => match (
            split_endpoint(local.as_str()),
            split_endpoint(remote.as_str()),
        ) {
            (Some(here), Some(there)) => {
                if has_port(ports, here.1) && !there.0.is_unspecified() && !there.0.is_loopback() {
                    Some((there.0, here.1))
                } else {
                    None
                }
            },
            _ => None,
        },
        None => None,
    }
}

fn has_port(ports: &Vec<u16>, port: u16) -> (r: bool)
    ensures
        r == ports@.contains(port),
{
    let mut i: usize = 0;
    while i < ports.len()
        invariant
            i <= ports.len(),
            forall|k: int| 0 <= k < i ==> ports@[k] != port,
        decreases ports.len() - i,
    {
        if ports[i] == port {
            return true;
        }
        i = i + 1;
    }
    false
}

/// Whether a peer is listed before another: by its address as it is written,
/// then by the port.
pub open spec fn listed_before(a: (Ip, u16), b: (Ip, u16)) -> bool {
    text_lt(a.0.text(), b.0.text()) || (a.0.text() == b.0.text() && a.1 < b.1)
}

/// A list of peers with one more in its place.
pub open spec fn with_peer(s: Seq<(Ip, u16)>, p: (Ip, u16)) -> Seq<(Ip, u16)>
    decreases s.len(),
{
    if s.len() == 0 || !listed_before(p, s.last()) {
        s.push(p)
    } else {
        with_peer(s.drop_last(), p).push(s.last())
    }
}

/// Peers in order; equal ones keep theirs.
pub open spec fn in_order(v: Seq<(Ip, u16)>) -> Seq<(Ip, u16)>
    decreases v.len(),
{
    if v.len() == 0 {
        Seq::empty()
    } else {
        with_peer(in_order(v.drop_last()), v.last())
    }
}

/// A list without repetitions of the item before.
pub open spec fn unrepeated(v: Seq<(Ip, u16)>) -> Seq<(Ip, u16)>
    decreases v.len(),
{
    if v.len() == 0 {
        v
    } else {
        let before = unrepeated(v.drop_last());
        if before.len() > 0 && before.last() == v.last() {
            before
        } else {
            before.push(v.last())
        }
    }
}

fn comes_first(a: &(Ip, u16), b: &(Ip, u16)) -> (r: bool)
    ensures
        r == listed_before(*a, *b),
{
    let x = a.0.to_text();
    let y = b.0.to_text();
    text_before(x.as_str(), y.as_str()) || (same(x.as_str(), y.as_str()) && a.1 < b.1)
}

fn insert_peer(s: &mut Vec<(Ip, u16)>, p: (Ip, u16))
    ensures
        final(s)@ == with_peer(old(s)@, p),
{
    let mut at: usize = s.len();
    let ghost all = s@;
    let ghost mut tail = Seq::<(Ip, u16)>::empty();
    proof {
        assert(all.take(all.len() as int) =~= all);
        assert(with_peer(all, p) + tail =~= with_peer(all, p));
    }
    while at > 0 && comes_first(&p, &s[at - 1])
        invariant
            at <= s.len(),
            s@ == all,
            tail == all.skip(at as int),
            with_peer(all, p) == with_peer(all.take(at as int), p) + tail,
        decreases at,
    {
        proof {
            let t = all.take(at as int);
            assert(t.drop_last() =~= all.take(at - 1));
            assert(t.last() == all[at - 1]);
            assert(all.skip(at - 1) =~= seq![all[at - 1]] + tail);
            assert(with_peer(t, p) + tail =~= with_peer(all.take(at - 1), p) + (seq![all[at - 1]]
                + tail));
            tail = all.skip(at - 1);
        }
        at = at - 1;
    }
    s.insert(at, p);
    proof {
        let t = all.take(at as int);
        if at > 0 {
            assert(t.last() == all[at - 1]);
        }
        assert(with_peer(t, p) =~= t.push(p));
        assert(s@ =~= t.push(p) + tail);
    }
}

/// Peers in order, each once.
pub fn finish_peers(peers: &Vec<(Ip, u16)>) -> (out: Vec<(Ip, u16)>)
    ensures
        out@ == unrepeated(in_order(peers@)),
{
    let mut sorted: Vec<(Ip, u16)> = Vec::new();
    let mut i: usize = 0;
    proof {
        assert(sorted@ =~= in_order(peers@.take(0)));
    }
    while i < peers.len()
        invariant
            i <= peers.len(),
            sorted@ == in_order(peers@.take(i as int)),
        decreases peers.len() - i,
    {
        proof {
            assert(peers@.take(i + 1).drop_last() =~= peers@.take(i as int));
        }
        insert_peer(&mut sorted, peers[i]);
        i = i + 1;
    }
    proof {
        assert(peers@.take(peers.len() as int) =~= peers@);
    }
    let mut out: Vec<(Ip, u16)> = Vec::new();
    let mut k: usize = 0;
    proof {
        assert(out@ =~= unrepeated(sorted@.take(0)));
    }
    while k < sorted.len()
        invariant
            k <= sorted.len(),
            out@ == unrepeated(sorted@.take(k as int)),
        decreases sorted.len() - k,
    {
        proof {
            assert(sorted@.take(k + 1).drop_last() =~= sorted@.take(k as int));
        }
        let p = sorted[k];
        let n: usize = out.len();
        if !(n > 0 && out[n - 1].0 == p.0 && out[n - 1].1 == p.1) {
            out.push(p);
        }
        k = k + 1;
    }
    proof {
        assert(sorted@.take(sorted.len() as int) =~= sorted@);
    }
    out
}

/// Whether peers stand in order.
pub open spec fn is_sorted(v: Seq<(Ip, u16)>) -> bool {
    forall|i: int, j: int| 0 <= i < j < v.len() ==> !listed_before(#[trigger] v[j], #[trigger] v[i])
}

proof fn lemma_listed_before(a: (Ip, u16), b: (Ip, u16), c: (Ip, u16))
    ensures
        listed_before(a, b) && !listed_before(c, b) ==> listed_before(a, c),
        !(listed_before(a, b) && listed_before(b, a)),
{
    lemma_text_total(b.0.text(), c.0.text());
    lemma_text_total(a.0.text(), b.0.text());
    if text_lt(a.0.text(), b.0.text()) && text_lt(b.0.text(), c.0.text()) {
        lemma_text_trans(a.0.text(), b.0.text(), c.0.text());
    }
}

proof fn lemma_with_peer(s: Seq<(Ip, u16)>, p: (Ip, u16))
    requires
        is_sorted(s),
    ensures
        is_sorted(with_peer(s, p)),
        forall|q: (Ip, u16)| #[trigger] with_peer(s, p).contains(q) <==> s.contains(q) || q == p,
    decreases s.len(),
{
    let r = with_peer(s, p);
    if s.len() == 0 || !listed_before(p, s.last()) {
        assert forall|i: int, j: int| 0 <= i < j < r.len() implies !listed_before(
            #[trigger] r[j],
            #[trigger] r[i],
        ) by {
            if j == s.len() {
                lemma_listed_before(p, s[i], s.last());
            }
        }
        lemma_push_contains(s, p);
    } else {
        let init = s.drop_last();
        let low = with_peer(init, p);
        let top = s.last();
        lemma_with_peer(init, p);
        assert(s =~= init.push(top));
        lemma_push_contains(init, top);
        lemma_push_contains(low, top);
        assert forall|i: int, j: int| 0 <= i < j < r.len() implies !listed_before(
            #[trigger] r[j],
            #[trigger] r[i],
        ) by {
            if j == low.len() {
                assert(low.contains(low[i]));
                if init.contains(low[i]) {
                    let k = choose|k: int| 0 <= k < init.len() && init[k] == low[i];
                    assert(s[k] == low[i]);
                    assert(s[s.len() - 1] == top);
                } else {
                    lemma_listed_before(p, top, p);
                }
            }
        }
    }
}

proof fn lemma_push_contains(s: Seq<(Ip, u16)>, p: (Ip, u16))
    ensures
        forall|q: (Ip, u16)| #[trigger] s.push(p).contains(q) <==> s.contains(q) || q == p,
{
    assert forall|q: (Ip, u16)| #[trigger] s.push(p).contains(q) <==> s.contains(q) || q == p by {
        if s.contains(q) {
            let k = choose|k: int| 0 <= k < s.len() && s[k] == q;
            assert(s.push(p)[k] == q);
        }
        if s.push(p).contains(q) {
            let k = choose|k: int| 0 <= k < s.push(p).len() && s.push(p)[k] == q;
            if k < s.len() {
                assert(s[k] == q);
            }
        }
        assert(s.push(p)[s.len() as int] == p);
    }
}

proof fn lemma_in_order(v: Seq<(Ip, u16)>)
    ensures
        is_sorted(in_order(v)),
        forall|q: (Ip, u16)| #[trigger] in_order(v).contains(q) <==> v.contains(q),
    decreases v.len(),
{
    if v.len() > 0 {
        lemma_in_order(v.drop_last());
        lemma_with_peer(in_order(v.drop_last()), v.last());
        assert(v =~= v.drop_last().push(v.last()));
        lemma_push_contains(v.drop_last(), v.last());
    }
}

proof fn lemma_unrepeated(v: Seq<(Ip, u16)>)
    requires
        is_sorted(v),
    ensures
        is_sorted(unrepeated(v)),
        forall|q: (Ip, u16)| #[trigger] unrepeated(v).contains(q) <==> v.contains(q),
    decreases v.len(),
{
    if v.len() > 0 {
        let init = v.drop_last();
        let before = unrepeated(init);
        lemma_unrepeated(init);
        assert(v =~= init.push(v.last()));
        lemma_push_contains(init, v.last());
        lemma_push_contains(before, v.last());
        if before.len() > 0 && before.last() == v.last() {
            assert(before[before.len() - 1] == v.last());
        } else {
            let r = before.push(v.last());
            assert forall|i: int, j: int| 0 <= i < j < r.len() implies !listed_before(
                #[trigger] r[j],
                #[trigger] r[i],
            ) by {
                if j == before.len() {
                    assert(before.contains(before[i]));
                    let k = choose|k: int| 0 <= k < init.len() && init[k] == before[i];
                    assert(v[k] == before[i]);
                    assert(v[v.len() - 1] == v.last());
                }
            }
        }
    }
}

/// The peers that are listed are those that were found, in the order of their
/// addresses.
pub proof fn law_listed_peers_are_in_order(found: Seq<(Ip, u16)>)
    ensures
        is_sorted(unrepeated(in_order(found))),
        forall|q: (Ip, u16)|
            #[trigger] unrepeated(in_order(found)).contains(q) <==> found.contains(q),
{
    lemma_in_order(found);
    lemma_unrepeated(in_order(found));
}

/// The peers that lines of a tool's list tell of.
pub open spec fn peers_in(table: SocketTable, all: Seq<Text>, ports: Seq<u16>) -> Seq<(Ip, u16)>
    decreases all.len(),
{
    if all.len() == 0 {
        Seq::empty()
    } else {
        let before = peers_in(table, all.drop_last(), ports);
        match peer_in(table, all.last(), ports) {
            Some(p) => before.push(p),
            None => before,
        }
    }
}

/// The peers that a tool's list tells of, in order and each once.
pub open spec fn table_peers(table: SocketTable, text: Text, ports: Seq<u16>) -> Seq<(Ip, u16)> {
    unrepeated(in_order(peers_in(table, lines_of(text), ports)))
}

/// The peers that a tool's list tells of.
pub fn parse_socket_table(table: SocketTable, text: &str, local_ports: &Vec<u16>) -> (out: Vec<
    (Ip, u16),
>)
    ensures
        out@ == table_peers(table, text@, local_ports@),
{
    let all_lines = lines(text);
    let ghost all = lines_of(text@);
    let mut found: Vec<(Ip, u16)> = Vec::new();
    let mut i: usize = 0;
    proof {
        assert(found@ =~= peers_in(table, all.take(0), local_ports@));
    }
    while i < all_lines.len()
        invariant
            i <= all_lines.len(),
            all == lines_of(text@),
            texts(all_lines@) == all,
            found@ == peers_in(table, all.take(i as int), local_ports@),
        decreases all_lines.len() - i,
    {
        proof {
            assert(all.take(i + 1).drop_last() =~= all.take(i as int));
            assert(all[i as int] == all_lines@[i as int]@);
            assert(all.take(i + 1).last() == all_lines@[i as int]@);
        }
        match read_peer(table, all_lines[i].as_str(), local_ports) {
            Some(p) => {
                found.push(p);
            },
            None => {},
        }
        i = i + 1;
    }
    proof {
        assert(all.take(all.len() as int) =~= all);
    }
    finish_peers(&found)
}

/// The peers in the list that `netstat` gives on Windows.
pub fn parse_windows_netstat(text: &str, local_ports: &Vec<u16>) -> (out: Vec<(Ip, u16)>)
    ensures
        out@ == table_peers(SocketTable::WindowsNetstat, text@, local_ports@),
{
    parse_socket_table(SocketTable::WindowsNetstat, text, local_ports)
}

/// The peers in the list that `lsof` gives.
pub fn parse_lsof(text: &str, local_ports: &Vec<u16>) -> (out: Vec<(Ip, u16)>)
    ensures
        out@ == table_peers(SocketTable::Lsof, text@, local_ports@),
{
    parse_socket_table(SocketTable::Lsof, text, local_ports)
}

/// The peers in the list that `netstat` gives on BSD.
pub fn parse_bsd_netstat(text: &str, local_ports: &Vec<u16>) -> (out: Vec<(Ip, u16)>)
    ensures
        out@ == table_peers(SocketTable::BsdNetstat, text@, local_ports@),
{
    parse_socket_table(SocketTable::BsdNetstat, text, local_ports)
}

/// The peers in the list that `ss` gives.
pub fn parse_ss(text: &str, local_ports: &Vec<u16>) -> (out: Vec<(Ip, u16)>)
    ensures
        out@ == table_peers(SocketTable::Ss, text@, local_ports@),
{
    parse_socket_table(SocketTable::Ss, text, local_ports)
}

/// The peers in the list that `netstat` gives on Linux.
pub fn parse_windows_netstat_shape(text: &str, local_ports: &Vec<u16>) -> (out: Vec<(Ip, u16)>)
    ensures
        out@ == table_peers(SocketTable::LinuxNetstat, text@, local_ports@),
{
    parse_socket_table(SocketTable::LinuxNetstat, text, local_ports)
}

/// Whether a rate, given by the bits of a float of eight bytes, is above zero.
pub open spec fn positive(bits: u64) -> bool {
    0 < bits <= 0x7ff0_0000_0000_0000
}

/// What a client is doing.
#[derive(Clone, Copy, Debug, PartialEq, Eq, Structural)]
pub enum ClientActivityState {
    Active,
    Idle,
}

/// A client as the page shows it; a rate is given by its bits.
#[derive(Debug)]
pub struct ConnectedClientPublic {
    pub id: String,
    pub remote_addr: String,
    pub key_id: String,
    pub key_name: String,
    pub local_port: u16,
    pub model: String,
    pub last_path: String,
    pub last_method: String,
    pub state: ClientActivityState,
    pub started_at: u64,
    pub last_seen: u64,
    pub tokens_per_second: Option<u64>,
}

/// The view of [`ConnectedClientPublic`].
#[verifier::ext_equal]
pub struct PublicView {
    pub id: Text,
    pub remote_addr: Text,
    pub key_id: Text,
    pub key_name: Text,
    pub local_port: u16,
    pub model: Text,
    pub last_path: Text,
    pub last_method: Text,
    pub state: ClientActivityState,
    pub started_at: u64,
    pub last_seen: u64,
    pub tokens_per_second: Option<u64>,
}

impl View for ConnectedClientPublic {
    type V = PublicView;

    open spec fn view(&self) -> PublicView {
        PublicView {
            id: self.id@,
            remote_addr: self.remote_addr@,
            key_id: self.key_id@,
            key_name: self.key_name@,
            local_port: self.local_port,
            model: self.model@,
            last_path: self.last_path@,
            last_method: self.last_method@,
            state: self.state,
            started_at: self.started_at,
            last_seen: self.last_seen,
            tokens_per_second: self.tokens_per_second,
        }
    }
}

/// What the clients do together; the rate is the highest, by its bits.
#[derive(Clone, Copy, Debug, PartialEq, Eq, Structural)]
pub struct ShareActivitySummary {
    pub active_count: usize,
    pub idle_count: usize,
    pub tokens_per_second: Option<u64>,
}

/// A client: where it is, which port it uses, and since when, in milliseconds.
#[derive(Debug)]
pub struct ConnectedClient {
    pub remote: Ip,
    pub local_port: u16,
    pub model: String,
    pub first_seen: u64,
    pub rate: Option<u64>,
}

/// The view of [`ConnectedClient`].
#[verifier::ext_equal]
pub struct ClientView {
    pub remote: Ip,
    pub local_port: u16,
    pub model: Text,
    pub first_seen: u64,
    pub rate: Option<u64>,
}

impl View for ConnectedClient {
    type V = ClientView;

    open spec fn view(&self) -> ClientView {
        ClientView {
            remote: self.remote,
            local_port: self.local_port,
            model: self.model@,
            first_seen: self.first_seen,
            rate: self.rate,
        }
    }
}

/// The views of clients.
pub open spec fn clients(v: Seq<ConnectedClient>) -> Seq<ClientView> {
    v.map_values(|c: ConnectedClient| c@)
}

/// Whether something is being generated for a client.
pub open spec fn busy(c: ClientView) -> bool {
    c.rate matches Some(r) && positive(r)
}

/// When a moment was, in seconds, where `now` is at `wall` seconds.
pub open spec fn wall_time(at: u64, now: u64, wall: u64) -> u64 {
    minus(wall, (minus(now, at) / 1000) as u64)
}

/// A client as the page shows it.
pub open spec fn shown(c: ClientView, seen_at: u64, now: u64, wall: u64) -> PublicView {
    PublicView {
        id: c.remote.text() + "|"@ + decimal(c.local_port as nat),
        remote_addr: c.remote.text(),
        key_id: Seq::empty(),
        key_name: "Caller"@,
        local_port: c.local_port,
        model: c.model,
        last_path: "/v1/*"@,
        last_method: "TCP"@,
        state: if busy(c) {
            ClientActivityState::Active
        } else {
            ClientActivityState::Idle
        },
        started_at: wall_time(c.first_seen, now, wall),
        last_seen: wall_time(seen_at, now, wall),
        tokens_per_second: if busy(c) {
            c.rate
        } else {
            None
        },
    }
}

fn saturating(a: u64, b: u64) -> (r: u64)
    ensures
        r == minus(a, b),
{
    if a >= b {
        a - b
    } else {
        0
    }
}

fn to_wall(at: u64, now: u64, wall: u64) -> (r: u64)
    ensures
        r == wall_time(at, now, wall),
{
    saturating(wall, saturating(now, at) / 1000)
}

impl ConnectedClient {
    /// Whether something is being generated for the client.
    pub fn is_busy(&self) -> (r: bool)
        ensures
            r == busy(self@),
    {
        match self.rate {
            Some(r) => 0 < r && r <= 0x7ff0_0000_0000_0000,
            None => false,
        }
    }

    /// What the client is doing.
    pub fn state(&self) -> (r: ClientActivityState)
        ensures
            r == (if busy(self@) {
                ClientActivityState::Active
            } else {
                ClientActivityState::Idle
            }),
    {
        if self.is_busy() {
            ClientActivityState::Active
        } else {
            ClientActivityState::Idle
        }
    }

    /// The client as the page shows it.
    pub fn to_public(&self, seen_at: u64, now: u64, wall: u64) -> (r: ConnectedClientPublic)
        ensures
            r@ == shown(self@, seen_at, now, wall),
    {
        let remote = self.remote.to_text();
        let mut id = remote.clone();
        id.append("|");
        id.append(number(self.local_port as u64).as_str());
        ConnectedClientPublic {
            id,
            remote_addr: remote,
            key_id: String::new(),
            key_name: "Caller".to_owned(),
            local_port: self.local_port,
            model: self.model.clone(),
            last_path: "/v1/*".to_owned(),
            last_method: "TCP".to_owned(),
            state: self.state(),
            started_at: to_wall(self.first_seen, now, wall),
            last_seen: to_wall(seen_at, now, wall),
            tokens_per_second: if self.is_busy() {
                self.rate
            } else {
                None
            },
        }
    }
}

/// The rate that is known of a port; the last word counts.
pub open spec fn rate_of(rates: Seq<(u16, Option<u64>)>, port: u16) -> Option<u64>
    decreases rates.len(),
{
    if rates.len() == 0 {
        None
    } else if rates.last().0 == port {
        rates.last().1
    } else {
        rate_of(rates.drop_last(), port)
    }
}

/// The model behind a port; the last word counts, and a port of which there is
/// none goes by its number.
pub open spec fn model_of(ports: Seq<(u16, Text)>, port: u16) -> Text
    decreases ports.len(),
{
    if ports.len() == 0 {
        ":"@ + decimal(port as nat)
    } else if ports.last().0 == port {
        ports.last().1
    } else {
        model_of(ports.drop_last(), port)
    }
}

/// The views of ports and their models.
pub open spec fn shared_ports(v: Seq<(u16, String)>) -> Seq<(u16, Text)> {
    v.map_values(|p: (u16, String)| (p.0, p.1@))
}

/// The position of a peer's client, or the number of clients.
pub open spec fn client_at(v: Seq<ClientView>, p: (Ip, u16), i: int) -> int
    decreases v.len() - i,
{
    if i < 0 || i >= v.len() {
        v.len() as int
    } else if v[i].remote == p.0 && v[i].local_port == p.1 {
        i
    } else {
        client_at(v, p, i + 1)
    }
}

/// What is known of a peer: since when it is connected, where it was before,
/// and what its port does.
pub open spec fn client_for(
    p: (Ip, u16),
    before: Seq<ClientView>,
    rates: Seq<(u16, Option<u64>)>,
    ports: Seq<(u16, Text)>,
    now: u64,
) -> ClientView {
    let i = client_at(before, p, 0);
    ClientView {
        remote: p.0,
        local_port: p.1,
        model: model_of(ports, p.1),
        first_seen: if i < before.len() {
            before[i].first_seen
        } else {
            now
        },
        rate: rate_of(rates, p.1),
    }
}

/// The clients that a list of peers gives: other machines, each once.
pub open spec fn reconciled(
    peers: Seq<(Ip, u16)>,
    before: Seq<ClientView>,
    rates: Seq<(u16, Option<u64>)>,
    ports: Seq<(u16, Text)>,
    now: u64,
) -> Seq<ClientView>
    decreases peers.len(),
{
    if peers.len() == 0 {
        Seq::empty()
    } else {
        let init = reconciled(peers.drop_last(), before, rates, ports, now);
        let p = peers.last();
        if p.0.loopback() || client_at(init, p, 0) < init.len() {
            init
        } else {
            init.push(client_for(p, before, rates, ports, now))
        }
    }
}

fn find_client(v: &Vec<ConnectedClient>, p: (Ip, u16)) -> (r: Option<usize>)
    ensures
        match r {
            Some(i) => client_at(clients(v@), p, 0) == i && i < v.len(),
            None => client_at(clients(v@), p, 0) == v.len(),
        },
{
    let mut i: usize = 0;
    while i < v.len()
        invariant
            i <= v.len(),
            client_at(clients(v@), p, 0) == client_at(clients(v@), p, i as int),
        decreases v.len() - i,
    {
        proof {
            assert(clients(v@)[i as int] == v@[i as int]@);
        }
        if v[i].remote == p.0 && v[i].local_port == p.1 {
            return Some(i);
        }
        i = i + 1;
    }
    None
}

fn find_rate(rates: &Vec<(u16, Option<u64>)>, port: u16) -> (r: Option<u64>)
    ensures
        r == rate_of(rates@, port),
{
    let mut n: usize = rates.len();
    proof {
        assert(rates@.take(n as int) =~= rates@);
    }
    while n > 0
        invariant
            n <= rates.len(),
            rate_of(rates@, port) == rate_of(rates@.take(n as int), port),
        decreases n,
    {
        proof {
            assert(rates@.take(n as int).last() == rates@[n - 1]);
            assert(rates@.take(n as int).drop_last() =~= rates@.take(n - 1));
        }
        if rates[n - 1].0 == port {
            return rates[n - 1].1;
        }
        n = n - 1;
    }
    None
}

fn find_model(ports: &Vec<(u16, String)>, port: u16) -> (out: String)
    ensures
        out@ == model_of(shared_ports(ports@), port),
{
    let ghost all = shared_ports(ports@);
    let mut n: usize = ports.len();
    proof {
        assert(all.take(n as int) =~= all);
    }
    while n > 0
        invariant
            n <= ports.len(),
            all == shared_ports(ports@),
            model_of(all, port) == model_of(all.take(n as int), port),
        decreases n,
    {
        proof {
            assert(all[n - 1] == (ports@[n - 1].0, ports@[n - 1].1@));
            assert(all.take(n as int).last() == all[n - 1]);
            assert(all.take(n as int).drop_last() =~= all.take(n - 1));
        }
        if ports[n - 1].0 == port {
            return ports[n - 1].1.clone();
        }
        n = n - 1;
    }
    let mut out = ":".to_owned();
    out.append(number(port as u64).as_str());
    out
}

/// Who is connected to the shared ports.
#[derive(Debug)]
pub struct ShareProxyManager {
    pub clients: Vec<ConnectedClient>,
    /// When the clients were last listed, in milliseconds.
    pub seen_at: u64,
    pub rates: Vec<(u16, Option<u64>)>,
    pub error: Option<String>,
}

/// The view of [`ShareProxyManager`].
#[verifier::ext_equal]
pub struct ManagerView {
    pub clients: Seq<ClientView>,
    pub seen_at: u64,
    pub rates: Seq<(u16, Option<u64>)>,
    pub error: Option<Text>,
}

impl View for ShareProxyManager {
    type V = ManagerView;

    open spec fn view(&self) -> ManagerView {
        ManagerView {
            clients: clients(self.clients@),
            seen_at: self.seen_at,
            rates: self.rates@,
            error: opt_text(self.error),
        }
    }
}

/// Nobody is connected.
pub open spec fn nobody(seen_at: u64) -> ManagerView {
    ManagerView { clients: Seq::empty(), seen_at, rates: Seq::empty(), error: None }
}

impl Default for ShareProxyManager {
    fn default() -> (r: ShareProxyManager)
        ensures
            r@ == nobody(0),
    {
        let r = ShareProxyManager {
            clients: Vec::new(),
            seen_at: 0,
            rates: Vec::new(),
            error: None,
        };
        proof {
            assert(r@ =~= nobody(0));
        }
        r
    }
}

/// The view of listed peers, or of why they cannot be listed.
pub open spec fn listed_view(r: Result<Vec<(Ip, u16)>, String>) -> Result<Seq<(Ip, u16)>, Text> {
    match r {
        Ok(v) => Ok(v@),
        Err(e) => Err(e@),
    }
}

/// Who is connected after the peers were listed.
pub open spec fn synced(
    m: ManagerView,
    expose: bool,
    ports: Seq<(u16, Text)>,
    listed: Result<Seq<(Ip, u16)>, Text>,
    now: u64,
) -> ManagerView {
    if !expose || ports.len() == 0 {
        nobody(m.seen_at)
    } else {
        match listed {
            Ok(peers) => ManagerView {
                clients: reconciled(peers, m.clients, m.rates, ports, now),
                seen_at: now,
                error: None,
                ..m
            },
            Err(e) => ManagerView { error: Some("could not list connections: "@ + e), ..m },
        }
    }
}

/// How many clients are busy.
pub open spec fn busy_count(v: Seq<ClientView>) -> nat
    decreases v.len(),
{
    if v.len() == 0 {
        0
    } else {
        busy_count(v.drop_last()) + (if busy(v.last()) {
            1nat
        } else {
            0nat
        })
    }
}

/// The highest rate of busy clients, by its bits: above zero these are ordered
/// as the rates are.
pub open spec fn highest_rate(v: Seq<ClientView>) -> Option<u64>
    decreases v.len(),
{
    if v.len() == 0 {
        None
    } else {
        let before = highest_rate(v.drop_last());
        if !busy(v.last()) {
            before
        } else {
            match before {
                Some(r) => if r > v.last().rate->0 {
                    Some(r)
                } else {
                    v.last().rate
                },
                None => v.last().rate,
            }
        }
    }
}

/// What the clients do together.
pub open spec fn summary_of(v: Seq<ClientView>) -> ShareActivitySummary {
    ShareActivitySummary {
        active_count: busy_count(v) as usize,
        idle_count: (v.len() - busy_count(v)) as usize,
        tokens_per_second: highest_rate(v),
    }
}

proof fn lemma_busy_count(v: Seq<ClientView>)
    ensures
        busy_count(v) <= v.len(),
    decreases v.len(),
{
    if v.len() > 0 {
        lemma_busy_count(v.drop_last());
    }
}

/// The addresses of clients as they are written.
pub open spec fn addresses(v: Seq<ClientView>) -> Seq<Text> {
    v.map_values(|c: ClientView| c.remote.text())
}

/// The views of shown clients.
pub open spec fn shown_views(v: Seq<ConnectedClientPublic>) -> Seq<PublicView> {
    v.map_values(|c: ConnectedClientPublic| c@)
}

impl ShareProxyManager {
    /// Why the peers could not be listed, if they could not.
    pub fn last_error(&self) -> (r: Option<&str>)
        ensures
            match r {
                Some(e) => self@.error == Some(e@),
                None => self@.error is None,
            },
    {
        match &self.error {
            Some(e) => Some(e.as_str()),
            None => None,
        }
    }

    /// Notes how fast a port generates.
    pub fn update_port_tps(&mut self, port: u16, rate: Option<u64>)
        ensures
            final(self)@.clients == old(self)@.clients,
            final(self)@.seen_at == old(self)@.seen_at,
            final(self)@.error == old(self)@.error,
            forall|p: u16|
                #[trigger] rate_of(final(self)@.rates, p) == (if p == port {
                    rate
                } else {
                    rate_of(old(self)@.rates, p)
                }),
    {
        let ghost was = self.rates@;
        let mut i: usize = 0;
        let mut kept: Vec<(u16, Option<u64>)> = Vec::new();
        while i < self.rates.len()
            invariant
                i <= self.rates.len(),
                self.rates@ == was,
                *self == *old(self),
                forall|p: u16|
                    p != port ==> #[trigger] rate_of(kept@, p) == rate_of(was.take(i as int), p),
            decreases self.rates.len() - i,
        {
            let r = self.rates[i];
            proof {
                assert(was.take(i + 1).drop_last() =~= was.take(i as int));
                assert(was.take(i + 1).last() == r);
            }
            let ghost before = kept@;
            if r.0 != port {
                kept.push(r);
                proof {
                    assert(kept@.drop_last() =~= before);
                }
            }
            proof {
                assert forall|p: u16| p != port implies #[trigger] rate_of(kept@, p) == rate_of(
                    was.take(i + 1),
                    p,
                ) by {
                    assert(rate_of(before, p) == rate_of(was.take(i as int), p));
                }
            }
            i = i + 1;
        }
        proof {
            assert(was.take(was.len() as int) =~= was);
        }
        let ghost before = kept@;
        kept.push((port, rate));
        self.rates = kept;
        proof {
            assert(self.rates@.drop_last() =~= before);
            assert forall|p: u16| #[trigger] rate_of(self.rates@, p) == (if p == port {
                rate
            } else {
                rate_of(was, p)
            }) by {
                if p != port {
                    assert(rate_of(before, p) == rate_of(was.take(was.len() as int), p));
                }
            }
        }
    }

    /// Forgets everyone.
    pub fn shutdown_all(&mut self)
        ensures
            final(self)@ == nobody(old(self)@.seen_at),
    {
        self.clients = Vec::new();
        self.rates = Vec::new();
        self.error = None;
        proof {
            assert(self@ =~= nobody(old(self)@.seen_at));
        }
    }

    /// Takes in who is connected to the shared ports: what the system lists, or
    /// why it does not.
    pub fn sync(
        &mut self,
        expose: bool,
        ports: &Vec<(u16, String)>,
        listed: Result<Vec<(Ip, u16)>, String>,
        now: u64,
    )
        ensures
            final(self)@ == synced(
                old(self)@,
                expose,
                shared_ports(ports@),
                listed_view(listed),
                now,
            ),
    {
        proof {
            assert(shared_ports(ports@).len() == ports.len());
        }
        if !expose || ports.len() == 0 {
            self.shutdown_all();
            return;
        }
        match listed {
            Ok(peers) => {
                let fresh = self.reconcile(&peers, ports, now);
                self.clients = fresh;
                self.seen_at = now;
                self.error = None;
            },
            Err(e) => {
                let mut text = "could not list connections: ".to_owned();
                text.append(e.as_str());
                self.error = Some(text);
            },
        }
    }

    fn reconcile(&self, peers: &Vec<(Ip, u16)>, ports: &Vec<(u16, String)>, now: u64) -> (out: Vec<
        ConnectedClient,
    >)
        ensures
            clients(out@) == reconciled(
                peers@,
                self@.clients,
                self@.rates,
                shared_ports(ports@),
                now,
            ),
    {
        let ghost known = shared_ports(ports@);
        let mut out: Vec<ConnectedClient> = Vec::new();
        let mut i: usize = 0;
        proof {
            assert(clients(out@) =~= Seq::<ClientView>::empty());
        }
        while i < peers.len()
            invariant
                i <= peers.len(),
                known == shared_ports(ports@),
                clients(out@) == reconciled(
                    peers@.take(i as int),
                    self@.clients,
                    self@.rates,
                    known,
                    now,
                ),
            decreases peers.len() - i,
        {
            let ghost was = clients(out@);
            let p = peers[i];
            proof {
                assert(peers@.take(i + 1).drop_last() =~= peers@.take(i as int));
                assert(peers@.take(i + 1).last() == p);
                assert(was.len() == out.len());
                assert(self@.clients.len() == self.clients.len());
            }
            if !p.0.is_loopback() && find_client(&out, p).is_none() {
                let first_seen: u64 = match find_client(&self.clients, p) {
                    Some(k) => {
                        proof {
                            assert(self@.clients[k as int] == self.clients@[k as int]@);
                        }
                        self.clients[k].first_seen
                    },
                    None => now,
                };
                let c = ConnectedClient {
                    remote: p.0,
                    local_port: p.1,
                    model: find_model(ports, p.1),
                    first_seen,
                    rate: find_rate(&self.rates, p.1),
                };
                out.push(c);
                proof {
                    assert(clients(out@) =~= was.push(c@));
                }
            }
            i = i + 1;
        }
        proof {
            assert(peers@.take(peers.len() as int) =~= peers@);
        }
        out
    }

    /// The clients in the order of their addresses, and what they do together,
    /// where `now` is at `wall` seconds.
    pub fn snapshot(&self, now: u64, wall: u64) -> (r: (
        Vec<ConnectedClientPublic>,
        ShareActivitySummary,
    ))
        ensures
            exists|p: Seq<usize>|
                #[trigger] is_order(p, addresses(self@.clients)) && shown_views(r.0@) == Seq::new(
                    p.len(),
                    |i: int| shown(self@.clients[p[i] as int], self@.seen_at, now, wall),
                ),
            r.1 == summary_of(self@.clients),
    {
        let ghost all = self@.clients;
        let mut keys: Vec<String> = Vec::new();
        let mut active: usize = 0;
        let mut best: Option<u64> = None;
        let mut i: usize = 0;
        proof {
            assert(texts(keys@) =~= addresses(all.take(0)));
        }
        while i < self.clients.len()
            invariant
                i <= self.clients.len(),
                all == self@.clients,
                texts(keys@) == addresses(all.take(i as int)),
                active == busy_count(all.take(i as int)),
                active <= i,
                best == highest_rate(all.take(i as int)),
            decreases self.clients.len() - i,
        {
            let ghost was = texts(keys@);
            let c = &self.clients[i];
            proof {
                assert(all.take(i + 1).drop_last() =~= all.take(i as int));
                assert(all.take(i + 1).last() == c@);
                assert(addresses(all.take(i + 1)) =~= was.push(c@.remote.text()));
            }
            let key = c.remote.to_text();
            keys.push(key);
            proof {
                assert(texts(keys@) =~= was.push(key@));
            }
            if c.is_busy() {
                active = active + 1;
                let rate: u64 = match c.rate {
                    Some(r) => r,
                    None => 0,
                };
                best = match best {
                    Some(b) => if b > rate {
                        Some(b)
                    } else {
                        Some(rate)
                    },
                    None => Some(rate),
                };
            }
            i = i + 1;
        }
        proof {
            assert(all.take(all.len() as int) =~= all);
            assert(all.len() == self.clients.len());
            lemma_busy_count(all);
        }
        let p = order_of(&keys);
        let mut out: Vec<ConnectedClientPublic> = Vec::new();
        let mut k: usize = 0;
        while k < p.len()
            invariant
                k <= p.len(),
                all == self@.clients,
                all.len() == self.clients.len(),
                is_order(p@, addresses(all)),
                out.len() == k,
                forall|j: int|
                    0 <= j < k ==> (#[trigger] out@[j])@ == shown(
                        all[p@[j] as int],
                        self@.seen_at,
                        now,
                        wall,
                    ),
            decreases p.len() - k,
        {
            let at: usize = p[k];
            proof {
                assert(at < addresses(all).len());
                assert(all[at as int] == self.clients@[at as int]@);
            }
            out.push(self.clients[at].to_public(self.seen_at, now, wall));
            k = k + 1;
        }
        proof {
            assert(shown_views(out@) =~= Seq::new(
                p@.len(),
                |j: int| shown(all[p@[j] as int], self@.seen_at, now, wall),
            ));
        }
        (
            out,
            ShareActivitySummary {
                active_count: active,
                idle_count: self.clients.len() - active,
                tokens_per_second: best,
            },
        )
    }
}

/// A peer that is listed again is the same client: it keeps the time at which
/// it was first seen.
pub proof fn law_known_peers_keep_their_start(
    m: ManagerView,
    ports: Seq<(u16, Text)>,
    peers: Seq<(Ip, u16)>,
    now: u64,
    i: int,
)
    requires
        ports.len() > 0,
        0 <= i < synced(m, true, ports, Ok(peers), now).clients.len(),
    ensures
        ({
            let c = synced(m, true, ports, Ok(peers), now).clients[i];
            let k = client_at(m.clients, (c.remote, c.local_port), 0);
            c.first_seen == (if k < m.clients.len() {
                m.clients[k].first_seen
            } else {
                now
            })
        }),
{
    lemma_reconciled(peers, m.clients, m.rates, ports, now);
}

/// The clients are other machines that the system lists, and nobody is listed
/// twice.
pub proof fn law_clients_are_listed_peers(
    m: ManagerView,
    ports: Seq<(u16, Text)>,
    peers: Seq<(Ip, u16)>,
    now: u64,
)
    requires
        ports.len() > 0,
    ensures
        ({
            let v = synced(m, true, ports, Ok(peers), now).clients;
            &&& forall|i: int|
                0 <= i < v.len() ==> peers.contains(((#[trigger] v[i]).remote, v[i].local_port))
                    && !v[i].remote.loopback()
            &&& forall|i: int, j: int|
                0 <= i < j < v.len() ==> (#[trigger] v[i]).remote != (#[trigger] v[j]).remote
                    || v[i].local_port != v[j].local_port
        }),
{
    lemma_reconciled(peers, m.clients, m.rates, ports, now);
}

/// Nobody is shown as connected where nothing is shared.
pub proof fn law_nobody_without_sharing(
    m: ManagerView,
    ports: Seq<(u16, Text)>,
    listed: Result<Seq<(Ip, u16)>, Text>,
    now: u64,
)
    ensures
        synced(m, false, ports, listed, now).clients.len() == 0,
{
}

proof fn lemma_client_at(v: Seq<ClientView>, p: (Ip, u16), i: int)
    requires
        0 <= i <= v.len(),
    ensures
        i <= client_at(v, p, i) <= v.len(),
        client_at(v, p, i) == v.len() ==> forall|k: int|
            i <= k < v.len() ==> (#[trigger] v[k]).remote != p.0 || v[k].local_port != p.1,
        client_at(v, p, i) < v.len() ==> v[client_at(v, p, i)].remote == p.0 && v[client_at(
            v,
            p,
            i,
        )].local_port == p.1,
    decreases v.len() - i,
{
    if i < v.len() && !(v[i].remote == p.0 && v[i].local_port == p.1) {
        lemma_client_at(v, p, i + 1);
    }
}

proof fn lemma_reconciled(
    peers: Seq<(Ip, u16)>,
    before: Seq<ClientView>,
    rates: Seq<(u16, Option<u64>)>,
    ports: Seq<(u16, Text)>,
    now: u64,
)
    ensures
        ({
            let v = reconciled(peers, before, rates, ports, now);
            &&& forall|i: int|
                0 <= i < v.len() ==> peers.contains(((#[trigger] v[i]).remote, v[i].local_port))
                    && !v[i].remote.loopback() && v[i] == client_for(
                    (v[i].remote, v[i].local_port),
                    before,
                    rates,
                    ports,
                    now,
                )
            &&& forall|i: int, j: int|
                0 <= i < j < v.len() ==> (#[trigger] v[i]).remote != (#[trigger] v[j]).remote
                    || v[i].local_port != v[j].local_port
        }),
    decreases peers.len(),
{
    if peers.len() > 0 {
        let init = reconciled(peers.drop_last(), before, rates, ports, now);
        let v = reconciled(peers, before, rates, ports, now);
        let p = peers.last();
        lemma_reconciled(peers.drop_last(), before, rates, ports, now);
        lemma_client_at(init, p, 0);
        assert forall|i: int| 0 <= i < v.len() implies peers.contains(
            ((#[trigger] v[i]).remote, v[i].local_port),
        ) && !v[i].remote.loopback() && v[i] == client_for(
            (v[i].remote, v[i].local_port),
            before,
            rates,
            ports,
            now,
        ) by {
            if i < init.len() {
                assert(v[i] == init[i]);
                let q = (init[i].remote, init[i].local_port);
                assert(peers.drop_last().contains(q));
                let k = choose|k: int|
                    0 <= k < peers.drop_last().len() && peers.drop_last()[k] == q;
                assert(peers[k] == q);
            } else {
                assert(peers[peers.len() - 1] == p);
            }
        }
        assert forall|i: int, j: int| 0 <= i < j < v.len() implies (#[trigger] v[i]).remote != (
        #[trigger] v[j]).remote || v[i].local_port != v[j].local_port by {
            assert(v[i] == init[i]);
            if j < init.len() {
                assert(v[j] == init[j]);
            }
        }
    }
}

/// What is told where neither of two tools can list the peers.
pub fn listing_failure(tool: &str, error: &str, netstat_error: &str) -> (out: String)
    ensures
        out@ == tool@ + ": "@ + error@ + "; netstat: "@ + netstat_error@,
{
    let mut out = tool.to_owned();
    out.append(": ");
    out.append(error);
    out.append("; netstat: ");
    out.append(netstat_error);
    out
}

/// An end of a connection is read as the address and the port that it is written
/// of, whether a colon or, as some systems write it, a point stands between them.
pub proof fn law_end_reads_back(q: Ipv4, port: u16)
    ensures
        endpoint(q.text() + ":"@ + decimal(port as nat)) == Some((Ip::V4(q), port)),
        endpoint(q.text() + "."@ + decimal(port as nat)) == Some((Ip::V4(q), port)),
{
    let t = q.text();
    let d = decimal(port as nat);
    let v = t + ":"@ + d;
    let w = t + "."@ + d;
    reveal_strlit(":");
    reveal_strlit(".");
    lemma_decimal(port as nat);
    lemma_decimal(q.a as nat);
    assert(t[0] == decimal(q.a as nat)[0]);
    assert('0' <= t[0] <= '9');
    assert('0' <= d[d.len() - 1] <= '9');
    lemma_ipv4_reads_back(q);
    law_address_round_trip(Ip::V4(q));
    assert(Ip::V4(q).text() == t);
    assert(d[0] != '+');
    assert(parsed(d, 65535) == Some(port as nat));
    assert(v[0] == t[0] && w[0] == t[0]);
    assert(v.last() == d.last() && w.last() == d.last());
    assert(trimmed(v) == v && trimmed(w) == w);
    assert(unmarked(v) == v && unmarked(w) == w);
    assert(!d.contains(':') && !d.contains('.')) by {
        if d.contains(':') {
            let i = choose|i: int| 0 <= i < d.len() && d[i] == ':';
        }
        if d.contains('.') {
            let i = choose|i: int| 0 <= i < d.len() && d[i] == '.';
        }
    }
    assert(":"@ =~= seq![':']);
    assert("."@ =~= seq!['.']);
    lemma_rfind_behind(t, ':', d);
    lemma_rfind_behind(t, '.', d);
    assert(v.take(t.len() as int) =~= t);
    assert(v.skip(t.len() as int + 1) =~= d);
    assert(w.take(t.len() as int) =~= t);
    assert(w.skip(t.len() as int + 1) =~= d);
    assert(!w.contains(':')) by {
        if w.contains(':') {
            let i = choose|i: int| 0 <= i < w.len() && w[i] == ':';
            if i < t.len() {
                assert(t[i] == ':');
            } else if i > t.len() {
                assert(d[i - t.len() - 1] == ':');
            }
        }
    }
    lemma_rfind(w, ':');
}

/// The near end and the far end of an established connection stand in the
/// columns of each tool; a line of another state tells of none.
pub proof fn law_socket_tables_are_read(line: Text)
    ensures
        "tcp"@.is_prefix_of(lower(trimmed(line))) && words_of(line).len() == 4 ==> (ends_of(
            SocketTable::WindowsNetstat,
            line,
        ) matches Some(e) && e.0 == words_of(line)[1] && e.1 == words_of(line)[2]) == (lower(
            words_of(line)[3],
        ) == "established"@),
        "tcp"@.is_prefix_of(lower(trimmed(line))) && words_of(line).len() == 6 && lower(
            words_of(line)[5],
        ) == "established"@ ==> ends_of(SocketTable::BsdNetstat, line) == Some(
            (words_of(line)[3], words_of(line)[4]),
        ) && ends_of(SocketTable::LinuxNetstat, line) == Some(
            (words_of(line)[3], words_of(line)[4]),
        ),
        "tcp"@.is_prefix_of(lower(trimmed(line))) && words_of(line).len() == 6 && lower(
            words_of(line)[5],
        ) != "established"@ ==> ends_of(SocketTable::BsdNetstat, line) is None && ends_of(
            SocketTable::LinuxNetstat,
            line,
        ) is None,
        words_of(line).len() >= 6 && lower(words_of(line)[0]) == "tcp"@ ==> ends_of(
            SocketTable::Ss,
            line,
        ) == Some((words_of(line)[4], words_of(line)[5])),
        words_of(line).len() >= 5 && lower(words_of(line)[0]) != "tcp"@ ==> ends_of(
            SocketTable::Ss,
            line,
        ) == Some((words_of(line)[3], words_of(line)[4])),
{
}

/// A line of `lsof` names the near end, an arrow and the far end.
pub proof fn law_arrow_joins_the_ends(line: Text, near: Text, far: Text)
    requires
        words_of(line).len() >= 2,
        words_of(line).last() == "(ESTABLISHED)"@,
        words_of(line)[words_of(line).len() - 2] == near + "->"@ + far,
        !crate::text::occurs(near, "->"@),
    ensures
        ends_of(SocketTable::Lsof, line) == Some((near, far)),
{
    let name = near + "->"@ + far;
    reveal_strlit("->");
    crate::text::lemma_found_behind(near, "->"@, far);
    assert(name.take(near.len() as int) =~= near);
    assert(name.skip(near.len() as int + 2) =~= far);
}

/// A peer is the far end of a connection to one of the shared ports, on another
/// machine.
pub proof fn law_peer_is_the_far_end(
    table: SocketTable,
    line: Text,
    ports: Seq<u16>,
    near: (Ip, u16),
    far: (Ip, u16),
)
    requires
        ends_of(table, line) matches Some(e) && endpoint(e.0) == Some(near) && endpoint(e.1)
            == Some(far),
    ensures
        ports.contains(near.1) && !far.0.loopback() && !far.0.unspecified() ==> peer_in(
            table,
            line,
            ports,
        ) == Some((far.0, near.1)),
        !ports.contains(near.1) || far.0.loopback() || far.0.unspecified() ==> peer_in(
            table,
            line,
            ports,
        ) is None,
{
}

/// Whether a line tells of a peer.
#[verifier::opaque]
pub open spec fn tells_of(table: SocketTable, line: Text, ports: Seq<u16>, p: (Ip, u16)) -> bool {
    peer_in(table, line, ports) == Some(p)
}

proof fn lemma_told_last(table: SocketTable, all: Seq<Text>, ports: Seq<u16>, p: (Ip, u16))
    requires
        all.len() > 0,
    ensures
        peers_in(table, all, ports).contains(p) <==> peers_in(
            table,
            all.drop_last(),
            ports,
        ).contains(p) || tells_of(table, all.last(), ports, p),
{
    reveal(tells_of);
    let before = peers_in(table, all.drop_last(), ports);
    if let Some(x) = peer_in(table, all.last(), ports) {
        lemma_push_contains(before, x);
    }
}

proof fn lemma_peers_in(table: SocketTable, all: Seq<Text>, ports: Seq<u16>, p: (Ip, u16))
    ensures
        peers_in(table, all, ports).contains(p) <==> exists|i: int|
            0 <= i < all.len() && tells_of(table, #[trigger] all[i], ports, p),
    decreases all.len(),
{
    if all.len() > 0 {
        let init = all.drop_last();
        lemma_peers_in(table, init, ports, p);
        lemma_told_last(table, all, ports, p);
        if peers_in(table, init, ports).contains(p) {
            let i = choose|i: int|
                0 <= i < init.len() && tells_of(table, #[trigger] init[i], ports, p);
            assert(all[i] == init[i]);
        }
        assert(all[all.len() - 1] == all.last());
        if exists|i: int| 0 <= i < all.len() && tells_of(table, #[trigger] all[i], ports, p) {
            let i = choose|i: int| 0 <= i < all.len() && tells_of(table, #[trigger] all[i], ports, p);
            if i < init.len() {
                assert(init[i] == all[i]);
            }
        }
    }
}

/// The peers are those that some line of the tool's list tells of, all of them.
pub proof fn law_every_line_is_read(
    table: SocketTable,
    text: Text,
    ports: Seq<u16>,
    p: (Ip, u16),
)
    ensures
        table_peers(table, text, ports).contains(p) <==> exists|i: int|
            0 <= i < lines_of(text).len() && tells_of(table, #[trigger] lines_of(text)[i], ports, p),
{
    law_listed_peers_are_in_order(peers_in(table, lines_of(text), ports));
    lemma_peers_in(table, lines_of(text), ports, p);
}

/// Whether a client stands for a peer, with what is known of its port.
pub open spec fn stands_for(
    c: ClientView,
    p: (Ip, u16),
    rates: Seq<(u16, Option<u64>)>,
    ports: Seq<(u16, Text)>,
) -> bool {
    &&& c.remote == p.0
    &&& c.local_port == p.1
    &&& forall|k: int|
        0 <= k < ports.len() && (#[trigger] ports[k]).0 == p.1 && (forall|j: int|
            k < j < ports.len() ==> (#[trigger] ports[j]).0 != p.1) ==> c.model == ports[k].1
    &&& forall|k: int|
        0 <= k < rates.len() && (#[trigger] rates[k]).0 == p.1 && (forall|j: int|
            k < j < rates.len() ==> (#[trigger] rates[j]).0 != p.1) ==> c.rate == rates[k].1
}

proof fn lemma_model_of(ports: Seq<(u16, Text)>, port: u16, k: int)
    requires
        0 <= k < ports.len(),
        ports[k].0 == port,
        forall|j: int| k < j < ports.len() ==> (#[trigger] ports[j]).0 != port,
    ensures
        model_of(ports, port) == ports[k].1,
    decreases ports.len(),
{
    if k < ports.len() - 1 {
        let init = ports.drop_last();
        assert(ports[ports.len() - 1].0 != port);
        assert forall|j: int| k < j < init.len() implies (#[trigger] init[j]).0 != port by {
            assert(init[j] == ports[j]);
        }
        lemma_model_of(init, port, k);
    }
}

proof fn lemma_rate_of(rates: Seq<(u16, Option<u64>)>, port: u16, k: int)
    requires
        0 <= k < rates.len(),
        rates[k].0 == port,
        forall|j: int| k < j < rates.len() ==> (#[trigger] rates[j]).0 != port,
    ensures
        rate_of(rates, port) == rates[k].1,
    decreases rates.len(),
{
    if k < rates.len() - 1 {
        let init = rates.drop_last();
        assert(rates[rates.len() - 1].0 != port);
        assert forall|j: int| k < j < init.len() implies (#[trigger] init[j]).0 != port by {
            assert(init[j] == rates[j]);
        }
        lemma_rate_of(init, port, k);
    }
}

proof fn lemma_client_for(
    p: (Ip, u16),
    before: Seq<ClientView>,
    rates: Seq<(u16, Option<u64>)>,
    ports: Seq<(u16, Text)>,
    now: u64,
)
    ensures
        stands_for(client_for(p, before, rates, ports, now), p, rates, ports),
{
    let c = client_for(p, before, rates, ports, now);
    assert forall|k: int|
        0 <= k < ports.len() && (#[trigger] ports[k]).0 == p.1 && (forall|j: int|
            k < j < ports.len() ==> (#[trigger] ports[j]).0 != p.1) implies c.model
        == ports[k].1 by {
        lemma_model_of(ports, p.1, k);
    }
    assert forall|k: int|
        0 <= k < rates.len() && (#[trigger] rates[k]).0 == p.1 && (forall|j: int|
            k < j < rates.len() ==> (#[trigger] rates[j]).0 != p.1) implies c.rate == rates[k].1 by {
        lemma_rate_of(rates, p.1, k);
    }
}

/// Whether some client stands for a peer.
pub open spec fn has_client(
    v: Seq<ClientView>,
    p: (Ip, u16),
    rates: Seq<(u16, Option<u64>)>,
    ports: Seq<(u16, Text)>,
) -> bool {
    exists|i: int| 0 <= i < v.len() && stands_for(#[trigger] v[i], p, rates, ports)
}

/// Every peer on another machine has its client, with the model and the rate of
/// the port that it is connected to.
pub proof fn law_every_peer_is_a_client(
    peers: Seq<(Ip, u16)>,
    before: Seq<ClientView>,
    rates: Seq<(u16, Option<u64>)>,
    ports: Seq<(u16, Text)>,
    now: u64,
)
    ensures
        forall|k: int|
            0 <= k < peers.len() && !(#[trigger] peers[k]).0.loopback() ==> has_client(
                reconciled(peers, before, rates, ports, now),
                peers[k],
                rates,
                ports,
            ),
        forall|i: int|
            0 <= i < reconciled(peers, before, rates, ports, now).len() ==> stands_for(
                #[trigger] reconciled(peers, before, rates, ports, now)[i],
                (
                    reconciled(peers, before, rates, ports, now)[i].remote,
                    reconciled(peers, before, rates, ports, now)[i].local_port,
                ),
                rates,
                ports,
            ),
    decreases peers.len(),
{
    if peers.len() > 0 {
        let pre = peers.drop_last();
        let init = reconciled(pre, before, rates, ports, now);
        let all = reconciled(peers, before, rates, ports, now);
        let p = peers.last();
        law_every_peer_is_a_client(pre, before, rates, ports, now);
        lemma_client_at(init, p, 0);
        lemma_client_for(p, before, rates, ports, now);
        assert forall|k: int|
            0 <= k < peers.len() && !(#[trigger] peers[k]).0.loopback() implies has_client(
            all,
            peers[k],
            rates,
            ports,
        ) by {
            if k < pre.len() {
                assert(pre[k] == peers[k]);
                assert(has_client(init, pre[k], rates, ports));
                let i = choose|i: int|
                    0 <= i < init.len() && stands_for(#[trigger] init[i], pre[k], rates, ports);
                assert(all[i] == init[i]);
            } else {
                assert(peers[k] == p);
                let c = client_at(init, p, 0);
                if c < init.len() {
                    assert((init[c].remote, init[c].local_port) == p);
                    assert(stands_for(init[c], (init[c].remote, init[c].local_port), rates, ports));
                    assert(all[c] == init[c]);
                } else {
                    assert(all == init.push(client_for(p, before, rates, ports, now)));
                    assert(all[init.len() as int] == client_for(p, before, rates, ports, now));
                    assert(stands_for(all[init.len() as int], p, rates, ports));
                }
            }
        }
        assert forall|i: int| 0 <= i < all.len() implies stands_for(
            #[trigger] all[i],
            (all[i].remote, all[i].local_port),
            rates,
            ports,
        ) by {
            if i < init.len() {
                assert(all[i] == init[i]);
            }
        }
    }
}

/// The rate that the summary tells is the highest of a busy client; without a
/// busy client there is none.
pub proof fn law_summary_tells_the_highest_rate(v: Seq<ClientView>)
    ensures
        highest_rate(v) matches Some(r) ==> forall|i: int|
            0 <= i < v.len() && busy(#[trigger] v[i]) ==> v[i].rate->0 <= r,
        highest_rate(v) matches Some(r) ==> exists|i: int|
            0 <= i < v.len() && busy(#[trigger] v[i]) && v[i].rate == Some(r),
        highest_rate(v) is None ==> forall|i: int| 0 <= i < v.len() ==> !busy(#[trigger] v[i]),
        busy_count(v) == 0 <==> highest_rate(v) is None,
        (forall|i: int| 0 <= i < v.len() ==> busy(#[trigger] v[i])) ==> busy_count(v) == v.len(),
    decreases v.len(),
{
    if v.len() > 0 {
        let init = v.drop_last();
        law_summary_tells_the_highest_rate(init);
        assert forall|i: int| 0 <= i < init.len() implies #[trigger] v[i] == init[i] by {}
        assert(v[v.len() - 1] == v.last());
        if let Some(r) = highest_rate(init) {
            let i = choose|i: int|
                0 <= i < init.len() && busy(#[trigger] init[i]) && init[i].rate == Some(r);
            assert(v[i] == init[i]);
        }
        if forall|i: int| 0 <= i < v.len() ==> busy(#[trigger] v[i]) {
            assert forall|i: int| 0 <= i < init.len() implies busy(#[trigger] init[i]) by {
                assert(v[i] == init[i]);
            }
        }
    }
}

/// A client is shown with its own address, port, model and rate, as active while
/// it has a rate; its times are so many seconds before now.
pub proof fn law_client_is_shown_as_it_is(c: ClientView, seen_at: u64, now: u64, wall: u64)
    requires
        c.first_seen <= now,
        seen_at <= now,
        now / 1000 <= wall,
    ensures
        ({
            let s = shown(c, seen_at, now, wall);
            &&& s.remote_addr == c.remote.text()
            &&& s.local_port == c.local_port
            &&& s.model == c.model
            &&& s.state == ClientActivityState::Active <==> busy(c)
            &&& busy(c) ==> s.tokens_per_second == c.rate
            &&& !busy(c) ==> s.tokens_per_second is None
            &&& s.started_at == wall - (now - c.first_seen) / 1000
            &&& s.last_seen == wall - (now - seen_at) / 1000
        }),
{
}

} // verus!
