//! Other devices on the network: telling them of this one, and finding them.
use vstd::prelude::*;

use crate::address::{ipv4, parse_ipv4, Ipv4};
use crate::download::minus;
use crate::listen::{
    addr_texts, cg_nat, instance_name, is_tailscale_cg_nat, lan_range_rank, range_rank,
    sanitize_instance_name, LocalAddrs,
};
use crate::ip_text::lemma_ipv4_reads_back;
use crate::order::{
    ascending, lemma_ascending, lemma_holds_both, lemma_holds_pushed, lemma_text_total,
    lemma_text_trans, rises, sorted_unique, text_before, text_lt,
};
use crate::text::{
    decimal, join, joined, list_contains, number, opt_text, same, strip_suffix, texts, trim,
    trim_end_char, trim_end_matches, trimmed, without_suffix, Text,
};

verus! {

broadcast use vstd::string::group_string_axioms;

/// The kind of service that is announced.
pub const SERVICE_TYPE: &'static str = "_tinyinference._tcp.local.";

/// The port of the beacons.
pub const BEACON_PORT: u16 = 39217;

/// How long a device is listed without a sign of it, in milliseconds.
pub const PEER_TTL: u64 = 90_000;

/// The ports that are tried on other devices.
pub open spec fn scan_ports() -> Seq<u16> {
    seq![8080, 8081, 8090, 3000]
}

/// A device that shares servers.
#[derive(Debug)]
pub struct DiscoveredPeer {
    pub name: String,
    pub host: String,
    pub port: u16,
    /// All ports that it shares.
    pub ports: Vec<u16>,
    pub base_url: String,
    pub fullname: String,
}

/// The view of [`DiscoveredPeer`].
#[verifier::ext_equal]
pub struct PeerView {
    pub name: Text,
    pub host: Text,
    pub port: u16,
    pub ports: Seq<u16>,
    pub base_url: Text,
    pub fullname: Text,
}

impl View for DiscoveredPeer {
    type V = PeerView;

    open spec fn view(&self) -> PeerView {
        PeerView {
            name: self.name@,
            host: self.host@,
            port: self.port,
            ports: self.ports@,
            base_url: self.base_url@,
            fullname: self.fullname@,
        }
    }
}

fn copy_ports(v: &Vec<u16>) -> (out: Vec<u16>)
    ensures
        out@ == v@,
{
    let mut out: Vec<u16> = Vec::new();
    let mut i: usize = 0;
    while i < v.len()
        invariant
            i <= v.len(),
            out@ == v@.take(i as int),
        decreases v.len() - i,
    {
        out.push(v[i]);
        i = i + 1;
    }
    proof {
        assert(v@.take(v@.len() as int) =~= v@);
    }
    out
}

impl Clone for DiscoveredPeer {
    fn clone(&self) -> (r: Self)
        ensures
            r@ == self@,
    {
        DiscoveredPeer {
            name: self.name.clone(),
            host: self.host.clone(),
            port: self.port,
            ports: copy_ports(&self.ports),
            base_url: self.base_url.clone(),
            fullname: self.fullname.clone(),
        }
    }
}

/// The views of devices.
pub open spec fn peers(v: Seq<DiscoveredPeer>) -> Seq<PeerView> {
    Seq::new(v.len(), |i: int| v[i]@)
}

/// A device, and when it was last seen.
#[derive(Debug)]
pub struct Sighting {
    pub peer: DiscoveredPeer,
    pub seen: u64,
}

/// The devices that were seen, each once by its full name.
#[derive(Debug)]
pub struct PeerStore {
    pub sightings: Vec<Sighting>,
}

/// The views of sightings.
pub open spec fn sightings(v: Seq<Sighting>) -> Seq<(PeerView, u64)> {
    Seq::new(v.len(), |i: int| (v[i].peer@, v[i].seen))
}

/// Whether each device is there once.
pub open spec fn seen_once(s: Seq<(PeerView, u64)>) -> bool {
    forall|i: int, j: int|
        0 <= i < j < s.len() ==> (#[trigger] s[i]).0.fullname != (#[trigger] s[j]).0.fullname
}

/// The sightings without a device.
pub open spec fn unseen(s: Seq<(PeerView, u64)>, fullname: Text) -> Seq<(PeerView, u64)>
    decreases s.len(),
{
    if s.len() == 0 {
        Seq::empty()
    } else {
        let init = unseen(s.drop_last(), fullname);
        if s.last().0.fullname == fullname {
            init
        } else {
            init.push(s.last())
        }
    }
}

/// The sightings that are not too old.
pub open spec fn still_seen(s: Seq<(PeerView, u64)>, now: u64) -> Seq<(PeerView, u64)>
    decreases s.len(),
{
    if s.len() == 0 {
        Seq::empty()
    } else {
        let init = still_seen(s.drop_last(), now);
        if minus(now, s.last().1) < PEER_TTL {
            init.push(s.last())
        } else {
            init
        }
    }
}

/// A row of devices in order of name with one more in its place, behind those
/// of the same name.
pub open spec fn placed(s: Seq<PeerView>, p: PeerView) -> Seq<PeerView>
    decreases s.len(),
{
    if s.len() == 0 || !text_lt(p.name, s.last().name) {
        s.push(p)
    } else {
        placed(s.drop_last(), p).push(s.last())
    }
}

/// The devices in order of name.
pub open spec fn by_name(s: Seq<(PeerView, u64)>) -> Seq<PeerView>
    decreases s.len(),
{
    if s.len() == 0 {
        Seq::empty()
    } else {
        placed(by_name(s.drop_last()), s.last().0)
    }
}

fn place(v: &mut Vec<DiscoveredPeer>, p: DiscoveredPeer)
    ensures
        peers(final(v)@) == placed(peers(old(v)@), p@),
{
    let ghost all = peers(v@);
    let ghost pv = p@;
    let mut at: usize = v.len();
    proof {
        assert(all.take(all.len() as int) =~= all);
        assert(all.skip(all.len() as int) =~= Seq::<PeerView>::empty());
        assert(placed(all, pv) + Seq::<PeerView>::empty() =~= placed(all, pv));
    }
    while at > 0 && text_before(p.name.as_str(), v[at - 1].name.as_str())
        invariant
            at <= v.len(),
            pv == p@,
            peers(v@) == all,
            placed(all, pv) == placed(all.take(at as int), pv) + all.skip(at as int),
        decreases at,
    {
        proof {
            let t = all.take(at as int);
            assert(t.drop_last() =~= all.take(at - 1));
            assert(t.last() == v@[at - 1]@);
            assert(all.skip(at - 1) =~= seq![all[at - 1]] + all.skip(at as int));
            assert(placed(t, pv) + all.skip(at as int) =~= placed(all.take(at - 1), pv) + (
            seq![all[at - 1]] + all.skip(at as int)));
        }
        at = at - 1;
    }
    proof {
        if at > 0 {
            assert(all.take(at as int).last() == v@[at - 1]@);
        }
        assert(all =~= all.take(at as int) + all.skip(at as int));
    }
    let ghost was = v@;
    v.insert(at, p);
    proof {
        assert(peers(v@) =~= all.take(at as int).push(pv) + all.skip(at as int));
    }
}

impl PeerStore {
    /// Nothing seen yet.
    pub fn new() -> (r: PeerStore)
        ensures
            sightings(r.sightings@).len() == 0,
    {
        PeerStore { sightings: Vec::new() }
    }

    /// Notes a device, in place of what was known of it.
    pub fn upsert(&mut self, peer: DiscoveredPeer, now: u64)
        ensures
            sightings(final(self).sightings@) == unseen(
                sightings(old(self).sightings@),
                peer@.fullname,
            ).push((peer@, now)),
    {
        let name = peer.fullname.clone();
        self.remove(name.as_str());
        let ghost was = sightings(self.sightings@);
        let ghost pv = peer@;
        self.sightings.push(Sighting { peer, seen: now });
        proof {
            assert(sightings(self.sightings@) =~= was.push((pv, now)));
        }
    }

    /// Forgets a device.
    pub fn remove(&mut self, fullname: &str)
        ensures
            sightings(final(self).sightings@) == unseen(
                sightings(old(self).sightings@),
                fullname@,
            ),
    {
        let ghost all = sightings(self.sightings@);
        let mut todo: Vec<Sighting> = Vec::new();
        todo.append(&mut self.sightings);
        let mut kept: Vec<Sighting> = Vec::new();
        let ghost mut i: int = 0;
        proof {
            assert(sightings(todo@) =~= all.skip(0));
            assert(all.take(0) =~= Seq::<(PeerView, u64)>::empty());
            assert(sightings(kept@) =~= unseen(all.take(0), fullname@));
        }
        while todo.len() > 0
            invariant
                0 <= i <= all.len(),
                todo.len() == all.len() - i,
                sightings(todo@) == all.skip(i),
                sightings(kept@) == unseen(all.take(i), fullname@),
            decreases todo.len(),
        {
            let ghost tv = todo@;
            let s = todo.remove(0);
            let ghost was = sightings(kept@);
            let ghost sv = (s.peer@, s.seen);
            proof {
                assert(sightings(tv)[0] == sv);
                assert forall|k: int| 0 <= k < todo.len() implies sightings(todo@)[k] == all.skip(
                    i + 1,
                )[k] by {
                    assert(sightings(tv)[k + 1] == (tv[k + 1].peer@, tv[k + 1].seen));
                }
                assert(sightings(todo@) =~= all.skip(i + 1));
                assert(all.take(i + 1).drop_last() =~= all.take(i));
                assert(all.take(i + 1).last() == sv);
            }
            if !same(s.peer.fullname.as_str(), fullname) {
                kept.push(s);
                proof {
                    assert(sightings(kept@) =~= was.push(sv));
                }
            }
            proof {
                i = i + 1;
            }
        }
        proof {
            assert(all.take(i) =~= all);
        }
        self.sightings = kept;
    }

    fn forget_old(&mut self, now: u64)
        ensures
            sightings(final(self).sightings@) == still_seen(sightings(old(self).sightings@), now),
    {
        let ghost all = sightings(self.sightings@);
        let mut todo: Vec<Sighting> = Vec::new();
        todo.append(&mut self.sightings);
        let mut kept: Vec<Sighting> = Vec::new();
        let ghost mut i: int = 0;
        proof {
            assert(sightings(todo@) =~= all.skip(0));
            assert(all.take(0) =~= Seq::<(PeerView, u64)>::empty());
            assert(sightings(kept@) =~= still_seen(all.take(0), now));
        }
        while todo.len() > 0
            invariant
                0 <= i <= all.len(),
                todo.len() == all.len() - i,
                sightings(todo@) == all.skip(i),
                sightings(kept@) == still_seen(all.take(i), now),
            decreases todo.len(),
        {
            let ghost tv = todo@;
            let s = todo.remove(0);
            let ghost was = sightings(kept@);
            let ghost sv = (s.peer@, s.seen);
            proof {
                assert(sightings(tv)[0] == sv);
                assert forall|k: int| 0 <= k < todo.len() implies sightings(todo@)[k] == all.skip(
                    i + 1,
                )[k] by {
                    assert(sightings(tv)[k + 1] == (tv[k + 1].peer@, tv[k + 1].seen));
                }
                assert(sightings(todo@) =~= all.skip(i + 1));
                assert(all.take(i + 1).drop_last() =~= all.take(i));
                assert(all.take(i + 1).last() == sv);
            }
            if now.saturating_sub(s.seen) < PEER_TTL {
                kept.push(s);
                proof {
                    assert(sightings(kept@) =~= was.push(sv));
                }
            }
            proof {
                i = i + 1;
            }
        }
        proof {
            assert(all.take(i) =~= all);
        }
        self.sightings = kept;
    }

    /// The devices that were seen not too long ago, in order of name; the others
    /// are forgotten.
    pub fn list(&mut self, now: u64) -> (out: Vec<DiscoveredPeer>)
        ensures
            sightings(final(self).sightings@) == still_seen(sightings(old(self).sightings@), now),
            peers(out@) == by_name(still_seen(sightings(old(self).sightings@), now)),
    {
        self.forget_old(now);
        let ghost all = sightings(self.sightings@);
        let mut out: Vec<DiscoveredPeer> = Vec::new();
        let mut i: usize = 0;
        proof {
            assert(all.take(0) =~= Seq::<(PeerView, u64)>::empty());
            assert(peers(out@) =~= by_name(all.take(0)));
        }
        while i < self.sightings.len()
            invariant
                all == sightings(self.sightings@),
                i <= self.sightings.len(),
                peers(out@) == by_name(all.take(i as int)),
            decreases self.sightings.len() - i,
        {
            proof {
                assert(all.take(i + 1).drop_last() =~= all.take(i as int));
                assert(all.take(i + 1).last() == (
                    self.sightings@[i as int].peer@,
                    self.sightings@[i as int].seen,
                ));
            }
            let p = self.sightings[i].peer.clone();
            place(&mut out, p);
            i = i + 1;
        }
        proof {
            assert(all.take(all.len() as int) =~= all);
        }
        out
    }
}

proof fn lemma_unseen(s: Seq<(PeerView, u64)>, fullname: Text)
    ensures
        forall|i: int|
            0 <= i < unseen(s, fullname).len() ==> (#[trigger] unseen(s, fullname)[i]).0.fullname
                != fullname && s.contains(unseen(s, fullname)[i]),
        seen_once(s) ==> seen_once(unseen(s, fullname)),
    decreases s.len(),
{
    if s.len() > 0 {
        let init = unseen(s.drop_last(), fullname);
        let u = unseen(s, fullname);
        lemma_unseen(s.drop_last(), fullname);
        assert forall|i: int| 0 <= i < u.len() implies (#[trigger] u[i]).0.fullname != fullname
            && s.contains(u[i]) by {
            if i < init.len() {
                assert(s.drop_last().contains(init[i]));
                let k = choose|k: int| 0 <= k < s.drop_last().len() && s.drop_last()[k] == init[i];
                assert(s[k] == u[i]);
            } else {
                assert(s[s.len() - 1] == u[i]);
            }
        }
        if seen_once(s) {
            assert(seen_once(s.drop_last()));
            assert forall|i: int, j: int| 0 <= i < j < u.len() implies (
            #[trigger] u[i]).0.fullname != (#[trigger] u[j]).0.fullname by {
                if j < init.len() {
                    assert(init[i].0.fullname != init[j].0.fullname);
                } else {
                    assert(s.drop_last().contains(init[i]));
                    let k = choose|k: int|
                        0 <= k < s.drop_last().len() && s.drop_last()[k] == init[i];
                    assert(s[k].0.fullname != s[s.len() - 1].0.fullname);
                }
            }
        }
    }
}

/// However often a device is seen, it is listed once, as it was seen last.
pub proof fn law_each_peer_once(s: Seq<(PeerView, u64)>, p: PeerView, now: u64)
    requires
        seen_once(s),
    ensures
        seen_once(unseen(s, p.fullname).push((p, now))),
        unseen(s, p.fullname).push((p, now)).last() == (p, now),
{
    lemma_unseen(s, p.fullname);
}

/// What a device announces.
#[derive(Debug)]
pub struct BeaconPayload {
    pub v: u8,
    /// `discover` asks others to announce; `announce`, or nothing, tells of a
    /// share.
    pub t: String,
    pub name: String,
    pub port: u16,
    pub ports: Vec<u16>,
    pub scheme: String,
    pub ips: Vec<String>,
}

/// The view of [`BeaconPayload`].
pub struct PayloadView {
    pub v: u8,
    pub t: Text,
    pub name: Text,
    pub port: u16,
    pub ports: Seq<u16>,
    pub scheme: Text,
    pub ips: Seq<Text>,
}

impl View for BeaconPayload {
    type V = PayloadView;

    open spec fn view(&self) -> PayloadView {
        PayloadView {
            v: self.v,
            t: self.t@,
            name: self.name@,
            port: self.port,
            ports: self.ports@,
            scheme: self.scheme@,
            ips: texts(self.ips@),
        }
    }
}

/// What this device tells of itself while it shares.
#[derive(Debug)]
pub struct BeaconOut {
    pub name: String,
    pub port: u16,
    pub ports: Vec<u16>,
    pub ips: Vec<Ipv4>,
}

/// The view of [`BeaconOut`].
#[verifier::ext_equal]
pub struct BeaconView {
    pub name: Text,
    pub port: u16,
    pub ports: Seq<u16>,
    pub ips: Seq<Ipv4>,
}

impl View for BeaconOut {
    type V = BeaconView;

    open spec fn view(&self) -> BeaconView {
        BeaconView { name: self.name@, port: self.port, ports: self.ports@, ips: self.ips@ }
    }
}

/// The mark that a beacon begins with.
pub open spec fn beacon_magic() -> Seq<u8> {
    seq![84u8, 73u8, 49u8, 10u8]
}

/// A beacon with its mark.
pub fn encode_beacon(body: &Vec<u8>) -> (packet: Vec<u8>)
    ensures
        packet@ == beacon_magic() + body@,
{
    let mut packet: Vec<u8> = vec![84u8, 73u8, 49u8, 10u8];
    let mut i: usize = 0;
    proof {
        assert(packet@ =~= beacon_magic() + body@.take(0));
    }
    while i < body.len()
        invariant
            i <= body.len(),
            packet@ == beacon_magic() + body@.take(i as int),
        decreases body.len() - i,
    {
        packet.push(body[i]);
        proof {
            assert(packet@ =~= beacon_magic() + body@.take(i + 1));
        }
        i = i + 1;
    }
    proof {
        assert(body@.take(body@.len() as int) =~= body@);
    }
    packet
}

/// The body of a beacon, if it has the mark.
pub open spec fn beacon_body(packet: Seq<u8>) -> Option<Seq<u8>> {
    if beacon_magic().is_prefix_of(packet) {
        Some(packet.skip(4))
    } else {
        None
    }
}

/// The body of a beacon, if it has the mark.
pub fn decode_beacon(packet: &Vec<u8>) -> (r: Option<Vec<u8>>)
    ensures
        (match r {
            Some(v) => Some(v@),
            None => None::<Seq<u8>>,
        }) == beacon_body(packet@),
{
    if packet.len() < 4 || packet[0] != 84 || packet[1] != 73 || packet[2] != 49 || packet[3]
        != 10 {
        proof {
            if beacon_magic().is_prefix_of(packet@) {
                assert(packet@[0] == beacon_magic()[0]);
                assert(packet@[1] == beacon_magic()[1]);
                assert(packet@[2] == beacon_magic()[2]);
                assert(packet@[3] == beacon_magic()[3]);
            }
        }
        return None;
    }
    proof {
        assert(beacon_magic() =~= packet@.subrange(0, 4));
    }
    let mut body: Vec<u8> = Vec::new();
    let mut i: usize = 4;
    while i < packet.len()
        invariant
            4 <= i <= packet.len(),
            body@ == packet@.subrange(4, i as int),
        decreases packet.len() - i,
    {
        body.push(packet[i]);
        proof {
            assert(body@ =~= packet@.subrange(4, i + 1));
        }
        i = i + 1;
    }
    proof {
        assert(body@ =~= packet@.skip(4));
    }
    Some(body)
}

/// A beacon that is read gives back what was sent.
pub proof fn law_beacon_round_trip(body: Seq<u8>)
    ensures
        beacon_body(beacon_magic() + body) == Some(body),
{
    assert((beacon_magic() + body).subrange(0, 4) =~= beacon_magic());
    assert((beacon_magic() + body).skip(4) =~= body);
}

/// What is announced of this device.
pub open spec fn announcement(b: BeaconView) -> PayloadView {
    PayloadView {
        v: 1,
        t: "announce"@,
        name: b.name,
        port: b.port,
        ports: b.ports,
        scheme: "https"@,
        ips: addr_texts(b.ips),
    }
}

/// What is announced of this device.
pub fn announce_payload(out: &BeaconOut) -> (r: BeaconPayload)
    ensures
        r@ == announcement(out@),
{
    let mut ips: Vec<String> = Vec::new();
    let mut i: usize = 0;
    while i < out.ips.len()
        invariant
            i <= out.ips.len(),
            ips.len() == i,
            forall|k: int| 0 <= k < i ==> (#[trigger] ips@[k])@ == out.ips@[k].text(),
        decreases out.ips.len() - i,
    {
        ips.push(out.ips[i].to_text());
        i = i + 1;
    }
    proof {
        assert(texts(ips@) =~= addr_texts(out.ips@));
    }
    BeaconPayload {
        v: 1,
        t: "announce".to_owned(),
        name: out.name.clone(),
        port: out.port,
        ports: copy_ports(&out.ports),
        scheme: "https".to_owned(),
        ips,
    }
}

/// The question who shares.
pub fn discover_payload() -> (r: BeaconPayload)
    ensures
        r@ == (PayloadView {
            v: 1,
            t: "discover"@,
            name: Seq::empty(),
            port: 0,
            ports: Seq::empty(),
            scheme: "https"@,
            ips: Seq::empty(),
        }),
{
    let r = BeaconPayload {
        v: 1,
        t: "discover".to_owned(),
        name: String::new(),
        port: 0,
        ports: Vec::new(),
        scheme: "https".to_owned(),
        ips: Vec::new(),
    };
    proof {
        assert(texts(r.ips@) =~= Seq::<Text>::empty());
    }
    r
}

/// What a beacon that arrived asks for.
#[derive(Debug)]
pub enum BeaconReply {
    Ignore,
    /// Answer with what is announced of this device.
    Announce(BeaconPayload),
    /// Note the device.
    Note(DiscoveredPeer),
}

/// The addresses among texts.
pub open spec fn addresses(v: Seq<Text>) -> Seq<Ipv4>
    decreases v.len(),
{
    if v.len() == 0 {
        Seq::empty()
    } else {
        let init = addresses(v.drop_last());
        match ipv4(v.last()) {
            Some(q) => init.push(q),
            None => init,
        }
    }
}

/// The addresses to look at: those told, else the one it came from.
pub open spec fn told_addresses(v: Seq<Text>, from: Option<Ipv4>) -> Seq<Ipv4> {
    if addresses(v).len() == 0 {
        match from {
            Some(q) => seq![q],
            None => Seq::empty(),
        }
    } else {
        addresses(v)
    }
}

/// The first of the addresses with the least rank that are on the local
/// network.
pub open spec fn best_local(v: Seq<Ipv4>) -> Option<Ipv4>
    decreases v.len(),
{
    if v.len() == 0 {
        None
    } else {
        let q = v.last();
        let best = best_local(v.drop_last());
        if q.loopback() || cg_nat(q) {
            best
        } else {
            match best {
                Some(b) if range_rank(b) <= range_rank(q) => Some(b),
                _ => Some(q),
            }
        }
    }
}

/// An API base.
pub open spec fn api_base(scheme: Text, host: Text, port: u16) -> Text {
    scheme + "://"@ + host + ":"@ + decimal(port as nat) + "/v1"@
}

/// The ports that are not zero.
pub open spec fn real_ports(v: Seq<u16>) -> Seq<u16>
    decreases v.len(),
{
    if v.len() == 0 {
        Seq::empty()
    } else {
        let init = real_ports(v.drop_last());
        if v.last() != 0 {
            init.push(v.last())
        } else {
            init
        }
    }
}

/// The device that an announcement tells of.
pub open spec fn announced(p: PayloadView, from: Option<Ipv4>) -> Option<PeerView> {
    if p.port == 0 || trimmed(p.name).len() == 0 || (p.t.len() > 0 && p.t != "announce"@) {
        None
    } else {
        match best_local(told_addresses(p.ips, from)) {
            None => None,
            Some(q) => {
                let name = instance_name(p.name);
                Some(
                    PeerView {
                        name,
                        host: q.text(),
                        port: p.port,
                        ports: ascending(real_ports(p.ports.push(p.port))),
                        base_url: api_base(
                            if p.scheme == "http"@ {
                                "http"@
                            } else {
                                "https"@
                            },
                            q.text(),
                            p.port,
                        ),
                        fullname: "beacon:"@ + name + ":"@ + decimal(p.port as nat),
                    },
                )
            },
        }
    }
}

/// The view of a device, where there is one.
pub open spec fn peer_view(p: Option<DiscoveredPeer>) -> Option<PeerView> {
    match p {
        Some(p) => Some(p@),
        None => None,
    }
}

fn base_text(scheme: &str, host: &str, port: u16) -> (out: String)
    ensures
        out@ == api_base(scheme@, host@, port),
{
    let mut out = scheme.to_owned();
    out.append("://");
    out.append(host);
    out.append(":");
    out.append(number(port as u64).as_str());
    out.append("/v1");
    out
}

fn read_addresses(v: &Vec<String>) -> (out: Vec<Ipv4>)
    ensures
        out@ == addresses(texts(v@)),
{
    let ghost all = texts(v@);
    let mut out: Vec<Ipv4> = Vec::new();
    let mut i: usize = 0;
    proof {
        assert(all.take(0) =~= Seq::<Text>::empty());
        assert(out@ =~= addresses(all.take(0)));
    }
    while i < v.len()
        invariant
            all == texts(v@),
            i <= v.len(),
            out@ == addresses(all.take(i as int)),
        decreases v.len() - i,
    {
        proof {
            assert(all.take(i + 1).drop_last() =~= all.take(i as int));
            assert(all.take(i + 1).last() == v@[i as int]@);
        }
        match parse_ipv4(v[i].as_str()) {
            Some(q) => {
                out.push(q);
            },
            None => {},
        }
        i = i + 1;
    }
    proof {
        assert(all.take(all.len() as int) =~= all);
    }
    out
}

fn pick_local(v: &Vec<Ipv4>) -> (r: Option<Ipv4>)
    ensures
        r == best_local(v@),
{
    let mut best: Option<Ipv4> = None;
    let mut i: usize = 0;
    proof {
        assert(v@.take(0) =~= Seq::<Ipv4>::empty());
    }
    while i < v.len()
        invariant
            i <= v.len(),
            best == best_local(v@.take(i as int)),
        decreases v.len() - i,
    {
        proof {
            assert(v@.take(i + 1).drop_last() =~= v@.take(i as int));
        }
        let q: Ipv4 = v[i];
        if !(q.a == 127) && !is_tailscale_cg_nat(q) {
            best = match best {
                Some(b) => if lan_range_rank(b) <= lan_range_rank(q) {
                    Some(b)
                } else {
                    Some(q)
                },
                None => Some(q),
            };
        }
        i = i + 1;
    }
    proof {
        assert(v@.take(v@.len() as int) =~= v@);
    }
    best
}

/// The ports that are not zero, in order.
pub fn keep_real_ports(v: &Vec<u16>) -> (out: Vec<u16>)
    ensures
        out@ == real_ports(v@),
{
    let mut out: Vec<u16> = Vec::new();
    let mut i: usize = 0;
    proof {
        assert(v@.take(0) =~= Seq::<u16>::empty());
        assert(out@ =~= real_ports(v@.take(0)));
    }
    while i < v.len()
        invariant
            i <= v.len(),
            out@ == real_ports(v@.take(i as int)),
        decreases v.len() - i,
    {
        proof {
            assert(v@.take(i + 1).drop_last() =~= v@.take(i as int));
        }
        if v[i] != 0 {
            out.push(v[i]);
        }
        i = i + 1;
    }
    proof {
        assert(v@.take(v@.len() as int) =~= v@);
    }
    out
}

/// The device that an announcement tells of; `from` is the address that it came
/// from.
pub fn peer_from_announce(p: &BeaconPayload, from: Option<Ipv4>) -> (r: Option<DiscoveredPeer>)
    ensures
        peer_view(r) == announced(p@, from),
{
    if p.port == 0 || trim(p.name.as_str()).as_str().is_empty() {
        return None;
    }
    if !p.t.as_str().is_empty() && !same(p.t.as_str(), "announce") {
        return None;
    }
    let mut ips = read_addresses(&p.ips);
    if ips.len() == 0 {
        match from {
            Some(q) => {
                ips.push(q);
                proof {
                    assert(ips@ =~= seq![q]);
                }
            },
            None => {
                proof {
                    assert(ips@ =~= Seq::<Ipv4>::empty());
                }
            },
        }
    }
    match pick_local(&ips) {
        None => None,
        Some(q) => {
            let host = q.to_text();
            let name = sanitize_instance_name(p.name.as_str());
            let scheme: &str = if same(p.scheme.as_str(), "http") {
                "http"
            } else {
                "https"
            };
            let mut ports = copy_ports(&p.ports);
            ports.push(p.port);
            let mut fullname = "beacon:".to_owned();
            fullname.append(name.as_str());
            fullname.append(":");
            fullname.append(number(p.port as u64).as_str());
            Some(
                DiscoveredPeer {
                    name,
                    base_url: base_text(scheme, host.as_str(), p.port),
                    host,
                    port: p.port,
                    ports: sorted_unique(&keep_real_ports(&ports)),
                    fullname,
                },
            )
        },
    }
}

/// What a beacon that arrived asks for: `out` is what this device tells of
/// itself, where it shares.
pub fn answer_beacon(p: &BeaconPayload, from: Option<Ipv4>, out: &Option<BeaconOut>) -> (r:
    BeaconReply)
    ensures
        if p@.v != 1 {
            r is Ignore
        } else if p@.t == "discover"@ {
            match out {
                Some(b) => r matches BeaconReply::Announce(x) && x@ == announcement(b@),
                None => r is Ignore,
            }
        } else {
            match announced(p@, from) {
                Some(q) => r matches BeaconReply::Note(x) && x@ == q,
                None => r is Ignore,
            }
        },
{
    if p.v != 1 {
        return BeaconReply::Ignore;
    }
    if same(p.t.as_str(), "discover") {
        return match out {
            Some(b) => BeaconReply::Announce(announce_payload(b)),
            None => BeaconReply::Ignore,
        };
    }
    match peer_from_announce(p, from) {
        Some(q) => BeaconReply::Note(q),
        None => BeaconReply::Ignore,
    }
}

/// The address to which a beacon for the network of an address is sent.
pub fn guess_broadcast(q: Ipv4) -> (r: Ipv4)
    ensures
        r == (Ipv4 { a: q.a, b: q.b, c: q.c, d: 255 }),
{
    Ipv4 { a: q.a, b: q.b, c: q.c, d: 255 }
}

/// A service as it was found on the network.
#[derive(Debug)]
pub struct ResolvedService {
    pub fullname: String,
    pub port: u16,
    pub addresses: Vec<Ipv4>,
    pub host: String,
    /// The scheme that it tells, if it does.
    pub scheme: Option<String>,
}

/// The first of the addresses with the least rank, where one in Tailscale's
/// range comes after all others.
pub open spec fn best_found(v: Seq<Ipv4>) -> Option<Ipv4>
    decreases v.len(),
{
    if v.len() == 0 {
        None
    } else {
        let q = v.last();
        match best_found(v.drop_last()) {
            Some(b) if found_rank(b) <= found_rank(q) => Some(b),
            _ => Some(q),
        }
    }
}

/// The rank of an address that was found.
pub open spec fn found_rank(q: Ipv4) -> int {
    if cg_nat(q) {
        10 + range_rank(q)
    } else {
        range_rank(q) as int
    }
}

fn rank_found(q: Ipv4) -> (r: u8)
    ensures
        r == found_rank(q),
{
    if is_tailscale_cg_nat(q) {
        10 + lan_range_rank(q)
    } else {
        lan_range_rank(q)
    }
}

fn pick_found(v: &Vec<Ipv4>) -> (r: Option<Ipv4>)
    ensures
        r == best_found(v@),
{
    let mut best: Option<Ipv4> = None;
    let mut i: usize = 0;
    proof {
        assert(v@.take(0) =~= Seq::<Ipv4>::empty());
    }
    while i < v.len()
        invariant
            i <= v.len(),
            best == best_found(v@.take(i as int)),
        decreases v.len() - i,
    {
        proof {
            assert(v@.take(i + 1).drop_last() =~= v@.take(i as int));
        }
        let q: Ipv4 = v[i];
        best = match best {
            Some(b) => if rank_found(b) <= rank_found(q) {
                Some(b)
            } else {
                Some(q)
            },
            None => Some(q),
        };
        i = i + 1;
    }
    proof {
        assert(v@.take(v@.len() as int) =~= v@);
    }
    best
}

/// The name of a service without its kind.
pub open spec fn short_name(fullname: Text) -> Text {
    trim_end_char(
        match without_suffix(fullname, "."@ + SERVICE_TYPE@) {
            Some(s) => s,
            None => fullname,
        },
        '.',
    )
}

/// The device that a service belongs to.
pub open spec fn resolved_peer(s: ResolvedService) -> Option<PeerView> {
    let host = match best_found(s.addresses@) {
        Some(q) => Some(q.text()),
        None => if trim_end_char(s.host@, '.').len() > 0 {
            Some(trim_end_char(s.host@, '.'))
        } else {
            None
        },
    };
    match host {
        Some(h) if s.port != 0 && trimmed(s.fullname@).len() > 0 => Some(
            PeerView {
                name: short_name(s.fullname@),
                host: h,
                port: s.port,
                ports: seq![s.port],
                base_url: api_base(
                    match opt_text(s.scheme) {
                        Some(t) if t == "http"@ || t == "https"@ => t,
                        _ => "https"@,
                    },
                    h,
                    s.port,
                ),
                fullname: s.fullname@,
            },
        ),
        _ => None,
    }
}

/// The device that a service belongs to. An address of the local network goes
/// before one of Tailscale's, and before the host's name.
pub fn peer_from_resolved(s: &ResolvedService) -> (r: Option<DiscoveredPeer>)
    ensures
        peer_view(r) == resolved_peer(*s),
{
    if s.port == 0 || trim(s.fullname.as_str()).as_str().is_empty() {
        return None;
    }
    let host = match pick_found(&s.addresses) {
        Some(q) => q.to_text(),
        None => {
            let h = trim_end_matches(s.host.as_str(), '.');
            if h.as_str().is_empty() {
                return None;
            }
            h
        },
    };
    let mut ending = ".".to_owned();
    ending.append(SERVICE_TYPE);
    let name = match strip_suffix(s.fullname.as_str(), ending.as_str()) {
        Some(n) => trim_end_matches(n.as_str(), '.'),
        None => trim_end_matches(s.fullname.as_str(), '.'),
    };
    let scheme: &str = match &s.scheme {
        Some(t) => if same(t.as_str(), "http") {
            "http"
        } else {
            "https"
        },
        None => "https",
    };
    let mut ports: Vec<u16> = Vec::new();
    ports.push(s.port);
    proof {
        assert(ports@ =~= seq![s.port]);
    }
    Some(
        DiscoveredPeer {
            name,
            base_url: base_text(scheme, host.as_str(), s.port),
            host,
            port: s.port,
            ports,
            fullname: s.fullname.clone(),
        },
    )
}

/// The device that answered a scan; a server that wants a key answers too.
pub open spec fn scanned(q: Ipv4, port: u16, status: u16) -> Option<PeerView> {
    if status == 200 || status == 401 {
        Some(
            PeerView {
                name: "lan-"@ + q.text(),
                host: q.text(),
                port,
                ports: seq![port],
                base_url: api_base("https"@, q.text(), port),
                fullname: "scan:"@ + q.text() + ":"@ + decimal(port as nat),
            },
        )
    } else {
        None
    }
}

/// The device that answered a scan with a status.
pub fn scanned_peer(q: Ipv4, port: u16, status: u16) -> (r: Option<DiscoveredPeer>)
    ensures
        peer_view(r) == scanned(q, port, status),
{
    if status != 200 && status != 401 {
        return None;
    }
    let host = q.to_text();
    let mut name = "lan-".to_owned();
    name.append(host.as_str());
    let mut fullname = "scan:".to_owned();
    fullname.append(host.as_str());
    fullname.append(":");
    fullname.append(number(port as u64).as_str());
    let mut ports: Vec<u16> = Vec::new();
    ports.push(port);
    proof {
        assert(ports@ =~= seq![port]);
    }
    Some(
        DiscoveredPeer {
            name,
            base_url: base_text("https", host.as_str(), port),
            host,
            port,
            ports,
            fullname,
        },
    )
}

/// The places to try for one host: all ports, unless the host is this machine.
pub open spec fn host_targets(q: Ipv4, local: Seq<Ipv4>) -> Seq<(Ipv4, u16)> {
    if local.contains(q) {
        Seq::empty()
    } else {
        Seq::new(4, |i: int| (q, scan_ports()[i]))
    }
}

/// The places to try for the hosts up to `n` of an address's network.
pub open spec fn net_targets(q: Ipv4, local: Seq<Ipv4>, n: nat) -> Seq<(Ipv4, u16)>
    decreases n,
{
    if n == 0 {
        Seq::empty()
    } else {
        net_targets(q, local, (n - 1) as nat) + host_targets(
            Ipv4 { d: n as u8, ..q },
            local,
        )
    }
}

/// The places to try: on the small networks of the first two addresses.
pub open spec fn scan_targets(lan: Seq<Ipv4>, n: nat) -> Seq<(Ipv4, u16)>
    decreases n,
{
    if n == 0 {
        Seq::empty()
    } else {
        let q = lan[n - 1];
        scan_targets(lan, (n - 1) as nat) + (if (q.a == 192 && q.b == 168) || q.a == 10 {
            net_targets(q, lan, 254)
        } else {
            Seq::empty()
        })
    }
}

fn is_local(v: &Vec<Ipv4>, q: Ipv4) -> (r: bool)
    ensures
        r == v@.contains(q),
{
    let mut i: usize = 0;
    while i < v.len()
        invariant
            i <= v.len(),
            forall|k: int| 0 <= k < i ==> v@[k] != q,
        decreases v.len() - i,
    {
        if v[i] == q {
            assert(v@[i as int] == q);
            return true;
        }
        i = i + 1;
    }
    false
}

fn push_net_targets(out: &mut Vec<(Ipv4, u16)>, q: Ipv4, local: &Vec<Ipv4>)
    ensures
        final(out)@ == old(out)@ + net_targets(q, local@, 254),
{
    let ghost was = out@;
    let mut host: u8 = 0;
    proof {
        assert(was + net_targets(q, local@, 0) =~= was);
    }
    while host < 254
        invariant
            host <= 254,
            out@ == was + net_targets(q, local@, host as nat),
        decreases 254 - host,
    {
        host = host + 1;
        let t = Ipv4 { a: q.a, b: q.b, c: q.c, d: host };
        let ghost before = out@;
        if !is_local(local, t) {
            out.push((t, 8080));
            out.push((t, 8081));
            out.push((t, 8090));
            out.push((t, 3000));
            proof {
                assert(out@ =~= before + host_targets(t, local@));
            }
        } else {
            proof {
                assert(out@ =~= before + host_targets(t, local@));
            }
        }
        proof {
            assert(out@ =~= was + net_targets(q, local@, host as nat));
        }
    }
}

/// The places to try for devices on the local network.
pub fn local_scan_targets(lan: &Vec<Ipv4>) -> (out: Vec<(Ipv4, u16)>)
    ensures
        out@ == scan_targets(
            lan@,
            if lan@.len() < 2 {
                lan@.len()
            } else {
                2
            },
        ),
{
    let mut out: Vec<(Ipv4, u16)> = Vec::new();
    let mut i: usize = 0;
    proof {
        assert(out@ =~= scan_targets(lan@, 0));
    }
    while i < 2 && i < lan.len()
        invariant
            i <= 2,
            i <= lan.len(),
            out@ == scan_targets(lan@, i as nat),
        decreases 2 - i,
    {
        let q: Ipv4 = lan[i];
        let ghost was = out@;
        if (q.a == 192 && q.b == 168) || q.a == 10 {
            push_net_targets(&mut out, q, lan);
        } else {
            proof {
                assert(was =~= was + Seq::<(Ipv4, u16)>::empty());
            }
        }
        i = i + 1;
    }
    out
}

/// What is said of the search for devices.
pub open spec fn hint_text(lan: Seq<Ipv4>, windows: bool) -> Text {
    if lan.len() == 0 {
        "No Wi‑Fi/Ethernet IPv4 address found on this PC."@
    } else {
        let ips = joined(
            addr_texts(
                if lan.len() <= 3 {
                    lan
                } else {
                    lan.take(3)
                },
            ),
            ", "@,
        );
        "Scanning via mDNS + UDP "@ + decimal(BEACON_PORT as nat)
            + " + subnet probe. This PC LAN: "@ + ips + (if windows {
            ". If nothing appears: set Wi‑Fi to Private, allow tinyinference in Windows Firewall, disable router AP/client isolation, and rebuild tinyinference on the other PC too. Tailscale-only peers won’t show — paste their Endpoints URL into Linked LLM."@
        } else {
            ". Peers must share the same Wi‑Fi/LAN (not Tailscale-only), with Share on and a current tinyinference build. Or paste their Endpoints URL into Linked LLM."@
        })
    }
}

/// What is said of the search for devices.
pub fn discovery_hint(lan: &Vec<Ipv4>, windows: bool) -> (out: String)
    ensures
        out@ == hint_text(lan@, windows),
{
    if lan.len() == 0 {
        return "No Wi‑Fi/Ethernet IPv4 address found on this PC.".to_owned();
    }
    let mut ips: Vec<String> = Vec::new();
    let mut i: usize = 0;
    while i < lan.len() && i < 3
        invariant
            i <= lan.len(),
            i <= 3,
            ips.len() == i,
            forall|k: int| 0 <= k < i ==> (#[trigger] ips@[k])@ == lan@[k].text(),
        decreases lan.len() - i,
    {
        ips.push(lan[i].to_text());
        i = i + 1;
    }
    proof {
        if lan@.len() <= 3 {
            assert(texts(ips@) =~= addr_texts(lan@));
        } else {
            assert(texts(ips@) =~= addr_texts(lan@.take(3)));
        }
    }
    let mut out = "Scanning via mDNS + UDP ".to_owned();
    out.append(number(BEACON_PORT as u64).as_str());
    out.append(" + subnet probe. This PC LAN: ");
    out.append(join(&ips, ", ").as_str());
    if windows {
        out.append(
            ". If nothing appears: set Wi‑Fi to Private, allow tinyinference in Windows Firewall, disable router AP/client isolation, and rebuild tinyinference on the other PC too. Tailscale-only peers won’t show — paste their Endpoints URL into Linked LLM.",
        );
    } else {
        out.append(
            ". Peers must share the same Wi‑Fi/LAN (not Tailscale-only), with Share on and a current tinyinference build. Or paste their Endpoints URL into Linked LLM.",
        );
    }
    out
}

/// The devices to show: not this one, by its name or by its address.
pub open spec fn visible(
    v: Seq<PeerView>,
    own: Option<Text>,
    local: Seq<Text>,
) -> Seq<PeerView>
    decreases v.len(),
{
    if v.len() == 0 {
        Seq::empty()
    } else {
        let init = visible(v.drop_last(), own, local);
        if own == Some(v.last().fullname) || local.contains(v.last().host) {
            init
        } else {
            init.push(v.last())
        }
    }
}

fn write_all(v: &Vec<Ipv4>, out: &mut Vec<String>)
    ensures
        texts(final(out)@) == texts(old(out)@) + addr_texts(v@),
{
    let ghost was = texts(out@);
    let mut i: usize = 0;
    proof {
        assert(texts(out@) =~= was + addr_texts(v@.take(0)));
    }
    while i < v.len()
        invariant
            i <= v.len(),
            texts(out@) == was + addr_texts(v@.take(i as int)),
        decreases v.len() - i,
    {
        let ghost before = texts(out@);
        let t = v[i].to_text();
        out.push(t);
        proof {
            assert(texts(out@) =~= before.push(t@));
            assert(before.push(t@) =~= was + addr_texts(v@.take(i + 1)));
        }
        i = i + 1;
    }
    proof {
        assert(v@.take(v@.len() as int) =~= v@);
    }
}

/// The devices to show: not this one.
pub fn visible_peers(v: &Vec<DiscoveredPeer>, own: Option<&str>, local: &LocalAddrs) -> (out: Vec<
    DiscoveredPeer,
>)
    ensures
        peers(out@) == visible(
            peers(v@),
            crate::slot::opt_view(own),
            addr_texts(local.lan@) + addr_texts(local.tailscale@),
        ),
{
    let mut here: Vec<String> = Vec::new();
    write_all(&local.lan, &mut here);
    write_all(&local.tailscale, &mut here);
    let ghost own_view = crate::slot::opt_view(own);
    let ghost h = addr_texts(local.lan@) + addr_texts(local.tailscale@);
    proof {
        assert(texts(here@) =~= h);
    }
    let ghost all = peers(v@);
    let mut out: Vec<DiscoveredPeer> = Vec::new();
    let mut i: usize = 0;
    proof {
        assert(all.take(0) =~= Seq::<PeerView>::empty());
        assert(peers(out@) =~= visible(all.take(0), own_view, h));
    }
    while i < v.len()
        invariant
            all == peers(v@),
            own_view == crate::slot::opt_view(own),
            texts(here@) == h,
            i <= v.len(),
            peers(out@) == visible(all.take(i as int), own_view, h),
        decreases v.len() - i,
    {
        let ghost was = peers(out@);
        proof {
            assert(all.take(i + 1).drop_last() =~= all.take(i as int));
            assert(all.take(i + 1).last() == v@[i as int]@);
        }
        let mine: bool = match own {
            Some(n) => same(n, v[i].fullname.as_str()),
            None => false,
        };
        if !mine && !list_contains(&here, v[i].host.as_str()) {
            out.push(v[i].clone());
            proof {
                assert(peers(out@) =~= was.push(all[i as int]));
            }
        }
        i = i + 1;
    }
    proof {
        assert(all.take(all.len() as int) =~= all);
    }
    out
}

/// A device that is forgotten leaves the list; every other stays.
pub proof fn law_forgotten_peer_leaves_alone(s: Seq<(PeerView, u64)>, fullname: Text)
    ensures
        forall|x: (PeerView, u64)|
            #[trigger] unseen(s, fullname).contains(x) <==> s.contains(x) && x.0.fullname
                != fullname,
    decreases s.len(),
{
    if s.len() > 0 {
        let init = s.drop_last();
        law_forgotten_peer_leaves_alone(init, fullname);
        assert(s =~= init.push(s.last()));
        assert forall|x: (PeerView, u64)|
            #[trigger] unseen(s, fullname).contains(x) <==> s.contains(x) && x.0.fullname
                != fullname by {
            lemma_holds_pushed(init, s.last(), x);
            lemma_holds_pushed(unseen(init, fullname), s.last(), x);
        }
    }
}

/// A device is listed for a minute and a half after the last sign of it.
pub proof fn law_silent_peers_leave(s: Seq<(PeerView, u64)>, now: u64)
    ensures
        forall|x: (PeerView, u64)|
            #[trigger] still_seen(s, now).contains(x) <==> s.contains(x) && now - x.1 < 90_000,
    decreases s.len(),
{
    if s.len() > 0 {
        let init = s.drop_last();
        law_silent_peers_leave(init, now);
        assert(s =~= init.push(s.last()));
        assert forall|x: (PeerView, u64)|
            #[trigger] still_seen(s, now).contains(x) <==> s.contains(x) && now - x.1 < 90_000 by {
            lemma_holds_pushed(init, s.last(), x);
            lemma_holds_pushed(still_seen(init, now), s.last(), x);
        }
    }
}

/// Whether the names of devices stand in dictionary order.
pub open spec fn named_in_order(v: Seq<PeerView>) -> bool {
    forall|i: int, j: int|
        0 <= i < j < v.len() ==> !text_lt((#[trigger] v[j]).name, (#[trigger] v[i]).name)
}

proof fn lemma_placed(s: Seq<PeerView>, p: PeerView)
    requires
        named_in_order(s),
    ensures
        named_in_order(placed(s, p)),
        placed(s, p).len() == s.len() + 1,
        forall|x: PeerView| #[trigger] placed(s, p).contains(x) <==> s.contains(x) || x == p,
    decreases s.len(),
{
    let r = placed(s, p);
    if s.len() == 0 || !text_lt(p.name, s.last().name) {
        assert forall|x: PeerView| #[trigger] r.contains(x) <==> s.contains(x) || x == p by {
            lemma_holds_pushed(s, p, x);
        }
        assert forall|i: int, j: int| 0 <= i < j < r.len() implies !text_lt(
            (#[trigger] r[j]).name,
            (#[trigger] r[i]).name,
        ) by {
            if j == s.len() && i < s.len() - 1 {
                let last = s[s.len() - 1];
                assert(!text_lt(last.name, s[i].name));
                lemma_text_total(last.name, s[i].name);
                lemma_text_total(p.name, last.name);
                if text_lt(p.name, s[i].name) {
                    if text_lt(s[i].name, last.name) {
                        lemma_text_trans(p.name, s[i].name, last.name);
                    }
                }
            }
        }
    } else {
        let init = s.drop_last();
        let last = s.last();
        assert(s =~= init.push(last));
        lemma_placed(init, p);
        let w = placed(init, p);
        assert forall|x: PeerView| #[trigger] r.contains(x) <==> s.contains(x) || x == p by {
            lemma_holds_pushed(init, last, x);
            lemma_holds_pushed(w, last, x);
        }
        assert forall|i: int, j: int| 0 <= i < j < r.len() implies !text_lt(
            (#[trigger] r[j]).name,
            (#[trigger] r[i]).name,
        ) by {
            if j == w.len() {
                assert(w.contains(w[i]));
                if w[i] == p {
                    lemma_text_total(p.name, last.name);
                } else {
                    let m = choose|m: int| 0 <= m < init.len() && init[m] == w[i];
                    assert(s[m] == w[i]);
                    assert(s[s.len() - 1] == last);
                }
            }
        }
    }
}

/// The devices are listed by name, none left out and none made up.
pub proof fn law_peers_are_listed_by_name(s: Seq<(PeerView, u64)>)
    ensures
        named_in_order(by_name(s)),
        by_name(s).len() == s.len(),
        forall|x: PeerView|
            #[trigger] by_name(s).contains(x) <==> exists|i: int|
                0 <= i < s.len() && (#[trigger] s[i]).0 == x,
    decreases s.len(),
{
    if s.len() > 0 {
        let init = s.drop_last();
        law_peers_are_listed_by_name(init);
        lemma_placed(by_name(init), s.last().0);
        assert forall|x: PeerView|
            #[trigger] by_name(s).contains(x) <==> exists|i: int|
                0 <= i < s.len() && (#[trigger] s[i]).0 == x by {
            if by_name(init).contains(x) {
                let i = choose|i: int| 0 <= i < init.len() && (#[trigger] init[i]).0 == x;
                assert(s[i].0 == x);
            }
            if x == s.last().0 {
                assert(s[s.len() - 1].0 == x);
            }
            if exists|i: int| 0 <= i < s.len() && (#[trigger] s[i]).0 == x {
                let i = choose|i: int| 0 <= i < s.len() && (#[trigger] s[i]).0 == x;
                if i < init.len() {
                    assert(init[i].0 == x);
                }
            }
        }
    }
}

/// Shown are the devices other than this one, which is known by the name that it
/// is announced under and by its addresses.
pub proof fn law_own_device_is_not_shown(v: Seq<PeerView>, own: Option<Text>, local: Seq<Text>)
    ensures
        forall|p: PeerView|
            #[trigger] visible(v, own, local).contains(p) <==> v.contains(p) && own != Some(
                p.fullname,
            ) && !local.contains(p.host),
    decreases v.len(),
{
    if v.len() > 0 {
        let init = v.drop_last();
        law_own_device_is_not_shown(init, own, local);
        assert(v =~= init.push(v.last()));
        assert forall|p: PeerView|
            #[trigger] visible(v, own, local).contains(p) <==> v.contains(p) && own != Some(
                p.fullname,
            ) && !local.contains(p.host) by {
            lemma_holds_pushed(init, v.last(), p);
            lemma_holds_pushed(visible(init, own, local), v.last(), p);
        }
    }
}

proof fn lemma_best_local(v: Seq<Ipv4>)
    ensures
        best_local(v) matches Some(b) ==> v.contains(b) && !b.loopback() && !cg_nat(b),
        best_local(v) matches Some(b) ==> forall|i: int|
            0 <= i < v.len() && !(#[trigger] v[i]).loopback() && !cg_nat(v[i]) ==> range_rank(b)
                <= range_rank(v[i]),
        best_local(v) is None ==> forall|i: int|
            0 <= i < v.len() ==> (#[trigger] v[i]).loopback() || cg_nat(v[i]),
    decreases v.len(),
{
    if v.len() > 0 {
        let init = v.drop_last();
        lemma_best_local(init);
        assert(v =~= init.push(v.last()));
        assert(v[v.len() - 1] == v.last());
        if let Some(b) = best_local(init) {
            lemma_holds_pushed(init, v.last(), b);
        }
        assert forall|i: int| 0 <= i < v.len() - 1 implies #[trigger] v[i] == init[i] by {}
        lemma_holds_pushed(init, v.last(), v.last());
    }
}

proof fn lemma_told(v: Seq<Ipv4>)
    ensures
        addresses(addr_texts(v)) == v,
    decreases v.len(),
{
    let t = addr_texts(v);
    if v.len() > 0 {
        let init = v.drop_last();
        lemma_told(init);
        lemma_ipv4_reads_back(v.last());
        assert(t.drop_last() =~= addr_texts(init));
        assert(t.last() == v.last().text());
        assert(v =~= init.push(v.last()));
    }
}

/// The real ports of a row.
pub(crate) proof fn lemma_real_ports(v: Seq<u16>)
    ensures
        forall|p: u16| #[trigger] real_ports(v).contains(p) <==> v.contains(p) && p != 0,
    decreases v.len(),
{
    if v.len() > 0 {
        let init = v.drop_last();
        lemma_real_ports(init);
        assert(v =~= init.push(v.last()));
        assert forall|p: u16| #[trigger] real_ports(v).contains(p) <==> v.contains(p) && p != 0 by {
            lemma_holds_pushed(init, v.last(), p);
            lemma_holds_pushed(real_ports(init), v.last(), p);
        }
    }
}

/// A device that hears this one's announcement learns its name, its ports and the
/// best of its addresses on the local network, and a URL made of them.
pub proof fn law_announcement_is_heard(b: BeaconView, from: Option<Ipv4>)
    requires
        b.port != 0,
        trimmed(b.name).len() > 0,
        exists|i: int| 0 <= i < b.ips.len() && !(#[trigger] b.ips[i]).loopback() && !cg_nat(b.ips[i]),
    ensures
        announced(announcement(b), from) matches Some(p) && {
            &&& p.name == instance_name(b.name)
            &&& p.port == b.port
            &&& rises(p.ports)
            &&& forall|x: u16|
                #[trigger] p.ports.contains(x) <==> x != 0 && (b.ports.contains(x) || x == b.port)
            &&& p.base_url == "https://"@ + p.host + ":"@ + decimal(b.port as nat) + "/v1"@
            &&& exists|i: int|
                0 <= i < b.ips.len() && p.host == (#[trigger] b.ips[i]).text()
                    && !b.ips[i].loopback() && !cg_nat(b.ips[i]) && forall|j: int|
                    0 <= j < b.ips.len() && !(#[trigger] b.ips[j]).loopback() && !cg_nat(b.ips[j])
                        ==> range_rank(b.ips[i]) <= range_rank(b.ips[j])
        },
{
    let p = announcement(b);
    reveal_strlit("announce");
    lemma_told(b.ips);
    assert(told_addresses(p.ips, from) == b.ips);
    lemma_best_local(b.ips);
    let q = best_local(b.ips)->0;
    let k = choose|k: int| 0 <= k < b.ips.len() && b.ips[k] == q;
    assert(b.ips[k].text() == q.text());
    let all = p.ports.push(p.port);
    lemma_real_ports(all);
    lemma_ascending(real_ports(all));
    let r = announced(p, from)->0;
    assert forall|x: u16|
        #[trigger] r.ports.contains(x) <==> x != 0 && (b.ports.contains(x) || x == b.port) by {
        lemma_holds_pushed(p.ports, p.port, x);
    }
    reveal_strlit("https");
    reveal_strlit("http");
    reveal_strlit("://");
    reveal_strlit("https://");
    assert("https"@.len() != "http"@.len());
    assert("https"@ + "://"@ =~= "https://"@);
}

/// A device that announces no port, no name or no address of the local network,
/// or that asks instead of telling, is not taken for one that shares.
pub proof fn law_unusable_announcements_are_passed_over(p: PayloadView, from: Option<Ipv4>)
    requires
        p.port == 0 || trimmed(p.name).len() == 0 || p.t == "discover"@ || (forall|i: int|
            0 <= i < told_addresses(p.ips, from).len() ==> (#[trigger] told_addresses(
                p.ips,
                from,
            )[i]).loopback() || cg_nat(told_addresses(p.ips, from)[i])),
    ensures
        announced(p, from) is None,
{
    reveal_strlit("discover");
    reveal_strlit("announce");
    assert("discover"@[0] != "announce"@[0]);
    lemma_best_local(told_addresses(p.ips, from));
    if let Some(b) = best_local(told_addresses(p.ips, from)) {
        let v = told_addresses(p.ips, from);
        let i = choose|i: int| 0 <= i < v.len() && v[i] == b;
        assert(!v[i].loopback());
    }
}

/// The addresses of one network that are tried.
pub open spec fn is_tried(q: Ipv4, port: u16, net: Ipv4, local: Seq<Ipv4>) -> bool {
    &&& q.a == net.a && q.b == net.b && q.c == net.c
    &&& 1 <= q.d <= 254
    &&& !local.contains(q)
    &&& port == 8080 || port == 8081 || port == 8090 || port == 3000
}

proof fn lemma_host_targets(q: Ipv4, local: Seq<Ipv4>, x: (Ipv4, u16))
    ensures
        host_targets(q, local).contains(x) <==> x.0 == q && !local.contains(q) && (x.1 == 8080
            || x.1 == 8081 || x.1 == 8090 || x.1 == 3000),
{
    let t = host_targets(q, local);
    if !local.contains(q) {
        assert(t[0] == (q, 8080u16) && t[1] == (q, 8081u16) && t[2] == (q, 8090u16) && t[3] == (
            q,
            3000u16,
        ));
        if t.contains(x) {
            let i = choose|i: int| 0 <= i < t.len() && t[i] == x;
            assert(i == 0 || i == 1 || i == 2 || i == 3);
        }
    }
}

proof fn lemma_net_targets(q: Ipv4, local: Seq<Ipv4>, n: nat, x: (Ipv4, u16))
    requires
        n <= 254,
    ensures
        net_targets(q, local, n).contains(x) <==> is_tried(x.0, x.1, q, local) && x.0.d <= n,
    decreases n,
{
    if n > 0 {
        let h = Ipv4 { d: n as u8, ..q };
        lemma_net_targets(q, local, (n - 1) as nat, x);
        lemma_host_targets(h, local, x);
        lemma_holds_both(net_targets(q, local, (n - 1) as nat), host_targets(h, local), x);
    }
}

proof fn lemma_scan_targets(lan: Seq<Ipv4>, n: nat, x: (Ipv4, u16))
    requires
        n <= lan.len(),
    ensures
        scan_targets(lan, n).contains(x) <==> exists|i: int|
            0 <= i < n && is_tried(x.0, x.1, #[trigger] lan[i], lan) && ((lan[i].a == 192
                && lan[i].b == 168) || lan[i].a == 10),
    decreases n,
{
    if n > 0 {
        let q = lan[n - 1];
        lemma_scan_targets(lan, (n - 1) as nat, x);
        lemma_net_targets(q, lan, 254, x);
        let here = if (q.a == 192 && q.b == 168) || q.a == 10 {
            net_targets(q, lan, 254)
        } else {
            Seq::empty()
        };
        lemma_holds_both(scan_targets(lan, (n - 1) as nat), here, x);
    }
}

/// Tried are all the other addresses of the home networks that this machine is
/// in, on the four common ports, and nothing else.
pub proof fn law_home_networks_are_searched(lan: Seq<Ipv4>, x: (Ipv4, u16))
    ensures
        scan_targets(lan, lan.len()).contains(x) <==> exists|i: int|
            0 <= i < lan.len() && is_tried(x.0, x.1, #[trigger] lan[i], lan) && ((lan[i].a == 192
                && lan[i].b == 168) || lan[i].a == 10),
{
    lemma_scan_targets(lan, lan.len(), x);
}

proof fn lemma_best_found(v: Seq<Ipv4>)
    ensures
        v.len() > 0 ==> best_found(v) is Some,
        best_found(v) matches Some(b) ==> v.contains(b),
        best_found(v) matches Some(b) ==> forall|i: int|
            0 <= i < v.len() ==> found_rank(b) <= found_rank(#[trigger] v[i]),
    decreases v.len(),
{
    if v.len() > 0 {
        let init = v.drop_last();
        lemma_best_found(init);
        assert(v =~= init.push(v.last()));
        if let Some(b) = best_found(init) {
            lemma_holds_pushed(init, v.last(), b);
        }
        assert forall|i: int| 0 <= i < v.len() - 1 implies #[trigger] v[i] == init[i] by {}
        lemma_holds_pushed(init, v.last(), v.last());
    }
}

/// A service that was found is reached at one of its addresses, on the local
/// network where it has one there, at its own port.
pub proof fn law_found_service_is_reached(s: ResolvedService)
    requires
        s.port != 0,
        trimmed(s.fullname@).len() > 0,
        s.addresses@.len() > 0,
    ensures
        resolved_peer(s) matches Some(p) && {
            &&& p.fullname == s.fullname@
            &&& p.port == s.port
            &&& p.ports == seq![s.port]
            &&& exists|i: int|
                0 <= i < s.addresses@.len() && p.host == (#[trigger] s.addresses@[i]).text() && (cg_nat(
                    s.addresses@[i],
                ) ==> forall|j: int| 0 <= j < s.addresses@.len() ==> cg_nat(#[trigger] s.addresses@[j]))
            &&& (":"@ + decimal(s.port as nat) + "/v1"@).is_suffix_of(p.base_url)
            &&& ("https://"@ + p.host).is_prefix_of(p.base_url) || ("http://"@ + p.host).is_prefix_of(
                p.base_url,
            )
            &&& opt_text(s.scheme) is None ==> ("https://"@ + p.host).is_prefix_of(p.base_url)
        },
{
    let v = s.addresses@;
    lemma_best_found(v);
    let b = best_found(v)->0;
    let k = choose|k: int| 0 <= k < v.len() && v[k] == b;
    assert(b.text() == v[k].text());
    assert forall|j: int| cg_nat(b) && 0 <= j < v.len() implies cg_nat(#[trigger] v[j]) by {
        assert(found_rank(b) <= found_rank(v[j]));
    }
    let p = resolved_peer(s)->0;
    let tail = ":"@ + decimal(s.port as nat) + "/v1"@;
    assert(p.base_url.skip(p.base_url.len() - tail.len()) =~= tail);
    reveal_strlit("https");
    reveal_strlit("http");
    reveal_strlit("://");
    reveal_strlit("https://");
    reveal_strlit("http://");
    assert("https"@ + "://"@ =~= "https://"@);
    assert("http"@ + "://"@ =~= "http://"@);
    let a = "https://"@ + p.host;
    let c = "http://"@ + p.host;
    if opt_text(s.scheme) == Some("http"@) {
        assert(p.base_url.take(c.len() as int) =~= c);
    } else {
        assert(p.base_url.take(a.len() as int) =~= a);
    }
}


} // verus!
