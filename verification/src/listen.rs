//! Where to listen and what to share: local addresses, listen hosts and URLs.
use vstd::prelude::*;

use crate::address::{ip, parse_ip, Ip, Ipv4};
use crate::ip_text::law_address_round_trip;
use crate::network::{ListenScope, NetworkConfig, NetworkView};
use crate::order::{lemma_holds_both, lemma_holds_pushed};
use crate::remotes::{normalize_openai_base, openai_base};
use crate::text::{
    char_is_alnum, chars_of, clip, clipped, contains, decimal, find, is_alnum, last_position,
    lemma_decimal, lemma_find, lemma_found_behind, lemma_occurs_itself, lemma_occurs_within,
    lemma_split_one, lower, number, occurs, parse, parsed, position, rfind, same, slice, split,
    split_on, starts_with, texts, to_lower, trim, trim_end_char, trim_end_matches, trim_start_char,
    trim_start_matches, trim_suffix, trim_suffixes, trimmed, Text,
};

verus! {

broadcast use vstd::string::group_string_axioms;

/// A network interface of this machine and its address.
#[derive(Debug)]
pub struct Interface {
    pub name: String,
    pub ip: Ip,
}

/// The view of an interface: its name and address.
pub open spec fn nics(v: Seq<Interface>) -> Seq<(Text, Ip)> {
    Seq::new(v.len(), |i: int| (v[i].name@, v[i].ip))
}

/// The addresses of this machine that others may reach: those of the local
/// network, best first, and those of Tailscale.
#[derive(Debug)]
pub struct LocalAddrs {
    pub lan: Vec<Ipv4>,
    pub tailscale: Vec<Ipv4>,
}

impl LocalAddrs {
    /// The addresses that stand at the views of both lists.
    pub open spec fn holds(&self, lan: Seq<Ipv4>, tailscale: Seq<Ipv4>) -> bool {
        self.lan@ == lan && self.tailscale@ == tailscale
    }
}

/// The shared range of Tailscale, `100.64.0.0/10`.
pub open spec fn cg_nat(q: Ipv4) -> bool {
    q.a == 100 && 64 <= q.b <= 127
}

/// Whether the address is in Tailscale's range.
pub fn is_tailscale_cg_nat(q: Ipv4) -> (r: bool)
    ensures
        r == cg_nat(q),
{
    q.a == 100 && 64 <= q.b && q.b <= 127
}

/// How good an address is for the local network; less is better.
pub open spec fn range_rank(q: Ipv4) -> u8 {
    if q.a == 192 && q.b == 168 {
        0
    } else if q.a == 10 {
        1
    } else if q.a == 172 && 16 <= q.b <= 31 {
        3
    } else {
        2
    }
}

/// How good an address is for the local network; less is better.
pub fn lan_range_rank(q: Ipv4) -> (r: u8)
    ensures
        r == range_rank(q),
{
    if q.a == 192 && q.b == 168 {
        0
    } else if q.a == 10 {
        1
    } else if q.a == 172 && 16 <= q.b && q.b <= 31 {
        3
    } else {
        2
    }
}

/// Whether an interface name is that of a virtual machine, container or tunnel.
pub open spec fn virtual_name(name: Text) -> bool {
    let n = lower(name);
    ||| occurs(n, "vethernet"@)
    ||| occurs(n, "docker"@)
    ||| occurs(n, "wsl"@)
    ||| occurs(n, "hyper-v"@)
    ||| occurs(n, "vmware"@)
    ||| occurs(n, "virtualbox"@)
    ||| occurs(n, "vbox"@)
    ||| occurs(n, "virbr"@)
    ||| "br-"@.is_prefix_of(n)
    ||| occurs(n, "veth"@)
    ||| occurs(n, "utun"@)
    ||| occurs(n, "tun"@)
    ||| occurs(n, "tap"@)
    ||| occurs(n, "bridge"@)
}

/// Whether an interface name is that of a virtual machine, container or tunnel.
pub fn is_virtual_iface(name: &str) -> (r: bool)
    ensures
        r == virtual_name(name@),
{
    let low = to_lower(name);
    let n = low.as_str();
    contains(n, "vethernet") || contains(n, "docker") || contains(n, "wsl") || contains(
        n,
        "hyper-v",
    ) || contains(n, "vmware") || contains(n, "virtualbox") || contains(n, "vbox") || contains(
        n,
        "virbr",
    ) || starts_with(n, "br-") || contains(n, "veth") || contains(n, "utun") || contains(n, "tun")
        || contains(n, "tap") || contains(n, "bridge")
}

/// Whether others may reach the address at all.
pub open spec fn reachable(q: Ipv4) -> bool {
    !q.loopback() && !q.unspecified() && !q.link_local()
}

/// Tailscale's addresses in the order of the interfaces, each once.
pub open spec fn tailnet(n: Seq<(Text, Ip)>) -> Seq<Ipv4>
    decreases n.len(),
{
    if n.len() == 0 {
        Seq::empty()
    } else {
        let init = tailnet(n.drop_last());
        match n.last().1 {
            Ip::V4(q) if reachable(q) && cg_nat(q) && !init.contains(q) => init.push(q),
            _ => init,
        }
    }
}

/// The addresses of a list that holds how far back each is to be put.
pub open spec fn addrs(l: Seq<(Ipv4, u8)>) -> Seq<Ipv4> {
    Seq::new(l.len(), |i: int| l[i].0)
}

/// How far back an address is put: virtual interfaces last, then by range.
pub open spec fn place(name: Text, q: Ipv4) -> u8 {
    if virtual_name(name) {
        (4 + range_rank(q)) as u8
    } else {
        range_rank(q)
    }
}

/// The other addresses in the order of the interfaces, each once, and the
/// place of each.
pub open spec fn lan_found(n: Seq<(Text, Ip)>) -> Seq<(Ipv4, u8)>
    decreases n.len(),
{
    if n.len() == 0 {
        Seq::empty()
    } else {
        let init = lan_found(n.drop_last());
        match n.last().1 {
            Ip::V4(q) if reachable(q) && !cg_nat(q) && !addrs(init).contains(q) => init.push(
                (q, place(n.last().0, q)),
            ),
            _ => init,
        }
    }
}

/// The addresses of one place, in order.
pub open spec fn at_place(l: Seq<(Ipv4, u8)>, k: u8) -> Seq<Ipv4>
    decreases l.len(),
{
    if l.len() == 0 {
        Seq::empty()
    } else {
        let init = at_place(l.drop_last(), k);
        if l.last().1 == k {
            init.push(l.last().0)
        } else {
            init
        }
    }
}

/// The addresses of the places below `k`, place by place.
pub open spec fn below_place(l: Seq<(Ipv4, u8)>, k: nat) -> Seq<Ipv4>
    decreases k,
{
    if k == 0 {
        Seq::empty()
    } else {
        below_place(l, (k - 1) as nat) + at_place(l, (k - 1) as u8)
    }
}

/// The addresses of the local network, best first: by place, and within a
/// place in the order of the interfaces.
pub open spec fn lan_addrs(n: Seq<(Text, Ip)>) -> Seq<Ipv4> {
    below_place(lan_found(n), 8)
}

fn has_addr(v: &Vec<Ipv4>, q: Ipv4) -> (r: bool)
    ensures
        r == v@.contains(q),
{
    let mut i: usize = 0;
    while i < v.len()
        invariant
            i <= v.len(),
            forall|k: int| 0 <= k < i ==> v@[k] != q,
        decreases v.len() - i,
    {
        if v[i] == q {
            return true;
        }
        i = i + 1;
    }
    false
}

fn has_placed(v: &Vec<(Ipv4, u8)>, q: Ipv4) -> (r: bool)
    ensures
        r == addrs(v@).contains(q),
{
    let mut i: usize = 0;
    while i < v.len()
        invariant
            i <= v.len(),
            forall|k: int| 0 <= k < i ==> addrs(v@)[k] != q,
        decreases v.len() - i,
    {
        let it = v[i];
        proof {
            assert(addrs(v@)[i as int] == it.0);
        }
        if it.0 == q {
            return true;
        }
        i = i + 1;
    }
    false
}

/// The addresses of this machine that others may reach, from its interfaces.
pub fn shareable_ipv4_addrs(n: &Vec<Interface>) -> (r: LocalAddrs)
    ensures
        r.holds(lan_addrs(nics(n@)), tailnet(nics(n@))),
{
    let ghost all = nics(n@);
    let mut found: Vec<(Ipv4, u8)> = Vec::new();
    let mut tailscale: Vec<Ipv4> = Vec::new();
    let mut i: usize = 0;
    proof {
        assert(all.take(0) =~= Seq::<(Text, Ip)>::empty());
        assert(found@ =~= lan_found(all.take(0)));
        assert(tailscale@ =~= tailnet(all.take(0)));
    }
    while i < n.len()
        invariant
            all == nics(n@),
            i <= n.len(),
            found@ == lan_found(all.take(i as int)),
            tailscale@ == tailnet(all.take(i as int)),
        decreases n.len() - i,
    {
        proof {
            assert(all.take(i + 1).drop_last() =~= all.take(i as int));
            assert(all.take(i + 1).last() == (n@[i as int].name@, n@[i as int].ip));
        }
        match n[i].ip {
            Ip::V4(q) => {
                let skip: bool = q.a == 127 || (q.a == 0 && q.b == 0 && q.c == 0 && q.d == 0) || (
                q.a == 169 && q.b == 254);
                if !skip {
                    if is_tailscale_cg_nat(q) {
                        if !has_addr(&tailscale, q) {
                            tailscale.push(q);
                        }
                    } else if !has_placed(&found, q) {
                        let rank: u8 = lan_range_rank(q);
                        let at: u8 = if is_virtual_iface(n[i].name.as_str()) {
                            4 + rank
                        } else {
                            rank
                        };
                        found.push((q, at));
                    }
                }
            },
            _ => {},
        }
        i = i + 1;
    }
    proof {
        assert(all.take(all.len() as int) =~= all);
    }
    let mut lan: Vec<Ipv4> = Vec::new();
    let mut k: u8 = 0;
    while k < 8
        invariant
            k <= 8,
            lan@ == below_place(found@, k as nat),
        decreases 8 - k,
    {
        let ghost was = lan@;
        let mut j: usize = 0;
        proof {
            assert(found@.take(0) =~= Seq::<(Ipv4, u8)>::empty());
            assert(lan@ =~= was + at_place(found@.take(0), k));
        }
        while j < found.len()
            invariant
                j <= found.len(),
                lan@ == was + at_place(found@.take(j as int), k),
            decreases found.len() - j,
        {
            let it = found[j];
            let ghost before = lan@;
            proof {
                assert(found@.take(j + 1).drop_last() =~= found@.take(j as int));
            }
            if it.1 == k {
                lan.push(it.0);
                proof {
                    assert(lan@ =~= was + at_place(found@.take(j + 1), k));
                }
            }
            j = j + 1;
        }
        proof {
            assert(found@.take(found@.len() as int) =~= found@);
        }
        k = k + 1;
    }
    LocalAddrs { lan, tailscale }
}

/// Every address that is offered can be reached, and none twice.
pub proof fn law_tailnet_addresses(n: Seq<(Text, Ip)>)
    ensures
        forall|i: int|
            0 <= i < tailnet(n).len() ==> reachable(#[trigger] tailnet(n)[i]) && cg_nat(
                tailnet(n)[i],
            ),
        tailnet(n).no_duplicates(),
    decreases n.len(),
{
    if n.len() > 0 {
        law_tailnet_addresses(n.drop_last());
    }
}

/// The host to listen on while sharing, or why there is none.
pub open spec fn listen_host(n: NetworkView, ts: Seq<Ipv4>) -> Result<Text, Text> {
    if !n.expose {
        Ok("127.0.0.1"@)
    } else {
        match n.listen_scope {
            ListenScope::All => Ok("0.0.0.0"@),
            ListenScope::Tailscale => if ts.len() > 0 {
                Ok(ts[0].text())
            } else {
                Err("Tailscale only is selected, but no Tailscale IP (100.x) was found. Start Tailscale, or choose Wi‑Fi / LAN and Tailscale."@)
            },
            ListenScope::Custom => {
                let host = trimmed(n.listen_host);
                if host.len() == 0 {
                    Err("Pick a specific address to listen on, or choose another sharing option."@)
                } else if ip(host) is None && host != "localhost"@ && !host_chars(host) {
                    Err("Listen address looks invalid: "@ + host)
                } else {
                    Ok(host)
                }
            },
        }
    }
}

/// Whether a text is made of what host names and addresses are made of.
pub open spec fn host_chars(s: Text) -> bool {
    forall|i: int| 0 <= i < s.len() ==> host_char(#[trigger] s[i])
}

/// A letter, a digit, a dot, a dash or a colon.
pub open spec fn host_char(c: char) -> bool {
    is_alnum(c) || c == '.' || c == '-' || c == ':'
}

fn only_host_chars(s: &str) -> (r: bool)
    ensures
        r == host_chars(s@),
{
    let v = chars_of(s);
    let mut i: usize = 0;
    while i < v.len()
        invariant
            v@ == s@,
            i <= v.len(),
            forall|k: int| 0 <= k < i ==> host_char(#[trigger] s@[k]),
        decreases v.len() - i,
    {
        let c: char = v[i];
        proof {
            assert(s@[i as int] == c);
        }
        if !(char_is_alnum(c) || c == '.' || c == '-' || c == ':') {
            return false;
        }
        i = i + 1;
    }
    true
}

/// The view of a result of texts.
pub open spec fn res_text(r: Result<String, String>) -> Result<Text, Text> {
    match r {
        Ok(s) => Ok(s@),
        Err(e) => Err(e@),
    }
}

/// Addresses written out.
pub open spec fn addr_texts(v: Seq<Ipv4>) -> Seq<Text> {
    Seq::new(v.len(), |i: int| v[i].text())
}

fn write_addrs(v: &Vec<Ipv4>, out: &mut Vec<String>)
    ensures
        texts(final(out)@) == texts(old(out)@) + addr_texts(v@),
{
    let ghost was = texts(out@);
    let mut i: usize = 0;
    proof {
        assert(texts(out@) =~= was + addr_texts(v@.take(0)));
    }
    while i < v.len()
        invariant
            i <= v.len(),
            texts(out@) == was + addr_texts(v@.take(i as int)),
        decreases v.len() - i,
    {
        let ghost before = texts(out@);
        let t = v[i].to_text();
        let ghost tv = t@;
        out.push(t);
        i = i + 1;
        proof {
            assert(texts(out@) =~= before.push(tv));
            assert(texts(out@) =~= was + addr_texts(v@.take(i as int)));
        }
    }
    proof {
        assert(v@.take(v@.len() as int) =~= v@);
    }
}

/// Whether the host is one that only this machine reaches.
pub open spec fn loopback_name(host: Text) -> bool {
    host == "127.0.0.1"@ || host == "localhost"@ || host == "::1"@
}

/// The addresses that a share proxy binds, or why there are none: never a
/// wildcard and never a loopback.
pub open spec fn bind_hosts(n: NetworkView, lan: Seq<Ipv4>, ts: Seq<Ipv4>) -> Result<
    Seq<Text>,
    Text,
> {
    match listen_host(n, ts) {
        Err(e) => Err(e),
        Ok(host) => if host == "0.0.0.0"@ || host == "::"@ {
            if lan.len() + ts.len() == 0 {
                Err("No LAN or Tailscale address found to bind the share proxy."@)
            } else {
                Ok(addr_texts(lan) + addr_texts(ts))
            }
        } else if loopback_name(host) {
            Err("Share proxy will not bind on loopback"@)
        } else {
            Ok(seq![host])
        },
    }
}

impl NetworkConfig {
    /// The host to listen on while sharing.
    pub fn resolve_listen_host(&self, local: &LocalAddrs) -> (r: Result<String, String>)
        ensures
            res_text(r) == listen_host(self@, local.tailscale@),
    {
        if !self.expose {
            return Ok("127.0.0.1".to_owned());
        }
        match self.listen_scope {
            ListenScope::All => Ok("0.0.0.0".to_owned()),
            ListenScope::Tailscale => {
                if local.tailscale.len() > 0 {
                    Ok(local.tailscale[0].to_text())
                } else {
                    Err("Tailscale only is selected, but no Tailscale IP (100.x) was found. Start Tailscale, or choose Wi‑Fi / LAN and Tailscale.".to_owned())
                }
            },
            ListenScope::Custom => {
                let host = trim(self.listen_host.as_str());
                if host.as_str().is_empty() {
                    return Err(
                        "Pick a specific address to listen on, or choose another sharing option.".to_owned(),
                    );
                }
                if parse_ip(host.as_str()).is_none() && !same(host.as_str(), "localhost")
                    && !only_host_chars(host.as_str()) {
                    let mut e = "Listen address looks invalid: ".to_owned();
                    e.append(host.as_str());
                    return Err(e);
                }
                Ok(host)
            },
        }
    }

    /// The addresses that a share proxy binds.
    pub fn proxy_bind_hosts(&self, local: &LocalAddrs) -> (r: Result<Vec<String>, String>)
        ensures
            match (r, bind_hosts(self@, local.lan@, local.tailscale@)) {
                (Ok(v), Ok(w)) => texts(v@) == w,
                (Err(e), Err(f)) => e@ == f,
                _ => false,
            },
    {
        let host = match self.resolve_listen_host(local) {
            Ok(h) => h,
            Err(e) => {
                return Err(e);
            },
        };
        if same(host.as_str(), "0.0.0.0") || same(host.as_str(), "::") {
            let mut out: Vec<String> = Vec::new();
            write_addrs(&local.lan, &mut out);
            write_addrs(&local.tailscale, &mut out);
            proof {
                assert(texts(out@) =~= addr_texts(local.lan@) + addr_texts(local.tailscale@));
            }
            if out.len() == 0 {
                proof {
                    assert(texts(out@).len() == 0);
                }
                return Err("No LAN or Tailscale address found to bind the share proxy.".to_owned());
            }
            proof {
                assert(texts(out@).len() > 0);
            }
            return Ok(out);
        }
        if same(host.as_str(), "127.0.0.1") || same(host.as_str(), "localhost") || same(
            host.as_str(),
            "::1",
        ) {
            return Err("Share proxy will not bind on loopback".to_owned());
        }
        let ghost hv = host@;
        let mut out: Vec<String> = Vec::new();
        out.push(host);
        proof {
            assert(texts(out@) =~= seq![hv]);
        }
        Ok(out)
    }

    /// Whether to announce this machine on the local network: only while it
    /// listens there.
    pub fn should_advertise_mdns(&self) -> (r: bool)
        ensures
            r == advertises(self@),
    {
        self.expose && self.listen_scope == ListenScope::All
    }

    /// The name to announce: the one in the settings, else the machine's.
    pub fn resolved_device_name(&self, hostname: &str) -> (out: String)
        ensures
            out@ == device_name(self@, hostname@),
    {
        let t = trim(self.device_name.as_str());
        if !t.as_str().is_empty() {
            return sanitize_instance_name(t.as_str());
        }
        sanitize_instance_name(hostname)
    }
}

/// Whether this machine is announced on the local network.
pub open spec fn advertises(n: NetworkView) -> bool {
    n.expose && n.listen_scope == ListenScope::All
}

/// The name to announce.
pub open spec fn device_name(n: NetworkView, hostname: Text) -> Text {
    if trimmed(n.device_name).len() > 0 {
        instance_name(trimmed(n.device_name))
    } else {
        instance_name(hostname)
    }
}

/// A share proxy is bound neither to the names of every address nor to those of
/// this machine alone.
pub proof fn law_proxy_binds_no_wildcard(n: NetworkView, lan: Seq<Ipv4>, ts: Seq<Ipv4>)
    requires
        forall|i: int| 0 <= i < lan.len() ==> reachable(#[trigger] lan[i]),
        forall|i: int| 0 <= i < ts.len() ==> reachable(#[trigger] ts[i]),
    ensures
        bind_hosts(n, lan, ts) matches Ok(v) ==> forall|i: int|
            0 <= i < v.len() ==> #[trigger] v[i] != "0.0.0.0"@ && v[i] != "::"@ && !loopback_name(
                v[i],
            ),
{
    if let Ok(v) = bind_hosts(n, lan, ts) {
        assert forall|i: int| 0 <= i < v.len() implies #[trigger] v[i] != "0.0.0.0"@ && v[i]
            != "::"@ && !loopback_name(v[i]) by {
            let host = listen_host(n, ts)->Ok_0;
            if host == "0.0.0.0"@ || host == "::"@ {
                let q = if i < lan.len() {
                    lan[i]
                } else {
                    ts[i - lan.len()]
                };
                assert(v[i] == q.text());
                lemma_reachable_text(q);
            }
        }
    }
}

/// How an address that others reach is written.
proof fn lemma_reachable_text(q: Ipv4)
    requires
        reachable(q),
    ensures
        q.text() != "0.0.0.0"@,
        q.text() != "::"@,
        !loopback_name(q.text()),
{
    reveal_strlit("0.0.0.0");
    reveal_strlit("127.0.0.1");
    reveal_strlit("localhost");
    reveal_strlit("::");
    reveal_strlit("::1");
    lemma_decimal(q.a as nat);
    assert(q.text()[0] == decimal(q.a as nat)[0]);
    let all = Ipv4 { a: 0, b: 0, c: 0, d: 0 };
    let own = Ipv4 { a: 127, b: 0, c: 0, d: 1 };
    reveal_with_fuel(decimal, 4);
    assert(all.text() =~= "0.0.0.0"@);
    assert(decimal(127) =~= seq!['1', '2', '7']);
    assert(own.text() =~= "127.0.0.1"@);
    law_address_round_trip(Ip::V4(q));
    law_address_round_trip(Ip::V4(all));
    law_address_round_trip(Ip::V4(own));
    assert(Ip::V4(q).text() == q.text());
    assert(Ip::V4(all).text() == all.text());
    assert(Ip::V4(own).text() == own.text());
}

/// A name fit for a service: letters, digits, dashes and underscores, no dash
/// at the ends, at most sixty-three characters, never empty.
pub open spec fn instance_name(raw: Text) -> Text {
    let t = trim_end_char(trim_start_char(dashed(raw), '-'), '-');
    if t.len() == 0 {
        "tinyinference"@
    } else {
        clipped(t, 63)
    }
}

/// `s` with a dash in place of what a service name cannot hold.
pub open spec fn dashed(s: Text) -> Text {
    Seq::new(
        s.len(),
        |i: int|
            if is_alnum(s[i]) || s[i] == '-' || s[i] == '_' {
                s[i]
            } else {
                '-'
            },
    )
}

/// Makes a name fit for a service.
pub fn sanitize_instance_name(raw: &str) -> (out: String)
    ensures
        out@ == instance_name(raw@),
{
    let v = chars_of(raw);
    let mut b = String::new();
    let mut i: usize = 0;
    while i < v.len()
        invariant
            v@ == raw@,
            i <= v.len(),
            b@ == dashed(raw@).take(i as int),
        decreases v.len() - i,
    {
        let c: char = v[i];
        if char_is_alnum(c) || c == '-' || c == '_' {
            b.push(c);
        } else {
            b.push('-');
        }
        i = i + 1;
        proof {
            assert(b@ =~= dashed(raw@).take(i as int));
        }
    }
    proof {
        assert(dashed(raw@).take(v@.len() as int) =~= dashed(raw@));
    }
    let t = trim_end_matches(trim_start_matches(b.as_str(), '-').as_str(), '-');
    if t.as_str().is_empty() {
        "tinyinference".to_owned()
    } else {
        clip(t.as_str(), 63)
    }
}

/// An address that the user may listen on.
#[derive(Debug)]
pub struct ListenCandidate {
    pub kind: &'static str,
    pub address: String,
    pub label: String,
}

/// What a candidate says: its kind, its address and its label.
pub open spec fn candidate_is(c: ListenCandidate, kind: Text, label: Text, q: Ipv4) -> bool {
    c.kind@ == kind && c.address@ == q.text() && c.label@ == label + q.text()
}

fn candidate(kind: &'static str, label: &str, q: Ipv4) -> (c: ListenCandidate)
    ensures
        candidate_is(c, kind@, label@, q),
{
    let mut l = label.to_owned();
    let t = q.to_text();
    l.append(t.as_str());
    ListenCandidate { kind, address: t, label: l }
}

/// Whether a list holds the addresses that the user may listen on: Tailscale's,
/// then the others.
pub open spec fn candidates_are(v: Seq<ListenCandidate>, ts: Seq<Ipv4>, lan: Seq<Ipv4>) -> bool {
    &&& v.len() == ts.len() + lan.len()
    &&& forall|i: int|
        0 <= i < ts.len() ==> candidate_is(#[trigger] v[i], "tailscale"@, "Tailscale · "@, ts[i])
    &&& forall|i: int|
        ts.len() <= i < v.len() ==> candidate_is(
            #[trigger] v[i],
            "lan"@,
            "LAN · "@,
            lan[i - ts.len()],
        )
}

/// The addresses that the user may listen on.
pub fn listen_candidates(local: &LocalAddrs) -> (out: Vec<ListenCandidate>)
    ensures
        candidates_are(out@, local.tailscale@, local.lan@),
{
    let mut out: Vec<ListenCandidate> = Vec::new();
    let mut i: usize = 0;
    while i < local.tailscale.len()
        invariant
            i <= local.tailscale.len(),
            out.len() == i,
            forall|k: int|
                0 <= k < i ==> candidate_is(
                    #[trigger] out@[k],
                    "tailscale"@,
                    "Tailscale · "@,
                    local.tailscale@[k],
                ),
        decreases local.tailscale.len() - i,
    {
        out.push(candidate("tailscale", "Tailscale · ", local.tailscale[i]));
        i = i + 1;
    }
    let mut j: usize = 0;
    while j < local.lan.len()
        invariant
            j <= local.lan.len(),
            out.len() == local.tailscale.len() + j,
            forall|k: int|
                0 <= k < local.tailscale.len() ==> candidate_is(
                    #[trigger] out@[k],
                    "tailscale"@,
                    "Tailscale · "@,
                    local.tailscale@[k],
                ),
            forall|k: int|
                local.tailscale.len() <= k < out.len() ==> candidate_is(
                    #[trigger] out@[k],
                    "lan"@,
                    "LAN · "@,
                    local.lan@[k - local.tailscale.len()],
                ),
        decreases local.lan.len() - j,
    {
        out.push(candidate("lan", "LAN · ", local.lan[j]));
        j = j + 1;
    }
    out
}

/// A URL under which others reach the shared server.
#[derive(Debug)]
pub struct ShareUrl {
    pub kind: &'static str,
    pub label: String,
    /// The API base, such as `https://192.168.1.10:8080/v1`.
    pub api_base: String,
}

/// The view of [`ShareUrl`].
pub struct ShareView {
    pub kind: Text,
    pub label: Text,
    pub api_base: Text,
}

impl View for ShareUrl {
    type V = ShareView;

    open spec fn view(&self) -> ShareView {
        ShareView { kind: self.kind@, label: self.label@, api_base: self.api_base@ }
    }
}

/// The API base of a host and port; every scheme but `https` is `http`.
pub open spec fn share_base(host: Text, port: u16, scheme: Text) -> Text {
    (if scheme == "https"@ {
        "https"@
    } else {
        "http"@
    }) + "://"@ + host + ":"@ + decimal(port as nat) + "/v1"@
}

/// A URL for a host.
pub fn share_url_host(
    kind: &'static str,
    label: String,
    host: &str,
    port: u16,
    scheme: &str,
) -> (r: ShareUrl)
    ensures
        r@ == (ShareView {
            kind: kind@,
            label: label@,
            api_base: share_base(host@, port, scheme@),
        }),
{
    let mut base = if same(scheme, "https") {
        "https".to_owned()
    } else {
        "http".to_owned()
    };
    base.append("://");
    base.append(host);
    base.append(":");
    base.append(number(port as u64).as_str());
    base.append("/v1");
    ShareUrl { kind, label, api_base: base }
}

/// A URL for an address.
pub fn share_url_for(
    kind: &'static str,
    label: String,
    q: Ipv4,
    port: u16,
    scheme: &str,
) -> (r: ShareUrl)
    ensures
        r@ == (ShareView {
            kind: kind@,
            label: label@,
            api_base: share_base(q.text(), port, scheme@),
        }),
{
    share_url_host(kind, label, q.to_text().as_str(), port, scheme)
}

/// A label with an address in brackets.
pub open spec fn bracketed(name: Text, host: Text) -> Text {
    name + " ("@ + host + ")"@
}

/// The URLs of a list of addresses.
pub open spec fn share_list(
    kind: Text,
    name: Text,
    v: Seq<Ipv4>,
    port: u16,
    scheme: Text,
) -> Seq<ShareView> {
    Seq::new(
        v.len(),
        |i: int|
            ShareView {
                kind,
                label: bracketed(name, v[i].text()),
                api_base: share_base(v[i].text(), port, scheme),
            },
    )
}

/// The views of a list of URLs.
pub open spec fn shares(v: Seq<ShareUrl>) -> Seq<ShareView> {
    Seq::new(v.len(), |i: int| v[i]@)
}

/// A label with a host in brackets.
pub fn bracket(name: &str, host: &str) -> (out: String)
    ensures
        out@ == bracketed(name@, host@),
{
    let mut out = name.to_owned();
    out.append(" (");
    out.append(host);
    out.append(")");
    out
}

fn share_all(
    kind: &'static str,
    name: &str,
    v: &Vec<Ipv4>,
    port: u16,
    scheme: &str,
) -> (out: Vec<ShareUrl>)
    ensures
        shares(out@) == share_list(kind@, name@, v@, port, scheme@),
{
    let mut out: Vec<ShareUrl> = Vec::new();
    let mut i: usize = 0;
    let ghost want = share_list(kind@, name@, v@, port, scheme@);
    while i < v.len()
        invariant
            i <= v.len(),
            out.len() == i,
            want == share_list(kind@, name@, v@, port, scheme@),
            forall|k: int| 0 <= k < i ==> (#[trigger] out@[k])@ == want[k],
        decreases v.len() - i,
    {
        let label = bracket(name, v[i].to_text().as_str());
        out.push(share_url_for(kind, label, v[i], port, scheme));
        i = i + 1;
    }
    proof {
        assert(shares(out@) =~= want);
    }
    out
}

/// The URLs of the local network.
pub fn lan_share_urls(local: &LocalAddrs, port: u16, scheme: &str) -> (out: Vec<ShareUrl>)
    ensures
        shares(out@) == share_list("lan"@, "LAN"@, local.lan@, port, scheme@),
{
    share_all("lan", "LAN", &local.lan, port, scheme)
}

/// The URLs of Tailscale.
pub fn tailscale_urls(local: &LocalAddrs, port: u16, scheme: &str) -> (out: Vec<ShareUrl>)
    ensures
        shares(out@) == share_list("tailscale"@, "Tailscale"@, local.tailscale@, port, scheme@),
{
    share_all("tailscale", "Tailscale", &local.tailscale, port, scheme)
}

/// The scheme, host and port of an API base.
pub open spec fn base_parts(base: Text) -> Option<(Text, Text, u16)> {
    match openai_base(base) {
        None => None,
        Some(b) => {
            let url = trim_suffix(b, "/v1"@);
            match find(url, "://"@) {
                None => None,
                Some(i) => {
                    let scheme = url.take(i);
                    let rest = url.skip(i + 3);
                    let piece = match find(rest, "://"@) {
                        Some(j) => rest.take(j),
                        None => rest,
                    };
                    let authority = split_on(piece, '/')[0];
                    match rfind(authority, ':') {
                        Some(k) => match parsed(authority.skip(k + 1), 65535) {
                            Some(port) => Some((scheme, authority.take(k), port as u16)),
                            None => None,
                        },
                        None => Some(
                            (
                                scheme,
                                authority,
                                if scheme == "https"@ {
                                    443
                                } else {
                                    80
                                },
                            ),
                        ),
                    }
                },
            }
        },
    }
}

/// The view of the parts of an API base.
pub open spec fn parts_view(o: Option<(String, String, u16)>) -> Option<(Text, Text, u16)> {
    match o {
        Some(p) => Some((p.0@, p.1@, p.2)),
        None => None,
    }
}

/// The scheme, host and port of an API base.
pub fn split_openai_base(base: &str) -> (r: Option<(String, String, u16)>)
    ensures
        parts_view(r) == base_parts(base@),
{
    let b = match normalize_openai_base(base) {
        Some(b) => b,
        None => {
            return None;
        },
    };
    let url = trim_suffixes(b.as_str(), "/v1");
    proof {
        reveal_strlit("://");
        lemma_find(url@, "://"@);
    }
    match position(url.as_str(), "://") {
        None => None,
        Some(i) => {
            let n: usize = url.as_str().unicode_len();
            let scheme = slice(url.as_str(), 0, i);
            let rest = slice(url.as_str(), i + 3, n);
            proof {
                assert(scheme@ =~= url@.take(i as int));
                assert(rest@ =~= url@.skip(i + 3));
                lemma_find(rest@, "://"@);
            }
            let piece = match position(rest.as_str(), "://") {
                Some(j) => {
                    let p = slice(rest.as_str(), 0, j);
                    proof {
                        assert(p@ =~= rest@.take(j as int));
                    }
                    p
                },
                None => rest,
            };
            let parts = split(piece.as_str(), '/');
            proof {
                assert(texts(parts@)[0] == parts@[0]@);
            }
            let authority = parts[0].as_str();
            match last_position(authority, ':') {
                Some(k) => {
                    let m: usize = authority.unicode_len();
                    let host = slice(authority, 0, k);
                    let tail = slice(authority, k + 1, m);
                    proof {
                        assert(host@ =~= authority@.take(k as int));
                        assert(tail@ =~= authority@.skip(k + 1));
                    }
                    match parse(tail.as_str(), 65535) {
                        Some(port) => Some((scheme, host, port as u16)),
                        None => None,
                    }
                },
                None => {
                    let port: u16 = if same(scheme.as_str(), "https") {
                        443
                    } else {
                        80
                    };
                    Some((scheme, authority.to_owned(), port))
                },
            }
        },
    }
}

/// Whether two API bases are on one host, capitals aside.
pub fn remote_base_same_host(linked: &str, candidate: &str) -> (r: bool)
    ensures
        r == (match (base_parts(linked@), base_parts(candidate@)) {
            (Some(a), Some(b)) => lower(a.1) == lower(b.1),
            _ => false,
        }),
{
    match (split_openai_base(linked), split_openai_base(candidate)) {
        (Some(a), Some(b)) => same(
            to_lower(a.1.as_str()).as_str(),
            to_lower(b.1.as_str()).as_str(),
        ),
        _ => false,
    }
}

/// The last of a character is found before a text that does not hold it.
pub(crate) proof fn lemma_rfind_behind(a: Text, c: char, b: Text)
    requires
        !b.contains(c),
    ensures
        rfind(a + seq![c] + b, c) == Some(a.len() as int),
    decreases b.len(),
{
    let s = a + seq![c] + b;
    if b.len() == 0 {
        assert(s.last() == c);
    } else {
        let d = b.drop_last();
        assert(b[b.len() - 1] != c);
        assert(!d.contains(c)) by {
            if d.contains(c) {
                let i = choose|i: int| 0 <= i < d.len() && d[i] == c;
                assert(b[i] == c);
            }
        }
        lemma_rfind_behind(a, c, d);
        assert(s.drop_last() =~= a + seq![c] + d);
    }
}

/// What is read behind the scheme of a share.
proof fn lemma_authority_apart(host: Text, port: u16)
    requires
        !host.contains('/'),
        !host.contains(':'),
    ensures
        !(host + ":"@ + decimal(port as nat)).contains('/'),
        find(host + ":"@ + decimal(port as nat), "://"@) is None,
        split_on(host + ":"@ + decimal(port as nat), '/')[0] == host + ":"@ + decimal(port as nat),
        rfind(host + ":"@ + decimal(port as nat), ':') == Some(host.len() as int),
        parsed(decimal(port as nat), 65535) == Some(port as nat),
{
    let d = decimal(port as nat);
    let rest = host + ":"@ + d;
    reveal_strlit(":");
    reveal_strlit("://");
    lemma_decimal(port as nat);
    assert forall|i: int| 0 <= i < rest.len() implies rest[i] != '/' by {
        if i < host.len() {
            assert(host[i] != '/');
        } else if i > host.len() {
            assert(rest[i] == d[i - host.len() - 1]);
        }
    }
    lemma_find(rest, "://"@);
    if let Some(k) = find(rest, "://"@) {
        assert(rest.subrange(k, k + 3)[1] == rest[k + 1]);
    }
    lemma_split_one(rest, '/');
    assert(!d.contains(':')) by {
        if d.contains(':') {
            let i = choose|i: int| 0 <= i < d.len() && d[i] == ':';
        }
    }
    assert(":"@ =~= seq![':']);
    lemma_rfind_behind(host, ':', d);
    assert(d[0] != '+');
}

/// A base that is complete stays as it is.
proof fn lemma_complete_base(scheme: Text, rest: Text)
    requires
        scheme == "http"@ || scheme == "https"@,
    ensures
        openai_base(scheme + "://"@ + rest + "/v1"@) == Some(scheme + "://"@ + rest + "/v1"@),
{
    let s = scheme + "://"@ + rest + "/v1"@;
    reveal_strlit("http");
    reveal_strlit("https");
    reveal_strlit("/v1");
    assert(s[0] == scheme[0]);
    assert(s.last() == '1');
    assert(trimmed(s) == s);
    lemma_occurs_itself("://"@);
    lemma_occurs_within(scheme, "://"@, rest + "/v1"@, "://"@);
    assert(scheme + "://"@ + (rest + "/v1"@) =~= s);
    assert(s.skip(s.len() - 3) =~= "/v1"@);
}

/// One ending is all that is taken off a text which has no letter last but one.
proof fn lemma_one_ending(u: Text)
    requires
        u.len() >= 2,
        u[u.len() - 2] != 'v',
    ensures
        trim_suffix(u + "/v1"@, "/v1"@) == u,
{
    let s = u + "/v1"@;
    reveal_strlit("/v1");
    assert(s.skip(s.len() - 3) =~= "/v1"@);
    assert(s.take(s.len() - 3) =~= u);
    reveal_with_fuel(trim_suffix, 2);
    if "/v1"@.is_suffix_of(u) {
        assert(u.subrange(u.len() - 3, u.len() as int)[1] == u[u.len() - 2]);
    }
    assert("/v1"@.is_suffix_of(s)) by {
        assert(s.subrange(s.len() - 3, s.len() as int) =~= "/v1"@);
    }
}

/// The mark of a scheme is found behind it.
proof fn lemma_scheme_found(scheme: Text, rest: Text)
    requires
        scheme == "http"@ || scheme == "https"@,
    ensures
        find(scheme + "://"@ + rest, "://"@) == Some(scheme.len() as int),
{
    reveal_strlit("http");
    reveal_strlit("https");
    reveal_strlit("://");
    assert(!occurs(scheme, "://"@)) by {
        if occurs(scheme, "://"@) {
            let i = choose|i: int| crate::text::occurs_at(scheme, "://"@, i);
            assert(scheme.subrange(i, i + 3)[0] == scheme[i]);
        }
    }
    lemma_found_behind(scheme, "://"@, rest);
}

/// What stands last but one in an authority.
proof fn lemma_authority_tail(host: Text, port: u16)
    ensures
        (host + ":"@ + decimal(port as nat)).len() >= 2,
        (host + ":"@ + decimal(port as nat))[host.len() + decimal(port as nat).len() - 1] != 'v',
{
    let d = decimal(port as nat);
    let rest = host + ":"@ + d;
    reveal_strlit(":");
    lemma_decimal(port as nat);
    let k = host.len() + d.len() - 1;
    if d.len() > 1 {
        assert(rest[k] == d[d.len() - 2]);
    } else {
        assert(rest[k] == ':');
    }
}

/// The URL of a share is taken apart into the scheme, the host and the port that
/// it was made of.
pub proof fn law_share_url_comes_apart(scheme: Text, host: Text, port: u16)
    requires
        scheme == "http"@ || scheme == "https"@,
        !host.contains('/'),
        !host.contains(':'),
    ensures
        base_parts(share_base(host, port, scheme)) == Some((scheme, host, port)),
{
    let d = decimal(port as nat);
    let rest = host + ":"@ + d;
    let u = scheme + "://"@ + rest;
    reveal_strlit("http");
    reveal_strlit("https");
    reveal_strlit("://");
    reveal_strlit(":");
    assert("http"@.len() != "https"@.len());
    assert(share_base(host, port, scheme) =~= u + "/v1"@);
    lemma_authority_apart(host, port);
    lemma_authority_tail(host, port);
    assert(u[u.len() - 2] == rest[rest.len() - 2]);
    lemma_complete_base(scheme, rest);
    lemma_one_ending(u);
    lemma_scheme_found(scheme, rest);
    assert(u.take(scheme.len() as int) =~= scheme);
    assert(u.skip(scheme.len() as int + 3) =~= rest);
    assert(rest.take(host.len() as int) =~= host);
    assert(rest.skip(host.len() as int + 1) =~= d);
}

/// Addresses of a home network come first, then those of a larger private one,
/// then public ones, and last the range that containers use.
pub proof fn law_home_addresses_come_first(p: Ipv4, q: Ipv4, r: Ipv4, s: Ipv4)
    requires
        p.a == 192 && p.b == 168,
        q.a == 10,
        !(r.a == 192 && r.b == 168) && r.a != 10 && !(r.a == 172 && 16 <= r.b <= 31),
        s.a == 172 && 16 <= s.b <= 31,
    ensures
        range_rank(p) < range_rank(q) < range_rank(r) < range_rank(s) < 4,
{
}

/// Whether an interface has this address, at this place among the offered ones.
pub open spec fn stands_at(n: Seq<(Text, Ip)>, q: Ipv4, k: u8) -> bool {
    exists|m: int|
        0 <= m < n.len() && (#[trigger] n[m]).1 == Ip::V4(q) && k == if virtual_name(n[m].0) {
            4 + range_rank(q)
        } else {
            range_rank(q) as int
        }
}

proof fn lemma_lan_found(n: Seq<(Text, Ip)>)
    ensures
        forall|q: Ipv4|
            #[trigger] addrs(lan_found(n)).contains(q) <==> reachable(q) && !cg_nat(q)
                && has_address(n, q),
        forall|k: int|
            0 <= k < lan_found(n).len() ==> stands_at(
                n,
                (#[trigger] lan_found(n)[k]).0,
                lan_found(n)[k].1,
            ),
        addrs(lan_found(n)).no_duplicates(),
    decreases n.len(),
{
    let f = lan_found(n);
    if n.len() > 0 {
        let init = n.drop_last();
        let w = lan_found(init);
        lemma_lan_found(init);
        assert forall|q: Ipv4|
            #[trigger] addrs(f).contains(q) <==> reachable(q) && !cg_nat(q) && has_address(n, q) by {
            lemma_has_address(n, q);
            assert(addrs(w).contains(q) <==> reachable(q) && !cg_nat(q) && has_address(init, q));
            if f.len() > w.len() {
                assert(addrs(f) =~= addrs(w).push(f.last().0));
                lemma_holds_pushed(addrs(w), f.last().0, q);
                assert(n[n.len() - 1].1 == Ip::V4(f.last().0));
            }
        }
        assert forall|k: int| 0 <= k < f.len() implies stands_at(
            n,
            (#[trigger] f[k]).0,
            f[k].1,
        ) by {
            if k < w.len() {
                assert(w[k] == f[k]);
                let q = f[k].0;
                let m = choose|m: int|
                    0 <= m < init.len() && (#[trigger] init[m]).1 == Ip::V4(q) && f[k].1
                        == if virtual_name(init[m].0) {
                        4 + range_rank(q)
                    } else {
                        range_rank(q) as int
                    };
                assert(n[m] == init[m]);
            } else {
                assert(n[n.len() - 1].1 == Ip::V4(f[k].0));
            }
        }
        if f.len() > w.len() {
            assert(addrs(f) =~= addrs(w).push(f.last().0));
        }
    }
}

proof fn lemma_at_place(l: Seq<(Ipv4, u8)>, k: u8)
    ensures
        forall|q: Ipv4| #[trigger] at_place(l, k).contains(q) <==> l.contains((q, k)),
    decreases l.len(),
{
    if l.len() > 0 {
        let init = l.drop_last();
        lemma_at_place(init, k);
        assert(l =~= init.push(l.last()));
        assert forall|q: Ipv4| #[trigger] at_place(l, k).contains(q) <==> l.contains((q, k)) by {
            lemma_holds_pushed(init, l.last(), (q, k));
            lemma_holds_pushed(at_place(init, k), l.last().0, q);
        }
    }
}

proof fn lemma_below_place(l: Seq<(Ipv4, u8)>, k: nat)
    requires
        k <= 8,
    ensures
        forall|q: Ipv4|
            #[trigger] below_place(l, k).contains(q) <==> exists|p: u8|
                p < k && #[trigger] l.contains((q, p)),
        forall|i: int, j: int|
            0 <= i < j < below_place(l, k).len() ==> in_places(
                l,
                #[trigger] below_place(l, k)[i],
                #[trigger] below_place(l, k)[j],
            ),
    decreases k,
{
    if k > 0 {
        let a = below_place(l, (k - 1) as nat);
        let z = (k - 1) as u8;
        let b = at_place(l, z);
        lemma_below_place(l, (k - 1) as nat);
        lemma_at_place(l, z);
        assert forall|q: Ipv4|
            #[trigger] below_place(l, k).contains(q) <==> exists|p: u8|
                p < k && #[trigger] l.contains((q, p)) by {
            lemma_holds_both(a, b, q);
        }
        assert forall|i: int, j: int|
            0 <= i < j < below_place(l, k).len() implies in_places(
            l,
            #[trigger] below_place(l, k)[i],
            #[trigger] below_place(l, k)[j],
        ) by {
            let r = below_place(l, k);
            if j < a.len() {
                assert(a[i] == r[i] && a[j] == r[j]);
            } else {
                assert(b.contains(r[j])) by {
                    assert(b[j - a.len()] == r[j]);
                }
                assert(l.contains((r[j], z)));
                if i < a.len() {
                    assert(a.contains(r[i])) by {
                        assert(a[i] == r[i]);
                    }
                    let p = choose|p: u8| p < k - 1 && #[trigger] l.contains((r[i], p));
                    assert(p <= z);
                } else {
                    assert(b.contains(r[i])) by {
                        assert(b[i - a.len()] == r[i]);
                    }
                    assert(l.contains((r[i], z)));
                }
            }
        }
    }
}

/// Whether the first address is found at no later place than the second.
pub open spec fn in_places(l: Seq<(Ipv4, u8)>, p: Ipv4, q: Ipv4) -> bool {
    exists|a: u8, b: u8| #[trigger] l.contains((p, a)) && #[trigger] l.contains((q, b)) && a <= b
}

/// Whether an address stands at no later place than another.
pub open spec fn no_later(n: Seq<(Text, Ip)>, p: Ipv4, q: Ipv4) -> bool {
    exists|a: u8, b: u8| #[trigger] stands_at(n, p, a) && #[trigger] stands_at(n, q, b) && a <= b
}

/// Offered on the local network are the addresses of this machine that others
/// reach there, all of them. Those of real interfaces come before those of
/// virtual ones, and within each the home ranges first.
pub proof fn law_local_addresses_are_offered(n: Seq<(Text, Ip)>)
    ensures
        forall|q: Ipv4|
            #[trigger] lan_addrs(n).contains(q) <==> reachable(q) && !cg_nat(q) && has_address(n, q),
        forall|i: int, j: int|
            0 <= i < j < lan_addrs(n).len() ==> no_later(
                n,
                #[trigger] lan_addrs(n)[i],
                #[trigger] lan_addrs(n)[j],
            ),
{
    let f = lan_found(n);
    let r = lan_addrs(n);
    lemma_lan_found(n);
    lemma_below_place(f, 8);
    assert forall|q: Ipv4|
        #[trigger] r.contains(q) <==> reachable(q) && !cg_nat(q) && has_address(n, q) by {
        if r.contains(q) {
            let p = choose|p: u8| p < 8 && #[trigger] f.contains((q, p));
            let k = choose|k: int| 0 <= k < f.len() && f[k] == (q, p);
            assert(addrs(f)[k] == q);
            assert(addrs(f).contains(q));
        }
        if addrs(f).contains(q) {
            let k = choose|k: int| 0 <= k < f.len() && addrs(f)[k] == q;
            assert(stands_at(n, f[k].0, f[k].1));
            assert(f.contains((q, f[k].1)));
            assert(f[k].1 < 8);
        }
    }
    assert forall|i: int, j: int| 0 <= i < j < r.len() implies no_later(
        n,
        #[trigger] r[i],
        #[trigger] r[j],
    ) by {
        assert(in_places(f, r[i], r[j]));
        let (a, b) = choose|a: u8, b: u8|
            #[trigger] f.contains((r[i], a)) && #[trigger] f.contains((r[j], b)) && a <= b;
        let x = choose|x: int| 0 <= x < f.len() && f[x] == (r[i], a);
        let y = choose|y: int| 0 <= y < f.len() && f[y] == (r[j], b);
        assert(stands_at(n, f[x].0, f[x].1));
        assert(stands_at(n, f[y].0, f[y].1));
    }
}

/// Offered on Tailscale are the addresses of this machine in its range, all of
/// them.
pub proof fn law_tailnet_addresses_are_offered(n: Seq<(Text, Ip)>)
    ensures
        forall|q: Ipv4|
            #[trigger] tailnet(n).contains(q) <==> q.a == 100 && 64 <= q.b <= 127 && has_address(
                n,
                q,
            ),
    decreases n.len(),
{
    if n.len() > 0 {
        let init = n.drop_last();
        let w = tailnet(init);
        law_tailnet_addresses_are_offered(init);
        assert forall|q: Ipv4|
            #[trigger] tailnet(n).contains(q) <==> q.a == 100 && 64 <= q.b <= 127 && has_address(
                n,
                q,
            ) by {
            lemma_has_address(n, q);
            assert(w.contains(q) <==> q.a == 100 && 64 <= q.b <= 127 && has_address(init, q));
            match n.last().1 {
                Ip::V4(p) => {
                    lemma_holds_pushed(w, p, q);
                    assert(tailnet(n) == w || tailnet(n) == w.push(p));
                    if p == q && q.a == 100 && 64 <= q.b <= 127 {
                        assert(reachable(p) && cg_nat(p));
                    }
                },
                Ip::V6(..) => {
                    assert(tailnet(n) == w);
                },
            }
        }
    }
}

/// Whether an interface has the address.
pub open spec fn has_address(n: Seq<(Text, Ip)>, q: Ipv4) -> bool {
    exists|i: int| 0 <= i < n.len() && (#[trigger] n[i]).1 == Ip::V4(q)
}

proof fn lemma_has_address(n: Seq<(Text, Ip)>, q: Ipv4)
    requires
        n.len() > 0,
    ensures
        has_address(n, q) <==> has_address(n.drop_last(), q) || n.last().1 == Ip::V4(q),
{
    let init = n.drop_last();
    if has_address(init, q) {
        let i = choose|i: int| 0 <= i < init.len() && (#[trigger] init[i]).1 == Ip::V4(q);
        assert(n[i].1 == Ip::V4(q));
    }
    if n.last().1 == Ip::V4(q) {
        assert(n[n.len() - 1].1 == Ip::V4(q));
    }
    if has_address(n, q) {
        let i = choose|i: int| 0 <= i < n.len() && (#[trigger] n[i]).1 == Ip::V4(q);
        if i < init.len() {
            assert(init[i].1 == Ip::V4(q));
        }
    }
}

/// The proxy of a share is bound to the addresses that the sharing choice names:
/// to all, to the first of Tailscale, or to the one that was entered.
pub proof fn law_proxy_binds_what_is_shared(n: NetworkView, lan: Seq<Ipv4>, ts: Seq<Ipv4>)
    requires
        n.expose,
        forall|i: int| 0 <= i < lan.len() ==> reachable(#[trigger] lan[i]),
        forall|i: int| 0 <= i < ts.len() ==> reachable(#[trigger] ts[i]),
    ensures
        n.listen_scope == ListenScope::All && lan.len() + ts.len() > 0 ==> (bind_hosts(
            n,
            lan,
            ts,
        ) matches Ok(v) && v == addr_texts(lan + ts)),
        n.listen_scope == ListenScope::Tailscale && ts.len() > 0 ==> bind_hosts(n, lan, ts) == Ok::<
            Seq<Text>,
            Text,
        >(seq![ts[0].text()]),
        n.listen_scope == ListenScope::Tailscale && ts.len() == 0 ==> bind_hosts(n, lan, ts) is Err,
        n.listen_scope == ListenScope::Custom && ip(trimmed(n.listen_host)) is Some
            && trimmed(n.listen_host) != "0.0.0.0"@ && trimmed(n.listen_host) != "::"@
            && trimmed(n.listen_host).len() > 0 && !loopback_name(trimmed(n.listen_host))
            ==> bind_hosts(n, lan, ts) == Ok::<Seq<Text>, Text>(seq![trimmed(n.listen_host)]),
        loopback_name(trimmed(n.listen_host)) && n.listen_scope == ListenScope::Custom
            ==> bind_hosts(n, lan, ts) is Err,
{
    assert(addr_texts(lan + ts) =~= addr_texts(lan) + addr_texts(ts));
    if ts.len() > 0 {
        lemma_reachable_text(ts[0]);
    }
    reveal_strlit("0.0.0.0");
    reveal_strlit("::");
    reveal_strlit("127.0.0.1");
    reveal_strlit("localhost");
    reveal_strlit("::1");
    assert("0.0.0.0"@.len() == 7 && "::"@.len() == 2 && "127.0.0.1"@.len() == 9
        && "localhost"@.len() == 9 && "::1"@.len() == 3);
}

proof fn lemma_trim_char_ends(s: Text, c: char)
    ensures
        trim_end_char(s, c).len() <= s.len(),
        forall|i: int| 0 <= i < trim_end_char(s, c).len() ==> trim_end_char(s, c)[i] == s[i],
        trim_end_char(s, c).len() > 0 ==> trim_end_char(s, c).last() != c,
    decreases s.len(),
{
    if s.len() > 0 && s.last() == c {
        lemma_trim_char_ends(s.drop_last(), c);
        assert forall|i: int| 0 <= i < trim_end_char(s, c).len() implies trim_end_char(s, c)[i]
            == s[i] by {
            assert(trim_end_char(s.drop_last(), c)[i] == s.drop_last()[i]);
        }
    }
}

proof fn lemma_trim_char_starts(s: Text, c: char)
    ensures
        trim_start_char(s, c).len() <= s.len(),
        forall|i: int|
            0 <= i < trim_start_char(s, c).len() ==> trim_start_char(s, c)[i] == s[i + s.len()
                - trim_start_char(s, c).len()],
        trim_start_char(s, c).len() > 0 ==> trim_start_char(s, c)[0] != c,
    decreases s.len(),
{
    if s.len() > 0 && s[0] == c {
        lemma_trim_char_starts(s.drop_first(), c);
    }
}

/// Whether a character can stand in the name of a service.
pub open spec fn named_with(c: char) -> bool {
    is_alnum(c) || c == '-' || c == '_'
}

/// A device is announced under letters, digits, dashes and underscores, one to
/// sixty-three of them and no dash in front. A name that is so already, with no
/// dash at its end either, is kept.
pub proof fn law_device_name_is_fit(raw: Text)
    ensures
        1 <= instance_name(raw).len() <= 63,
        forall|i: int|
            0 <= i < instance_name(raw).len() ==> named_with(#[trigger] instance_name(raw)[i]),
        instance_name(raw)[0] != '-',
        1 <= raw.len() <= 63 && raw[0] != '-' && raw.last() != '-' && (forall|i: int|
            0 <= i < raw.len() ==> named_with(#[trigger] raw[i])) ==> instance_name(raw) == raw,
{
    let d = dashed(raw);
    let a = trim_start_char(d, '-');
    let t = trim_end_char(a, '-');
    lemma_trim_char_starts(d, '-');
    lemma_trim_char_ends(a, '-');
    reveal_strlit("tinyinference");
    assert forall|i: int| 0 <= i < instance_name(raw).len() implies named_with(
        #[trigger] instance_name(raw)[i],
    ) by {
        if t.len() > 0 {
            assert(t[i] == a[i]);
            let k = i + d.len() - a.len();
            assert(a[i] == d[k]);
        } else {
            let c = "tinyinference"@[i];
            assert('a' <= c <= 'z');
        }
    }
    if 1 <= raw.len() <= 63 && raw[0] != '-' && raw.last() != '-' && (forall|i: int|
        0 <= i < raw.len() ==> named_with(#[trigger] raw[i])) {
        assert(d =~= raw) by {
            assert forall|i: int| 0 <= i < raw.len() implies d[i] == raw[i] by {
                assert(named_with(raw[i]));
            }
        }
    }
}

} // verus!
