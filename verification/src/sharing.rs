//! Sharing: what other devices are offered, and what changes it.
use vstd::prelude::*;

use crate::address::{ipv4, parse_ip, parse_ipv4, Ip, Ipv4, Socket};
use crate::app::{logged, wanting, App, AppView, Effect, EffectView};
use crate::bind::{server_host, server_secrets, url_scheme};
use crate::config::{Config, ConfigView};

use crate::instance::{servers, ManagedView};

use crate::listen::{
    advertises, bracket, bracketed, cg_nat, is_tailscale_cg_nat, lan_share_urls, listen_host,
    loopback_name, share_base, share_list, share_url_for, share_url_host, shares, tailscale_urls,
    LocalAddrs, ShareUrl, ShareView,
};
use crate::network::ListenScope;
use crate::order::{
    ascending, is_same_texts, lemma_ascending, lemma_holds_both, lemma_holds_pushed, rises,
    same_texts, sorted_unique,
};

use crate::servers::{all_summaries, summaries, SummaryView};

use crate::slot::ServerStatus;
use crate::text::{decimal, opt_text, same, texts, trim, trimmed, Text};

verus! {

broadcast use vstd::string::group_string_axioms;

/// Whether a host is this machine alone.
pub open spec fn loopback_host(h: Text) -> bool {
    loopback_name(trimmed(h))
}

/// Whether a host is this machine alone.
pub fn is_loopback_host(h: &str) -> (r: bool)
    ensures
        r == loopback_host(h@),
{
    let t = trim(h);
    same(t.as_str(), "127.0.0.1") || same(t.as_str(), "localhost") || same(t.as_str(), "::1")
}

/// Whether sharing is on and the server is to listen for other machines.
pub open spec fn exposed(c: ConfigView) -> bool {
    c.network.expose && !loopback_host(server_host(c))
}

/// Whether a server that is shown is up or on its way.
pub open spec fn is_up(s: SummaryView) -> bool {
    s.ready || s.status == ServerStatus::Starting || s.status == ServerStatus::Downloading
}

/// The ports of the servers that are up.
pub open spec fn up_ports(s: Seq<SummaryView>) -> Seq<u16>
    decreases s.len(),
{
    if s.len() == 0 {
        Seq::empty()
    } else {
        let init = up_ports(s.drop_last());
        if is_up(s.last()) {
            init.push(s.last().port)
        } else {
            init
        }
    }
}

/// The ports that are shared: of the servers that are up while sharing reaches
/// beyond this machine, each once, upwards.
pub open spec fn shared_ports(a: AppView) -> Seq<u16> {
    if exposed(a.config) {
        ascending(up_ports(all_summaries(a)))
    } else {
        Seq::empty()
    }
}

/// Whether a server runs with another address or other keys than sharing asks
/// for now.
pub open spec fn diverged(c: ConfigView, running: ConfigView, ts: Seq<Ipv4>) -> bool {
    if !c.network.expose {
        !loopback_host(server_host(running)) || server_secrets(running).len() > 0
    } else {
        match listen_host(c.network, ts) {
            Err(_) => true,
            Ok(h) => server_host(running) != h || !same_texts(
                server_secrets(c),
                server_secrets(running),
            ),
        }
    }
}

/// Whether one of the servers that run has diverged.
pub open spec fn some_diverged(c: ConfigView, s: Seq<ManagedView>, ts: Seq<Ipv4>) -> bool {
    exists|i: int|
        0 <= i < s.len() && (#[trigger] s[i]).slot.process is Some && diverged(
            c,
            s[i].running_config,
            ts,
        )
}

/// Whether a server has to be launched again for what is shared.
pub open spec fn needs_restart(a: AppView, ts: Seq<Ipv4>) -> bool {
    (a.running_config matches Some(r) && diverged(a.config, r, ts)) || some_diverged(
        a.config,
        a.extra_servers,
        ts,
    )
}

/// What the network is to be told.
pub open spec fn advertisement(a: AppView) -> EffectView {
    EffectView::Advertise {
        on: advertises(a.config.network) && shared_ports(a).len() > 0,
        ports: shared_ports(a),
    }
}

/// The URLs of one port.
pub open spec fn port_urls(c: ConfigView, port: u16, lan: Seq<Ipv4>, ts: Seq<Ipv4>) -> Seq<
    ShareView,
> {
    let host = server_host(c);
    let scheme = url_scheme(c);
    match c.network.listen_scope {
        ListenScope::All => share_list("lan"@, "LAN"@, lan, port, scheme) + share_list(
            "tailscale"@,
            "Tailscale"@,
            ts,
            port,
            scheme,
        ),
        ListenScope::Tailscale => share_list("tailscale"@, "Tailscale"@, ts, port, scheme),
        ListenScope::Custom => match ipv4(host) {
            Some(q) => if cg_nat(q) {
                seq![
                    ShareView {
                        kind: "tailscale"@,
                        label: bracketed("Tailscale"@, q.text()),
                        api_base: share_base(q.text(), port, scheme),
                    },
                ]
            } else {
                seq![
                    ShareView {
                        kind: "custom"@,
                        label: bracketed("Custom"@, q.text()),
                        api_base: share_base(q.text(), port, scheme),
                    },
                ]
            },
            None => seq![
                ShareView {
                    kind: "custom"@,
                    label: bracketed("Custom"@, host),
                    api_base: share_base(host, port, scheme),
                },
            ],
        },
    }
}

/// The URLs of some ports.
pub open spec fn all_urls(c: ConfigView, ports: Seq<u16>, lan: Seq<Ipv4>, ts: Seq<Ipv4>) -> Seq<
    ShareView,
>
    decreases ports.len(),
{
    if ports.len() == 0 {
        Seq::empty()
    } else {
        all_urls(c, ports.drop_last(), lan, ts) + port_urls(c, ports.last(), lan, ts)
    }
}

fn urls_of(c: &Config, port: u16, local: &LocalAddrs) -> (out: Vec<ShareUrl>)
    ensures
        shares(out@) == port_urls(c@, port, local.lan@, local.tailscale@),
{
    let host = c.effective_host();
    let scheme = c.scheme();
    match c.network.listen_scope {
        ListenScope::All => {
            let mut out = lan_share_urls(local, port, scheme);
            let ghost a = shares(out@);
            let mut more = tailscale_urls(local, port, scheme);
            let ghost b = shares(more@);
            out.append(&mut more);
            proof {
                assert(shares(out@) =~= a + b);
            }
            out
        },
        ListenScope::Tailscale => tailscale_urls(local, port, scheme),
        ListenScope::Custom => {
            let one = match parse_ipv4(host.as_str()) {
                Some(q) => {
                    let t = q.to_text();
                    if is_tailscale_cg_nat(q) {
                        share_url_for("tailscale", bracket("Tailscale", t.as_str()), q, port, scheme)
                    } else {
                        share_url_for("custom", bracket("Custom", t.as_str()), q, port, scheme)
                    }
                },
                None => share_url_host(
                    "custom",
                    bracket("Custom", host.as_str()),
                    host.as_str(),
                    port,
                    scheme,
                ),
            };
            let mut out: Vec<ShareUrl> = Vec::new();
            out.push(one);
            proof {
                assert(shares(out@) =~= seq![one@]);
            }
            out
        },
    }
}

impl App {
    /// Whether sharing is on and the server is to listen for other machines.
    pub fn listening_exposed(&self) -> (r: bool)
        ensures
            r == exposed(self@.config),
    {
        self.config.network.expose && !is_loopback_host(self.config.effective_host().as_str())
    }

    /// The ports that are shared.
    pub fn shareable_running_ports(&self) -> (out: Vec<u16>)
        ensures
            out@ == shared_ports(self@),
    {
        if !self.listening_exposed() {
            let out: Vec<u16> = Vec::new();
            proof {
                assert(out@ =~= Seq::<u16>::empty());
            }
            return out;
        }
        let shown = self.server_summaries();
        let ghost all = summaries(shown@);
        let mut ports: Vec<u16> = Vec::new();
        let mut i: usize = 0;
        proof {
            assert(all.take(0) =~= Seq::<SummaryView>::empty());
            assert(ports@ =~= up_ports(all.take(0)));
        }
        while i < shown.len()
            invariant
                all == summaries(shown@),
                i <= shown.len(),
                ports@ == up_ports(all.take(i as int)),
            decreases shown.len() - i,
        {
            proof {
                assert(all.take(i + 1).drop_last() =~= all.take(i as int));
                assert(all.take(i + 1).last() == shown@[i as int]@);
            }
            let s = &shown[i];
            if s.ready || s.status == ServerStatus::Starting || s.status
                == ServerStatus::Downloading {
                ports.push(s.port);
            }
            i = i + 1;
        }
        proof {
            assert(all.take(all.len() as int) =~= all);
        }
        sorted_unique(&ports)
    }

    fn keys_or_host_diverged(&self, running: &Config, local: &LocalAddrs) -> (r: bool)
        ensures
            r == diverged(self@.config, running@, local.tailscale@),
    {
        if !self.config.network.expose {
            return !is_loopback_host(running.effective_host().as_str())
                || running.llama_api_keys().len() > 0;
        }
        match self.config.network.resolve_listen_host(local) {
            Err(_) => true,
            Ok(h) => {
                !same(running.effective_host().as_str(), h.as_str()) || !is_same_texts(
                    &self.config.llama_api_keys(),
                    &running.llama_api_keys(),
                )
            },
        }
    }

    /// Whether a server has to be launched again for what is shared.
    pub fn network_restart_required(&self, local: &LocalAddrs) -> (r: bool)
        ensures
            r == needs_restart(self@, local.tailscale@),
    {
        match &self.running_config {
            Some(c) => {
                if self.keys_or_host_diverged(c, local) {
                    return true;
                }
            },
            None => {},
        }
        let ghost all = servers(self.extra_servers@);
        let mut i: usize = 0;
        while i < self.extra_servers.len()
            invariant
                all == servers(self.extra_servers@),
                i <= self.extra_servers.len(),
                forall|k: int|
                    0 <= k < i ==> !((#[trigger] all[k]).slot.process is Some && diverged(
                        self@.config,
                        all[k].running_config,
                        local.tailscale@,
                    )),
            decreases self.extra_servers.len() - i,
        {
            proof {
                assert(all[i as int] == self.extra_servers@[i as int]@);
            }
            if self.extra_servers[i].is_running() && self.keys_or_host_diverged(
                &self.extra_servers[i].running_config,
                local,
            ) {
                return true;
            }
            i = i + 1;
        }
        false
    }

    /// Wants the network told of what is shared.
    pub fn sync_mdns_advertise(&mut self)
        ensures
            final(self)@ == wanting(old(self)@, advertisement(old(self)@)),
    {
        let ports = self.shareable_running_ports();
        let on: bool = self.config.network.should_advertise_mdns() && ports.len() > 0;
        self.want(Effect::Advertise { on, ports });
    }

    /// Takes in why the network could not be told; the log says it once in a
    /// row.
    pub fn note_discovery_error(&mut self, error: &str)
        ensures
            final(self)@ == ({
                let a = old(self)@;
                let line = "[network] "@ + error@;
                if a.logs.len() > 0 && a.logs.last() == line {
                    a
                } else {
                    logged(a, line)
                }
            }),
    {
        let mut line = "[network] ".to_owned();
        line.append(error);
        let n: usize = self.logs.len();
        if n > 0 {
            proof {
                assert(texts(self.logs@).last() == self.logs@[n - 1]@);
            }
            if same(self.logs[n - 1].as_str(), line.as_str()) {
                return;
            }
        }
        self.push_log(line.as_str());
    }

    /// Notes where the control panel listens.
    pub fn set_listen_addr(&mut self, addr: Socket)
        ensures
            final(self)@ == ({
                let a = AppView { listen_addr: Some(addr), ..old(self)@ };
                wanting(a, advertisement(a))
            }),
    {
        self.listen_addr = Some(addr);
        self.sync_mdns_advertise();
    }

    /// The URLs under which other devices reach the servers that are up.
    pub fn network_share_urls(&self, local: &LocalAddrs) -> (out: Vec<ShareUrl>)
        ensures
            shares(out@) == all_urls(
                self@.config,
                shared_ports(self@),
                local.lan@,
                local.tailscale@,
            ),
    {
        let ports = self.shareable_running_ports();
        let ghost all = ports@;
        let mut out: Vec<ShareUrl> = Vec::new();
        let mut i: usize = 0;
        proof {
            assert(all.take(0) =~= Seq::<u16>::empty());
            assert(shares(out@) =~= Seq::<ShareView>::empty());
        }
        while i < ports.len()
            invariant
                all == ports@,
                i <= ports.len(),
                shares(out@) == all_urls(
                    self@.config,
                    all.take(i as int),
                    local.lan@,
                    local.tailscale@,
                ),
            decreases ports.len() - i,
        {
            let ghost was = shares(out@);
            proof {
                assert(all.take(i + 1).drop_last() =~= all.take(i as int));
            }
            let mut more = urls_of(&self.config, ports[i], local);
            let ghost next = shares(more@);
            out.append(&mut more);
            proof {
                assert(shares(out@) =~= was + next);
            }
            i = i + 1;
        }
        proof {
            assert(all.take(all.len() as int) =~= all);
        }
        out
    }

    /// Why the server cannot listen where sharing asks it to.
    pub fn listen_bind_error(&self, local: &LocalAddrs) -> (r: Option<String>)
        ensures
            opt_text(r) == (match listen_host(self@.config.network, local.tailscale@) {
                Err(e) if self@.config.network.expose => Some(e),
                _ => None,
            }),
    {
        if !self.config.network.expose {
            return None;
        }
        match self.config.network.resolve_listen_host(local) {
            Ok(_) => None,
            Err(e) => Some(e),
        }
    }

    /// The address that the files for TLS name beside the usual ones; nothing
    /// while sharing is off.
    pub fn share_tls_host(&self, local: &LocalAddrs) -> (r: Option<Option<Ip>>)
        ensures
            r == tls_host(self@.config, local.tailscale@),
    {
        share_tls_host_of(&self.config, local)
    }
}

/// The address that the files for TLS name beside the usual ones; nothing while
/// sharing is off.
pub open spec fn tls_host(c: ConfigView, ts: Seq<Ipv4>) -> Option<Option<Ip>> {
    if c.network.expose {
        match listen_host(c.network, ts) {
            Ok(h) => Some(crate::address::ip(h)),
            Err(_) => Some(None),
        }
    } else {
        None
    }
}

/// The address that the files for TLS name beside the usual ones.
pub fn share_tls_host_of(c: &Config, local: &LocalAddrs) -> (r: Option<Option<Ip>>)
    ensures
        r == tls_host(c@, local.tailscale@),
{
    if !c.network.expose {
        return None;
    }
    match c.network.resolve_listen_host(local) {
        Ok(h) => Some(parse_ip(h.as_str())),
        Err(_) => Some(None),
    }
}

/// No URL is shown, and no port told to the network, while sharing is off or
/// reaches no other machine.
pub proof fn law_nothing_shared_unless_exposed(a: AppView, lan: Seq<Ipv4>, ts: Seq<Ipv4>)
    requires
        !exposed(a.config),
    ensures
        all_urls(a.config, shared_ports(a), lan, ts).len() == 0,
        advertisement(a) == (EffectView::Advertise { on: false, ports: Seq::empty() }),
{
}

proof fn lemma_up_ports(s: Seq<SummaryView>)
    ensures
        forall|p: u16|
            #[trigger] up_ports(s).contains(p) <==> exists|i: int|
                0 <= i < s.len() && is_up(#[trigger] s[i]) && s[i].port == p,
    decreases s.len(),
{
    if s.len() > 0 {
        let init = s.drop_last();
        lemma_up_ports(init);
        assert forall|p: u16|
            #[trigger] up_ports(s).contains(p) <==> exists|i: int|
                0 <= i < s.len() && is_up(#[trigger] s[i]) && s[i].port == p by {
            lemma_holds_pushed(up_ports(init), s.last().port, p);
            if up_ports(init).contains(p) {
                let i = choose|i: int|
                    0 <= i < init.len() && is_up(#[trigger] init[i]) && init[i].port == p;
                assert(s[i] == init[i]);
            }
            if is_up(s.last()) && s.last().port == p {
                assert(s[s.len() - 1].port == p);
            }
            if exists|i: int| 0 <= i < s.len() && is_up(#[trigger] s[i]) && s[i].port == p {
                let i = choose|i: int|
                    0 <= i < s.len() && is_up(#[trigger] s[i]) && s[i].port == p;
                if i < init.len() {
                    assert(init[i] == s[i]);
                }
            }
        }
    }
}

/// While sharing reaches other machines, the ports that are shared are those of
/// the servers that are ready or on their way, each once, upwards.
pub proof fn law_running_servers_are_shared(a: AppView)
    requires
        exposed(a.config),
    ensures
        rises(shared_ports(a)),
        forall|p: u16|
            #[trigger] shared_ports(a).contains(p) <==> exists|i: int|
                0 <= i < all_summaries(a).len() && (#[trigger] all_summaries(a)[i]).port == p && (
                all_summaries(a)[i].ready || all_summaries(a)[i].status == ServerStatus::Starting
                    || all_summaries(a)[i].status == ServerStatus::Downloading),
{
    let s = all_summaries(a);
    lemma_up_ports(s);
    lemma_ascending(up_ports(s));
    assert forall|p: u16|
        #[trigger] shared_ports(a).contains(p) <==> exists|i: int|
            0 <= i < s.len() && (#[trigger] s[i]).port == p && (s[i].ready || s[i].status
                == ServerStatus::Starting || s[i].status == ServerStatus::Downloading) by {
        assert(shared_ports(a).contains(p) <==> up_ports(s).contains(p));
        if up_ports(s).contains(p) {
            let i = choose|i: int| 0 <= i < s.len() && is_up(#[trigger] s[i]) && s[i].port == p;
            assert(s[i].port == p);
        }
        if exists|i: int|
            0 <= i < s.len() && (#[trigger] s[i]).port == p && (s[i].ready || s[i].status
                == ServerStatus::Starting || s[i].status == ServerStatus::Downloading) {
            let i = choose|i: int|
                0 <= i < s.len() && (#[trigger] s[i]).port == p && (s[i].ready || s[i].status
                    == ServerStatus::Starting || s[i].status == ServerStatus::Downloading);
            assert(is_up(s[i]));
        }
    }
}

/// The URL under which an address and a port are offered.
pub open spec fn offers(u: ShareView, kind: Text, q: Ipv4, port: u16, tls: bool) -> bool {
    &&& u.kind == kind
    &&& u.api_base == (if tls {
        "https://"@
    } else {
        "http://"@
    }) + q.text() + ":"@ + decimal(port as nat) + "/v1"@
}

proof fn lemma_share_list(
    kind: Text,
    name: Text,
    v: Seq<Ipv4>,
    port: u16,
    c: ConfigView,
    i: int,
)
    requires
        0 <= i < v.len(),
    ensures
        offers(
            share_list(kind, name, v, port, url_scheme(c))[i],
            kind,
            v[i],
            port,
            crate::bind::with_tls(c),
        ),
{
    reveal_strlit("http");
    reveal_strlit("https");
    reveal_strlit("://");
    reveal_strlit("http://");
    reveal_strlit("https://");
    assert("http"@.len() != "https"@.len());
    assert("http"@ + "://"@ =~= "http://"@);
    assert("https"@ + "://"@ =~= "https://"@);
}

proof fn lemma_urls_of_port(
    c: ConfigView,
    ports: Seq<u16>,
    lan: Seq<Ipv4>,
    ts: Seq<Ipv4>,
    k: int,
    u: ShareView,
)
    requires
        0 <= k < ports.len(),
        port_urls(c, ports[k], lan, ts).contains(u),
    ensures
        all_urls(c, ports, lan, ts).contains(u),
    decreases ports.len(),
{
    let init = ports.drop_last();
    lemma_holds_both(all_urls(c, init, lan, ts), port_urls(c, ports.last(), lan, ts), u);
    if k < init.len() {
        assert(init[k] == ports[k]);
        lemma_urls_of_port(c, init, lan, ts, k, u);
    }
}

/// Shared with all, every server is offered at every address of this machine on
/// the local network and on Tailscale; shared on Tailscale, at every address
/// there and at none of the local network.
pub proof fn law_every_share_has_its_url(
    c: ConfigView,
    ports: Seq<u16>,
    lan: Seq<Ipv4>,
    ts: Seq<Ipv4>,
    k: int,
    i: int,
)
    requires
        0 <= k < ports.len(),
        0 <= i,
    ensures
        c.network.listen_scope == ListenScope::All && i < lan.len() ==> exists|u: ShareView|
            #[trigger] all_urls(c, ports, lan, ts).contains(u) && offers(
                u,
                "lan"@,
                lan[i],
                ports[k],
                crate::bind::with_tls(c),
            ),
        c.network.listen_scope != ListenScope::Custom && i < ts.len() ==> exists|u: ShareView|
            #[trigger] all_urls(c, ports, lan, ts).contains(u) && offers(
                u,
                "tailscale"@,
                ts[i],
                ports[k],
                crate::bind::with_tls(c),
            ),
        c.network.listen_scope == ListenScope::All ==> port_urls(c, ports[k], lan, ts).len()
            == lan.len() + ts.len(),
        c.network.listen_scope == ListenScope::Tailscale ==> port_urls(c, ports[k], lan, ts).len()
            == ts.len(),
{
    let scheme = url_scheme(c);
    let a = share_list("lan"@, "LAN"@, lan, ports[k], scheme);
    let b = share_list("tailscale"@, "Tailscale"@, ts, ports[k], scheme);
    let all = port_urls(c, ports[k], lan, ts);
    if c.network.listen_scope == ListenScope::All && i < lan.len() {
        lemma_share_list("lan"@, "LAN"@, lan, ports[k], c, i);
        assert(all[i] == a[i]);
        assert(all.contains(a[i]));
        lemma_urls_of_port(c, ports, lan, ts, k, a[i]);
    }
    if c.network.listen_scope != ListenScope::Custom && i < ts.len() {
        lemma_share_list("tailscale"@, "Tailscale"@, ts, ports[k], c, i);
        if c.network.listen_scope == ListenScope::All {
            assert(all[lan.len() + i] == b[i]);
        } else {
            assert(all[i] == b[i]);
        }
        assert(all.contains(b[i]));
        lemma_urls_of_port(c, ports, lan, ts, k, b[i]);
    }
}

/// A server has to start anew when sharing was turned off while it listens for
/// others or asks for keys, or when its keys or its address are no longer those
/// of the settings. One that agrees with them does not.
pub proof fn law_agreeing_server_stays(c: ConfigView, running: ConfigView, ts: Seq<Ipv4>)
    ensures
        c.network.expose && (listen_host(c.network, ts) matches Ok(h) && server_host(running) == h)
            && server_secrets(running) == server_secrets(c) ==> !diverged(c, running, ts),
        !c.network.expose && loopback_name(trimmed(server_host(running))) && server_secrets(
            running,
        ).len() == 0 ==> !diverged(c, running, ts),
        !c.network.expose && server_secrets(running).len() > 0 ==> diverged(c, running, ts),
        c.network.expose && server_secrets(c).len() != server_secrets(running).len() ==> diverged(
            c,
            running,
            ts,
        ),
        c.network.expose && (listen_host(c.network, ts) matches Ok(h) && server_host(running) != h)
            ==> diverged(c, running, ts),
{
    assert(same_texts(server_secrets(c), server_secrets(c)));
    broadcast use vstd::seq_lib::group_to_multiset_ensures;
    assert(server_secrets(c).to_multiset().len() == server_secrets(c).len());
    assert(server_secrets(running).to_multiset().len() == server_secrets(running).len());
}

} // verus!
