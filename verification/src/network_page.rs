//! What the page shows of sharing and linked servers, and where they are asked.
use vstd::prelude::*;

use crate::app::{App, AppView};
use crate::bind::server_host;
use crate::catalog::{HealthView, RemoteHealth};
use crate::config::copy_opt;
use crate::keys::{
    all_maskable, lemma_secrets_maskable, mask_token, maskable, masked, public_keys_are, secrets_of,
};
use crate::listen::{
    base_parts, candidates_are, device_name, listen_candidates, listen_host, loopback_name,
    shares,
    split_openai_base, ListenCandidate, LocalAddrs, ShareUrl,
};
use crate::network::{ApiKeyPublic, InferenceMode, NetworkView, RemoteView};
use crate::peers::{peers, DiscoveredPeer, PeerView};
use crate::remotes::{active_link, link_ids};
use crate::sharing::{all_urls, exposed, needs_restart, shared_ports};
use crate::text::{
    decimal, lemma_index_in, lower, number, opt_text, same, to_lower, trim, trim_end_char, trim_end_matches,
    trim_prefix, trim_prefixes, trimmed, Text,
};

verus! {

broadcast use vstd::string::group_string_axioms;

/// Where the active linked server is asked, and with which key; nowhere where
/// there is none or it has no address.
pub open spec fn active_target(n: NetworkView) -> Option<(Text, Text)> {
    match active_link(n) {
        Some(r) => if trimmed(r.base).len() == 0 {
            None
        } else {
            Some((trimmed(r.base), trimmed(r.token)))
        },
        None => None,
    }
}

/// The ports of devices at the same host as a linked server.
pub open spec fn sibling_ports(v: Seq<PeerView>, host: Text) -> Seq<u16>
    decreases v.len(),
{
    if v.len() == 0 {
        Seq::empty()
    } else {
        let before = sibling_ports(v.drop_last(), host);
        if lower(v.last().host) == lower(host) {
            before + v.last().ports.push(v.last().port)
        } else {
            before
        }
    }
}

/// The further ports at which the host of a linked server is asked.
pub open spec fn catalog_ports(base: Text, v: Seq<PeerView>) -> Seq<u16> {
    match base_parts(base) {
        Some(p) => sibling_ports(v, p.1),
        None => Seq::empty(),
    }
}

/// The further ports at which the host of a linked server is asked.
pub fn catalog_extra_ports(base: &str, found: &Vec<DiscoveredPeer>) -> (out: Vec<u16>)
    ensures
        out@ == catalog_ports(base@, peers(found@)),
{
    let mut out: Vec<u16> = Vec::new();
    let host = match split_openai_base(base) {
        Some(p) => p.1,
        None => {
            proof {
                assert(out@ =~= Seq::<u16>::empty());
            }
            return out;
        },
    };
    let low = to_lower(host.as_str());
    let ghost all = peers(found@);
    let mut i: usize = 0;
    proof {
        assert(out@ =~= sibling_ports(all.take(0), host@));
    }
    while i < found.len()
        invariant
            i <= found.len(),
            all == peers(found@),
            low@ == lower(host@),
            out@ == sibling_ports(all.take(i as int), host@),
        decreases found.len() - i,
    {
        proof {
            assert(all.take(i + 1).drop_last() =~= all.take(i as int));
            assert(all.take(i + 1).last() == found@[i as int]@);
        }
        if same(to_lower(found[i].host.as_str()).as_str(), low.as_str()) {
            let ghost was = out@;
            let ghost ports = found@[i as int].ports@;
            let mut k: usize = 0;
            proof {
                assert(was + ports.take(0) =~= was);
            }
            while k < found[i].ports.len()
                invariant
                    i < found.len(),
                    ports == found@[i as int].ports@,
                    k <= ports.len(),
                    out@ == was + ports.take(k as int),
                decreases ports.len() - k,
            {
                out.push(found[i].ports[k]);
                k = k + 1;
                proof {
                    assert(ports.take(k as int) =~= ports.take(k - 1).push(ports[k - 1]));
                    assert(out@ =~= was + ports.take(k as int));
                }
            }
            out.push(found[i].port);
            proof {
                assert(ports.take(k as int) =~= ports);
                assert(out@ =~= was + ports.push(found@[i as int].port));
            }
        }
        i = i + 1;
    }
    proof {
        assert(all.take(found.len() as int) =~= all);
    }
    out
}

impl App {
    /// Where the active linked server is asked, and with which key.
    pub fn remote_target(&self) -> (r: Option<(String, String)>)
        ensures
            crate::cache::pair_view(r) == active_target(self@.config.network),
    {
        match self.config.network.active_remote() {
            Some(x) => {
                let base = trim(x.base.as_str());
                if base.as_str().unicode_len() == 0 {
                    None
                } else {
                    Some((base, trim(x.token.as_str())))
                }
            },
            None => None,
        }
    }
}

/// A linked server as the page shows it: its key is masked.
#[derive(Debug)]
pub struct LinkedRemotePublic {
    pub id: String,
    pub name: String,
    pub base: String,
    pub token_set: bool,
    pub token_masked: String,
    pub active: bool,
    pub health: Option<RemoteHealth>,
}

/// The view of [`LinkedRemotePublic`].
pub struct LinkShown {
    pub id: Text,
    pub name: Text,
    pub base: Text,
    pub token_set: bool,
    pub token_masked: Text,
    pub active: bool,
    pub health: Option<HealthView>,
}

impl View for LinkedRemotePublic {
    type V = LinkShown;

    open spec fn view(&self) -> LinkShown {
        LinkShown {
            id: self.id@,
            name: self.name@,
            base: self.base@,
            token_set: self.token_set,
            token_masked: self.token_masked@,
            active: self.active,
            health: health_view(self.health),
        }
    }
}

/// The view of a server's health, where it is known.
pub open spec fn health_view(h: Option<RemoteHealth>) -> Option<HealthView> {
    match h {
        Some(x) => Some(x@),
        None => None,
    }
}

/// A linked server as the page shows it.
pub open spec fn shown_link(n: NetworkView, r: RemoteView, health: HealthView) -> LinkShown {
    let active = match active_link(n) {
        Some(x) => x.id,
        None => Seq::empty(),
    };
    LinkShown {
        id: r.id,
        name: r.name,
        base: r.base,
        token_set: trimmed(r.token).len() > 0,
        token_masked: masked(r.token),
        active: r.id == active && n.inference_mode == InferenceMode::Remote,
        health: Some(health),
    }
}

/// The views of shown links.
pub open spec fn shown_links(v: Seq<LinkedRemotePublic>) -> Seq<LinkShown> {
    v.map_values(|l: LinkedRemotePublic| l@)
}

impl App {
    /// The linked servers as the page shows them. Their health stands in the
    /// same order.
    pub fn linked_remotes(&self, health: &Vec<RemoteHealth>) -> (out: Vec<LinkedRemotePublic>)
        requires
            health@.len() == self@.config.network.remotes.len(),
            forall|i: int|
                0 <= i < self@.config.network.remotes.len() ==> maskable(
                    (#[trigger] self@.config.network.remotes[i]).token,
                ),
        ensures
            shown_links(out@) == Seq::new(
                self@.config.network.remotes.len(),
                |i: int|
                    shown_link(
                        self@.config.network,
                        self@.config.network.remotes[i],
                        health@[i]@,
                    ),
            ),
    {
        let ghost net = self@.config.network;
        let active = match self.config.network.active_remote() {
            Some(x) => x.id.clone(),
            None => String::new(),
        };
        let remote = self.config.network.inference_mode == InferenceMode::Remote;
        let mut out: Vec<LinkedRemotePublic> = Vec::new();
        let mut i: usize = 0;
        let n: usize = self.config.network.remotes.len();
        proof {
            assert(net.remotes.len() == n);
        }
        while i < n
            invariant
                i <= n,
                net == self@.config.network,
                n == self.config.network.remotes.len(),
                net.remotes.len() == n,
                health@.len() == n,
                active@ == (match active_link(net) {
                    Some(x) => x.id,
                    None => Seq::<char>::empty(),
                }),
                remote == (net.inference_mode == InferenceMode::Remote),
                forall|k: int| 0 <= k < n ==> maskable((#[trigger] net.remotes[k]).token),
                out.len() == i,
                forall|k: int|
                    0 <= k < i ==> (#[trigger] out@[k])@ == shown_link(
                        net,
                        net.remotes[k],
                        health@[k]@,
                    ),
            decreases n - i,
        {
            let r = &self.config.network.remotes[i];
            proof {
                assert(net.remotes[i as int] == r@);
            }
            out.push(
                LinkedRemotePublic {
                    id: r.id.clone(),
                    name: r.name.clone(),
                    base: r.base.clone(),
                    token_set: trim(r.token.as_str()).as_str().unicode_len() > 0,
                    token_masked: mask_token(r.token.as_str()),
                    active: same(r.id.as_str(), active.as_str()) && remote,
                    health: Some(health[i].clone()),
                },
            );
            i = i + 1;
        }
        proof {
            assert(shown_links(out@) =~= Seq::new(
                net.remotes.len(),
                |k: int| shown_link(net, net.remotes[k], health@[k]@),
            ));
        }
        out
    }
}

/// The network as every page shows it.
#[derive(Debug)]
pub struct NetworkSummary {
    pub expose: bool,
    pub listening_exposed: bool,
    pub restart_required: bool,
    /// The name by which this device is known.
    pub device_name: String,
    pub inference_mode: &'static str,
    pub remote_base: String,
    pub remote_label: String,
    pub remote_name: String,
    pub active_remote_id: String,
    pub remote_count: usize,
    pub remote_saved: bool,
    /// Whether chats go to the linked server.
    pub via_remote: bool,
    pub remote_ok: bool,
    pub remote_model: Option<String>,
    pub remote_status: Option<String>,
}

/// A base address without what stands around its host.
pub open spec fn base_label(base: Text) -> Text {
    trim_end_char(
        trim_prefix(trim_prefix(trimmed(base), "http://"@), "https://"@),
        '/',
    )
}

/// Whether the links are shown as they are.
pub open spec fn shows_links(s: NetworkSummary, n: NetworkView, health: Option<HealthView>) -> bool {
    let known = if n.remotes.len() > 0 {
        health
    } else {
        None
    };
    &&& s.remote_count == n.remotes.len()
    &&& s.remote_saved == (n.remotes.len() > 0)
    &&& s.via_remote == (n.inference_mode == InferenceMode::Remote && active_link(n) is Some)
    &&& match active_link(n) {
        Some(r) => s.remote_base@ == r.base && s.remote_label@ == base_label(r.base)
            && s.remote_name@ == r.name && s.active_remote_id@ == r.id,
        None => s.remote_base@.len() == 0 && s.remote_label@.len() == 0 && s.remote_name@.len()
            == 0 && s.active_remote_id@.len() == 0,
    }
    &&& match known {
        Some(h) => s.remote_ok == h.ok && opt_text(s.remote_model) == h.model && opt_text(
            s.remote_status,
        ) == h.status,
        None => !s.remote_ok && s.remote_model is None && s.remote_status is None,
    }
}

impl NetworkSummary {
    /// The network as every page shows it. `health` is what is known of the
    /// active linked server.
    pub fn from_app(
        app: &App,
        local: &LocalAddrs,
        hostname: &str,
        health: &Option<RemoteHealth>,
    ) -> (s: NetworkSummary)
        ensures
            s.expose == app@.config.network.expose,
            s.listening_exposed == exposed(app@.config),
            s.restart_required == needs_restart(app@, local.tailscale@),
            s.device_name@ == device_name(app@.config.network, hostname@),
            s.inference_mode@ == app@.config.network.inference_mode.name(),
            shows_links(s, app@.config.network, health_view(*health)),
    {
        let network = &app.config.network;
        let saved = network.remotes.len() > 0;
        proof {
            assert(app@.config.network.remotes.len() == network.remotes.len());
        }
        let (id, name, base, label, linked) = match network.active_remote() {
            Some(r) => (
                r.id.clone(),
                r.name.clone(),
                r.base.clone(),
                trim_end_matches(
                    trim_prefixes(
                        trim_prefixes(trim(r.base.as_str()).as_str(), "http://").as_str(),
                        "https://",
                    ).as_str(),
                    '/',
                ),
                true,
            ),
            None => (String::new(), String::new(), String::new(), String::new(), false),
        };
        let mut ok = false;
        let mut model: Option<String> = None;
        let mut status: Option<String> = None;
        if saved {
            match health {
                Some(h) => {
                    ok = h.ok;
                    model = copy_opt(&h.model);
                    status = copy_opt(&h.status);
                },
                None => {},
            }
        }
        NetworkSummary {
            expose: network.expose,
            listening_exposed: app.listening_exposed(),
            restart_required: app.network_restart_required(local),
            device_name: network.resolved_device_name(hostname),
            inference_mode: network.inference_mode.as_str(),
            remote_base: base,
            remote_label: label,
            remote_name: name,
            active_remote_id: id,
            remote_count: network.remotes.len(),
            remote_saved: saved,
            via_remote: network.inference_mode == InferenceMode::Remote && linked,
            remote_ok: ok,
            remote_model: model,
            remote_status: status,
        }
    }
}

/// Where the managed server listens, as the network page shows it while it is
/// shared.
pub fn shared_endpoint(app: &App) -> (r: Option<String>)
    ensures
        opt_text(r) == endpoint_shown(app@),
{
    if !app.config.network.expose {
        return None;
    }
    let mut out = app.config.effective_host();
    out.append(":");
    out.append(number(app.config.effective_port() as u64).as_str());
    Some(out)
}

/// The network as its own page shows it.
#[derive(Debug)]
pub struct NetworkState {
    pub expose: bool,
    pub listening_exposed: bool,
    pub restart_required: bool,
    pub listen_scope: &'static str,
    pub listen_scope_label: &'static str,
    pub listen_scope_hint: &'static str,
    pub listen_scope_detail: &'static str,
    pub listen_host: String,
    pub listen_bind_host: Option<String>,
    pub listen_bind_error: Option<String>,
    pub listen_candidates: Vec<ListenCandidate>,
    pub tailscale_available: bool,
    pub access_token_set: bool,
    pub access_token_masked: String,
    pub api_keys: Vec<ApiKeyPublic>,
    /// The name that the user gave the device; empty where the host's is used.
    pub device_name_custom: String,
    /// The name by which this device is known.
    pub device_name: String,
    pub inference_mode: &'static str,
    pub remotes: Vec<LinkedRemotePublic>,
    pub active_remote_id: String,
    pub remote_base: String,
    pub remote_name: String,
    pub remote_saved: bool,
    pub remote_token_set: bool,
    pub remote_token_masked: String,
    pub share_urls: Vec<ShareUrl>,
    pub llama_binds_loopback: bool,
    pub llama_endpoint: Option<String>,
}

/// Whether the page shows the active linked server, its key masked.
pub open spec fn shows_active(s: NetworkState, n: NetworkView) -> bool {
    match active_link(n) {
        Some(r) => s.active_remote_id@ == r.id && s.remote_base@ == r.base && s.remote_name@
            == r.name && s.remote_token_set == (trimmed(r.token).len() > 0)
            && s.remote_token_masked@ == masked(r.token),
        None => s.active_remote_id@.len() == 0 && s.remote_base@.len() == 0
            && s.remote_name@.len() == 0 && !s.remote_token_set && s.remote_token_masked@.len()
            == 0,
    }
}

/// The secret that is shown for all the keys: the first that the server
/// accepts.
pub open spec fn shown_secret(n: NetworkView) -> Text {
    let all = secrets_of(n.api_keys);
    if all.len() > 0 {
        all[0]
    } else {
        Seq::empty()
    }
}

/// Whether the page shows where this machine listens.
pub open spec fn shows_listening(s: NetworkState, n: NetworkView, local: LocalAddrs) -> bool {
    &&& s.listen_scope@ == n.listen_scope.name()
    &&& s.listen_scope_label@ == n.listen_scope.label()
    &&& s.listen_scope_hint@ == n.listen_scope.hint()
    &&& s.listen_scope_detail@ == n.listen_scope.detail()
    &&& s.listen_host@ == n.listen_host
    &&& candidates_are(s.listen_candidates@, local.tailscale@, local.lan@)
    &&& s.tailscale_available == (local.tailscale@.len() > 0)
    &&& match listen_host(n, local.tailscale@) {
        Ok(host) => opt_text(s.listen_bind_host) == Some(host) && s.listen_bind_error is None,
        Err(e) => s.listen_bind_host is None && opt_text(s.listen_bind_error) == (if n.expose {
            Some(e)
        } else {
            None
        }),
    }
}

impl NetworkState {
    /// The network as its own page shows it. The health of the linked servers
    /// stands in their order.
    pub fn from_app(
        app: &App,
        local: &LocalAddrs,
        hostname: &str,
        health: &Vec<RemoteHealth>,
    ) -> (s: NetworkState)
        requires
            health@.len() == app@.config.network.remotes.len(),
            all_maskable(app@.config.network.api_keys),
            forall|i: int|
                0 <= i < app@.config.network.remotes.len() ==> maskable(
                    (#[trigger] app@.config.network.remotes[i]).token,
                ),
        ensures
            s.expose == app@.config.network.expose,
            s.listening_exposed == exposed(app@.config),
            s.restart_required == needs_restart(app@, local.tailscale@),
            shows_listening(s, app@.config.network, *local),
            s.access_token_set == (shown_secret(app@.config.network).len() > 0),
            s.access_token_masked@ == masked(shown_secret(app@.config.network)),
            public_keys_are(s.api_keys@, app@.config.network.api_keys),
            s.device_name_custom@ == app@.config.network.device_name,
            s.device_name@ == device_name(app@.config.network, hostname@),
            s.inference_mode@ == app@.config.network.inference_mode.name(),
            shown_links(s.remotes@) == Seq::new(
                app@.config.network.remotes.len(),
                |i: int|
                    shown_link(app@.config.network, app@.config.network.remotes[i], health@[i]@),
            ),
            s.remote_saved == (app@.config.network.remotes.len() > 0),
            shows_active(s, app@.config.network),
            shares(s.share_urls@) == all_urls(
                app@.config,
                shared_ports(app@),
                local.lan@,
                local.tailscale@,
            ),
            s.llama_binds_loopback == loopback_name(server_host(app@.config)),
            opt_text(s.llama_endpoint) == endpoint_shown(app@),
    {
        let network = &app.config.network;
        let ghost net = app@.config.network;
        proof {
            assert(net.remotes.len() == network.remotes.len());
            lemma_secrets_maskable(net.api_keys);
            assert(trimmed(Seq::<char>::empty()) =~= Seq::<char>::empty());
        }
        let bind = match network.resolve_listen_host(local) {
            Ok(host) => Some(host),
            Err(_) => None,
        };
        let (primary_set, primary_masked) = match network.primary_api_key() {
            Some(secret) => (
                secret.as_str().unicode_len() > 0,
                mask_token(secret.as_str()),
            ),
            None => (false, String::new()),
        };
        let (id, name, base, token_set, token_masked) = match network.active_remote() {
            Some(r) => {
                proof {
                    lemma_index_in(link_ids(net.remotes), net.active_remote_id);
                }
                (
                    r.id.clone(),
                    r.name.clone(),
                    r.base.clone(),
                    trim(r.token.as_str()).as_str().unicode_len() > 0,
                    mask_token(r.token.as_str()),
                )
            },
            None => (String::new(), String::new(), String::new(), false, String::new()),
        };
        let host = app.config.effective_host();
        NetworkState {
            expose: network.expose,
            listening_exposed: app.listening_exposed(),
            restart_required: app.network_restart_required(local),
            listen_scope: network.listen_scope.as_str(),
            listen_scope_label: network.listen_scope.novice_label(),
            listen_scope_hint: network.listen_scope.novice_hint(),
            listen_scope_detail: network.listen_scope.technical_detail(),
            listen_host: network.listen_host.clone(),
            listen_bind_host: bind,
            listen_bind_error: app.listen_bind_error(local),
            listen_candidates: listen_candidates(local),
            tailscale_available: local.tailscale.len() > 0,
            access_token_set: primary_set,
            access_token_masked: primary_masked,
            api_keys: network.public_api_keys(),
            device_name_custom: network.device_name.clone(),
            device_name: network.resolved_device_name(hostname),
            inference_mode: network.inference_mode.as_str(),
            remotes: app.linked_remotes(health),
            active_remote_id: id,
            remote_base: base,
            remote_name: name,
            remote_saved: network.remotes.len() > 0,
            remote_token_set: token_set,
            remote_token_masked: token_masked,
            share_urls: app.network_share_urls(local),
            llama_binds_loopback: same(host.as_str(), "127.0.0.1") || same(
                host.as_str(),
                "localhost",
            ) || same(host.as_str(), "::1"),
            llama_endpoint: shared_endpoint(app),
        }
    }
}

/// Where the managed server listens, as the network page shows it while it is
/// shared.
pub open spec fn endpoint_shown(a: AppView) -> Option<Text> {
    if a.config.network.expose {
        Some(server_host(a.config) + ":"@ + decimal(a.config.server.port as nat))
    } else {
        None
    }
}

/// A linked server is never shown as reachable before it has answered.
pub proof fn law_unanswered_is_not_ok(s: NetworkSummary, n: NetworkView)
    requires
        shows_links(s, n, None),
    ensures
        !s.remote_ok,
{
}

/// The ports that are asked beside a linked one are those that devices with its
/// host share, all of them.
pub proof fn law_ports_of_one_host_go_together(v: Seq<PeerView>, host: Text, p: u16)
    ensures
        sibling_ports(v, host).contains(p) <==> exists|i: int|
            0 <= i < v.len() && lower((#[trigger] v[i]).host) == lower(host) && (v[i].port == p
                || v[i].ports.contains(p)),
    decreases v.len(),
{
    if v.len() > 0 {
        let init = v.drop_last();
        let more = v.last().ports.push(v.last().port);
        law_ports_of_one_host_go_together(init, host, p);
        crate::order::lemma_holds_both(sibling_ports(init, host), more, p);
        crate::order::lemma_holds_pushed(v.last().ports, v.last().port, p);
        assert(v[v.len() - 1] == v.last());
        if sibling_ports(init, host).contains(p) {
            let i = choose|i: int|
                0 <= i < init.len() && lower((#[trigger] init[i]).host) == lower(host) && (
                init[i].port == p || init[i].ports.contains(p));
            assert(v[i] == init[i]);
        }
        if exists|i: int|
            0 <= i < v.len() && lower((#[trigger] v[i]).host) == lower(host) && (v[i].port == p
                || v[i].ports.contains(p)) {
            let i = choose|i: int|
                0 <= i < v.len() && lower((#[trigger] v[i]).host) == lower(host) && (v[i].port == p
                    || v[i].ports.contains(p));
            if i < init.len() {
                assert(init[i] == v[i]);
            }
        }
    }
}

/// A linked server is shown as it is saved, its key only as whether there is one;
/// it is active while chat goes to links and it is the chosen one.
pub proof fn law_link_is_shown_as_saved(n: NetworkView, r: RemoteView, h: HealthView)
    ensures
        ({
            let s = shown_link(n, r, h);
            &&& s.id == r.id && s.name == r.name && s.base == r.base
            &&& s.token_set <==> trimmed(r.token).len() > 0
            &&& s.health == Some(h)
            &&& n.inference_mode == InferenceMode::Local ==> !s.active
            &&& n.inference_mode == InferenceMode::Remote && active_link(n) == Some(r) ==> s.active
            &&& s.active ==> (active_link(n) matches Some(x) ==> x.id == r.id)
        }),
{
}

/// Where the shared server listens is shown while it is shared, and then with the
/// port of the settings.
pub proof fn law_endpoint_is_shown_while_shared(a: AppView)
    ensures
        endpoint_shown(a) is Some <==> a.config.network.expose,
        endpoint_shown(a) matches Some(t) ==> (":"@ + decimal(
            a.config.server.port as nat,
        )).is_suffix_of(t) && server_host(a.config).is_prefix_of(t),
{
    if a.config.network.expose {
        let t = endpoint_shown(a)->0;
        let b = ":"@ + decimal(a.config.server.port as nat);
        let h = server_host(a.config);
        assert(t.subrange(t.len() - b.len(), t.len() as int) =~= b);
        assert(t.subrange(0, h.len() as int) =~= h);
    }
}

} // verus!
