//! Changing what is shared, the keys for it, and the servers that are linked.
//!
//! Each change goes through the same steps: the settings are changed and made
//! consistent; the files for TLS follow; the configuration is saved; then the
//! network is told and the log says what changed.
use vstd::prelude::*;

use crate::address::Ipv4;
use crate::app::{logged, wanting, App, AppView};
use crate::bind::{bound, private_ui, server_host, with_tls};
use crate::config::ConfigView;
use crate::fresh::{Fresh, FreshView};
use crate::keys::{
    create_key_error, created_key, delete_key_error, ensured, find_key, key_ids, keys_without,
    migrated_keys, regenerated, rename_key_error, secrets_of, with_keys, with_renewed,
};
use crate::listen::{listen_host, LocalAddrs};
use crate::network::{
    links, ApiKey, InferenceMode, KeyView, ListenScope, NetworkConfig, NetworkView, RemoteView,
};
use crate::panel::true_false;
use crate::remotes::{
    activated, active_link, enough, find_link, lemma_migrated_len, lemma_saved_len,
    lemma_unlinked_len, link_ids, link_request, migrated_links, opt_str, saved_link, unlinked,
    LinkRequest,
};
use crate::settings::outcome;
use crate::sharing::{advertisement, needs_restart};
use crate::text::{decimal, index_in, lemma_index_in, number, opt_text, trim, trimmed, Text};

verus! {

broadcast use vstd::string::group_string_axioms;

/// What is asked of the network settings; what is missing stays.
#[derive(Debug)]
pub struct NetworkUpdate {
    pub expose: Option<bool>,
    pub listen_scope: Option<String>,
    pub listen_host: Option<String>,
    pub regenerate_token: Option<bool>,
    pub inference_mode: Option<String>,
    pub remote_base: Option<String>,
    pub remote_token: Option<String>,
    pub device_name: Option<String>,
}

/// The view of [`NetworkUpdate`].
pub struct UpdateView {
    pub expose: Option<bool>,
    pub listen_scope: Option<Text>,
    pub listen_host: Option<Text>,
    pub regenerate_token: Option<bool>,
    pub inference_mode: Option<Text>,
    pub remote_base: Option<Text>,
    pub remote_token: Option<Text>,
    pub device_name: Option<Text>,
}

impl View for NetworkUpdate {
    type V = UpdateView;

    open spec fn view(&self) -> UpdateView {
        UpdateView {
            expose: self.expose,
            listen_scope: opt_text(self.listen_scope),
            listen_host: opt_text(self.listen_host),
            regenerate_token: self.regenerate_token,
            inference_mode: opt_text(self.inference_mode),
            remote_base: opt_text(self.remote_base),
            remote_token: opt_text(self.remote_token),
            device_name: opt_text(self.device_name),
        }
    }
}

impl Default for NetworkUpdate {
    fn default() -> (r: Self)
        ensures
            r@ == (UpdateView {
                expose: None,
                listen_scope: None,
                listen_host: None,
                regenerate_token: None,
                inference_mode: None,
                remote_base: None,
                remote_token: None,
                device_name: None,
            }),
    {
        NetworkUpdate {
            expose: None,
            listen_scope: None,
            listen_host: None,
            regenerate_token: None,
            inference_mode: None,
            remote_base: None,
            remote_token: None,
            device_name: None,
        }
    }
}

/// What a change of the network settings is answered with.
#[derive(Debug)]
pub struct NetworkUpdateResult {
    pub restart_required: bool,
    /// A secret that is shown this once.
    pub access_token: Option<String>,
    pub revealed_api_key_id: Option<String>,
}

/// The view of [`NetworkUpdateResult`].
pub struct ResultView {
    pub restart_required: bool,
    pub access_token: Option<Text>,
    pub revealed_api_key_id: Option<Text>,
}

impl View for NetworkUpdateResult {
    type V = ResultView;

    open spec fn view(&self) -> ResultView {
        ResultView {
            restart_required: self.restart_required,
            access_token: opt_text(self.access_token),
            revealed_api_key_id: opt_text(self.revealed_api_key_id),
        }
    }
}

/// A secret that is shown once, and the key it belongs to.
#[derive(Debug)]
pub struct Reveal {
    pub token: Option<String>,
    pub id: Option<String>,
}

/// The view of [`Reveal`].
pub struct RevealView {
    pub token: Option<Text>,
    pub id: Option<Text>,
}

impl View for Reveal {
    type V = RevealView;

    open spec fn view(&self) -> RevealView {
        RevealView { token: opt_text(self.token), id: opt_text(self.id) }
    }
}

/// Nothing to show.
pub open spec fn no_reveal() -> RevealView {
    RevealView { token: None, id: None }
}

/// The first key, to be shown.
pub open spec fn first_key(n: NetworkView) -> RevealView {
    let s = secrets_of(n.api_keys);
    RevealView {
        token: if s.len() > 0 {
            Some(s[0])
        } else {
            None
        },
        id: if n.api_keys.len() > 0 {
            Some(n.api_keys[0].id)
        } else {
            None
        },
    }
}

/// The application with other network settings.
pub open spec fn with_network(a: AppView, n: NetworkView) -> AppView {
    AppView { config: ConfigView { network: n, ..a.config }, ..a }
}

/// Whether the identifiers suffice for all steps of a change.
pub open spec fn plenty(n: NetworkView, fresh: FreshView) -> bool {
    fresh.remote_ids.len() >= n.remotes.len() + 8
}

/// After sharing was switched, where that is asked: it needs a key, and a key
/// that was made for it is shown.
pub open spec fn expose_step(
    n: NetworkView,
    expose: Option<bool>,
    fresh: FreshView,
) -> (NetworkView, RevealView) {
    match expose {
        None => (n, no_reveal()),
        Some(on) => {
            let n1 = NetworkView { expose: on, ..n };
            if on {
                let n2 = ensured(n1, fresh);
                if migrated_keys(n1, fresh.legacy_key_id, fresh.now).api_keys.len() == 0 {
                    (n2, first_key(n2))
                } else {
                    (n2, no_reveal())
                }
            } else {
                (n1, no_reveal())
            }
        },
    }
}

/// After the scope was chosen, where that is asked.
pub open spec fn scope_step(n: NetworkView, scope: Option<Text>) -> Result<NetworkView, Text> {
    match scope {
        None => Ok(n),
        Some(s) => match ListenScope::named(s) {
            Some(v) => Ok(NetworkView { listen_scope: v, ..n }),
            None => Err("listen_scope must be \"all\", \"tailscale\", or \"custom\""@),
        },
    }
}

/// After the address was given, where that is asked.
pub open spec fn host_step(n: NetworkView, host: Option<Text>) -> NetworkView {
    match host {
        None => n,
        Some(h) => NetworkView { listen_host: trimmed(h), ..n },
    }
}

/// With a warning in the log where the server could not listen so.
pub open spec fn warn_step(a: AppView, ts: Seq<Ipv4>) -> AppView {
    match listen_host(a.config.network, ts) {
        Err(e) if a.config.network.expose => logged(a, "network listen warning: "@ + e),
        _ => a,
    }
}

/// After the first key was renewed, where that is asked; it is shown.
pub open spec fn renew_step(
    n: NetworkView,
    shown: RevealView,
    renew: Option<bool>,
    fresh: FreshView,
) -> (NetworkView, RevealView) {
    if renew == Some(true) {
        (regenerated(n, fresh), first_key(regenerated(n, fresh)))
    } else {
        (n, shown)
    }
}

/// After chat was sent here or to a linked server, where that is asked. That
/// needs a link.
pub open spec fn mode_step(
    n: NetworkView,
    mode: Option<Text>,
    fresh: FreshView,
) -> (NetworkView, Result<(), Text>) {
    match mode {
        None => (n, Ok(())),
        Some(s) => match InferenceMode::named(s) {
            None => (n, Err("inference_mode must be \"local\" or \"remote\""@)),
            Some(v) => {
                let m = migrated_links(n, fresh);
                if v == InferenceMode::Remote && m.remotes.len() == 0 {
                    (m, Err("Save a linked LLM before switching chat to Linked LLM."@))
                } else {
                    (NetworkView { inference_mode: v, ..m }, Ok(()))
                }
            },
        },
    }
}

/// The base of a single link as older requests give it: the one given, else
/// that of the active link.
pub open spec fn legacy_base(m: NetworkView, base: Option<Text>) -> Text {
    match base {
        Some(b) if trimmed(b).len() > 0 => trimmed(b),
        _ => match active_link(m) {
            Some(r) => r.base,
            None => Seq::empty(),
        },
    }
}

/// The link that an older request saves: the active one, else a new one.
pub open spec fn legacy_request(m: NetworkView, base: Text, token: Option<Text>) -> LinkRequest {
    LinkRequest {
        id: match active_link(m) {
            Some(r) => Some(r.id),
            None => None,
        },
        name: match active_link(m) {
            Some(r) => r.name,
            None => Seq::empty(),
        },
        base,
        token,
        activate: true,
    }
}

/// After the single link of older requests was saved or removed, where that is
/// asked.
pub open spec fn link_step(
    n: NetworkView,
    base: Option<Text>,
    token: Option<Text>,
    fresh: FreshView,
) -> (NetworkView, Result<(), Text>) {
    if base is None && token is None {
        (n, Ok(()))
    } else {
        let m = migrated_links(n, fresh);
        let b = legacy_base(m, base);
        if trimmed(b).len() == 0 {
            let id = m.active_remote_id;
            if id.len() > 0 {
                let again = migrated_links(m, fresh);
                if link_ids(again.remotes).contains(id) {
                    (unlinked(again, id), Ok(()))
                } else {
                    (again, Ok(()))
                }
            } else {
                (m, Ok(()))
            }
        } else {
            let (r, next) = saved_link(
                migrated_links(m, fresh),
                legacy_request(m, b, token),
                fresh,
            );
            match r {
                Ok(_) => (next, Ok(())),
                Err(e) => (next, Err(e)),
            }
        }
    }
}

/// After the device was named, where that is asked.
pub open spec fn name_step(n: NetworkView, name: Option<Text>) -> NetworkView {
    match name {
        None => n,
        Some(s) => NetworkView { device_name: trimmed(s), ..n },
    }
}

/// The configuration made consistent after a change of the network settings.
pub open spec fn network_settled(c: ConfigView, fresh: FreshView, ts: Seq<Ipv4>) -> ConfigView {
    bound(
        private_ui(ConfigView { network: migrated_links(c.network, fresh), ..c }),
        fresh,
        ts,
    )
}

/// The application after the settings were changed and made consistent, with
/// what is to be shown; or up to the step that was refused, and why.
pub open spec fn network_updated(
    a: AppView,
    u: UpdateView,
    fresh: FreshView,
    ts: Seq<Ipv4>,
) -> (AppView, Result<RevealView, Text>) {
    let (n1, r1) = expose_step(a.config.network, u.expose, fresh);
    match scope_step(n1, u.listen_scope) {
        Err(e) => (with_network(a, n1), Err(e)),
        Ok(n2) => {
            let a3 = warn_step(with_network(a, host_step(n2, u.listen_host)), ts);
            let (n4, r4) = renew_step(a3.config.network, r1, u.regenerate_token, fresh);
            let (n5, e5) = mode_step(n4, u.inference_mode, fresh);
            match e5 {
                Err(e) => (with_network(a3, n5), Err(e)),
                Ok(_) => {
                    let (n6, e6) = link_step(n5, u.remote_base, u.remote_token, fresh);
                    match e6 {
                        Err(e) => (with_network(a3, n6), Err(e)),
                        Ok(_) => {
                            let a7 = with_network(a3, name_step(n6, u.device_name));
                            (
                                AppView { config: network_settled(a7.config, fresh, ts), ..a7 },
                                Ok(r4),
                            )
                        },
                    }
                },
            }
        },
    }
}

/// What the log says of the network settings after a change.
pub open spec fn update_line(c: ConfigView) -> Text {
    "network updated (expose="@ + true_false(c.network.expose) + ", scope="@
        + c.network.listen_scope.name() + ", mode="@ + c.network.inference_mode.name()
        + ", remotes="@ + decimal(c.network.remotes.len()) + ", llama="@ + server_host(c) + ":"@
        + decimal(c.server.port as nat) + ", tls="@ + true_false(with_tls(c)) + ")"@
}

/// What the log says of the links after a change.
pub open spec fn link_line(action: Text, n: NetworkView) -> Text {
    "network "@ + action + " (mode="@ + n.inference_mode.name() + ", remotes="@ + decimal(
        n.remotes.len(),
    ) + ")"@
}

/// The view of an answer.
pub open spec fn result_view(r: Result<NetworkUpdateResult, String>) -> Result<ResultView, Text> {
    match r {
        Ok(v) => Ok(v@),
        Err(e) => Err(e@),
    }
}

/// The view of what is to be shown, or why not.
pub open spec fn reveal_view(r: Result<Reveal, String>) -> Result<RevealView, Text> {
    match r {
        Ok(v) => Ok(v@),
        Err(e) => Err(e@),
    }
}

/// What is said where the configuration cannot be saved.
pub open spec fn save_error(e: Text) -> Text {
    "could not save config: "@ + e
}

fn reveal_first_key(n: &NetworkConfig) -> (r: Reveal)
    ensures
        r@ == first_key(n@),
{
    let id = if n.api_keys.len() > 0 {
        Some(n.api_keys[0].id.clone())
    } else {
        None
    };
    Reveal { token: n.primary_api_key(), id }
}

fn bool_word(b: bool) -> (r: &'static str)
    ensures
        r@ == true_false(b),
{
    if b {
        "true"
    } else {
        "false"
    }
}

fn switch_sharing(n: &mut NetworkConfig, expose: Option<bool>, fresh: &Fresh) -> (shown: Reveal)
    ensures
        (final(n)@, shown@) == expose_step(old(n)@, expose, fresh@),
{
    match expose {
        Some(on) => {
            n.expose = on;
            if on {
                if n.ensure_token(fresh) {
                    return reveal_first_key(n);
                }
            }
        },
        None => {},
    }
    Reveal { token: None, id: None }
}

fn choose_scope(n: &mut NetworkConfig, scope: &Option<String>) -> (r: Result<(), String>)
    ensures
        match scope_step(old(n)@, opt_text(*scope)) {
            Ok(m) => r is Ok && final(n)@ == m,
            Err(m) => r matches Err(e) && e@ == m && final(n)@ == old(n)@,
        },
{
    match scope {
        Some(s) => match ListenScope::parse(s.as_str()) {
            Some(v) => {
                n.listen_scope = v;
                Ok(())
            },
            None => Err("listen_scope must be \"all\", \"tailscale\", or \"custom\"".to_owned()),
        },
        None => Ok(()),
    }
}

fn give_host(n: &mut NetworkConfig, host: &Option<String>)
    ensures
        final(n)@ == host_step(old(n)@, opt_text(*host)),
{
    match host {
        Some(h) => {
            n.listen_host = trim(h.as_str());
        },
        None => {},
    }
}

fn name_device(n: &mut NetworkConfig, name: &Option<String>)
    ensures
        final(n)@ == name_step(old(n)@, opt_text(*name)),
{
    match name {
        Some(s) => {
            n.device_name = trim(s.as_str());
        },
        None => {},
    }
}

fn renew_first_key(
    n: &mut NetworkConfig,
    shown: Reveal,
    renew: Option<bool>,
    fresh: &Fresh,
) -> (next: Reveal)
    ensures
        (final(n)@, next@) == renew_step(old(n)@, shown@, renew, fresh@),
{
    match renew {
        Some(yes) => {
            if yes {
                n.regenerate_token(fresh);
                return reveal_first_key(n);
            }
        },
        None => {},
    }
    shown
}

fn switch_links(n: &mut NetworkConfig, mode: &Option<String>, fresh: &Fresh) -> (r: Result<
    (),
    String,
>)
    requires
        enough(old(n)@, fresh@),
    ensures
        final(n)@ == mode_step(old(n)@, opt_text(*mode), fresh@).0,
        outcome(r) == mode_step(old(n)@, opt_text(*mode), fresh@).1,
{
    match mode {
        None => Ok(()),
        Some(s) => match InferenceMode::parse(s.as_str()) {
            None => Err("inference_mode must be \"local\" or \"remote\"".to_owned()),
            Some(v) => {
                n.migrate_remotes(fresh);
                if v == InferenceMode::Remote && n.remotes.len() == 0 {
                    return Err("Save a linked LLM before switching chat to Linked LLM.".to_owned());
                }
                n.inference_mode = v;
                Ok(())
            },
        },
    }
}

fn save_legacy_link(
    n: &mut NetworkConfig,
    base: &Option<String>,
    token: &Option<String>,
    fresh: &Fresh,
) -> (r: Result<(), String>)
    requires
        fresh@.remote_ids.len() >= old(n)@.remotes.len() + 4,
    ensures
        final(n)@ == link_step(old(n)@, opt_text(*base), opt_text(*token), fresh@).0,
        outcome(r) == link_step(old(n)@, opt_text(*base), opt_text(*token), fresh@).1,
{
    if base.is_none() && token.is_none() {
        return Ok(());
    }
    proof {
        lemma_migrated_len(n@, fresh@);
    }
    n.migrate_remotes(fresh);
    let ghost m = n@;
    let given: Option<String> = match base {
        Some(b) => {
            let t = trim(b.as_str());
            if t.as_str().is_empty() {
                None
            } else {
                Some(t)
            }
        },
        None => None,
    };
    let (id, name, own) = match n.active_remote() {
        Some(r) => (Some(r.id.clone()), r.name.clone(), r.base.clone()),
        None => (None, String::new(), String::new()),
    };
    let b = match given {
        Some(t) => t,
        None => own,
    };
    if trim(b.as_str()).as_str().is_empty() {
        let active = n.active_remote_id.clone();
        if !active.as_str().is_empty() {
            let _ = n.delete_remote(active.as_str(), fresh);
        }
        return Ok(());
    }
    let id_text: Option<&str> = match &id {
        Some(s) => Some(s.as_str()),
        None => None,
    };
    let token_text: Option<&str> = match token {
        Some(s) => Some(s.as_str()),
        None => None,
    };
    match n.upsert_remote(id_text, name.as_str(), b.as_str(), token_text, true, fresh) {
        Ok(_) => Ok(()),
        Err(e) => Err(e),
    }
}

impl App {
    /// Changes the network settings as asked and makes them consistent; says
    /// what is to be shown, or why a step was refused.
    pub fn apply_network_update(
        &mut self,
        u: &NetworkUpdate,
        local: &LocalAddrs,
        fresh: &Fresh,
    ) -> (r: Result<Reveal, String>)
        requires
            plenty(old(self)@.config.network, fresh@),
        ensures
            final(self)@ == network_updated(old(self)@, u@, fresh@, local.tailscale@).0,
            reveal_view(r) == network_updated(old(self)@, u@, fresh@, local.tailscale@).1,
    {
        let ghost a = self@;
        let ghost ts = local.tailscale@;
        let shown = switch_sharing(&mut self.config.network, u.expose, fresh);
        match choose_scope(&mut self.config.network, &u.listen_scope) {
            Ok(()) => {},
            Err(e) => {
                return Err(e);
            },
        }
        give_host(&mut self.config.network, &u.listen_host);
        self.warn_of_listening(local);
        let shown = renew_first_key(&mut self.config.network, shown, u.regenerate_token, fresh);
        proof {
            lemma_keys_keep_links(a.config.network, u@, fresh@);
        }
        let ghost n4 = self.config.network@;
        match switch_links(&mut self.config.network, &u.inference_mode, fresh) {
            Ok(()) => {},
            Err(e) => {
                return Err(e);
            },
        }
        proof {
            lemma_mode_step_len(n4, opt_text(u.inference_mode), fresh@);
        }
        let ghost n5 = self.config.network@;
        match save_legacy_link(&mut self.config.network, &u.remote_base, &u.remote_token, fresh) {
            Ok(()) => {},
            Err(e) => {
                return Err(e);
            },
        }
        proof {
            lemma_link_step_len(n5, opt_text(u.remote_base), opt_text(u.remote_token), fresh@);
        }
        name_device(&mut self.config.network, &u.device_name);
        self.settle_network(local, fresh);
        Ok(shown)
    }

    fn warn_of_listening(&mut self, local: &LocalAddrs)
        ensures
            final(self)@ == warn_step(old(self)@, local.tailscale@),
    {
        if self.config.network.expose {
            match self.config.network.resolve_listen_host(local) {
                Err(e) => {
                    let mut line = "network listen warning: ".to_owned();
                    line.append(e.as_str());
                    self.push_log(line.as_str());
                },
                Ok(_) => {},
            }
        }
    }

    /// Makes the configuration consistent after a change of the network
    /// settings.
    fn settle_network(&mut self, local: &LocalAddrs, fresh: &Fresh)
        requires
            enough(old(self)@.config.network, fresh@),
        ensures
            final(self)@ == (AppView {
                config: network_settled(old(self)@.config, fresh@, local.tailscale@),
                ..old(self)@
            }),
    {
        self.config.network.migrate_remotes(fresh);
        self.config.keep_ui_private();
        self.config.sync_llama_bind_from_network(local, fresh);
    }

    /// Ends a change of the network settings, after the configuration was saved
    /// or could not be.
    pub fn finish_network_update(
        &mut self,
        saved: Result<(), String>,
        shown: Reveal,
        local: &LocalAddrs,
    ) -> (r: Result<NetworkUpdateResult, String>)
        ensures
            match saved {
                Err(e) => result_view(r) == Err::<ResultView, Text>(save_error(e@)) && final(self)@
                    == old(self)@,
                Ok(_) => {
                    &&& final(self)@ == logged(
                        wanting(old(self)@, advertisement(old(self)@)),
                        update_line(old(self)@.config),
                    )
                    &&& result_view(r) == Ok::<ResultView, Text>(
                        ResultView {
                            restart_required: needs_restart(old(self)@, local.tailscale@),
                            access_token: shown@.token,
                            revealed_api_key_id: shown@.id,
                        },
                    )
                },
            },
    {
        match saved {
            Err(e) => {
                return Err(could_not_save(e.as_str()));
            },
            Ok(()) => {},
        }
        let restart: bool = self.network_restart_required(local);
        self.sync_mdns_advertise();
        let c = &self.config;
        let mut line = "network updated (expose=".to_owned();
        line.append(bool_word(c.network.expose));
        line.append(", scope=");
        line.append(c.network.listen_scope.as_str());
        line.append(", mode=");
        line.append(c.network.inference_mode.as_str());
        line.append(", remotes=");
        line.append(number(c.network.remotes.len() as u64).as_str());
        line.append(", llama=");
        line.append(c.effective_host().as_str());
        line.append(":");
        line.append(number(c.effective_port() as u64).as_str());
        line.append(", tls=");
        line.append(bool_word(c.uses_tls()));
        line.append(")");
        self.push_log(line.as_str());
        Ok(
            NetworkUpdateResult {
                restart_required: restart,
                access_token: shown.token,
                revealed_api_key_id: shown.id,
            },
        )
    }

    /// Links a server.
    pub fn create_linked_remote(
        &mut self,
        name: &str,
        base: &str,
        token: &str,
        activate: bool,
        local: &LocalAddrs,
        fresh: &Fresh,
    ) -> (r: Result<(), String>)
        requires
            plenty(old(self)@.config.network, fresh@),
        ensures
            ({
                let q = link_request(None, name, base, Some(token), activate);
                let (want, n) = saved_link(
                    migrated_links(old(self)@.config.network, fresh@),
                    q,
                    fresh@,
                );
                link_changed(old(self)@, final(self)@, r, want, n, fresh@, local.tailscale@)
            }),
    {
        self.save_link(None, name, base, Some(token), activate, local, fresh)
    }

    fn save_link(
        &mut self,
        id: Option<&str>,
        name: &str,
        base: &str,
        token: Option<&str>,
        activate: bool,
        local: &LocalAddrs,
        fresh: &Fresh,
    ) -> (r: Result<(), String>)
        requires
            fresh@.remote_ids.len() >= old(self)@.config.network.remotes.len() + 4,
        ensures
            ({
                let q = link_request(id, name, base, token, activate);
                let (want, n) = saved_link(
                    migrated_links(old(self)@.config.network, fresh@),
                    q,
                    fresh@,
                );
                link_changed(old(self)@, final(self)@, r, want, n, fresh@, local.tailscale@)
            }),
    {
        let ghost m = migrated_links(self@.config.network, fresh@);
        let ghost q = link_request(id, name, base, token, activate);
        proof {
            lemma_migrated_len(self@.config.network, fresh@);
            lemma_saved_len(m, q, fresh@);
        }
        match self.config.network.upsert_remote(id, name, base, token, activate, fresh) {
            Ok(_) => {},
            Err(e) => {
                return Err(e);
            },
        }
        self.settle_network(local, fresh);
        Ok(())
    }

    /// Changes a link; what is not given stays.
    pub fn update_linked_remote(
        &mut self,
        id: &str,
        name: Option<&str>,
        base: Option<&str>,
        token: Option<&str>,
        local: &LocalAddrs,
        fresh: &Fresh,
    ) -> (r: Result<(), String>)
        requires
            plenty(old(self)@.config.network, fresh@),
        ensures
            ({
                let m = migrated_links(old(self)@.config.network, fresh@);
                let a = with_network(old(self)@, m);
                if link_ids(m.remotes).contains(id@) {
                    let now = m.remotes[index_in(link_ids(m.remotes), id@)];
                    let q = LinkRequest {
                        id: Some(id@),
                        name: match name {
                            Some(s) => s@,
                            None => now.name,
                        },
                        base: match base {
                            Some(s) => s@,
                            None => now.base,
                        },
                        token: opt_str(token),
                        activate: false,
                    };
                    let (want, n) = saved_link(migrated_links(m, fresh@), q, fresh@);
                    link_changed(a, final(self)@, r, want, n, fresh@, local.tailscale@)
                } else {
                    r matches Err(e) && e@ == "Linked LLM not found."@ && final(self)@ == a
                }
            }),
    {
        proof {
            lemma_migrated_len(self@.config.network, fresh@);
        }
        self.config.network.migrate_remotes(fresh);
        let ghost m = self.config.network@;
        proof {
            lemma_index_in(link_ids(m.remotes), id@);
        }
        match find_link(&self.config.network.remotes, id) {
            None => Err("Linked LLM not found.".to_owned()),
            Some(i) => {
                proof {
                    assert(links(self.config.network.remotes@)[i as int]
                        == self.config.network.remotes@[i as int]@);
                }
                let old_name = self.config.network.remotes[i].name.clone();
                let old_base = self.config.network.remotes[i].base.clone();
                let new_name: &str = match name {
                    Some(s) => s,
                    None => old_name.as_str(),
                };
                let new_base: &str = match base {
                    Some(s) => s,
                    None => old_base.as_str(),
                };
                self.save_link(Some(id), new_name, new_base, token, false, local, fresh)
            },
        }
    }

    /// Removes a link.
    pub fn delete_linked_remote(&mut self, id: &str, local: &LocalAddrs, fresh: &Fresh) -> (r:
        Result<(), String>)
        requires
            plenty(old(self)@.config.network, fresh@),
        ensures
            ({
                let m = migrated_links(old(self)@.config.network, fresh@);
                if link_ids(m.remotes).contains(id@) {
                    let a = with_network(old(self)@, unlinked(m, id@));
                    r is Ok && final(self)@ == (AppView {
                        config: network_settled(a.config, fresh@, local.tailscale@),
                        ..a
                    })
                } else {
                    &&& r matches Err(e)
                    &&& e@ == "Linked LLM not found."@
                    &&& final(self)@ == with_network(old(self)@, m)
                }
            }),
    {
        let ghost m = migrated_links(self@.config.network, fresh@);
        proof {
            lemma_migrated_len(self@.config.network, fresh@);
            lemma_unlinked_len(m, id@);
        }
        match self.config.network.delete_remote(id, fresh) {
            Ok(()) => {},
            Err(e) => {
                return Err(e);
            },
        }
        self.settle_network(local, fresh);
        Ok(())
    }

    /// Sends chat to a link.
    pub fn activate_linked_remote(&mut self, id: &str, local: &LocalAddrs, fresh: &Fresh) -> (r:
        Result<(), String>)
        requires
            plenty(old(self)@.config.network, fresh@),
        ensures
            ({
                let m = migrated_links(old(self)@.config.network, fresh@);
                if link_ids(m.remotes).contains(id@) {
                    let a = with_network(old(self)@, activated(m, id@));
                    r is Ok && final(self)@ == (AppView {
                        config: network_settled(a.config, fresh@, local.tailscale@),
                        ..a
                    })
                } else {
                    &&& r matches Err(e)
                    &&& e@ == "Linked LLM not found."@
                    &&& final(self)@ == with_network(old(self)@, m)
                }
            }),
    {
        proof {
            lemma_migrated_len(self@.config.network, fresh@);
        }
        match self.config.network.set_active_remote(id, fresh) {
            Ok(()) => {},
            Err(e) => {
                return Err(e);
            },
        }
        self.settle_network(local, fresh);
        Ok(())
    }

    /// Ends a change of the links, after the configuration was saved or could
    /// not be.
    pub fn finish_link_change(
        &mut self,
        saved: Result<(), String>,
        action: &str,
        local: &LocalAddrs,
    ) -> (r: Result<NetworkUpdateResult, String>)
        ensures
            match saved {
                Err(e) => result_view(r) == Err::<ResultView, Text>(save_error(e@)) && final(self)@
                    == old(self)@,
                Ok(_) => {
                    &&& final(self)@ == logged(
                        wanting(old(self)@, advertisement(old(self)@)),
                        link_line(action@, old(self)@.config.network),
                    )
                    &&& result_view(r) == Ok::<ResultView, Text>(
                        ResultView {
                            restart_required: needs_restart(old(self)@, local.tailscale@),
                            access_token: None,
                            revealed_api_key_id: None,
                        },
                    )
                },
            },
    {
        match saved {
            Err(e) => {
                return Err(could_not_save(e.as_str()));
            },
            Ok(()) => {},
        }
        let restart: bool = self.network_restart_required(local);
        self.sync_mdns_advertise();
        let n = &self.config.network;
        let mut line = "network ".to_owned();
        line.append(action);
        line.append(" (mode=");
        line.append(n.inference_mode.as_str());
        line.append(", remotes=");
        line.append(number(n.remotes.len() as u64).as_str());
        line.append(")");
        self.push_log(line.as_str());
        Ok(
            NetworkUpdateResult {
                restart_required: restart,
                access_token: None,
                revealed_api_key_id: None,
            },
        )
    }

    /// Makes a key.
    pub fn create_api_key(&mut self, name: &str, local: &LocalAddrs, fresh: &Fresh) -> (r: Result<
        ApiKey,
        String,
    >)
        ensures
            ({
                let m = migrated_keys(
                    old(self)@.config.network,
                    fresh@.legacy_key_id,
                    fresh@.now,
                );
                match create_key_error(m, name@) {
                    Some(e) => r matches Err(got) && got@ == e && final(self)@ == with_network(
                        old(self)@,
                        m,
                    ),
                    None => {
                        let key = created_key(name@, fresh@);
                        let a = with_network(old(self)@, with_keys(m, m.api_keys.push(key)));
                        &&& r matches Ok(k)
                        &&& k@ == key
                        &&& final(self)@ == (AppView {
                            config: bound(a.config, fresh@, local.tailscale@),
                            ..a
                        })
                    },
                }
            }),
    {
        match self.config.network.create_api_key(name, fresh) {
            Err(e) => Err(e),
            Ok(k) => {
                self.config.sync_llama_bind_from_network(local, fresh);
                Ok(k)
            },
        }
    }

    /// Gives a key another name.
    pub fn rename_api_key(&mut self, id: &str, name: &str) -> (r: Result<(), String>)
        ensures
            match rename_key_error(old(self)@.config.network, id@, name@) {
                Some(e) => r matches Err(got) && got@ == e && final(self)@ == old(self)@,
                None => r is Ok && final(self)@ == with_network(
                    old(self)@,
                    ({
                        let n = old(self)@.config.network;
                        let i = index_in(key_ids(n.api_keys), id@);
                        NetworkView {
                            api_keys: n.api_keys.update(
                                i,
                                KeyView { name: crate::keys::clean_name(name@), ..n.api_keys[i] },
                            ),
                            ..n
                        }
                    }),
                ),
            },
            r is Ok ==> final(self)@ == with_network(
                old(self)@,
                crate::keys::with_renamed(old(self)@.config.network, id@, name@),
            ),
    {
        self.config.network.rename_api_key(id, name)
    }

    /// Gives a key another secret.
    pub fn regenerate_api_key(&mut self, id: &str, local: &LocalAddrs, fresh: &Fresh) -> (r: Result<
        ApiKey,
        String,
    >)
        ensures
            ({
                let n = old(self)@.config.network;
                if key_ids(n.api_keys).contains(id@) {
                    let want = with_renewed(n, id@, fresh@.secret, fresh@.now);
                    let a = with_network(old(self)@, want);
                    &&& r matches Ok(k)
                    &&& k@ == want.api_keys[index_in(key_ids(n.api_keys), id@)]
                    &&& final(self)@ == (AppView {
                        config: bound(a.config, fresh@, local.tailscale@),
                        ..a
                    })
                } else {
                    r matches Err(e) && e@ == "API key not found."@ && final(self)@ == old(self)@
                }
            }),
    {
        match self.config.network.regenerate_api_key(id, fresh) {
            Err(e) => Err(e),
            Ok(k) => {
                self.config.sync_llama_bind_from_network(local, fresh);
                Ok(k)
            },
        }
    }

    /// Removes a key; gives its name.
    pub fn delete_api_key(&mut self, id: &str, local: &LocalAddrs, fresh: &Fresh) -> (r: Result<
        String,
        String,
    >)
        ensures
            ({
                let n = old(self)@.config.network;
                match delete_key_error(n, id@) {
                    Some(e) => r matches Err(got) && got@ == e && final(self)@ == old(self)@,
                    None => {
                        let a = with_network(
                            old(self)@,
                            with_keys(n, keys_without(n.api_keys, id@)),
                        );
                        &&& r matches Ok(name)
                        &&& name@ == n.api_keys[index_in(key_ids(n.api_keys), id@)].name
                        &&& final(self)@ == (AppView {
                            config: bound(a.config, fresh@, local.tailscale@),
                            ..a
                        })
                    },
                }
            }),
    {
        let ghost ids = key_ids(self@.config.network.api_keys);
        proof {
            lemma_index_in(ids, id@);
        }
        let name = match find_key(&self.config.network.api_keys, id) {
            Some(i) => {
                proof {
                    assert(crate::network::keys(self.config.network.api_keys@)[i as int]
                        == self.config.network.api_keys@[i as int]@);
                }
                self.config.network.api_keys[i].name.clone()
            },
            None => id.to_owned(),
        };
        match self.config.network.delete_api_key(id) {
            Err(e) => Err(e),
            Ok(()) => {
                self.config.sync_llama_bind_from_network(local, fresh);
                Ok(name)
            },
        }
    }

    /// Ends a change of the keys, after the configuration was saved or could not
    /// be: `line` is what the log says, if anything, and `shown` the secret that
    /// is shown this once.
    pub fn finish_key_change(
        &mut self,
        saved: Result<(), String>,
        line: Option<&str>,
        shown: Reveal,
        local: &LocalAddrs,
    ) -> (r: Result<NetworkUpdateResult, String>)
        ensures
            match saved {
                Err(e) => result_view(r) == Err::<ResultView, Text>(save_error(e@)) && final(self)@
                    == old(self)@,
                Ok(_) => {
                    &&& final(self)@ == (match line {
                        Some(l) => logged(old(self)@, l@),
                        None => old(self)@,
                    })
                    &&& result_view(r) == Ok::<ResultView, Text>(
                        ResultView {
                            restart_required: line is Some && needs_restart(
                                old(self)@,
                                local.tailscale@,
                            ),
                            access_token: shown@.token,
                            revealed_api_key_id: shown@.id,
                        },
                    )
                },
            },
    {
        match saved {
            Err(e) => {
                return Err(could_not_save(e.as_str()));
            },
            Ok(()) => {},
        }
        let mut restart: bool = false;
        match line {
            Some(l) => {
                restart = self.network_restart_required(local);
                self.push_log(l);
            },
            None => {},
        }
        Ok(
            NetworkUpdateResult {
                restart_required: restart,
                access_token: shown.token,
                revealed_api_key_id: shown.id,
            },
        )
    }
}

/// What a request to save a link leaves: the answer, and the settings made
/// consistent where it was accepted.
pub open spec fn link_changed(
    a: AppView,
    b: AppView,
    r: Result<(), String>,
    want: Result<RemoteView, Text>,
    n: NetworkView,
    fresh: FreshView,
    ts: Seq<Ipv4>,
) -> bool {
    match want {
        Ok(_) => r is Ok && b == (AppView {
            config: network_settled(with_network(a, n).config, fresh, ts),
            ..a
        }),
        Err(m) => r matches Err(e) && e@ == m && b == with_network(a, n),
    }
}

fn could_not_save(e: &str) -> (m: String)
    ensures
        m@ == save_error(e@),
{
    let mut m = "could not save config: ".to_owned();
    m.append(e);
    m
}

proof fn lemma_keys_keep_links(n: NetworkView, u: UpdateView, fresh: FreshView)
    ensures
        ({
            let (n1, r1) = expose_step(n, u.expose, fresh);
            &&& n1.remotes == n.remotes
            &&& (scope_step(n1, u.listen_scope) matches Ok(n2) ==> renew_step(
                host_step(n2, u.listen_host),
                r1,
                u.regenerate_token,
                fresh,
            ).0.remotes == n.remotes)
        }),
{
}

proof fn lemma_mode_step_len(n: NetworkView, mode: Option<Text>, fresh: FreshView)
    ensures
        mode_step(n, mode, fresh).0.remotes.len() <= n.remotes.len() + 1,
{
    lemma_migrated_len(n, fresh);
}

proof fn lemma_link_step_len(
    n: NetworkView,
    base: Option<Text>,
    token: Option<Text>,
    fresh: FreshView,
)
    ensures
        link_step(n, base, token, fresh).0.remotes.len() <= n.remotes.len() + 3,
{
    let m = migrated_links(n, fresh);
    let again = migrated_links(m, fresh);
    lemma_migrated_len(n, fresh);
    lemma_migrated_len(m, fresh);
    lemma_unlinked_len(again, m.active_remote_id);
    lemma_saved_len(again, legacy_request(m, legacy_base(m, base), token), fresh);
}

/// However the network settings are changed, the control panel stays on this
/// machine, and while sharing is off the server does too and takes no key.
pub proof fn law_update_keeps_panel_private(
    a: AppView,
    u: UpdateView,
    fresh: FreshView,
    ts: Seq<Ipv4>,
)
    requires
        network_updated(a, u, fresh, ts).1 is Ok,
    ensures
        ({
            let c = network_updated(a, u, fresh, ts).0.config;
            &&& (trimmed(c.ui.host) == "127.0.0.1"@ || trimmed(c.ui.host) == "localhost"@ || trimmed(
                c.ui.host,
            ) == "::1"@)
            &&& (!c.network.expose ==> c.server.host == "127.0.0.1"@ && c.server.api_key.len() == 0)
        }),
{
    lemma_loopback_is_trimmed();
}

proof fn lemma_loopback_is_trimmed()
    ensures
        trimmed("127.0.0.1"@) == "127.0.0.1"@,
{
    reveal_strlit("127.0.0.1");
}

/// Whether what is shared, where and under what name is the same.
pub open spec fn shares_alike(n: NetworkView, m: NetworkView) -> bool {
    &&& n.expose == m.expose
    &&& n.listen_scope == m.listen_scope
    &&& n.listen_host == m.listen_host
    &&& n.device_name == m.device_name
}

/// Whether the links and the use of them are the same.
pub open spec fn links_alike(n: NetworkView, m: NetworkView) -> bool {
    &&& n.inference_mode == m.inference_mode
    &&& n.remotes == m.remotes
    &&& n.active_remote_id == m.active_remote_id
}

proof fn lemma_keys_steps(n: NetworkView, fresh: FreshView)
    ensures
        shares_alike(n, ensured(n, fresh)),
        shares_alike(n, regenerated(n, fresh)),
        shares_alike(n, migrated_keys(n, fresh.legacy_key_id, fresh.now)),
        links_alike(n, ensured(n, fresh)),
        links_alike(n, regenerated(n, fresh)),
        links_alike(n, migrated_keys(n, fresh.legacy_key_id, fresh.now)),
{
}

proof fn lemma_links_migrate(n: NetworkView, fresh: FreshView)
    ensures
        shares_alike(n, migrated_links(n, fresh)),
        migrated_links(n, fresh).api_keys == n.api_keys,
{
}

proof fn lemma_links_steps(m: NetworkView, q: LinkRequest, id: Text, fresh: FreshView)
    ensures
        shares_alike(m, saved_link(m, q, fresh).1),
        shares_alike(m, unlinked(m, id)),
        saved_link(m, q, fresh).1.api_keys == m.api_keys,
        unlinked(m, id).api_keys == m.api_keys,
{
}

proof fn lemma_link_step(
    n: NetworkView,
    base: Option<Text>,
    token: Option<Text>,
    fresh: FreshView,
)
    ensures
        shares_alike(n, link_step(n, base, token, fresh).0),
        link_step(n, base, token, fresh).0.api_keys == n.api_keys,
{
    let m = migrated_links(n, fresh);
    lemma_links_migrate(n, fresh);
    lemma_links_migrate(m, fresh);
    let again = migrated_links(m, fresh);
    let q = legacy_request(m, legacy_base(m, base), token);
    lemma_links_steps(again, q, m.active_remote_id, fresh);
}

/// A change of the network settings sets what it names and leaves the rest of
/// what is shared as it was. The model, how it runs, the ports and the models
/// used before are not touched.
pub proof fn law_update_sets_what_it_names(
    a: AppView,
    u: UpdateView,
    fresh: FreshView,
    ts: Seq<Ipv4>,
)
    requires
        network_updated(a, u, fresh, ts).1 is Ok,
    ensures
        ({
            let c = network_updated(a, u, fresh, ts).0.config;
            let n = c.network;
            let o = a.config.network;
            &&& n.expose == (match u.expose {
                Some(on) => on,
                None => o.expose,
            })
            &&& u.listen_scope matches Some(s) ==> ListenScope::named(s) == Some(n.listen_scope)
            &&& u.listen_scope is None ==> n.listen_scope == o.listen_scope
            &&& n.listen_host == (match u.listen_host {
                Some(h) => trimmed(h),
                None => o.listen_host,
            })
            &&& n.device_name == (match u.device_name {
                Some(s) => trimmed(s),
                None => o.device_name,
            })
            &&& c.model == a.config.model
            &&& c.runtime == a.config.runtime
            &&& c.recent_models == a.config.recent_models
            &&& c.server.port == a.config.server.port
            &&& c.server.executable == a.config.server.executable
            &&& c.ui.port == a.config.ui.port
        }),
{
    let o = a.config.network;
    let n1 = expose_step(o, u.expose, fresh).0;
    if u.expose == Some(true) {
        lemma_keys_steps(NetworkView { expose: true, ..o }, fresh);
    }
    let n2 = scope_step(n1, u.listen_scope)->Ok_0;
    let n3 = host_step(n2, u.listen_host);
    let a3 = warn_step(with_network(a, n3), ts);
    assert(a3.config == with_network(a, n3).config);
    let n4 = renew_step(n3, expose_step(o, u.expose, fresh).1, u.regenerate_token, fresh).0;
    lemma_keys_steps(n3, fresh);
    assert(shares_alike(n3, n4));
    let n5 = mode_step(n4, u.inference_mode, fresh).0;
    lemma_links_migrate(n4, fresh);
    assert(shares_alike(n4, n5));
    let n6 = link_step(n5, u.remote_base, u.remote_token, fresh).0;
    lemma_link_step(n5, u.remote_base, u.remote_token, fresh);
    let n7 = name_step(n6, u.device_name);
    lemma_links_migrate(n7, fresh);
    lemma_keys_steps(migrated_links(n7, fresh), fresh);
}

/// Where chat goes is set to what was named, and stays when nothing was named.
pub proof fn law_mode_is_set(n: NetworkView, s: Text, fresh: FreshView)
    ensures
        s == "local"@ ==> mode_step(n, Some(s), fresh).1 is Ok && mode_step(
            n,
            Some(s),
            fresh,
        ).0.inference_mode == InferenceMode::Local,
        s == "remote"@ && migrated_links(n, fresh).remotes.len() > 0 ==> mode_step(
            n,
            Some(s),
            fresh,
        ).1 is Ok && mode_step(n, Some(s), fresh).0.inference_mode == InferenceMode::Remote,
        s == "remote"@ && migrated_links(n, fresh).remotes.len() == 0 ==> mode_step(
            n,
            Some(s),
            fresh,
        ).1 is Err,
        mode_step(n, None, fresh).0 == n,
{
    reveal_strlit("local");
    reveal_strlit("remote");
    assert("local"@[0] != "remote"@[0]);
    crate::network::law_mode_name_round_trip(InferenceMode::Local);
    crate::network::law_mode_name_round_trip(InferenceMode::Remote);
}

/// A key is shown in full only where it was just made: on the first sharing, and
/// when it is renewed on request. It is then the first key, as it is kept.
pub proof fn law_shown_key_was_just_made(
    a: AppView,
    u: UpdateView,
    fresh: FreshView,
    ts: Seq<Ipv4>,
)
    requires
        network_updated(a, u, fresh, ts).1 is Ok,
        u.regenerate_token != Some(true),
        u.expose != Some(true) || migrated_keys(
            NetworkView { expose: true, ..a.config.network },
            fresh.legacy_key_id,
            fresh.now,
        ).api_keys.len() > 0,
    ensures
        network_updated(a, u, fresh, ts).1 == Ok::<RevealView, Text>(
            RevealView { token: None, id: None },
        ),
{
}

} // verus!
