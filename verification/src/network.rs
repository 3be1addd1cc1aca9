//! Network sharing settings: API keys, linked LLMs, and where to listen.
use vstd::prelude::*;

use crate::text::{lower, same, to_lower, trim, trimmed, Text};

verus! {

broadcast use vstd::string::group_string_axioms;

/// How many API keys or linked LLMs the settings hold at most.
pub const MAX_ENTRIES: usize = 32;

/// Where chat requests go.
#[derive(Clone, Copy, Debug, PartialEq, Eq, Structural)]
pub enum InferenceMode {
    Local,
    Remote,
}

impl InferenceMode {
    /// The name in the settings file.
    pub open spec fn name(self) -> Text {
        match self {
            InferenceMode::Local => "local"@,
            InferenceMode::Remote => "remote"@,
        }
    }

    /// The name in the settings file.
    pub fn as_str(self) -> (r: &'static str)
        ensures
            r@ == self.name(),
    {
        match self {
            InferenceMode::Local => "local",
            InferenceMode::Remote => "remote",
        }
    }

    /// What a name stands for, without regard to capitals or white space at
    /// the ends.
    pub open spec fn named(raw: Text) -> Option<InferenceMode> {
        let t = lower(trimmed(raw));
        if t == "local"@ {
            Some(InferenceMode::Local)
        } else if t == "remote"@ {
            Some(InferenceMode::Remote)
        } else {
            None
        }
    }

    /// Reads a name.
    pub fn parse(raw: &str) -> (r: Option<InferenceMode>)
        ensures
            r == InferenceMode::named(raw@),
    {
        let t = to_lower(trim(raw).as_str());
        if same(t.as_str(), "local") {
            Some(InferenceMode::Local)
        } else if same(t.as_str(), "remote") {
            Some(InferenceMode::Remote)
        } else {
            None
        }
    }
}

/// Where the managed server listens while sharing is on.
#[derive(Clone, Copy, Debug, PartialEq, Eq, Structural)]
pub enum ListenScope {
    /// Every IPv4 interface.
    All,
    /// The first Tailscale address only.
    Tailscale,
    /// The address in the settings.
    Custom,
}

impl ListenScope {
    /// The name in the settings file.
    pub open spec fn name(self) -> Text {
        match self {
            ListenScope::All => "all"@,
            ListenScope::Tailscale => "tailscale"@,
            ListenScope::Custom => "custom"@,
        }
    }

    /// The name in the settings file.
    pub fn as_str(self) -> (r: &'static str)
        ensures
            r@ == self.name(),
    {
        match self {
            ListenScope::All => "all",
            ListenScope::Tailscale => "tailscale",
            ListenScope::Custom => "custom",
        }
    }

    /// What a name or one of its other spellings stands for.
    pub open spec fn named(raw: Text) -> Option<ListenScope> {
        let t = lower(trimmed(raw));
        if t == "all"@ || t == "lan"@ || t == "any"@ {
            Some(ListenScope::All)
        } else if t == "tailscale"@ || t == "ts"@ {
            Some(ListenScope::Tailscale)
        } else if t == "custom"@ || t == "host"@ || t == "address"@ {
            Some(ListenScope::Custom)
        } else {
            None
        }
    }

    /// Reads a name.
    pub fn parse(raw: &str) -> (r: Option<ListenScope>)
        ensures
            r == ListenScope::named(raw@),
    {
        let low = to_lower(trim(raw).as_str());
        let t = low.as_str();
        if same(t, "all") || same(t, "lan") || same(t, "any") {
            Some(ListenScope::All)
        } else if same(t, "tailscale") || same(t, "ts") {
            Some(ListenScope::Tailscale)
        } else if same(t, "custom") || same(t, "host") || same(t, "address") {
            Some(ListenScope::Custom)
        } else {
            None
        }
    }

    /// The short label of the settings page.
    pub open spec fn label(self) -> Text {
        match self {
            ListenScope::All => "Wi‑Fi / LAN and Tailscale"@,
            ListenScope::Tailscale => "Tailscale only"@,
            ListenScope::Custom => "A specific address"@,
        }
    }

    /// The short label of the settings page.
    pub fn novice_label(self) -> (r: &'static str)
        ensures
            r@ == self.label(),
    {
        match self {
            ListenScope::All => "Wi‑Fi / LAN and Tailscale",
            ListenScope::Tailscale => "Tailscale only",
            ListenScope::Custom => "A specific address",
        }
    }

    /// The advice under the label.
    pub open spec fn hint(self) -> Text {
        match self {
            ListenScope::All => "Broadest reach: every interface on this PC. Prefer Tailscale only unless you need LAN."@,
            ListenScope::Tailscale => "Narrowest common option: only Tailscale peers. Tailscale must be running."@,
            ListenScope::Custom => "Bind to exactly one IP you choose below — nothing else."@,
        }
    }

    /// The advice under the label.
    pub fn novice_hint(self) -> (r: &'static str)
        ensures
            r@ == self.hint(),
    {
        match self {
            ListenScope::All => "Broadest reach: every interface on this PC. Prefer Tailscale only unless you need LAN.",
            ListenScope::Tailscale => "Narrowest common option: only Tailscale peers. Tailscale must be running.",
            ListenScope::Custom => "Bind to exactly one IP you choose below — nothing else.",
        }
    }

    /// What the choice does, for those who ask.
    pub open spec fn detail(self) -> Text {
        match self {
            ListenScope::All => "Binds llama-server to 0.0.0.0 (all interfaces) with a self-signed TLS cert."@,
            ListenScope::Tailscale => "Binds llama-server to your Tailscale IP (100.x) only with a self-signed TLS cert."@,
            ListenScope::Custom => "Binds llama-server to the address you select with a self-signed TLS cert."@,
        }
    }

    /// What the choice does, for those who ask.
    pub fn technical_detail(self) -> (r: &'static str)
        ensures
            r@ == self.detail(),
    {
        match self {
            ListenScope::All => "Binds llama-server to 0.0.0.0 (all interfaces) with a self-signed TLS cert.",
            ListenScope::Tailscale => "Binds llama-server to your Tailscale IP (100.x) only with a self-signed TLS cert.",
            ListenScope::Custom => "Binds llama-server to the address you select with a self-signed TLS cert.",
        }
    }
}

/// Every mode is read back from its own name.
pub proof fn law_mode_name_round_trip(m: InferenceMode)
    ensures
        InferenceMode::named(m.name()) == Some(m),
{
    reveal_strlit("local");
    reveal_strlit("remote");
    assert(lower(trimmed("local"@)) =~= "local"@);
    assert(lower(trimmed("remote"@)) =~= "remote"@);
    assert("local"@.len() != "remote"@.len());
}

/// Every scope is read back from its own name.
pub proof fn law_scope_name_round_trip(s: ListenScope)
    ensures
        ListenScope::named(s.name()) == Some(s),
{
    reveal_strlit("all");
    reveal_strlit("lan");
    reveal_strlit("any");
    reveal_strlit("tailscale");
    reveal_strlit("ts");
    reveal_strlit("custom");
    reveal_strlit("host");
    reveal_strlit("address");
    assert(lower(trimmed("all"@)) =~= "all"@);
    assert(lower(trimmed("tailscale"@)) =~= "tailscale"@);
    assert(lower(trimmed("custom"@)) =~= "custom"@);
    assert("tailscale"@.len() == 9 && "custom"@.len() == 6 && "all"@.len() == 3);
}

/// A named key that clients of the shared server send.
#[derive(Debug)]
pub struct ApiKey {
    pub id: String,
    pub name: String,
    pub secret: String,
    /// Unix seconds of the key's creation or last renewal.
    pub created_at: u64,
}

/// The view of [`ApiKey`].
pub struct KeyView {
    pub id: Text,
    pub name: Text,
    pub secret: Text,
    pub created_at: u64,
}

impl View for ApiKey {
    type V = KeyView;

    open spec fn view(&self) -> KeyView {
        KeyView {
            id: self.id@,
            name: self.name@,
            secret: self.secret@,
            created_at: self.created_at,
        }
    }
}

impl Clone for ApiKey {
    fn clone(&self) -> (r: Self)
        ensures
            r@ == self@,
    {
        ApiKey {
            id: self.id.clone(),
            name: self.name.clone(),
            secret: self.secret.clone(),
            created_at: self.created_at,
        }
    }
}

/// A key as the settings page shows it.
#[derive(Debug)]
pub struct ApiKeyPublic {
    pub id: String,
    pub name: String,
    pub secret_masked: String,
    pub created_at: u64,
}

/// An OpenAI-compatible LLM on another device.
#[derive(Debug)]
pub struct LinkedRemote {
    pub id: String,
    pub name: String,
    pub base: String,
    pub token: String,
}

/// The view of [`LinkedRemote`].
pub struct RemoteView {
    pub id: Text,
    pub name: Text,
    pub base: Text,
    pub token: Text,
}

impl View for LinkedRemote {
    type V = RemoteView;

    open spec fn view(&self) -> RemoteView {
        RemoteView { id: self.id@, name: self.name@, base: self.base@, token: self.token@ }
    }
}

impl Clone for LinkedRemote {
    fn clone(&self) -> (r: Self)
        ensures
            r@ == self@,
    {
        LinkedRemote {
            id: self.id.clone(),
            name: self.name.clone(),
            base: self.base.clone(),
            token: self.token.clone(),
        }
    }
}

/// The network settings.
#[derive(Debug)]
pub struct NetworkConfig {
    pub expose: bool,
    pub listen_scope: ListenScope,
    /// The address for [`ListenScope::Custom`].
    pub listen_host: String,
    /// The single token of older settings files; mirrors the first key.
    pub access_token: String,
    pub api_keys: Vec<ApiKey>,
    pub inference_mode: InferenceMode,
    pub remotes: Vec<LinkedRemote>,
    /// Which linked LLM chat uses.
    pub active_remote_id: String,
    /// The single link of older settings files; mirrors the active one.
    pub remote_base: String,
    pub remote_token: String,
    pub device_name: String,
}

/// The view of [`NetworkConfig`].
pub struct NetworkView {
    pub expose: bool,
    pub listen_scope: ListenScope,
    pub listen_host: Text,
    pub access_token: Text,
    pub api_keys: Seq<KeyView>,
    pub inference_mode: InferenceMode,
    pub remotes: Seq<RemoteView>,
    pub active_remote_id: Text,
    pub remote_base: Text,
    pub remote_token: Text,
    pub device_name: Text,
}

/// The views of a list of keys.
pub open spec fn keys(v: Seq<ApiKey>) -> Seq<KeyView> {
    Seq::new(v.len(), |i: int| v[i]@)
}

/// The views of a list of linked LLMs.
pub open spec fn links(v: Seq<LinkedRemote>) -> Seq<RemoteView> {
    Seq::new(v.len(), |i: int| v[i]@)
}

impl View for NetworkConfig {
    type V = NetworkView;

    open spec fn view(&self) -> NetworkView {
        NetworkView {
            expose: self.expose,
            listen_scope: self.listen_scope,
            listen_host: self.listen_host@,
            access_token: self.access_token@,
            api_keys: keys(self.api_keys@),
            inference_mode: self.inference_mode,
            remotes: links(self.remotes@),
            active_remote_id: self.active_remote_id@,
            remote_base: self.remote_base@,
            remote_token: self.remote_token@,
            device_name: self.device_name@,
        }
    }
}

/// The settings of a new installation: sharing off, chat local, nothing saved.
pub open spec fn default_network() -> NetworkView {
    NetworkView {
        expose: false,
        listen_scope: ListenScope::Tailscale,
        listen_host: Seq::empty(),
        access_token: Seq::empty(),
        api_keys: Seq::empty(),
        inference_mode: InferenceMode::Local,
        remotes: Seq::empty(),
        active_remote_id: Seq::empty(),
        remote_base: Seq::empty(),
        remote_token: Seq::empty(),
        device_name: Seq::empty(),
    }
}

impl Default for NetworkConfig {
    fn default() -> (r: Self)
        ensures
            r@ == default_network(),
    {
        let r = NetworkConfig {
            expose: false,
            listen_scope: ListenScope::Tailscale,
            listen_host: String::new(),
            access_token: String::new(),
            api_keys: Vec::new(),
            inference_mode: InferenceMode::Local,
            remotes: Vec::new(),
            active_remote_id: String::new(),
            remote_base: String::new(),
            remote_token: String::new(),
            device_name: String::new(),
        };
        proof {
            assert(keys(r.api_keys@) =~= Seq::<KeyView>::empty());
            assert(links(r.remotes@) =~= Seq::<RemoteView>::empty());
        }
        r
    }
}

fn copy_keys(v: &Vec<ApiKey>) -> (out: Vec<ApiKey>)
    ensures
        keys(out@) == keys(v@),
{
    let mut out: Vec<ApiKey> = Vec::new();
    let mut i: usize = 0;
    while i < v.len()
        invariant
            i <= v.len(),
            out.len() == i,
            forall|k: int| 0 <= k < i ==> (#[trigger] out@[k])@ == v@[k]@,
        decreases v.len() - i,
    {
        out.push(v[i].clone());
        i = i + 1;
    }
    proof {
        assert(keys(out@) =~= keys(v@));
    }
    out
}

fn copy_links(v: &Vec<LinkedRemote>) -> (out: Vec<LinkedRemote>)
    ensures
        links(out@) == links(v@),
{
    let mut out: Vec<LinkedRemote> = Vec::new();
    let mut i: usize = 0;
    while i < v.len()
        invariant
            i <= v.len(),
            out.len() == i,
            forall|k: int| 0 <= k < i ==> (#[trigger] out@[k])@ == v@[k]@,
        decreases v.len() - i,
    {
        out.push(v[i].clone());
        i = i + 1;
    }
    proof {
        assert(links(out@) =~= links(v@));
    }
    out
}

fn same_keys(a: &Vec<ApiKey>, b: &Vec<ApiKey>) -> (r: bool)
    ensures
        r == (keys(a@) == keys(b@)),
{
    if a.len() != b.len() {
        proof {
            assert(keys(a@).len() != keys(b@).len());
        }
        return false;
    }
    let mut i: usize = 0;
    while i < a.len()
        invariant
            i <= a.len(),
            a.len() == b.len(),
            forall|k: int| 0 <= k < i ==> a@[k]@ == b@[k]@,
        decreases a.len() - i,
    {
        let x = &a[i];
        let y = &b[i];
        let eq: bool = same(x.id.as_str(), y.id.as_str()) && same(
            x.name.as_str(),
            y.name.as_str(),
        ) && same(x.secret.as_str(), y.secret.as_str()) && x.created_at == y.created_at;
        if !eq {
            proof {
                assert(keys(a@)[i as int] != keys(b@)[i as int]);
            }
            return false;
        }
        i = i + 1;
    }
    proof {
        assert(keys(a@) =~= keys(b@));
    }
    true
}

fn same_links(a: &Vec<LinkedRemote>, b: &Vec<LinkedRemote>) -> (r: bool)
    ensures
        r == (links(a@) == links(b@)),
{
    if a.len() != b.len() {
        proof {
            assert(links(a@).len() != links(b@).len());
        }
        return false;
    }
    let mut i: usize = 0;
    while i < a.len()
        invariant
            i <= a.len(),
            a.len() == b.len(),
            forall|k: int| 0 <= k < i ==> a@[k]@ == b@[k]@,
        decreases a.len() - i,
    {
        let x = &a[i];
        let y = &b[i];
        let eq: bool = same(x.id.as_str(), y.id.as_str()) && same(
            x.name.as_str(),
            y.name.as_str(),
        ) && same(x.base.as_str(), y.base.as_str()) && same(x.token.as_str(), y.token.as_str());
        if !eq {
            proof {
                assert(links(a@)[i as int] != links(b@)[i as int]);
            }
            return false;
        }
        i = i + 1;
    }
    proof {
        assert(links(a@) =~= links(b@));
    }
    true
}

impl NetworkConfig {
    /// Whether two network settings are the same.
    pub fn same(&self, o: &NetworkConfig) -> (r: bool)
        ensures
            r == (self@ == o@),
    {
        self.expose == o.expose && self.listen_scope == o.listen_scope && same(
            self.listen_host.as_str(),
            o.listen_host.as_str(),
        ) && same(self.access_token.as_str(), o.access_token.as_str()) && same_keys(
            &self.api_keys,
            &o.api_keys,
        ) && self.inference_mode == o.inference_mode && same_links(&self.remotes, &o.remotes)
            && same(self.active_remote_id.as_str(), o.active_remote_id.as_str()) && same(
            self.remote_base.as_str(),
            o.remote_base.as_str(),
        ) && same(self.remote_token.as_str(), o.remote_token.as_str()) && same(
            self.device_name.as_str(),
            o.device_name.as_str(),
        )
    }
}

impl Clone for NetworkConfig {
    fn clone(&self) -> (r: Self)
        ensures
            r@ == self@,
    {
        NetworkConfig {
            expose: self.expose,
            listen_scope: self.listen_scope,
            listen_host: self.listen_host.clone(),
            access_token: self.access_token.clone(),
            api_keys: copy_keys(&self.api_keys),
            inference_mode: self.inference_mode,
            remotes: copy_links(&self.remotes),
            active_remote_id: self.active_remote_id.clone(),
            remote_base: self.remote_base.clone(),
            remote_token: self.remote_token.clone(),
            device_name: self.device_name.clone(),
        }
    }
}

} // verus!
