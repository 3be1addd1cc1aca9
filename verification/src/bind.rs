//! Addresses in the settings: the control panel's, the server's, and the URLs
//! under which they are reached.
use vstd::prelude::*;

use crate::address::{ip, parse_ip, parse_socket, socket, Ip, Ipv4, Socket};
use crate::config::{Config, ConfigView, ModelSource, ServerView, SourceView, UiView};
use crate::fresh::{Fresh, FreshView};
use crate::keys::{migrated_keys, secrets_of};
use crate::listen::{listen_host, LocalAddrs};
use crate::network::NetworkView;
use crate::text::{
    contains, decimal, number, occurs, same, strip_prefix, strip_suffix, texts, trim, trimmed,
    without_prefix, without_suffix, Text,
};

verus! {

broadcast use vstd::string::group_string_axioms;

/// A host without the brackets of a version six address.
pub open spec fn unbracketed(host: Text) -> Text {
    match without_prefix(host, "["@) {
        Some(h) => match without_suffix(h, "]"@) {
            Some(inner) => inner,
            None => host,
        },
        None => host,
    }
}

/// A host without the brackets of a version six address.
pub fn strip_brackets(host: &str) -> (out: String)
    ensures
        out@ == unbracketed(host@),
{
    match strip_prefix(host, "[") {
        Some(h) => match strip_suffix(h.as_str(), "]") {
            Some(inner) => inner,
            None => host.to_owned(),
        },
        None => host.to_owned(),
    }
}

/// The host to connect to for a server that listens on `host`: this machine
/// where it listens on every address.
pub open spec fn connectable(host: Text) -> Text {
    let h = unbracketed(host);
    if h == "0.0.0.0"@ {
        "127.0.0.1"@
    } else if h == "::"@ {
        "::1"@
    } else {
        h
    }
}

/// The host to connect to for a server that listens on `host`.
pub fn loopback_host(host: &str) -> (out: String)
    ensures
        out@ == connectable(host@),
{
    let h = strip_brackets(host);
    if same(h.as_str(), "0.0.0.0") {
        "127.0.0.1".to_owned()
    } else if same(h.as_str(), "::") {
        "::1".to_owned()
    } else {
        h
    }
}

/// A host and port as a URL holds them, with brackets where the host has
/// colons.
pub open spec fn authority(host: Text, port: u16) -> Text {
    let h = unbracketed(host);
    if occurs(h, ":"@) {
        "["@ + h + "]:"@ + decimal(port as nat)
    } else {
        h + ":"@ + decimal(port as nat)
    }
}

/// A host and port as a URL holds them.
pub fn format_authority(host: &str, port: u16) -> (out: String)
    ensures
        out@ == authority(host@, port),
{
    let h = strip_brackets(host);
    if contains(h.as_str(), ":") {
        let mut out = "[".to_owned();
        out.append(h.as_str());
        out.append("]:");
        out.append(number(port as u64).as_str());
        out
    } else {
        let mut out = h;
        out.append(":");
        out.append(number(port as u64).as_str());
        out
    }
}

/// The same address, or this machine's at the same port where the address is
/// reached from elsewhere.
pub open spec fn loopback_socket(a: Socket) -> Socket {
    if a.ip.loopback() {
        a
    } else {
        Socket {
            ip: match a.ip {
                Ip::V4(_) => Ip::V4(Ipv4 { a: 127, b: 0, c: 0, d: 1 }),
                Ip::V6(..) => Ip::V6(0, 0, 0, 0, 0, 0, 0, 1),
            },
            scope: 0,
            port: a.port,
        }
    }
}

/// The same address, or this machine's at the same port.
pub fn force_loopback_socket(a: Socket) -> (r: Socket)
    ensures
        r == loopback_socket(a),
{
    if a.ip.is_loopback() {
        return a;
    }
    let ip = match a.ip {
        Ip::V4(_) => Ip::V4(Ipv4 { a: 127, b: 0, c: 0, d: 1 }),
        Ip::V6(..) => Ip::V6(0, 0, 0, 0, 0, 0, 0, 1),
    };
    Socket { ip, scope: 0, port: a.port }
}

/// The control panel's address, or what is wrong with it.
pub open spec fn panel_addr(host: Text, port: u16) -> Result<Socket, Text> {
    let h = unbracketed(trimmed(host));
    if port == 0 {
        Err("ui port must be between 1 and 65535"@)
    } else if h.len() == 0 {
        Err("ui host cannot be empty"@)
    } else {
        match ip(h) {
            Some(a) => Ok(Socket { ip: a, scope: 0, port }),
            None => Err(
                "ui host must be an IP address such as 127.0.0.1 or ::1 (got "@ + h
                    + "): invalid IP address syntax"@,
            ),
        }
    }
}

/// The view of a result with a text for its error.
pub open spec fn err_text<T>(r: Result<T, String>) -> Result<T, Text> {
    match r {
        Ok(x) => Ok(x),
        Err(e) => Err(e@),
    }
}

/// The control panel's address, or what is wrong with it.
pub fn parse_ui_addr(host: &str, port: u16) -> (r: Result<Socket, String>)
    ensures
        err_text(r) == panel_addr(host@, port),
{
    if port == 0 {
        return Err("ui port must be between 1 and 65535".to_owned());
    }
    let h = strip_brackets(trim(host).as_str());
    if h.as_str().is_empty() {
        return Err("ui host cannot be empty".to_owned());
    }
    match parse_ip(h.as_str()) {
        Some(a) => Ok(Socket { ip: a, scope: 0, port }),
        None => {
            let mut e = "ui host must be an IP address such as 127.0.0.1 or ::1 (got ".to_owned();
            e.append(h.as_str());
            e.append("): invalid IP address syntax");
            Err(e)
        },
    }
}

/// Where the control panel listens, or what is wrong with the settings.
pub open spec fn panel_bind(
    cli: Option<Socket>,
    env: Option<Text>,
    c: ConfigView,
) -> Result<Socket, Text> {
    let wanted = match (cli, env) {
        (Some(a), _) => Ok(a),
        (None, Some(raw)) if trimmed(raw).len() > 0 => match socket(trimmed(raw)) {
            Some(a) => Ok(a),
            None => Err(
                "invalid TINYINFERENCE_BIND value: "@ + raw + ": invalid socket address syntax"@,
            ),
        },
        _ => panel_addr(c.ui.host, c.ui.port),
    };
    match wanted {
        Ok(a) => Ok(loopback_socket(a)),
        Err(e) => Err(e),
    }
}

/// The host of the address that the settings give: while sharing the shared one.
pub open spec fn server_host(c: ConfigView) -> Text {
    unbracketed(trimmed(c.server.host))
}

/// Whether the shared address is reached over TLS: sharing is on and both files are
/// there.
pub open spec fn with_tls(c: ConfigView) -> bool {
    c.network.expose && (c.tls_cert_file matches Some(p) && p.len() > 0) && (
    c.tls_key_file matches Some(p) && p.len() > 0)
}

/// The scheme of the URLs of the shared address.
pub open spec fn url_scheme(c: ConfigView) -> Text {
    if with_tls(c) {
        "https"@
    } else {
        "http"@
    }
}

/// The address that the server is started on: while sharing this machine alone,
/// without TLS, since the shared address has its certificate and keys to itself.
pub open spec fn launch_host(c: ConfigView) -> Text {
    if c.network.expose {
        "127.0.0.1"@
    } else {
        server_host(c)
    }
}

/// The base URL of the server, which a browser can open: while sharing that of
/// the shared address.
pub open spec fn base_url(c: ConfigView) -> Text {
    url_scheme(c) + "://"@ + authority(connectable(server_host(c)), c.server.port)
}

/// The base URL under which this machine reaches the server that it started:
/// the address that it is started on.
pub open spec fn start_base(c: ConfigView) -> Text {
    "http://"@ + authority(connectable(launch_host(c)), c.server.port)
}

/// What to say of where the server listens.
pub open spec fn listen_text(c: ConfigView) -> Text {
    let bind = server_host(c);
    if bind == "0.0.0.0"@ || bind == "::"@ {
        url_scheme(c) + "://"@ + bind + ":"@ + decimal(c.server.port as nat) + " (open via "@
            + connectable(bind) + ")"@
    } else {
        url_scheme(c) + "://"@ + authority(bind, c.server.port)
    }
}

/// What the model is called.
pub open spec fn label_of(s: SourceView) -> Text {
    if crate::config::blank(s) {
        "No model selected"@
    } else {
        source_text(s)
    }
}

/// The repository or path itself.
pub open spec fn source_text(s: SourceView) -> Text {
    match s {
        SourceView::HuggingFace(t) => t,
        SourceView::Local(t) => t,
    }
}

/// The settings with the control panel on this machine only.
pub open spec fn private_ui(c: ConfigView) -> ConfigView {
    let h = trimmed(c.ui.host);
    if h != "127.0.0.1"@ && h != "localhost"@ && h != "::1"@ {
        ConfigView { ui: UiView { host: "127.0.0.1"@, ..c.ui }, ..c }
    } else {
        c
    }
}

/// The first secret that the server accepts; empty where there is none.
pub open spec fn primary_secret(n: NetworkView) -> Text {
    let s = secrets_of(n.api_keys);
    if s.len() > 0 {
        s[0]
    } else {
        Seq::empty()
    }
}

/// The settings with the server's address and key following the network
/// settings. Where no address can be had, the server stays on this machine.
pub open spec fn bound(c: ConfigView, fresh: FreshView, ts: Seq<Ipv4>) -> ConfigView {
    let n = migrated_keys(c.network, fresh.legacy_key_id, fresh.now);
    ConfigView {
        network: n,
        server: ServerView {
            host: match listen_host(n, ts) {
                Ok(h) => h,
                Err(_) => "127.0.0.1"@,
            },
            api_key: if n.expose {
                primary_secret(n)
            } else {
                Seq::empty()
            },
            ..c.server
        },
        ..c
    }
}

/// The secrets that the server is started with.
pub open spec fn server_secrets(c: ConfigView) -> Seq<Text> {
    if c.network.expose {
        secrets_of(c.network.api_keys)
    } else {
        Seq::empty()
    }
}

impl Config {
    /// The control panel's address.
    pub fn ui_addr(&self) -> (r: Result<Socket, String>)
        ensures
            err_text(r) == panel_addr(self@.ui.host, self@.ui.port),
    {
        parse_ui_addr(self.ui.host.as_str(), self.ui.port)
    }

    /// Where the control panel listens: what the command line says, else the
    /// environment, else the settings; always on this machine.
    pub fn resolve_ui_bind(
        cli_bind: Option<Socket>,
        env_bind: Option<&str>,
        config: &Config,
    ) -> (r: Result<Socket, String>)
        ensures
            err_text(r) == panel_bind(cli_bind, crate::remotes::opt_str(env_bind), config@),
            r matches Ok(a) ==> a.ip.loopback(),
    {
        let wanted: Result<Socket, String> = match cli_bind {
            Some(a) => Ok(a),
            None => match env_bind {
                Some(raw) => {
                    let t = trim(raw);
                    if !t.as_str().is_empty() {
                        match parse_socket(t.as_str()) {
                            Some(a) => Ok(a),
                            None => {
                                let mut e = "invalid TINYINFERENCE_BIND value: ".to_owned();
                                e.append(raw);
                                e.append(": invalid socket address syntax");
                                Err(e)
                            },
                        }
                    } else {
                        config.ui_addr()
                    }
                },
                None => config.ui_addr(),
            },
        };
        match wanted {
            Ok(a) => Ok(force_loopback_socket(a)),
            Err(e) => Err(e),
        }
    }

    /// Where the settings alone put the control panel; always on this machine.
    pub fn desired_ui_bind(&self) -> (r: Result<Socket, String>)
        ensures
            err_text(r) == panel_bind(None, None, self@),
    {
        match self.ui_addr() {
            Ok(a) => Ok(force_loopback_socket(a)),
            Err(e) => Err(e),
        }
    }

    /// Keeps the control panel on this machine.
    pub fn keep_ui_private(&mut self)
        ensures
            final(self)@ == private_ui(old(self)@),
    {
        let h = trim(self.ui.host.as_str());
        if !same(h.as_str(), "127.0.0.1") && !same(h.as_str(), "localhost") && !same(
            h.as_str(),
            "::1",
        ) {
            self.ui.host = "127.0.0.1".to_owned();
        }
    }

    /// Makes the server's address and key follow the network settings.
    pub fn sync_llama_bind_from_network(&mut self, local: &LocalAddrs, fresh: &Fresh)
        ensures
            final(self)@ == bound(old(self)@, fresh@, local.tailscale@),
    {
        self.network.migrate_api_keys(fresh);
        match self.network.resolve_listen_host(local) {
            Ok(h) => {
                self.server.host = h;
            },
            Err(_) => {
                self.server.host = "127.0.0.1".to_owned();
            },
        }
        if self.network.expose {
            self.server.api_key = match self.network.primary_api_key() {
                Some(k) => k,
                None => String::new(),
            };
        } else {
            self.server.api_key = String::new();
        }
    }

    /// The secrets that the server is started with.
    pub fn llama_api_keys(&self) -> (out: Vec<String>)
        ensures
            texts(out@) == server_secrets(self@),
    {
        if self.network.expose {
            self.network.api_key_secrets()
        } else {
            let out: Vec<String> = Vec::new();
            proof {
                assert(texts(out@) =~= Seq::<Text>::empty());
            }
            out
        }
    }

    /// Brings settings of older versions up to date: the control panel stays on
    /// this machine and the server follows the network settings.
    pub fn migrate_network_expose_to_llama(&mut self, local: &LocalAddrs, fresh: &Fresh)
        ensures
            final(self)@ == migrated(old(self)@, fresh@, local.tailscale@),
    {
        self.network.migrate_api_keys(fresh);
        self.keep_ui_private();
        self.sync_llama_bind_from_network(local, fresh);
    }

    /// What the model is called.
    pub fn model_label(&self) -> (out: String)
        ensures
            out@ == label_of(self@.model.source),
    {
        if self.model.source.is_blank() {
            return "No model selected".to_owned();
        }
        source_label(&self.model.source)
    }

    /// The host of the address that the settings give.
    pub fn effective_host(&self) -> (out: String)
        ensures
            out@ == server_host(self@),
    {
        strip_brackets(trim(self.server.host.as_str()).as_str())
    }

    /// The port that the server listens on.
    pub fn effective_port(&self) -> (r: u16)
        ensures
            r == self@.server.port,
    {
        self.server.port
    }

    /// The address that the server is started on.
    pub fn start_host(&self) -> (out: String)
        ensures
            out@ == launch_host(self@),
    {
        if self.network.expose {
            "127.0.0.1".to_owned()
        } else {
            self.effective_host()
        }
    }

    /// The host under which this machine reaches the server that it started.
    pub fn reach_host(&self) -> (out: String)
        ensures
            out@ == connectable(launch_host(self@)),
    {
        loopback_host(self.start_host().as_str())
    }

    /// The base URL under which this machine reaches the server that it started.
    pub fn start_url(&self) -> (out: String)
        ensures
            out@ == start_base(self@),
    {
        let mut out = "http://".to_owned();
        out.append(format_authority(self.reach_host().as_str(), self.server.port).as_str());
        out
    }

    /// The host of the server's URLs.
    pub fn connect_host(&self) -> (out: String)
        ensures
            out@ == connectable(server_host(self@)),
    {
        loopback_host(self.effective_host().as_str())
    }

    /// Whether the shared address is reached over TLS.
    pub fn uses_tls(&self) -> (r: bool)
        ensures
            r == with_tls(self@),
    {
        let cert: bool = match &self.tls_cert_file {
            Some(p) => !p.as_str().is_empty(),
            None => false,
        };
        let key: bool = match &self.tls_key_file {
            Some(p) => !p.as_str().is_empty(),
            None => false,
        };
        self.network.expose && cert && key
    }

    /// The scheme of the URLs of the shared address.
    pub fn scheme(&self) -> (r: &'static str)
        ensures
            r@ == url_scheme(self@),
    {
        if self.uses_tls() {
            "https"
        } else {
            "http"
        }
    }

    /// The base URL of the server, which a browser can open.
    pub fn endpoint(&self) -> (out: String)
        ensures
            out@ == base_url(self@),
    {
        let mut out = self.scheme().to_owned();
        out.append("://");
        out.append(format_authority(self.connect_host().as_str(), self.server.port).as_str());
        out
    }

    /// What to say of where the server listens.
    pub fn listen_label(&self) -> (out: String)
        ensures
            out@ == listen_text(self@),
    {
        let bind = self.effective_host();
        let mut out = self.scheme().to_owned();
        out.append("://");
        if same(bind.as_str(), "0.0.0.0") || same(bind.as_str(), "::") {
            out.append(bind.as_str());
            out.append(":");
            out.append(number(self.server.port as u64).as_str());
            out.append(" (open via ");
            out.append(loopback_host(bind.as_str()).as_str());
            out.append(")");
        } else {
            out.append(format_authority(bind.as_str(), self.server.port).as_str());
        }
        out
    }

    /// The base URL of the server's API.
    pub fn api_endpoint(&self) -> (out: String)
        ensures
            out@ == base_url(self@) + "/v1"@,
    {
        let mut out = self.endpoint();
        out.append("/v1");
        out
    }

    /// Attaches the files for TLS, or takes them away.
    pub fn set_share_tls(&mut self, paths: Option<(String, String)>)
        ensures
            final(self)@ == (match paths {
                Some(p) => ConfigView {
                    tls_cert_file: Some(p.0@),
                    tls_key_file: Some(p.1@),
                    ..old(self)@
                },
                None => ConfigView { tls_cert_file: None, tls_key_file: None, ..old(self)@ },
            }),
    {
        match paths {
            Some((cert, key)) => {
                self.tls_cert_file = Some(cert);
                self.tls_key_file = Some(key);
            },
            None => {
                self.tls_cert_file = None;
                self.tls_key_file = None;
            },
        }
    }
}

/// The repository or path itself.
pub fn source_label(s: &ModelSource) -> (out: String)
    ensures
        out@ == source_text(s@),
{
    match s {
        ModelSource::HuggingFace(t) => t.clone(),
        ModelSource::Local(t) => t.clone(),
    }
}

/// The settings brought up to date.
pub open spec fn migrated(c: ConfigView, fresh: FreshView, ts: Seq<Ipv4>) -> ConfigView {
    let n = migrated_keys(c.network, fresh.legacy_key_id, fresh.now);
    bound(private_ui(ConfigView { network: n, ..c }), fresh, ts)
}

/// The control panel never listens for other machines, whatever is asked.
pub proof fn law_panel_stays_private(cli: Option<Socket>, env: Option<Text>, c: ConfigView)
    ensures
        panel_bind(cli, env, c) matches Ok(a) ==> a.ip.loopback(),
{
}

/// The port that was asked for is kept.
pub proof fn law_panel_keeps_port(a: Socket, env: Option<Text>, c: ConfigView)
    ensures
        panel_bind(Some(a), env, c) == Ok::<Socket, Text>(loopback_socket(a)),
        loopback_socket(a).port == a.port,
        a.ip.loopback() ==> loopback_socket(a) == a,
{
}

/// While sharing is off, the server is on this machine and takes no key.
pub proof fn law_unshared_server_is_private(c: ConfigView, fresh: FreshView, ts: Seq<Ipv4>)
    requires
        !c.network.expose,
    ensures
        bound(c, fresh, ts).server.host == "127.0.0.1"@,
        bound(c, fresh, ts).server.api_key.len() == 0,
        server_secrets(bound(c, fresh, ts)).len() == 0,
{
}

/// Where sharing cannot find an address, the server stays on this machine,
/// whatever address it had before.
pub proof fn law_bind_fails_closed(c: ConfigView, fresh: FreshView, ts: Seq<Ipv4>)
    requires
        listen_host(migrated_keys(c.network, fresh.legacy_key_id, fresh.now), ts) is Err,
    ensures
        bound(c, fresh, ts).server.host == "127.0.0.1"@,
{
}

/// Following the network settings twice is following them once.
pub proof fn law_bind_is_stable(c: ConfigView, fresh: FreshView, other: FreshView, ts: Seq<Ipv4>)
    ensures
        bound(bound(c, fresh, ts), other, ts) == bound(c, fresh, ts),
{
    crate::keys::law_migrate_keys_once(
        c.network,
        fresh.legacy_key_id,
        other.legacy_key_id,
        fresh.now,
        other.now,
    );
}

/// The server's URLs end in its port. They are encrypted while it is shared with
/// a certificate and a key, and only then; the one that it is started under never
/// is. A wildcard stands in them as this machine, another host as it is.
pub proof fn law_urls_name_the_server(c: ConfigView)
    ensures
        (":"@ + decimal(c.server.port as nat)).is_suffix_of(base_url(c)),
        (":"@ + decimal(c.server.port as nat)).is_suffix_of(start_base(c)),
        "http://"@.is_prefix_of(start_base(c)),
        "https://"@.is_prefix_of(base_url(c)) <==> c.network.expose && (
        c.tls_cert_file matches Some(p) && p.len() > 0) && (c.tls_key_file matches Some(p)
            && p.len() > 0),
        !"https://"@.is_prefix_of(base_url(c)) ==> "http://"@.is_prefix_of(base_url(c)),
        c.server.host == "0.0.0.0"@ && !c.network.expose ==> base_url(c) == "http://127.0.0.1:"@
            + decimal(c.server.port as nat),
        trimmed(c.server.host) == c.server.host && !c.server.host.contains(':')
            && !c.server.host.contains('[') && c.server.host != "0.0.0.0"@ && !c.network.expose
            ==> base_url(c) == "http://"@ + c.server.host + ":"@ + decimal(c.server.port as nat),
        c.network.expose ==> start_base(c) == "http://127.0.0.1:"@ + decimal(
            c.server.port as nat,
        ),
{
    let port = decimal(c.server.port as nat);
    let tail = ":"@ + port;
    reveal_strlit("http");
    reveal_strlit("https");
    reveal_strlit("://");
    reveal_strlit("http://");
    reveal_strlit("https://");
    reveal_strlit(":");
    reveal_strlit("]:");
    reveal_strlit("[");
    lemma_authority_ends(connectable(server_host(c)), c.server.port);
    lemma_authority_ends(connectable(launch_host(c)), c.server.port);
    let u = authority(connectable(server_host(c)), c.server.port);
    let w = authority(connectable(launch_host(c)), c.server.port);
    assert("http"@ + "://"@ =~= "http://"@);
    assert("https"@ + "://"@ =~= "https://"@);
    assert(("http://"@ + w).skip(("http://"@ + w).len() - tail.len()) =~= w.skip(
        w.len() - tail.len(),
    ));
    let b = base_url(c);
    assert(b.skip(b.len() - tail.len()) =~= u.skip(u.len() - tail.len()));
    assert(("http://"@ + w).take(7) =~= "http://"@);
    if with_tls(c) {
        assert(b.take(8) =~= "https://"@);
    } else {
        assert(b.take(7) =~= "http://"@);
        assert(b[4] == ':');
        if "https://"@.is_prefix_of(b) {
            assert(b.take(8)[4] == "https://"@[4]);
        }
    }
    lemma_plain_host("127.0.0.1"@);
    lemma_plain_host("0.0.0.0"@);
    reveal_strlit("127.0.0.1");
    reveal_strlit("0.0.0.0");
    reveal_strlit("http://127.0.0.1:");
    assert("http://"@ + ("127.0.0.1"@ + tail) =~= "http://127.0.0.1:"@ + port);
    reveal_strlit("::");
    assert("127.0.0.1"@.len() != "0.0.0.0"@.len() && "127.0.0.1"@.len() != "::"@.len());
    assert(connectable("127.0.0.1"@) == "127.0.0.1"@);
    if c.server.host == "0.0.0.0"@ {
        assert(trimmed(c.server.host) =~= c.server.host);
    }
    if trimmed(c.server.host) == c.server.host && !c.server.host.contains(':')
        && !c.server.host.contains('[') && c.server.host != "0.0.0.0"@ {
        lemma_plain_host(c.server.host);
        if c.server.host == "::"@ {
            assert(c.server.host[0] == ':');
        }
        assert("http://"@ + (c.server.host + tail) =~= "http://"@ + c.server.host + ":"@ + port);
    }
}

proof fn lemma_authority_ends(host: Text, port: u16)
    ensures
        (":"@ + decimal(port as nat)).is_suffix_of(authority(host, port)),
{
    let h = unbracketed(host);
    let tail = ":"@ + decimal(port as nat);
    let a = authority(host, port);
    reveal_strlit("]:");
    reveal_strlit(":");
    assert(a.skip(a.len() - tail.len()) =~= tail);
}

proof fn lemma_plain_host(h: Text)
    requires
        !h.contains(':') && !h.contains('[') || h == "127.0.0.1"@ || h == "0.0.0.0"@,
    ensures
        unbracketed(h) == h,
        forall|port: u16| #[trigger] authority(h, port) == h + (":"@ + decimal(port as nat)),
{
    reveal_strlit("127.0.0.1");
    reveal_strlit("0.0.0.0");
    reveal_strlit("[");
    reveal_strlit(":");
    if "["@.is_prefix_of(h) {
        assert(h[0] == "["@[0]);
        assert(h.contains(h[0]));
    }
    if occurs(h, ":"@) {
        let i = choose|i: int| crate::text::occurs_at(h, ":"@, i);
        assert(h.subrange(i, i + 1)[0] == h[i]);
        assert(h.contains(h[i]));
    }
    assert forall|port: u16| #[trigger] authority(h, port) == h + (":"@ + decimal(port as nat)) by {
        assert(authority(h, port) =~= h + (":"@ + decimal(port as nat)));
    }
}

} // verus!
