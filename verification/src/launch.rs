//! Launching servers and stopping them.
use vstd::prelude::*;

use crate::address::Ipv4;
use crate::app::{
    config_view, detailed, failed, log_with_all, logged, wanting, App, AppView, PRIMARY_SERVER_ID,
};
use crate::bind::{bound, private_ui};
use crate::command::{command_of, quoted, quoted_all, CommandSpec};
use crate::config::{Config, ConfigView, ModelSource, ServerView, SourceView};
use crate::download::{new_download, Download, DownloadView};
use crate::fresh::{Fresh, FreshView};
use crate::instance::{
    failure_view, server_stopped, servers, stop_lines, Failure, FailureView, ManagedServer,
    ManagedView,
};
use crate::listen::LocalAddrs;
use crate::panel::{tls_view, with_share_tls};
use crate::servers::{
    contains_port, find_running, find_server, is_next_port, law_next_port_is_unused, port_is_free,
    ports_in_use, running_at, server_at,
};

use crate::sharing::advertisement;
use crate::slot::{download_view, idle_slot, launched, stopped, ServerStatus};
use crate::text::{decimal, join, joined, number, same, texts, Text};
use crate::validate::config_errors;

verus! {

broadcast use vstd::string::group_string_axioms;

/// Everything that stands against a launch, where of the model's files those in
/// `there` are there.
pub open spec fn launch_errors(
    c: ConfigView,
    ts: Seq<Ipv4>,
    there: Seq<Text>,
    executable_found: bool,
) -> Seq<Text> {
    if executable_found {
        config_errors(c, ts, there)
    } else {
        config_errors(c, ts, there).push("server executable was not found: "@ + c.server.executable)
    }
}

/// The application after a launch was refused.
pub open spec fn blocked(a: AppView, error: Text) -> AppView {
    logged(detailed(failed(a), error), "[start blocked] "@ + error)
}

/// The application with its configuration ready for a launch.
pub open spec fn launch_ready(a: AppView, fresh: FreshView, ts: Seq<Ipv4>) -> AppView {
    AppView { config: bound(private_ui(a.config), fresh, ts), ..a }
}

/// Whether a further launch needs a port of its own.
pub open spec fn needs_port(a: AppView) -> bool {
    a.slot.process is Some || ports_in_use(a).contains(a.config.server.port)
}

/// The least port from the configured one on that no server uses.
pub open spec fn next_port(a: AppView) -> u16 {
    choose|p: u16| is_next_port(a, p)
}

/// The configuration that a server is launched with.
pub open spec fn launch_config(a: AppView) -> ConfigView {
    if needs_port(a) {
        ConfigView { server: ServerView { port: next_port(a), ..a.config.server }, ..a.config }
    } else {
        a.config
    }
}

/// A command as it would be typed.
pub open spec fn typed(c: ConfigView, threads: nat) -> Text {
    let s = command_of(c, threads);
    joined(seq![quoted(s.program)] + quoted_all(s.args), " "@)
}

/// The download that a launch may bring with it.
pub open spec fn watched(c: ConfigView, now: u64) -> Option<DownloadView> {
    match c.model.source {
        SourceView::HuggingFace(repo) => Some(
            new_download(repo, c.model.estimated_bytes, true, now),
        ),
        SourceView::Local(_) => None,
    }
}

/// Watches a launch for a download; a local model is never downloaded.
pub fn watch_download(c: &Config, now: u64) -> (r: Option<Download>)
    ensures
        download_view(r) == watched(c@, now),
{
    match &c.model.source {
        ModelSource::HuggingFace(repo) => Some(
            Download::new(repo.as_str(), c.model.estimated_bytes, true, now),
        ),
        ModelSource::Local(_) => None,
    }
}

/// The application with its first server launched.
pub open spec fn first_launched(a: AppView, c: ConfigView, pid: u32, now: u64) -> AppView {
    let slot = launched(a.slot, pid, watched(c, now));
    let a1 = AppView {
        slot,
        running_config: Some(c),
        active_server_id: PRIMARY_SERVER_ID@,
        ..a
    };
    let a2 = if c.model.source is HuggingFace {
        logged(a1, "model is not in the local cache; downloading"@)
    } else {
        logged(a1, slot.status_detail)
    };
    wanting(a2, advertisement(a2))
}

/// The name of a server beside the first.
pub open spec fn extra_id(n: u64) -> Text {
    "srv-"@ + decimal(n as nat)
}

/// A server beside the first that was just launched.
pub open spec fn extra_server(id: Text, c: ConfigView, pid: u32, now: u64) -> ManagedView {
    ManagedView {
        id,
        running_config: c,
        slot: launched(
            idle_slot(ServerStatus::Starting, ""@, false),
            pid,
            watched(c, now),
        ),
    }
}

/// The application with a server launched beside the first.
pub open spec fn extra_launched(a: AppView, c: ConfigView, pid: u32, now: u64) -> AppView {
    let n = (a.next_server_seq + 1) as u64;
    let id = extra_id(n);
    let s = extra_server(id, c, pid, now);
    let a1 = logged(
        AppView { next_server_seq: n, ..a },
        "started additional llama-server "@ + id + " on :"@ + decimal(c.server.port as nat)
            + " (PID "@ + decimal(pid as nat) + ")"@,
    );
    let a2 = detailed(
        AppView { active_server_id: id, extra_servers: a1.extra_servers.push(s), ..a1 },
        s.slot.status_detail,
    );
    wanting(a2, advertisement(a2))
}

/// The application after a process was begun, or could not be.
pub open spec fn started(
    a: AppView,
    c: ConfigView,
    r: Result<u32, FailureView>,
    now: u64,
) -> AppView {
    match r {
        Ok(pid) => if a.slot.process is None {
            first_launched(a, c, pid, now)
        } else {
            extra_launched(a, c, pid, now)
        },
        Err(f) => logged(detailed(failed(a), f.message), "[launch failed] "@ + f.chain),
    }
}

/// The view of how a process was begun.
pub open spec fn start_view(r: Result<u32, Failure>) -> Result<u32, FailureView> {
    match r {
        Ok(p) => Ok(p),
        Err(f) => Err(f@),
    }
}

/// The server that a stop is about: the one named, else the one looked at.
pub open spec fn stop_name(a: AppView, id: Option<Text>) -> Text {
    match id {
        Some(s) => s,
        None => a.active_server_id,
    }
}

/// The message of a failure, where there is one.
pub open spec fn message_of(e: Option<FailureView>) -> Option<Text> {
    match e {
        Some(f) => Some(f.message),
        None => None,
    }
}

/// The server to look at when the first one ended: one beside it that runs.
pub open spec fn after_first(a: AppView) -> Text {
    if a.active_server_id == PRIMARY_SERVER_ID@ {
        match running_at(a.extra_servers, 0) {
            Some(i) => a.extra_servers[i].id,
            None => a.active_server_id,
        }
    } else {
        a.active_server_id
    }
}

/// The application after its first server was stopped.
pub open spec fn first_stopped(a: AppView, e: Option<FailureView>, tail: Seq<Text>) -> AppView {
    let a1 = AppView {
        running_config: None,
        slot: stopped(a.slot, message_of(e)),
        logs: log_with_all(a.logs, tail),
        ..a
    };
    let a2 = logged(
        a1,
        match e {
            None => "llama-server stopped"@,
            Some(f) => "[stop failed] "@ + f.chain,
        },
    );
    let a3 = AppView { active_server_id: after_first(a2), ..a2 };
    wanting(a3, advertisement(a3))
}

/// The server to look at when one beside the first is gone: the first where it
/// runs, else one beside it that runs.
pub open spec fn fallback(a: AppView) -> Text {
    if a.slot.process is Some {
        PRIMARY_SERVER_ID@
    } else {
        match running_at(a.extra_servers, 0) {
            Some(i) => a.extra_servers[i].id,
            None => PRIMARY_SERVER_ID@,
        }
    }
}

/// The application after a server beside the first was stopped.
pub open spec fn extra_stopped(
    a: AppView,
    i: int,
    e: Option<FailureView>,
    tail: Seq<Text>,
) -> AppView {
    let s = a.extra_servers[i];
    let a1 = AppView {
        extra_servers: a.extra_servers.remove(i),
        logs: log_with_all(a.logs, stop_lines(s, e, tail)),
        ..a
    };
    let a2 = detailed(a1, server_stopped(s, e).slot.status_detail);
    let a3 = if a.active_server_id == s.id {
        AppView { active_server_id: fallback(a2), ..a2 }
    } else {
        a2
    };
    wanting(a3, advertisement(a3))
}

/// The application after a server was stopped; a name that no server has
/// changes nothing.
pub open spec fn server_was_stopped(
    a: AppView,
    id: Option<Text>,
    e: Option<FailureView>,
    tail: Seq<Text>,
) -> AppView {
    let name = stop_name(a, id);
    if name == PRIMARY_SERVER_ID@ {
        if a.slot.process is None {
            a
        } else {
            first_stopped(a, e, tail)
        }
    } else {
        match server_at(a.extra_servers, name, 0) {
            Some(i) => extra_stopped(a, i, e, tail),
            None => a,
        }
    }
}

impl App {
    /// Whether a launch may go on, or everything that stands against it.
    pub fn validate_for_launch(&self, local: &LocalAddrs, there: &Vec<String>, executable_found: bool) -> (r:
        Result<(), String>)
        ensures
            ({
                let errors = launch_errors(
                    self@.config,
                    local.tailscale@,
                    texts(there@),
                    executable_found,
                );
                if errors.len() == 0 {
                    r is Ok
                } else {
                    r matches Err(e) && e@ == joined(errors, "; "@)
                }
            }),
    {
        let mut errors = self.config.validate(local, there);
        if !executable_found {
            let ghost was = texts(errors@);
            let mut m = "server executable was not found: ".to_owned();
            m.append(self.config.server.executable.as_str());
            errors.push(m);
            proof {
                assert(texts(errors@) =~= was.push(m@));
            }
        }
        if errors.len() == 0 {
            Ok(())
        } else {
            Err(join(&errors, "; "))
        }
    }

    fn block_start(&mut self, error: &str)
        ensures
            final(self)@ == blocked(old(self)@, error@),
    {
        self.slot.status = ServerStatus::Failed;
        self.slot.status_detail = error.to_owned();
        let mut line = "[start blocked] ".to_owned();
        line.append(error);
        self.push_log(line.as_str());
    }

    /// Begins a launch: refuses it where something stands against it, else makes
    /// the configuration ready. Says whether to go on.
    pub fn begin_start(
        &mut self,
        local: &LocalAddrs,
        fresh: &Fresh,
        there: &Vec<String>,
        executable_found: bool,
    ) -> (go: bool)
        ensures
            ({
                let errors = launch_errors(
                    old(self)@.config,
                    local.tailscale@,
                    texts(there@),
                    executable_found,
                );
                &&& go == (errors.len() == 0)
                &&& final(self)@ == (if errors.len() == 0 {
                    launch_ready(old(self)@, fresh@, local.tailscale@)
                } else {
                    blocked(old(self)@, joined(errors, "; "@))
                })
            }),
    {
        match self.validate_for_launch(local, there, executable_found) {
            Err(e) => {
                self.block_start(e.as_str());
                false
            },
            Ok(()) => {
                self.config.keep_ui_private();
                self.config.sync_llama_bind_from_network(local, fresh);
                true
            },
        }
    }

    /// Goes on with a launch once the files for TLS are there: gives what to
    /// launch, with a port of its own where the configured one is in use.
    pub fn prepare_launch(&mut self, tls: Result<(String, String), String>, threads: usize) -> (r:
        Option<Config>)
        requires
            needs_port(old(self)@) ==> port_is_free(old(self)@),
        ensures
            ({
                let a = AppView {
                    config: with_share_tls(old(self)@.config, tls_view(tls)),
                    ..old(self)@
                };
                match tls_view(tls) {
                    Err(e) if old(self)@.config.network.expose => r is None && final(self)@
                        == blocked(a, "could not prepare share TLS certificate: "@ + e),
                    _ => {
                        &&& config_view(r) == Some(launch_config(a))
                        &&& final(self)@ == logged(
                            a,
                            "$ "@ + typed(launch_config(a), threads as nat),
                        )
                    },
                }
            }),
    {
        match self.sync_share_tls(tls) {
            Err(e) => {
                self.block_start(e.as_str());
                return None;
            },
            Ok(()) => {},
        }
        let ghost a = self@;
        proof {
            assert(ports_in_use(a) == ports_in_use(old(self)@));
            if port_is_free(old(self)@) {
                let p = choose|p: u16|
                    crate::servers::first_port(old(self)@.config.server.port) <= p && !(
                    #[trigger] ports_in_use(old(self)@).contains(p));
                assert(!ports_in_use(a).contains(p));
                assert(port_is_free(a));
            }
        }
        let mut c = self.config.clone();
        let used = self.used_ports();
        if self.slot.is_running() || contains_port(&used, self.config.server.port) {
            let p: u16 = self.allocate_port();
            proof {
                law_next_port_is_unused(a, p, next_port(a));
            }
            c.server.port = p;
        }
        let mut line = "$ ".to_owned();
        line.append(CommandSpec::from_config_with_threads(&c, threads).display().as_str());
        self.push_log(line.as_str());
        Some(c)
    }

    /// Ends a launch, after the process was begun or could not be.
    pub fn finish_start(&mut self, config: Config, r: Result<u32, Failure>, now: u64)
        requires
            old(self).next_server_seq < u64::MAX,
        ensures
            final(self)@ == started(old(self)@, config@, start_view(r), now),
    {
        match r {
            Err(f) => {
                self.slot.status = ServerStatus::Failed;
                self.slot.status_detail = f.message;
                let mut line = "[launch failed] ".to_owned();
                line.append(f.chain.as_str());
                self.push_log(line.as_str());
            },
            Ok(pid) => {
                let download = watch_download(&config, now);
                if !self.slot.is_running() {
                    let fetching: bool = download.is_some();
                    self.slot.launch(pid, download);
                    self.running_config = Some(config);
                    self.active_server_id = PRIMARY_SERVER_ID.to_owned();
                    if fetching {
                        self.push_log("model is not in the local cache; downloading");
                    } else {
                        let detail = self.slot.status_detail.clone();
                        self.push_log(detail.as_str());
                    }
                } else {
                    self.launch_extra(config, pid, download);
                }
                self.sync_mdns_advertise();
            },
        }
    }

    fn launch_extra(&mut self, config: Config, pid: u32, download: Option<Download>)
        requires
            old(self).next_server_seq < u64::MAX,
        ensures
            final(self)@ == ({
                let a = old(self)@;
                let n = (a.next_server_seq + 1) as u64;
                let id = extra_id(n);
                let s = ManagedView {
                    id,
                    running_config: config@,
                    slot: launched(
                        idle_slot(ServerStatus::Starting, ""@, false),
                        pid,
                        download_view(download),
                    ),
                };
                let a1 = logged(
                    AppView { next_server_seq: n, ..a },
                    "started additional llama-server "@ + id + " on :"@ + decimal(
                        config@.server.port as nat,
                    ) + " (PID "@ + decimal(pid as nat) + ")"@,
                );
                detailed(
                    AppView { active_server_id: id, extra_servers: a1.extra_servers.push(s), ..a1 },
                    s.slot.status_detail,
                )
            }),
    {
        self.next_server_seq = self.next_server_seq + 1;
        let mut id = "srv-".to_owned();
        id.append(number(self.next_server_seq).as_str());
        let port: u16 = config.effective_port();
        let server = ManagedServer::new_launching(id.clone(), config, pid, download);
        let mut line = "started additional llama-server ".to_owned();
        line.append(id.as_str());
        line.append(" on :");
        line.append(number(port as u64).as_str());
        line.append(" (PID ");
        line.append(number(pid as u64).as_str());
        line.append(")");
        self.push_log(line.as_str());
        self.active_server_id = id;
        self.slot.status_detail = server.slot.status_detail.clone();
        let ghost was = servers(self.extra_servers@);
        let ghost sv = server@;
        self.extra_servers.push(server);
        proof {
            assert(servers(self.extra_servers@) =~= was.push(sv));
        }
    }

    /// The process that a stop is about, if one runs.
    pub fn stop_target(&self, id: Option<&str>) -> (r: Option<u32>)
        ensures
            r == ({
                let name = stop_name(self@, crate::slot::opt_view(id));
                if name == PRIMARY_SERVER_ID@ {
                    self@.slot.process
                } else {
                    match server_at(self@.extra_servers, name, 0) {
                        Some(i) => self@.extra_servers[i].slot.process,
                        None => None,
                    }
                }
            }),
    {
        let name: &str = match id {
            Some(s) => s,
            None => self.active_server_id.as_str(),
        };
        if same(name, PRIMARY_SERVER_ID) {
            return self.slot.process;
        }
        match find_server(&self.extra_servers, name) {
            Some(i) => {
                proof {
                    assert(servers(self.extra_servers@)[i as int] == self.extra_servers@[i as int]@);
                }
                self.extra_servers[i].slot.process
            },
            None => None,
        }
    }

    /// Takes in that a server was stopped, or could not be: `id` is the one that
    /// was named, and `tail` the last lines that its process printed.
    pub fn stop_server(&mut self, id: Option<&str>, error: &Option<Failure>, tail: Vec<String>)
        ensures
            final(self)@ == server_was_stopped(
                old(self)@,
                crate::slot::opt_view(id),
                failure_view(*error),
                texts(tail@),
            ),
    {
        let name = match id {
            Some(s) => s.to_owned(),
            None => self.active_server_id.clone(),
        };
        if same(name.as_str(), PRIMARY_SERVER_ID) {
            if self.slot.is_running() {
                self.stop_first(error, &tail);
            }
            return;
        }
        match find_server(&self.extra_servers, name.as_str()) {
            Some(i) => self.stop_extra(i, error, tail),
            None => {},
        }
    }

    fn stop_first(&mut self, error: &Option<Failure>, tail: &Vec<String>)
        ensures
            final(self)@ == first_stopped(old(self)@, failure_view(*error), texts(tail@)),
    {
        self.running_config = None;
        self.push_logs(tail);
        match error {
            None => {
                self.slot.stop(None);
                self.push_log("llama-server stopped");
            },
            Some(f) => {
                self.slot.stop(Some(f.message.as_str()));
                let mut line = "[stop failed] ".to_owned();
                line.append(f.chain.as_str());
                self.push_log(line.as_str());
            },
        }
        if same(self.active_server_id.as_str(), PRIMARY_SERVER_ID) {
            match find_running(&self.extra_servers) {
                Some(i) => {
                    proof {
                        assert(servers(self.extra_servers@)[i as int]
                            == self.extra_servers@[i as int]@);
                    }
                    self.active_server_id = self.extra_servers[i].id.clone();
                },
                None => {},
            }
        }
        self.sync_mdns_advertise();
    }

    /// Looks at the first server where it runs, else at one beside it that does.
    pub fn look_elsewhere(&mut self)
        ensures
            final(self)@ == (AppView { active_server_id: fallback(old(self)@), ..old(self)@ }),
    {
        if self.slot.is_running() {
            self.active_server_id = PRIMARY_SERVER_ID.to_owned();
            return;
        }
        match find_running(&self.extra_servers) {
            Some(i) => {
                proof {
                    assert(servers(self.extra_servers@)[i as int] == self.extra_servers@[i as int]@);
                }
                self.active_server_id = self.extra_servers[i].id.clone();
            },
            None => {
                self.active_server_id = PRIMARY_SERVER_ID.to_owned();
            },
        }
    }

    fn stop_extra(&mut self, i: usize, error: &Option<Failure>, tail: Vec<String>)
        requires
            i < old(self).extra_servers@.len(),
        ensures
            final(self)@ == extra_stopped(
                old(self)@,
                i as int,
                failure_view(*error),
                texts(tail@),
            ),
    {
        let ghost was = servers(self.extra_servers@);
        let mut server = self.extra_servers.remove(i);
        proof {
            assert(servers(self.extra_servers@) =~= was.remove(i as int));
            assert(was[i as int] == server@);
        }
        let lines = server.stop(error, tail);
        self.push_logs(&lines);
        self.slot.status_detail = server.slot.status_detail;
        if same(self.active_server_id.as_str(), server.id.as_str()) {
            self.look_elsewhere();
        }
        self.sync_mdns_advertise();
    }

    /// The servers to stop when the application ends, in order.
    pub fn shutdown(&self) -> (out: Vec<String>)
        ensures
            texts(out@) == shutdown_order(self@),
    {
        let ghost all = servers(self.extra_servers@);
        let mut out: Vec<String> = Vec::new();
        if self.slot.is_running() {
            out.push(PRIMARY_SERVER_ID.to_owned());
        }
        let ghost head = texts(out@);
        let mut i: usize = 0;
        proof {
            assert(head + Seq::new(0, |k: int| all[k].id) =~= head);
        }
        while i < self.extra_servers.len()
            invariant
                all == servers(self.extra_servers@),
                i <= self.extra_servers.len(),
                texts(out@) == head + Seq::new(i as nat, |k: int| all[k].id),
            decreases self.extra_servers.len() - i,
        {
            let ghost was = texts(out@);
            let id = self.extra_servers[i].id.clone();
            out.push(id);
            proof {
                assert(all[i as int] == self.extra_servers@[i as int]@);
                assert(texts(out@) =~= was.push(id@));
                assert(was.push(id@) =~= head + Seq::new((i + 1) as nat, |k: int| all[k].id));
            }
            i = i + 1;
        }
        proof {
            if self@.slot.process is Some {
                assert(head =~= seq![PRIMARY_SERVER_ID@]);
            } else {
                assert(head =~= Seq::<Text>::empty());
            }
            assert(texts(out@) =~= shutdown_order(self@));
        }
        out
    }
}

/// The servers to stop when the application ends: the first where it runs, then
/// all others.
pub open spec fn shutdown_order(a: AppView) -> Seq<Text> {
    let rest = Seq::new(a.extra_servers.len(), |i: int| a.extra_servers[i].id);
    if a.slot.process is Some {
        seq![PRIMARY_SERVER_ID@] + rest
    } else {
        rest
    }
}

/// A further server never takes a port that another one uses.
pub proof fn law_launch_avoids_used_ports(a: AppView)
    requires
        needs_port(a) ==> port_is_free(a),
    ensures
        !ports_in_use(a).contains(launch_config(a).server.port),
{
    if needs_port(a) {
        lemma_next_port(a);
    }
}

proof fn lemma_next_port(a: AppView)
    requires
        port_is_free(a),
    ensures
        is_next_port(a, next_port(a)),
{
    let first = crate::servers::first_port(a.config.server.port);
    let p = choose|p: u16| first <= p && !(#[trigger] ports_in_use(a).contains(p));
    lemma_least_port(a, first, p);
}

proof fn lemma_least_port(a: AppView, from: u16, p: u16)
    requires
        crate::servers::first_port(a.config.server.port) <= from <= p,
        !ports_in_use(a).contains(p),
        forall|q: u16|
            crate::servers::first_port(a.config.server.port) <= q < from
                ==> #[trigger] ports_in_use(a).contains(q),
    ensures
        exists|r: u16| is_next_port(a, r),
    decreases p - from,
{
    if ports_in_use(a).contains(from) {
        assert(from < p);
        lemma_least_port(a, (from + 1) as u16, p);
    } else {
        assert(is_next_port(a, from));
    }
}

/// Once stopped, the first server runs no more, and no configuration is left of
/// it.
pub proof fn law_stop_leaves_nothing(a: AppView, e: Option<FailureView>, tail: Seq<Text>)
    ensures
        ({
            let b = server_was_stopped(a, Some(PRIMARY_SERVER_ID@), e, tail);
            &&& b.slot.process is None
            &&& (a.slot.process is Some ==> b.running_config is None)
            &&& b.config == a.config
            &&& b.extra_servers == a.extra_servers
        }),
{
}

/// A server that was started runs with the settings that it was started with, as
/// the process that was made, and is looked at. The first that runs is the first
/// server; another one is put beside it and changes none of the servers that run.
pub proof fn law_started_server_runs(a: AppView, c: ConfigView, pid: u32, now: u64)
    requires
        a.next_server_seq < u64::MAX,
    ensures
        ({
            let b = started(a, c, Ok(pid), now);
            let n = a.extra_servers.len() as int;
            &&& b.config == a.config
            &&& a.slot.process is None ==> b.slot.process == Some(pid) && b.running_config == Some(c)
                && b.active_server_id == "main"@ && b.extra_servers == a.extra_servers
            &&& a.slot.process is Some ==> {
                &&& b.extra_servers.len() == n + 1
                &&& b.extra_servers[n].running_config == c
                &&& b.extra_servers[n].slot.process == Some(pid)
                &&& b.active_server_id == b.extra_servers[n].id
                &&& b.next_server_seq == a.next_server_seq + 1
                &&& b.extra_servers[n].id == "srv-"@ + decimal(b.next_server_seq as nat)
                &&& b.slot.process == a.slot.process
                &&& b.running_config == a.running_config
                &&& forall|j: int| 0 <= j < n ==> #[trigger] b.extra_servers[j] == a.extra_servers[j]
            }
        }),
{
}

/// A server that could not be started leaves the others and the settings as they
/// are.
pub proof fn law_failed_start_changes_no_server(
    a: AppView,
    c: ConfigView,
    f: FailureView,
    now: u64,
)
    ensures
        ({
            let b = started(a, c, Err(f), now);
            &&& b.config == a.config
            &&& b.running_config == a.running_config
            &&& b.extra_servers == a.extra_servers
            &&& b.slot.process == a.slot.process
            &&& b.slot.status == ServerStatus::Failed
            &&& b.slot.status_detail == f.message
        }),
{
}

/// A server is started with the settings of the page; only the port may be
/// another, and only where that of the page is taken or a server runs already.
pub proof fn law_launch_takes_the_settings(a: AppView)
    ensures
        ({
            let c = launch_config(a);
            &&& c == (ConfigView {
                server: ServerView { port: c.server.port, ..a.config.server },
                ..a.config
            })
            &&& a.slot.process is None && !ports_in_use(a).contains(a.config.server.port)
                ==> c == a.config
        }),
{
}

/// Stopping a further server takes that server away and leaves the others as they
/// are, the first one too.
pub proof fn law_stop_takes_one_server(
    a: AppView,
    i: int,
    e: Option<FailureView>,
    tail: Seq<Text>,
)
    requires
        0 <= i < a.extra_servers.len(),
        a.extra_servers[i].id != "main"@,
        forall|j: int| 0 <= j < i ==> (#[trigger] a.extra_servers[j]).id != a.extra_servers[i].id,
    ensures
        ({
            let b = server_was_stopped(a, Some(a.extra_servers[i].id), e, tail);
            &&& b.extra_servers.len() == a.extra_servers.len() - 1
            &&& forall|j: int| 0 <= j < i ==> #[trigger] b.extra_servers[j] == a.extra_servers[j]
            &&& forall|j: int|
                i <= j < b.extra_servers.len() ==> #[trigger] b.extra_servers[j]
                    == a.extra_servers[j + 1]
            &&& b.running_config == a.running_config
            &&& b.slot.process == a.slot.process
            &&& b.config == a.config
            &&& a.active_server_id != a.extra_servers[i].id ==> b.active_server_id
                == a.active_server_id
        }),
{
    lemma_stop_place(a.extra_servers, a.extra_servers[i].id, i, 0);
}

proof fn lemma_stop_place(s: Seq<ManagedView>, id: Text, i: int, from: int)
    requires
        0 <= from <= i < s.len(),
        s[i].id == id,
        forall|j: int| 0 <= j < i ==> (#[trigger] s[j]).id != id,
    ensures
        server_at(s, id, from) == Some(i),
    decreases i - from,
{
    if from < i {
        lemma_stop_place(s, id, i, from + 1);
    }
}

/// Every server that runs is stopped in the end, the first one first.
pub proof fn law_shutdown_stops_all(a: AppView)
    ensures
        a.slot.process is Some ==> shutdown_order(a).len() > 0 && shutdown_order(a)[0] == "main"@,
        forall|i: int|
            0 <= i < a.extra_servers.len() ==> shutdown_order(a).contains(
                (#[trigger] a.extra_servers[i]).id,
            ),
{
    let all = shutdown_order(a);
    assert forall|i: int| 0 <= i < a.extra_servers.len() implies all.contains(
        (#[trigger] a.extra_servers[i]).id,
    ) by {
        let k = i + all.len() - a.extra_servers.len();
        assert(all[k] == a.extra_servers[i].id);
    }
}

} // verus!
