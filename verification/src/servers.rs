//! The servers of the application: which there are, and which is looked at.
use vstd::prelude::*;

use crate::app::{App, AppView, PRIMARY_SERVER_ID};
use crate::bind::{base_url, label_of};
use crate::config::{Config, ConfigView, ServerView};
use crate::instance::{servers, ManagedServer, ManagedView};
use crate::network::InferenceMode;
use crate::slot::{status_word, ServerStatus, SlotView};
use crate::text::{same, Text};

verus! {

broadcast use vstd::string::group_string_axioms;

/// Where the first server of that name stands, from `from` on.
pub open spec fn server_at(s: Seq<ManagedView>, id: Text, from: int) -> Option<int>
    decreases s.len() - from,
{
    if from < 0 || from >= s.len() {
        None
    } else if s[from].id == id {
        Some(from)
    } else {
        server_at(s, id, from + 1)
    }
}

/// Where the first server stands whose process runs, from `from` on.
pub open spec fn running_at(s: Seq<ManagedView>, from: int) -> Option<int>
    decreases s.len() - from,
{
    if from < 0 || from >= s.len() {
        None
    } else if s[from].slot.process is Some {
        Some(from)
    } else {
        running_at(s, from + 1)
    }
}

/// What `server_at` says: the first position with that name.
pub proof fn lemma_server_at(s: Seq<ManagedView>, id: Text, from: int)
    requires
        0 <= from,
    ensures
        server_at(s, id, from) matches Some(i) ==> from <= i < s.len() && s[i].id == id,
        server_at(s, id, from) is None ==> forall|i: int|
            from <= i < s.len() ==> (#[trigger] s[i]).id != id,
    decreases s.len() - from,
{
    if from < s.len() && s[from].id != id {
        lemma_server_at(s, id, from + 1);
    }
}

/// Where the server of a name stands.
pub fn find_server(v: &Vec<ManagedServer>, id: &str) -> (r: Option<usize>)
    ensures
        (match r {
            Some(i) => Some(i as int),
            None => None::<int>,
        }) == server_at(servers(v@), id@, 0),
        r matches Some(i) ==> i < v@.len() && v@[i as int]@.id == id@,
{
    let ghost all = servers(v@);
    let mut i: usize = 0;
    while i < v.len()
        invariant
            all == servers(v@),
            i <= v.len(),
            server_at(all, id@, 0) == server_at(all, id@, i as int),
        decreases v.len() - i,
    {
        proof {
            assert(all[i as int] == v@[i as int]@);
        }
        if same(v[i].id.as_str(), id) {
            return Some(i);
        }
        i = i + 1;
    }
    None
}

/// Where the first server stands whose process runs.
pub fn find_running(v: &Vec<ManagedServer>) -> (r: Option<usize>)
    ensures
        (match r {
            Some(i) => Some(i as int),
            None => None::<int>,
        }) == running_at(servers(v@), 0),
        r matches Some(i) ==> i < v@.len(),
{
    let ghost all = servers(v@);
    let mut i: usize = 0;
    while i < v.len()
        invariant
            all == servers(v@),
            i <= v.len(),
            running_at(all, 0) == running_at(all, i as int),
        decreases v.len() - i,
    {
        proof {
            assert(all[i as int] == v@[i as int]@);
        }
        if v[i].is_running() {
            return Some(i);
        }
        i = i + 1;
    }
    None
}

/// The server beside the first that is looked at, if one is.
pub open spec fn active_extra(a: AppView) -> Option<int> {
    if a.active_server_id == PRIMARY_SERVER_ID@ {
        None
    } else {
        server_at(a.extra_servers, a.active_server_id, 0)
    }
}

/// The configuration that is shown: that of the server looked at, else the one
/// that is edited.
pub open spec fn displayed(a: AppView) -> ConfigView {
    match active_extra(a) {
        Some(i) => a.extra_servers[i].running_config,
        None => match a.running_config {
            Some(c) => c,
            None => a.config,
        },
    }
}

/// A configuration with another port.
pub open spec fn with_port_of(c: ConfigView, o: ConfigView) -> ConfigView {
    ConfigView { server: ServerView { port: o.server.port, ..c.server }, ..c }
}

/// Whether the server looked at runs with something else than what is edited.
/// The port of a server beside the first was given to it, and does not count.
pub open spec fn pending_changes(a: AppView) -> bool {
    if a.active_server_id != PRIMARY_SERVER_ID@ {
        match server_at(a.extra_servers, a.active_server_id, 0) {
            Some(i) => with_port_of(a.extra_servers[i].running_config, a.config) != a.config,
            None => false,
        }
    } else {
        a.running_config matches Some(c) && c != a.config
    }
}

/// The ports of the servers whose processes run.
pub open spec fn running_ports(s: Seq<ManagedView>) -> Seq<u16>
    decreases s.len(),
{
    if s.len() == 0 {
        Seq::empty()
    } else {
        let init = running_ports(s.drop_last());
        if s.last().slot.process is Some {
            init.push(s.last().running_config.server.port)
        } else {
            init
        }
    }
}

/// The ports in use, the first server's before the others.
pub open spec fn ports_in_use(a: AppView) -> Seq<u16> {
    match a.running_config {
        Some(c) => seq![c.server.port] + running_ports(a.extra_servers),
        None => running_ports(a.extra_servers),
    }
}

/// Where the search for a port begins.
pub open spec fn first_port(port: u16) -> u16 {
    if port == 0 {
        1
    } else {
        port
    }
}

/// Whether there is a port from the configured one on that no server uses.
pub open spec fn port_is_free(a: AppView) -> bool {
    exists|p: u16| first_port(a.config.server.port) <= p && !(#[trigger] ports_in_use(a).contains(p))
}

/// The least port from the configured one on that no server uses.
pub open spec fn is_next_port(a: AppView, p: u16) -> bool {
    &&& p >= first_port(a.config.server.port)
    &&& !ports_in_use(a).contains(p)
    &&& forall|q: u16|
        first_port(a.config.server.port) <= q < p ==> #[trigger] ports_in_use(a).contains(q)
}

/// One server, as the control panel shows it.
#[derive(Debug)]
pub struct ServerSummary {
    pub id: String,
    pub model: String,
    pub status: ServerStatus,
    pub status_label: &'static str,
    pub endpoint: String,
    pub api_endpoint: String,
    pub port: u16,
    pub ready: bool,
    pub pid: Option<u32>,
    pub thinking_supported: bool,
    pub active: bool,
}

/// The view of [`ServerSummary`].
pub struct SummaryView {
    pub id: Text,
    pub model: Text,
    pub status: ServerStatus,
    pub status_label: Text,
    pub endpoint: Text,
    pub api_endpoint: Text,
    pub port: u16,
    pub ready: bool,
    pub pid: Option<u32>,
    pub thinking_supported: bool,
    pub active: bool,
}

impl View for ServerSummary {
    type V = SummaryView;

    open spec fn view(&self) -> SummaryView {
        SummaryView {
            id: self.id@,
            model: self.model@,
            status: self.status,
            status_label: self.status_label@,
            endpoint: self.endpoint@,
            api_endpoint: self.api_endpoint@,
            port: self.port,
            ready: self.ready,
            pid: self.pid,
            thinking_supported: self.thinking_supported,
            active: self.active,
        }
    }
}

/// The views of what is shown.
pub open spec fn summaries(v: Seq<ServerSummary>) -> Seq<SummaryView> {
    Seq::new(v.len(), |i: int| v[i]@)
}

/// What is shown of a server.
pub open spec fn summary(id: Text, c: ConfigView, s: SlotView, active: Text) -> SummaryView {
    SummaryView {
        id,
        model: label_of(c.model.source),
        status: s.status,
        status_label: status_word(s.status),
        endpoint: base_url(c),
        api_endpoint: base_url(c) + "/v1"@,
        port: c.server.port,
        ready: s.status == ServerStatus::Ready && s.endpoint_online,
        pid: s.process,
        thinking_supported: s.thinking_supported == Some(true),
        active: active == id,
    }
}

/// What is shown of the servers beside the first: those that stopped are not.
pub open spec fn extra_summaries(s: Seq<ManagedView>, active: Text) -> Seq<SummaryView>
    decreases s.len(),
{
    if s.len() == 0 {
        Seq::empty()
    } else {
        let init = extra_summaries(s.drop_last(), active);
        let m = s.last();
        if m.slot.process is None && m.slot.status == ServerStatus::Stopped {
            init
        } else {
            init.push(summary(m.id, m.running_config, m.slot, active))
        }
    }
}

/// What is shown of all servers.
pub open spec fn all_summaries(a: AppView) -> Seq<SummaryView> {
    let extra = extra_summaries(a.extra_servers, a.active_server_id);
    if a.slot.process is Some || a.running_config is Some {
        let c = match a.running_config {
            Some(c) => c,
            None => a.config,
        };
        seq![summary(PRIMARY_SERVER_ID@, c, a.slot, a.active_server_id)] + extra
    } else {
        extra
    }
}

/// A server that requests can go to.
#[derive(Debug)]
pub struct ServerLookup<'a> {
    pub id: &'a str,
    pub config: &'a Config,
    pub ready: bool,
    pub thinking_supported: bool,
}

/// The view of [`ServerLookup`].
pub struct LookupView {
    pub id: Text,
    pub config: ConfigView,
    pub ready: bool,
    pub thinking_supported: bool,
}

/// The view of a server that was looked up.
pub open spec fn lookup_view(l: Option<ServerLookup<'_>>) -> Option<LookupView> {
    match l {
        Some(l) => Some(
            LookupView {
                id: l.id@,
                config: l.config@,
                ready: l.ready,
                thinking_supported: l.thinking_supported,
            },
        ),
        None => None,
    }
}

/// The server of a name.
pub open spec fn looked_up(a: AppView, id: Text) -> Option<LookupView> {
    if id == PRIMARY_SERVER_ID@ {
        match a.running_config {
            Some(c) => Some(
                LookupView {
                    id,
                    config: c,
                    ready: a.slot.process is Some && a.slot.status == ServerStatus::Ready
                        && a.slot.endpoint_online,
                    thinking_supported: a.slot.thinking_supported == Some(true),
                },
            ),
            None => None,
        }
    } else {
        match server_at(a.extra_servers, id, 0) {
            Some(i) => {
                let m = a.extra_servers[i];
                Some(
                    LookupView {
                        id,
                        config: m.running_config,
                        ready: m.slot.status == ServerStatus::Ready && m.slot.endpoint_online,
                        thinking_supported: m.slot.thinking_supported == Some(true),
                    },
                )
            },
            None => None,
        }
    }
}

/// How many servers have a process that runs.
pub open spec fn running_count(s: Seq<ManagedView>) -> nat
    decreases s.len(),
{
    if s.len() == 0 {
        0
    } else {
        running_count(s.drop_last()) + (if s.last().slot.process is Some {
            1nat
        } else {
            0nat
        })
    }
}

fn summarize(id: &str, config: &Config, slot: &crate::slot::ServerSlot, active: &str) -> (r:
    ServerSummary)
    ensures
        r@ == summary(id@, config@, slot@, active@),
{
    ServerSummary {
        id: id.to_owned(),
        model: config.model_label(),
        status: slot.status,
        status_label: slot.status.label(),
        endpoint: config.endpoint(),
        api_endpoint: config.api_endpoint(),
        port: config.effective_port(),
        ready: slot.status == ServerStatus::Ready && slot.endpoint_online,
        pid: slot.process,
        thinking_supported: slot.thinks(),
        active: same(active, id),
    }
}

impl App {
    fn active_index(&self) -> (r: Option<usize>)
        ensures
            (match r {
                Some(i) => Some(i as int),
                None => None::<int>,
            }) == active_extra(self@),
            r matches Some(i) ==> i < self.extra_servers@.len(),
    {
        if same(self.active_server_id.as_str(), PRIMARY_SERVER_ID) {
            None
        } else {
            find_server(&self.extra_servers, self.active_server_id.as_str())
        }
    }

    /// The configuration that is shown.
    pub fn displayed_config(&self) -> (r: &Config)
        ensures
            r@ == displayed(self@),
    {
        match self.active_index() {
            Some(i) => {
                proof {
                    assert(servers(self.extra_servers@)[i as int] == self.extra_servers@[i as int]@);
                }
                &self.extra_servers[i].running_config
            },
            None => match &self.running_config {
                Some(c) => c,
                None => &self.config,
            },
        }
    }

    /// Whether the server looked at runs with something else than what is
    /// edited.
    pub fn has_pending_changes(&self) -> (r: bool)
        ensures
            r == pending_changes(self@),
    {
        if !same(self.active_server_id.as_str(), PRIMARY_SERVER_ID) {
            match find_server(&self.extra_servers, self.active_server_id.as_str()) {
                Some(i) => {
                    proof {
                        assert(servers(self.extra_servers@)[i as int]
                            == self.extra_servers@[i as int]@);
                    }
                    let mut c = self.extra_servers[i].running_config.clone();
                    c.server.port = self.config.server.port;
                    !c.same(&self.config)
                },
                None => false,
            }
        } else {
            match &self.running_config {
                Some(c) => !c.same(&self.config),
                None => false,
            }
        }
    }

    /// The ports in use.
    pub fn used_ports(&self) -> (out: Vec<u16>)
        ensures
            out@ == ports_in_use(self@),
    {
        let ghost all = servers(self.extra_servers@);
        let mut out: Vec<u16> = Vec::new();
        match &self.running_config {
            Some(c) => {
                out.push(c.effective_port());
            },
            None => {},
        }
        let ghost head = out@;
        let mut i: usize = 0;
        proof {
            assert(all.take(0) =~= Seq::<ManagedView>::empty());
            assert(head + running_ports(all.take(0)) =~= head);
        }
        while i < self.extra_servers.len()
            invariant
                all == servers(self.extra_servers@),
                i <= self.extra_servers.len(),
                out@ == head + running_ports(all.take(i as int)),
            decreases self.extra_servers.len() - i,
        {
            let ghost was = out@;
            proof {
                assert(all.take(i + 1).drop_last() =~= all.take(i as int));
                assert(all.take(i + 1).last() == self.extra_servers@[i as int]@);
            }
            if self.extra_servers[i].is_running() {
                let p: u16 = self.extra_servers[i].port();
                out.push(p);
                proof {
                    assert(out@ =~= head + running_ports(all.take(i as int)).push(p));
                }
            }
            i = i + 1;
        }
        proof {
            assert(all.take(all.len() as int) =~= all);
            match self@.running_config {
                Some(c) => {
                    assert(head =~= seq![c.server.port]);
                },
                None => {
                    assert(head + running_ports(all) =~= running_ports(all));
                },
            }
        }
        out
    }

    /// The least port from the configured one on that no server uses, if there
    /// is one.
    pub fn free_port(&self) -> (r: Option<u16>)
        ensures
            r matches Some(p) ==> is_next_port(self@, p),
            (r is Some) == port_is_free(self@),
    {
        let used = self.used_ports();
        let first: u16 = if self.config.server.port == 0 {
            1
        } else {
            self.config.server.port
        };
        let mut p: u16 = first;
        loop
            invariant
                used@ == ports_in_use(self@),
                first == first_port(self@.config.server.port),
                first <= p,
                forall|q: u16| first <= q < p ==> #[trigger] ports_in_use(self@).contains(q),
            decreases u16::MAX - p,
        {
            let taken: bool = contains_port(&used, p);
            if !taken {
                assert(!ports_in_use(self@).contains(p));
                return Some(p);
            }
            if p == u16::MAX {
                assert forall|q: u16| first <= q implies #[trigger] ports_in_use(self@).contains(
                    q,
                ) by {}
                return None;
            }
            p = p + 1;
        }
    }

    /// The least port from the configured one on that no server uses.
    pub fn allocate_port(&self) -> (p: u16)
        requires
            port_is_free(self@),
        ensures
            is_next_port(self@, p),
    {
        match self.free_port() {
            Some(p) => p,
            None => 0,
        }
    }

    /// Looks at the server of a name.
    pub fn select_server(&mut self, id: &str) -> (r: Result<(), String>)
        ensures
            if id@ == PRIMARY_SERVER_ID@ || server_at(old(self)@.extra_servers, id@, 0) is Some {
                r is Ok && final(self)@ == (AppView { active_server_id: id@, ..old(self)@ })
            } else {
                &&& r matches Err(e)
                &&& e@ == "Unknown server id: "@ + id@
                &&& final(self)@ == old(self)@
            },
    {
        if same(id, PRIMARY_SERVER_ID) || find_server(&self.extra_servers, id).is_some() {
            self.active_server_id = id.to_owned();
            Ok(())
        } else {
            let mut e = "Unknown server id: ".to_owned();
            e.append(id);
            Err(e)
        }
    }

    /// How many servers have a process that runs.
    pub fn running_server_count(&self) -> (n: usize)
        requires
            self.extra_servers@.len() < usize::MAX,
        ensures
            n == running_count(self@.extra_servers) + (if self@.slot.process is Some {
                1nat
            } else {
                0nat
            }),
    {
        let ghost all = servers(self.extra_servers@);
        let mut n: usize = 0;
        let mut i: usize = 0;
        proof {
            assert(all.take(0) =~= Seq::<ManagedView>::empty());
        }
        while i < self.extra_servers.len()
            invariant
                all == servers(self.extra_servers@),
                n <= i <= self.extra_servers.len(),
                n == running_count(all.take(i as int)),
            decreases self.extra_servers.len() - i,
        {
            proof {
                assert(all.take(i + 1).drop_last() =~= all.take(i as int));
                assert(all.take(i + 1).last() == self.extra_servers@[i as int]@);
            }
            if self.extra_servers[i].is_running() {
                n = n + 1;
            }
            i = i + 1;
        }
        proof {
            assert(all.take(all.len() as int) =~= all);
        }
        if self.slot.is_running() {
            n + 1
        } else {
            n
        }
    }

    /// What is shown of all servers.
    pub fn server_summaries(&self) -> (out: Vec<ServerSummary>)
        ensures
            summaries(out@) == all_summaries(self@),
    {
        let ghost all = servers(self.extra_servers@);
        let mut out: Vec<ServerSummary> = Vec::new();
        let active = self.active_server_id.as_str();
        if self.slot.is_running() || self.running_config.is_some() {
            let c = match &self.running_config {
                Some(c) => c,
                None => &self.config,
            };
            out.push(summarize(PRIMARY_SERVER_ID, c, &self.slot, active));
        }
        let ghost head = summaries(out@);
        let mut i: usize = 0;
        proof {
            assert(all.take(0) =~= Seq::<ManagedView>::empty());
            assert(head + extra_summaries(all.take(0), active@) =~= head);
        }
        while i < self.extra_servers.len()
            invariant
                all == servers(self.extra_servers@),
                i <= self.extra_servers.len(),
                summaries(out@) == head + extra_summaries(all.take(i as int), active@),
            decreases self.extra_servers.len() - i,
        {
            let ghost was = summaries(out@);
            let m = &self.extra_servers[i];
            proof {
                assert(all.take(i + 1).drop_last() =~= all.take(i as int));
                assert(all.take(i + 1).last() == self.extra_servers@[i as int]@);
            }
            if m.is_running() || m.slot.status != ServerStatus::Stopped {
                let s = summarize(m.id.as_str(), &m.running_config, &m.slot, active);
                out.push(s);
                proof {
                    let init = extra_summaries(all.take(i as int), active@);
                    assert(summaries(out@) =~= was.push(s@));
                    assert(was.push(s@) =~= head + init.push(s@));
                }
            }
            i = i + 1;
        }
        proof {
            assert(all.take(all.len() as int) =~= all);
            if self@.slot.process is Some || self@.running_config is Some {
                assert(head =~= seq![head[0]]);
            } else {
                assert(head + extra_summaries(all, active@) =~= extra_summaries(all, active@));
            }
        }
        out
    }

    /// The server of a name, for requests to go to.
    pub fn server_by_id(&self, id: &str) -> (r: Option<ServerLookup<'_>>)
        ensures
            lookup_view(r) == looked_up(self@, id@),
    {
        if same(id, PRIMARY_SERVER_ID) {
            return match &self.running_config {
                Some(c) => Some(
                    ServerLookup {
                        id: PRIMARY_SERVER_ID,
                        config: c,
                        ready: self.slot.is_running() && self.slot.status == ServerStatus::Ready
                            && self.slot.endpoint_online,
                        thinking_supported: self.slot.thinks(),
                    },
                ),
                None => None,
            };
        }
        match find_server(&self.extra_servers, id) {
            Some(i) => {
                proof {
                    assert(servers(self.extra_servers@)[i as int] == self.extra_servers@[i as int]@);
                }
                let m = &self.extra_servers[i];
                Some(
                    ServerLookup {
                        id: m.id.as_str(),
                        config: &m.running_config,
                        ready: m.slot.status == ServerStatus::Ready && m.slot.endpoint_online,
                        thinking_supported: m.thinking_supported_flag(),
                    },
                )
            },
            None => None,
        }
    }

    /// Whether the model that answers is known to think. Of a linked server
    /// that is not known.
    pub fn thinking_supported(&self) -> (r: bool)
        ensures
            r == (self@.config.network.inference_mode != InferenceMode::Remote && (
            match active_extra(self@) {
                Some(i) => self@.extra_servers[i].slot.thinking_supported == Some(true),
                None => self@.slot.thinking_supported == Some(true),
            })),
    {
        if self.config.network.inference_mode == InferenceMode::Remote {
            return false;
        }
        match self.active_index() {
            Some(i) => {
                proof {
                    assert(servers(self.extra_servers@)[i as int] == self.extra_servers@[i as int]@);
                }
                self.extra_servers[i].thinking_supported_flag()
            },
            None => self.slot.thinks(),
        }
    }
}

/// Whether a port is among others.
pub fn contains_port(v: &Vec<u16>, p: u16) -> (r: bool)
    ensures
        r == v@.contains(p),
{
    let mut i: usize = 0;
    while i < v.len()
        invariant
            i <= v.len(),
            forall|k: int| 0 <= k < i ==> v@[k] != p,
        decreases v.len() - i,
    {
        if v[i] == p {
            assert(v@[i as int] == p);
            return true;
        }
        i = i + 1;
    }
    false
}

/// There is one port that a further server gets. No other server uses it, and
/// none between the first candidate and it was free.
pub proof fn law_next_port_is_unused(a: AppView, p: u16, q: u16)
    requires
        is_next_port(a, p),
        is_next_port(a, q),
    ensures
        p == q,
        !ports_in_use(a).contains(p),
        forall|r: u16|
            first_port(a.config.server.port) <= r < p ==> #[trigger] ports_in_use(a).contains(r),
{
    if p < q {
        assert(ports_in_use(a).contains(p));
    }
    if q < p {
        assert(ports_in_use(a).contains(q));
    }
}

/// Whether a line of the overview is about a server: its name, the model and the
/// address of the settings that it runs with, and the state of its own process.
pub open spec fn is_about(
    s: SummaryView,
    id: Text,
    c: ConfigView,
    slot: SlotView,
    active: Text,
) -> bool {
    &&& s.id == id
    &&& s.model == label_of(c.model.source)
    &&& s.endpoint == base_url(c)
    &&& s.api_endpoint == base_url(c) + "/v1"@
    &&& s.port == c.server.port
    &&& s.pid == slot.process
    &&& s.status == slot.status
    &&& s.ready <==> slot.status == ServerStatus::Ready && slot.endpoint_online
    &&& s.thinking_supported <==> slot.thinking_supported == Some(true)
    &&& s.active <==> active == id
}

proof fn lemma_extra_told(s: Seq<ManagedView>, active: Text, i: int)
    requires
        0 <= i < s.len(),
        s[i].slot.process is Some || s[i].slot.status != ServerStatus::Stopped,
    ensures
        exists|j: int|
            0 <= j < extra_summaries(s, active).len() && is_about(
                #[trigger] extra_summaries(s, active)[j],
                s[i].id,
                s[i].running_config,
                s[i].slot,
                active,
            ),
    decreases s.len(),
{
    let all = extra_summaries(s, active);
    let init = extra_summaries(s.drop_last(), active);
    let m = s[i];
    if i == s.len() - 1 {
        assert(is_about(all[all.len() - 1], m.id, m.running_config, m.slot, active));
    } else {
        lemma_extra_told(s.drop_last(), active, i);
        let j = choose|j: int|
            0 <= j < init.len() && is_about(
                #[trigger] init[j],
                m.id,
                m.running_config,
                m.slot,
                active,
            );
        assert(all[j] == init[j]);
    }
}

/// Every server that runs, or has something to tell, has a line of its own in the
/// overview, with its own model, port and process.
pub proof fn law_every_server_is_told(a: AppView, i: int)
    requires
        0 <= i < a.extra_servers.len(),
        a.extra_servers[i].slot.process is Some || a.extra_servers[i].slot.status
            != ServerStatus::Stopped,
    ensures
        exists|j: int|
            0 <= j < all_summaries(a).len() && is_about(
                #[trigger] all_summaries(a)[j],
                a.extra_servers[i].id,
                a.extra_servers[i].running_config,
                a.extra_servers[i].slot,
                a.active_server_id,
            ),
        a.running_config matches Some(c) ==> all_summaries(a).len() > 0 && is_about(
            all_summaries(a)[0],
            "main"@,
            c,
            a.slot,
            a.active_server_id,
        ),
{
    let m = a.extra_servers[i];
    let extra = extra_summaries(a.extra_servers, a.active_server_id);
    lemma_extra_told(a.extra_servers, a.active_server_id, i);
    let j = choose|j: int|
        0 <= j < extra.len() && is_about(
            #[trigger] extra[j],
            m.id,
            m.running_config,
            m.slot,
            a.active_server_id,
        );
    let k = j + all_summaries(a).len() - extra.len();
    assert(all_summaries(a)[k] == extra[j]);
}

proof fn lemma_found_first(s: Seq<ManagedView>, id: Text, i: int, from: int)
    requires
        0 <= from <= i < s.len(),
        s[i].id == id,
        forall|j: int| 0 <= j < i ==> (#[trigger] s[j]).id != id,
    ensures
        server_at(s, id, from) == Some(i),
    decreases i - from,
{
    if from < i {
        lemma_found_first(s, id, i, from + 1);
    }
}

/// What is shown is what the server that is looked at runs with: a further server
/// with its own settings, the first with those it was started with, or with those
/// of the page while it does not run.
pub proof fn law_shown_settings_are_the_servers(a: AppView, i: int)
    requires
        0 <= i < a.extra_servers.len(),
        forall|j: int| 0 <= j < i ==> (#[trigger] a.extra_servers[j]).id != a.extra_servers[i].id,
    ensures
        a.active_server_id == a.extra_servers[i].id && a.active_server_id != "main"@ ==> displayed(a)
            == a.extra_servers[i].running_config,
        a.active_server_id == "main"@ && a.running_config is Some ==> displayed(a)
            == a.running_config->0,
        a.active_server_id == "main"@ && a.running_config is None ==> displayed(a) == a.config,
{
    lemma_found_first(a.extra_servers, a.extra_servers[i].id, i, 0);
}

/// The port of every server that runs counts as used, and no other does.
pub proof fn law_running_ports_are_used(a: AppView, p: u16)
    ensures
        ports_in_use(a).contains(p) <==> (a.running_config matches Some(c) && c.server.port == p)
            || exists|i: int|
            0 <= i < a.extra_servers.len() && (#[trigger] a.extra_servers[i]).slot.process is Some
                && a.extra_servers[i].running_config.server.port == p,
{
    let r = running_ports(a.extra_servers);
    lemma_ports_of(a.extra_servers, p);
    match a.running_config {
        Some(c) => {
            let all = seq![c.server.port] + r;
            if all.contains(p) {
                let k = choose|k: int| 0 <= k < all.len() && all[k] == p;
                if k > 0 {
                    assert(r[k - 1] == p);
                }
            }
            if c.server.port == p {
                assert(all[0] == p);
            }
            if r.contains(p) {
                let k = choose|k: int| 0 <= k < r.len() && r[k] == p;
                assert(all[k + 1] == p);
            }
        },
        None => {},
    }
}

proof fn lemma_ports_of(s: Seq<ManagedView>, p: u16)
    ensures
        running_ports(s).contains(p) <==> exists|i: int|
            0 <= i < s.len() && (#[trigger] s[i]).slot.process is Some
                && s[i].running_config.server.port == p,
    decreases s.len(),
{
    if s.len() > 0 {
        let init = s.drop_last();
        let w = running_ports(init);
        let all = running_ports(s);
        lemma_ports_of(init, p);
        if all.contains(p) {
            let k = choose|k: int| 0 <= k < all.len() && all[k] == p;
            if k < w.len() {
                assert(w[k] == p);
                assert(w.contains(p));
                let i = choose|i: int|
                    0 <= i < init.len() && (#[trigger] init[i]).slot.process is Some
                        && init[i].running_config.server.port == p;
                assert(s[i] == init[i]);
            } else {
                assert(s[s.len() - 1].running_config.server.port == p);
            }
        }
        if exists|i: int|
            0 <= i < s.len() && (#[trigger] s[i]).slot.process is Some
                && s[i].running_config.server.port == p {
            let i = choose|i: int|
                0 <= i < s.len() && (#[trigger] s[i]).slot.process is Some
                    && s[i].running_config.server.port == p;
            if i < init.len() {
                assert(init[i] == s[i]);
                let k = choose|k: int| 0 <= k < w.len() && w[k] == p;
                assert(all[k] == p);
            } else {
                assert(all[all.len() - 1] == p);
            }
        }
    }
}

/// Looking a server up by its name finds that server, with the settings that it
/// runs with.
pub proof fn law_lookup_finds_the_named_server(a: AppView, i: int)
    requires
        0 <= i < a.extra_servers.len(),
        a.extra_servers[i].id != "main"@,
        forall|j: int|
            0 <= j < i ==> (#[trigger] a.extra_servers[j]).id != a.extra_servers[i].id,
    ensures
        looked_up(a, a.extra_servers[i].id) matches Some(l) && {
            &&& l.id == a.extra_servers[i].id
            &&& l.config == a.extra_servers[i].running_config
            &&& l.ready <==> a.extra_servers[i].slot.status == ServerStatus::Ready
                && a.extra_servers[i].slot.endpoint_online
            &&& l.thinking_supported <==> a.extra_servers[i].slot.thinking_supported == Some(true)
        },
        a.running_config matches Some(c) ==> (looked_up(a, "main"@) matches Some(l) && l.config == c
            && (l.ready ==> a.slot.status == ServerStatus::Ready && a.slot.endpoint_online)),
        a.running_config is None ==> looked_up(a, "main"@) is None,
{
    lemma_lookup(a.extra_servers, 0, i);
}

proof fn lemma_lookup(s: Seq<ManagedView>, from: int, i: int)
    requires
        0 <= from <= i < s.len(),
        forall|j: int| from <= j < i ==> (#[trigger] s[j]).id != s[i].id,
    ensures
        server_at(s, s[i].id, from) == Some(i),
    decreases i - from,
{
    if from < i {
        lemma_lookup(s, from + 1, i);
    }
}

} // verus!
