//! One managed server: the configuration it was launched with, and its slot.
use vstd::prelude::*;

use crate::bind::{label_of, listen_text};
use crate::config::{Config, ConfigView};
use crate::download::Download;
use crate::slot::{
    download_view, exited, idle_slot, launched, line_texts, lines, lines_seen, moment, moment_wants,
    stopped, Arrivals, ArrivalsView, Exit, ExitView, LineView, LogLine, ServerSlot, ServerStatus,
    SlotView, Wanted,
};
use crate::text::{decimal, number, texts, Text};

verus! {

broadcast use vstd::string::group_string_axioms;

/// Why something outside failed: in short, and with all its causes.
#[derive(Debug)]
pub struct Failure {
    pub message: String,
    pub chain: String,
}

/// The view of [`Failure`].
pub struct FailureView {
    pub message: Text,
    pub chain: Text,
}

impl View for Failure {
    type V = FailureView;

    open spec fn view(&self) -> FailureView {
        FailureView { message: self.message@, chain: self.chain@ }
    }
}

/// The view of a failure, where there is one.
pub open spec fn failure_view(f: Option<Failure>) -> Option<FailureView> {
    match f {
        Some(f) => Some(f@),
        None => None,
    }
}

/// A server with the configuration that it was launched with.
#[derive(Debug)]
pub struct ManagedServer {
    pub id: String,
    pub running_config: Config,
    pub slot: ServerSlot,
}

/// The view of [`ManagedServer`].
#[verifier::ext_equal]
pub struct ManagedView {
    pub id: Text,
    pub running_config: ConfigView,
    pub slot: SlotView,
}

impl View for ManagedServer {
    type V = ManagedView;

    open spec fn view(&self) -> ManagedView {
        ManagedView {
            id: self.id@,
            running_config: self.running_config@,
            slot: self.slot@,
        }
    }
}

/// The views of servers.
pub open spec fn servers(v: Seq<ManagedServer>) -> Seq<ManagedView> {
    Seq::new(v.len(), |i: int| v[i]@)
}

/// The slot after it is known whether its process ended.
pub open spec fn exit_seen(s: SlotView, e: ExitView) -> SlotView {
    match e {
        ExitView::Exited { success, code } if s.process is Some => exited(s, success, code),
        ExitView::Unknown(m) if s.process is Some => SlotView {
            status: ServerStatus::Failed,
            status_detail: m,
            ..s
        },
        _ => s,
    }
}

/// Whether a process is known to have ended.
pub open spec fn ends(s: SlotView, e: ExitView) -> bool {
    s.process is Some && e is Exited
}

/// A line with the port in front.
pub open spec fn port_line(port: u16, text: Text) -> Text {
    "["@ + decimal(port as nat) + "] "@ + text
}

/// What a server prints and hands over in a moment.
#[derive(Debug)]
pub struct ServerNews {
    /// The lines it printed.
    pub logs: Vec<LogLine>,
    pub exit: Exit,
    /// The lines it printed until it ended.
    pub tail: Vec<String>,
    pub arrived: Arrivals,
}

/// The view of [`ServerNews`].
pub struct NewsView {
    pub logs: Seq<LineView>,
    pub exit: ExitView,
    pub tail: Seq<Text>,
    pub arrived: ArrivalsView,
}

impl View for ServerNews {
    type V = NewsView;

    open spec fn view(&self) -> NewsView {
        NewsView {
            logs: lines(self.logs@),
            exit: self.exit@,
            tail: texts(self.tail@),
            arrived: self.arrived@,
        }
    }
}

impl ServerNews {
    /// No news of a process that goes on.
    pub fn none() -> (r: ServerNews)
        ensures
            r@ == no_news(),
    {
        let r = ServerNews {
            logs: Vec::new(),
            exit: Exit::Running,
            tail: Vec::new(),
            arrived: Arrivals::none(),
        };
        proof {
            assert(lines(r.logs@) =~= Seq::<LineView>::empty());
            assert(texts(r.tail@) =~= Seq::<Text>::empty());
        }
        r
    }
}

/// No news of a process that goes on.
pub open spec fn no_news() -> NewsView {
    NewsView {
        logs: Seq::empty(),
        exit: ExitView::Running,
        tail: Seq::empty(),
        arrived: ArrivalsView {
            listing: None,
            scan: None,
            probe: None,
            thinking: None,
            usage: None,
        },
    }
}

/// The slot before it takes in what arrived: the lines are read, and it is
/// known whether the process ended.
pub open spec fn heard(s: SlotView, n: NewsView, now: u64) -> SlotView {
    exit_seen(SlotView { throughput: lines_seen(s.throughput, n.logs, now), ..s }, n.exit)
}

/// The server after a moment.
pub open spec fn server_moment(s: ManagedView, n: NewsView, now: u64) -> ManagedView {
    ManagedView {
        slot: moment(
            heard(s.slot, n, now),
            n.arrived,
            Some(listen_text(s.running_config)),
            label_of(s.running_config.model.source),
            now,
        ),
        ..s
    }
}

/// What is to be done for the server after a moment.
pub open spec fn server_wants(s: ManagedView, n: NewsView, now: u64) -> Wanted {
    moment_wants(
        heard(s.slot, n, now),
        n.arrived,
        Some(listen_text(s.running_config)),
        label_of(s.running_config.model.source),
        now,
    )
}

/// The lines that a moment adds to the log.
pub open spec fn server_lines(s: ManagedView, n: NewsView, now: u64) -> Seq<Text> {
    if ends(s.slot, n.exit) {
        line_texts(n.logs) + n.tail + seq![
            port_line(s.running_config.server.port, heard(s.slot, n, now).status_detail),
        ]
    } else {
        line_texts(n.logs)
    }
}

/// The lines that are left when a server is stopped.
pub open spec fn stop_lines(s: ManagedView, error: Option<FailureView>, tail: Seq<Text>) -> Seq<
    Text,
> {
    if s.slot.process is None {
        Seq::empty()
    } else {
        let port = s.running_config.server.port;
        match error {
            None => tail.push(port_line(port, "llama-server stopped"@)),
            Some(e) => tail.push(port_line(port, "[stop failed] "@ + e.chain)),
        }
    }
}

/// The server after it was stopped.
pub open spec fn server_stopped(s: ManagedView, error: Option<FailureView>) -> ManagedView {
    if s.slot.process is None {
        s
    } else {
        ManagedView {
            slot: stopped(
                s.slot,
                match error {
                    Some(e) => Some(e.message),
                    None => None,
                },
            ),
            ..s
        }
    }
}

pub(crate) fn with_port(port: u16, text: &str) -> (out: String)
    ensures
        out@ == port_line(port, text@),
{
    let mut out = "[".to_owned();
    out.append(number(port as u64).as_str());
    out.append("] ");
    out.append(text);
    out
}

pub(crate) fn take_texts(v: Vec<LogLine>) -> (out: Vec<String>)
    ensures
        texts(out@) == line_texts(lines(v@)),
{
    let mut out: Vec<String> = Vec::new();
    let mut i: usize = 0;
    while i < v.len()
        invariant
            i <= v.len(),
            out.len() == i,
            forall|k: int| 0 <= k < i ==> (#[trigger] out@[k])@ == v@[k]@.text,
        decreases v.len() - i,
    {
        out.push(v[i].text.clone());
        i = i + 1;
    }
    proof {
        assert(texts(out@) =~= line_texts(lines(v@)));
    }
    out
}

impl ServerSlot {
    /// Takes in whether the process ended; says whether it did.
    pub fn see_exit(&mut self, e: Exit) -> (ended: bool)
        ensures
            final(self)@ == exit_seen(old(self)@, e@),
            ended == ends(old(self)@, e@),
    {
        if self.process.is_none() {
            return false;
        }
        match e {
            Exit::Running => false,
            Exit::Exited { success, code } => {
                self.exit(success, code);
                true
            },
            Exit::Unknown(m) => {
                self.status = ServerStatus::Failed;
                self.status_detail = m;
                false
            },
        }
    }
}

impl ManagedServer {
    /// A server that is ready, without a process.
    pub fn stub_ready(id: String, running_config: Config) -> (r: ManagedServer)
        ensures
            r@ == (ManagedView {
                id: id@,
                running_config: running_config@,
                slot: idle_slot(ServerStatus::Ready, ""@, true),
            }),
    {
        ManagedServer { id, running_config, slot: ServerSlot::idle(ServerStatus::Ready, "", true) }
    }

    /// A server whose process just began.
    pub fn new_launching(
        id: String,
        running_config: Config,
        pid: u32,
        download: Option<Download>,
    ) -> (r: ManagedServer)
        ensures
            r@ == (ManagedView {
                id: id@,
                running_config: running_config@,
                slot: launched(
                    idle_slot(ServerStatus::Starting, ""@, false),
                    pid,
                    download_view(download),
                ),
            }),
    {
        let mut slot = ServerSlot::idle(ServerStatus::Starting, "", false);
        slot.launch(pid, download);
        ManagedServer { id, running_config, slot }
    }

    /// The model that the server runs.
    pub fn model_label(&self) -> (out: String)
        ensures
            out@ == label_of(self@.running_config.model.source),
    {
        self.running_config.model_label()
    }

    /// The port that the server listens on.
    pub fn port(&self) -> (r: u16)
        ensures
            r == self@.running_config.server.port,
    {
        self.running_config.effective_port()
    }

    /// Whether its process runs.
    pub fn is_running(&self) -> (r: bool)
        ensures
            r == (self@.slot.process is Some),
    {
        self.slot.is_running()
    }

    /// Whether its model is known to think.
    pub fn thinking_supported_flag(&self) -> (r: bool)
        ensures
            r == (self@.slot.thinking_supported == Some(true)),
    {
        self.slot.thinks()
    }

    /// One moment: reads what the process printed, notices its end, and takes
    /// in what arrived. Gives the lines for the log and what is to be done.
    pub fn tick(&mut self, news: ServerNews, now: u64) -> (r: (Vec<String>, Wanted))
        ensures
            final(self)@ == server_moment(old(self)@, news@, now),
            texts(r.0@) == server_lines(old(self)@, news@, now),
            r.1 == server_wants(old(self)@, news@, now),
    {
        let ghost n = news@;
        self.slot.see_lines(&news.logs, now);
        let mut out = take_texts(news.logs);
        let ended: bool = self.slot.see_exit(news.exit);
        if ended {
            let ghost was = texts(out@);
            let mut tail = news.tail;
            let ghost more = texts(tail@);
            let line = with_port(self.port(), self.slot.status_detail.as_str());
            out.append(&mut tail);
            out.push(line);
            proof {
                assert(texts(out@) =~= was + more + seq![line@]);
            }
        }
        let listen = self.running_config.listen_label();
        let label = self.running_config.model_label();
        let w = self.slot.tick(news.arrived, Some(listen.as_str()), label.as_str(), now);
        (out, w)
    }

    /// Takes in that the process was stopped, or could not be, with the last
    /// lines it printed; gives the lines for the log.
    pub fn stop(&mut self, error: &Option<Failure>, tail: Vec<String>) -> (out: Vec<String>)
        ensures
            final(self)@ == server_stopped(old(self)@, failure_view(*error)),
            texts(out@) == stop_lines(old(self)@, failure_view(*error), texts(tail@)),
    {
        if !self.slot.is_running() {
            let out: Vec<String> = Vec::new();
            proof {
                assert(texts(out@) =~= Seq::<Text>::empty());
            }
            return out;
        }
        let port: u16 = self.port();
        let ghost was = texts(tail@);
        let mut out = tail;
        match error {
            None => {
                self.slot.stop(None);
                let line = with_port(port, "llama-server stopped");
                out.push(line);
                proof {
                    assert(texts(out@) =~= was.push(line@));
                }
            },
            Some(e) => {
                self.slot.stop(Some(e.message.as_str()));
                let mut text = "[stop failed] ".to_owned();
                text.append(e.chain.as_str());
                let line = with_port(port, text.as_str());
                out.push(line);
                proof {
                    assert(texts(out@) =~= was.push(line@));
                }
            },
        }
        out
    }
}

/// Nothing a moment brings changes what a server was launched with.
pub proof fn law_running_config_is_kept(s: ManagedView, n: NewsView, now: u64)
    ensures
        server_moment(s, n, now).running_config == s.running_config,
        server_moment(s, n, now).id == s.id,
{
}

/// What a server says when it ends or is stopped is told with its port.
pub proof fn law_lines_name_the_port(s: ManagedView, tail: Seq<Text>)
    requires
        s.slot.process is Some,
    ensures
        stop_lines(s, None, tail).len() == tail.len() + 1,
        stop_lines(s, None, tail).drop_last() == tail,
        ("["@ + decimal(s.running_config.server.port as nat) + "]"@).is_prefix_of(
            stop_lines(s, None, tail).last(),
        ),
        server_stopped(s, None).slot.process is None,
        server_stopped(s, None).slot.status == ServerStatus::Stopped,
        server_stopped(s, None).id == s.id,
        server_stopped(s, None).running_config == s.running_config,
{
    reveal_strlit("] ");
    reveal_strlit("]");
    let l = stop_lines(s, None, tail).last();
    let p = "["@ + decimal(s.running_config.server.port as nat) + "]"@;
    assert(l.subrange(0, p.len() as int) =~= p);
    assert(stop_lines(s, None, tail).drop_last() =~= tail);
}

} // verus!
