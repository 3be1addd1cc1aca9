//! One server process: what is known of it, and what each moment changes.
use vstd::prelude::*;

use crate::cache::{is_model_load_line, load_line, CacheScan, ScanView};
use crate::download::{
    listing_view, minus, polled, scan_view, Download, DownloadView, POLL_INTERVAL,
};
use crate::hub::{FileModel, RemoteFile};
use crate::probe::SlotsSnapshot;
use crate::rates::{expired, line_seen, no_throughput, probed, Reading, ServerMetrics, Throughput};
use crate::text::{decimal, number, opt_text, same, Text};

verus! {

broadcast use vstd::string::group_string_axioms;

/// How often a running server is asked for its slots and figures, in
/// milliseconds.
pub const METRICS_PROBE_INTERVAL: u64 = 250;

/// How often a process is measured, in milliseconds.
pub const STATS_INTERVAL: u64 = 1_000;

/// Where a server is in its life.
#[derive(Clone, Copy, Debug, PartialEq, Eq, Structural)]
pub enum ServerStatus {
    Stopped,
    Downloading,
    Starting,
    Ready,
    Stopping,
    Failed,
}

/// The word for a status.
pub open spec fn status_word(s: ServerStatus) -> Text {
    match s {
        ServerStatus::Stopped => "stopped"@,
        ServerStatus::Downloading => "downloading"@,
        ServerStatus::Starting => "starting"@,
        ServerStatus::Ready => "ready"@,
        ServerStatus::Stopping => "stopping"@,
        ServerStatus::Failed => "failed"@,
    }
}

impl ServerStatus {
    /// The word for the status.
    pub fn label(self) -> (r: &'static str)
        ensures
            r@ == status_word(self),
    {
        match self {
            ServerStatus::Stopped => "stopped",
            ServerStatus::Downloading => "downloading",
            ServerStatus::Starting => "starting",
            ServerStatus::Ready => "ready",
            ServerStatus::Stopping => "stopping",
            ServerStatus::Failed => "failed",
        }
    }
}

/// What a server process printed, with the rates that the line tells.
#[derive(Debug)]
pub struct LogLine {
    pub text: String,
    pub generated: Option<Reading>,
    pub prompt: Option<Reading>,
}

/// The view of [`LogLine`].
pub struct LineView {
    pub text: Text,
    pub generated: Option<Reading>,
    pub prompt: Option<Reading>,
}

impl View for LogLine {
    type V = LineView;

    open spec fn view(&self) -> LineView {
        LineView { text: self.text@, generated: self.generated, prompt: self.prompt }
    }
}

/// The views of lines.
pub open spec fn lines(v: Seq<LogLine>) -> Seq<LineView> {
    Seq::new(v.len(), |i: int| v[i]@)
}

/// The texts of lines.
pub open spec fn line_texts(v: Seq<LineView>) -> Seq<Text> {
    Seq::new(v.len(), |i: int| v[i].text)
}

/// Whether a process ended.
#[derive(Debug)]
pub enum Exit {
    Running,
    Exited { success: bool, code: Option<i32> },
    Unknown(String),
}

/// The view of [`Exit`].
pub enum ExitView {
    Running,
    Exited { success: bool, code: Option<i32> },
    Unknown(Text),
}

impl View for Exit {
    type V = ExitView;

    open spec fn view(&self) -> ExitView {
        match self {
            Exit::Running => ExitView::Running,
            Exit::Exited { success, code } => ExitView::Exited { success: *success, code: *code },
            Exit::Unknown(e) => ExitView::Unknown(e@),
        }
    }
}

/// What a process takes of the machine. The load is kept as its bits.
#[derive(Clone, Copy, Debug, PartialEq, Eq, Structural)]
pub struct ProcessUsage {
    pub cpu_bits: u32,
    pub resident_bytes: u64,
    pub virtual_bytes: u64,
    pub uptime_seconds: u64,
}

/// The answers to a probe.
#[derive(Clone, Copy, Debug)]
pub struct ProbeResult {
    pub endpoint_online: bool,
    pub metrics_requested: bool,
    pub metrics: Option<ServerMetrics>,
    pub slots: Option<SlotsSnapshot>,
}

/// Whether a server's health is still to be asked for: neither its slots nor its
/// figures came.
pub fn needs_health(slots: &Option<SlotsSnapshot>, metrics: &Option<ServerMetrics>) -> (r: bool)
    ensures
        r == (slots is None && metrics is None),
{
    slots.is_none() && metrics.is_none()
}

impl ProbeResult {
    /// The answers together: the server is there where any of them came.
    pub fn gather(
        metrics_requested: bool,
        slots: Option<SlotsSnapshot>,
        metrics: Option<ServerMetrics>,
        healthy: bool,
    ) -> (r: ProbeResult)
        ensures
            r.endpoint_online == (slots is Some || metrics is Some || healthy),
            r.metrics_requested == metrics_requested,
            r.metrics == metrics,
            r.slots == slots,
    {
        ProbeResult {
            endpoint_online: slots.is_some() || metrics.is_some() || healthy,
            metrics_requested,
            metrics,
            slots,
        }
    }
}

/// The figures of a probe that asked for them.
pub open spec fn asked_metrics(p: ProbeResult) -> Option<ServerMetrics> {
    if p.metrics_requested {
        p.metrics
    } else {
        None
    }
}

/// What arrived for a server since the last time.
#[derive(Debug)]
pub struct Arrivals {
    pub listing: Option<Result<Vec<RemoteFile>, String>>,
    pub scan: Option<CacheScan>,
    pub probe: Option<ProbeResult>,
    /// Whether the model can think, as far as the server told.
    pub thinking: Option<Option<bool>>,
    pub usage: Option<ProcessUsage>,
}

/// The view of [`Arrivals`].
pub struct ArrivalsView {
    pub listing: Option<Result<Seq<FileModel>, Text>>,
    pub scan: Option<ScanView>,
    pub probe: Option<ProbeResult>,
    pub thinking: Option<Option<bool>>,
    pub usage: Option<ProcessUsage>,
}

impl View for Arrivals {
    type V = ArrivalsView;

    open spec fn view(&self) -> ArrivalsView {
        ArrivalsView {
            listing: listing_view(self.listing),
            scan: scan_view(self.scan),
            probe: self.probe,
            thinking: self.thinking,
            usage: self.usage,
        }
    }
}

impl Arrivals {
    /// Nothing arrived.
    pub fn none() -> (r: Arrivals)
        ensures
            r@ == (ArrivalsView {
                listing: None,
                scan: None,
                probe: None,
                thinking: None,
                usage: None,
            }),
    {
        Arrivals { listing: None, scan: None, probe: None, thinking: None, usage: None }
    }
}

/// What is to be done for a server after a moment.
#[derive(Clone, Copy, Debug, PartialEq, Eq, Structural)]
pub struct Wanted {
    /// Read the cache again.
    pub scan: bool,
    /// Ask the server for its slots and figures.
    pub probe: bool,
    /// Ask the server whether its model can think.
    pub thinking: bool,
}

/// A server process and what is known of it.
#[derive(Debug)]
pub struct ServerSlot {
    /// The process, where one runs.
    pub process: Option<u32>,
    pub status: ServerStatus,
    pub status_detail: String,
    pub endpoint_online: bool,
    pub download: Option<Download>,
    pub process_usage: Option<ProcessUsage>,
    pub throughput: Throughput,
    /// Whether the loaded model can think, once that is known.
    pub thinking_supported: Option<bool>,
    /// The model that was last asked about.
    pub thinking_probe_for: Option<String>,
    /// Whether the answer is still to come.
    pub thinking_pending: bool,
    /// Whether a probe is under way.
    pub probe: bool,
    /// When the last probe began, if that matters.
    pub last_probe: Option<u64>,
    /// When the process was last measured, if that matters.
    pub last_stats_refresh: Option<u64>,
}

/// The view of [`ServerSlot`].
#[verifier::ext_equal]
pub struct SlotView {
    pub process: Option<u32>,
    pub status: ServerStatus,
    pub status_detail: Text,
    pub endpoint_online: bool,
    pub download: Option<DownloadView>,
    pub process_usage: Option<ProcessUsage>,
    pub throughput: Throughput,
    pub thinking_supported: Option<bool>,
    pub thinking_probe_for: Option<Text>,
    pub thinking_pending: bool,
    pub probe: bool,
    pub last_probe: Option<u64>,
    pub last_stats_refresh: Option<u64>,
}

/// The view of a download, where there is one.
pub open spec fn download_view(d: Option<Download>) -> Option<DownloadView> {
    match d {
        Some(d) => Some(d@),
        None => None,
    }
}

impl View for ServerSlot {
    type V = SlotView;

    open spec fn view(&self) -> SlotView {
        SlotView {
            process: self.process,
            status: self.status,
            status_detail: self.status_detail@,
            endpoint_online: self.endpoint_online,
            download: download_view(self.download),
            process_usage: self.process_usage,
            throughput: self.throughput,
            thinking_supported: self.thinking_supported,
            thinking_probe_for: opt_text(self.thinking_probe_for),
            thinking_pending: self.thinking_pending,
            probe: self.probe,
            last_probe: self.last_probe,
            last_stats_refresh: self.last_stats_refresh,
        }
    }
}

/// A slot in which nothing runs.
pub open spec fn idle_slot(status: ServerStatus, detail: Text, online: bool) -> SlotView {
    SlotView {
        process: None,
        status,
        status_detail: detail,
        endpoint_online: online,
        download: None,
        process_usage: None,
        throughput: no_throughput(),
        thinking_supported: None,
        thinking_probe_for: None,
        thinking_pending: false,
        probe: false,
        last_probe: None,
        last_stats_refresh: None,
    }
}

/// A number below or above zero in decimal.
pub open spec fn signed(n: int) -> Text {
    if n < 0 {
        "-"@ + decimal((-n) as nat)
    } else {
        decimal(n as nat)
    }
}

/// A number below or above zero in decimal.
pub fn signed_number(n: i32) -> (out: String)
    ensures
        out@ == signed(n as int),
{
    if n < 0 {
        let mut out = "-".to_owned();
        let size: i64 = -(n as i64);
        out.append(number(size as u64).as_str());
        out
    } else {
        number(n as u64)
    }
}

/// What is told of a process that ended.
pub open spec fn exit_detail(code: Option<i32>) -> Text {
    match code {
        Some(c) => "llama-server exited with code "@ + signed(c as int),
        None => "llama-server was terminated"@,
    }
}

/// The slot without anything that belongs to a running process.
pub open spec fn emptied(s: SlotView) -> SlotView {
    SlotView {
        process: None,
        endpoint_online: false,
        download: None,
        process_usage: None,
        throughput: no_throughput(),
        thinking_supported: None,
        thinking_probe_for: None,
        thinking_pending: false,
        probe: false,
        ..s
    }
}

/// The slot after its process ended.
pub open spec fn exited(s: SlotView, success: bool, code: Option<i32>) -> SlotView {
    SlotView {
        status: if success {
            ServerStatus::Stopped
        } else {
            ServerStatus::Failed
        },
        status_detail: exit_detail(code),
        ..emptied(s)
    }
}

/// The slot after its process was stopped, or could not be.
pub open spec fn stopped(s: SlotView, error: Option<Text>) -> SlotView {
    match error {
        None => SlotView {
            status: ServerStatus::Stopped,
            status_detail: "Stopped by user"@,
            ..emptied(s)
        },
        Some(e) => SlotView { status: ServerStatus::Failed, status_detail: e, ..emptied(s) },
    }
}

/// The slot with its process that just began.
pub open spec fn launched(s: SlotView, pid: u32, download: Option<DownloadView>) -> SlotView {
    let fetching = download matches Some(d) && d.active;
    SlotView {
        process: Some(pid),
        download,
        status: if fetching {
            ServerStatus::Downloading
        } else {
            ServerStatus::Starting
        },
        status_detail: if fetching {
            "Fetching the model from Hugging Face"@
        } else {
            "Waking llama-server (PID "@ + decimal(pid as nat) + ")"@
        },
        endpoint_online: false,
        probe: false,
        last_probe: None,
        last_stats_refresh: None,
        ..s
    }
}

/// What the lines of a log tell of the rates.
pub open spec fn lines_seen(t: Throughput, v: Seq<LineView>, now: u64) -> Throughput
    decreases v.len(),
{
    if v.len() == 0 {
        t
    } else {
        line_seen(lines_seen(t, v.drop_last(), now), v.last().generated, v.last().prompt, now)
    }
}

/// Whether so much time has passed.
pub open spec fn passed(since: Option<u64>, now: u64, millis: u64) -> bool {
    match since {
        Some(at) => minus(now, at) >= millis,
        None => true,
    }
}

/// The slot after a look at its download.
pub open spec fn download_seen(s: SlotView, a: ArrivalsView, now: u64) -> SlotView {
    match s.download {
        Some(d) if s.process is Some && !s.endpoint_online => {
            let d = if minus(now, d.last_poll) >= POLL_INTERVAL {
                polled(d, now, a.listing, a.scan)
            } else {
                d
            };
            if d.active {
                SlotView { download: Some(d), status: ServerStatus::Downloading, ..s }
            } else if s.status == ServerStatus::Downloading {
                SlotView {
                    download: Some(d),
                    status: ServerStatus::Starting,
                    status_detail: "Model is on disk; loading weights"@,
                    ..s
                }
            } else {
                SlotView { download: Some(d), ..s }
            }
        },
        _ => s,
    }
}

/// Whether the cache is to be read again after a look at a download.
pub open spec fn scans_again(s: SlotView, a: ArrivalsView, now: u64) -> bool {
    s.process is Some && !s.endpoint_online && a.scan is Some && (s.download matches Some(d)
        && minus(now, d.last_poll) >= POLL_INTERVAL)
}

/// The slot after it was made sure that the model is asked about.
pub open spec fn thinking_asked(s: SlotView, label: Text, can_ask: bool) -> SlotView {
    if asks_thinking(s, label) {
        SlotView {
            thinking_supported: None,
            thinking_probe_for: Some(label),
            thinking_pending: can_ask || s.thinking_pending,
            ..s
        }
    } else {
        s
    }
}

/// Whether the model has not been asked about yet.
pub open spec fn asks_thinking(s: SlotView, label: Text) -> bool {
    !(s.thinking_probe_for == Some(label) && (s.thinking_supported is Some || s.thinking_pending))
}

/// The slot after the answers to a probe. A server that does not answer while
/// its process runs is starting, not gone.
pub open spec fn probe_seen(
    s: SlotView,
    p: ProbeResult,
    listen: Option<Text>,
    label: Text,
    now: u64,
) -> SlotView {
    let s1 = SlotView {
        endpoint_online: p.endpoint_online,
        throughput: probed(s.throughput, p.slots, asked_metrics(p), now),
        ..s
    };
    if p.endpoint_online {
        thinking_asked(
            SlotView {
                download: None,
                status: ServerStatus::Ready,
                status_detail: match listen {
                    Some(l) => "Listening on "@ + l,
                    None => s.status_detail,
                },
                ..s1
            },
            label,
            listen is Some,
        )
    } else if s.status != ServerStatus::Downloading {
        SlotView { status: ServerStatus::Starting, ..s1 }
    } else {
        s1
    }
}

/// The slot after the probe that arrived.
pub open spec fn probe_taken(
    s: SlotView,
    a: ArrivalsView,
    listen: Option<Text>,
    label: Text,
    now: u64,
) -> SlotView {
    match a.probe {
        Some(p) if s.probe => probe_seen(SlotView { probe: false, ..s }, p, listen, label, now),
        _ => s,
    }
}

/// Whether a probe is due.
pub open spec fn probe_due(s: SlotView, now: u64) -> bool {
    !s.probe && passed(s.last_probe, now, METRICS_PROBE_INTERVAL)
}

/// The slot after a probe was begun, where one is due.
pub open spec fn probe_begun(s: SlotView, can_ask: bool, now: u64) -> SlotView {
    if probe_due(s, now) {
        SlotView { probe: can_ask, last_probe: Some(now), ..s }
    } else {
        s
    }
}

/// The slot after the answer about the model that arrived, or after the
/// question was put.
pub open spec fn thinking_seen(
    s: SlotView,
    a: ArrivalsView,
    label: Text,
    can_ask: bool,
) -> SlotView {
    match a.thinking {
        Some(answer) if s.thinking_pending => SlotView {
            thinking_pending: false,
            thinking_supported: Some(answer == Some(true)),
            ..s
        },
        _ => if s.status == ServerStatus::Ready {
            thinking_asked(s, label, can_ask)
        } else {
            s
        },
    }
}

/// The slot after its process was measured, where that is due.
pub open spec fn usage_seen(s: SlotView, a: ArrivalsView, now: u64) -> SlotView {
    if s.process is Some && passed(s.last_stats_refresh, now, STATS_INTERVAL) {
        SlotView { process_usage: a.usage, last_stats_refresh: Some(now), ..s }
    } else {
        s
    }
}

/// The slot after its probe and the question about its model.
pub open spec fn asked(
    s: SlotView,
    a: ArrivalsView,
    listen: Option<Text>,
    label: Text,
    now: u64,
) -> SlotView {
    if s.process is Some {
        thinking_seen(
            probe_begun(probe_taken(s, a, listen, label, now), listen is Some, now),
            a,
            label,
            listen is Some,
        )
    } else {
        s
    }
}

/// The slot after a moment in which it took in what arrived.
pub open spec fn moment(
    s: SlotView,
    a: ArrivalsView,
    listen: Option<Text>,
    label: Text,
    now: u64,
) -> SlotView {
    let s1 = usage_seen(asked(download_seen(s, a, now), a, listen, label, now), a, now);
    SlotView { throughput: expired(s1.throughput, now), ..s1 }
}

/// Whether the probe that arrived leads to a question about the model.
pub open spec fn probe_asks(s: SlotView, a: ArrivalsView, label: Text) -> bool {
    s.probe && asks_thinking(s, label) && (a.probe matches Some(p) && p.endpoint_online)
}

/// Whether a ready server is to be asked about its model.
pub open spec fn ready_asks(s: SlotView, a: ArrivalsView, label: Text) -> bool {
    s.status == ServerStatus::Ready && asks_thinking(s, label) && !(a.thinking is Some
        && s.thinking_pending)
}

/// What is to be done after such a moment.
pub open spec fn moment_wants(
    s: SlotView,
    a: ArrivalsView,
    listen: Option<Text>,
    label: Text,
    now: u64,
) -> Wanted {
    let s1 = download_seen(s, a, now);
    let s2 = probe_taken(s1, a, listen, label, now);
    let s3 = probe_begun(s2, listen is Some, now);
    let can_ask = s.process is Some && listen is Some;
    Wanted {
        scan: scans_again(s, a, now),
        probe: can_ask && probe_due(s2, now),
        thinking: can_ask && (probe_asks(s1, a, label) || ready_asks(s3, a, label)),
    }
}

impl ServerSlot {
    /// A slot in which nothing runs.
    pub fn idle(status: ServerStatus, detail: &str, online: bool) -> (r: ServerSlot)
        ensures
            r@ == idle_slot(status, detail@, online),
    {
        ServerSlot {
            process: None,
            status,
            status_detail: detail.to_owned(),
            endpoint_online: online,
            download: None,
            process_usage: None,
            throughput: Throughput::new(),
            thinking_supported: None,
            thinking_probe_for: None,
            thinking_pending: false,
            probe: false,
            last_probe: None,
            last_stats_refresh: None,
        }
    }

    /// Whether a process runs.
    pub fn is_running(&self) -> (r: bool)
        ensures
            r == (self@.process is Some),
    {
        self.process.is_some()
    }

    /// Whether the model is known to think.
    pub fn thinks(&self) -> (r: bool)
        ensures
            r == (self@.thinking_supported == Some(true)),
    {
        match self.thinking_supported {
            Some(b) => b,
            None => false,
        }
    }

    fn empty(&mut self)
        ensures
            final(self)@ == emptied(old(self)@),
    {
        self.process = None;
        self.endpoint_online = false;
        self.download = None;
        self.process_usage = None;
        self.throughput = Throughput::new();
        self.thinking_supported = None;
        self.thinking_probe_for = None;
        self.thinking_pending = false;
        self.probe = false;
    }

    /// The process ended by itself.
    pub fn exit(&mut self, success: bool, code: Option<i32>)
        ensures
            final(self)@ == exited(old(self)@, success, code),
    {
        self.empty();
        self.status = if success {
            ServerStatus::Stopped
        } else {
            ServerStatus::Failed
        };
        self.status_detail = match code {
            Some(c) => {
                let mut d = "llama-server exited with code ".to_owned();
                d.append(signed_number(c).as_str());
                d
            },
            None => "llama-server was terminated".to_owned(),
        };
    }

    /// The process was stopped, or could not be.
    pub fn stop(&mut self, error: Option<&str>)
        ensures
            final(self)@ == stopped(
                old(self)@,
                match error {
                    Some(e) => Some(e@),
                    None => None,
                },
            ),
    {
        self.empty();
        match error {
            None => {
                self.status = ServerStatus::Stopped;
                self.status_detail = "Stopped by user".to_owned();
            },
            Some(e) => {
                self.status = ServerStatus::Failed;
                self.status_detail = e.to_owned();
            },
        }
    }

    /// A process began in the slot.
    pub fn launch(&mut self, pid: u32, download: Option<Download>)
        ensures
            final(self)@ == launched(old(self)@, pid, download_view(download)),
    {
        let fetching: bool = match &download {
            Some(d) => d.is_active(),
            None => false,
        };
        self.process = Some(pid);
        self.download = download;
        if fetching {
            self.status = ServerStatus::Downloading;
            self.status_detail = "Fetching the model from Hugging Face".to_owned();
        } else {
            self.status = ServerStatus::Starting;
            let mut d = "Waking llama-server (PID ".to_owned();
            d.append(number(pid as u64).as_str());
            d.append(")");
            self.status_detail = d;
        }
        self.endpoint_online = false;
        self.probe = false;
        self.last_probe = None;
        self.last_stats_refresh = None;
    }

    /// Takes in the rates that log lines tell.
    pub fn see_lines(&mut self, v: &Vec<LogLine>, now: u64)
        ensures
            final(self)@ == (SlotView {
                throughput: lines_seen(old(self)@.throughput, lines(v@), now),
                ..old(self)@
            }),
    {
        let ghost all = lines(v@);
        let ghost was = self@;
        let mut i: usize = 0;
        proof {
            assert(all.take(0) =~= Seq::<LineView>::empty());
        }
        while i < v.len()
            invariant
                all == lines(v@),
                i <= v.len(),
                self@ == (SlotView {
                    throughput: lines_seen(was.throughput, all.take(i as int), now),
                    ..was
                }),
            decreases v.len() - i,
        {
            proof {
                assert(all.take(i + 1).drop_last() =~= all.take(i as int));
                assert(all.take(i + 1).last() == v@[i as int]@);
            }
            self.throughput.see_line(v[i].generated, v[i].prompt, now);
            i = i + 1;
        }
        proof {
            assert(all.take(all.len() as int) =~= all);
        }
    }

    /// Ends the download where a log line shows that the weights are read.
    pub fn see_startup_line(&mut self, line: &str)
        ensures
            final(self)@ == startup_seen(old(self)@, line@),
    {
        if is_model_load_line(line) {
            match &mut self.download {
                Some(d) => d.finish(),
                None => {},
            }
        }
    }

    /// Whether a download is looked at now, so that what arrived for it is to be
    /// handed over.
    pub fn download_due(&self, now: u64) -> (r: bool)
        ensures
            r == (self@.process is Some && !self@.endpoint_online && (
            self@.download matches Some(d) && minus(now, d.last_poll) >= POLL_INTERVAL)),
    {
        match &self.download {
            Some(d) => self.process.is_some() && !self.endpoint_online && d.due(now),
            None => false,
        }
    }

    /// Whether the process is measured now.
    pub fn stats_due(&self, now: u64) -> (r: bool)
        ensures
            r == (self@.process is Some && passed(self@.last_stats_refresh, now, STATS_INTERVAL)),
    {
        self.process.is_some() && match self.last_stats_refresh {
            Some(at) => now.saturating_sub(at) >= STATS_INTERVAL,
            None => true,
        }
    }

    fn look_at_download(
        &mut self,
        listing: Option<Result<Vec<RemoteFile>, String>>,
        scan: Option<CacheScan>,
        a: Ghost<ArrivalsView>,
        now: u64,
    ) -> (again: bool)
        requires
            a@.listing == listing_view(listing),
            a@.scan == scan_view(scan),
        ensures
            final(self)@ == download_seen(old(self)@, a@, now),
            again == scans_again(old(self)@, a@, now),
    {
        if self.process.is_none() || self.endpoint_online {
            return false;
        }
        let mut again: bool = false;
        let mut active: bool = false;
        let mut there: bool = false;
        match &mut self.download {
            Some(d) => {
                there = true;
                if d.due(now) {
                    again = d.poll(now, listing, scan);
                }
                active = d.is_active();
            },
            None => {},
        }
        if there {
            if active {
                self.status = ServerStatus::Downloading;
            } else if self.status == ServerStatus::Downloading {
                self.status = ServerStatus::Starting;
                self.status_detail = "Model is on disk; loading weights".to_owned();
            }
        }
        again
    }

    fn ask_thinking(&mut self, label: &str, can_ask: bool) -> (open: bool)
        ensures
            final(self)@ == thinking_asked(old(self)@, label@, can_ask),
            open == (can_ask && asks_thinking(old(self)@, label@)),
    {
        let asked: bool = match &self.thinking_probe_for {
            Some(l) => same(l.as_str(), label),
            None => false,
        };
        if asked && (self.thinking_supported.is_some() || self.thinking_pending) {
            return false;
        }
        self.thinking_supported = None;
        self.thinking_probe_for = Some(label.to_owned());
        if can_ask {
            self.thinking_pending = true;
        }
        can_ask
    }

    fn see_probe(&mut self, p: ProbeResult, listen: Option<&str>, label: &str, now: u64) -> (open:
        bool)
        ensures
            final(self)@ == probe_seen(old(self)@, p, opt_view(listen), label@, now),
            open == (p.endpoint_online && listen is Some && asks_thinking(old(self)@, label@)),
    {
        self.endpoint_online = p.endpoint_online;
        let metrics = if p.metrics_requested {
            p.metrics
        } else {
            None
        };
        self.throughput.see_probe(p.slots, metrics, now);
        if p.endpoint_online {
            self.download = None;
            self.status = ServerStatus::Ready;
            match listen {
                Some(l) => {
                    let mut d = "Listening on ".to_owned();
                    d.append(l);
                    self.status_detail = d;
                },
                None => {},
            }
            self.ask_thinking(label, listen.is_some())
        } else {
            if self.status != ServerStatus::Downloading {
                self.status = ServerStatus::Starting;
            }
            false
        }
    }

    /// One moment: takes in what arrived, and says what is to be done next.
    /// `listen` is where the server listens and `label` the model it runs.
    pub fn tick(
        &mut self,
        arrived: Arrivals,
        listen: Option<&str>,
        label: &str,
        now: u64,
    ) -> (w: Wanted)
        ensures
            final(self)@ == moment(old(self)@, arrived@, opt_view(listen), label@, now),
            w == moment_wants(old(self)@, arrived@, opt_view(listen), label@, now),
    {
        let ghost a = arrived@;
        let can_ask: bool = listen.is_some();
        let mut w = Wanted { scan: false, probe: false, thinking: false };
        w.scan = self.look_at_download(arrived.listing, arrived.scan, Ghost(a), now);
        if self.process.is_some() {
            match arrived.probe {
                Some(p) => {
                    if self.probe {
                        self.probe = false;
                        w.thinking = self.see_probe(p, listen, label, now);
                    }
                },
                None => {},
            }
            let due: bool = match self.last_probe {
                Some(at) => now.saturating_sub(at) >= METRICS_PROBE_INTERVAL,
                None => true,
            };
            if !self.probe && due {
                self.probe = can_ask;
                self.last_probe = Some(now);
                w.probe = can_ask;
            }
            let mut answered: bool = false;
            match arrived.thinking {
                Some(answer) => {
                    if self.thinking_pending {
                        answered = true;
                        self.thinking_pending = false;
                        self.thinking_supported = Some(
                            match answer {
                                Some(b) => b,
                                None => false,
                            },
                        );
                    }
                },
                None => {},
            }
            if !answered && self.status == ServerStatus::Ready {
                let open: bool = self.ask_thinking(label, can_ask);
                w.thinking = w.thinking || open;
            }
        }
        if self.stats_due(now) {
            self.process_usage = arrived.usage;
            self.last_stats_refresh = Some(now);
        }
        self.throughput.expire(now);
        w
    }
}

/// The view of text that may be missing.
pub open spec fn opt_view(s: Option<&str>) -> Option<Text> {
    match s {
        Some(s) => Some(s@),
        None => None,
    }
}

/// The slot after a log line that may show that the weights are read.
pub open spec fn startup_seen(s: SlotView, line: Text) -> SlotView {
    match s.download {
        Some(d) if load_line(line) => SlotView {
            download: Some(DownloadView { active: false, ..d }),
            ..s
        },
        _ => s,
    }
}

/// A server whose process ended answers nothing and shows nothing of its work.
pub proof fn law_nothing_outlives_a_process(s: SlotView, success: bool, code: Option<i32>)
    ensures
        ({
            let e = exited(s, success, code);
            &&& e.process is None
            &&& !e.endpoint_online
            &&& e.download is None
            &&& e.throughput.metrics is None
            &&& e.thinking_supported is None
            &&& (e.status == ServerStatus::Stopped || e.status == ServerStatus::Failed)
        }),
{
}

/// At most one probe is under way: none is begun while an answer is awaited.
pub proof fn law_one_probe_at_a_time(
    s: SlotView,
    a: ArrivalsView,
    listen: Option<Text>,
    label: Text,
    now: u64,
)
    requires
        s.probe,
        a.probe is None,
    ensures
        !moment_wants(s, a, listen, label, now).probe,
        moment(s, a, listen, label, now).probe,
{
}

/// A server is said to be ready only where its process runs and answered.
pub proof fn law_ready_means_answering(
    s: SlotView,
    a: ArrivalsView,
    listen: Option<Text>,
    label: Text,
    now: u64,
)
    requires
        s.status == ServerStatus::Ready ==> s.process is Some && s.endpoint_online,
    ensures
        ({
            let m = moment(s, a, listen, label, now);
            m.status == ServerStatus::Ready ==> m.process is Some && m.endpoint_online
        }),
{
}

/// A server that ended well is stopped and one that ended otherwise has failed;
/// how it ended is told.
pub proof fn law_end_is_told(s: SlotView, code: i32, reason: Text)
    requires
        code >= 0,
    ensures
        exited(s, true, Some(code)).status == ServerStatus::Stopped,
        exited(s, false, Some(code)).status == ServerStatus::Failed,
        exited(s, false, None).status == ServerStatus::Failed,
        (" code "@ + decimal(code as nat)).is_suffix_of(
            exited(s, false, Some(code)).status_detail,
        ),
        stopped(s, None).status == ServerStatus::Stopped,
        stopped(s, Some(reason)).status == ServerStatus::Failed,
        stopped(s, Some(reason)).status_detail == reason,
{
    reveal_strlit("llama-server exited with code ");
    reveal_strlit(" code ");
    let t = exited(s, false, Some(code)).status_detail;
    let b = " code "@ + decimal(code as nat);
    assert(t.subrange(t.len() - b.len(), t.len() as int) =~= b);
}

/// A server that was launched has its process; it counts as loading its model
/// while a download goes on, and else as starting.
pub proof fn law_launch_has_its_process(s: SlotView, pid: u32, d: DownloadView)
    ensures
        launched(s, pid, None).process == Some(pid),
        launched(s, pid, Some(d)).process == Some(pid),
        launched(s, pid, Some(d)).download == Some(d),
        launched(s, pid, None).status == ServerStatus::Starting,
        launched(s, pid, Some(d)).status == ServerStatus::Downloading <==> d.active,
        !launched(s, pid, Some(d)).endpoint_online,
        !launched(s, pid, None).endpoint_online,
{
}

/// An answer on whether a model thinks is kept as it was given; no clear answer
/// counts as no.
pub proof fn law_thinking_answer_is_kept(
    s: SlotView,
    a: ArrivalsView,
    label: Text,
    can_ask: bool,
)
    requires
        s.thinking_pending,
    ensures
        a.thinking == Some(Some(true)) ==> thinking_seen(s, a, label, can_ask).thinking_supported
            == Some(true),
        a.thinking == Some(Some(false)) || a.thinking == Some(None::<bool>) ==> thinking_seen(
            s,
            a,
            label,
            can_ask,
        ).thinking_supported == Some(false),
        a.thinking is Some ==> !thinking_seen(s, a, label, can_ask).thinking_pending,
{
}

/// What a process uses is looked at once in a second and kept between.
pub proof fn law_usage_is_looked_at_each_second(s: SlotView, a: ArrivalsView, at: u64, now: u64)
    requires
        s.process is Some,
        s.last_stats_refresh == Some(at),
    ensures
        now >= at + 1000 ==> usage_seen(s, a, now).process_usage == a.usage && usage_seen(
            s,
            a,
            now,
        ).last_stats_refresh == Some(now),
        at <= now < at + 1000 ==> usage_seen(s, a, now) == s,
{
}

/// A probe goes out a quarter of a second after the last one, unless one is still
/// on its way.
pub proof fn law_probes_keep_their_distance(s: SlotView, at: u64, now: u64)
    requires
        s.last_probe == Some(at),
    ensures
        at <= now < at + 250 ==> !probe_due(s, now),
        now >= at + 250 ==> (probe_due(s, now) <==> !s.probe),
        probe_due(s, now) ==> probe_begun(s, true, now).probe && probe_begun(
            s,
            true,
            now,
        ).last_probe == Some(now),
{
}

} // verus!
