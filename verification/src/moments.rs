//! The application from moment to moment: it takes in what arrived and says
//! what is to be done next.
use vstd::prelude::*;

use crate::app::{
    detailed, log_with_all, logged, size_synced, wanting, App, AppView, Effect, EffectView,
    RemoteSizeView, PRIMARY_SERVER_ID,
};
use crate::bind::{label_of, listen_text};
use crate::cache::{found, DiscoveredModel, FoundView};
use crate::config::{ConfigView, ModelView};
use crate::download::{events, fetch_polled, listing_view, minus, LibraryView};
use crate::fetch::{primary_gguf_bytes, primary_of, FetchEvent, FetchView};
use crate::hub::{files, size_sum, FileModel, RemoteFile};
use crate::instance::{
    ends, exit_seen, server_lines, server_moment, server_wants, servers, ManagedServer,
    ManagedView, NewsView, ServerNews,
};
use crate::launch::fallback;
use crate::servers::{displayed, find_server, server_at};
use crate::sharing::advertisement;
use crate::slot::{
    line_texts, lines_seen, moment, moment_wants, startup_seen, ArrivalsView, ExitView, LineView,
    ServerStatus, SlotView, Wanted,
};
use crate::text::{same, texts, Text};
use crate::units::{gib_hundredths, gib_text_fine};

verus! {

broadcast use vstd::string::group_string_axioms;

/// How often models are looked for on disk, in milliseconds.
pub const DISCOVER_INTERVAL: u64 = 15_000;

/// What arrived for the application since the last moment.
#[derive(Debug)]
pub struct AppNews {
    /// The listing of the hosted model.
    pub listing: Option<Result<Vec<RemoteFile>, String>>,
    /// The models found on disk.
    pub models: Option<Vec<DiscoveredModel>>,
    /// What happened to the fetch into the library.
    pub fetched: Vec<FetchEvent>,
    /// The news of the first server.
    pub first: ServerNews,
    /// The news of the servers beside it, in their order.
    pub others: Vec<ServerNews>,
}

/// The view of [`AppNews`].
pub struct AppNewsView {
    pub listing: Option<Result<Seq<FileModel>, Text>>,
    pub models: Option<Seq<FoundView>>,
    pub fetched: Seq<FetchView>,
    pub first: NewsView,
    pub others: Seq<NewsView>,
}

/// The views of news.
pub open spec fn news(v: Seq<ServerNews>) -> Seq<NewsView> {
    Seq::new(v.len(), |i: int| v[i]@)
}

/// The view of models, where some were found.
pub open spec fn models_view(m: Option<Vec<DiscoveredModel>>) -> Option<Seq<FoundView>> {
    match m {
        Some(v) => Some(found(v@)),
        None => None,
    }
}

impl View for AppNews {
    type V = AppNewsView;

    open spec fn view(&self) -> AppNewsView {
        AppNewsView {
            listing: listing_view(self.listing),
            models: models_view(self.models),
            fetched: events(self.fetched@),
            first: self.first@,
            others: news(self.others@),
        }
    }
}

/// The size that a listing tells of a repository.
pub open spec fn listed_size(r: Result<Seq<FileModel>, Text>, repo: Text) -> Result<u64, Text> {
    match r {
        Ok(f) => if primary_of(f, repo).len() == 0 {
            Err("No GGUF files found in the repository listing."@)
        } else {
            Ok(size_sum(primary_of(f, repo)))
        },
        Err(e) => Err(e),
    }
}

/// The application after the listing of its hosted model arrived.
pub open spec fn size_polled(
    a: AppView,
    listing: Option<Result<Seq<FileModel>, Text>>,
) -> AppView {
    match (a.remote_model_size, listing) {
        (Some(s), Some(r)) if s.listing => match listed_size(r, s.repo) {
            Ok(n) => AppView {
                remote_model_size: Some(
                    RemoteSizeView { listing: false, bytes: Some(n), error: None, ..s },
                ),
                config: ConfigView {
                    model: ModelView { estimated_bytes: Some(n), ..a.config.model },
                    ..a.config
                },
                ..a
            },
            Err(e) => AppView {
                remote_model_size: Some(
                    RemoteSizeView { listing: false, bytes: None, error: Some(e), ..s },
                ),
                ..a
            },
        },
        _ => a,
    }
}

/// The application after it looked at the search for models.
pub open spec fn models_polled(a: AppView, models: Option<Seq<FoundView>>, now: u64) -> AppView {
    let a1 = match models {
        Some(m) if a.pending_discover => AppView {
            discovered_models: m,
            pending_discover: false,
            last_discover: now,
            ..a
        },
        _ => a,
    };
    if !a1.pending_discover && minus(now, a1.last_discover) >= DISCOVER_INTERVAL {
        discovering(a1, now)
    } else {
        a1
    }
}

/// The application that looks for models again.
pub open spec fn discovering(a: AppView, now: u64) -> AppView {
    wanting(
        AppView { pending_discover: true, last_discover: now, ..a },
        EffectView::Discover,
    )
}

/// Whether a fetch is neither done nor failed.
pub open spec fn fetching(l: LibraryView) -> bool {
    !l.done && l.error is None
}

/// The application after it looked at the fetch into the library.
pub open spec fn fetch_seen(a: AppView, e: Seq<FetchView>, now: u64) -> AppView {
    match a.library_fetch {
        None => a,
        Some(l) => {
            let next = fetch_polled(l, e, now);
            let a1 = AppView { library_fetch: Some(next), ..a };
            if fetching(l) && next.done {
                match next.error {
                    Some(m) => logged(
                        detailed(a1, "Download failed: "@ + m),
                        "download failed: "@ + m,
                    ),
                    None => {
                        let what = next.repo + " ("@ + gib_hundredths(next.downloaded) + " GiB)"@;
                        size_synced(
                            discovering(
                                logged(detailed(a1, "Downloaded "@ + what), "downloaded "@ + what),
                                now,
                            ),
                        )
                    },
                }
            } else {
                a1
            }
        },
    }
}

/// The slot after all startup lines were seen.
pub open spec fn startups_seen(s: SlotView, v: Seq<Text>) -> SlotView
    decreases v.len(),
{
    if v.len() == 0 {
        s
    } else {
        startup_seen(startups_seen(s, v.drop_last()), v.last())
    }
}

/// The application after lines were read: a download may be over, and the log
/// has them.
pub open spec fn lines_read(a: AppView, v: Seq<Text>) -> AppView {
    AppView { slot: startups_seen(a.slot, v), logs: log_with_all(a.logs, v), ..a }
}

/// The application after the lines of its first server were read.
pub open spec fn first_read(a: AppView, v: Seq<LineView>, now: u64) -> AppView {
    let b = lines_read(a, line_texts(v));
    AppView {
        slot: SlotView { throughput: lines_seen(b.slot.throughput, v, now), ..b.slot },
        ..b
    }
}

/// The application after it is known whether its first server's process ended.
pub open spec fn first_exit(a: AppView, e: ExitView, tail: Seq<Text>) -> AppView {
    let slot = exit_seen(a.slot, e);
    if ends(a.slot, e) {
        logged(
            AppView { slot, running_config: None, logs: log_with_all(a.logs, tail), ..a },
            slot.status_detail,
        )
    } else {
        AppView { slot, ..a }
    }
}

/// Where the first server listens, if it was launched.
pub open spec fn first_listen(a: AppView) -> Option<Text> {
    match a.running_config {
        Some(c) => Some(listen_text(c)),
        None => None,
    }
}

/// The application after its first server took in what arrived.
pub open spec fn first_moment(a: AppView, r: ArrivalsView, now: u64) -> AppView {
    AppView {
        slot: moment(a.slot, r, first_listen(a), label_of(displayed(a).model.source), now),
        ..a
    }
}

/// What is to be done for the first server.
pub open spec fn first_wants(a: AppView, r: ArrivalsView, now: u64) -> Wanted {
    moment_wants(a.slot, r, first_listen(a), label_of(displayed(a).model.source), now)
}

/// The servers after a moment.
pub open spec fn others_moment(s: Seq<ManagedView>, n: Seq<NewsView>, now: u64) -> Seq<
    ManagedView,
> {
    Seq::new(s.len(), |i: int| server_moment(s[i], n[i], now))
}

/// What is to be done for the servers.
pub open spec fn others_want(s: Seq<ManagedView>, n: Seq<NewsView>, now: u64) -> Seq<Wanted> {
    Seq::new(s.len(), |i: int| server_wants(s[i], n[i], now))
}

/// The lines that the servers add to the log in a moment.
pub open spec fn others_lines(s: Seq<ManagedView>, n: Seq<NewsView>, now: u64) -> Seq<Text>
    decreases s.len(),
{
    if s.len() == 0 {
        Seq::empty()
    } else {
        others_lines(s.drop_last(), n, now) + server_lines(
            s.last(),
            n[s.len() - 1],
            now,
        )
    }
}

/// Whether a server beside the first is kept: it runs, or it failed.
pub open spec fn kept(s: ManagedView) -> bool {
    s.slot.process is Some || s.slot.status == ServerStatus::Failed
}

/// The servers that are kept.
pub open spec fn kept_servers(s: Seq<ManagedView>) -> Seq<ManagedView>
    decreases s.len(),
{
    if s.len() == 0 {
        Seq::empty()
    } else {
        let init = kept_servers(s.drop_last());
        if kept(s.last()) {
            init.push(s.last())
        } else {
            init
        }
    }
}

/// The application that looks elsewhere where the server it looked at is gone.
pub open spec fn looked_elsewhere(a: AppView) -> AppView {
    if a.active_server_id != PRIMARY_SERVER_ID@ && server_at(
        a.extra_servers,
        a.active_server_id,
        0,
    ) is None {
        AppView { active_server_id: fallback(a), ..a }
    } else {
        a
    }
}

/// The application after the servers beside the first had their moment.
pub open spec fn others_seen(a: AppView, n: Seq<NewsView>, now: u64) -> AppView {
    let b = lines_read(
        AppView { extra_servers: others_moment(a.extra_servers, n, now), ..a },
        others_lines(a.extra_servers, n, now),
    );
    looked_elsewhere(AppView { extra_servers: kept_servers(b.extra_servers), ..b })
}

/// The application up to where its first server takes in what arrived.
pub open spec fn before_first(a: AppView, n: AppNewsView, now: u64) -> AppView {
    first_exit(
        first_read(
            fetch_seen(models_polled(size_polled(a, n.listing), n.models, now), n.fetched, now),
            n.first.logs,
            now,
        ),
        n.first.exit,
        n.first.tail,
    )
}

/// The application after a moment.
pub open spec fn ticked(a: AppView, n: AppNewsView, now: u64) -> AppView {
    let b = others_seen(
        first_moment(before_first(a, n, now), n.first.arrived, now),
        n.others,
        now,
    );
    wanting(b, advertisement(b))
}

impl App {
    /// Takes in the listing of the hosted model.
    pub fn poll_remote_model_size(&mut self, listing: Option<Result<Vec<RemoteFile>, String>>)
        ensures
            final(self)@ == size_polled(old(self)@, listing_view(listing)),
    {
        let result = match listing {
            Some(r) => r,
            None => {
                return;
            },
        };
        match &mut self.remote_model_size {
            Some(s) => {
                if !s.listing {
                    return;
                }
                s.listing = false;
                match result {
                    Ok(v) => match primary_gguf_bytes(&v, s.repo.as_str()) {
                        Some(n) => {
                            s.bytes = Some(n);
                            s.error = None;
                            self.config.model.estimated_bytes = Some(n);
                        },
                        None => {
                            s.bytes = None;
                            s.error = Some(
                                "No GGUF files found in the repository listing.".to_owned(),
                            );
                        },
                    },
                    Err(e) => {
                        s.bytes = None;
                        s.error = Some(e);
                    },
                }
            },
            None => {},
        }
    }

    /// Looks for models on disk.
    pub fn discover(&mut self, now: u64)
        ensures
            final(self)@ == discovering(old(self)@, now),
    {
        self.pending_discover = true;
        self.last_discover = now;
        self.want(Effect::Discover);
    }

    /// Takes in the models found on disk, and looks again when it is time.
    pub fn poll_discovered_models(&mut self, models: Option<Vec<DiscoveredModel>>, now: u64)
        ensures
            final(self)@ == models_polled(old(self)@, models_view(models), now),
    {
        match models {
            Some(m) => {
                if self.pending_discover {
                    self.discovered_models = m;
                    self.pending_discover = false;
                    self.last_discover = now;
                }
            },
            None => {},
        }
        if !self.pending_discover && now.saturating_sub(self.last_discover) >= DISCOVER_INTERVAL {
            self.discover(now);
        }
    }

    /// Takes in what happened to the fetch into the library.
    pub fn poll_library_fetch(&mut self, happened: &Vec<FetchEvent>, now: u64)
        ensures
            final(self)@ == fetch_seen(old(self)@, events(happened@), now),
    {
        let mut ended: bool = false;
        let mut failure: Option<String> = None;
        let mut what = String::new();
        match &mut self.library_fetch {
            None => {
                return;
            },
            Some(l) => {
                let was: bool = l.is_active();
                l.poll(happened, now);
                if was && l.done {
                    ended = true;
                    failure = crate::config::copy_opt(&l.error);
                    let mut w = l.repo.clone();
                    w.append(" (");
                    w.append(gib_text_fine(l.downloaded).as_str());
                    w.append(" GiB)");
                    what = w;
                }
            },
        }
        if !ended {
            return;
        }
        match failure {
            Some(m) => {
                let mut detail = "Download failed: ".to_owned();
                detail.append(m.as_str());
                self.slot.status_detail = detail;
                let mut line = "download failed: ".to_owned();
                line.append(m.as_str());
                self.push_log(line.as_str());
            },
            None => {
                let mut detail = "Downloaded ".to_owned();
                detail.append(what.as_str());
                self.slot.status_detail = detail;
                let mut line = "downloaded ".to_owned();
                line.append(what.as_str());
                self.push_log(line.as_str());
                self.discover(now);
                self.sync_remote_model_size();
            },
        }
    }

    /// Ends the first server's download where a line shows that the weights are
    /// read.
    pub fn observe_startup_line(&mut self, line: &str)
        ensures
            final(self)@ == (AppView { slot: startup_seen(old(self)@.slot, line@), ..old(self)@ }),
    {
        self.slot.see_startup_line(line);
    }

    fn read_lines(&mut self, v: &Vec<String>)
        ensures
            final(self)@ == lines_read(old(self)@, texts(v@)),
    {
        let ghost all = texts(v@);
        let ghost was = self@;
        let mut i: usize = 0;
        proof {
            assert(all.take(0) =~= Seq::<Text>::empty());
        }
        while i < v.len()
            invariant
                all == texts(v@),
                i <= v.len(),
                self@ == lines_read(was, all.take(i as int)),
            decreases v.len() - i,
        {
            proof {
                assert(all.take(i + 1).drop_last() =~= all.take(i as int));
                assert(all.take(i + 1).last() == v@[i as int]@);
            }
            self.observe_startup_line(v[i].as_str());
            self.push_log(v[i].as_str());
            i = i + 1;
        }
        proof {
            assert(all.take(all.len() as int) =~= all);
        }
    }

    fn tick_first(&mut self, n: ServerNews, now: u64) -> (w: Wanted)
        ensures
            ({
                let a = first_exit(
                    first_read(old(self)@, n@.logs, now),
                    n@.exit,
                    n@.tail,
                );
                &&& final(self)@ == first_moment(a, n@.arrived, now)
                &&& w == first_wants(a, n@.arrived, now)
            }),
    {
        let ghost a0 = self@;
        let ghost view = n@;
        self.slot.see_lines(&n.logs, now);
        let read = crate::instance::take_texts(n.logs);
        self.read_lines(&read);
        proof {
            lemma_startups_keep_throughput(a0.slot, texts(read@), view.logs, now);
            assert(self@ == first_read(a0, view.logs, now));
        }
        let ended: bool = self.slot.see_exit(n.exit);
        if ended {
            self.running_config = None;
            self.push_logs(&n.tail);
            let detail = self.slot.status_detail.clone();
            self.push_log(detail.as_str());
        }
        let listen: Option<String> = match &self.running_config {
            Some(c) => Some(c.listen_label()),
            None => None,
        };
        let label = self.displayed_config().model_label();
        let listen_text: Option<&str> = match &listen {
            Some(s) => Some(s.as_str()),
            None => None,
        };
        self.slot.tick(n.arrived, listen_text, label.as_str(), now)
    }

    fn tick_others(&mut self, n: Vec<ServerNews>, now: u64) -> (w: Vec<Wanted>)
        requires
            n@.len() == old(self).extra_servers@.len(),
        ensures
            final(self)@ == others_seen(old(self)@, news(n@), now),
            w@ == others_want(old(self)@.extra_servers, news(n@), now),
    {
        let ghost a0 = self@;
        let mut todo: Vec<ManagedServer> = Vec::new();
        todo.append(&mut self.extra_servers);
        proof {
            assert(servers(todo@) =~= a0.extra_servers);
        }
        let (done, printed, wants) = tick_all(todo, n, now);
        proof {
            assert(servers(self.extra_servers@) =~= Seq::<ManagedView>::empty());
        }
        self.read_lines(&printed);
        self.extra_servers = keep_servers(done);
        if !same(self.active_server_id.as_str(), PRIMARY_SERVER_ID) && find_server(
            &self.extra_servers,
            self.active_server_id.as_str(),
        ).is_none() {
            self.look_elsewhere();
        }
        wants
    }

    /// One moment: takes in what arrived, and gives what is to be done for the
    /// first server and for each of the others.
    pub fn tick(&mut self, n: AppNews, now: u64) -> (w: (Wanted, Vec<Wanted>))
        requires
            n.others@.len() == old(self).extra_servers@.len(),
        ensures
            final(self)@ == ticked(old(self)@, n@, now),
            w.0 == first_wants(before_first(old(self)@, n@, now), n@.first.arrived, now),
            w.1@ == others_want(old(self)@.extra_servers, n@.others, now),
    {
        let ghost a0 = self@;
        self.poll_remote_model_size(n.listing);
        self.poll_discovered_models(n.models, now);
        self.poll_library_fetch(&n.fetched, now);
        let first = self.tick_first(n.first, now);
        proof {
            assert(self@.extra_servers == a0.extra_servers);
            assert(self@.extra_servers.len() == self.extra_servers@.len());
            assert(a0.extra_servers.len() == old(self).extra_servers@.len());
        }
        let others = self.tick_others(n.others, now);
        self.sync_mdns_advertise();
        (first, others)
    }
}

fn tick_all(v: Vec<ManagedServer>, n: Vec<ServerNews>, now: u64) -> (r: (
    Vec<ManagedServer>,
    Vec<String>,
    Vec<Wanted>,
))
    requires
        n@.len() == v@.len(),
    ensures
        servers(r.0@) == others_moment(servers(v@), news(n@), now),
        texts(r.1@) == others_lines(servers(v@), news(n@), now),
        r.2@ == others_want(servers(v@), news(n@), now),
{
    let ghost was = servers(v@);
    let ghost told = news(n@);
    let ghost after = others_moment(was, told, now);
    let ghost want = others_want(was, told, now);
    let mut todo = v;
    let mut left = n;
    let mut done: Vec<ManagedServer> = Vec::new();
    let mut printed: Vec<String> = Vec::new();
    let mut wants: Vec<Wanted> = Vec::new();
    let ghost mut i: int = 0;
    proof {
        assert(was.skip(0) =~= was);
        assert(told.skip(0) =~= told);
        assert(servers(done@) =~= after.take(0));
        assert(was.take(0) =~= Seq::<ManagedView>::empty());
        assert(texts(printed@) =~= others_lines(was.take(0), told, now));
        assert(wants@ =~= want.take(0));
    }
    while todo.len() > 0
        invariant
            was.len() == told.len(),
            after == others_moment(was, told, now),
            want == others_want(was, told, now),
            0 <= i <= was.len(),
            todo.len() == was.len() - i,
            left.len() == told.len() - i,
            servers(todo@) == was.skip(i),
            news(left@) == told.skip(i),
            servers(done@) == after.take(i),
            texts(printed@) == others_lines(was.take(i), told, now),
            wants@ == want.take(i),
        decreases todo.len(),
    {
        let ghost tv = todo@;
        let ghost lv = left@;
        let mut s = todo.remove(0);
        let m = left.remove(0);
        let ghost sv = s@;
        let ghost mv = m@;
        proof {
            assert(servers(tv)[0] == sv);
            assert(news(lv)[0] == mv);
            assert(sv == was[i]);
            assert(mv == told[i]);
            assert forall|k: int| 0 <= k < todo.len() implies servers(todo@)[k] == was.skip(
                i + 1,
            )[k] by {
                assert(servers(tv)[k + 1] == tv[k + 1]@);
            }
            assert forall|k: int| 0 <= k < left.len() implies news(left@)[k] == told.skip(
                i + 1,
            )[k] by {
                assert(news(lv)[k + 1] == lv[k + 1]@);
            }
            assert(servers(todo@) =~= was.skip(i + 1));
            assert(news(left@) =~= told.skip(i + 1));
            assert(was.take(i + 1).drop_last() =~= was.take(i));
            assert(was.take(i + 1).last() == was[i]);
        }
        let ghost before = texts(printed@);
        let ghost dv = servers(done@);
        let (mut more, w) = s.tick(m, now);
        let ghost mt = texts(more@);
        printed.append(&mut more);
        let ghost next = s@;
        done.push(s);
        wants.push(w);
        proof {
            assert(texts(printed@) =~= before + mt);
            assert(servers(done@) =~= dv.push(next));
            assert(dv.push(next) =~= after.take(i + 1));
            assert(wants@ =~= want.take(i + 1));
            i = i + 1;
        }
    }
    proof {
        assert(was.take(i) =~= was);
        assert(after.take(i) =~= after);
        assert(want.take(i) =~= want);
    }
    (done, printed, wants)
}

fn keep_servers(v: Vec<ManagedServer>) -> (out: Vec<ManagedServer>)
    ensures
        servers(out@) == kept_servers(servers(v@)),
{
    let ghost all = servers(v@);
    let mut todo = v;
    let mut out: Vec<ManagedServer> = Vec::new();
    let ghost mut i: int = 0;
    proof {
        assert(all.take(0) =~= Seq::<ManagedView>::empty());
        assert(servers(out@) =~= kept_servers(all.take(0)));
        assert(servers(todo@) =~= all.skip(0));
    }
    while todo.len() > 0
        invariant
            0 <= i <= all.len(),
            todo.len() == all.len() - i,
            servers(todo@) == all.skip(i),
            servers(out@) == kept_servers(all.take(i)),
        decreases todo.len(),
    {
        let ghost tv = todo@;
        let s = todo.remove(0);
        let ghost was = servers(out@);
        let ghost sv = s@;
        proof {
            assert(servers(tv)[0] == sv);
            assert forall|k: int| 0 <= k < todo.len() implies servers(todo@)[k] == all.skip(
                i + 1,
            )[k] by {
                assert(servers(tv)[k + 1] == tv[k + 1]@);
            }
            assert(servers(todo@) =~= all.skip(i + 1));
            assert(all.take(i + 1).drop_last() =~= all.take(i));
            assert(all.take(i + 1).last() == sv);
        }
        if s.is_running() || s.slot.status == ServerStatus::Failed {
            out.push(s);
            proof {
                assert(servers(out@) =~= was.push(sv));
            }
        }
        proof {
            i = i + 1;
        }
    }
    proof {
        assert(all.take(i) =~= all);
    }
    out
}

proof fn lemma_startups_keep_throughput(
    s: SlotView,
    v: Seq<Text>,
    l: Seq<LineView>,
    now: u64,
)
    ensures
        startups_seen(s, v).throughput == s.throughput,
        startups_seen(SlotView { throughput: lines_seen(s.throughput, l, now), ..s }, v) == (
        SlotView { throughput: lines_seen(s.throughput, l, now), ..startups_seen(s, v) }),
    decreases v.len(),
{
    if v.len() > 0 {
        lemma_startups_keep_throughput(s, v.drop_last(), l, now);
    }
}

proof fn lemma_kept_servers(s: Seq<ManagedView>)
    ensures
        forall|i: int| 0 <= i < kept_servers(s).len() ==> kept(#[trigger] kept_servers(s)[i]),
    decreases s.len(),
{
    if s.len() > 0 {
        let init = kept_servers(s.drop_last());
        lemma_kept_servers(s.drop_last());
        assert forall|i: int| 0 <= i < kept_servers(s).len() implies kept(
            #[trigger] kept_servers(s)[i],
        ) by {
            if i < init.len() {
                assert(kept(init[i]));
            }
        }
    }
}

/// After every moment, each server beside the first runs or failed, and the one
/// looked at is there.
pub proof fn law_moment_leaves_live_servers(a: AppView, n: AppNewsView, now: u64)
    ensures
        ({
            let b = ticked(a, n, now);
            &&& forall|i: int|
                0 <= i < b.extra_servers.len() ==> kept(#[trigger] b.extra_servers[i])
            &&& (b.active_server_id == PRIMARY_SERVER_ID@ || server_at(
                b.extra_servers,
                b.active_server_id,
                0,
            ) is Some)
        }),
{
    let b = first_moment(before_first(a, n, now), n.first.arrived, now);
    let c = lines_read(
        AppView { extra_servers: others_moment(b.extra_servers, n.others, now), ..b },
        others_lines(b.extra_servers, n.others, now),
    );
    lemma_kept_servers(c.extra_servers);
    let d = AppView { extra_servers: kept_servers(c.extra_servers), ..c };
    if let Some(i) = crate::servers::running_at(d.extra_servers, 0) {
        lemma_found(d.extra_servers, 0);
    }
}

proof fn lemma_found(s: Seq<ManagedView>, from: int)
    requires
        0 <= from,
        crate::servers::running_at(s, from) is Some,
    ensures
        crate::servers::running_at(s, from) matches Some(i) && from <= i < s.len() && server_at(
            s,
            s[i].id,
            0,
        ) is Some,
    decreases s.len() - from,
{
    if s[from].slot.process is None {
        lemma_found(s, from + 1);
    } else {
        crate::servers::lemma_server_at(s, s[from].id, 0);
    }
}

/// No moment changes the settings, but for the size that a listing tells.
pub proof fn law_moment_keeps_settings(a: AppView, n: AppNewsView, now: u64)
    ensures
        ({
            let c = ticked(a, n, now).config;
            c == (ConfigView {
                model: ModelView {
                    estimated_bytes: c.model.estimated_bytes,
                    ..a.config.model
                },
                ..a.config
            })
        }),
{
}

/// The servers that stay are those that run and those that failed, which are kept
/// to be looked at.
pub proof fn law_only_ended_servers_leave(s: Seq<ManagedView>, x: ManagedView)
    ensures
        kept_servers(s).contains(x) <==> s.contains(x) && (x.slot.process is Some || x.slot.status
            == ServerStatus::Failed),
    decreases s.len(),
{
    if s.len() > 0 {
        let init = s.drop_last();
        law_only_ended_servers_leave(init, x);
        assert(s =~= init.push(s.last()));
        crate::order::lemma_holds_pushed(init, s.last(), x);
        crate::order::lemma_holds_pushed(kept_servers(init), s.last(), x);
    }
}

/// News of an end reach the server that they are about: it has no process then,
/// and has failed unless it ended well. The others keep theirs.
pub proof fn law_end_reaches_its_server(
    s: Seq<ManagedView>,
    n: Seq<NewsView>,
    now: u64,
    i: int,
    code: Option<i32>,
)
    requires
        0 <= i < s.len(),
        n.len() == s.len(),
        s[i].slot.process is Some,
    ensures
        others_moment(s, n, now)[i].id == s[i].id,
        others_moment(s, n, now)[i].running_config == s[i].running_config,
        n[i].exit == (ExitView::Exited { success: false, code }) ==> others_moment(
            s,
            n,
            now,
        )[i].slot.process is None && others_moment(s, n, now)[i].slot.status
            == ServerStatus::Failed,
        n[i].exit == (ExitView::Exited { success: true, code }) ==> others_moment(
            s,
            n,
            now,
        )[i].slot.process is None && others_moment(s, n, now)[i].slot.status
            == ServerStatus::Stopped,
        n[i].exit == ExitView::Running ==> others_moment(s, n, now)[i].slot.process
            == s[i].slot.process,
{
}

/// The size of a hosted model that a listing tells is the size that the settings
/// keep; where the listing fails, the reason is kept and the settings stay.
pub proof fn law_listed_size_is_kept(
    a: AppView,
    s: RemoteSizeView,
    r: Result<Seq<FileModel>, Text>,
)
    requires
        a.remote_model_size == Some(s),
        s.listing,
    ensures
        listed_size(r, s.repo) matches Ok(n) ==> size_polled(
            a,
            Some(r),
        ).config.model.estimated_bytes == Some(n) && (size_polled(
            a,
            Some(r),
        ).remote_model_size matches Some(x) && x.bytes == Some(n) && x.repo == s.repo
            && !x.listing),
        listed_size(r, s.repo) matches Err(e) ==> size_polled(a, Some(r)).config == a.config && (
        size_polled(a, Some(r)).remote_model_size matches Some(x) && x.error == Some(e)
            && x.bytes is None && !x.listing),
        size_polled(a, Some(r)).config.model.source == a.config.model.source,
        size_polled(a, None) == a,
{
}

/// Models that were found on disk take the place of those found before, and are
/// looked for again a quarter of a minute later.
pub proof fn law_found_models_are_shown(a: AppView, m: Seq<FoundView>, at: u64, now: u64)
    requires
        a.pending_discover,
    ensures
        models_polled(a, Some(m), at).discovered_models == m,
        !models_polled(a, Some(m), at).pending_discover,
        now >= at + 15_000 ==> models_polled(
            models_polled(a, Some(m), at),
            None,
            now,
        ).pending_discover,
        at <= now < at + 15_000 ==> !models_polled(
            models_polled(a, Some(m), at),
            None,
            now,
        ).pending_discover,
{
}

} // verus!
