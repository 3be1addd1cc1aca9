//! What the page shows of the models, the downloads and the servers.
use vstd::prelude::*;

use crate::app::{label_for, App, AppView};
use crate::bind::{base_url, label_of};
use crate::command::{command_of, quoted, quoted_all, CommandSpec};
use crate::config::{blank, copy_opt, ModelSource, RuntimePreset, SourceView};
use crate::disk::{DiskFacts, PathFact};
use crate::display::{
    access_parts, access_summary, download_progress, download_summary, fetching, library_progress,
    library_download_progress, progress_parts, repos_match, runtime_summary, runtime_text, same_repo,
    seconds_left,
};
use crate::download::{
    part_of, rate_of, time_left, Download, DownloadView, LibraryFetch, LibraryView, Rate,
};
use crate::instance::{servers, ManagedView};
use crate::library::{available, available_list, entries, library_list, EntryView, ModelPickerEntry};
use crate::panel::{hint_for, mapped_bytes, raw_value, shown_value, size_loading};
use crate::rates::ServerMetrics;
use crate::servers::{
    all_summaries, displayed, find_running, find_server, pending_changes, running_at, server_at,
    summaries, ServerSummary,
};
use crate::settings::{all_fields, editable, field_id, toggle, SettingField};
use crate::slot::{status_word, ProcessUsage, ServerStatus, SlotView};
use crate::system::Machine;
use crate::text::{joined, opt_text, texts, Text};
use crate::units::{format_size_label, gib_tenths, gib_text, size_label};

verus! {

broadcast use vstd::string::group_string_axioms;

/// Whether the process of any server runs.
pub open spec fn anything_runs(a: AppView) -> bool {
    a.slot.process is Some || running_at(a.extra_servers, 0) is Some
}

/// The repository that is being fetched into the library.
pub open spec fn fetched_repo(a: AppView) -> Option<Text> {
    match a.library_fetch {
        Some(f) => if !f.done && f.error is None {
            Some(f.repo)
        } else {
            None
        },
        None => None,
    }
}

/// The size of what is or was fetched into the library.
pub open spec fn fetched_total(a: AppView) -> Option<u64> {
    match a.library_fetch {
        Some(f) => if f.done || f.error is None {
            f.total
        } else {
            None
        },
        None => None,
    }
}

/// A model as a list shows it.
#[derive(Debug)]
pub struct RecentModelState {
    pub index: usize,
    pub id: String,
    pub kind: &'static str,
    pub label: String,
    pub selected: bool,
    pub recent: bool,
    pub on_disk: bool,
    pub deletable: bool,
    pub downloadable: bool,
    pub downloading: bool,
    pub bytes: u64,
    pub size_display: Option<String>,
    pub status: &'static str,
}

/// The view of [`RecentModelState`].
#[verifier::ext_equal]
pub struct CardView {
    pub index: nat,
    pub id: Text,
    pub kind: Text,
    pub label: Text,
    pub selected: bool,
    pub recent: bool,
    pub on_disk: bool,
    pub deletable: bool,
    pub downloadable: bool,
    pub downloading: bool,
    pub bytes: u64,
    pub size_display: Option<Text>,
    pub status: Text,
}

impl View for RecentModelState {
    type V = CardView;

    open spec fn view(&self) -> CardView {
        CardView {
            index: self.index as nat,
            id: self.id@,
            kind: self.kind@,
            label: self.label@,
            selected: self.selected,
            recent: self.recent,
            on_disk: self.on_disk,
            deletable: self.deletable,
            downloadable: self.downloadable,
            downloading: self.downloading,
            bytes: self.bytes,
            size_display: opt_text(self.size_display),
            status: self.status@,
        }
    }
}

/// Whether a model is the one being fetched into the library.
pub open spec fn is_fetched(a: AppView, s: SourceView) -> bool {
    match (fetched_repo(a), s) {
        (Some(repo), SourceView::HuggingFace(id)) => same_repo(id, repo),
        _ => false,
    }
}

/// The size that a list shows of a model.
pub open spec fn card_bytes(a: AppView, files: Seq<PathFact>, e: EntryView) -> u64 {
    if is_fetched(a, e.source) {
        match fetched_total(a) {
            Some(t) if t > 0 => t,
            _ => e.bytes,
        }
    } else if e.bytes > 0 {
        e.bytes
    } else if e.source == a.config.model.source {
        match mapped_bytes(a, files) {
            Some(n) => n,
            None => 0,
        }
    } else {
        0
    }
}

/// What a source is called, as it was entered.
pub open spec fn entered(s: SourceView) -> Text {
    match s {
        SourceView::HuggingFace(id) => id,
        SourceView::Local(path) => path,
    }
}

/// A model as a list shows it.
pub open spec fn card(a: AppView, files: Seq<PathFact>, index: nat, e: EntryView) -> CardView {
    let running = anything_runs(a);
    let fetching = is_fetched(a, e.source);
    CardView {
        index,
        id: entered(e.source),
        kind: if e.source is HuggingFace {
            "Hugging Face"@
        } else {
            "Local GGUF"@
        },
        label: entered(e.source),
        selected: !blank(a.config.model.source) && e.source == a.config.model.source,
        recent: e.recent,
        on_disk: e.on_disk,
        deletable: !running && !fetching,
        downloadable: e.source is HuggingFace && !running && !e.on_disk && fetched_repo(a) is None,
        downloading: fetching,
        bytes: card_bytes(a, files, e),
        size_display: size_label(card_bytes(a, files, e)),
        status: if fetching {
            "Downloading"@
        } else if e.on_disk {
            "Ready"@
        } else {
            "Not downloaded"@
        },
    }
}

/// Models as a list shows them.
pub open spec fn cards(a: AppView, files: Seq<PathFact>, v: Seq<EntryView>) -> Seq<CardView> {
    Seq::new(v.len(), |i: int| card(a, files, i as nat, v[i]))
}

/// The views of listed models.
pub open spec fn card_views(v: Seq<RecentModelState>) -> Seq<CardView> {
    Seq::new(v.len(), |i: int| v[i]@)
}

impl App {
    /// Whether the process of any server runs.
    pub fn any_server_runs(&self) -> (r: bool)
        ensures
            r == anything_runs(self@),
    {
        self.slot.is_running() || find_running(&self.extra_servers).is_some()
    }

    fn fetching_model(&self, s: &ModelSource) -> (r: bool)
        ensures
            r == is_fetched(self@, s@),
    {
        match &self.library_fetch {
            Some(f) => f.is_active() && (match s {
                ModelSource::HuggingFace(id) => repos_match(id.as_str(), f.repo.as_str()),
                ModelSource::Local(_) => false,
            }),
            None => false,
        }
    }

    fn listed_bytes(&self, files: &Vec<PathFact>, e: &ModelPickerEntry) -> (n: u64)
        ensures
            n == card_bytes(self@, files@, e@),
    {
        if self.fetching_model(&e.source) {
            let total: Option<u64> = match &self.library_fetch {
                Some(f) => if f.done || f.error.is_none() {
                    f.total
                } else {
                    None
                },
                None => None,
            };
            match total {
                Some(t) if t > 0 => t,
                _ => e.bytes,
            }
        } else if e.bytes > 0 {
            e.bytes
        } else if e.source.same(&self.config.model.source) {
            match self.mapped_model_bytes(files) {
                Some(n) => n,
                None => 0,
            }
        } else {
            0
        }
    }

    /// A model as a list shows it. `files` says of the files of a local model
    /// that is chosen which are there and how long they are.
    pub fn model_card(&self, files: &Vec<PathFact>, index: usize, e: &ModelPickerEntry) -> (r:
        RecentModelState)
        ensures
            r@ == card(self@, files@, index as nat, e@),
    {
        let running = self.any_server_runs();
        let fetching = self.fetching_model(&e.source);
        let idle = match &self.library_fetch {
            Some(f) => !f.is_active(),
            None => true,
        };
        let bytes: u64 = self.listed_bytes(files, e);
        let (hosted, label) = match &e.source {
            ModelSource::HuggingFace(id) => (true, id.clone()),
            ModelSource::Local(path) => (false, path.clone()),
        };
        RecentModelState {
            index,
            id: label.clone(),
            kind: if hosted {
                "Hugging Face"
            } else {
                "Local GGUF"
            },
            label,
            selected: self.has_active_model() && e.source.same(&self.config.model.source),
            recent: e.recent,
            on_disk: e.on_disk,
            deletable: !running && !fetching,
            downloadable: hosted && !running && !e.on_disk && idle,
            downloading: fetching,
            bytes,
            size_display: format_size_label(bytes),
            status: if fetching {
                "Downloading"
            } else if e.on_disk {
                "Ready"
            } else {
                "Not downloaded"
            },
        }
    }

    fn model_cards(&self, files: &Vec<PathFact>, v: &Vec<ModelPickerEntry>) -> (out: Vec<
        RecentModelState,
    >)
        ensures
            card_views(out@) == cards(self@, files@, entries(v@)),
    {
        let mut out: Vec<RecentModelState> = Vec::new();
        let mut i: usize = 0;
        while i < v.len()
            invariant
                i <= v.len(),
                out.len() == i,
                forall|k: int|
                    0 <= k < i ==> (#[trigger] out@[k])@ == card(self@, files@, k as nat, v@[k]@),
            decreases v.len() - i,
        {
            out.push(self.model_card(files, i, &v[i]));
            i = i + 1;
        }
        proof {
            assert(card_views(out@) =~= cards(self@, files@, entries(v@)));
        }
        out
    }
}

/// What is known of the size of the model that is chosen.
#[derive(Debug)]
pub struct MappedSizeState {
    pub bytes: Option<u64>,
    pub display: String,
    pub detail: String,
    pub loading: bool,
    pub error: Option<String>,
}

/// The view of [`MappedSizeState`].
#[verifier::ext_equal]
pub struct MappedView {
    pub bytes: Option<u64>,
    pub display: Text,
    pub detail: Text,
    pub loading: bool,
    pub error: Option<Text>,
}

impl View for MappedSizeState {
    type V = MappedView;

    open spec fn view(&self) -> MappedView {
        MappedView {
            bytes: self.bytes,
            display: self.display@,
            detail: self.detail@,
            loading: self.loading,
            error: opt_text(self.error),
        }
    }
}

/// Why the size of a hosted model is not known.
pub open spec fn size_error(a: AppView) -> Option<Text> {
    match a.remote_model_size {
        Some(s) => s.error,
        None => None,
    }
}

/// What is known of the size of the model that is chosen.
pub open spec fn mapped_size(a: AppView, files: Seq<PathFact>) -> MappedView {
    match mapped_bytes(a, files) {
        Some(n) => MappedView {
            bytes: Some(n),
            display: gib_tenths(n) + " GiB"@,
            detail: (if a.config.model.source is Local {
                "Measured from the local GGUF file on disk"@
            } else {
                "Fetched from the Hugging Face repository listing"@
            }) + ". mmap maps this from disk; it does not need to fit in RAM."@,
            loading: false,
            error: None,
        },
        None => if size_loading(a) {
            MappedView {
                bytes: None,
                display: "Fetching…"@,
                detail: "Asking Hugging Face for the GGUF file size."@,
                loading: true,
                error: None,
            }
        } else {
            MappedView {
                bytes: None,
                display: "Unavailable"@,
                detail: match size_error(a) {
                    Some(e) => e,
                    None => "Model file size could not be determined."@,
                },
                loading: false,
                error: size_error(a),
            }
        },
    }
}

impl MappedSizeState {
    /// What is known of the size of the model that is chosen.
    pub fn from_app(app: &App, files: &Vec<PathFact>) -> (r: MappedSizeState)
        ensures
            r@ == mapped_size(app@, files@),
    {
        match app.mapped_model_bytes(files) {
            Some(n) => {
                let mut display = gib_text(n);
                display.append(" GiB");
                let mut detail = match &app.config.model.source {
                    ModelSource::Local(_) => "Measured from the local GGUF file on disk".to_owned(),
                    ModelSource::HuggingFace(_) => {
                        "Fetched from the Hugging Face repository listing".to_owned()
                    },
                };
                detail.append(". mmap maps this from disk; it does not need to fit in RAM.");
                MappedSizeState { bytes: Some(n), display, detail, loading: false, error: None }
            },
            None => {
                if app.remote_model_size_loading() {
                    return MappedSizeState {
                        bytes: None,
                        display: "Fetching…".to_owned(),
                        detail: "Asking Hugging Face for the GGUF file size.".to_owned(),
                        loading: true,
                        error: None,
                    };
                }
                let error: Option<String> = match app.remote_model_size_error() {
                    Some(e) => Some(e.to_owned()),
                    None => None,
                };
                let detail = match &error {
                    Some(e) => e.clone(),
                    None => "Model file size could not be determined.".to_owned(),
                };
                MappedSizeState {
                    bytes: None,
                    display: "Unavailable".to_owned(),
                    detail,
                    loading: false,
                    error,
                }
            },
        }
    }
}

/// What is shown of a download.
#[derive(Debug)]
pub struct DownloadState {
    pub repo: String,
    pub file: Option<String>,
    pub downloaded: u64,
    pub total: Option<u64>,
    /// The part that is there, and the whole.
    pub fraction: Option<(u64, u64)>,
    pub rate: Option<Rate>,
    pub eta_seconds: Option<u64>,
    pub listing_error: Option<String>,
    pub summary: String,
    pub progress: String,
}

/// The view of [`DownloadState`].
#[verifier::ext_equal]
pub struct DownloadShown {
    pub repo: Text,
    pub file: Option<Text>,
    pub downloaded: u64,
    pub total: Option<u64>,
    pub fraction: Option<(u64, u64)>,
    pub rate: Option<Rate>,
    pub eta_seconds: Option<u64>,
    pub listing_error: Option<Text>,
    pub summary: Text,
    pub progress: Text,
}

impl View for DownloadState {
    type V = DownloadShown;

    open spec fn view(&self) -> DownloadShown {
        DownloadShown {
            repo: self.repo@,
            file: opt_text(self.file),
            downloaded: self.downloaded,
            total: self.total,
            fraction: self.fraction,
            rate: self.rate,
            eta_seconds: self.eta_seconds,
            listing_error: opt_text(self.listing_error),
            summary: self.summary@,
            progress: self.progress@,
        }
    }
}

/// A time that is left, in seconds.
pub open spec fn eta_of(millis: Option<int>) -> Option<u64> {
    match millis {
        Some(n) => Some(seconds_left(n)),
        None => None,
    }
}

/// What is shown of a download that a launch started.
pub open spec fn shown_download(d: DownloadView) -> DownloadShown {
    let rate = rate_of(d.samples);
    DownloadShown {
        repo: d.repo,
        file: d.file,
        downloaded: d.downloaded,
        total: d.total,
        fraction: part_of(d.downloaded, d.total),
        rate,
        eta_seconds: eta_of(time_left(d.downloaded, d.total, rate)),
        listing_error: d.listing_error,
        summary: fetching(d.file, d.repo),
        progress: joined(progress_parts(d), "  ·  "@),
    }
}

/// What is shown of a fetch into the library.
pub open spec fn shown_fetch(f: LibraryView) -> DownloadShown {
    let rate = rate_of(f.samples);
    DownloadShown {
        repo: f.repo,
        file: f.file,
        downloaded: f.downloaded,
        total: f.total,
        fraction: part_of(f.downloaded, f.total),
        rate,
        eta_seconds: eta_of(time_left(f.downloaded, f.total, rate)),
        listing_error: f.error,
        summary: fetching(f.file, f.repo),
        progress: library_progress(f),
    }
}

impl DownloadState {
    /// What is shown of a download that a launch started.
    pub fn from_download(d: &Download) -> (r: DownloadState)
        ensures
            r@ == shown_download(d@),
    {
        DownloadState {
            repo: d.repo.clone(),
            file: copy_opt(&d.file),
            downloaded: d.downloaded,
            total: d.total,
            fraction: d.fraction(),
            rate: d.rate(),
            eta_seconds: crate::display::download_eta(d),
            listing_error: d.listing_error(),
            summary: download_summary(&d.file, d.repo.as_str()),
            progress: download_progress(d),
        }
    }

    /// What is shown of a fetch into the library.
    pub fn from_library_fetch(f: &LibraryFetch) -> (r: DownloadState)
        ensures
            r@ == shown_fetch(f@),
    {
        DownloadState {
            repo: f.repo.clone(),
            file: copy_opt(&f.file),
            downloaded: f.downloaded,
            total: f.total,
            fraction: f.fraction(),
            rate: f.rate(),
            eta_seconds: crate::display::library_eta(f),
            listing_error: copy_opt(&f.error),
            summary: download_summary(&f.file, f.repo.as_str()),
            progress: library_download_progress(f),
        }
    }
}

/// The view of what is shown of a download, where there is one.
pub open spec fn opt_shown(d: Option<DownloadState>) -> Option<DownloadShown> {
    match d {
        Some(x) => Some(x@),
        None => None,
    }
}

/// A field as the settings page shows it.
#[derive(Debug)]
pub struct SettingState {
    pub field: SettingField,
    pub id: &'static str,
    pub label: &'static str,
    pub value: String,
    pub raw: String,
    pub hint: &'static str,
    pub editable: bool,
    pub toggle: bool,
    pub choices: Option<Vec<String>>,
}

/// Whether a field is shown as it is.
pub open spec fn shows_field(
    s: SettingState,
    a: AppView,
    files: Seq<PathFact>,
    f: SettingField,
) -> bool {
    &&& s.field == f
    &&& s.id@ == field_id(f)
    &&& s.label@ == label_for(f, a.config.model.source)
    &&& s.value@ == shown_value(a, f, files)
    &&& s.raw@ == raw_value(a, f, files)
    &&& s.hint@ == hint_for(f, a.config.model.source)
    &&& s.editable == (editable(f) && f != SettingField::EstimatedSize)
    &&& s.toggle == toggle(f)
    &&& (s.choices is Some) == (f == SettingField::CacheTypeK || f == SettingField::CacheTypeV)
    &&& s.choices matches Some(v) ==> texts(v@) == crate::config::cache_types()
}

/// The fields that the settings page shows.
pub open spec fn page_fields() -> Seq<SettingField> {
    all_fields().remove(2)
}

impl App {
    /// The fields as the settings page shows them: all but the size of the
    /// model, which is shown elsewhere.
    pub fn setting_states(&self, files: &Vec<PathFact>) -> (out: Vec<SettingState>)
        ensures
            out.len() == page_fields().len(),
            forall|i: int|
                0 <= i < out.len() ==> shows_field(
                    #[trigger] out@[i],
                    self@,
                    files@,
                    page_fields()[i],
                ),
    {
        let mut fields = SettingField::all();
        fields.remove(2);
        let mut out: Vec<SettingState> = Vec::new();
        let mut i: usize = 0;
        while i < fields.len()
            invariant
                i <= fields.len(),
                fields@ == page_fields(),
                out.len() == i,
                forall|k: int|
                    0 <= k < i ==> shows_field(
                        #[trigger] out@[k],
                        self@,
                        files@,
                        page_fields()[k],
                    ),
            decreases fields.len() - i,
        {
            let f: SettingField = fields[i];
            out.push(
                SettingState {
                    field: f,
                    id: f.id(),
                    label: self.setting_label(f),
                    value: self.setting_value(f, files),
                    raw: self.setting_raw_value(f, files),
                    hint: self.setting_hint(f),
                    editable: self.setting_is_editable(f),
                    toggle: f.is_toggle(),
                    choices: f.choices(),
                },
            );
            i = i + 1;
        }
        out
    }
}

/// A profile as the page offers it.
#[derive(Debug)]
pub struct PresetState {
    pub preset: RuntimePreset,
    pub id: &'static str,
    pub label: &'static str,
    pub available: bool,
}

fn preset_state(p: RuntimePreset, unified: bool) -> (r: PresetState)
    ensures
        r.preset == p,
        r.id@ == p.name(),
        r.label@ == p.title(),
        r.available == !(unified && p == RuntimePreset::GpuFit),
{
    PresetState {
        preset: p,
        id: p.id(),
        label: p.label(),
        available: !(unified && p.blocked_on_unified_memory()),
    }
}

/// Whether both profiles are offered, one that needs memory of its own for the
/// graphics only where there is such.
pub open spec fn offers_presets(v: Seq<PresetState>, unified: bool) -> bool {
    &&& v.len() == 2
    &&& v[0].preset == RuntimePreset::LowRam
    &&& v[1].preset == RuntimePreset::GpuFit
    &&& forall|i: int|
        0 <= i < 2 ==> (#[trigger] v[i]).id@ == v[i].preset.name() && v[i].label@
            == v[i].preset.title() && v[i].available == !(unified && v[i].preset
            == RuntimePreset::GpuFit)
}

/// The profiles as the page offers them.
pub fn preset_states(unified: bool) -> (out: Vec<PresetState>)
    ensures
        offers_presets(out@, unified),
{
    vec![preset_state(RuntimePreset::LowRam, unified), preset_state(RuntimePreset::GpuFit, unified)]
}

/// The server that is looked at: another one of its name, or the first.
pub open spec fn looked_at(a: AppView) -> SlotView {
    match server_at(a.extra_servers, a.active_server_id, 0) {
        Some(i) => a.extra_servers[i].slot,
        None => a.slot,
    }
}

/// The download that is shown: of the server that is looked at, or, for the
/// first one, a fetch into the library.
pub open spec fn download_shown(a: AppView) -> Option<DownloadShown> {
    let of_server = match looked_at(a).download {
        Some(d) => if d.active {
            Some(shown_download(d))
        } else {
            None
        },
        None => None,
    };
    if server_at(a.extra_servers, a.active_server_id, 0) is Some || of_server is Some {
        of_server
    } else {
        match a.library_fetch {
            Some(f) => if !f.done && f.error is None {
                Some(shown_fetch(f))
            } else {
                None
            },
            None => None,
        }
    }
}

/// The fetch into the library that is shown: one that goes on or failed.
pub open spec fn library_shown(a: AppView) -> Option<DownloadShown> {
    match a.library_fetch {
        Some(f) => if !f.done || f.error is Some {
            Some(shown_fetch(f))
        } else {
            None
        },
        None => None,
    }
}

/// The machine as the page shows it.
#[derive(Debug)]
pub struct MachineState {
    pub cpu_name: String,
    pub logical_cpus: usize,
    pub physical_cpus: usize,
    pub available_bytes: u64,
    pub total_bytes: u64,
    pub runtime_summary: String,
    pub access_summary: String,
}

/// Everything that the page shows but the network.
#[derive(Debug)]
pub struct AppState {
    pub status: ServerStatus,
    pub status_label: &'static str,
    pub status_detail: String,
    pub theme: &'static str,
    pub font_body: String,
    pub font_display: String,
    pub font_mono: String,
    pub font_scale: &'static str,
    pub running: bool,
    pub endpoint_online: bool,
    pub thinking_supported: bool,
    pub pending_changes: bool,
    pub missing_server: bool,
    pub model: String,
    pub endpoint: String,
    pub api_endpoint: String,
    pub command: String,
    pub config_path: String,
    pub pid: Option<u32>,
    pub machine: MachineState,
    pub mapped_size: MappedSizeState,
    pub download: Option<DownloadState>,
    pub library_download: Option<DownloadState>,
    pub process: Option<ProcessUsage>,
    pub metrics: Option<ServerMetrics>,
    pub library: Vec<RecentModelState>,
    pub available: Vec<RecentModelState>,
    pub has_active_model: bool,
    pub settings: Vec<SettingState>,
    pub presets: Vec<PresetState>,
    pub active_preset: Option<RuntimePreset>,
    pub logs: Vec<String>,
    pub servers: Vec<ServerSummary>,
    pub active_server_id: String,
}

/// Whether the server that is looked at is shown as it is.
pub open spec fn shows_server(s: AppState, a: AppView) -> bool {
    let slot = looked_at(a);
    &&& s.status == slot.status
    &&& s.status_label@ == status_word(slot.status)
    &&& s.status_detail@ == slot.status_detail
    &&& s.endpoint_online == slot.endpoint_online
    &&& s.pid == slot.process
    &&& s.process == slot.process_usage
    &&& s.metrics == slot.throughput.metrics
    &&& opt_shown(s.download) == download_shown(a)
}

/// Whether the settings that are in force are shown as they are.
pub open spec fn shows_config(s: AppState, a: AppView, threads: nat) -> bool {
    let c = displayed(a);
    let cmd = command_of(c, threads);
    &&& s.model@ == label_of(c.model.source)
    &&& s.endpoint@ == base_url(c)
    &&& s.api_endpoint@ == base_url(c) + "/v1"@
    &&& s.command@ == joined(seq![quoted(cmd.program)] + quoted_all(cmd.args), " "@)
    &&& s.machine.runtime_summary@ == runtime_text(c.runtime)
    &&& s.machine.access_summary@ == joined(access_parts(c), " · "@)
}

/// Whether the models are shown as they are.
pub open spec fn shows_models(
    s: AppState,
    a: AppView,
    files: Seq<PathFact>,
    facts: Seq<DiskFacts>,
) -> bool {
    &&& s.mapped_size@ == mapped_size(a, files)
    &&& opt_shown(s.library_download) == library_shown(a)
    &&& card_views(s.library@) == cards(
        a,
        files,
        library_list(a.config.recent_models, a.discovered_models, facts),
    )
    &&& card_views(s.available@) == cards(
        a,
        files,
        available_list(available(a.discovered_models, a.config.recent_models)),
    )
    &&& s.has_active_model == !blank(a.config.model.source)
}

impl AppState {
    /// Everything that the page shows but the network. `files` says of the files
    /// of a local model which are there and how long they are, and the facts stand in the order of the models
    /// that are remembered.
    pub fn from_app(
        app: &App,
        machine: &Machine,
        files: &Vec<PathFact>,
        facts: &Vec<DiskFacts>,
        unified: bool,
        threads: usize,
    ) -> (s: AppState)
        requires
            facts@.len() == app.config.recent_models@.len(),
        ensures
            shows_server(s, app@),
            shows_config(s, app@, threads as nat),
            shows_models(s, app@, files@, facts@),
            s.theme@ == crate::appearance::theme_word(app@.appearance.theme),
            s.font_body@ == app@.appearance.font_body,
            s.font_display@ == app@.appearance.font_display,
            s.font_mono@ == app@.appearance.font_mono,
            s.font_scale@ == crate::appearance::scale_word(app@.appearance.font_scale),
            s.running == anything_runs(app@),
            s.thinking_supported == app.thinks(),
            s.pending_changes == pending_changes(app@),
            s.missing_server == app@.missing_server_prompt,
            s.config_path@ == app@.config_path,
            s.machine.cpu_name@ == machine.cpu_name@,
            s.machine.logical_cpus == machine.logical_cpus,
            s.machine.physical_cpus == machine.physical_cpus,
            s.machine.available_bytes == machine.available_memory_bytes,
            s.machine.total_bytes == machine.total_memory_bytes,
            s.settings.len() == page_fields().len(),
            forall|i: int|
                0 <= i < s.settings.len() ==> shows_field(
                    #[trigger] s.settings@[i],
                    app@,
                    files@,
                    page_fields()[i],
                ),
            offers_presets(s.presets@, unified),
            s.active_preset == RuntimePreset::of(app@.config.runtime),
            texts(s.logs@) == app@.logs,
            summaries(s.servers@) == all_summaries(app@),
            s.active_server_id@ == app@.active_server_id,
    {
        let config = app.displayed_config();
        let spec = CommandSpec::from_config_with_threads(config, threads);
        let slot = match find_server(&app.extra_servers, app.active_server_id.as_str()) {
            Some(i) => {
                proof {
                    assert(servers(app.extra_servers@)[i as int] == app.extra_servers@[i as int]@);
                }
                &app.extra_servers[i].slot
            },
            None => &app.slot,
        };
        AppState {
            status: slot.status,
            status_label: slot.status.label(),
            status_detail: slot.status_detail.clone(),
            theme: app.appearance.theme.as_str(),
            font_body: app.appearance.font_body.clone(),
            font_display: app.appearance.font_display.clone(),
            font_mono: app.appearance.font_mono.clone(),
            font_scale: app.appearance.font_scale.as_str(),
            running: app.any_server_runs(),
            endpoint_online: slot.endpoint_online,
            thinking_supported: app.thinking_supported(),
            pending_changes: app.has_pending_changes(),
            missing_server: app.should_prompt_for_server(),
            model: config.model_label(),
            endpoint: config.endpoint(),
            api_endpoint: config.api_endpoint(),
            command: spec.display(),
            config_path: app.config_path.clone(),
            pid: slot.process,
            machine: MachineState {
                cpu_name: machine.cpu_name.clone(),
                logical_cpus: machine.logical_cpus,
                physical_cpus: machine.physical_cpus,
                available_bytes: machine.available_memory_bytes,
                total_bytes: machine.total_memory_bytes,
                runtime_summary: runtime_summary(config),
                access_summary: access_summary(config),
            },
            mapped_size: MappedSizeState::from_app(app, files),
            download: app.page_download(),
            library_download: app.page_library_fetch(),
            process: slot.process_usage,
            metrics: slot.throughput.metrics,
            library: app.model_cards(files, &app.library_entries(facts)),
            available: app.model_cards(files, &app.available_entries()),
            has_active_model: app.has_active_model(),
            settings: app.setting_states(files),
            presets: preset_states(unified),
            active_preset: app.active_runtime_preset(),
            logs: crate::text::copy_list(&app.logs),
            servers: app.server_summaries(),
            active_server_id: app.active_server_id.clone(),
        }
    }
}

impl App {
    /// Whether the server that is looked at can think aloud.
    pub open spec fn thinks(&self) -> bool {
        self@.config.network.inference_mode != crate::network::InferenceMode::Remote && (
        match crate::servers::active_extra(self@) {
            Some(i) => self@.extra_servers[i].slot.thinking_supported == Some(true),
            None => self@.slot.thinking_supported == Some(true),
        })
    }

    fn page_download(&self) -> (r: Option<DownloadState>)
        ensures
            opt_shown(r) == download_shown(self@),
    {
        let other = find_server(&self.extra_servers, self.active_server_id.as_str());
        let slot = match other {
            Some(i) => {
                proof {
                    assert(servers(self.extra_servers@)[i as int] == self.extra_servers@[i as int]@);
                }
                &self.extra_servers[i].slot
            },
            None => &self.slot,
        };
        match &slot.download {
            Some(d) => {
                if d.is_active() {
                    return Some(DownloadState::from_download(d));
                }
            },
            None => {},
        }
        if other.is_some() {
            return None;
        }
        match &self.library_fetch {
            Some(f) => {
                if f.is_active() {
                    Some(DownloadState::from_library_fetch(f))
                } else {
                    None
                }
            },
            None => None,
        }
    }

    fn page_library_fetch(&self) -> (r: Option<DownloadState>)
        ensures
            opt_shown(r) == library_shown(self@),
    {
        match &self.library_fetch {
            Some(f) => {
                if !f.done || f.error.is_some() {
                    Some(DownloadState::from_library_fetch(f))
                } else {
                    None
                }
            },
            None => None,
        }
    }
}

/// No model is offered for removal or download while a server runs, and none
/// for removal while it is being fetched.
pub proof fn law_busy_models_are_left_alone(
    a: AppView,
    files: Seq<PathFact>,
    index: nat,
    e: EntryView,
)
    ensures
        anything_runs(a) ==> !card(a, files, index, e).deletable && !card(
            a,
            files,
            index,
            e,
        ).downloadable,
        card(a, files, index, e).downloading ==> !card(a, files, index, e).deletable && !card(
            a,
            files,
            index,
            e,
        ).downloadable,
{
}

/// The page shows the state of the server that is looked at: of the one more
/// server with its name, where there is one, and else of the first server.
pub proof fn law_page_shows_the_server_looked_at(s: AppState, a: AppView, i: int)
    requires
        shows_server(s, a),
    ensures
        0 <= i < a.extra_servers.len() && a.extra_servers[i].id == a.active_server_id && (forall|
            j: int,
        |
            0 <= j < i ==> (#[trigger] a.extra_servers[j]).id != a.active_server_id) ==> {
            &&& s.status == a.extra_servers[i].slot.status
            &&& s.status_detail@ == a.extra_servers[i].slot.status_detail
            &&& s.endpoint_online == a.extra_servers[i].slot.endpoint_online
            &&& s.pid == a.extra_servers[i].slot.process
            &&& s.process == a.extra_servers[i].slot.process_usage
            &&& s.metrics == a.extra_servers[i].slot.throughput.metrics
        },
        (forall|j: int|
            0 <= j < a.extra_servers.len() ==> (#[trigger] a.extra_servers[j]).id
                != a.active_server_id) ==> {
            &&& s.status == a.slot.status
            &&& s.status_detail@ == a.slot.status_detail
            &&& s.endpoint_online == a.slot.endpoint_online
            &&& s.pid == a.slot.process
            &&& s.process == a.slot.process_usage
            &&& s.metrics == a.slot.throughput.metrics
        },
{
    if 0 <= i < a.extra_servers.len() && a.extra_servers[i].id == a.active_server_id && (forall|
        j: int,
    |
        0 <= j < i ==> (#[trigger] a.extra_servers[j]).id != a.active_server_id) {
        lemma_found_server(a.extra_servers, a.active_server_id, 0, i);
    }
    if forall|j: int|
        0 <= j < a.extra_servers.len() ==> (#[trigger] a.extra_servers[j]).id
            != a.active_server_id {
        lemma_no_server(a.extra_servers, a.active_server_id, 0);
    }
}

proof fn lemma_found_server(s: Seq<ManagedView>, id: Text, from: int, i: int)
    requires
        0 <= from <= i < s.len(),
        s[i].id == id,
        forall|j: int| from <= j < i ==> (#[trigger] s[j]).id != id,
    ensures
        server_at(s, id, from) == Some(i),
    decreases i - from,
{
    if from < i {
        lemma_found_server(s, id, from + 1, i);
    }
}

proof fn lemma_no_server(s: Seq<ManagedView>, id: Text, from: int)
    requires
        0 <= from,
        forall|j: int| from <= j < s.len() ==> (#[trigger] s[j]).id != id,
    ensures
        server_at(s, id, from) is None,
    decreases s.len() - from,
{
    if from < s.len() {
        lemma_no_server(s, id, from + 1);
    }
}

/// A card says of a model what is known of it: whether it is on this disk, on
/// its way, or still to be loaded, and whether it is the chosen one.
pub proof fn law_card_tells_of_its_model(a: AppView, files: Seq<PathFact>, v: Seq<EntryView>, i: int)
    requires
        0 <= i < v.len(),
    ensures
        ({
            let k = cards(a, files, v)[i];
            &&& k.index == i
            &&& v[i].source == SourceView::HuggingFace(k.id) || v[i].source == SourceView::Local(
                k.id,
            )
            &&& k.label == k.id
            &&& k.kind == "Hugging Face"@ <==> v[i].source is HuggingFace
            &&& k.on_disk == v[i].on_disk
            &&& k.recent == v[i].recent
            &&& k.selected ==> v[i].source == a.config.model.source
            &&& k.status == "Ready"@ <==> v[i].on_disk && !k.downloading
            &&& k.status == "Downloading"@ <==> k.downloading
            &&& k.downloadable ==> !v[i].on_disk && !k.downloading && v[i].source is HuggingFace
                && a.slot.process is None
            &&& k.downloading ==> (a.library_fetch matches Some(f) && !f.done && f.error is None)
            &&& !k.downloading && v[i].bytes > 0 ==> k.bytes == v[i].bytes
        }),
{
    reveal_strlit("Hugging Face");
    reveal_strlit("Local GGUF");
    reveal_strlit("Ready");
    reveal_strlit("Downloading");
    reveal_strlit("Not downloaded");
    assert("Hugging Face"@[0] != "Local GGUF"@[0]);
    assert("Ready"@[0] != "Downloading"@[0] && "Ready"@[0] != "Not downloaded"@[0]
        && "Downloading"@[0] != "Not downloaded"@[0]);
}

/// What is shown of a download is its own: its model, its file, its amounts.
pub proof fn law_shown_download_is_its_own(d: DownloadView, f: LibraryView)
    ensures
        shown_download(d).repo == d.repo,
        shown_download(d).file == d.file,
        shown_download(d).downloaded == d.downloaded,
        shown_download(d).total == d.total,
        shown_download(d).listing_error == d.listing_error,
        shown_download(d).rate == rate_of(d.samples),
        shown_download(d).fraction matches Some((n, t)) ==> d.total == Some(t) && (n
            == d.downloaded || (d.downloaded > t && n == t)),
        shown_fetch(f).repo == f.repo,
        shown_fetch(f).file == f.file,
        shown_fetch(f).downloaded == f.downloaded,
        shown_fetch(f).total == f.total,
        shown_fetch(f).listing_error == f.error,
        shown_fetch(f).rate == rate_of(f.samples),
        shown_fetch(f).fraction matches Some((n, t)) ==> f.total == Some(t) && (n == f.downloaded
            || (f.downloaded > t && n == t)),
{
}

/// Every setting but the measured size has its place on the page, once.
pub proof fn law_page_has_every_setting(f: SettingField)
    ensures
        page_fields().contains(f) <==> f != SettingField::EstimatedSize,
        page_fields().no_duplicates(),
{
    let p = page_fields();
    assert(p.len() == 21);
    assert(p[0] == SettingField::SourceKind && p[1] == SettingField::Model && p[2]
        == SettingField::Executable && p[3] == SettingField::Host && p[4] == SettingField::Port
        && p[5] == SettingField::Context && p[6] == SettingField::Batch && p[7]
        == SettingField::MicroBatch && p[8] == SettingField::Parallel && p[9]
        == SettingField::CpuOnly && p[10] == SettingField::Mmap && p[11] == SettingField::Fit
        && p[12] == SettingField::Repack && p[13] == SettingField::Warmup && p[14]
        == SettingField::FlashAttn && p[15] == SettingField::CacheTypeK && p[16]
        == SettingField::CacheTypeV && p[17] == SettingField::CacheRam && p[18]
        == SettingField::Checkpoints && p[19] == SettingField::Mmproj && p[20]
        == SettingField::Jinja);
}

} // verus!
