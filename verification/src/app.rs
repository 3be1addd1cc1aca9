//! The application's state, and what its users change in it.
use vstd::prelude::*;

use crate::address::Socket;
use crate::appearance::{Appearance, AppearanceView};

use crate::cache::{found, DiscoveredModel, FoundView};

use crate::config::{Config, ConfigView, ModelSource, SourceView};
use crate::download::{LibraryFetch, LibraryView};

use crate::instance::{servers, ManagedServer, ManagedView};

use crate::settings::{
    adjust, adjusted, editable, enter, entered, field_label, steps_fit, toggle, EditView,
    ReadNumber, SettingField,
};
use crate::slot::{ServerSlot, ServerStatus, SlotView};
use crate::text::{opt_text, same, texts, Text};

use crate::validate::remembered;

verus! {

broadcast use vstd::string::group_string_axioms;

/// The name of the first server.
pub const PRIMARY_SERVER_ID: &'static str = "main";

/// How many lines of the log are kept.
pub const MAX_LOG_LINES: usize = 2_000;

/// What is told of the size of a hosted model.
#[derive(Debug)]
pub struct RemoteModelSize {
    pub repo: String,
    /// Whether the listing is still to come.
    pub listing: bool,
    pub bytes: Option<u64>,
    pub error: Option<String>,
}

/// The view of [`RemoteModelSize`].
pub struct RemoteSizeView {
    pub repo: Text,
    pub listing: bool,
    pub bytes: Option<u64>,
    pub error: Option<Text>,
}

impl View for RemoteModelSize {
    type V = RemoteSizeView;

    open spec fn view(&self) -> RemoteSizeView {
        RemoteSizeView {
            repo: self.repo@,
            listing: self.listing,
            bytes: self.bytes,
            error: opt_text(self.error),
        }
    }
}

/// What is said where the configuration cannot be saved.
#[derive(Clone, Copy, Debug, PartialEq, Eq, Structural)]
pub enum SaveReport {
    /// Nothing.
    Ignored,
    /// The status fails and the log tells why.
    Logged,
    /// The status line tells why as well.
    Shown,
}

/// What the application wants done outside.
#[derive(Debug)]
pub enum Effect {
    /// Save the configuration.
    Save(SaveReport),
    /// List the files of a repository.
    ListFiles(String),
    /// Look for models on disk.
    Discover,
    /// Tell the network of the servers on these ports, or of none.
    Advertise { on: bool, ports: Vec<u16> },
    /// Fetch a model into the library.
    Fetch(String),
    /// Stop fetching.
    CancelFetch,
}

/// The view of [`Effect`].
pub enum EffectView {
    Save(SaveReport),
    ListFiles(Text),
    Discover,
    Advertise { on: bool, ports: Seq<u16> },
    Fetch(Text),
    CancelFetch,
}

impl View for Effect {
    type V = EffectView;

    open spec fn view(&self) -> EffectView {
        match self {
            Effect::Save(r) => EffectView::Save(*r),
            Effect::ListFiles(s) => EffectView::ListFiles(s@),
            Effect::Discover => EffectView::Discover,
            Effect::Advertise { on, ports } => EffectView::Advertise { on: *on, ports: ports@ },
            Effect::Fetch(s) => EffectView::Fetch(s@),
            Effect::CancelFetch => EffectView::CancelFetch,
        }
    }
}

/// The views of what is wanted.
pub open spec fn effects(v: Seq<Effect>) -> Seq<EffectView> {
    Seq::new(v.len(), |i: int| v[i]@)
}

/// The application.
#[derive(Debug)]
pub struct App {
    pub config: Config,
    pub config_path: String,
    /// The first server.
    pub slot: ServerSlot,
    /// What the first server was launched with.
    pub running_config: Option<Config>,
    pub logs: Vec<String>,
    pub last_hf_model: String,
    pub last_local_model: String,
    pub remote_model_size: Option<RemoteModelSize>,
    pub missing_server_prompt: bool,
    /// Models found on disk.
    pub discovered_models: Vec<DiscoveredModel>,
    /// Whether models are being looked for.
    pub pending_discover: bool,
    pub last_discover: u64,
    /// The fetch of a model into the library.
    pub library_fetch: Option<LibraryFetch>,
    /// Whether there is a window to raise.
    pub window: bool,
    /// Where the control panel listens.
    pub listen_addr: Option<Socket>,
    pub appearance: Appearance,
    /// The servers beside the first.
    pub extra_servers: Vec<ManagedServer>,
    /// The server that is looked at.
    pub active_server_id: String,
    pub next_server_seq: u64,
    /// What is wanted outside, in order.
    pub effects: Vec<Effect>,
}

/// The view of [`App`].
#[verifier::ext_equal]
pub struct AppView {
    pub config: ConfigView,
    pub config_path: Text,
    pub slot: SlotView,
    pub running_config: Option<ConfigView>,
    pub logs: Seq<Text>,
    pub last_hf_model: Text,
    pub last_local_model: Text,
    pub remote_model_size: Option<RemoteSizeView>,
    pub missing_server_prompt: bool,
    pub discovered_models: Seq<FoundView>,
    pub pending_discover: bool,
    pub last_discover: u64,
    pub library_fetch: Option<LibraryView>,
    pub window: bool,
    pub listen_addr: Option<Socket>,
    pub appearance: AppearanceView,
    pub extra_servers: Seq<ManagedView>,
    pub active_server_id: Text,
    pub next_server_seq: u64,
    pub effects: Seq<EffectView>,
}

/// The view of a configuration, where there is one.
pub open spec fn config_view(c: Option<Config>) -> Option<ConfigView> {
    match c {
        Some(c) => Some(c@),
        None => None,
    }
}

/// The view of a size, where there is one.
pub open spec fn size_view(s: Option<RemoteModelSize>) -> Option<RemoteSizeView> {
    match s {
        Some(s) => Some(s@),
        None => None,
    }
}

/// The view of a fetch, where there is one.
pub open spec fn fetch_view(f: Option<LibraryFetch>) -> Option<LibraryView> {
    match f {
        Some(f) => Some(f@),
        None => None,
    }
}

impl View for App {
    type V = AppView;

    open spec fn view(&self) -> AppView {
        AppView {
            config: self.config@,
            config_path: self.config_path@,
            slot: self.slot@,
            running_config: config_view(self.running_config),
            logs: texts(self.logs@),
            last_hf_model: self.last_hf_model@,
            last_local_model: self.last_local_model@,
            remote_model_size: size_view(self.remote_model_size),
            missing_server_prompt: self.missing_server_prompt,
            discovered_models: found(self.discovered_models@),
            pending_discover: self.pending_discover,
            last_discover: self.last_discover,
            library_fetch: fetch_view(self.library_fetch),
            window: self.window,
            listen_addr: self.listen_addr,
            appearance: self.appearance@,
            extra_servers: servers(self.extra_servers@),
            active_server_id: self.active_server_id@,
            next_server_seq: self.next_server_seq,
            effects: effects(self.effects@),
        }
    }
}

/// A log with one more line; the oldest leaves a full log.
pub open spec fn log_with(logs: Seq<Text>, line: Text) -> Seq<Text> {
    if logs.len() == MAX_LOG_LINES {
        logs.drop_first().push(line)
    } else {
        logs.push(line)
    }
}

/// A log with more lines, one after the other.
pub open spec fn log_with_all(logs: Seq<Text>, more: Seq<Text>) -> Seq<Text>
    decreases more.len(),
{
    if more.len() == 0 {
        logs
    } else {
        log_with(log_with_all(logs, more.drop_last()), more.last())
    }
}

/// The log never grows beyond its bound, and its last line is the newest.
pub proof fn law_log_is_bounded(logs: Seq<Text>, more: Seq<Text>)
    requires
        logs.len() <= MAX_LOG_LINES,
    ensures
        log_with_all(logs, more).len() <= MAX_LOG_LINES,
        more.len() > 0 ==> log_with_all(logs, more).last() == more.last(),
    decreases more.len(),
{
    if more.len() > 0 {
        law_log_is_bounded(logs, more.drop_last());
    }
}

/// The application with one more line in its log.
pub open spec fn logged(a: AppView, line: Text) -> AppView {
    AppView { logs: log_with(a.logs, line), ..a }
}

/// The application that wants one more thing done.
pub open spec fn wanting(a: AppView, e: EffectView) -> AppView {
    AppView { effects: a.effects.push(e), ..a }
}

/// The application with another status line.
pub open spec fn detailed(a: AppView, detail: Text) -> AppView {
    AppView { slot: SlotView { status_detail: detail, ..a.slot }, ..a }
}

/// The application with a status that failed.
pub open spec fn failed(a: AppView) -> AppView {
    AppView { slot: SlotView { status: ServerStatus::Failed, ..a.slot }, ..a }
}

/// What is edited of an application.
pub open spec fn edit_of(a: AppView) -> EditView {
    EditView {
        config: a.config,
        last_hf_model: a.last_hf_model,
        last_local_model: a.last_local_model,
    }
}

/// The application with what was edited.
pub open spec fn with_edit(a: AppView, e: EditView) -> AppView {
    AppView {
        config: e.config,
        last_hf_model: e.last_hf_model,
        last_local_model: e.last_local_model,
        ..a
    }
}

/// The application after it was made sure that the size of a hosted model is
/// asked for.
pub open spec fn size_synced(a: AppView) -> AppView {
    match a.config.model.source {
        SourceView::Local(_) => AppView { remote_model_size: None, ..a },
        SourceView::HuggingFace(repo) => if a.remote_model_size matches Some(r) && r.repo == repo
            && (r.bytes is Some || r.listing) {
            a
        } else {
            wanting(
                AppView {
                    remote_model_size: Some(
                        RemoteSizeView { repo, listing: true, bytes: None, error: None },
                    ),
                    ..a
                },
                EffectView::ListFiles(repo),
            )
        },
    }
}

/// What a field is called for the model that is chosen.
pub open spec fn label_for(f: SettingField, s: SourceView) -> Text {
    match (f, s) {
        (SettingField::Model, SourceView::HuggingFace(_)) => "Model repository"@,
        (SettingField::Model, SourceView::Local(_)) => "GGUF file path"@,
        (SettingField::EstimatedSize, _) => "Mapped file size"@,
        (SettingField::Executable, _) => "llama-server path"@,
        _ => field_label(f),
    }
}

/// A text with what a running server has to be told.
pub open spec fn or_restart(text: Text, running: bool) -> Text {
    if running {
        text + "; restart to apply"@
    } else {
        text
    }
}

/// The application after a setting was changed: the configuration is to be
/// saved, and the status line says what changed.
pub open spec fn marked(a: AppView, f: SettingField) -> AppView {
    detailed(
        wanting(a, EffectView::Save(SaveReport::Logged)),
        or_restart(
            "Changed "@ + label_for(f, a.config.model.source),
            a.slot.process is Some,
        ),
    )
}

/// The application after a field was moved or switched.
pub open spec fn field_adjusted(a: AppView, f: SettingField, direction: i32) -> AppView {
    if !crate::settings::adjustable(f) {
        a
    } else {
        let a1 = with_edit(a, adjusted(edit_of(a), f, direction));
        marked(
            if f == SettingField::SourceKind {
                size_synced(a1)
            } else {
                a1
            },
            f,
        )
    }
}

/// The application after its model was put among those remembered.
pub open spec fn model_remembered(a: AppView) -> AppView {
    AppView {
        config: ConfigView {
            recent_models: remembered(a.config.recent_models, a.config.model.source),
            ..a.config
        },
        ..a
    }
}

/// Whether an entry asks for the other kind of source.
pub open spec fn switches_source(a: AppView, raw: Text) -> bool {
    crate::settings::asks_local(crate::settings::unquoted(crate::text::trimmed(raw))) != (
    a.config.model.source is Local)
}

/// The application after an entry, or why it is refused.
pub open spec fn field_entered(
    a: AppView,
    f: SettingField,
    raw: Text,
    n: Option<ReadNumber>,
) -> Result<AppView, Text> {
    match entered(edit_of(a), f, raw, n) {
        Err(m) => Err(m),
        Ok(e) => {
            let a1 = if f == SettingField::SourceKind {
                if switches_source(a, raw) {
                    field_adjusted(a, f, 1)
                } else {
                    a
                }
            } else {
                with_edit(a, e)
            };
            let a2 = if f == SettingField::Model {
                model_remembered(a1)
            } else {
                a1
            };
            let a3 = if f == SettingField::Model || f == SettingField::SourceKind {
                size_synced(a2)
            } else {
                a2
            };
            Ok(marked(a3, f))
        },
    }
}

impl App {
    /// Adds a line to the log.
    pub fn push_log(&mut self, line: &str)
        ensures
            final(self)@ == logged(old(self)@, line@),
    {
        let ghost was = texts(self.logs@);
        let full: bool = self.logs.len() == MAX_LOG_LINES;
        if full {
            let _ = self.logs.remove(0);
        }
        let l = line.to_owned();
        self.logs.push(l);
        proof {
            if full {
                assert(texts(self.logs@) =~= was.drop_first().push(line@));
            } else {
                assert(texts(self.logs@) =~= was.push(line@));
            }
        }
    }

    /// Adds lines to the log.
    pub fn push_logs(&mut self, more: &Vec<String>)
        ensures
            final(self)@ == (AppView {
                logs: log_with_all(old(self)@.logs, texts(more@)),
                ..old(self)@
            }),
    {
        let ghost all = texts(more@);
        let ghost was = self@;
        let mut i: usize = 0;
        proof {
            assert(all.take(0) =~= Seq::<Text>::empty());
        }
        while i < more.len()
            invariant
                all == texts(more@),
                i <= more.len(),
                self@ == (AppView { logs: log_with_all(was.logs, all.take(i as int)), ..was }),
            decreases more.len() - i,
        {
            proof {
                assert(all.take(i + 1).drop_last() =~= all.take(i as int));
                assert(all.take(i + 1).last() == more@[i as int]@);
            }
            self.push_log(more[i].as_str());
            i = i + 1;
        }
        proof {
            assert(all.take(all.len() as int) =~= all);
        }
    }

    /// Wants one more thing done outside.
    pub fn want(&mut self, e: Effect)
        ensures
            final(self)@ == wanting(old(self)@, e@),
    {
        let ghost was = effects(self.effects@);
        let ghost ev = e@;
        self.effects.push(e);
        proof {
            assert(effects(self.effects@) =~= was.push(ev));
        }
    }

    /// Hands over what is wanted outside.
    pub fn take_effects(&mut self) -> (out: Vec<Effect>)
        ensures
            effects(out@) == old(self)@.effects,
            final(self)@ == (AppView { effects: Seq::empty(), ..old(self)@ }),
    {
        let mut out: Vec<Effect> = Vec::new();
        out.append(&mut self.effects);
        proof {
            assert(effects(out@) =~= old(self)@.effects);
            assert(effects(self.effects@) =~= Seq::<EffectView>::empty());
        }
        out
    }

    /// Takes in that the configuration could not be saved.
    pub fn save_failed(&mut self, report: SaveReport, error: &str)
        ensures
            final(self)@ == (match report {
                SaveReport::Ignored => old(self)@,
                SaveReport::Logged => logged(
                    failed(old(self)@),
                    "failed to save config: "@ + error@,
                ),
                SaveReport::Shown => logged(
                    detailed(failed(old(self)@), error@),
                    "failed to save config: "@ + error@,
                ),
            }),
    {
        match report {
            SaveReport::Ignored => {
                return;
            },
            SaveReport::Logged => {},
            SaveReport::Shown => {
                self.slot.status_detail = error.to_owned();
            },
        }
        self.slot.status = ServerStatus::Failed;
        let mut line = "failed to save config: ".to_owned();
        line.append(error);
        self.push_log(line.as_str());
    }

    /// Takes in how saving by hand went.
    pub fn save(&mut self, error: Option<&str>)
        ensures
            final(self)@ == (match error {
                None => {
                    let detail = "Saved "@ + old(self)@.config_path;
                    logged(detailed(old(self)@, detail), detail)
                },
                Some(e) => detailed(failed(old(self)@), e@),
            }),
    {
        match error {
            None => {
                let mut detail = "Saved ".to_owned();
                detail.append(self.config_path.as_str());
                self.slot.status_detail = detail.clone();
                self.push_log(detail.as_str());
            },
            Some(e) => {
                self.slot.status = ServerStatus::Failed;
                self.slot.status_detail = e.to_owned();
            },
        }
    }

    /// Makes sure that the size of a hosted model is asked for.
    pub fn sync_remote_model_size(&mut self)
        ensures
            final(self)@ == size_synced(old(self)@),
    {
        let repo = match &self.config.model.source {
            ModelSource::Local(_) => {
                self.remote_model_size = None;
                return;
            },
            ModelSource::HuggingFace(r) => r.clone(),
        };
        let known: bool = match &self.remote_model_size {
            Some(r) => same(r.repo.as_str(), repo.as_str()) && (r.bytes.is_some() || r.listing),
            None => false,
        };
        if known {
            return;
        }
        self.remote_model_size = Some(
            RemoteModelSize { repo: repo.clone(), listing: true, bytes: None, error: None },
        );
        self.want(Effect::ListFiles(repo));
    }

    /// What a field is called for the model that is chosen.
    pub fn setting_label(&self, f: SettingField) -> (r: &'static str)
        ensures
            r@ == label_for(f, self@.config.model.source),
    {
        match (f, &self.config.model.source) {
            (SettingField::Model, ModelSource::HuggingFace(_)) => "Model repository",
            (SettingField::Model, ModelSource::Local(_)) => "GGUF file path",
            (SettingField::EstimatedSize, _) => "Mapped file size",
            (SettingField::Executable, _) => "llama-server path",
            _ => f.label(),
        }
    }

    /// Whether a field takes text.
    pub fn setting_is_editable(&self, f: SettingField) -> (r: bool)
        ensures
            r == (editable(f) && f != SettingField::EstimatedSize),
    {
        f.is_editable() && f != SettingField::EstimatedSize
    }

    /// Saves a change and says what changed.
    pub fn mark_setting_changed(&mut self, f: SettingField)
        ensures
            final(self)@ == marked(old(self)@, f),
    {
        self.want(Effect::Save(SaveReport::Logged));
        let mut detail = "Changed ".to_owned();
        detail.append(self.setting_label(f));
        if self.slot.is_running() {
            detail.append("; restart to apply");
        }
        self.slot.status_detail = detail;
    }

    /// Moves a field by steps, or switches it.
    pub fn adjust_field(&mut self, f: SettingField, direction: i32)
        requires
            steps_fit(f, direction),
        ensures
            final(self)@ == field_adjusted(old(self)@, f, direction),
    {
        match f {
            SettingField::Model
            | SettingField::Executable
            | SettingField::Host
            | SettingField::EstimatedSize => {
                return;
            },
            _ => {},
        }
        adjust(
            &mut self.config,
            &mut self.last_hf_model,
            &mut self.last_local_model,
            f,
            direction,
        );
        if f == SettingField::SourceKind {
            self.sync_remote_model_size();
        }
        self.mark_setting_changed(f);
    }

    /// Switches a switch; other fields are refused.
    pub fn toggle_field(&mut self, f: SettingField) -> (r: Result<(), String>)
        ensures
            if toggle(f) {
                r is Ok && final(self)@ == field_adjusted(old(self)@, f, 1)
            } else {
                &&& r matches Err(e)
                &&& e@ == "This setting is not a toggle."@
                &&& final(self)@ == old(self)@
            },
    {
        if !f.is_toggle() {
            return Err("This setting is not a toggle.".to_owned());
        }
        self.adjust_field(f, 1);
        Ok(())
    }

    fn remember_current_model(&mut self)
        ensures
            final(self)@ == model_remembered(old(self)@),
    {
        let source = self.config.model.source.clone();
        self.config.remember_model(source);
    }

    /// Takes in an entry, or says why it is refused; then nothing changes. `n`
    /// is what the number in a token count reads as.
    pub fn set_field(&mut self, f: SettingField, raw: &str, n: Option<ReadNumber>) -> (r: Result<
        (),
        String,
    >)
        ensures
            match field_entered(old(self)@, f, raw@, n) {
                Ok(a) => r is Ok && final(self)@ == a,
                Err(m) => r matches Err(e) && e@ == m && final(self)@ == old(self)@,
            },
    {
        if f == SettingField::SourceKind {
            let value = crate::settings::trim_wrapping_quotes(crate::text::trim(raw).as_str());
            let t = crate::text::to_lower(value.as_str());
            let want: bool = same(t.as_str(), "local") || same(t.as_str(), "local_gguf") || same(
                t.as_str(),
                "gguf",
            );
            let is_local: bool = match &self.config.model.source {
                ModelSource::HuggingFace(_) => false,
                ModelSource::Local(_) => true,
            };
            if want != is_local {
                self.adjust_field(f, 1);
            }
        } else {
            match enter(
                &mut self.config,
                &mut self.last_hf_model,
                &mut self.last_local_model,
                f,
                raw,
                n,
            ) {
                Ok(()) => {},
                Err(e) => {
                    return Err(e);
                },
            }
        }
        if f == SettingField::Model {
            self.remember_current_model();
        }
        if f == SettingField::Model || f == SettingField::SourceKind {
            self.sync_remote_model_size();
        }
        self.mark_setting_changed(f);
        Ok(())
    }
}

/// A new line is the last of the log; only the oldest one leaves for it.
pub proof fn law_new_line_is_last(logs: Seq<Text>, line: Text)
    requires
        logs.len() <= 2_000,
    ensures
        log_with(logs, line).len() > 0,
        log_with(logs, line).last() == line,
        logs.len() < 2_000 ==> log_with(logs, line).drop_last() == logs,
        logs.len() == 2_000 ==> log_with(logs, line).drop_last() == logs.skip(1),
{
    if logs.len() < 2_000 {
        assert(log_with(logs, line).drop_last() =~= logs);
    } else {
        assert(log_with(logs, line).drop_last() =~= logs.skip(1));
    }
}

/// An entry of a setting changes the settings as the entry says, is saved, and
/// touches no server.
pub proof fn law_entry_goes_into_the_settings(
    a: AppView,
    f: SettingField,
    raw: Text,
    n: Option<ReadNumber>,
)
    requires
        f != SettingField::Model,
        f != SettingField::SourceKind,
    ensures
        entered(edit_of(a), f, raw, n) matches Err(m) ==> field_entered(a, f, raw, n) == Err::<
            AppView,
            Text,
        >(m),
        entered(edit_of(a), f, raw, n) matches Ok(e) ==> (field_entered(a, f, raw, n) matches Ok(b)
            && b.config == e.config && b.effects == a.effects.push(
            EffectView::Save(SaveReport::Logged),
        ) && b.running_config == a.running_config && b.extra_servers == a.extra_servers
            && b.slot.process == a.slot.process && b.slot.status == a.slot.status),
{
}

/// The size of a hosted model is asked for once, and not at all for a local one.
pub proof fn law_size_is_asked_once(a: AppView)
    ensures
        a.config.model.source is Local ==> size_synced(a).remote_model_size is None && size_synced(
            a,
        ).effects == a.effects,
        a.config.model.source matches SourceView::HuggingFace(repo) ==> (size_synced(
            a,
        ).remote_model_size matches Some(s) && s.repo == repo && (s.listing || s.bytes is Some)),
        size_synced(size_synced(a)) == size_synced(a),
        size_synced(a).config == a.config,
{
}

} // verus!
