//! The control panel: what its pages show, and what is done from them.
use vstd::prelude::*;

use crate::address::{Ipv4, Socket};
use crate::app::{
    detailed, effects, logged, or_restart, size_synced, wanting, App, AppView, Effect, EffectView,
    SaveReport, PRIMARY_SERVER_ID,
};
use crate::appearance::{
    restyled, theme_word, Appearance, AppearanceUpdate, AppearanceView, Fonts, UiTheme,
};
use crate::bind::{base_url, label_of, migrated, server_host, source_text};
use crate::cache::{found, FoundView};
use crate::command::{command_of, on_off, CommandSpec};
use crate::command::{quoted, quoted_all};
use crate::config::{
    blank, copy_sources, default_config, Config, ConfigView, ModelSource, RuntimePreset, SourceView,
    DEFAULT_MODEL,
};
use crate::download::Download;
use crate::disk::{is_there, length_of, path_length, path_there, PathFact};
use crate::fresh::{Fresh, FreshView};
use crate::instance::{servers, ManagedView};
use crate::listen::LocalAddrs;
use crate::servers::displayed;
use crate::settings::{
    entered, is_single_name, law_entered_cache_type_is_set, law_entered_number_is_set,
    law_entered_switch_is_set, single_name, EditView, ReadNumber, SettingField,
};
use crate::slot::{idle_slot, ServerSlot, ServerStatus};
use crate::shards::{model_parts, parts_of_model};
use crate::text::{decimal, join, joined, number, texts, Text};
use crate::units::{gib_tenths, gib_text};
use crate::validate::remembered;

verus! {

broadcast use vstd::string::group_string_axioms;

/// The lengths of the paths together, if all are there and the sum can be held.
pub open spec fn lengths_together(paths: Seq<Text>, files: Seq<PathFact>) -> Option<u64>
    decreases paths.len(),
{
    if paths.len() == 0 {
        Some(0)
    } else {
        match lengths_together(paths.drop_last(), files) {
            Some(n) => {
                let m = length_of(files, paths.last());
                if is_there(files, paths.last()) && n + m <= u64::MAX {
                    Some((n + m) as u64)
                } else {
                    None
                }
            },
            None => None,
        }
    }
}

/// The size of a local model: that of its files, where all are there.
pub open spec fn local_size(s: SourceView, files: Seq<PathFact>) -> Option<u64> {
    match s {
        SourceView::Local(path) => lengths_together(model_parts(path), files),
        SourceView::HuggingFace(_) => None,
    }
}

impl Config {
    /// The size of a local model, where all its files are there. `files` says of
    /// paths whether they are there, and how long they are.
    pub fn local_model_bytes(&self, files: &Vec<PathFact>) -> (r: Option<u64>)
        ensures
            r == local_size(self@.model.source, files@),
    {
        match &self.model.source {
            ModelSource::HuggingFace(_) => None,
            ModelSource::Local(path) => {
                let parts = parts_of_model(path.as_str());
                let ghost all = texts(parts@);
                let mut n: Option<u64> = Some(0);
                let mut i: usize = 0;
                proof {
                    assert(all.take(0) =~= Seq::<Text>::empty());
                }
                while i < parts.len()
                    invariant
                        all == texts(parts@),
                        i <= parts.len(),
                        n == lengths_together(all.take(i as int), files@),
                    decreases parts.len() - i,
                {
                    let part = parts[i].as_str();
                    proof {
                        assert(all.take(i + 1).drop_last() =~= all.take(i as int));
                        assert(all.take(i + 1).last() == part@);
                    }
                    n = match n {
                        Some(a) if path_there(files, part) => a.checked_add(
                            path_length(files, part),
                        ),
                        _ => None,
                    };
                    i = i + 1;
                }
                proof {
                    assert(all.take(all.len() as int) =~= all);
                }
                n
            },
        }
    }
}

/// The size of the model files that are mapped, where it is known: from the
/// files, from a download that goes on, or from the repository's listing.
pub open spec fn mapped_bytes(a: AppView, files: Seq<PathFact>) -> Option<u64> {
    match local_size(a.config.model.source, files) {
        Some(n) => Some(n),
        None => match a.slot.download {
            Some(d) if d.active && d.total is Some => d.total,
            _ => match a.remote_model_size {
                Some(r) => r.bytes,
                None => None,
            },
        },
    }
}

/// Whether the size of a hosted model is being asked for.
pub open spec fn size_loading(a: AppView) -> bool {
    a.remote_model_size matches Some(r) && r.listing && r.bytes is None && r.error is None
}

/// What a field shows.
pub open spec fn shown_value(a: AppView, f: SettingField, files: Seq<PathFact>) -> Text {
    let c = a.config;
    let r = c.runtime;
    match f {
        SettingField::SourceKind => match c.model.source {
            SourceView::HuggingFace(_) => "Hugging Face"@,
            SourceView::Local(_) => "Local GGUF"@,
        },
        SettingField::Model => if blank(c.model.source) {
            match c.model.source {
                SourceView::Local(_) => "<enter path to .gguf>"@,
                SourceView::HuggingFace(_) => "<add a model in Models>"@,
            }
        } else {
            label_of(c.model.source)
        },
        SettingField::EstimatedSize => match mapped_bytes(a, files) {
            Some(n) => match c.model.source {
                SourceView::Local(_) => gib_tenths(n) + " GiB  (from file)"@,
                SourceView::HuggingFace(_) => gib_tenths(n) + " GiB  (from Hugging Face)"@,
            },
            None => if c.model.source is Local {
                "auto from .gguf"@
            } else if size_loading(a) {
                "fetching from Hugging Face…"@
            } else {
                "unavailable"@
            },
        },
        SettingField::Executable => if single_name(c.server.executable) {
            c.server.executable + "  (from PATH)"@
        } else {
            c.server.executable
        },
        SettingField::Host => server_host(c),
        SettingField::Port => decimal(c.server.port as nat),
        SettingField::Context => decimal(r.context_size as nat) + " tokens"@,
        SettingField::Batch => decimal(r.batch_size as nat),
        SettingField::MicroBatch => decimal(r.micro_batch_size as nat),
        SettingField::Parallel => decimal(r.parallel as nat),
        SettingField::CpuOnly => on_off(r.cpu_only),
        SettingField::Mmap => on_off(r.mmap),
        SettingField::Fit => on_off(r.fit),
        SettingField::Repack => on_off(r.repack),
        SettingField::Warmup => on_off(r.warmup),
        SettingField::FlashAttn => on_off(r.flash_attn),
        SettingField::CacheTypeK => r.cache_type_k,
        SettingField::CacheTypeV => r.cache_type_v,
        SettingField::CacheRam => decimal(r.cache_ram_mib as nat) + " MiB"@,
        SettingField::Checkpoints => decimal(r.context_checkpoints as nat),
        SettingField::Mmproj => on_off(r.multimodal_projector),
        SettingField::Jinja => on_off(r.jinja),
    }
}

/// A switch as a word.
pub open spec fn true_false(b: bool) -> Text {
    if b {
        "true"@
    } else {
        "false"@
    }
}

/// What a field holds, as it would be entered.
pub open spec fn raw_value(a: AppView, f: SettingField, files: Seq<PathFact>) -> Text {
    let c = a.config;
    let r = c.runtime;
    match f {
        SettingField::SourceKind => match c.model.source {
            SourceView::HuggingFace(_) => "hugging_face"@,
            SourceView::Local(_) => "local"@,
        },
        SettingField::Model => if blank(c.model.source) {
            Seq::empty()
        } else {
            source_text(c.model.source)
        },
        SettingField::EstimatedSize => match mapped_bytes(a, files) {
            Some(n) => gib_tenths(n),
            None => Seq::empty(),
        },
        SettingField::Executable => c.server.executable,
        SettingField::Host => server_host(c),
        SettingField::Port => decimal(c.server.port as nat),
        SettingField::Context => decimal(r.context_size as nat),
        SettingField::Batch => decimal(r.batch_size as nat),
        SettingField::MicroBatch => decimal(r.micro_batch_size as nat),
        SettingField::Parallel => decimal(r.parallel as nat),
        SettingField::CpuOnly => true_false(r.cpu_only),
        SettingField::Mmap => true_false(r.mmap),
        SettingField::Fit => true_false(r.fit),
        SettingField::Repack => true_false(r.repack),
        SettingField::Warmup => true_false(r.warmup),
        SettingField::FlashAttn => true_false(r.flash_attn),
        SettingField::CacheTypeK => r.cache_type_k,
        SettingField::CacheTypeV => r.cache_type_v,
        SettingField::CacheRam => decimal(r.cache_ram_mib as nat),
        SettingField::Checkpoints => decimal(r.context_checkpoints as nat),
        SettingField::Mmproj => true_false(r.multimodal_projector),
        SettingField::Jinja => true_false(r.jinja),
    }
}

fn switch_text(b: bool) -> (r: String)
    ensures
        r@ == on_off(b),
{
    if b {
        "on".to_owned()
    } else {
        "off".to_owned()
    }
}

fn bool_text(b: bool) -> (r: String)
    ensures
        r@ == true_false(b),
{
    if b {
        "true".to_owned()
    } else {
        "false".to_owned()
    }
}

fn with_ending(text: String, ending: &str) -> (r: String)
    ensures
        r@ == text@ + ending@,
{
    let mut r = text;
    r.append(ending);
    r
}

/// What is said of a field.
pub open spec fn hint_for(f: SettingField, s: SourceView) -> Text {
    match f {
        SettingField::SourceKind => "Switch between Hugging Face and a local GGUF file."@,
        SettingField::Model => match s {
            SourceView::HuggingFace(_) =>
                "Use Add model on the Models tab, or pick one from the library."@,
            SourceView::Local(_) =>
                "Use Add model on the Models tab, or pick a local GGUF from the library."@,
        },
        SettingField::EstimatedSize => match s {
            SourceView::Local(_) => "Calculated automatically from the GGUF file."@,
            SourceView::HuggingFace(_) =>
                "Fetched from the Hugging Face file listing for this repository."@,
        },
        SettingField::Executable =>
            "Enter llama-server if it is on PATH, or enter its full executable path."@,
        SettingField::Host => "Set by Devices (loopback when Share is off). Not editable here."@,
        SettingField::Port => "Port llama-server listens on."@,
        SettingField::Context => "Token count; 8k is accepted."@,
        SettingField::Batch => "Prompt batch size."@,
        SettingField::MicroBatch => "Must be no larger than the batch size."@,
        SettingField::Parallel => "Number of simultaneous server slots."@,
        SettingField::CpuOnly => "On forces all model layers onto the CPU."@,
        SettingField::Mmap => "On keeps model weights file-backed and demand-paged."@,
        SettingField::Fit => "Off prevents llama.cpp from changing the requested profile."@,
        SettingField::Repack => "Off avoids a separate repacked weight copy."@,
        SettingField::Warmup =>
            "On touches model pages at startup for smoother first-token behavior."@,
        SettingField::FlashAttn =>
            "On uses flash attention to cut attention memory; keep on with quantized KV."@,
        SettingField::CacheTypeK => "Attention key half of the context scratchpad."@,
        SettingField::CacheTypeV => "Attention value half of the context scratchpad."@,
        SettingField::CacheRam => "Host prompt-cache limit in MiB; zero disables it."@,
        SettingField::Checkpoints => "Saved context states per slot; zero disables them."@,
        SettingField::Mmproj => "Leave off for text-only models."@,
        SettingField::Jinja => "Uses the model's Jinja chat template."@,
    }
}

/// The application without the profile that unified memory cannot bear.
pub open spec fn preset_sanitized(a: AppView, unified: bool) -> AppView {
    if unified && RuntimePreset::of(a.config.runtime) == Some(RuntimePreset::GpuFit) {
        logged(
            detailed(
                AppView {
                    config: ConfigView { runtime: RuntimePreset::LowRam.settings(), ..a.config },
                    ..a
                },
                "GPU + CPU spill was reset to Max RAM efficiency on unified memory (shared RAM can be exhausted)."@,
            ),
            "reset gpu_fit preset to max RAM efficiency on unified memory"@,
        )
    } else {
        a
    }
}

/// The configuration that the application begins with: its model is
/// remembered, and its network settings are brought up to date.
pub open spec fn opening_config(c: ConfigView, fresh: FreshView, ts: Seq<Ipv4>) -> ConfigView {
    migrated(remember_own(c), fresh, ts)
}

/// The configuration with its own model among those remembered.
pub open spec fn remember_own(c: ConfigView) -> ConfigView {
    ConfigView { recent_models: remembered(c.recent_models, c.model.source), ..c }
}

/// The status line that the application begins with.
pub open spec fn opening_detail(c: ConfigView, executable_found: bool) -> Text {
    if executable_found {
        "Ready to launch"@
    } else {
        c.server.executable + " was not found; set its path in Configure"@
    }
}

/// The application as it begins, before the files for TLS are looked at.
pub open spec fn opened(
    c: ConfigView,
    path: Text,
    look: AppearanceView,
    executable_found: bool,
    unified: bool,
    fresh: FreshView,
    ts: Seq<Ipv4>,
    now: u64,
) -> AppView {
    let config = opening_config(c, fresh, ts);
    let a = AppView {
        config,
        config_path: path,
        slot: idle_slot(ServerStatus::Stopped, opening_detail(c, executable_found), false),
        running_config: None,
        logs: seq!["tinyinference initialized"@],
        last_hf_model: match c.model.source {
            SourceView::HuggingFace(id) => id,
            SourceView::Local(_) => DEFAULT_MODEL@,
        },
        last_local_model: match c.model.source {
            SourceView::HuggingFace(_) => Seq::empty(),
            SourceView::Local(p) => p,
        },
        remote_model_size: None,
        missing_server_prompt: !executable_found,
        discovered_models: Seq::empty(),
        pending_discover: true,
        last_discover: now,
        library_fetch: None,
        window: false,
        listen_addr: None,
        appearance: look,
        extra_servers: Seq::empty(),
        active_server_id: PRIMARY_SERVER_ID@,
        next_server_seq: 1,
        effects: if config != remember_own(c) {
            seq![EffectView::Save(SaveReport::Ignored), EffectView::Discover]
        } else {
            seq![EffectView::Discover]
        },
    };
    size_synced(preset_sanitized(a, unified))
}

/// The configuration with the files for TLS while sharing is on, and without
/// them while it is off; where they could not be made nothing changes.
pub open spec fn with_share_tls(
    c: ConfigView,
    made: Result<(Text, Text), Text>,
) -> ConfigView {
    if !c.network.expose {
        ConfigView { tls_cert_file: None, tls_key_file: None, ..c }
    } else {
        match made {
            Ok((cert, key)) => ConfigView {
                tls_cert_file: Some(cert),
                tls_key_file: Some(key),
                ..c
            },
            Err(_) => c,
        }
    }
}

/// The view of the files for TLS, or why there are none.
pub open spec fn tls_view(r: Result<(String, String), String>) -> Result<(Text, Text), Text> {
    match r {
        Ok(p) => Ok((p.0@, p.1@)),
        Err(e) => Err(e@),
    }
}

/// The application with all settings as they are at first, but for the models
/// that it remembers.
pub open spec fn reset(a: AppView, executable_found: bool) -> AppView {
    let config = remember_own(
        ConfigView { recent_models: a.config.recent_models, ..default_config() },
    );
    let a1 = size_synced(
        AppView {
            config,
            last_hf_model: DEFAULT_MODEL@,
            last_local_model: Seq::empty(),
            missing_server_prompt: !executable_found,
            ..a
        },
    );
    logged(
        detailed(
            wanting(a1, EffectView::Save(SaveReport::Logged)),
            or_restart("Restored defaults"@, a.slot.process is Some),
        ),
        "configuration reset to defaults"@,
    )
}

/// The application with a profile of runtime settings.
pub open spec fn preset_applied(a: AppView, p: RuntimePreset) -> AppView {
    logged(
        detailed(
            wanting(
                AppView { config: ConfigView { runtime: p.settings(), ..a.config }, ..a },
                EffectView::Save(SaveReport::Logged),
            ),
            or_restart("Applied "@ + p.title(), a.slot.process is Some),
        ),
        "applied runtime preset "@ + p.name(),
    )
}

/// What is told of a copy.
pub open spec fn copied(label: Text, error: Option<Text>) -> Text {
    match error {
        None => "Copied "@ + label,
        Some(e) => "Could not copy "@ + label + ": "@ + e,
    }
}

impl App {
    /// The application as it begins. `tls` are the files for TLS, looked at only
    /// while sharing is on.
    pub fn new(
        config: Config,
        config_path: &str,
        look: &Appearance,
        executable_found: bool,
        unified: bool,
        local: &LocalAddrs,
        fresh: &Fresh,
        tls: Result<(String, String), String>,
        now: u64,
    ) -> (r: App)
        ensures
            r@ == ({
                let a = opened(
                    config@,
                    config_path@,
                    look@,
                    executable_found,
                    unified,
                    fresh@,
                    local.tailscale@,
                    now,
                );
                AppView { config: with_share_tls(a.config, tls_view(tls)), ..a }
            }),
    {
        let ghost c = config@;
        let mut config = config;
        let detail = if executable_found {
            "Ready to launch".to_owned()
        } else {
            let mut d = config.server.executable.clone();
            d.append(" was not found; set its path in Configure");
            d
        };
        let (hf, model_path) = match &config.model.source {
            ModelSource::HuggingFace(id) => (id.clone(), String::new()),
            ModelSource::Local(p) => (DEFAULT_MODEL.to_owned(), p.clone()),
        };
        let own = config.model.source.clone();
        config.remember_model(own);
        let before = config.clone();
        config.migrate_network_expose_to_llama(local, fresh);
        let mut wanted: Vec<Effect> = Vec::new();
        if !config.same(&before) {
            wanted.push(Effect::Save(SaveReport::Ignored));
        }
        wanted.push(Effect::Discover);
        let mut logs: Vec<String> = Vec::new();
        logs.push("tinyinference initialized".to_owned());
        let mut app = App {
            config,
            config_path: config_path.to_owned(),
            slot: ServerSlot::idle(ServerStatus::Stopped, detail.as_str(), false),
            running_config: None,
            logs,
            last_hf_model: hf,
            last_local_model: model_path,
            remote_model_size: None,
            missing_server_prompt: !executable_found,
            discovered_models: Vec::new(),
            pending_discover: true,
            last_discover: now,
            library_fetch: None,
            window: false,
            listen_addr: None,
            appearance: look.clone(),
            extra_servers: Vec::new(),
            active_server_id: PRIMARY_SERVER_ID.to_owned(),
            next_server_seq: 1,
            effects: wanted,
        };
        proof {
            assert(remember_own(c).recent_models == before@.recent_models);
            assert(texts(app.logs@) =~= seq!["tinyinference initialized"@]);
            assert(found(app.discovered_models@) =~= Seq::<FoundView>::empty());
            assert(servers(app.extra_servers@) =~= Seq::<ManagedView>::empty());
            if app.config@ != remember_own(c) {
                assert(effects(app.effects@) =~= seq![
                    EffectView::Save(SaveReport::Ignored),
                    EffectView::Discover,
                ]);
            } else {
                assert(effects(app.effects@) =~= seq![EffectView::Discover]);
            }
        }
        app.sanitize_unified_memory_presets(unified);
        app.sync_remote_model_size();
        let _ = app.sync_share_tls(tls);
        app
    }

    /// The command that would launch a server.
    pub fn command(&self, threads: usize) -> (r: CommandSpec)
        ensures
            r@ == command_of(self@.config, threads as nat),
    {
        CommandSpec::from_config_with_threads(&self.config, threads)
    }

    /// Notes that there is a window to raise.
    pub fn set_focus_hook(&mut self)
        ensures
            final(self)@ == (AppView { window: true, ..old(self)@ }),
    {
        self.window = true;
    }

    /// Whether there is a window to raise.
    pub fn request_focus(&self) -> (r: bool)
        ensures
            r == self@.window,
    {
        self.window
    }

    /// Where the control panel listens.
    pub fn listen_addr(&self) -> (r: Option<Socket>)
        ensures
            r == self@.listen_addr,
    {
        self.listen_addr
    }

    /// Whether to tell that the server's program was not found.
    pub fn should_prompt_for_server(&self) -> (r: bool)
        ensures
            r == self@.missing_server_prompt,
    {
        self.missing_server_prompt
    }

    /// Tells it no longer.
    pub fn dismiss_server_prompt(&mut self)
        ensures
            final(self)@ == (AppView { missing_server_prompt: false, ..old(self)@ }),
    {
        self.missing_server_prompt = false;
    }

    /// Goes to the setting of the server's program.
    pub fn open_server_configuration(&mut self)
        ensures
            final(self)@ == detailed(
                AppView { missing_server_prompt: false, ..old(self)@ },
                "Set the llama-server executable path, then save"@,
            ),
    {
        self.missing_server_prompt = false;
        self.slot.status_detail = "Set the llama-server executable path, then save".to_owned();
    }

    /// The download that goes on, if one does.
    pub fn active_download(&self) -> (r: Option<&Download>)
        ensures
            (r is Some) == (self@.slot.download matches Some(d) && d.active),
            r matches Some(d) ==> Some(d@) == self@.slot.download,
    {
        match &self.slot.download {
            Some(d) => if d.is_active() {
                Some(d)
            } else {
                None
            },
            None => None,
        }
    }

    /// The size of the model files that are mapped, where it is known. `files`
    /// says of a local model's files which are there and how long they are.
    pub fn mapped_model_bytes(&self, files: &Vec<PathFact>) -> (r: Option<u64>)
        ensures
            r == mapped_bytes(self@, files@),
    {
        match self.config.local_model_bytes(files) {
            Some(n) => {
                return Some(n);
            },
            None => {},
        }
        match self.active_download() {
            Some(d) => {
                if d.total.is_some() {
                    return d.total;
                }
            },
            None => {},
        }
        match &self.remote_model_size {
            Some(r) => r.bytes,
            None => None,
        }
    }

    /// Whether the size of a hosted model is being asked for.
    pub fn remote_model_size_loading(&self) -> (r: bool)
        ensures
            r == size_loading(self@),
    {
        match &self.remote_model_size {
            Some(r) => r.listing && r.bytes.is_none() && r.error.is_none(),
            None => false,
        }
    }

    /// Why the size of a hosted model is not known.
    pub fn remote_model_size_error(&self) -> (r: Option<&str>)
        ensures
            crate::slot::opt_view(r) == (match self@.remote_model_size {
                Some(s) => s.error,
                None => None,
            }),
    {
        match &self.remote_model_size {
            Some(s) => match &s.error {
                Some(e) => Some(e.as_str()),
                None => None,
            },
            None => None,
        }
    }

    /// What a field shows.
    pub fn setting_value(&self, f: SettingField, files: &Vec<PathFact>) -> (out: String)
        ensures
            out@ == shown_value(self@, f, files@),
    {
        let hosted: bool = match &self.config.model.source {
            ModelSource::HuggingFace(_) => true,
            ModelSource::Local(_) => false,
        };
        let r = &self.config.runtime;
        match f {
            SettingField::SourceKind => if hosted {
                "Hugging Face".to_owned()
            } else {
                "Local GGUF".to_owned()
            },
            SettingField::Model => if self.config.model.source.is_blank() {
                if hosted {
                    "<add a model in Models>".to_owned()
                } else {
                    "<enter path to .gguf>".to_owned()
                }
            } else {
                self.config.model_label()
            },
            SettingField::EstimatedSize => match self.mapped_model_bytes(files) {
                Some(n) => if hosted {
                    with_ending(gib_text(n), " GiB  (from Hugging Face)")
                } else {
                    with_ending(gib_text(n), " GiB  (from file)")
                },
                None => if !hosted {
                    "auto from .gguf".to_owned()
                } else if self.remote_model_size_loading() {
                    "fetching from Hugging Face…".to_owned()
                } else {
                    "unavailable".to_owned()
                },
            },
            SettingField::Executable => if is_single_name(self.config.server.executable.as_str()) {
                with_ending(self.config.server.executable.clone(), "  (from PATH)")
            } else {
                self.config.server.executable.clone()
            },
            SettingField::Host => self.config.effective_host(),
            SettingField::Port => number(self.config.server.port as u64),
            SettingField::Context => with_ending(number(r.context_size as u64), " tokens"),
            SettingField::Batch => number(r.batch_size as u64),
            SettingField::MicroBatch => number(r.micro_batch_size as u64),
            SettingField::Parallel => number(r.parallel as u64),
            SettingField::CpuOnly => switch_text(r.cpu_only),
            SettingField::Mmap => switch_text(r.mmap),
            SettingField::Fit => switch_text(r.fit),
            SettingField::Repack => switch_text(r.repack),
            SettingField::Warmup => switch_text(r.warmup),
            SettingField::FlashAttn => switch_text(r.flash_attn),
            SettingField::CacheTypeK => r.cache_type_k.clone(),
            SettingField::CacheTypeV => r.cache_type_v.clone(),
            SettingField::CacheRam => with_ending(number(r.cache_ram_mib as u64), " MiB"),
            SettingField::Checkpoints => number(r.context_checkpoints as u64),
            SettingField::Mmproj => switch_text(r.multimodal_projector),
            SettingField::Jinja => switch_text(r.jinja),
        }
    }

    /// What a field holds, as it would be entered.
    pub fn setting_raw_value(&self, f: SettingField, files: &Vec<PathFact>) -> (out: String)
        ensures
            out@ == raw_value(self@, f, files@),
    {
        let r = &self.config.runtime;
        match f {
            SettingField::SourceKind => match &self.config.model.source {
                ModelSource::HuggingFace(_) => "hugging_face".to_owned(),
                ModelSource::Local(_) => "local".to_owned(),
            },
            SettingField::Model => if self.config.model.source.is_blank() {
                String::new()
            } else {
                crate::bind::source_label(&self.config.model.source)
            },
            SettingField::EstimatedSize => match self.mapped_model_bytes(files) {
                Some(n) => gib_text(n),
                None => String::new(),
            },
            SettingField::Executable => self.config.server.executable.clone(),
            SettingField::Host => self.config.effective_host(),
            SettingField::Port => number(self.config.server.port as u64),
            SettingField::Context => number(r.context_size as u64),
            SettingField::Batch => number(r.batch_size as u64),
            SettingField::MicroBatch => number(r.micro_batch_size as u64),
            SettingField::Parallel => number(r.parallel as u64),
            SettingField::CpuOnly => bool_text(r.cpu_only),
            SettingField::Mmap => bool_text(r.mmap),
            SettingField::Fit => bool_text(r.fit),
            SettingField::Repack => bool_text(r.repack),
            SettingField::Warmup => bool_text(r.warmup),
            SettingField::FlashAttn => bool_text(r.flash_attn),
            SettingField::CacheTypeK => r.cache_type_k.clone(),
            SettingField::CacheTypeV => r.cache_type_v.clone(),
            SettingField::CacheRam => number(r.cache_ram_mib as u64),
            SettingField::Checkpoints => number(r.context_checkpoints as u64),
            SettingField::Mmproj => bool_text(r.multimodal_projector),
            SettingField::Jinja => bool_text(r.jinja),
        }
    }

    /// What is said of a field.
    pub fn setting_hint(&self, f: SettingField) -> (r: &'static str)
        ensures
            r@ == hint_for(f, self@.config.model.source),
    {
        match (f, &self.config.model.source) {
            (SettingField::SourceKind, _) => "Switch between Hugging Face and a local GGUF file.",
            (SettingField::Model, ModelSource::HuggingFace(_)) => {
                "Use Add model on the Models tab, or pick one from the library."
            },
            (SettingField::Model, ModelSource::Local(_)) => {
                "Use Add model on the Models tab, or pick a local GGUF from the library."
            },
            (SettingField::EstimatedSize, ModelSource::Local(_)) => {
                "Calculated automatically from the GGUF file."
            },
            (SettingField::EstimatedSize, ModelSource::HuggingFace(_)) => {
                "Fetched from the Hugging Face file listing for this repository."
            },
            (SettingField::Executable, _) => {
                "Enter llama-server if it is on PATH, or enter its full executable path."
            },
            (SettingField::Host, _) => {
                "Set by Devices (loopback when Share is off). Not editable here."
            },
            (SettingField::Port, _) => "Port llama-server listens on.",
            (SettingField::Context, _) => "Token count; 8k is accepted.",
            (SettingField::Batch, _) => "Prompt batch size.",
            (SettingField::MicroBatch, _) => "Must be no larger than the batch size.",
            (SettingField::Parallel, _) => "Number of simultaneous server slots.",
            (SettingField::CpuOnly, _) => "On forces all model layers onto the CPU.",
            (SettingField::Mmap, _) => "On keeps model weights file-backed and demand-paged.",
            (SettingField::Fit, _) => "Off prevents llama.cpp from changing the requested profile.",
            (SettingField::Repack, _) => "Off avoids a separate repacked weight copy.",
            (SettingField::Warmup, _) => {
                "On touches model pages at startup for smoother first-token behavior."
            },
            (SettingField::FlashAttn, _) => {
                "On uses flash attention to cut attention memory; keep on with quantized KV."
            },
            (SettingField::CacheTypeK, _) => "Attention key half of the context scratchpad.",
            (SettingField::CacheTypeV, _) => "Attention value half of the context scratchpad.",
            (SettingField::CacheRam, _) => "Host prompt-cache limit in MiB; zero disables it.",
            (SettingField::Checkpoints, _) => "Saved context states per slot; zero disables them.",
            (SettingField::Mmproj, _) => "Leave off for text-only models.",
            (SettingField::Jinja, _) => "Uses the model's Jinja chat template.",
        }
    }

    /// Takes another theme.
    pub fn set_ui_theme(&mut self, theme: UiTheme)
        ensures
            final(self)@ == (if old(self)@.appearance.theme == theme {
                old(self)@
            } else {
                logged(
                    wanting(
                        AppView {
                            appearance: AppearanceView { theme, ..old(self)@.appearance },
                            ..old(self)@
                        },
                        EffectView::Save(SaveReport::Shown),
                    ),
                    "ui theme set to "@ + theme_word(theme),
                )
            }),
    {
        if self.appearance.theme == theme {
            return;
        }
        self.appearance.theme = theme;
        self.want(Effect::Save(SaveReport::Shown));
        let mut line = "ui theme set to ".to_owned();
        line.append(theme.as_str());
        self.push_log(line.as_str());
    }

    /// Takes another look, part by part, up to the first part that is refused.
    /// It is saved only where nothing was refused and something changed.
    pub fn set_ui_appearance(&mut self, u: &AppearanceUpdate, known: &Fonts) -> (r: Result<
        (),
        String,
    >)
        ensures
            ({
                let (look, answer) = restyled(old(self)@.appearance, *u, known@);
                let a = AppView { appearance: look, ..old(self)@ };
                &&& crate::settings::outcome(r) == answer
                &&& final(self)@ == (if answer is Ok && look != old(self)@.appearance {
                    logged(
                        wanting(a, EffectView::Save(SaveReport::Shown)),
                        "ui appearance updated"@,
                    )
                } else {
                    a
                })
            }),
    {
        let before = self.appearance.clone();
        match self.appearance.restyle(u, known) {
            Err(e) => {
                return Err(e);
            },
            Ok(()) => {},
        }
        if !self.appearance.same(&before) {
            self.want(Effect::Save(SaveReport::Shown));
            self.push_log("ui appearance updated");
        }
        Ok(())
    }

    /// Takes the look that there is at first.
    pub fn reset_ui_appearance(&mut self, first: &Appearance)
        ensures
            final(self)@ == (if old(self)@.appearance == first@ {
                old(self)@
            } else {
                logged(
                    wanting(
                        AppView { appearance: first@, ..old(self)@ },
                        EffectView::Save(SaveReport::Shown),
                    ),
                    "ui appearance reset to defaults"@,
                )
            }),
    {
        if self.appearance.same(first) {
            return;
        }
        self.appearance = first.clone();
        self.want(Effect::Save(SaveReport::Shown));
        self.push_log("ui appearance reset to defaults");
    }

    /// Takes all settings as they are at first, but keeps the models that are
    /// remembered.
    pub fn reset_to_defaults(&mut self, executable_found: bool)
        ensures
            final(self)@ == reset(old(self)@, executable_found),
    {
        let recent = copy_sources(&self.config.recent_models);
        self.config = Config::default();
        self.config.recent_models = recent;
        let own = self.config.model.source.clone();
        self.config.remember_model(own);
        self.last_hf_model = DEFAULT_MODEL.to_owned();
        self.last_local_model = String::new();
        self.missing_server_prompt = !executable_found;
        self.sync_remote_model_size();
        self.want(Effect::Save(SaveReport::Logged));
        let mut detail = "Restored defaults".to_owned();
        if self.slot.is_running() {
            detail.append("; restart to apply");
        }
        self.slot.status_detail = detail;
        self.push_log("configuration reset to defaults");
    }

    /// Takes a profile of runtime settings, unless memory is unified and the
    /// profile cannot be borne there.
    pub fn apply_runtime_preset(&mut self, p: RuntimePreset, unified: bool) -> (r: Result<
        (),
        String,
    >)
        ensures
            if unified && p == RuntimePreset::GpuFit {
                &&& r matches Err(e)
                &&& e@
                    == "GPU + CPU spill is for discrete GPUs only. On unified memory it can exhaust the shared RAM pool and crash the system. Use Max RAM efficiency instead."@
                &&& final(self)@ == old(self)@
            } else {
                r is Ok && final(self)@ == preset_applied(old(self)@, p)
            },
    {
        if unified && p.blocked_on_unified_memory() {
            return Err(
                "GPU + CPU spill is for discrete GPUs only. On unified memory it can exhaust the shared RAM pool and crash the system. Use Max RAM efficiency instead.".to_owned(),
            );
        }
        self.config.runtime = p.runtime();
        self.want(Effect::Save(SaveReport::Logged));
        let mut detail = "Applied ".to_owned();
        detail.append(p.label());
        if self.slot.is_running() {
            detail.append("; restart to apply");
        }
        self.slot.status_detail = detail;
        let mut line = "applied runtime preset ".to_owned();
        line.append(p.id());
        self.push_log(line.as_str());
        Ok(())
    }

    /// Gives up a saved profile that unified memory cannot bear.
    pub fn sanitize_unified_memory_presets(&mut self, unified: bool)
        ensures
            final(self)@ == preset_sanitized(old(self)@, unified),
    {
        if !unified {
            return;
        }
        match RuntimePreset::matching(&self.config.runtime) {
            Some(RuntimePreset::GpuFit) => {},
            _ => {
                return;
            },
        }
        self.config.runtime = RuntimePreset::LowRam.runtime();
        self.slot.status_detail =
        "GPU + CPU spill was reset to Max RAM efficiency on unified memory (shared RAM can be exhausted).".to_owned();
        self.push_log("reset gpu_fit preset to max RAM efficiency on unified memory");
    }

    /// The profile that the runtime settings are, if they are one.
    pub fn active_runtime_preset(&self) -> (r: Option<RuntimePreset>)
        ensures
            r == RuntimePreset::of(self@.config.runtime),
    {
        RuntimePreset::matching(&self.config.runtime)
    }

    /// Takes the files for TLS while sharing is on, and drops them while it is
    /// off; says why where they could not be made.
    pub fn sync_share_tls(&mut self, made: Result<(String, String), String>) -> (r: Result<
        (),
        String,
    >)
        ensures
            final(self)@ == (AppView {
                config: with_share_tls(old(self)@.config, tls_view(made)),
                ..old(self)@
            }),
            crate::settings::outcome(r) == (match tls_view(made) {
                Err(e) if old(self)@.config.network.expose => Err(
                    "could not prepare share TLS certificate: "@ + e,
                ),
                _ => Ok(()),
            }),
    {
        if !self.config.network.expose {
            self.config.set_share_tls(None);
            return Ok(());
        }
        match made {
            Ok(p) => {
                self.config.set_share_tls(Some(p));
                Ok(())
            },
            Err(e) => {
                let mut m = "could not prepare share TLS certificate: ".to_owned();
                m.append(e.as_str());
                Err(m)
            },
        }
    }

    /// The address that goes to the clipboard.
    pub fn copy_endpoint(&self) -> (out: String)
        ensures
            out@ == base_url(displayed(self@)) + "/v1"@,
    {
        self.displayed_config().api_endpoint()
    }

    /// The command that goes to the clipboard.
    pub fn copy_command(&self, threads: usize) -> (out: String)
        ensures
            out@ == ({
                let c = command_of(displayed(self@), threads as nat);
                joined(seq![quoted(c.program)] + quoted_all(c.args), " "@)
            }),
    {
        CommandSpec::from_config_with_threads(self.displayed_config(), threads).display()
    }

    /// The log that goes to the clipboard.
    pub fn copy_logs(&self) -> (out: String)
        ensures
            out@ == joined(self@.logs, "\n"@),
    {
        join(&self.logs, "\n")
    }

    /// Takes in how a copy to the clipboard went.
    pub fn copy_text(&mut self, label: &str, error: Option<&str>)
        ensures
            final(self)@ == detailed(
                old(self)@,
                copied(label@, crate::slot::opt_view(error)),
            ),
    {
        match error {
            None => {
                let mut d = "Copied ".to_owned();
                d.append(label);
                self.slot.status_detail = d;
            },
            Some(e) => {
                let mut d = "Could not copy ".to_owned();
                d.append(label);
                d.append(": ");
                d.append(e);
                self.slot.status_detail = d;
            },
        }
    }
}

/// A fresh application runs nothing and looks at the first server. Where the
/// graphics share the memory, it does not run with the profile that fits the
/// model onto them.
pub proof fn law_opens_stopped(
    c: ConfigView,
    path: Text,
    look: AppearanceView,
    executable_found: bool,
    unified: bool,
    fresh: FreshView,
    ts: Seq<Ipv4>,
    now: u64,
)
    ensures
        ({
            let a = opened(c, path, look, executable_found, unified, fresh, ts, now);
            &&& a.slot.status == ServerStatus::Stopped
            &&& a.slot.process is None
            &&& a.running_config is None
            &&& a.active_server_id == PRIMARY_SERVER_ID@
            &&& (unified ==> RuntimePreset::of(a.config.runtime) != Some(RuntimePreset::GpuFit))
        }),
{
}

/// A profile changes the runtime settings and no other.
pub proof fn law_preset_changes_runtime_only(a: AppView, p: RuntimePreset)
    ensures
        preset_applied(a, p).config == (ConfigView { runtime: p.settings(), ..a.config }),
        RuntimePreset::of(preset_applied(a, p).config.runtime) == Some(p),
{
    crate::config::law_preset_matches_itself(p);
}

/// Going back to the first settings keeps every remembered model that there is
/// room for.
pub proof fn law_reset_keeps_models(a: AppView, executable_found: bool)
    ensures
        reset(a, executable_found).config.recent_models == remembered(
            a.config.recent_models,
            default_config().model.source,
        ),
        reset(a, executable_found).config.server == default_config().server,
        reset(a, executable_found).config.runtime == default_config().runtime,
{
}

/// A number that is shown for editing and entered as it is leaves its setting as
/// it was.
pub proof fn law_shown_numbers_enter_back(
    a: AppView,
    e: EditView,
    files: Seq<PathFact>,
    n: Option<ReadNumber>,
)
    requires
        e.config == a.config,
        1 <= a.config.server.port,
        1 <= a.config.runtime.micro_batch_size <= a.config.runtime.batch_size <= 4096,
        1 <= a.config.runtime.parallel <= 64,
        a.config.runtime.cache_ram_mib <= 131_072,
        a.config.runtime.context_checkpoints <= 256,
    ensures
        entered(e, SettingField::Port, raw_value(a, SettingField::Port, files), n) matches Ok(x)
            && x.config.server.port == a.config.server.port,
        entered(e, SettingField::Batch, raw_value(a, SettingField::Batch, files), n) matches Ok(x)
            && x.config.runtime.batch_size == a.config.runtime.batch_size,
        entered(
            e,
            SettingField::MicroBatch,
            raw_value(a, SettingField::MicroBatch, files),
            n,
        ) matches Ok(x) && x.config.runtime.micro_batch_size == a.config.runtime.micro_batch_size,
        entered(
            e,
            SettingField::Parallel,
            raw_value(a, SettingField::Parallel, files),
            n,
        ) matches Ok(x) && x.config.runtime.parallel == a.config.runtime.parallel,
        entered(
            e,
            SettingField::CacheRam,
            raw_value(a, SettingField::CacheRam, files),
            n,
        ) matches Ok(x) && x.config.runtime.cache_ram_mib == a.config.runtime.cache_ram_mib,
        entered(
            e,
            SettingField::Checkpoints,
            raw_value(a, SettingField::Checkpoints, files),
            n,
        ) matches Ok(x) && x.config.runtime.context_checkpoints
            == a.config.runtime.context_checkpoints,
{
    let r = a.config.runtime;
    law_entered_number_is_set(e, a.config.server.port as nat, n);
    law_entered_number_is_set(e, r.batch_size as nat, n);
    law_entered_number_is_set(e, r.micro_batch_size as nat, n);
    law_entered_number_is_set(e, r.parallel as nat, n);
    law_entered_number_is_set(e, r.cache_ram_mib as nat, n);
    law_entered_number_is_set(e, r.context_checkpoints as nat, n);
}

/// A switch that is shown for editing and entered as it is leaves its setting as
/// it was.
pub proof fn law_shown_switches_enter_back(
    a: AppView,
    e: EditView,
    files: Seq<PathFact>,
    n: Option<ReadNumber>,
)
    requires
        e.config == a.config,
    ensures
        entered(e, SettingField::CpuOnly, raw_value(a, SettingField::CpuOnly, files), n) matches Ok(
            x,
        ) && x.config.runtime.cpu_only == a.config.runtime.cpu_only,
        entered(e, SettingField::Mmap, raw_value(a, SettingField::Mmap, files), n) matches Ok(x)
            && x.config.runtime.mmap == a.config.runtime.mmap,
        entered(e, SettingField::Fit, raw_value(a, SettingField::Fit, files), n) matches Ok(x)
            && x.config.runtime.fit == a.config.runtime.fit,
        entered(e, SettingField::Repack, raw_value(a, SettingField::Repack, files), n) matches Ok(x)
            && x.config.runtime.repack == a.config.runtime.repack,
        entered(e, SettingField::Warmup, raw_value(a, SettingField::Warmup, files), n) matches Ok(x)
            && x.config.runtime.warmup == a.config.runtime.warmup,
        entered(
            e,
            SettingField::FlashAttn,
            raw_value(a, SettingField::FlashAttn, files),
            n,
        ) matches Ok(x) && x.config.runtime.flash_attn == a.config.runtime.flash_attn,
        entered(e, SettingField::Mmproj, raw_value(a, SettingField::Mmproj, files), n) matches Ok(x)
            && x.config.runtime.multimodal_projector == a.config.runtime.multimodal_projector,
        entered(e, SettingField::Jinja, raw_value(a, SettingField::Jinja, files), n) matches Ok(x)
            && x.config.runtime.jinja == a.config.runtime.jinja,
{
    law_entered_switch_is_set(e, "true"@, true, n);
    law_entered_switch_is_set(e, "false"@, false, n);
}

/// The types of the context cache are shown as they are, the one for keys under
/// its name and the one for values under its own.
pub proof fn law_shown_cache_types_enter_back(
    a: AppView,
    e: EditView,
    files: Seq<PathFact>,
    t: Text,
    n: Option<ReadNumber>,
)
    requires
        e.config == a.config,
        t == "f32"@ || t == "f16"@ || t == "bf16"@ || t == "q8_0"@ || t == "q4_0"@ || t == "q4_1"@
            || t == "iq4_nl"@ || t == "q5_0"@ || t == "q5_1"@,
    ensures
        a.config.runtime.cache_type_k == t ==> (entered(
            e,
            SettingField::CacheTypeK,
            raw_value(a, SettingField::CacheTypeK, files),
            n,
        ) matches Ok(x) && x.config.runtime.cache_type_k == t),
        a.config.runtime.cache_type_v == t ==> (entered(
            e,
            SettingField::CacheTypeV,
            raw_value(a, SettingField::CacheTypeV, files),
            n,
        ) matches Ok(x) && x.config.runtime.cache_type_v == t),
{
    law_entered_cache_type_is_set(e, t, n);
}

/// What is shown of a setting begins with what is shown for editing it, except
/// for switches and for the model.
pub proof fn law_shown_value_begins_with_the_entry(
    a: AppView,
    f: SettingField,
    files: Seq<PathFact>,
)
    requires
        f == SettingField::Executable || f == SettingField::Host || f == SettingField::Port || f
            == SettingField::Context || f == SettingField::Batch || f == SettingField::MicroBatch
            || f == SettingField::Parallel || f == SettingField::CacheTypeK || f
            == SettingField::CacheTypeV || f == SettingField::CacheRam || f
            == SettingField::Checkpoints,
    ensures
        raw_value(a, f, files).is_prefix_of(shown_value(a, f, files)),
{
    let raw = raw_value(a, f, files);
    let shown = shown_value(a, f, files);
    assert(shown.subrange(0, raw.len() as int) =~= raw);
}

/// A switch is shown as on when it is entered as true, and as off otherwise.
pub proof fn law_shown_switch_is_its_entry(a: AppView, f: SettingField, files: Seq<PathFact>)
    requires
        f == SettingField::CpuOnly || f == SettingField::Mmap || f == SettingField::Fit || f
            == SettingField::Repack || f == SettingField::Warmup || f == SettingField::FlashAttn
            || f == SettingField::Mmproj || f == SettingField::Jinja,
    ensures
        raw_value(a, f, files) == "true"@ ==> shown_value(a, f, files) == "on"@,
        raw_value(a, f, files) == "false"@ ==> shown_value(a, f, files) == "off"@,
{
    reveal_strlit("true");
    reveal_strlit("false");
    assert("true"@.len() != "false"@.len());
}

/// Sharing takes the certificate and the key that were made for it; without
/// sharing there are none. Nothing else changes.
pub proof fn law_certificate_goes_with_sharing(
    c: ConfigView,
    cert: Text,
    key: Text,
    reason: Text,
)
    ensures
        ({
            let made = with_share_tls(c, Ok((cert, key)));
            let failed = with_share_tls(c, Err(reason));
            &&& c.network.expose ==> made.tls_cert_file == Some(cert) && made.tls_key_file == Some(
                key,
            ) && failed == c
            &&& !c.network.expose ==> made.tls_cert_file is None && made.tls_key_file is None
                && failed == made
            &&& made.network == c.network && made.server == c.server && made.runtime == c.runtime
                && made.model == c.model && made.recent_models == c.recent_models
        }),
{
}

proof fn lemma_all_there(paths: Seq<Text>, files: Seq<PathFact>)
    ensures
        lengths_together(paths, files) matches Some(n) ==> n == bytes_of(paths, files) && forall|
            i: int,
        |
            0 <= i < paths.len() ==> is_there(files, #[trigger] paths[i]),
        lengths_together(paths, files) is None ==> bytes_of(paths, files) > u64::MAX || exists|
            i: int,
        |
            0 <= i < paths.len() && !is_there(files, #[trigger] paths[i]),
    decreases paths.len(),
{
    if paths.len() > 0 {
        let init = paths.drop_last();
        lemma_all_there(init, files);
        lemma_bytes_of(paths, files);
        assert forall|i: int| 0 <= i < init.len() implies #[trigger] paths[i] == init[i] by {}
        assert(paths[paths.len() - 1] == paths.last());
        if lengths_together(init, files) is None {
            if exists|i: int| 0 <= i < init.len() && !is_there(files, #[trigger] init[i]) {
                let i = choose|i: int| 0 <= i < init.len() && !is_there(files, #[trigger] init[i]);
                assert(!is_there(files, paths[i]));
            }
        } else if lengths_together(paths, files) is None {
            if !is_there(files, paths.last()) {
                assert(!is_there(files, paths[paths.len() - 1]));
            }
        } else {
            assert forall|i: int| 0 <= i < paths.len() implies is_there(
                files,
                #[trigger] paths[i],
            ) by {
                if i < init.len() {
                    assert(is_there(files, init[i]));
                }
            }
        }
    }
}

/// The bytes of files together.
pub open spec fn bytes_of(paths: Seq<Text>, files: Seq<PathFact>) -> nat
    decreases paths.len(),
{
    if paths.len() == 0 {
        0
    } else {
        length_of(files, paths[0]) as nat + bytes_of(paths.skip(1), files)
    }
}

proof fn lemma_bytes_of(paths: Seq<Text>, files: Seq<PathFact>)
    requires
        paths.len() > 0,
    ensures
        bytes_of(paths, files) == bytes_of(paths.drop_last(), files) + length_of(
            files,
            paths.last(),
        ),
    decreases paths.len(),
{
    let rest = paths.skip(1);
    if rest.len() > 0 {
        lemma_bytes_of(rest, files);
        assert(rest.drop_last() =~= paths.drop_last().skip(1));
        assert(rest.last() == paths.last());
        assert(paths.drop_last()[0] == paths[0]);
    } else {
        assert(paths.drop_last().len() == 0);
        reveal_with_fuel(bytes_of, 2);
        assert(paths[0] == paths.last());
    }
}

/// The size of a local model is known when all its parts are there, and is their
/// lengths together.
pub proof fn law_local_size_is_all_parts(path: Text, files: Seq<PathFact>)
    ensures
        local_size(SourceView::Local(path), files) matches Some(n) ==> n == bytes_of(
            model_parts(path),
            files,
        ) && forall|i: int|
            0 <= i < model_parts(path).len() ==> is_there(files, #[trigger] model_parts(path)[i]),
        local_size(SourceView::Local(path), files) is None ==> bytes_of(model_parts(path), files)
            > u64::MAX || exists|i: int|
            0 <= i < model_parts(path).len() && !is_there(files, #[trigger] model_parts(path)[i]),
{
    lemma_all_there(model_parts(path), files);
}

} // verus!
