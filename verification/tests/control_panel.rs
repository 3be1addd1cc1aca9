use tinyinference::address::Ipv4;
use tinyinference::app::{App, Effect, RemoteModelSize};
use tinyinference::appearance::{
    Appearance, AppearanceUpdate, Fonts, UiFontScale, UiTheme,
};
use tinyinference::cache::{CacheScan, CachedBlob, DiscoveredModel, DiscoveredSource};
use tinyinference::config::{Config, ModelSource, RuntimePreset, DEFAULT_MODEL};
use tinyinference::disk::{delete_local_files, DiskFacts, PathFact};
use tinyinference::download::{Download, Rate, Sample};
use tinyinference::fresh::{Clock, Fresh};
use tinyinference::hub::RemoteFile;
use tinyinference::instance::{Failure, ManagedServer};
use tinyinference::launch::watch_download;
use tinyinference::listen::LocalAddrs;
use tinyinference::network::ListenScope;
use tinyinference::settings::{token_count, token_number, ReadNumber, SettingField};
use tinyinference::slot::ServerStatus;

fn look() -> Appearance {
    Appearance {
        theme: UiTheme::System,
        font_body: "inter".into(),
        font_display: "inter".into(),
        font_mono: "mono".into(),
        font_scale: UiFontScale::Default,
    }
}

fn fresh() -> Fresh {
    Fresh::draw(0, &Clock { seconds: 1_700_000_000, nanos: 5, pid: 7 })
}

fn local() -> LocalAddrs {
    LocalAddrs { lan: vec![Ipv4 { a: 192, b: 168, c: 1, d: 50 }], tailscale: Vec::new() }
}

fn started(config: Config, executable_found: bool) -> App {
    App::new(
        config,
        "test.toml",
        &look(),
        executable_found,
        false,
        &local(),
        &fresh(),
        Err("no certificate".into()),
        0,
    )
}

fn app() -> App {
    started(Config::default(), true)
}

fn number(raw: &str) -> Option<ReadNumber> {
    let (text, _) = token_number(raw);
    let read: f64 = text.parse().ok()?;
    if !read.is_finite() {
        return Some(ReadNumber::Unbounded);
    }
    let bits = read.abs().to_bits();
    let power = (bits >> 52) as i16;
    let fraction = bits & 0x000f_ffff_ffff_ffff;
    let (mantissa, exponent) =
        if power == 0 { (fraction, -1074) } else { (fraction | 1 << 52, power - 1075) };
    Some(ReadNumber::Value { negative: read < 0.0, mantissa, exponent })
}

fn enter(app: &mut App, field: SettingField, raw: &str) -> Result<(), String> {
    app.set_field(field, raw, number(raw))
}

fn bare() -> DiskFacts {
    DiskFacts { hubs: Vec::new(), flats: Vec::new(), files: Vec::new() }
}

fn facts(app: &App) -> Vec<DiskFacts> {
    app.config.recent_models.iter().map(|_| bare()).collect()
}

fn hf(id: &str) -> ModelSource {
    ModelSource::HuggingFace(id.to_string())
}

#[test]
fn app_starts_stopped() {
    assert_eq!(app().slot.status, ServerStatus::Stopped);
}

#[test]
fn recent_model_can_be_selected_by_index() {
    let mut app = app();
    let current = app.config.model.source.clone();
    let local = ModelSource::Local("models/small.gguf".into());
    app.config.recent_models = vec![current, local.clone()];
    app.select_recent_model(1).unwrap();
    assert!(app.config.model.source.same(&local));
    assert!(app.select_recent_model(9).is_err());
}

#[test]
fn delete_removes_model_from_library_and_does_not_resurrect_default() {
    let path = "/models/weights.gguf".to_string();
    let mut app = app();
    let source = ModelSource::Local(path.clone());
    app.config.model.source = source.clone();
    app.config.recent_models = vec![source.clone()];
    app.discovered_models.clear();
    app.take_effects();
    let on_disk = DiskFacts {
        files: vec![PathFact { path: path.clone(), exists: true, bytes: 32 }],
        ..bare()
    };
    assert!(app.deletable_library_model(&path).unwrap().same(&source));
    let report = delete_local_files(&source, &on_disk).unwrap();
    assert_eq!(report.removed_paths, vec![path.clone()]);
    assert_eq!(report.freed_bytes, 32);
    app.delete_library_model_by_label(&path, Some(Ok(report)), 0).unwrap();
    assert!(app.config.recent_models.is_empty());
    assert!(app.library_entries(&Vec::new()).is_empty());
    assert!(!app.has_active_model());
    assert!(app.slot.status_detail.contains("Removed"));
    assert!(app.take_effects().iter().any(|effect| matches!(effect, Effect::Save(_))));
}

#[test]
fn delete_falls_back_to_remaining_library_model() {
    let mut app = app();
    let missing = hf("tinyinference/never-cached");
    let other = hf("owner/other-GGUF");
    app.config.model.source = missing.clone();
    app.config.recent_models = vec![missing.clone(), other.clone()];
    app.delete_library_model_by_label("tinyinference/never-cached", None, 0).unwrap();
    assert!(!app.config.recent_models.iter().any(|model| model.same(&missing)));
    assert!(app.config.model.source.same(&other));
    assert_eq!(app.library_entries(&facts(&app)).len(), 1);
}

#[test]
fn available_models_exclude_library_entries() {
    let mut app = app();
    let recent = app.config.model.source.clone();
    app.config.recent_models = vec![recent.clone()];
    app.discovered_models = vec![
        DiscoveredModel {
            source: DiscoveredSource::HuggingFace("owner/cached-GGUF".into()),
            bytes: 100,
        },
        DiscoveredModel {
            source: DiscoveredSource::HuggingFace(match &recent {
                ModelSource::HuggingFace(id) => id.clone(),
                ModelSource::Local(_) => "other/unused".into(),
            }),
            bytes: 50,
        },
    ];
    assert_eq!(app.library_entries(&facts(&app)).len(), 1);
    let available = app.available_entries();
    assert_eq!(available.len(), 1);
    assert!(available[0].source.same(&hf("owner/cached-GGUF")));
    app.import_available_model("owner/cached-GGUF").unwrap();
    assert!(
        app.library_entries(&facts(&app))
            .iter()
            .any(|entry| entry.source.same(&hf("owner/cached-GGUF")))
    );
    assert!(app.available_entries().is_empty());
}

#[test]
fn missing_server_prompts_and_opens_configuration() {
    let mut config = Config::default();
    config.server.executable = "__tinyinference_missing_server__".into();
    let mut app = started(config, false);
    assert!(app.should_prompt_for_server());
    app.open_server_configuration();
    assert!(!app.should_prompt_for_server());
    assert!(app.slot.status_detail.contains("executable"));
}

#[test]
fn detected_server_does_not_prompt() {
    let mut config = Config::default();
    config.server.executable = "/usr/bin/llama-server".into();
    assert!(!started(config, true).should_prompt_for_server());
}

#[test]
fn running_configuration_stays_stable_until_restart() {
    let mut app = app();
    app.running_config = Some(app.config.clone());
    app.config.server.port = 9090;
    assert_eq!(app.displayed_config().server.port, 8080);
    assert!(app.has_pending_changes());
}

#[test]
fn allocate_port_skips_used_ports() {
    let mut app = app();
    app.running_config = Some(app.config.clone());
    assert_eq!(app.allocate_port(), 8081);
    assert_eq!(app.free_port(), Some(8081));
    app.config.server.port = 9090;
    assert_eq!(app.allocate_port(), 9090);
}

#[test]
fn extra_server_allocated_port_is_not_pending_restart() {
    let mut app = app();
    let mut extra_config = app.config.clone();
    extra_config.server.port = 8081;
    app.extra_servers.push(ManagedServer::stub_ready("extra-1".into(), extra_config));
    app.active_server_id = "extra-1".into();
    assert!(!app.has_pending_changes());
    app.config.runtime.context_size = 4096;
    assert!(app.has_pending_changes());
}

#[test]
fn share_urls_require_live_non_loopback_bind() {
    let mut app = app();
    app.config.network.expose = true;
    app.config.network.listen_scope = ListenScope::Custom;
    app.config.network.listen_host = "192.168.1.50".into();
    app.config.network.ensure_token(&fresh());
    app.config.server.host = "127.0.0.1".into();
    assert!(app.network_share_urls(&local()).is_empty());
    app.config.sync_llama_bind_from_network(&local(), &fresh());
    app.running_config = Some(app.config.clone());
    app.slot.status = ServerStatus::Ready;
    app.slot.endpoint_online = true;
    assert!(!app.network_share_urls(&local()).is_empty());
    assert!(
        app.network_share_urls(&local())
            .iter()
            .all(|url| url.api_base.contains("192.168.1.50"))
    );
}

#[test]
fn exact_port_can_be_entered() {
    let mut app = app();
    app.dismiss_server_prompt();
    enter(&mut app, SettingField::Port, "4242").unwrap();
    assert_eq!(app.config.server.port, 4242);
}

#[test]
fn reset_to_defaults_restores_settings_and_keeps_recent_models() {
    let mut app = app();
    let local = ModelSource::Local("models/small.gguf".into());
    app.config.recent_models.push(local.clone());
    enter(&mut app, SettingField::Port, "4242").unwrap();
    enter(&mut app, SettingField::Context, "4096").unwrap();
    app.reset_to_defaults(true);
    assert_eq!(app.config.server.port, Config::default().server.port);
    assert_eq!(app.config.runtime.context_size, Config::default().runtime.context_size);
    assert!(app.config.recent_models.iter().any(|model| model.same(&local)));
}

#[test]
fn apply_runtime_preset_only_changes_runtime() {
    let mut app = app();
    enter(&mut app, SettingField::Port, "4242").unwrap();
    assert_eq!(app.active_runtime_preset(), Some(RuntimePreset::LowRam));
    app.apply_runtime_preset(RuntimePreset::GpuFit, false).unwrap();
    assert_eq!(app.active_runtime_preset(), Some(RuntimePreset::GpuFit));
    assert!(!app.config.runtime.cpu_only);
    assert!(app.config.runtime.fit);
    assert_eq!(app.config.server.port, 4242);
    enter(&mut app, SettingField::Context, "4096").unwrap();
    assert_eq!(app.active_runtime_preset(), None);
}

#[test]
fn gpu_fit_preset_blocked_on_unified_memory() {
    let mut app = app();
    let error = app.apply_runtime_preset(RuntimePreset::GpuFit, true).unwrap_err();
    assert!(error.contains("unified memory"));
    assert_eq!(app.active_runtime_preset(), Some(RuntimePreset::LowRam));
}

#[test]
fn context_accepts_k_suffix() {
    let mut app = app();
    enter(&mut app, SettingField::Context, "16k").unwrap();
    assert_eq!(app.config.runtime.context_size, 16 * 1024);
}

#[test]
fn invalid_field_value_is_rejected() {
    let mut app = app();
    let error = enter(&mut app, SettingField::Port, "70000").unwrap_err();
    assert!(error.contains("between"));
    assert_eq!(app.config.server.port, 8080);
}

#[test]
fn switching_to_local_model_requests_a_real_path() {
    let mut app = app();
    app.adjust_field(SettingField::SourceKind, 1);
    assert!(matches!(&app.config.model.source, ModelSource::Local(path) if path.is_empty()));
    assert_eq!(app.setting_value(SettingField::Model, &Vec::new()), "<enter path to .gguf>");
    assert_eq!(app.setting_label(SettingField::Model), "GGUF file path");
    assert_eq!(app.setting_value(SettingField::EstimatedSize, &Vec::new()), "auto from .gguf");
    assert!(!app.setting_is_editable(SettingField::EstimatedSize));
}

#[test]
fn hugging_face_mapped_size_comes_from_the_listing() {
    let mut app = app();
    app.remote_model_size = Some(RemoteModelSize {
        repo: DEFAULT_MODEL.into(),
        listing: false,
        bytes: Some(63_454_123_008),
        error: None,
    });
    let bytes = app.mapped_model_bytes(&Vec::new()).unwrap();
    let size = bytes as f64 / 1024_f64.powi(3);
    assert!((size - 59.1).abs() < 0.05);
    assert!(
        app.setting_value(SettingField::EstimatedSize, &Vec::new())
            .contains("from Hugging Face")
    );
    assert!(!app.setting_is_editable(SettingField::EstimatedSize));
}

#[test]
fn model_source_switch_preserves_both_values() {
    let mut app = app();
    app.adjust_field(SettingField::SourceKind, 1);
    enter(&mut app, SettingField::Model, r"C:\models\custom.gguf").unwrap();
    app.adjust_field(SettingField::SourceKind, 1);
    assert_eq!(app.setting_value(SettingField::Model, &Vec::new()), "ggml-org/gpt-oss-120b-GGUF");
    app.adjust_field(SettingField::SourceKind, 1);
    assert_eq!(app.setting_value(SettingField::Model, &Vec::new()), r"C:\models\custom.gguf");
}

fn remote(path: &str, oid: &str, size: u64) -> RemoteFile {
    RemoteFile { path: path.into(), oid: oid.into(), size }
}

fn download_of(files: Vec<RemoteFile>) -> Download {
    let mut download = Download::new("owner/model", Some(63_458_141_799), false, 0);
    download.files = files;
    download
}

fn fetching(oid: &str, bytes: u64) -> CacheScan {
    CacheScan {
        blobs: vec![CachedBlob { oid: oid.into(), bytes, in_flight: true }],
        flat_bytes: 0,
    }
}

#[test]
fn only_hugging_face_launches_are_watched_for_a_download() {
    let mut config = Config::default();
    config.model.source = ModelSource::Local("model.gguf".into());
    assert!(watch_download(&config, 0).is_none());
    assert!(watch_download(&Config::default(), 0).is_some());
}

#[test]
fn the_file_being_written_gives_the_real_name_and_size() {
    let mut download = download_of(vec![
        remote("model-Q4.gguf", "aaa", 400),
        remote("model-Q8.gguf", "bbb", 800),
    ]);
    download.scan = fetching("bbb", 200);
    download.resolve_target();
    assert_eq!(download.file.as_deref(), Some("model-Q8.gguf"));
    assert_eq!(download.total, Some(800));
    assert_eq!(download.oids, ["bbb"]);
}

#[test]
fn metadata_blobs_do_not_become_download_targets() {
    let mut download = download_of(vec![remote(".gitattributes", "meta", 1_000)]);
    download.scan = fetching("meta", 1_000);
    download.resolve_target();
    assert_eq!(download.file, None);
    assert_eq!(download.total, None);
}

#[test]
fn a_split_model_is_measured_across_every_shard() {
    let mut download = download_of(vec![
        remote("m-00001-of-00002.gguf", "aaa", 10),
        remote("m-00002-of-00002.gguf", "bbb", 20),
        remote("unrelated.gguf", "ccc", 5000),
    ]);
    download.scan = fetching("aaa", 10);
    download.resolve_target();
    assert_eq!(download.total, Some(30));
    assert_eq!(download.oids, ["aaa", "bbb"]);
}

#[test]
fn progress_rate_and_estimate_come_from_the_measured_bytes() {
    let mut download = download_of(Vec::new());
    download.total = Some(1_000);
    download.downloaded = 250;
    download.samples = vec![Sample { at: 1_000, bytes: 50 }, Sample { at: 5_000, bytes: 250 }];
    let (part, whole) = download.fraction().unwrap();
    assert_eq!(part as f64 / whole as f64, 0.25);
    let rate = download.rate().unwrap();
    assert_eq!(rate.bytes as f64 * 1000.0 / rate.millis as f64, 50.0);
    assert_eq!(rate, Rate { bytes: 200, millis: 4_000 });
    assert_eq!(download.eta(), Some(15_000));
}

#[test]
fn a_rate_needs_more_than_one_sample() {
    let mut download = download_of(Vec::new());
    download.samples = vec![Sample { at: 0, bytes: 10 }];
    assert_eq!(download.rate(), None);
    assert_eq!(download.eta(), None);
    assert_eq!(download.fraction(), None);
}

#[test]
fn loading_the_weights_ends_the_download() {
    let mut app = app();
    app.slot.download = Some(Download::new(DEFAULT_MODEL, Some(63_458_141_799), false, 0));
    assert!(app.active_download().is_some());

    app.observe_startup_line("srv    load_model: loading model");
    assert!(app.active_download().is_none());
}

#[test]
fn focus_is_only_reported_once_a_window_installs_a_hook() {
    let mut app = app();
    assert!(!app.request_focus());
    app.set_focus_hook();
    assert!(app.request_focus());
}

#[test]
fn quoted_executable_path_is_unwrapped() {
    let mut app = app();
    enter(
        &mut app,
        SettingField::Executable,
        r#""C:\Program Files\llama\llama-server.exe""#,
    )
    .unwrap();
    assert_eq!(app.config.server.executable, r"C:\Program Files\llama\llama-server.exe");
}

#[test]
fn token_counts_name_what_is_wrong_with_them() {
    assert_eq!(
        token_count(number("abc"), 0, 512, 1_048_576).unwrap_err(),
        "Enter a token count such as 8192 or 8k."
    );
    assert_eq!(
        token_count(number("inf"), 0, 512, 1_048_576).unwrap_err(),
        "Token count must resolve to a whole number."
    );
    assert_eq!(
        token_count(number("1000.3"), 0, 512, 1_048_576).unwrap_err(),
        "Token count must resolve to a whole number."
    );
    assert_eq!(
        token_count(number("1"), 0, 512, 1_048_576).unwrap_err(),
        "Token count must be between 512 and 1048576."
    );
    assert_eq!(token_count(number("1.5"), 10, 512, 1_048_576), Ok(1536));
    assert_eq!(token_number(" 2M "), ("2".to_string(), 20));
}

#[test]
fn a_second_start_takes_the_next_free_port() {
    let mut app = app();
    let there = Vec::new();
    assert!(app.begin_start(&local(), &fresh(), &there, true));
    let config = app.prepare_launch(Err("no certificate".into()), 4).unwrap();
    assert_eq!(config.server.port, 8080);
    app.finish_start(config, Ok(41), 0);
    assert_eq!(app.slot.process, Some(41));
    assert!(app.begin_start(&local(), &fresh(), &there, true));
    let second = app.prepare_launch(Err("no certificate".into()), 4).unwrap();
    assert_eq!(second.server.port, 8081);
    app.finish_start(second, Ok(42), 0);
    assert_eq!(app.extra_servers.len(), 1);
    assert_eq!(app.running_server_count(), 2);
    assert_eq!(app.used_ports(), vec![8080, 8081]);
}

#[test]
fn a_failed_launch_is_told() {
    let mut app = app();
    let there = Vec::new();
    assert!(app.begin_start(&local(), &fresh(), &there, true));
    let config = app.prepare_launch(Err("no certificate".into()), 4).unwrap();
    let failure = Failure { message: "no such file".into(), chain: "no such file".into() };
    app.finish_start(config, Err(failure), 0);
    assert_eq!(app.slot.status, ServerStatus::Failed);
    assert!(app.slot.process.is_none());
}

#[test]
fn a_start_without_an_executable_is_refused() {
    let mut app = app();
    let there = Vec::new();
    assert!(!app.begin_start(&local(), &fresh(), &there, false));
    assert!(app.validate_for_launch(&local(), &there, false).is_err());
}

#[test]
fn unknown_fonts_are_refused() {
    let mut app = app();
    let known = Fonts {
        body: vec!["inter".into(), "georgia".into()],
        display: vec!["inter".into()],
        mono: vec!["mono".into()],
    };
    let unknown = AppearanceUpdate {
        theme: Some(UiTheme::Dark),
        font_body: Some("Papyrus".into()),
        font_display: None,
        font_mono: None,
        font_scale: None,
    };
    assert!(app.set_ui_appearance(&unknown, &known).is_err());
    let serif = AppearanceUpdate { font_body: Some(" Georgia".into()), ..unknown };
    app.set_ui_appearance(&serif, &known).unwrap();
    assert_eq!(app.appearance.font_body, "georgia");
    assert_eq!(app.appearance.theme, UiTheme::Dark);
    app.reset_ui_appearance(&look());
    assert!(app.appearance.same(&look()));
}

#[test]
fn the_log_keeps_the_newest_lines() {
    let mut app = app();
    app.logs.clear();
    for index in 0..2_005 {
        app.push_log(&format!("line {index}"));
    }
    assert_eq!(app.logs.len(), 2_000);
    assert_eq!(app.logs[0], "line 5");
    assert_eq!(app.logs[1_999], "line 2004");
}
