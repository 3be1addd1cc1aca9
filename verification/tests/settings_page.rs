use tinyinference::address::Ipv4;
use tinyinference::app::{App, Effect, RemoteModelSize, SaveReport};
use tinyinference::appearance::{Appearance, UiFontScale, UiTheme};
use tinyinference::cache::{CacheScan, DiscoveredModel, DiscoveredSource};
use tinyinference::cache_paths::HubRoot;
use tinyinference::config::{Config, ModelSource, RuntimePreset};
use tinyinference::dashboard::{preset_states, AppState, MappedSizeState};
use tinyinference::disk::{DeleteReport, DiskFacts, PathFact};
use tinyinference::display::{
    access_summary, download_progress, library_download_progress, repos_match, runtime_summary,
};
use tinyinference::download::{Download, LibraryFetch, Sample};
use tinyinference::fetch::FetchEvent;
use tinyinference::fresh::{Clock, Fresh};
use tinyinference::hub::RemoteFile;
use tinyinference::instance::ManagedServer;
use tinyinference::listen::LocalAddrs;
use tinyinference::settings::{
    parse_bool, parse_bounded_u32, trim_wrapping_quotes, SettingField,
};
use tinyinference::slot::ServerStatus;
use tinyinference::system::Machine;
use tinyinference::units::GIB;

fn app() -> App {
    let look = Appearance {
        theme: UiTheme::System,
        font_body: "inter".into(),
        font_display: "inter".into(),
        font_mono: "mono".into(),
        font_scale: UiFontScale::Default,
    };
    let local = LocalAddrs { lan: vec![Ipv4 { a: 10, b: 0, c: 0, d: 5 }], tailscale: Vec::new() };
    let fresh = Fresh::draw(0, &Clock { seconds: 1, nanos: 2, pid: 3 });
    App::new(
        Config::default(),
        "test.toml",
        &look,
        true,
        false,
        &local,
        &fresh,
        Err("no certificate".into()),
        0,
    )
}

fn bare() -> DiskFacts {
    DiskFacts { hubs: Vec::new(), flats: Vec::new(), files: Vec::new() }
}

fn cached() -> DiskFacts {
    let held = |name: &str| format!("/hub/models--{}", name.replace('/', "--"));
    let names = ["owner/m", "owner/other", "ggml-org/gpt-oss-120b-GGUF"];
    DiskFacts {
        hubs: vec![HubRoot { path: "/hub".into(), model_there: true, locks_there: false }],
        files: names
            .iter()
            .map(|name| PathFact { path: held(name), exists: true, bytes: 64 })
            .collect(),
        ..bare()
    }
}

#[test]
fn settings_are_shown_and_edited() {
    let mut app = app();
    let none = Vec::new();
    assert_eq!(app.setting_value(SettingField::SourceKind, &none), "Hugging Face");
    assert_eq!(app.setting_raw_value(SettingField::SourceKind, &none), "hugging_face");
    assert_eq!(app.setting_value(SettingField::Executable, &none), "llama-server  (from PATH)");
    assert_eq!(app.setting_value(SettingField::Context, &none), "8192 tokens");
    assert_eq!(app.setting_value(SettingField::CacheRam, &none), "0 MiB");
    assert_eq!(app.setting_raw_value(SettingField::CpuOnly, &none), "true");
    assert_eq!(app.setting_value(SettingField::EstimatedSize, &none), "fetching from Hugging Face…");
    assert_eq!(app.setting_label(SettingField::Executable), "llama-server path");
    assert_eq!(app.setting_hint(SettingField::Jinja), "Uses the model's Jinja chat template.");

    assert_eq!(
        app.set_field(SettingField::Batch, "4", None).unwrap_err(),
        "Batch must be at least the micro-batch size (8)."
    );
    assert_eq!(
        app.set_field(SettingField::Host, "0.0.0.0", None).unwrap_err(),
        "Listen address is controlled in Devices — change the scope there."
    );
    assert_eq!(
        app.set_field(SettingField::EstimatedSize, "5", None).unwrap_err(),
        "Mapped file size is detected automatically."
    );
    assert_eq!(
        app.set_field(SettingField::Model, " \"\" ", None).unwrap_err(),
        "Repository cannot be empty."
    );
    app.set_field(SettingField::Jinja, "off", None).unwrap();
    assert!(!app.config.runtime.jinja);
    assert_eq!(app.slot.status_detail, "Changed Jinja template");
    app.set_field(SettingField::CacheTypeK, "F16", None).unwrap();
    assert_eq!(app.config.runtime.cache_type_k, "f16");
    app.set_field(SettingField::SourceKind, "GGUF", None).unwrap();
    assert!(matches!(app.config.model.source, ModelSource::Local(_)));
}

#[test]
fn settings_step_up_and_down() {
    let mut app = app();
    app.adjust_field(SettingField::Port, 1);
    assert_eq!(app.config.server.port, 8081);
    app.adjust_field(SettingField::Context, -1);
    assert_eq!(app.config.runtime.context_size, 7168);
    app.adjust_field(SettingField::Batch, -1);
    assert_eq!((app.config.runtime.batch_size, app.config.runtime.micro_batch_size), (4, 4));
    app.adjust_field(SettingField::MicroBatch, 1);
    assert_eq!(app.config.runtime.micro_batch_size, 4);
    app.adjust_field(SettingField::CacheTypeV, 1);
    assert_eq!(app.config.runtime.cache_type_v, "q4_0");
    app.adjust_field(SettingField::CacheTypeV, -1);
    assert_eq!(app.config.runtime.cache_type_v, "q8_0");
    app.adjust_field(SettingField::CacheRam, 1);
    assert_eq!(app.config.runtime.cache_ram_mib, 256);
    app.adjust_field(SettingField::Checkpoints, -1);
    assert_eq!(app.config.runtime.context_checkpoints, 0);
    app.toggle_field(SettingField::Mmap).unwrap();
    assert!(!app.config.runtime.mmap);
    assert_eq!(app.toggle_field(SettingField::Port).unwrap_err(), "This setting is not a toggle.");
    app.slot.process = Some(9);
    app.toggle_field(SettingField::Mmap).unwrap();
    assert_eq!(app.slot.status_detail, "Changed Memory map; restart to apply");
}

#[test]
fn entries_are_read_strictly() {
    assert_eq!(parse_bool("Yes"), Ok(true));
    assert_eq!(parse_bool("off"), Ok(false));
    assert!(parse_bool("maybe").is_err());
    assert_eq!(parse_bounded_u32("7", "port", 1, 9), Ok(7));
    assert!(parse_bounded_u32("10", "port", 1, 9).unwrap_err().contains("between"));
    assert_eq!(
        parse_bounded_u32(" 7 ", "port", 1, 9).unwrap_err(),
        "Enter port as a whole number."
    );
    assert_eq!(trim_wrapping_quotes("'a b'"), "a b");
    assert_eq!(trim_wrapping_quotes("\"a'"), "\"a'");
}

#[test]
fn the_listing_sets_the_size() {
    let mut app = app();
    let files = vec![
        RemoteFile { path: "m-Q4_K_M.gguf".into(), oid: "a".into(), size: 3 * GIB },
        RemoteFile { path: "README.md".into(), oid: "b".into(), size: 9 * GIB },
    ];
    app.poll_remote_model_size(Some(Ok(files)));
    assert_eq!(app.mapped_model_bytes(&Vec::new()), Some(3 * GIB));
    assert_eq!(app.config.model.estimated_bytes, Some(3 * GIB));
    assert!(!app.remote_model_size_loading());
    app.remote_model_size = Some(RemoteModelSize {
        repo: "r".into(),
        listing: true,
        bytes: None,
        error: None,
    });
    app.poll_remote_model_size(Some(Ok(Vec::new())));
    assert_eq!(
        app.remote_model_size_error(),
        Some("No GGUF files found in the repository listing.")
    );
    let shown = MappedSizeState::from_app(&app, &Vec::new());
    assert_eq!(shown.display, "Unavailable");
}

#[test]
fn a_model_is_added_and_fetched() {
    let mut app = app();
    app.take_effects();
    let scan = CacheScan::default();
    app.add_model("hf", "https://huggingface.co/owner/new-GGUF", true, &bare(), &scan, 5).unwrap();
    assert!(app.config.model.source.same(&ModelSource::HuggingFace("owner/new-GGUF".into())));
    assert_eq!(app.slot.status_detail, "Downloading owner/new-GGUF");
    let effects = app.take_effects();
    assert!(effects.iter().any(|e| matches!(e, Effect::Fetch(repo) if repo == "owner/new-GGUF")));
    assert!(effects.iter().any(|e| matches!(e, Effect::Save(SaveReport::Logged))));
    assert_eq!(
        app.start_library_download("owner/other", &bare(), &scan, 6).unwrap_err(),
        "A download is already in progress."
    );
    app.poll_library_fetch(
        &vec![
            FetchEvent::Started {
                repo: "owner/new-GGUF".into(),
                file: "m.gguf".into(),
                total: GIB,
            },
            FetchEvent::Progress { downloaded: GIB, total: GIB, file: "m.gguf".into() },
            FetchEvent::Finished { bytes: GIB },
        ],
        7,
    );
    assert_eq!(app.slot.status_detail, "Downloaded owner/new-GGUF (1.00 GiB)");
    assert_eq!(app.cancel_library_download().unwrap_err(), "No download is in progress.");
    assert!(app.active_library_fetch().is_some());
}

#[test]
fn models_are_added_by_kind() {
    let mut app = app();
    let scan = CacheScan::default();
    assert_eq!(
        app.add_model("other", "x", false, &bare(), &scan, 0).unwrap_err(),
        "Choose Hugging Face or Local GGUF."
    );
    assert_eq!(
        app.add_model("local", "  ", false, &bare(), &scan, 0).unwrap_err(),
        "Enter a full .gguf path."
    );
    app.add_model("local", " /m/a.gguf ", false, &bare(), &scan, 0).unwrap();
    assert!(app.config.model.source.same(&ModelSource::Local("/m/a.gguf".into())));
    assert_eq!(
        app.start_library_download_by_label("/m/a.gguf", &bare(), &scan, 0).unwrap_err(),
        "Only Hugging Face models can be downloaded into the cache."
    );
    assert_eq!(
        app.start_library_download_for_index(9, &bare(), &scan, 0).unwrap_err(),
        "That model is no longer in your library."
    );
}

#[test]
fn what_is_on_disk_is_not_fetched_again() {
    let mut app = app();
    app.config.model.estimated_bytes = Some(64);
    let scan = CacheScan { blobs: Vec::new(), flat_bytes: 64 };
    app.start_library_download("owner/m", &cached(), &scan, 0).unwrap();
    assert_eq!(app.slot.status_detail, "owner/m is already on disk");
    assert!(app.library_fetch.is_none());
    app.slot.process = Some(4);
    assert_eq!(
        app.start_library_download("owner/m", &cached(), &scan, 0).unwrap_err(),
        "Stop the server before downloading a model into the cache."
    );
}

#[test]
fn cancelling_a_fetch_is_told() {
    let mut app = app();
    app.start_library_download("owner/m", &bare(), &CacheScan::default(), 0).unwrap();
    app.take_effects();
    app.cancel_library_download().unwrap();
    assert_eq!(app.slot.status_detail, "Cancelling download of owner/m");
    assert!(app.take_effects().iter().any(|effect| matches!(effect, Effect::CancelFetch)));
}

#[test]
fn cached_models_are_deleted_from_the_list() {
    let mut app = app();
    app.discovered_models = vec![DiscoveredModel {
        source: DiscoveredSource::HuggingFace("owner/cached".into()),
        bytes: 64,
    }];
    assert!(app.deletable_available_model("owner/cached").is_ok());
    assert_eq!(
        app.deletable_available_model("owner/unknown").unwrap_err(),
        "That on-disk model is no longer available."
    );
    let report =
        DeleteReport { removed_paths: vec!["/hub/m".into()], freed_bytes: GIB / 2 };
    app.delete_available_model_by_label("owner/cached", Ok(report), 3).unwrap();
    assert!(app.discovered_models.is_empty());
    assert_eq!(app.slot.status_detail, "Deleted cached files for owner/cached (0.50 GiB)");
    app.slot.process = Some(1);
    assert_eq!(
        app.deletable_available_model("owner/cached").unwrap_err(),
        "Stop the server before deleting cached files."
    );
    assert!(!app.can_delete_picker_model(0));
}

#[test]
fn the_library_is_picked_from_by_label() {
    let mut app = app();
    let other = ModelSource::HuggingFace("owner/other".into());
    app.config.recent_models.push(other.clone());
    app.select_library_model_by_label("owner/other").unwrap();
    assert!(app.config.model.source.same(&other));
    assert!(app.select_library_model_by_label("owner/none").is_err());
    assert_eq!(app.picker_label(1).unwrap(), "owner/other");
    let facts = vec![bare(), cached()];
    let entries = app.model_picker_entries(&facts);
    assert!(!entries[0].on_disk);
    assert_eq!((entries[1].on_disk, entries[1].bytes), (true, 64));
}

#[test]
fn the_dashboard_shows_the_library() {
    let app = app();
    let machine = Machine::detect(16 * GIB, 12 * GIB, &vec!["CPU".to_string()], Some(1));
    let state = AppState::from_app(&app, &machine, &Vec::new(), &vec![cached()], false, 4);
    assert_eq!(state.status, ServerStatus::Stopped);
    assert_eq!(state.library.len(), 1);
    assert_eq!(state.library[0].status, "Ready");
    assert!(state.library[0].deletable);
    assert!(!state.library[0].downloadable);
    assert_eq!(state.settings.len(), 21);
    assert!(state.settings.iter().all(|setting| setting.field != SettingField::EstimatedSize));
    assert_eq!(state.machine.runtime_summary, "CPU · 8k context · batch 8 · 1 slot");
    assert_eq!(
        state.machine.access_summary,
        "mmap · warmup · no repack · MoE · 5.1B active/token"
    );
    assert_eq!(state.active_preset, Some(RuntimePreset::LowRam));
    assert!(preset_states(true).iter().any(|preset| !preset.available));
    assert!(preset_states(false).iter().all(|preset| preset.available));
}

#[test]
fn summaries_follow_the_configuration() {
    let mut config = Config::default();
    config.runtime.cpu_only = false;
    config.runtime.context_size = 1000;
    config.runtime.parallel = 2;
    assert_eq!(runtime_summary(&config), "GPU offload · 1000 context · batch 8 · 2 slots");
    config.model.source = ModelSource::Local("other-model.gguf".into());
    config.runtime.mmap = false;
    config.runtime.repack = true;
    config.runtime.warmup = false;
    assert_eq!(access_summary(&config), "loaded · no warmup · repack");
    assert!(repos_match("a/b:Q4", "a/b"));
    assert!(!repos_match("a/b", "a/c"));
}

#[test]
fn downloads_are_described() {
    let mut download = Download::new("owner/m", None, false, 0);
    assert_eq!(download_progress(&download), "preparing");
    download.total = Some(2000);
    download.downloaded = 500;
    download.samples = vec![Sample { at: 0, bytes: 0 }, Sample { at: 1000, bytes: 500 }];
    assert_eq!(
        download_progress(&download),
        "25%  ·  500 B of 2.0 KiB  ·  500 B/s  ·  3s left"
    );
    let mut fetch = LibraryFetch::new("owner/m", 0);
    fetch.downloaded = 2048;
    assert_eq!(library_download_progress(&fetch), "2.0 KiB");
    fetch.total = Some(4096);
    assert_eq!(library_download_progress(&fetch), "2.0 KiB / 4.0 KiB");
}

#[test]
fn servers_are_summed_up_and_chosen() {
    let mut app = app();
    let mut config = app.config.clone();
    config.server.port = 8081;
    app.extra_servers.push(ManagedServer::stub_ready("srv-2".into(), config));
    let summaries = app.server_summaries();
    assert!(summaries.iter().any(|summary| summary.id == "srv-2" && summary.port == 8081));
    app.select_server("srv-2").unwrap();
    assert_eq!(app.active_server_id, "srv-2");
    assert!(app.select_server("srv-9").is_err());
    assert!(app.server_by_id("srv-2").unwrap().ready);
    assert!(app.server_by_id("srv-9").is_none());
    app.extra_servers[0].slot.process = Some(5);
    app.stop_server(Some("srv-2"), &None, vec!["last words".into()]);
    assert!(app.extra_servers.is_empty());
    assert_eq!(app.active_server_id, "main");
    assert!(app.logs.contains(&"last words".to_string()));
    assert!(app.logs.contains(&"[8081] llama-server stopped".to_string()));
    assert_eq!(app.slot.status_detail, "Stopped by user");
}
