use tinyinference::address::{parse_socket, Ipv4};
use tinyinference::bind::{force_loopback_socket, format_authority, parse_ui_addr};
use tinyinference::config::{
    cache_type, normalize_cache_type, Config, ModelSource, RuntimePreset, CACHE_TYPE_COUNT,
};
use tinyinference::fresh::{Clock, Fresh};
use tinyinference::listen::LocalAddrs;
use tinyinference::network::ListenScope;
use tinyinference::disk::PathFact;
use tinyinference::paths::{file_name, parent_dir};
use tinyinference::shards::split_gguf_paths;
use tinyinference::validate::valid_repository_id;

fn local() -> LocalAddrs {
    LocalAddrs { lan: vec![Ipv4 { a: 192, b: 168, c: 1, d: 50 }], tailscale: Vec::new() }
}

fn fresh() -> Fresh {
    Fresh::draw(0, &Clock { seconds: 1_700_000_000, nanos: 5, pid: 7 })
}

fn errors(config: &Config) -> Vec<String> {
    config.validate(&local(), &Vec::new())
}

#[test]
fn default_matches_low_memory_command() {
    let cfg = Config::default();
    assert_eq!(RuntimePreset::matching(&cfg.runtime), Some(RuntimePreset::LowRam));
    assert!(cfg.runtime.cpu_only);
    assert!(cfg.runtime.mmap);
    assert!(!cfg.runtime.fit);
    assert!(!cfg.runtime.repack);
    assert!(cfg.runtime.warmup);
    assert!(cfg.runtime.flash_attn);
    assert_eq!(cfg.runtime.cache_type_k, "q8_0");
    assert_eq!(cfg.runtime.cache_type_v, "q8_0");
    assert_eq!(cfg.runtime.context_size, 8192);
    assert_eq!(cfg.runtime.cache_ram_mib, 0);
    assert_eq!(cfg.runtime.context_checkpoints, 0);
}

#[test]
fn invalid_micro_batch_is_reported() {
    let mut cfg = Config::default();
    cfg.runtime.batch_size = 4;
    cfg.runtime.micro_batch_size = 8;
    assert!(errors(&cfg).iter().any(|e| e.contains("micro-batch")));
}

#[test]
fn recent_models_are_unique_bounded_and_most_recent_first() {
    let mut config = Config::default();
    for index in 0..10 {
        config.remember_model(ModelSource::HuggingFace(format!("owner/model-{index}")));
    }
    config.remember_model(ModelSource::HuggingFace("owner/model-5".into()));
    let repeated = ModelSource::HuggingFace("owner/model-5".into());
    assert_eq!(config.recent_models.len(), 8);
    assert!(config.recent_models[0].same(&repeated));
    assert!(config.recent_models.iter().skip(1).all(|model| !model.same(&repeated)));
}

#[test]
fn copied_api_endpoint_is_connectable() {
    let mut config = Config::default();
    config.server.host = "0.0.0.0".into();
    assert_eq!(config.endpoint(), "http://127.0.0.1:8080");
    assert_eq!(config.api_endpoint(), "http://127.0.0.1:8080/v1");
    assert_eq!(config.listen_label(), "http://0.0.0.0:8080 (open via 127.0.0.1)");
    config.server.host = "::".into();
    assert_eq!(config.endpoint(), "http://[::1]:8080");
    assert_eq!(config.api_endpoint(), "http://[::1]:8080/v1");
}

#[test]
fn configure_owns_port_and_rejects_extra_bind_flags() {
    let mut config = Config::default();
    config.server.host = "127.0.0.1".into();
    config.server.port = 9090;
    assert_eq!(config.effective_port(), 9090);
    assert_eq!(config.endpoint(), "http://127.0.0.1:9090");
    assert_eq!(config.api_endpoint(), "http://127.0.0.1:9090/v1");
    assert!(errors(&config).is_empty());

    config.server.extra_args = vec!["--port=8080".into()];
    assert!(errors(&config).iter().any(|error| error.contains("extra --port")));
    config.server.extra_args = vec!["--host".into(), "0.0.0.0".into()];
    assert!(errors(&config).iter().any(|error| error.contains("extra --host")));
    config.server.extra_args = vec!["--api-key".into(), "secret".into()];
    assert!(errors(&config).iter().any(|error| error.contains("extra --api-key")));
}

#[test]
fn migrate_always_syncs_bind_when_share_off() {
    let mut config = Config::default();
    config.network.expose = false;
    config.server.host = "0.0.0.0".into();
    config.migrate_network_expose_to_llama(&local(), &fresh());
    assert_eq!(config.server.host, "127.0.0.1");
}

#[test]
fn sync_llama_bind_fails_closed_when_scope_unresolved() {
    let mut config = Config::default();
    config.network.expose = true;
    config.network.listen_scope = ListenScope::Custom;
    config.network.listen_host.clear();
    config.server.host = "0.0.0.0".into();
    config.sync_llama_bind_from_network(&local(), &fresh());
    assert_eq!(config.server.host, "127.0.0.1");
}

#[test]
fn sharing_without_a_key_is_refused() {
    let mut config = Config::default();
    assert!(errors(&config).is_empty());
    config.network.expose = true;
    config.network.listen_scope = ListenScope::Custom;
    config.network.listen_host = "192.168.1.50".into();
    assert!(errors(&config)
        .iter()
        .any(|error| error == "sharing is on but no API keys are configured"));
    config.network.create_api_key("Phone", &fresh()).unwrap();
    assert!(!errors(&config).iter().any(|error| error.contains("no API keys")));
}

#[test]
fn invalid_remote_settings_are_reported_before_launch() {
    let mut config = Config::default();
    config.model.source = ModelSource::HuggingFace("owner/model/extra".into());
    config.model.estimated_bytes = None;
    config.server.extra_args = vec!["--threads".into(), "not-a-number".into()];
    let errors = errors(&config);
    assert!(errors.iter().any(|error| error.contains("owner/model")));
    assert!(errors.iter().any(|error| error.contains("estimated file size")));
}

#[test]
fn ui_bind_comes_from_config_host_and_port() {
    let mut config = Config::default();
    config.ui.host = "0.0.0.0".into();
    config.ui.port = 4000;
    assert_eq!(config.ui_addr().unwrap(), parse_socket("0.0.0.0:4000").unwrap());
}

#[test]
fn resolve_ui_bind_prefers_cli_then_env_then_config() {
    let mut config = Config::default();
    config.ui.port = 4000;
    let cli = parse_socket("192.168.1.10:5555").unwrap();
    assert_eq!(
        Config::resolve_ui_bind(Some(cli), Some("10.0.0.1:9"), &config).unwrap(),
        parse_socket("127.0.0.1:5555").unwrap()
    );
    assert_eq!(
        Config::resolve_ui_bind(None, Some("10.0.0.1:9"), &config).unwrap(),
        parse_socket("127.0.0.1:9").unwrap()
    );
    assert_eq!(
        Config::resolve_ui_bind(None, None, &config).unwrap(),
        parse_socket("127.0.0.1:4000").unwrap()
    );
}

#[test]
fn resolve_ui_bind_stays_loopback_when_network_expose_enabled() {
    let mut config = Config::default();
    config.ui.port = 3920;
    config.network.expose = true;
    config.network.listen_scope = ListenScope::All;
    assert_eq!(
        Config::resolve_ui_bind(None, None, &config).unwrap(),
        parse_socket("127.0.0.1:3920").unwrap()
    );
    let cli = parse_socket("127.0.0.1:3921").unwrap();
    assert_eq!(Config::resolve_ui_bind(Some(cli), None, &config).unwrap(), cli);
}

#[test]
fn sync_llama_bind_follows_network_scope() {
    let mut config = Config::default();
    config.network.expose = true;
    config.network.listen_scope = ListenScope::Custom;
    config.network.listen_host = "192.168.1.50".into();
    config.network.access_token = "secret-token".into();
    config.sync_llama_bind_from_network(&local(), &fresh());
    assert_eq!(config.server.host, "192.168.1.50");
    assert_eq!(config.server.api_key, "secret-token");
    assert_eq!(config.llama_api_keys(), vec!["secret-token".to_string()]);
    config.network.expose = false;
    config.sync_llama_bind_from_network(&local(), &fresh());
    assert_eq!(config.server.host, "127.0.0.1");
    assert!(config.server.api_key.is_empty());
    assert!(config.llama_api_keys().is_empty());
}

fn files(found: &[(&str, u64)]) -> Vec<PathFact> {
    found
        .iter()
        .map(|(path, bytes)| PathFact { path: path.to_string(), exists: true, bytes: *bytes })
        .collect()
}

fn there(files: &[PathFact]) -> Vec<String> {
    files.iter().map(|file| file.path.clone()).collect()
}

#[test]
fn split_gguf_size_includes_every_shard() {
    let found = files(&[
        ("/dir/model-00001-of-00003.gguf", 10),
        ("/dir/model-00002-of-00003.gguf", 20),
        ("/dir/model-00003-of-00003.gguf", 30),
    ]);
    let mut config = Config::default();
    config.model.source = ModelSource::Local("/dir/model-00001-of-00003.gguf".to_string());
    let expected = 60.0 / 1024_f64.powi(3);
    let size = config.local_model_bytes(&found).unwrap() as f64 / 1024_f64.powi(3);
    assert!((size - expected).abs() < f64::EPSILON);
    assert!(config.validate(&local(), &there(&found)).is_empty());
}

#[test]
fn missing_split_gguf_shard_is_reported() {
    let found = files(&[("/dir/model-00001-of-00002.gguf", 10)]);
    let mut config = Config::default();
    config.model.source = ModelSource::Local("/dir/model-00001-of-00002.gguf".to_string());
    assert!(config.local_model_bytes(&found).is_none());
    let errors = config.validate(&local(), &there(&found));
    assert_eq!(errors, ["model shard does not exist: /dir/model-00002-of-00002.gguf"]);
    assert!(errors.iter().any(|error| error.contains("00002-of-00002")));
}

#[test]
fn a_model_is_a_gguf_file_that_is_there() {
    let mut config = Config::default();
    config.model.source = ModelSource::Local("/dir/model.bin".to_string());
    assert_eq!(errors(&config), ["model file does not exist: /dir/model.bin"]);
    let found = vec!["/dir/model.bin".to_string()];
    assert_eq!(
        config.validate(&local(), &found),
        ["model file must have a .gguf extension: /dir/model.bin"]
    );
}

#[test]
fn the_control_panel_never_leaves_the_machine() {
    for text in ["192.168.1.10:5555", "0.0.0.0:80", "[::]:9", "[2001:db8::1]:4000"] {
        let socket = parse_socket(text).unwrap();
        let bound = force_loopback_socket(socket);
        assert!(bound.ip.is_loopback());
        assert_eq!(bound.port, socket.port);
    }
    assert!(parse_ui_addr("not an address", 1).is_err());
    assert!(Config::resolve_ui_bind(None, Some("nonsense"), &Config::default()).is_err());
}

#[test]
fn authorities_bracket_what_holds_a_colon() {
    assert_eq!(format_authority("::1", 80), "[::1]:80");
    assert_eq!(format_authority("[::1]", 80), "[::1]:80");
    assert_eq!(format_authority("host", 80), "host:80");
}

#[test]
fn cache_types_are_found_whatever_their_case() {
    for index in 0..CACHE_TYPE_COUNT {
        let name = cache_type(index);
        assert_eq!(normalize_cache_type(&name.to_uppercase()).unwrap(), name);
    }
    assert!(normalize_cache_type("q3_0").is_err());
}

#[test]
fn repository_ids_have_an_owner_and_a_name() {
    assert!(valid_repository_id("owner/model"));
    assert!(valid_repository_id("owner/model:Q4_K_M"));
    assert!(!valid_repository_id("owner"));
    assert!(!valid_repository_id("owner/"));
    assert!(!valid_repository_id("owner/model/extra"));
    assert!(!valid_repository_id("own er/model"));
    assert!(!valid_repository_id("owner/mod?el"));
}

#[test]
fn names_of_parts_count_up_to_the_total() {
    assert_eq!(
        split_gguf_paths("m-00002-of-00003.gguf").unwrap(),
        vec![
            "m-00001-of-00003.gguf".to_string(),
            "m-00002-of-00003.gguf".to_string(),
            "m-00003-of-00003.gguf".to_string()
        ]
    );
    assert!(split_gguf_paths("m.gguf").is_none());
    assert!(split_gguf_paths("m-00000-of-00003.gguf").is_none());
    assert!(split_gguf_paths("m-00001-of-10000.gguf").is_none());
    let parts = split_gguf_paths("/a/b//m-1-of-02.GGUF/.").unwrap();
    assert_eq!(parts, ["/a/b/m-01-of-02.GGUF", "/a/b/m-02-of-02.GGUF"]);
    for part in &parts {
        assert_eq!(split_gguf_paths(part).unwrap(), parts);
    }
}

#[test]
fn paths_have_names_and_directories() {
    assert_eq!(file_name("/a/b.gguf").as_deref(), Some("b.gguf"));
    assert_eq!(file_name("a/b/").as_deref(), Some("b"));
    assert_eq!(file_name("a/b/./").as_deref(), Some("b"));
    assert_eq!(file_name("b").as_deref(), Some("b"));
    for nameless in ["", "/", "..", "a/..", "."] {
        assert!(file_name(nameless).is_none());
    }
    assert_eq!(parent_dir("/b.gguf"), "/");
    assert_eq!(parent_dir("//a//b.gguf"), "//a");
    assert_eq!(parent_dir("./b.gguf"), ".");
    assert_eq!(parent_dir("b.gguf"), "");
}
