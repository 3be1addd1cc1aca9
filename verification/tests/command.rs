use tinyinference::address::Ipv4;
use tinyinference::command::{filter_managed_extra_args, shell_quote, CommandSpec};
use tinyinference::config::{Config, ModelSource, RuntimePreset};
use tinyinference::fresh::{Clock, Fresh};
use tinyinference::json::{json_u64, JsonNumber};
use tinyinference::listen::LocalAddrs;
use tinyinference::network::ListenScope;
use tinyinference::probe::{
    http_reply, metric_values, parse_log_throughput, parse_slots_snapshot, should_fetch_metrics,
    thinking_support_from_props, SlotsSnapshot,
};
use tinyinference::slot::{needs_health, ProbeResult};
use tinyinference::tls::ensure_self_signed;

fn args(config: &Config) -> Vec<String> {
    CommandSpec::from_config_with_threads(config, 8).args
}

fn first_number(texts: &[String]) -> Option<f64> {
    texts.iter().find_map(|text| text.parse::<f64>().ok())
}

fn pair(actual: &[String], option: &str, value: &str) -> bool {
    actual.windows(2).any(|window| window[0] == option && window[1] == value)
}

#[test]
fn props_detect_think_tags_and_controls_in_template() {
    let with_tags = r#"{"chat_template":"User: {{message}}\nAssistant: <think>maybe</think>"}"#;
    assert!(thinking_support_from_props(with_tags));

    let controlled =
        r#"{"chat_template":"{% if enable_thinking %}...{% endif %}","chat_template_caps":{}}"#;
    assert!(thinking_support_from_props(controlled));

    let caps = r#"{"chat_template_caps":{"supports_reasoning_effort":true}}"#;
    assert!(thinking_support_from_props(caps));

    let plain = r#"{"chat_template":"{{ messages }}","chat_template_caps":{}}"#;
    assert!(!thinking_support_from_props(plain));

    let noise = r#"{"model_path":"/models/foo-thinking.gguf","chat_template":"{{ messages }}"}"#;
    assert!(!thinking_support_from_props(noise));
}

#[test]
fn default_command_contains_low_memory_flags() {
    let actual = args(&Config::default());
    assert_eq!(
        actual,
        [
            "-hf",
            "ggml-org/gpt-oss-120b-GGUF",
            "--device",
            "none",
            "--n-gpu-layers",
            "0",
            "--fit",
            "off",
            "--mmap",
            "--no-repack",
            "--warmup",
            "--flash-attn",
            "on",
            "--cache-type-k",
            "q8_0",
            "--cache-type-v",
            "q8_0",
            "--ctx-size",
            "8192",
            "--batch-size",
            "8",
            "--ubatch-size",
            "8",
            "--parallel",
            "1",
            "--cache-ram",
            "0",
            "--ctx-checkpoints",
            "0",
            "--no-mmproj",
            "--jinja",
            "--threads",
            "8",
            "--metrics",
            "--host",
            "127.0.0.1",
            "--port",
            "8080",
        ]
    );
}

#[test]
fn local_model_uses_model_flag() {
    let mut config = Config::default();
    config.model.source = ModelSource::Local("model.gguf".into());
    let actual = args(&config);
    assert_eq!(&actual[..2], &["-m", "model.gguf"]);
}

#[test]
fn gpu_fit_preset_command_uses_gpu_and_fit() {
    let mut config = Config::default();
    config.runtime = RuntimePreset::GpuFit.runtime();
    let actual = args(&config);
    assert!(!actual.iter().any(|argument| argument == "--device"));
    assert!(!actual.iter().any(|argument| argument == "--n-gpu-layers"));
    assert!(pair(&actual, "--fit", "on"));
    assert!(actual.iter().any(|argument| argument == "--mmap"));
}

#[test]
fn auto_threads_use_physical_core_count() {
    let actual = args(&Config::default());
    let threads = actual
        .windows(2)
        .find_map(|window| (window[0] == "--threads").then_some(window[1].as_str()));
    assert_eq!(threads, Some("8"));
}

#[test]
fn extra_args_threads_override_skips_auto_threads() {
    let mut config = Config::default();
    config.server.extra_args = vec!["--threads".into(), "12".into()];
    let actual = args(&config);
    assert_eq!(actual.iter().filter(|argument| *argument == "--threads").count(), 1);
    assert!(pair(&actual, "--threads", "12"));
    assert_eq!(&actual[actual.len() - 4..], &["--host", "127.0.0.1", "--port", "8080"]);
}

#[test]
fn configure_and_network_win_over_extra_runtime_flags() {
    let local = LocalAddrs {
        lan: Vec::new(),
        tailscale: vec![Ipv4 { a: 100, b: 64, c: 1, d: 2 }],
    };
    let fresh = Fresh::draw(0, &Clock { seconds: 1, nanos: 2, pid: 3 });
    let mut config = Config::default();
    config.network.expose = true;
    config.network.listen_scope = ListenScope::Custom;
    config.network.listen_host = "100.64.1.2".into();
    config.network.ensure_token(&fresh);
    config.sync_llama_bind_from_network(&local, &fresh);
    let (paths, _) = ensure_self_signed("/config", false, false, &Vec::new()).unwrap();
    config.set_share_tls(Some((paths.cert_file, paths.key_file)));
    config.server.extra_args = vec![
        "--host".into(),
        "0.0.0.0".into(),
        "--port".into(),
        "9999".into(),
        "--api-key".into(),
        "evil".into(),
        "--no-mmap".into(),
        "--flash-attn".into(),
        "off".into(),
        "--threads".into(),
        "4".into(),
    ];
    let actual = args(&config);
    assert!(pair(&actual, "--host", "127.0.0.1"));
    assert!(pair(&actual, "--port", "8080"));
    assert!(!actual.iter().any(|argument| argument == "0.0.0.0"));
    assert!(!actual.iter().any(|argument| argument == "100.64.1.2"));
    assert!(!actual.iter().any(|argument| argument == "evil"));
    assert!(!actual.iter().any(|argument| argument == "9999"));
    assert!(actual.iter().any(|argument| argument == "--mmap"));
    assert!(pair(&actual, "--flash-attn", "on"));
    assert!(!actual.iter().any(|argument| *argument == "--api-key"));
    assert!(actual.iter().any(|argument| *argument == "--no-webui"));
    assert!(actual.iter().any(|argument| *argument == "--no-slots"));
    assert!(!actual.iter().any(|argument| *argument == "--metrics"));
    assert!(!actual.iter().any(|argument| *argument == "--ssl-cert-file"));
    assert!(!actual.iter().any(|argument| *argument == "--ssl-key-file"));
    assert!(pair(&actual, "--threads", "4"));
}

#[test]
fn the_server_is_reached_where_it_is_started() {
    let mut config = Config::default();
    config.server.host = "::".into();
    assert!(pair(&args(&config), "--host", "::"));
    assert_eq!(config.endpoint(), "http://[::1]:8080");
    assert_eq!(config.start_url(), config.endpoint());
    config.network.expose = true;
    config.server.host = "100.64.1.2".into();
    config.set_share_tls(Some(("/tls/cert.pem".into(), "/tls/key.pem".into())));
    assert!(pair(&args(&config), "--host", "127.0.0.1"));
    assert_eq!(config.start_url(), "http://127.0.0.1:8080");
    assert_eq!(config.reach_host(), "127.0.0.1");
    assert_eq!(config.connect_host(), "100.64.1.2");
    assert_eq!(config.endpoint(), "https://100.64.1.2:8080");
    assert_eq!(config.api_endpoint(), "https://100.64.1.2:8080/v1");
    config.set_share_tls(None);
    assert_eq!(config.endpoint(), "http://100.64.1.2:8080");
}

#[test]
fn prometheus_metrics_are_parsed() {
    let body = "\
llamacpp:prompt_tokens_total 128
llamacpp:tokens_predicted_total 42
llamacpp:predicted_tokens_seconds 3.5
llamacpp:requests_processing 1
";
    assert_eq!(first_number(&metric_values(body, "llamacpp:tokens_predicted_total")), Some(42.0));
    assert_eq!(first_number(&metric_values(body, "llamacpp:predicted_tokens_seconds")), Some(3.5));
    assert_eq!(first_number(&metric_values(body, "missing")), None);
}

#[test]
fn slots_snapshot_sums_live_decoded_tokens() {
    let body = r#"[
        {"id":0,"is_processing":true,"next_token":{"n_decoded":12}},
        {"id":1,"is_processing":false,"next_token":{"n_decoded":99}},
        {"id":2,"is_processing":true,"next_token":{"n_decoded":3}}
    ]"#;
    assert_eq!(
        parse_slots_snapshot(body),
        Some(SlotsSnapshot { decoded_tokens: 15, requests_processing: 2 })
    );
}

#[test]
fn log_throughput_prefers_recent_window() {
    let line = "slot   print_timings_tg: id  0 | task 3 | n_decoded =    240, tg =  18.50 t/s, tg_3s =  21.25 t/s";
    let found = parse_log_throughput(line);
    assert_eq!(first_number(&found.generated), Some(21.25));
    assert_eq!(first_number(&found.prompt), None);
}

#[test]
fn log_throughput_reads_prompt_and_final_eval() {
    let prompt = "slot print_timings_pp: prompt processing, n_tokens = 512, progress = 0.50, t = 4.00 s / 128.00 tokens per second";
    assert_eq!(first_number(&parse_log_throughput(prompt).prompt), Some(128.0));
    let eval = "slot print_timings:        eval time =   1000.00 ms /   50 tokens (   20.00 ms per token,    50.00 tokens per second)";
    assert_eq!(first_number(&parse_log_throughput(eval).generated), Some(50.0));
}

#[test]
fn managed_options_leave_the_extra_ones() {
    let extra: Vec<String> =
        ["--port=1", "--verbose", "--host", "h", "--seed", "7"].map(String::from).to_vec();
    assert_eq!(filter_managed_extra_args(&extra), ["--verbose", "--seed", "7"]);
}

#[test]
fn commands_are_shown_as_a_shell_would_read_them() {
    let spec = CommandSpec {
        program: "llama server".into(),
        args: vec!["-m".into(), "a b.gguf".into()],
    };
    assert_eq!(spec.display(), format!("{} -m {}", shell_quote("llama server"), shell_quote("a b.gguf")));
    assert_eq!(shell_quote("plain"), "plain");
    assert_ne!(shell_quote("a b"), "a b");
}

#[test]
fn counts_are_no_less_than_zero() {
    let count = |x: f64| {
        json_u64(&JsonNumber { unsigned: None, signed: None, float: Some(x.to_bits()) })
    };
    assert_eq!(count(-0.5), None);
    assert_eq!(count(-3.0), None);
    assert_eq!(count(f64::NAN), None);
    assert_eq!(count(f64::NEG_INFINITY), None);
    assert_eq!(count(0.0), Some(0));
    assert_eq!(count(-0.0), Some(0));
    assert_eq!(count(5e-324), Some(0));
    assert_eq!(count(0.999), Some(0));
    assert_eq!(count(1.0), Some(1));
    assert_eq!(count(12.75), Some(12));
    for x in [2f64.powi(52) + 1.0, 2f64.powi(53), 1.5e19, 2f64.powi(63), 1e18, 123456.789] {
        assert_eq!(count(x), Some(x as u64));
    }
    assert_eq!(count(2f64.powi(64)), Some(u64::MAX));
    assert_eq!(count(1e300), Some(u64::MAX));
    assert_eq!(count(f64::INFINITY), Some(u64::MAX));

    let body = r#"[
        {"is_processing":true,"next_token":{"n_decoded":-0.5}},
        {"is_processing":true,"next_token":{"n_decoded":7.9}}
    ]"#;
    assert_eq!(
        parse_slots_snapshot(body),
        Some(SlotsSnapshot { decoded_tokens: 7, requests_processing: 2 })
    );
}

#[test]
fn a_server_that_answers_anything_is_there() {
    let slots = Some(SlotsSnapshot { decoded_tokens: 1, requests_processing: 1 });
    assert!(!needs_health(&slots, &None));
    assert!(needs_health(&None, &None));
    assert!(ProbeResult::gather(true, slots, None, false).endpoint_online);
    assert!(ProbeResult::gather(false, None, None, true).endpoint_online);
    let silent = ProbeResult::gather(true, None, None, false);
    assert!(!silent.endpoint_online && silent.metrics_requested);
}

#[test]
fn replies_are_read_by_their_status_line() {
    assert_eq!(
        http_reply("HTTP/1.1 404 Not Found\r\nA: b\r\n\r\nbody"),
        Some((404, "body".to_string()))
    );
    assert_eq!(http_reply("nonsense"), None);
}

#[test]
fn idle_servers_are_asked_for_metrics_on_request_only() {
    assert!(!should_fetch_metrics(false, &None));
}
