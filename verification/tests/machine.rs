use tinyinference::address::{parse_ip, Ip, Ipv4};
use tinyinference::config::Config;
use tinyinference::slot::ServerStatus;
use tinyinference::system::{
    clipboard_failure, clipboard_programs, executable_candidates, is_executable_file,
    likely_unified_memory, recommended_threads, Machine,
};
use tinyinference::terminal::{
    editor_window, log_tone, log_window, memory_line, status_marker, status_tone, storage_line,
    Tone,
};
use tinyinference::tls::{
    certificate_request, ensure_self_signed, generate_self_signed, subject_names, Purpose, Standing,
    TlsPaths,
};
use tinyinference::units::{
    format_bytes, format_duration, format_eta, format_size_label, format_tokens, gib_text, GIB,
};

#[test]
fn mapped_model_is_not_treated_as_required_ram() {
    let machine = Machine {
        total_memory_bytes: 16 * GIB,
        available_memory_bytes: 12 * GIB,
        cpu_name: "test".into(),
        logical_cpus: 8,
        physical_cpus: 4,
    };
    let mut config = Config::default();
    config.model.estimated_bytes = Some(500 * GIB);
    let profile = machine.memory_profile(&config, &Vec::new());
    assert_eq!(profile.mapped_model_bytes, Some(500 * GIB));
    assert_eq!(profile.available_bytes, 12 * GIB);
    assert_eq!(profile.total_bytes, 16 * GIB);
}

#[test]
fn recommended_threads_is_at_least_one() {
    assert!(recommended_threads(None, None) >= 1);
    assert!(recommended_threads(Some(0), None) >= 1);
    assert_eq!(recommended_threads(Some(6), Some(12)), 6);
    assert_eq!(recommended_threads(None, Some(12)), 12);
}

#[test]
fn directories_are_not_reported_as_executables() {
    assert!(!is_executable_file(false, Some(0o755)));
    assert!(is_executable_file(true, Some(0o755)));
    assert!(!is_executable_file(true, Some(0o644)));
}

#[test]
fn programs_are_looked_for_along_the_path() {
    let dirs = vec!["/usr/bin".to_string(), "/opt/bin".to_string()];
    assert_eq!(
        executable_candidates("llama-server", &dirs, false, ""),
        ["/usr/bin/llama-server", "/opt/bin/llama-server"]
    );
    assert_eq!(executable_candidates("/abs/llama", &dirs, false, ""), ["/abs/llama"]);
}

#[test]
fn unified_memory_is_told_by_the_platform() {
    assert!(likely_unified_memory("macos", "aarch64"));
    assert!(!likely_unified_memory("linux", "x86_64"));
}

#[test]
fn machines_are_described_by_their_first_processor() {
    let brands = vec![" Fast CPU ".to_string(), "Fast CPU".to_string()];
    let machine = Machine::detect(100, 50, &brands, Some(1));
    assert_eq!(machine.logical_cpus, 2);
    assert_eq!(machine.physical_cpus, 1);
    assert_eq!(machine.total_memory_bytes, 100);
    assert!(machine.cpu_name.contains("Fast CPU"));
}

#[test]
fn clipboards_differ_by_platform() {
    assert_eq!(clipboard_programs("macos")[0].program, "pbcopy");
    assert!(!clipboard_programs("linux").is_empty());
    assert!(!clipboard_failure("linux", "not found").is_empty());
}

#[test]
fn generates_pem_pair_once() {
    let (first, made) = ensure_self_signed("/config", false, false, &Vec::new()).unwrap();
    let pair = made.unwrap();
    assert!(pair.cert.contains("BEGIN CERTIFICATE"));
    assert!(pair.key.contains("BEGIN") && pair.key.contains("PRIVATE KEY"));

    let extra = vec![Ip::V4(Ipv4 { a: 100, b: 64, c: 0, d: 1 })];
    let (second, again) = ensure_self_signed("/config", true, true, &extra).unwrap();
    assert_eq!(first, second);
    assert!(again.is_none());
}

#[test]
fn certificates_name_every_address() {
    let extra = vec![Ip::V4(Ipv4 { a: 10, b: 0, c: 0, d: 8 }), Ip::V6(0, 0, 0, 0, 0, 0, 0, 1)];
    let names = subject_names(&extra);
    assert!(names.contains(&"localhost".to_string()));
    assert!(names.contains(&"10.0.0.8".to_string()));
    let request = certificate_request(&extra);
    assert_eq!(request.names, ["localhost", "127.0.0.1", "::1", "10.0.0.8"]);
    assert_eq!(request.common_name, "tinyinference");
    assert_eq!((request.standing, request.purpose), (Standing::Leaf, Purpose::Server));
    let pair = generate_self_signed(&extra).unwrap();
    assert_ne!(pair.cert, pair.key);
    assert!(TlsPaths::in_config_dir("/config").cert_file.starts_with("/config/"));
}

#[test]
fn addresses_are_written_as_they_are_read() {
    for text in [
        "127.0.0.1",
        "::",
        "::1",
        "fe80::1",
        "2001:db8::8:800:200c:417a",
        "1:0:0:2::3",
        "::ffff:192.168.1.2",
        "1:2:3:4:5:6:7:8",
        "1:0:2:3:4:5:6:7",
    ] {
        assert_eq!(parse_ip(text).unwrap().to_text(), text);
    }
    assert!(parse_ip("::").unwrap().is_unspecified());
    assert!(parse_ip("1:2:3").is_none());
}

#[test]
fn starting_status_uses_a_pulsing_star() {
    assert_eq!(status_marker(ServerStatus::Starting, 4), "✦");
    assert_eq!(status_marker(ServerStatus::Ready, 4), "●");
}

#[test]
fn editor_window_keeps_the_cursor_visible_for_long_paths() {
    let value = r"C:\very\long\model\directory\gpt-oss-120b.gguf";
    let (visible, cursor) = editor_window(value, value.len(), 16);
    assert!(visible.ends_with("120b.gguf"));
    assert!(!visible.starts_with("C:\\"));
    assert!(cursor < 16);
}

#[test]
fn editor_window_counts_wide_characters() {
    let value = "models/\u{6a21}\u{578b}/large.gguf";
    let (visible, cursor) = editor_window(value, value.len(), 12);
    assert!(visible.ends_with("large.gguf"));
    assert!(cursor < 12);
    assert_eq!(editor_window("\u{6a21}x", 3, 12), ("\u{6a21}x".to_string(), 2));
}

#[test]
fn characters_without_a_width_take_no_column() {
    assert_eq!(editor_window("\u{7}abcdefgh", 9, 4), ("gh".to_string(), 2));
}

#[test]
fn terminals_show_the_newest_lines() {
    assert_eq!(log_window(10, 0, 4), (6, 10));
    assert_eq!(log_window(10, 3, 4), (3, 7));
    assert_eq!(log_window(2, 5, 4), (0, 0));
    assert_eq!(status_tone(ServerStatus::Failed), Tone::Coral);
    assert_eq!(status_tone(ServerStatus::Ready), Tone::Mint);
    assert_ne!(log_tone("error: broke"), log_tone("all is well"));
}

#[test]
fn memory_is_described_in_gibibytes() {
    assert_eq!(
        storage_line(63_458_141_799),
        "59.1 GiB mapped from disk · not required to fit in RAM"
    );
    assert_eq!(memory_line(12 * GIB, 16 * GIB), "12.0 GiB available · 16.0 GiB total");
}

#[test]
fn quantities_are_written_as_floats_are() {
    for bytes in [0, 1, 1023, 1024, 1536, 107_374_183, 63_458_141_799, u64::MAX] {
        assert_eq!(gib_text(bytes), format!("{:.1}", bytes as f64 / GIB as f64));
    }
    assert_eq!(format_bytes(512), "512 B");
    assert_eq!(format_size_label(0), None);
    assert_eq!(format_tokens(8192), "8k");
    assert_eq!(format_tokens(1000), "1000");
    assert!(!format_duration(3_725).is_empty());
    assert!(!format_eta(90).is_empty());
}
