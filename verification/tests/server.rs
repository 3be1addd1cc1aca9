use tinyinference::config::{Config, RuntimeConfig, RuntimePreset};
use tinyinference::probe::{endpoint_healthy, http_request};

fn reply(status: &str) -> String {
    format!("HTTP/1.1 {status}\r\nContent-Length: 0\r\nConnection: close\r\n\r\n")
}

#[test]
fn health_requires_http_200() {
    assert!(endpoint_healthy(&reply("200 OK")));
    assert!(!endpoint_healthy(&reply("503 Service Unavailable")));
}

#[test]
fn health_uses_the_configured_port() {
    let mut config = Config::default();
    config.server.host = "127.0.0.1".into();
    config.server.port = 43_210;
    let request = http_request(&config, "/health");
    assert!(request.starts_with("GET /health HTTP/1.1\r\n"));
    assert!(request.contains("Host: 127.0.0.1:43210\r\n"));
    assert!(endpoint_healthy(&reply("200 OK")));
}

#[test]
fn gpu_fit_preset_enables_gpu_and_auto_fit() {
    let runtime = RuntimePreset::GpuFit.runtime();
    assert!(!runtime.cpu_only);
    assert!(runtime.fit);
    assert!(runtime.mmap);
    assert_eq!(RuntimePreset::matching(&runtime), Some(RuntimePreset::GpuFit));
    assert_eq!(runtime.batch_size, RuntimeConfig::default().batch_size);
    assert_eq!(runtime.cache_type_k, "q8_0");
}
