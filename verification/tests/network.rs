use tinyinference::address::Ipv4;
use tinyinference::fresh::{generate_access_token, Clock, Fresh};
use tinyinference::keys::{mask_token, sanitize_key_name};
use tinyinference::listen::{is_tailscale_cg_nat, LocalAddrs};
use tinyinference::network::{ApiKey, ListenScope, NetworkConfig};
use tinyinference::settings::adjust_power_of_two;

fn clock() -> Clock {
    Clock { seconds: 1_700_000_000, nanos: 5, pid: 7 }
}

fn ip(a: u8, b: u8, c: u8, d: u8) -> Ipv4 {
    Ipv4 { a, b, c, d }
}

fn machine() -> LocalAddrs {
    LocalAddrs { lan: vec![ip(192, 168, 1, 20)], tailscale: vec![ip(100, 64, 0, 1)] }
}

#[test]
fn power_adjustment_is_bounded() {
    assert_eq!(adjust_power_of_two(8, true, 1, 16), 16);
    assert_eq!(adjust_power_of_two(16, true, 1, 16), 16);
    assert_eq!(adjust_power_of_two(1, false, 1, 16), 1);
}

#[test]
fn tailscale_range_detection() {
    assert!(is_tailscale_cg_nat(ip(100, 64, 0, 1)));
    assert!(is_tailscale_cg_nat(ip(100, 100, 1, 2)));
    assert!(is_tailscale_cg_nat(ip(100, 127, 255, 255)));
    assert!(!is_tailscale_cg_nat(ip(100, 63, 0, 1)));
    assert!(!is_tailscale_cg_nat(ip(100, 128, 0, 1)));
    assert!(!is_tailscale_cg_nat(ip(192, 168, 1, 1)));
}

#[test]
fn token_roundtrip_mask() {
    let token = generate_access_token(&clock());
    assert!(token.len() >= 32);
    let masked = mask_token(&token);
    assert!(masked.contains('…'));
    assert!(!masked.contains(&token));
}

#[test]
fn proxy_bind_hosts_expands_all_interfaces() {
    let mut cfg = NetworkConfig::default();
    cfg.expose = true;
    cfg.listen_scope = ListenScope::All;
    let hosts = cfg.proxy_bind_hosts(&machine()).unwrap_or_default();
    assert!(!hosts.iter().any(|h| h == "0.0.0.0" || h == "::"));
    assert_eq!(hosts, vec!["192.168.1.20".to_string(), "100.64.0.1".to_string()]);
    cfg.listen_scope = ListenScope::Custom;
    cfg.listen_host = "10.0.0.187".into();
    assert_eq!(cfg.proxy_bind_hosts(&machine()).unwrap(), vec!["10.0.0.187".to_string()]);
}

#[test]
fn listen_scope_resolves_all_and_custom() {
    let mut cfg = NetworkConfig::default();
    cfg.expose = true;
    cfg.listen_scope = ListenScope::All;
    assert_eq!(cfg.resolve_listen_host(&machine()).unwrap(), "0.0.0.0");

    cfg.listen_scope = ListenScope::Custom;
    cfg.listen_host = "10.0.0.8".into();
    assert_eq!(cfg.resolve_listen_host(&machine()).unwrap(), "10.0.0.8");

    cfg.expose = false;
    assert_eq!(cfg.resolve_listen_host(&machine()).unwrap(), "127.0.0.1");
}

#[test]
fn a_created_key_has_a_name_without_blank_ends() {
    let mut cfg = NetworkConfig::default();
    let name = format!("{} tail", "x".repeat(63));
    assert_eq!(sanitize_key_name(&name), format!("{} ", "x".repeat(63)));
    let created = cfg.create_api_key(&name, &Fresh::draw(0, &clock())).unwrap();
    assert_eq!(created.name, "x".repeat(63));
    assert_eq!(cfg.api_keys.last().unwrap().name, "x".repeat(63));
}

#[test]
fn a_new_key_has_a_secret_of_its_own() {
    let one = ApiKey::new(" My  phone ", &clock());
    let two = ApiKey::new("Tablet", &clock());
    assert_eq!(one.name, "My phone");
    assert_eq!(one.secret.len(), 48);
    assert!(one.secret.chars().all(|c| c.is_ascii_hexdigit()));
    assert!(one.id.starts_with("key-"));
    assert_ne!(one.secret, two.secret);
    assert_eq!(one.created_at, clock().seconds);
}

#[test]
fn api_key_crud_and_legacy_migration() {
    let mut cfg = NetworkConfig::default();
    cfg.access_token = "legacy-secret".into();
    cfg.migrate_api_keys(&Fresh::draw(0, &clock()));
    assert_eq!(cfg.api_keys.len(), 1);
    assert_eq!(cfg.api_keys[0].secret, "legacy-secret");
    assert_eq!(cfg.api_keys[0].name, "Default");

    let created = cfg.create_api_key("Phone", &Fresh::draw(0, &clock())).unwrap();
    assert_eq!(created.name, "Phone");
    assert_eq!(cfg.api_keys.len(), 2);

    cfg.rename_api_key(&created.id, "Tablet").unwrap();
    assert_eq!(cfg.api_keys[1].name, "Tablet");

    let regenerated = cfg.regenerate_api_key(&created.id, &Fresh::draw(0, &clock())).unwrap();
    assert_ne!(regenerated.secret, created.secret);

    cfg.expose = true;
    let first_id = cfg.api_keys[0].id.clone();
    let second_id = cfg.api_keys[1].id.clone();
    assert!(cfg.delete_api_key(&first_id).is_ok());
    assert!(cfg.delete_api_key(&second_id).is_err());
}
