use tinyinference::address::{parse_ip, Ip, Ipv4};
use tinyinference::catalog::{
    bearer, models_url, plan_catalog, probe_remote_catalog, remote_models, remote_state,
    CatalogAnswer, HealthCache,
};
use tinyinference::discovery::{DaemonStep, NetworkDiscovery};
use tinyinference::fresh::{
    access_token_from, generate_key_id, generate_remote_id, generate_skill_id, Clock, Fresh,
};
use tinyinference::keys::sanitize_key_name;
use tinyinference::listen::{
    is_virtual_iface, sanitize_instance_name, shareable_ipv4_addrs, Interface, LocalAddrs,
};
use tinyinference::network::NetworkConfig;
use tinyinference::peers::{
    announce_payload, decode_beacon, encode_beacon, guess_broadcast, peer_from_announce,
    peer_from_resolved, BeaconOut, BeaconPayload, DiscoveredPeer, PeerStore, ResolvedService,
    PEER_TTL,
};
use tinyinference::remotes::{label_from_remote_base, normalize_openai_base};
use tinyinference::share_proxy::{
    listing_failure, parse_bsd_netstat, parse_lsof, parse_ss, parse_windows_netstat,
    split_endpoint, ClientActivityState, ShareProxyManager,
};

fn v4(a: u8, b: u8, c: u8, d: u8) -> Ipv4 {
    Ipv4 { a, b, c, d }
}

fn clock() -> Clock {
    Clock { seconds: 1_700_000_000, nanos: 5, pid: 7 }
}

#[test]
fn split_endpoint_parses_colon_v4() {
    let (ip, port) = split_endpoint("10.0.0.151:52344").unwrap();
    assert_eq!(ip.to_text(), "10.0.0.151");
    assert_eq!(port, 52344);
}

#[test]
fn split_endpoint_parses_bsd_dotted_v4() {
    let (ip, port) = split_endpoint("10.0.0.187.8080").unwrap();
    assert_eq!(ip.to_text(), "10.0.0.187");
    assert_eq!(port, 8080);
}

#[test]
fn split_endpoint_parses_bracket_v6() {
    let (ip, port) = split_endpoint("[fe80::1]:8080").unwrap();
    assert_eq!(ip.to_text(), "fe80::1");
    assert_eq!(port, 8080);
}

#[test]
fn windows_netstat_extracts_peer() {
    let text = "\
  TCP    10.0.0.187:8080    10.0.0.151:52344    ESTABLISHED    1234
  TCP    0.0.0.0:8080       0.0.0.0:0           LISTENING      1234
";
    let peers = parse_windows_netstat(text, &vec![8080]);
    assert_eq!(peers.len(), 1);
    assert_eq!(peers[0].0.to_text(), "10.0.0.151");
    assert_eq!(peers[0].1, 8080);
}

#[test]
fn other_socket_tables_are_read_too() {
    let ports = vec![8080];
    let expected = vec![(Ip::V4(v4(10, 0, 0, 151)), 8080)];
    let bsd = "tcp4  0  0  10.0.0.187.8080  10.0.0.151.52344  ESTABLISHED\n";
    assert_eq!(parse_bsd_netstat(bsd, &ports), expected);
    let ss = "ESTAB 0 0 10.0.0.187:8080 10.0.0.151:52344\n";
    assert_eq!(parse_ss(ss, &ports), expected);
    let lsof =
        "llama 1 me 5u IPv4 0x1 0t0 TCP 10.0.0.187:8080->10.0.0.151:52344 (ESTABLISHED)\n";
    assert_eq!(parse_lsof(lsof, &ports), expected);
    assert!(listing_failure("lsof", "missing", "denied").contains("missing"));
}

#[test]
fn clients_keep_their_first_moment() {
    let peer = Ip::V4(v4(10, 0, 0, 151));
    let ports = vec![(8080, "model".to_string())];
    let mut manager = ShareProxyManager::default();
    manager.sync(true, &ports, Ok(vec![(peer, 8080)]), 1_000);
    manager.update_port_tps(8080, Some(2.5_f64.to_bits()));
    manager.sync(true, &ports, Ok(vec![(peer, 8080)]), 4_000);
    let (clients, summary) = manager.snapshot(4_000, 100);
    assert_eq!(clients.len(), 1);
    assert_eq!(clients[0].started_at, 97);
    assert_eq!(clients[0].state, ClientActivityState::Active);
    assert_eq!(summary.active_count, 1);
    manager.sync(true, &ports, Err("no tool".into()), 5_000);
    assert_eq!(manager.last_error(), Some("could not list connections: no tool"));
    manager.sync(false, &ports, Ok(vec![(peer, 8080)]), 6_000);
    assert!(manager.snapshot(6_000, 100).0.is_empty());
}

fn payload_json(payload: &BeaconPayload) -> Vec<u8> {
    let mut map = serde_json::Map::new();
    map.insert("v".into(), payload.v.into());
    map.insert("t".into(), payload.t.clone().into());
    map.insert("name".into(), payload.name.clone().into());
    map.insert("port".into(), payload.port.into());
    map.insert("ports".into(), payload.ports.clone().into());
    map.insert("scheme".into(), payload.scheme.clone().into());
    map.insert("ips".into(), payload.ips.clone().into());
    serde_json::to_vec(&map).unwrap()
}

fn payload_from(body: &[u8]) -> BeaconPayload {
    let value: serde_json::Value = serde_json::from_slice(body).unwrap();
    let text = |key: &str| value[key].as_str().unwrap_or_default().to_string();
    let list = |key: &str| value[key].as_array().cloned().unwrap_or_default();
    BeaconPayload {
        v: value["v"].as_u64().unwrap() as u8,
        t: text("t"),
        name: text("name"),
        port: value["port"].as_u64().unwrap() as u16,
        ports: list("ports").iter().map(|port| port.as_u64().unwrap() as u16).collect(),
        scheme: text("scheme"),
        ips: list("ips").iter().map(|ip| ip.as_str().unwrap().to_string()).collect(),
    }
}

#[test]
fn beacon_payload_roundtrip() {
    let payload = announce_payload(&BeaconOut {
        name: "desk".into(),
        port: 8080,
        ports: vec![8080, 8081],
        ips: vec![v4(192, 168, 1, 20)],
    });
    let packet = encode_beacon(&payload_json(&payload));
    let decoded = payload_from(&decode_beacon(&packet).unwrap());
    let peer = peer_from_announce(&decoded, Some(v4(192, 168, 1, 20))).unwrap();
    assert_eq!(peer.name, "desk");
    assert_eq!(peer.port, 8080);
    assert_eq!(peer.ports, vec![8080, 8081]);
    assert_eq!(peer.base_url, "https://192.168.1.20:8080/v1");
    assert!(decode_beacon(&b"something else".to_vec()).is_none());
}

fn peer(fullname: &str) -> DiscoveredPeer {
    DiscoveredPeer {
        name: fullname.into(),
        host: "10.0.0.2".into(),
        port: 8080,
        ports: vec![8080],
        base_url: "http://10.0.0.2:8080/v1".into(),
        fullname: fullname.into(),
    }
}

#[test]
fn peers_are_forgotten_after_a_while() {
    let mut store = PeerStore::new();
    store.upsert(peer("a"), 0);
    store.upsert(peer("b"), 10);
    assert_eq!(store.list(20).len(), 2);
    store.remove("b");
    assert_eq!(store.list(20).len(), 1);
    assert!(store.list(PEER_TTL + 1_000).is_empty());
}

#[test]
fn resolved_services_become_peers() {
    let service = ResolvedService {
        fullname: "desk._tinyinference._tcp.local.".into(),
        port: 8080,
        addresses: vec![v4(192, 168, 1, 9)],
        host: "desk.local.".into(),
        scheme: Some("http".into()),
    };
    let found = peer_from_resolved(&service).unwrap();
    assert_eq!(found.host, "192.168.1.9");
    assert_eq!(found.base_url, "http://192.168.1.9:8080/v1");
    assert_eq!(guess_broadcast(v4(192, 168, 1, 9)), v4(192, 168, 1, 255));
}

#[test]
fn the_daemon_is_opened_before_it_browses() {
    let mut discovery = NetworkDiscovery::new();
    assert_eq!(discovery.daemon_step(), DaemonStep::Open);
    discovery.daemon_opened(None);
    assert_eq!(discovery.daemon_step(), DaemonStep::Browse);
    discovery.browsing(None);
    assert_eq!(discovery.daemon_step(), DaemonStep::Ready);
    let action = discovery.sync_advertise(true, "desk", &vec![8080], &vec![v4(10, 0, 0, 5)]);
    let service = action.register.unwrap();
    discovery.registered(service, None);
    assert!(discovery.is_advertising());
    let action = discovery.sync_advertise(false, "desk", &vec![8080], &vec![v4(10, 0, 0, 5)]);
    assert!(action.unregister.is_some());
    assert!(!discovery.is_advertising());
}

#[test]
fn interfaces_are_sorted_by_where_they_lead() {
    let interfaces = vec![
        Interface { name: "docker0".into(), ip: parse_ip("172.17.0.1").unwrap() },
        Interface { name: "eth0".into(), ip: parse_ip("192.168.1.20").unwrap() },
        Interface { name: "tailscale0".into(), ip: parse_ip("100.64.0.7").unwrap() },
        Interface { name: "lo".into(), ip: parse_ip("127.0.0.1").unwrap() },
    ];
    let LocalAddrs { lan, tailscale } = shareable_ipv4_addrs(&interfaces);
    assert_eq!(lan, vec![v4(192, 168, 1, 20), v4(172, 17, 0, 1)]);
    assert_eq!(tailscale, vec![v4(100, 64, 0, 7)]);
    assert!(is_virtual_iface("docker0"));
}

#[test]
fn bases_are_normalised() {
    assert_eq!(normalize_openai_base("host:8080").as_deref(), Some("http://host:8080/v1"));
    assert_eq!(
        normalize_openai_base("https://host/v1/").as_deref(),
        Some("https://host/v1")
    );
    assert_eq!(normalize_openai_base("  "), None);
    assert!(label_from_remote_base("http://host:8080/v1").contains("host"));
    assert!(models_url("http://host:8080/v1").unwrap().ends_with("/v1/models"));
    assert_eq!(bearer("key").as_deref(), Some("Bearer key"));
    assert_eq!(bearer("  "), None);
}

#[test]
fn remotes_are_linked_and_unlinked() {
    let fresh = Fresh::draw(4, &clock());
    let mut network = NetworkConfig::default();
    let linked = network
        .upsert_remote(None, "Desk", "10.0.0.2:8080", Some("key"), true, &fresh)
        .unwrap();
    assert_eq!(linked.base, "http://10.0.0.2:8080/v1");
    assert_eq!(network.active_remote().unwrap().name, "Desk");
    assert_eq!(
        network.remote_chat_url().as_deref(),
        Some("http://10.0.0.2:8080/v1/chat/completions")
    );
    assert!(network.set_active_remote("unknown", &fresh).is_err());
    network.delete_remote(&linked.id, &fresh).unwrap();
    assert!(network.active_remote().is_none());
    assert!(network.delete_remote(&linked.id, &fresh).is_err());
}

#[test]
fn remote_models_are_read_and_remembered() {
    let models = remote_models(200, "200 OK", Ok(r#"{"data":[{"id":"tiny"}]}"#.into())).unwrap();
    assert_eq!(models, ["tiny"]);
    assert!(remote_models(401, "401 Unauthorized", Ok(String::new())).is_err());
    assert!(remote_models(200, "200 OK", Ok("not json".into())).is_err());
    let health = remote_state(&Ok(models));
    assert!(health.ok);
    let mut cache = HealthCache::new();
    assert!(cache.peek("b", "t", 0).is_none());
    cache.probe("b", "t", health, 100);
    assert!(cache.peek("b", "t", 200).unwrap().ok);
    assert!(cache.peek("b", "other", 200).is_none());
    assert!(cache.peek("b", "t", 100_000).is_none());
    let targets = plan_catalog("http://host:8080/v1", &vec![8081]);
    let primary: Vec<u16> =
        targets.iter().filter(|target| target.primary).map(|target| target.port).collect();
    assert_eq!(primary, vec![8080]);
    assert!(targets.windows(2).all(|pair| pair[0].port < pair[1].port));
    assert_eq!(targets.iter().filter(|target| target.port == 8081).count(), 1);
    let options = probe_remote_catalog(&vec![CatalogAnswer {
        base: "http://host:8080/v1".into(),
        port: 8080,
        models: vec!["tiny".into()],
    }]);
    assert_eq!(options.len(), 1);
    assert_eq!(options[0].model, "tiny");
}

#[test]
fn fresh_names_differ() {
    assert_ne!(generate_key_id(&clock()), generate_key_id(&clock()));
    assert_ne!(generate_remote_id(&clock()), generate_remote_id(&clock()));
    assert_ne!(generate_skill_id(), generate_skill_id());
    let fallback = access_token_from(&None, &clock());
    assert_eq!(fallback, access_token_from(&None, &clock()));
    assert!(!fallback.is_empty());
}

#[test]
fn names_are_cleaned() {
    assert_eq!(sanitize_key_name("  Phone  "), "Phone");
    assert!(sanitize_key_name("   ").is_empty());
    assert!(!sanitize_instance_name("my.desk").is_empty());
}
