use tinyinference::address::{parse_socket, Ipv4};
use tinyinference::app::{App, Effect};
use tinyinference::appearance::{Appearance, UiFontScale, UiTheme};
use tinyinference::catalog::RemoteHealth;
use tinyinference::config::Config;
use tinyinference::desktop::is_running_instance;
use tinyinference::fresh::{Clock, Fresh};
use tinyinference::instance::ServerNews;
use tinyinference::keys::{can_mask, mask_token};
use tinyinference::linking::{NetworkUpdate, Reveal};
use tinyinference::listen::{remote_base_same_host, LocalAddrs};
use tinyinference::moments::AppNews;
use tinyinference::network::{InferenceMode, ListenScope};
use tinyinference::network_page::{catalog_extra_ports, NetworkState, NetworkSummary};
use tinyinference::peers::{
    announce_payload, answer_beacon, discover_payload, discovery_hint, local_scan_targets,
    scanned_peer, visible_peers, BeaconOut, BeaconReply, DiscoveredPeer,
};
use tinyinference::probe::SlotsSnapshot;
use tinyinference::rates::{Reading, Throughput};
use tinyinference::routing::ChatTarget;
use tinyinference::share_proxy::{parse_socket_table, parse_windows_netstat_shape, SocketTable};
use tinyinference::slot::{Exit, LogLine, ProbeResult, ServerStatus};
use tinyinference::terminal::{detail_tone, Tone};
use tinyinference::update::UpdateCache;

fn v4(a: u8, b: u8, c: u8, d: u8) -> Ipv4 {
    Ipv4 { a, b, c, d }
}

fn local() -> LocalAddrs {
    LocalAddrs { lan: vec![v4(192, 168, 1, 20)], tailscale: Vec::new() }
}

fn fresh() -> Fresh {
    Fresh::draw(16, &Clock { seconds: 1_700_000_000, nanos: 2, pid: 3 })
}

fn app() -> App {
    let look = Appearance {
        theme: UiTheme::System,
        font_body: "inter".into(),
        font_display: "inter".into(),
        font_mono: "mono".into(),
        font_scale: UiFontScale::Default,
    };
    App::new(
        Config::default(),
        "test.toml",
        &look,
        true,
        false,
        &local(),
        &fresh(),
        Err("no certificate".into()),
        0,
    )
}

#[test]
fn sharing_reveals_a_new_key_once() {
    let mut app = app();
    let update = NetworkUpdate {
        expose: Some(true),
        listen_scope: Some("custom".into()),
        listen_host: Some(" 192.168.1.20 ".into()),
        device_name: Some(" desk ".into()),
        ..NetworkUpdate::default()
    };
    let shown = app.apply_network_update(&update, &local(), &fresh()).unwrap();
    let token = shown.token.clone().unwrap();
    assert_eq!(app.config.server.host, "192.168.1.20");
    assert_eq!(app.config.server.api_key, token);
    assert_eq!(app.config.network.device_name, "desk");
    let result = app.finish_network_update(Ok(()), shown, &local()).unwrap();
    assert_eq!(result.access_token, Some(token));
    assert!(app.logs.last().unwrap().starts_with("network updated (expose=true, scope=custom"));

    let again = app.apply_network_update(&update, &local(), &fresh()).unwrap();
    assert!(again.token.is_none());
    assert_eq!(
        app.finish_network_update(Err("disk full".into()), again, &local()).unwrap_err(),
        "could not save config: disk full"
    );
}

#[test]
fn refused_updates_say_why() {
    let mut app = app();
    let update = |scope: Option<&str>, mode: Option<&str>| NetworkUpdate {
        listen_scope: scope.map(str::to_string),
        inference_mode: mode.map(str::to_string),
        ..NetworkUpdate::default()
    };
    assert_eq!(
        app.apply_network_update(&update(Some("moon"), None), &local(), &fresh()).unwrap_err(),
        "listen_scope must be \"all\", \"tailscale\", or \"custom\""
    );
    assert_eq!(
        app.apply_network_update(&update(None, Some("both")), &local(), &fresh()).unwrap_err(),
        "inference_mode must be \"local\" or \"remote\""
    );
    assert_eq!(
        app.apply_network_update(&update(None, Some("remote")), &local(), &fresh()).unwrap_err(),
        "Save a linked LLM before switching chat to Linked LLM."
    );
    let shared = NetworkUpdate {
        expose: Some(true),
        listen_scope: Some("tailscale".into()),
        ..NetworkUpdate::default()
    };
    app.apply_network_update(&shared, &local(), &fresh()).unwrap();
    assert!(app.logs.iter().any(|line| line.starts_with("network listen warning: ")));
    assert_eq!(app.config.server.host, "127.0.0.1");
    assert!(app.listen_bind_error(&local()).is_some());
}

#[test]
fn links_come_and_go() {
    let mut app = app();
    app.create_linked_remote("Desk", "10.0.0.2:8080", "key-of-the-desk", true, &local(), &fresh())
        .unwrap();
    let result = app.finish_link_change(Ok(()), "linked LLM added", &local()).unwrap();
    assert!(!result.restart_required);
    assert_eq!(app.logs.last().unwrap(), "network linked LLM added (mode=remote, remotes=1)");
    let id = app.config.network.remotes[0].id.clone();
    app.update_linked_remote(&id, Some("Tower"), None, None, &local(), &fresh()).unwrap();
    assert_eq!(app.config.network.remotes[0].name, "Tower");
    assert_eq!(app.config.network.remotes[0].token, "key-of-the-desk");
    assert_eq!(
        app.update_linked_remote("none", None, None, None, &local(), &fresh()).unwrap_err(),
        "Linked LLM not found."
    );
    app.activate_linked_remote(&id, &local(), &fresh()).unwrap();
    assert_eq!(
        app.remote_target(),
        Some(("http://10.0.0.2:8080/v1".to_string(), "key-of-the-desk".to_string()))
    );
    app.config.network.inference_mode = InferenceMode::Remote;
    match app.route_chat(&None).unwrap() {
        ChatTarget::Remote { url, api_base, key, .. } => {
            assert_eq!(url, "http://10.0.0.2:8080/v1/chat/completions");
            assert_eq!(api_base, "http://10.0.0.2:8080/v1");
            assert_eq!(key.as_deref(), Some("key-of-the-desk"));
        }
        other => panic!("unexpected: {other:?}"),
    }
    app.delete_linked_remote(&id, &local(), &fresh()).unwrap();
    assert!(app.config.network.remotes.is_empty());
    assert!(app.route_chat(&None).is_err());
    app.config.network.inference_mode = InferenceMode::Local;
    assert_eq!(
        app.route_chat(&Some("main".into())).unwrap_err(),
        "The selected model server is not running. Start it from the dashboard first."
    );
}

#[test]
fn keys_are_made_and_removed() {
    let mut app = app();
    let key = app.create_api_key("Phone", &local(), &fresh()).unwrap();
    let shown = Reveal { token: Some(key.secret.clone()), id: Some(key.id.clone()) };
    let result = app
        .finish_key_change(Ok(()), Some("api key created: Phone"), shown, &local())
        .unwrap();
    assert_eq!(result.revealed_api_key_id, Some(key.id.clone()));
    assert_eq!(app.logs.last().unwrap(), "api key created: Phone");
    app.rename_api_key(&key.id, "Tablet").unwrap();
    let renewed = app
        .regenerate_api_key(
            &key.id,
            &local(),
            &Fresh::draw(0, &Clock { seconds: 5, nanos: 5, pid: 5 }),
        )
        .unwrap();
    assert_ne!(renewed.secret, key.secret);
    assert_eq!(app.delete_api_key(&key.id, &local(), &fresh()).unwrap(), "Tablet");
    assert!(app.delete_api_key(&key.id, &local(), &fresh()).is_err());
}

#[test]
fn secrets_are_masked() {
    assert_eq!(mask_token("abcdefghijkl"), "abcd…ijkl");
    assert_eq!(mask_token("short"), "••••••••");
    assert_eq!(mask_token("  "), "");
    assert!(!can_mask("aéééééé"));
    assert!(can_mask("plain-secret"));
}

fn health(ok: bool) -> RemoteHealth {
    RemoteHealth { ok, model: Some("tiny".into()), status: Some("ready".into()), error: None }
}

#[test]
fn the_network_page_shows_what_is_linked() {
    let mut app = app();
    app.create_linked_remote("Desk", "10.0.0.2:8080", "key-of-the-desk", false, &local(), &fresh())
        .unwrap();
    let state = NetworkState::from_app(&app, &local(), "host", &vec![health(true)]);
    assert_eq!(state.listen_candidates.len(), 1);
    assert_eq!(state.listen_candidates[0].label, "LAN · 192.168.1.20");
    assert!(!state.tailscale_available);
    assert_eq!(state.listen_bind_host.as_deref(), Some("127.0.0.1"));
    assert_eq!(state.remotes[0].token_masked, "key-…desk");
    assert!(!state.remotes[0].active);
    assert_eq!(state.remote_token_masked, "key-…desk");
    assert!(state.llama_binds_loopback);
    assert!(state.llama_endpoint.is_none());
    assert_eq!(state.device_name, "host");
    let summary = NetworkSummary::from_app(&app, &local(), "host", &Some(health(true)));
    assert!(summary.remote_ok);
    assert_eq!(summary.remote_label, "10.0.0.2:8080/v1");
    assert!(!summary.via_remote);
    assert!(!NetworkSummary::from_app(&app, &local(), "host", &None).remote_ok);
}

#[test]
fn the_panel_notes_discovery_errors_once() {
    let mut app = app();
    app.set_listen_addr(parse_socket("127.0.0.1:3920").unwrap());
    assert_eq!(app.listen_addr(), parse_socket("127.0.0.1:3920"));
    assert!(app.take_effects().iter().any(|e| matches!(e, Effect::Advertise { on: false, .. })));
    app.note_discovery_error("mDNS unavailable");
    app.note_discovery_error("mDNS unavailable");
    let told = app.logs.iter().filter(|line| *line == "[network] mDNS unavailable").count();
    assert_eq!(told, 1);
}

#[test]
fn tls_names_the_shared_address() {
    let mut app = app();
    assert!(app.share_tls_host(&local()).is_none());
    app.config.network.expose = true;
    app.config.network.listen_scope = ListenScope::Custom;
    app.config.network.listen_host = "192.168.1.20".into();
    let host = app.share_tls_host(&local()).unwrap().unwrap();
    assert_eq!(host.to_text(), "192.168.1.20");
}

fn line(text: &str) -> LogLine {
    LogLine { text: text.into(), generated: None, prompt: None }
}

#[test]
fn a_server_is_followed_from_launch_to_exit() {
    let mut app = app();
    let mut config = app.config.clone();
    config.model.source = tinyinference::config::ModelSource::Local("m.gguf".into());
    app.finish_start(config, Ok(77), 0);
    assert_eq!(app.slot.status, ServerStatus::Starting);
    assert_eq!(app.slot.status_detail, "Waking llama-server (PID 77)");

    let mut first = ServerNews::none();
    first.logs = vec![line("loading")];
    let news = AppNews {
        listing: None,
        models: None,
        fetched: Vec::new(),
        first,
        others: Vec::new(),
    };
    let (wanted, _) = app.tick(news, 10);
    assert!(wanted.probe);
    assert!(app.logs.contains(&"loading".to_string()));

    let mut first = ServerNews::none();
    first.arrived.probe = Some(ProbeResult {
        endpoint_online: true,
        metrics_requested: true,
        metrics: None,
        slots: Some(SlotsSnapshot { decoded_tokens: 0, requests_processing: 0 }),
    });
    let news = AppNews {
        listing: None,
        models: None,
        fetched: Vec::new(),
        first,
        others: Vec::new(),
    };
    let (wanted, _) = app.tick(news, 20);
    assert_eq!(app.slot.status, ServerStatus::Ready);
    assert!(wanted.thinking);
    match app.route_chat(&None).unwrap() {
        ChatTarget::Local { api_base, reached_at, key } => {
            assert_eq!(api_base, "http://127.0.0.1:8080/v1");
            assert_eq!(reached_at, "http://127.0.0.1:8080/v1");
            assert!(key.is_none());
        }
        other => panic!("unexpected: {other:?}"),
    }
    assert_eq!(app.stop_target(None), Some(77));
    assert_eq!(app.shutdown(), vec!["main".to_string()]);

    let mut first = ServerNews::none();
    first.exit = Exit::Exited { success: false, code: Some(3) };
    first.tail = vec!["goodbye".into()];
    let news = AppNews {
        listing: None,
        models: None,
        fetched: Vec::new(),
        first,
        others: Vec::new(),
    };
    app.tick(news, 30);
    assert_eq!(app.slot.status, ServerStatus::Failed);
    assert_eq!(app.slot.status_detail, "llama-server exited with code 3");
    assert!(app.running_config.is_none());
    assert!(app.logs.contains(&"goodbye".to_string()));
    assert!(app.shutdown().is_empty());
}

#[test]
fn rates_come_from_counts_and_grow_stale() {
    let mut rates = Throughput::new();
    let slots = |decoded_tokens: u64| SlotsSnapshot { decoded_tokens, requests_processing: 1 };
    rates.see_slots(slots(10), 1_000);
    rates.see_slots(slots(30), 2_000);
    assert_eq!(rates.live, Some(Reading::Over { tokens: 20, millis: 1_000 }));
    rates.expire(30_000);
    assert!(rates.live.is_none());
}

#[test]
fn beacons_are_answered() {
    let out = BeaconOut {
        name: "desk".into(),
        port: 8080,
        ports: vec![8080],
        ips: vec![v4(192, 168, 1, 20)],
    };
    let asked = discover_payload();
    assert_eq!(asked.t, "discover");
    assert!(matches!(answer_beacon(&asked, None, &None), BeaconReply::Ignore));
    let told = announce_payload(&out);
    assert!(matches!(answer_beacon(&asked, None, &Some(out)), BeaconReply::Announce(_)));
    match answer_beacon(&told, Some(v4(192, 168, 1, 20)), &None) {
        BeaconReply::Note(peer) => assert_eq!(peer.base_url, "https://192.168.1.20:8080/v1"),
        other => panic!("unexpected: {other:?}"),
    }
}

#[test]
fn neighbours_are_scanned_for() {
    let targets = local_scan_targets(&vec![v4(192, 168, 1, 20), v4(172, 16, 0, 1)]);
    assert!(!targets.is_empty());
    assert!(targets.iter().all(|(ip, _)| ip.a == 192 && *ip != v4(192, 168, 1, 20)));
    let found = scanned_peer(v4(192, 168, 1, 9), 8080, 401).unwrap();
    assert_eq!(found.base_url, "https://192.168.1.9:8080/v1");
    assert_eq!(found.name, "lan-192.168.1.9");
    assert!(scanned_peer(v4(192, 168, 1, 9), 8080, 404).is_none());
    assert!(discovery_hint(&Vec::new(), false).contains("No Wi"));
    assert!(discovery_hint(&vec![v4(10, 0, 0, 1)], false).contains("10.0.0.1"));
}

fn peer(host: &str, port: u16, fullname: &str) -> DiscoveredPeer {
    DiscoveredPeer {
        name: "n".into(),
        host: host.into(),
        port,
        ports: vec![port],
        base_url: format!("http://{host}:{port}/v1"),
        fullname: fullname.into(),
    }
}

#[test]
fn this_device_is_not_its_own_peer() {
    let found = vec![
        peer("192.168.1.20", 8080, "a"),
        peer("192.168.1.21", 8080, "me"),
        peer("192.168.1.22", 8081, "b"),
    ];
    let visible = visible_peers(&found, Some("me"), &local());
    assert_eq!(visible.len(), 1);
    assert_eq!(visible[0].fullname, "b");
    assert_eq!(catalog_extra_ports("http://192.168.1.22:8080/v1", &found), vec![8081, 8081]);
    assert!(remote_base_same_host("http://A:1/v1", "https://a:2/v1"));
    assert!(!remote_base_same_host("http://a:1/v1", "http://b:1/v1"));
}

#[test]
fn linux_tables_are_read_by_their_columns() {
    let text = "tcp 0 0 10.0.0.187:8080 10.0.0.151:52344 ESTABLISHED\n";
    let ports = vec![8080];
    let expected = parse_socket_table(SocketTable::LinuxNetstat, text, &ports);
    assert_eq!(expected.len(), 1);
    assert_eq!(parse_windows_netstat_shape(text, &ports), expected);
}

#[test]
fn a_second_launch_knows_the_first() {
    assert!(is_running_instance(200, r#"{"app":"tinyinference","focused":false}"#));
    assert!(!is_running_instance(200, r#"{"app":"other"}"#));
    assert!(!is_running_instance(500, r#"{"app":"tinyinference"}"#));
    assert!(!is_running_instance(200, "hello"));
}

#[test]
fn an_abandoned_lookup_can_begin_again() {
    let mut cache = UpdateCache::default();
    assert!(cache.begin_probe(0));
    cache.clear_probe_flag();
    assert!(cache.begin_probe(1));
    assert_eq!(detail_tone(ServerStatus::Failed), Tone::Coral);
    assert_eq!(detail_tone(ServerStatus::Ready), Tone::Muted);
}
