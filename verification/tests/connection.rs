use umbra::connection::{
    connect_checks, hot_switch_tag, ping_targets, plan_set_mode, port_candidates, random_secret,
    server_name, url_test_target, ModePlan, PingTarget, CLASH_PORT_START,
};
use umbra::error::AppError;
use umbra::models::{
    ConnStatus, ConnectionState, Mode, ProfileStore, ProxyKind, ProxyNode, Security, Subscription,
    Transport, VlessNode,
};
use umbra::singbox::config::generate;
use umbra::models::Settings;
use umbra::tray::{strings, tray_mode, tray_toggle, tray_view, TrayToggle};

fn node(id: &str, name: &str) -> ProxyNode {
    ProxyNode {
        id: id.into(),
        name: name.into(),
        server: format!("{id}.example.org"),
        port: 8443,
        last_ping_ms: None,
        favorite: false,
        total_up: 0,
        total_down: 0,
        raw: String::new(),
        kind: ProxyKind::Vless(VlessNode {
            uuid: "u".into(),
            flow: String::new(),
            security: Security::Plain,
            sni: String::new(),
            fingerprint: String::new(),
            public_key: String::new(),
            short_id: String::new(),
            insecure: false,
            alpn: Vec::new(),
            transport: Transport::Tcp,
        }),
    }
}

fn store() -> ProfileStore {
    ProfileStore {
        version: 2,
        manual: vec![node("a", "Alpha")],
        subscriptions: vec![Subscription {
            id: "s".into(),
            name: "S".into(),
            url: "https://example.com".into(),
            updated_at: None,
            quota: None,
            auto_update_hours: 0,
            support_url: None,
            web_page_url: None,
            panel_title: None,
            servers: vec![node("b", "Beta")],
        }],
    }
}

#[test]
fn secret_is_32_hex_and_random() {
    let s = random_secret();
    assert_eq!(s.len(), 32);
    assert!(s.bytes().all(|b| b.is_ascii_hexdigit()));
    assert_ne!(s, random_secret());
}

#[test]
fn port_candidates_start_at_the_start_and_skip_the_avoided_port() {
    let c = port_candidates(CLASH_PORT_START, Some(9096));
    assert_eq!(c.len(), 199);
    assert_eq!(&c[..3], &[9095, 9097, 9098]);
    assert_eq!(*c.last().unwrap(), 9095 + 199);
    let all = port_candidates(1000, None);
    assert_eq!(all.len(), 200);
    assert_eq!(all[0], 1000);
}

#[test]
fn port_candidates_stop_at_the_end_of_the_range() {
    let c = port_candidates(65530, None);
    assert_eq!(c, vec![65530, 65531, 65532, 65533, 65534, 65535]);
}

#[test]
fn connecting_needs_a_known_server_and_elevation_for_tun() {
    let s = store();
    assert_eq!(connect_checks(&s, "b", Mode::SystemProxy, false).unwrap(), "Beta");
    assert_eq!(
        connect_checks(&s, "zz", Mode::Tun, false),
        Err(AppError::NotFound("server zz".into()))
    );
    assert_eq!(connect_checks(&s, "a", Mode::Tun, false), Err(AppError::NeedsElevation));
    assert_eq!(connect_checks(&s, "a", Mode::Tun, true).unwrap(), "Alpha");
    assert_eq!(server_name(&s, "a").unwrap(), "Alpha");
}

#[test]
fn mode_switch_plans() {
    assert_eq!(
        plan_set_mode(Mode::Tun, Mode::Tun, false, ConnStatus::Connected, Some("a")),
        Ok(ModePlan::Unchanged)
    );
    assert_eq!(
        plan_set_mode(Mode::SystemProxy, Mode::Tun, false, ConnStatus::Disconnected, None),
        Err(AppError::NeedsElevation)
    );
    assert_eq!(
        plan_set_mode(Mode::SystemProxy, Mode::Tun, true, ConnStatus::Connected, Some("a")),
        Ok(ModePlan::Reconnect("a".into()))
    );
    assert_eq!(
        plan_set_mode(Mode::Tun, Mode::SystemProxy, false, ConnStatus::Connecting, Some("a")),
        Ok(ModePlan::Update)
    );
}

#[test]
fn url_tests_need_a_ready_core_that_knows_the_server() {
    let servers = vec![node("a", "Alpha")];
    let refs: Vec<&ProxyNode> = servers.iter().collect();
    let cfg = generate(&Settings::default(), &refs, "a", 9095, "s").unwrap();
    assert_eq!(
        url_test_target(ConnStatus::Connected, Some("a"), Some((&cfg, true))),
        Ok(("a".to_string(), "Alpha".to_string()))
    );
    assert_eq!(
        url_test_target(ConnStatus::Disconnected, Some("a"), Some((&cfg, true))),
        Err(AppError::Internal("not connected".into()))
    );
    assert_eq!(
        url_test_target(ConnStatus::Connected, None, Some((&cfg, true))),
        Err(AppError::Internal("no active server".into()))
    );
    assert_eq!(
        url_test_target(ConnStatus::Connected, Some("a"), None),
        Err(AppError::Internal("core is not running".into()))
    );
    assert_eq!(
        url_test_target(ConnStatus::Connected, Some("a"), Some((&cfg, false))),
        Err(AppError::Internal(
            "the core's control api is not up yet; try again in a moment".into()
        ))
    );
    assert_eq!(
        url_test_target(ConnStatus::Connected, Some("b"), Some((&cfg, true))),
        Err(AppError::NotFound("server b in running config".into()))
    );
}

#[test]
fn live_switches_need_the_server_in_the_running_config() {
    let servers = vec![node("a", "Alpha"), node("b", "Beta")];
    let refs: Vec<&ProxyNode> = servers.iter().collect();
    let cfg = generate(&Settings::default(), &refs, "a", 9095, "s").unwrap();
    assert_eq!(hot_switch_tag("b", None), Ok(None));
    assert_eq!(hot_switch_tag("b", Some((&cfg, true))), Ok(Some("Beta".to_string())));
    assert_eq!(
        hot_switch_tag("b", Some((&cfg, false))),
        Err(AppError::Internal(
            "the core's control api is not up yet; reconnect to switch server".into()
        ))
    );
    assert_eq!(
        hot_switch_tag("c", Some((&cfg, true))),
        Err(AppError::NotFound(
            "server c is not in the running config; reconnect to apply".into()
        ))
    );
}

#[test]
fn ping_targets_follow_the_requested_ids() {
    let s = store();
    let t = ping_targets(&s, &vec!["b".into(), "missing".into(), "a".into()]);
    assert_eq!(
        t,
        vec![
            PingTarget { id: "b".into(), host: "b.example.org".into(), port: 8443 },
            PingTarget { id: "a".into(), host: "a.example.org".into(), port: 8443 },
        ]
    );
}

// -- tray -------------------------------------------------------------------

fn conn(status: ConnStatus, id: Option<&str>, name: Option<&str>, mode: Mode) -> ConnectionState {
    ConnectionState {
        status,
        server_id: id.map(str::to_string),
        server_name: name.map(str::to_string),
        mode,
        since_ms: None,
        error: None,
    }
}

#[test]
fn tray_labels_follow_the_language() {
    assert_eq!(strings("en").connect, "Connect");
    assert_eq!(strings("en").no_server, "No server selected");
    assert_eq!(strings("ru").connect, "Подключить");
    assert_eq!(strings("de").quit, "Выход");
}

#[test]
fn tray_names_the_connected_server() {
    let s = store();
    let v = tray_view("en", None, &conn(ConnStatus::Connected, Some("b"), Some("Old"), Mode::Tun), &s);
    assert_eq!(v.server_label, "Beta");
    assert_eq!(v.toggle_text, "Disconnect");
    assert!(v.connected && v.tun_checked && !v.system_checked);
    assert_eq!(v.tooltip, "Umbra — Beta");
}

#[test]
fn tray_falls_back_to_the_snapshot_then_to_no_server() {
    let s = store();
    let gone = tray_view(
        "en",
        Some("a"),
        &conn(ConnStatus::Connecting, Some("deleted"), Some("Snapshot"), Mode::SystemProxy),
        &s,
    );
    assert_eq!(gone.server_label, "Snapshot");
    assert_eq!(gone.toggle_text, "Connecting…");
    assert_eq!(gone.tooltip, "Umbra");
    let idle = tray_view("ru", None, &conn(ConnStatus::Disconnected, None, None, Mode::SystemProxy), &s);
    assert_eq!(idle.server_label, "Сервер не выбран");
    assert_eq!(idle.toggle_text, "Подключить");
    let selected = tray_view("en", Some("a"), &conn(ConnStatus::Disconnected, None, None, Mode::SystemProxy), &s);
    assert_eq!(selected.server_label, "Alpha");
}

#[test]
fn tray_toggle_and_mode_items() {
    assert_eq!(tray_toggle(ConnStatus::Connected, Some("a")), TrayToggle::Disconnect);
    assert_eq!(tray_toggle(ConnStatus::Connecting, None), TrayToggle::Disconnect);
    assert_eq!(tray_toggle(ConnStatus::Stopping, Some("a")), TrayToggle::Connect("a".into()));
    assert_eq!(tray_toggle(ConnStatus::Disconnected, None), TrayToggle::ShowWindow);
    assert_eq!(tray_mode("tray_mode_tun"), Mode::Tun);
    assert_eq!(tray_mode("tray_mode_system"), Mode::SystemProxy);
}

// -- the connection state through a session -----------------------------------

use umbra::connection::{
    mark_connected, mark_connecting, mark_failed, mark_gave_up, mark_restarting, mark_stopping,
    mark_switched,
};

#[test]
fn a_session_moves_through_its_states() {
    let mut c = ConnectionState::disconnected(Mode::SystemProxy);
    mark_connecting(&mut c, "a".into(), "Alpha".into(), Mode::Tun);
    assert_eq!(c.status, ConnStatus::Connecting);
    assert_eq!(c.server_name.as_deref(), Some("Alpha"));
    assert_eq!(c.mode, Mode::Tun);
    mark_connected(&mut c, 1234);
    assert_eq!(c.status, ConnStatus::Connected);
    assert_eq!(c.since_ms, Some(1234));
    mark_switched(&mut c, "b".into(), "Beta".into());
    assert_eq!(c.server_id.as_deref(), Some("b"));
    assert_eq!(c.since_ms, Some(1234));
    mark_restarting(&mut c);
    assert_eq!(c.status, ConnStatus::Connecting);
    assert_eq!(c.since_ms, None);
    mark_gave_up(&mut c);
    assert_eq!(c.status, ConnStatus::Disconnected);
    assert_eq!(c.server_id, None);
    assert_eq!(c.error.as_deref(), Some("sing-box crashed and could not be restarted"));
    assert_eq!(c.mode, Mode::Tun);
}

#[test]
fn failures_and_stops_reset_the_state() {
    let mut c = ConnectionState::disconnected(Mode::Tun);
    mark_connecting(&mut c, "a".into(), "Alpha".into(), Mode::Tun);
    mark_failed(&mut c, Mode::Tun, "boom".into());
    assert_eq!(c.status, ConnStatus::Disconnected);
    assert_eq!(c.server_name, None);
    assert_eq!(c.error.as_deref(), Some("boom"));
    mark_connecting(&mut c, "a".into(), "Alpha".into(), Mode::Tun);
    mark_stopping(&mut c);
    assert_eq!(c.status, ConnStatus::Stopping);
    assert_eq!(c.error, None);
    assert_eq!(c.server_id.as_deref(), Some("a"));
}
