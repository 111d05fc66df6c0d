use chrono::TimeZone;
use umbra::models::{
    ConnStatus, ConnectionState, Mode, ProfileStore, ProxyKind, ProxyNode, Security, Subscription,
    Transport, VlessNode,
};
use umbra::profiles::{
    apply_order, derive_name, due_for_refresh, ensure_has_servers, may_adopt_title, reconcile,
    Reconciliation, Timestamp,
};
use umbra::subscription::FetchedSubscription;

fn ids(list: &[&str]) -> Vec<String> {
    list.iter().map(|s| (*s).to_string()).collect()
}

fn entry(id: &str, name: &str) -> ProxyNode {
    ProxyNode {
        id: id.into(),
        name: name.into(),
        server: "203.0.113.10".into(),
        port: 443,
        last_ping_ms: None,
        favorite: false,
        total_up: 0,
        total_down: 0,
        raw: String::new(),
        kind: ProxyKind::Vless(VlessNode {
            uuid: "11111111-2222-3333-4444-555555555555".into(),
            flow: String::new(),
            security: Security::Plain,
            sni: String::new(),
            fingerprint: String::new(),
            public_key: String::new(),
            short_id: String::new(),
            insecure: false,
            alpn: Vec::new(),
            transport: Transport::Tcp,
        }),
    }
}

#[test]
fn deleting_the_connected_subscription_clears_only_the_selection() {
    let action = reconcile(&ids(&[]), Some("gone"), ConnStatus::Connected, Some("gone"));
    assert!(action.clear_selection, "a ghost id must not stay persisted");
    assert!(action.active_server_gone);
}

#[test]
fn deleting_an_unrelated_server_changes_nothing() {
    let action = reconcile(&ids(&["a", "b"]), Some("a"), ConnStatus::Connected, Some("b"));
    assert_eq!(action, Reconciliation { clear_selection: false, active_server_gone: false });
}

#[test]
fn selection_is_cleared_even_when_disconnected() {
    let action = reconcile(&ids(&["b"]), Some("a"), ConnStatus::Disconnected, None);
    assert!(action.clear_selection);
    assert!(!action.active_server_gone);
}

#[test]
fn a_disconnected_state_never_reports_a_lost_active_server() {
    let action = reconcile(&ids(&[]), None, ConnStatus::Disconnected, Some("gone"));
    assert!(!action.active_server_gone);
    assert!(!action.clear_selection);
}

#[test]
fn connecting_and_stopping_count_as_live() {
    for status in [ConnStatus::Connecting, ConnStatus::Stopping] {
        let action = reconcile(&ids(&[]), None, status, Some("gone"));
        assert!(action.active_server_gone, "{status:?} still has a core attached");
    }
}

#[test]
fn no_selection_and_no_active_server_is_a_no_op() {
    let action = reconcile(&ids(&["a"]), None, ConnStatus::Disconnected, None);
    assert!(!action.clear_selection);
    assert!(!action.active_server_gone);
}

#[test]
fn connected_state_can_still_name_a_deleted_server() {
    let mut conn = ConnectionState::disconnected(Mode::SystemProxy);
    let server = entry("gone", "Germany · Frankfurt");
    conn.status = ConnStatus::Connected;
    conn.server_id = Some(server.id.clone());
    conn.server_name = Some(server.name.clone());
    conn.since_ms = Some(1);

    let alive = ids(&[]);
    assert!(!alive.contains(&conn.server_id.clone().unwrap()));
    let action = reconcile(&alive, None, conn.status, conn.server_id.as_deref());
    assert!(action.active_server_gone);

    assert_eq!(conn.status, ConnStatus::Connected);
    assert!(conn.server_name.is_some());
    assert_eq!(conn.server_name.as_deref(), Some("Germany · Frankfurt"));
}

#[test]
fn disconnected_state_carries_no_server_name() {
    let conn = ConnectionState::disconnected(Mode::Tun);
    assert_eq!(conn.status, ConnStatus::Disconnected);
    assert!(conn.server_id.is_none());
    assert!(conn.server_name.is_none());
}

// -- naming ----------------------------------------------------------------

const SUB_URL: &str = "https://panel.example.com/api/sub/example-token";

#[test]
fn panel_title_beats_the_content_disposition_filename() {
    assert_eq!(derive_name(Some("Example Network"), Some("account-123"), SUB_URL), "Example Network");
}

#[test]
fn naming_falls_back_filename_then_host() {
    assert_eq!(derive_name(None, Some("account-123"), SUB_URL), "account-123");
    assert_eq!(derive_name(None, None, SUB_URL), "panel.example.com");
    assert_eq!(derive_name(Some("  "), Some(" "), "not a url"), "Subscription");
}

#[test]
fn a_refresh_upgrades_an_auto_derived_name() {
    assert!(may_adopt_title("account-123", None, Some("account-123"), Some("panel.example.com")));
    assert!(may_adopt_title("panel.example.com", None, Some("account-123"), Some("panel.example.com")));
    assert!(may_adopt_title(
        "Example Network",
        Some("Example Network"),
        Some("account-123"),
        Some("panel.example.com")
    ));
    assert!(may_adopt_title("   ", None, None, None));
    assert!(may_adopt_title("Subscription", None, None, None));
}

#[test]
fn a_refresh_never_overwrites_a_user_chosen_name() {
    assert!(!may_adopt_title(
        "Работа",
        Some("Example Network"),
        Some("account-123"),
        Some("panel.example.com")
    ));
    assert!(!may_adopt_title("My VPN", None, None, None));
}

// -- ordering --------------------------------------------------------------

fn sub(id: &str) -> Subscription {
    Subscription {
        id: id.into(),
        name: id.into(),
        url: format!("https://example.com/{id}"),
        updated_at: None,
        quota: None,
        auto_update_hours: 0,
        support_url: None,
        web_page_url: None,
        panel_title: None,
        servers: Vec::new(),
    }
}

fn order_of(subs: &[Subscription]) -> Vec<&str> {
    subs.iter().map(|s| s.id.as_str()).collect()
}

#[test]
fn reordering_follows_the_requested_sequence() {
    let mut subs = vec![sub("a"), sub("b"), sub("c")];
    apply_order(&mut subs, &vec!["c".into(), "a".into(), "b".into()]);
    assert_eq!(order_of(&subs), ["c", "a", "b"]);
}

#[test]
fn unmentioned_subscriptions_keep_their_relative_order_at_the_end() {
    let mut subs = vec![sub("a"), sub("b"), sub("c"), sub("d")];
    apply_order(&mut subs, &vec!["c".into(), "a".into()]);
    assert_eq!(order_of(&subs), ["c", "a", "b", "d"]);
}

#[test]
fn reordering_ignores_ids_that_no_longer_exist() {
    let mut subs = vec![sub("a"), sub("b")];
    apply_order(&mut subs, &vec!["ghost".into(), "b".into(), "a".into()]);
    assert_eq!(order_of(&subs), ["b", "a"]);
    apply_order(&mut subs, &vec![]);
    assert_eq!(order_of(&subs), ["b", "a"]);
}

#[test]
fn reordering_keeps_every_entry_once() {
    let mut subs = vec![sub("a"), sub("b"), sub("c"), sub("b")];
    apply_order(&mut subs, &vec!["b".into(), "x".into(), "b".into(), "c".into()]);
    let mut got = order_of(&subs);
    assert_eq!(got, ["b", "b", "c", "a"]);
    got.sort();
    assert_eq!(got, ["a", "b", "b", "c"]);
}

// -- refresh results -------------------------------------------------------

fn fetched(servers: Vec<ProxyNode>, errors: Vec<String>) -> FetchedSubscription {
    FetchedSubscription {
        servers,
        errors,
        quota: None,
        filename: None,
        title: None,
        update_interval_hours: None,
        support_url: None,
        web_page_url: None,
    }
}

#[test]
fn an_empty_fetch_names_the_first_link_error() {
    let err = ensure_has_servers(&fetched(vec![], vec!["X: bad".into(), "Y: worse".into()])).unwrap_err();
    assert_eq!(err.code(), "PARSE_ERROR");
    assert_eq!(err.to_string(), "failed to parse link: subscription contains no usable links: X: bad");
    let err = ensure_has_servers(&fetched(vec![], vec![])).unwrap_err();
    assert_eq!(err.to_string(), "failed to parse link: subscription contains no usable links");
    assert!(ensure_has_servers(&fetched(vec![entry("a", "A")], vec![])).is_ok());
}

// -- auto-update schedule --------------------------------------------------

fn noon() -> chrono::DateTime<chrono::Utc> {
    chrono::Utc.with_ymd_and_hms(2026, 7, 27, 12, 0, 0).unwrap()
}

fn at(t: chrono::DateTime<chrono::Utc>) -> Timestamp {
    Timestamp { secs: t.timestamp(), nanos: t.timestamp_subsec_nanos() }
}

fn hours_before_noon(hours: i64) -> String {
    (noon() - chrono::Duration::hours(hours)).to_rfc3339_opts(chrono::SecondsFormat::Secs, true)
}

#[test]
fn auto_update_off_is_never_due() {
    assert!(!due_for_refresh(0, None, at(noon())));
    assert!(!due_for_refresh(0, Some(&hours_before_noon(9_000)), at(noon())));
}

#[test]
fn a_subscription_that_never_recorded_a_refresh_is_due() {
    assert!(due_for_refresh(12, None, at(noon())));
    assert!(due_for_refresh(12, Some("last tuesday"), at(noon())));
    assert!(due_for_refresh(12, Some(""), at(noon())));
}

#[test]
fn a_recent_refresh_is_not_due_yet() {
    assert!(!due_for_refresh(12, Some(&hours_before_noon(1)), at(noon())));
    assert!(!due_for_refresh(12, Some(&hours_before_noon(11)), at(noon())));
}

#[test]
fn an_elapsed_interval_is_due() {
    assert!(due_for_refresh(12, Some(&hours_before_noon(12)), at(noon())));
    assert!(due_for_refresh(12, Some(&hours_before_noon(13)), at(noon())));
    assert!(due_for_refresh(12, Some(&hours_before_noon(48)), at(noon())));
}

#[test]
fn each_interval_is_honoured_independently() {
    let six_hours_ago = hours_before_noon(6);
    assert!(due_for_refresh(6, Some(&six_hours_ago), at(noon())));
    assert!(!due_for_refresh(24, Some(&six_hours_ago), at(noon())));
}

#[test]
fn a_timestamp_in_the_future_is_not_due() {
    assert!(!due_for_refresh(12, Some(&hours_before_noon(-3)), at(noon())));
}

#[test]
fn a_just_written_timestamp_reads_back_as_fresh() {
    let now = chrono::Utc::now();
    let stamp = now.to_rfc3339_opts(chrono::SecondsFormat::Secs, true);
    assert!(!due_for_refresh(1, Some(&stamp), at(now)));
}

// -- the store -------------------------------------------------------------

#[test]
fn servers_are_found_in_manual_then_subscription_order() {
    let mut store = ProfileStore::default();
    assert_eq!(store.version, 2);
    store.manual.push(entry("m1", "Manual"));
    let mut s = sub("s");
    s.servers.push(entry("x", "Sub X"));
    s.servers.push(entry("m1", "Shadowed"));
    store.subscriptions.push(s);
    let all: Vec<&str> = store.all_servers().iter().map(|n| n.id.as_str()).collect();
    assert_eq!(all, ["m1", "x", "m1"]);
    assert_eq!(store.find_server("m1").unwrap().name, "Manual");
    assert_eq!(store.find_server("x").unwrap().name, "Sub X");
    assert!(store.find_server("nope").is_none());
    store.find_server_mut("x").unwrap().favorite = true;
    assert!(store.subscriptions[0].servers[0].favorite);
    assert!(store.find_server_mut("nope").is_none());
}
