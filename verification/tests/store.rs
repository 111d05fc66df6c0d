use umbra::error::AppError;
use umbra::json::Json;
use umbra::models::{
    ProfileStore, ProxyKind, ProxyNode, Security, Subscription, SubscriptionQuota,
    Transport, VlessNode,
};
use umbra::profiles::{
    apply_refresh, due_ids, find_subscription, import_links, new_subscription, note_refresh,
    prune_failing, remove_manual_server, remove_subscription, rename_subscription,
    request_identity, set_auto_update, set_server_favorite, Timestamp,
};
use umbra::settings::merge_patch;
use umbra::singbox::clash_api::{apply_totals, record_latency, TotalsBatch};
use umbra::storage::{
    backup_name, future_version_error, load_plan, migrate_v1, plan_store_load, profiles_path, settings_path,
    stored_version, LoadPlan, ProfileStoreV1, ProxyNodeV1, SubscriptionV1,
};
use umbra::subscription::FetchedSubscription;

fn node(id: &str, name: &str, raw: &str) -> ProxyNode {
    ProxyNode {
        id: id.into(),
        name: name.into(),
        server: "203.0.113.10".into(),
        port: 443,
        last_ping_ms: None,
        favorite: false,
        total_up: 0,
        total_down: 0,
        raw: raw.into(),
        kind: ProxyKind::Vless(VlessNode {
            uuid: "u".into(),
            flow: String::new(),
            security: Security::Plain,
            sni: String::new(),
            fingerprint: String::new(),
            public_key: String::new(),
            short_id: String::new(),
            insecure: false,
            alpn: Vec::new(),
            transport: Transport::Tcp,
        }),
    }
}

fn sub(id: &str, servers: Vec<ProxyNode>) -> Subscription {
    Subscription {
        id: id.into(),
        name: id.into(),
        url: format!("https://panel.example.com/{id}"),
        updated_at: None,
        quota: None,
        auto_update_hours: 0,
        support_url: None,
        web_page_url: None,
        panel_title: None,
        servers,
    }
}

fn fetched(servers: Vec<ProxyNode>) -> FetchedSubscription {
    FetchedSubscription {
        servers,
        errors: Vec::new(),
        quota: None,
        filename: None,
        title: None,
        update_interval_hours: None,
        support_url: None,
        web_page_url: None,
    }
}

fn store(manual: Vec<ProxyNode>, subscriptions: Vec<Subscription>) -> ProfileStore {
    ProfileStore { version: 2, manual, subscriptions }
}

// -- share-link import ------------------------------------------------------

#[test]
fn import_skips_links_already_stored() {
    let mut manual = vec![node("a", "A", "vless://a")];
    let added = import_links(
        &mut manual,
        vec![node("x", "A again", "vless://a"), node("y", "B", "vless://b")],
    );
    assert_eq!(added, 1);
    let raws: Vec<&str> = manual.iter().map(|n| n.raw.as_str()).collect();
    assert_eq!(raws, ["vless://a", "vless://b"]);
}

#[test]
fn importing_the_same_links_twice_adds_nothing() {
    let mut manual = Vec::new();
    let links = || vec![node("1", "One", "vless://1"), node("2", "Two", "vless://2")];
    assert_eq!(import_links(&mut manual, links()), 2);
    assert_eq!(import_links(&mut manual, links()), 0);
    assert_eq!(manual.len(), 2);
}

// -- removal ----------------------------------------------------------------

#[test]
fn removing_a_manual_server_drops_every_entry_with_its_id() {
    let mut manual = vec![node("a", "A", "1"), node("b", "B", "2"), node("a", "A2", "3")];
    remove_manual_server(&mut manual, "a").unwrap();
    let ids: Vec<&str> = manual.iter().map(|n| n.id.as_str()).collect();
    assert_eq!(ids, ["b"]);
}

#[test]
fn removing_an_unknown_server_is_not_found_and_changes_nothing() {
    let mut manual = vec![node("a", "A", "1")];
    let err = remove_manual_server(&mut manual, "zz").unwrap_err();
    assert_eq!(err, AppError::NotFound("server zz".into()));
    assert_eq!(manual.len(), 1);
}

#[test]
fn removing_subscriptions_by_id() {
    let mut subs = vec![sub("s1", vec![]), sub("s2", vec![])];
    remove_subscription(&mut subs, "s1").unwrap();
    assert_eq!(subs.len(), 1);
    assert_eq!(subs[0].id, "s2");
    let err = remove_subscription(&mut subs, "s1").unwrap_err();
    assert_eq!(err, AppError::NotFound("subscription s1".into()));
}

// -- renaming and settings of a subscription --------------------------------

#[test]
fn renaming_trims_and_forgets_the_panel_title() {
    let mut subs = vec![sub("s1", vec![])];
    subs[0].panel_title = Some("Panel".into());
    let renamed = rename_subscription(&mut subs, "s1", "  Mine  ").unwrap();
    assert_eq!(renamed.name, "Mine");
    assert_eq!(renamed.panel_title, None);
    assert_eq!(subs[0].name, "Mine");
    assert_eq!(subs[0].panel_title, None);
}

#[test]
fn renaming_to_blank_or_unknown_fails() {
    let mut subs = vec![sub("s1", vec![])];
    let err = rename_subscription(&mut subs, "s1", "   ").unwrap_err();
    assert_eq!(err, AppError::Parse("subscription name cannot be empty".into()));
    let err = rename_subscription(&mut subs, "nope", "Name").unwrap_err();
    assert_eq!(err, AppError::NotFound("subscription nope".into()));
    assert_eq!(subs[0].name, "s1");
}

#[test]
fn auto_update_interval_is_set_on_the_first_match() {
    let mut subs = vec![sub("s1", vec![]), sub("s1", vec![])];
    set_auto_update(&mut subs, "s1", 12).unwrap();
    assert_eq!(subs[0].auto_update_hours, 12);
    assert_eq!(subs[1].auto_update_hours, 0);
    assert!(set_auto_update(&mut subs, "zz", 1).is_err());
    assert_eq!(find_subscription(&subs, "s1"), Some(0));
    assert_eq!(find_subscription(&subs, "zz"), None);
}

#[test]
fn starring_reports_whether_anything_changed() {
    let mut s = store(vec![node("a", "A", "1")], vec![sub("s", vec![node("b", "B", "2")])]);
    assert_eq!(set_server_favorite(&mut s, "b", true), Ok(true));
    assert!(s.subscriptions[0].servers[0].favorite);
    assert_eq!(set_server_favorite(&mut s, "b", true), Ok(false));
    assert_eq!(
        set_server_favorite(&mut s, "x", true),
        Err(AppError::NotFound("server x".into()))
    );
}

// -- creation and refresh ---------------------------------------------------

#[test]
fn a_new_subscription_takes_the_given_name_and_panel_interval() {
    let mut f = fetched(vec![node("a", "A", "1")]);
    f.title = Some("Panel".into());
    f.update_interval_hours = Some(6);
    f.quota = Some(SubscriptionQuota { upload: 1, download: 2, total: 3, expire: 0 });
    let s = new_subscription(
        "id-1".into(),
        "https://panel.example.com/x".into(),
        Some("  Mine ".into()),
        f,
        "2026-01-01T00:00:00Z".into(),
    );
    assert_eq!(s.name, "Mine");
    assert_eq!(s.auto_update_hours, 6);
    assert_eq!(s.panel_title.as_deref(), Some("Panel"));
    assert_eq!(s.updated_at.as_deref(), Some("2026-01-01T00:00:00Z"));
    assert_eq!(s.servers.len(), 1);
    assert_eq!(s.quota.map(|q| q.total), Some(3));
}

#[test]
fn a_new_subscription_without_a_name_derives_one() {
    let s = new_subscription(
        "id-2".into(),
        "https://panel.example.com/x".into(),
        Some("   ".into()),
        fetched(vec![]),
        "now".into(),
    );
    assert_eq!(s.name, "panel.example.com");
    assert_eq!(s.auto_update_hours, 0);
}

#[test]
fn a_refresh_merges_servers_and_adopts_an_auto_name() {
    let mut old = node("keep", "Old", "vless://keep");
    old.favorite = true;
    let mut s = sub("s1", vec![old, node("gone", "Gone", "vless://gone")]);
    s.name = "panel.example.com".into();
    s.support_url = Some("https://old".into());
    let mut f = fetched(vec![node("n1", "Kept", "vless://keep"), node("n2", "New", "vless://new")]);
    f.title = Some("Fresh Title".into());
    let (added, removed) = apply_refresh(&mut s, f, "stamp".into());
    assert_eq!((added, removed), (1, 1));
    assert_eq!(s.name, "Fresh Title");
    assert_eq!(s.panel_title.as_deref(), Some("Fresh Title"));
    assert_eq!(s.updated_at.as_deref(), Some("stamp"));
    assert_eq!(s.support_url.as_deref(), Some("https://old"));
    assert_eq!(s.servers[0].id, "keep");
    assert!(s.servers[0].favorite);
    assert_eq!(s.servers[1].raw, "vless://new");
}

#[test]
fn a_refresh_keeps_a_typed_name() {
    let mut s = sub("s1", vec![]);
    s.name = "My VPN".into();
    let mut f = fetched(vec![]);
    f.title = Some("Panel".into());
    f.quota = Some(SubscriptionQuota { upload: 0, download: 0, total: 10, expire: 0 });
    apply_refresh(&mut s, f, "t".into());
    assert_eq!(s.name, "My VPN");
    assert_eq!(s.panel_title.as_deref(), Some("Panel"));
    assert_eq!(s.quota.map(|q| q.total), Some(10));
}

#[test]
fn due_ids_lists_the_overdue_subscriptions() {
    let mut a = sub("a", vec![]);
    a.auto_update_hours = 1;
    let mut b = sub("b", vec![]);
    b.auto_update_hours = 0;
    let mut c = sub("c", vec![]);
    c.auto_update_hours = 24;
    c.updated_at = Some("2026-07-27T11:00:00Z".into());
    let now = Timestamp { secs: 1_785_153_600, nanos: 0 }; // 2026-07-27T12:00:00Z
    assert_eq!(due_ids(&vec![a, b, c], now), vec!["a".to_string()]);
}

#[test]
fn identity_needs_the_setting_and_a_hwid() {
    let id = request_identity(true, "abc", "Windows".into(), "10".into(), "PC".into()).unwrap();
    assert_eq!(id.hwid, "abc");
    assert_eq!(id.model, "PC");
    assert!(request_identity(false, "abc", "o".into(), "v".into(), "m".into()).is_none());
    assert!(request_identity(true, "  ", "o".into(), "v".into(), "m".into()).is_none());
}

#[test]
fn failure_streaks_log_once_and_on_recovery() {
    let mut failing: Vec<String> = Vec::new();
    assert!(note_refresh(&mut failing, "s1", false));
    assert!(!note_refresh(&mut failing, "s1", false));
    assert_eq!(failing, vec!["s1".to_string()]);
    assert!(note_refresh(&mut failing, "s1", true));
    assert!(!note_refresh(&mut failing, "s1", true));
    assert!(failing.is_empty());
}

#[test]
fn failure_streaks_forget_deleted_subscriptions() {
    let mut failing = vec!["gone".to_string(), "s1".to_string()];
    prune_failing(&mut failing, &vec![sub("s1", vec![])]);
    assert_eq!(failing, vec!["s1".to_string()]);
}

// -- traffic and latency ----------------------------------------------------

#[test]
fn traffic_batches_add_up_and_saturate() {
    let mut n = node("a", "A", "1");
    n.total_up = u64::MAX - 1;
    let mut s = store(vec![n], vec![]);
    let batch = TotalsBatch { server_id: "a".into(), up: 5, down: 7 };
    assert!(apply_totals(&mut s, &batch));
    assert_eq!(s.manual[0].total_up, u64::MAX);
    assert_eq!(s.manual[0].total_down, 7);
    let lost = TotalsBatch { server_id: "deleted".into(), up: 1, down: 1 };
    assert!(!apply_totals(&mut s, &lost));
}

#[test]
fn latencies_are_recorded_on_the_server() {
    let mut s = store(vec![], vec![sub("s", vec![node("b", "B", "2")])]);
    assert!(record_latency(&mut s, "b", Some(42)));
    assert_eq!(s.subscriptions[0].servers[0].last_ping_ms, Some(42));
    assert!(record_latency(&mut s, "b", None));
    assert_eq!(s.subscriptions[0].servers[0].last_ping_ms, None);
    assert!(!record_latency(&mut s, "zz", Some(1)));
}

// -- storage ------------------------------------------------------------------

fn v1_node(id: &str) -> ProxyNodeV1 {
    ProxyNodeV1 {
        id: id.into(),
        name: "Manual VLESS".into(),
        protocol: "vless".into(),
        server: "1.1.1.1".into(),
        port: 443,
        uuid: "uuid-1".into(),
        flow: "xtls-rprx-vision".into(),
        security: Security::Reality,
        sni: "example.com".into(),
        fingerprint: "chrome".into(),
        public_key: "pbk".into(),
        short_id: "sid".into(),
        insecure: false,
        alpn: vec![],
        transport: Transport::Tcp,
        last_ping_ms: Some(42),
        favorite: true,
        total_up: 100,
        total_down: 200,
        raw: "vless://...".into(),
    }
}

#[test]
fn v1_stores_migrate_to_the_current_layout() {
    let v1 = ProfileStoreV1 {
        version: 1,
        manual: vec![v1_node("m1")],
        subscriptions: vec![SubscriptionV1 {
            id: "sub1".into(),
            name: "Sub Title".into(),
            url: "https://example.com/sub".into(),
            updated_at: Some("2026-01-01T00:00:00Z".into()),
            quota: None,
            auto_update_hours: 6,
            support_url: Some("https://support.com".into()),
            web_page_url: None,
            panel_title: Some("Original Title".into()),
            servers: vec![v1_node("s1")],
        }],
    };
    let store = migrate_v1(v1);
    assert_eq!(store.version, 2);
    let n = &store.manual[0];
    assert_eq!(n.id, "m1");
    assert_eq!(n.last_ping_ms, Some(42));
    assert!(n.favorite);
    assert_eq!((n.total_up, n.total_down), (100, 200));
    let ProxyKind::Vless(ref v) = n.kind else { panic!("expected Vless") };
    assert_eq!(v.uuid, "uuid-1");
    assert_eq!(v.security, Security::Reality);
    assert_eq!(v.public_key, "pbk");
    let s = &store.subscriptions[0];
    assert_eq!(s.auto_update_hours, 6);
    assert_eq!(s.panel_title.as_deref(), Some("Original Title"));
    assert_eq!(s.servers[0].id, "s1");
}

#[test]
fn layout_versions_decide_the_load() {
    let doc = |members: Vec<(String, Json)>| Json::Object(members);
    assert_eq!(stored_version(&doc(vec![])), 1);
    assert_eq!(stored_version(&doc(vec![("version".into(), Json::Number(Some(2)))])), 2);
    assert_eq!(
        stored_version(&doc(vec![("version".into(), Json::Number(Some((1u64 << 32) + 3)))])),
        3
    );
    assert_eq!(stored_version(&doc(vec![("version".into(), Json::Str("2".into()))])), 1);
    assert_eq!(load_plan(1), LoadPlan::Migrate);
    assert_eq!(load_plan(2), LoadPlan::Current);
    assert_eq!(load_plan(999), LoadPlan::Refuse);
    assert_eq!(
        future_version_error(999, "/data/profiles.json"),
        AppError::Internal("[umbra] unknown ProfileStore version 999 in /data/profiles.json".into())
    );
}

#[test]
fn backup_names_keep_the_stem() {
    assert_eq!(backup_name(Some("profiles.json"), "corrupt", 17), "profiles.corrupt.17.json");
    assert_eq!(backup_name(Some("data"), "corrupt", 5), "data.corrupt.5.json");
    assert_eq!(backup_name(None, "corrupt", 0), "profiles.corrupt.0.json");
}

#[test]
fn data_files_live_in_the_data_dir() {
    assert!(settings_path("/data").ends_with("settings.json"));
    assert!(profiles_path("/data").ends_with("profiles.json"));
    assert!(settings_path("/data").starts_with("/data"));
}

// -- settings patches ---------------------------------------------------------

fn obj(members: &[(&str, Json)]) -> Json {
    Json::Object(members.iter().map(|(k, v)| (k.to_string(), copy(v))).collect())
}

fn copy(j: &Json) -> Json {
    j.copy()
}

fn member<'a>(j: &'a Json, k: &str) -> Option<&'a Json> {
    match j {
        Json::Object(m) => m.iter().find(|(key, _)| key == k).map(|(_, v)| v),
        _ => None,
    }
}

#[test]
fn patches_replace_and_add_members_shallowly() {
    let current = obj(&[
        ("mixedPort", Json::Number(Some(2080))),
        ("language", Json::Str("ru".into())),
    ]);
    let patch = obj(&[
        ("mixedPort", Json::Number(Some(1234))),
        ("selectedServerId", Json::Str("abc".into())),
    ]);
    let merged = merge_patch(current, &patch).unwrap();
    assert!(matches!(member(&merged, "mixedPort"), Some(Json::Number(Some(1234)))));
    assert!(matches!(member(&merged, "language"), Some(Json::Str(s)) if s == "ru"));
    assert!(matches!(member(&merged, "selectedServerId"), Some(Json::Str(s)) if s == "abc"));
    match &merged {
        Json::Object(m) => assert_eq!(m.len(), 3),
        _ => panic!("object expected"),
    }
}

#[test]
fn a_patch_that_is_not_an_object_is_a_parse_error() {
    let err = merge_patch(obj(&[]), &Json::Number(Some(42))).unwrap_err();
    assert_eq!(err.code(), "PARSE_ERROR");
    let err = merge_patch(Json::Null, &obj(&[])).unwrap_err();
    assert_eq!(err.code(), "INTERNAL");
}

#[test]
fn null_patches_clear_a_member() {
    let merged = merge_patch(
        obj(&[("selectedServerId", Json::Str("x".into()))]),
        &obj(&[("selectedServerId", Json::Null)]),
    )
    .unwrap();
    assert!(matches!(member(&merged, "selectedServerId"), Some(Json::Null)));
}

#[test]
fn data_files_are_joined_onto_the_data_dir() {
    let s = settings_path("/data");
    assert!(s == "/data/settings.json" || s == "/data\\settings.json", "{s}");
    assert_eq!(profiles_path("/data/"), "/data/profiles.json");
    assert_eq!(profiles_path(""), "profiles.json");
}

#[test]
fn stored_bytes_are_planned_by_their_version() {
    assert!(matches!(plan_store_load(br#"{"version": 2}"#), Ok((LoadPlan::Current, _))));
    assert!(matches!(plan_store_load(br#"{"servers": []}"#), Ok((LoadPlan::Migrate, _))));
    assert!(matches!(plan_store_load(br#"{"version": 3}"#), Ok((LoadPlan::Refuse, _))));
    let err = plan_store_load(b"{ not json").unwrap_err();
    assert!(!err.is_empty());
    match plan_store_load(br#"{"version": 2, "x": "y"}"#) {
        Ok((_, Json::Object(m))) => assert_eq!(m.len(), 2),
        _ => panic!("object expected"),
    }
}
