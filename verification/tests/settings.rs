use umbra::json::Json;
use umbra::models::{AppRouteAction, AppRouteRule, ProcessMatcher, RouteRule, RuleType, Settings};
use umbra::settings::merge_patch;

fn obj(members: &[(&str, Json)]) -> Json {
    Json::Object(members.iter().map(|(k, v)| (k.to_string(), v.copy())).collect())
}

fn member<'a>(j: &'a Json, k: &str) -> Option<&'a Json> {
    match j {
        Json::Object(m) => m.iter().find(|(key, _)| key == k).map(|(_, v)| v),
        _ => None,
    }
}

/// The wire members of `Settings::default()` that these tests look at.
fn default_doc() -> Json {
    let d = Settings::default();
    obj(&[
        ("version", Json::Number(Some(d.version as u64))),
        ("language", Json::Str(d.language.clone())),
        ("mixedPort", Json::Number(Some(d.mixed_port as u64))),
        ("selectedServerId", Json::Null),
        ("autostart", Json::Bool(d.autostart)),
        ("tunMtu", Json::Number(Some(d.tun_mtu as u64))),
    ])
}

#[test]
fn merge_applies_camel_case_keys_shallowly() {
    let current = default_doc();
    let patch = obj(&[
        ("mixedPort", Json::Number(Some(1234))),
        ("autostart", Json::Bool(true)),
        ("selectedServerId", Json::Str("abc".into())),
    ]);
    let merged = merge_patch(current.copy(), &patch).unwrap();
    assert!(matches!(member(&merged, "mixedPort"), Some(Json::Number(Some(1234)))));
    assert!(matches!(member(&merged, "autostart"), Some(Json::Bool(true))));
    assert!(matches!(member(&merged, "selectedServerId"), Some(Json::Str(s)) if s == "abc"));
    // untouched fields keep their values
    assert!(matches!(member(&current, "language"), Some(Json::Str(s)) if s == "ru"));
    assert!(matches!(member(&merged, "language"), Some(Json::Str(s)) if s == "ru"));
    assert!(matches!(member(&current, "tunMtu"), Some(Json::Number(Some(9000)))));
    assert!(matches!(member(&merged, "tunMtu"), Some(Json::Number(Some(9000)))));
}

#[test]
fn merge_rejects_non_object_patch() {
    let err = merge_patch(default_doc(), &Json::Number(Some(42))).unwrap_err();
    assert_eq!(err.code(), "PARSE_ERROR");
}

#[test]
fn merge_allows_null_for_nullable_field() {
    let merged = merge_patch(default_doc(), &obj(&[("selectedServerId", Json::Null)])).unwrap();
    assert!(matches!(member(&merged, "selectedServerId"), Some(Json::Null)));
}

#[test]
fn settings_legacy_app_routes_migration() {
    let mut settings = Settings::default();
    settings.language = "en".into();
    settings.app_routes = vec![
        AppRouteRule {
            id: "r1".into(),
            process_name: "chrome.exe".into(),
            action: AppRouteAction::Proxy,
        },
        AppRouteRule {
            id: "r2".into(),
            process_name: "discord.exe".into(),
            action: AppRouteAction::Direct,
        },
    ];
    settings.normalize();
    assert_eq!(settings.routing_rules.len(), 2);
    assert_eq!(settings.routing_rules[0].id, "r1");
    assert_eq!(settings.routing_rules[0].rule_type, RuleType::Process);
    assert_eq!(settings.routing_rules[0].value, "chrome.exe");
    assert_eq!(settings.routing_rules[0].action, AppRouteAction::Proxy);
    assert!(settings.routing_rules[0].enabled);
    assert_eq!(settings.routing_rules[1].id, "r2");
    assert_eq!(settings.routing_rules[1].rule_type, RuleType::Process);
    assert_eq!(settings.routing_rules[1].value, "discord.exe");
    assert_eq!(settings.routing_rules[1].action, AppRouteAction::Direct);
}

#[test]
fn migrated_rules_match_by_process_name() {
    let mut settings = Settings::default();
    settings.app_routes = vec![AppRouteRule {
        id: "r1".into(),
        process_name: "game.exe".into(),
        action: AppRouteAction::Block,
    }];
    settings.normalize();
    assert_eq!(settings.routing_rules[0].process_matcher, Some(ProcessMatcher::Name));
    assert!(settings.routing_rules[0].domain_matcher.is_none());
    assert!(settings.routing_rules[0].description.is_none());
    // normalizing again changes nothing
    let once = settings.routing_rules.clone();
    settings.normalize();
    assert_eq!(settings.routing_rules, once);
}

#[test]
fn explicit_rules_are_not_replaced_by_legacy_ones() {
    let mut settings = Settings::default();
    let rule = RouteRule {
        id: "rule-1".into(),
        enabled: false,
        rule_type: RuleType::IpCidr,
        value: "10.0.0.0/8".into(),
        process_matcher: None,
        domain_matcher: None,
        action: AppRouteAction::Direct,
        description: Some("lan".into()),
    };
    settings.routing_rules = vec![rule.clone()];
    settings.app_routes = vec![AppRouteRule {
        id: "r1".into(),
        process_name: "chrome.exe".into(),
        action: AppRouteAction::Proxy,
    }];
    settings.normalize();
    assert_eq!(settings.routing_rules, vec![rule]);
}

#[test]
fn default_settings_match_the_documented_defaults() {
    let d = Settings::default();
    assert_eq!(d.version, 1);
    assert_eq!(d.language, "ru");
    assert_eq!(d.mixed_port, 2080);
    assert!(d.selected_server_id.is_none());
    assert!(!d.autostart);
    assert!(d.minimize_to_tray);
    assert_eq!(d.tun_stack, "mixed");
    assert!(d.tun_strict_route);
    assert_eq!(d.tun_mtu, 9000);
    assert_eq!(d.ping_url, "https://www.gstatic.com/generate_204");
    assert!(d.send_hwid);
}
