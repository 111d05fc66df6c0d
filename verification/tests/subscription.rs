use base64::engine::general_purpose::{STANDARD, URL_SAFE};
use base64::Engine;

use umbra::error::AppError;
use umbra::models::SubscriptionQuota;
use umbra::parser::parse_links;
use umbra::subscription::{
    decode_body, decode_header_text, drop_placeholders, filename_from_disposition, hwid_rejection,
    is_http_url, is_placeholder, merge_servers, quota_from_fields, read_subscription,
    user_agent_for, userinfo_fields, ResponseHeaders, DEFAULT_SUB_USER_AGENT,
};

const LINK_A: &str = "vless://u1@a.com:443?security=none#a";
const LINK_B: &str = "vless://u1@b.com:443?security=none#b";

/// `subscription-userinfo`, each value read as a float and cut to an
/// unsigned integer, the way the app reads it.
fn parse_userinfo(value: &str) -> Option<SubscriptionQuota> {
    let fields: Vec<(String, Option<u64>)> = userinfo_fields(value)
        .into_iter()
        .map(|(k, v)| (k, v.parse::<f64>().ok().map(|n| n.max(0.0) as u64)))
        .collect();
    quota_from_fields(&fields)
}

#[test]
fn decode_plain_uri_list() {
    let body = format!("\n{LINK_A}\n{LINK_B}\n");
    let out = decode_body(&body).unwrap();
    assert!(out.contains(LINK_A) && out.contains(LINK_B));
}

#[test]
fn decode_standard_base64_without_padding() {
    let plain = format!("{LINK_A}\n{LINK_B}");
    let mut b64 = STANDARD.encode(&plain);
    while b64.ends_with('=') {
        b64.pop();
    }
    let body = format!("{}\n{}", &b64[..10], &b64[10..]);
    let out = decode_body(&body).unwrap();
    assert!(out.contains(LINK_B));
}

#[test]
fn decode_url_safe_base64() {
    let plain = format!("{LINK_A}?path=???");
    let b64 = URL_SAFE.encode(&plain);
    assert!(b64.contains('_') || b64.contains('-'));
    let out = decode_body(&b64).unwrap();
    assert!(out.contains("a.com"));
}

#[test]
fn decode_strips_bom_before_base64() {
    let body = format!("\u{feff}{}", STANDARD.encode(LINK_A));
    let out = decode_body(&body).unwrap();
    assert!(out.contains("a.com"));
}

#[test]
fn clash_yaml_is_unsupported() {
    let err = decode_body("proxies:\n  - name: x\n    type: vless").unwrap_err();
    assert_eq!(err.code(), "UNSUPPORTED_FORMAT");
    assert!(err.to_string().contains("Clash"));
}

#[test]
fn json_config_is_unsupported() {
    let err = decode_body("{ \"outbounds\": [] }").unwrap_err();
    assert_eq!(err.code(), "UNSUPPORTED_FORMAT");
    assert!(err.to_string().contains("JSON"));
}

#[test]
fn garbage_is_parse_error() {
    let err = decode_body("certainly not a subscription").unwrap_err();
    assert_eq!(err.code(), "PARSE_ERROR");
}

#[test]
fn empty_body_is_parse_error() {
    let err = decode_body("\u{feff}  \n ").unwrap_err();
    assert_eq!(err.to_string(), "failed to parse link: subscription response is empty");
}

#[test]
fn userinfo_header_parses() {
    let q = parse_userinfo(
        "upload=455727941; download=6174315083; total=1073741824000; expire=1671815872",
    )
    .unwrap();
    assert_eq!(q.upload, 455727941);
    assert_eq!(q.download, 6174315083);
    assert_eq!(q.total, 1073741824000);
    assert_eq!(q.expire, 1671815872);
    assert!(parse_userinfo("nonsense").is_none());
}

#[test]
fn userinfo_fields_are_trimmed_and_lower_cased() {
    let f = userinfo_fields(" Upload = 5 ;x;TOTAL=7");
    assert_eq!(f, vec![("upload".to_string(), "5".to_string()), ("total".to_string(), "7".to_string())]);
    let later_wins = vec![
        ("upload".to_string(), Some(1)),
        ("upload".to_string(), None),
        ("upload".to_string(), Some(3)),
    ];
    let q = quota_from_fields(&later_wins).unwrap();
    assert_eq!(q, SubscriptionQuota { upload: 3, download: 0, total: 0, expire: 0 });
    assert!(quota_from_fields(&vec![("upload".to_string(), None)]).is_none());
}

#[test]
fn content_disposition_filename() {
    assert_eq!(filename_from_disposition("attachment; filename=\"My Sub\"").as_deref(), Some("My Sub"));
    assert_eq!(
        filename_from_disposition("attachment; filename=\"fallback\"; filename*=UTF-8''%D0%9C%D0%BE%D1%8F")
            .as_deref(),
        Some("Моя")
    );
    assert!(filename_from_disposition("inline").is_none());
}

#[test]
fn base64_body_with_xhttp_entries_keeps_the_usable_servers() {
    let plain = "\
vless://u1@a.com:443?security=reality&pbk=k1&type=tcp#DE-1\n\
vless://u1@b.com:443?security=reality&pbk=k2&type=grpc&serviceName=s#NL-2\n\
vless://u1@c.com:443?security=reality&pbk=k3&type=xhttp&mode=auto#SE-3\n\
vless://u1@d.com:443?security=reality&pbk=k4&type=xhttp&mode=packet-up#FI-4\n";
    let body = STANDARD.encode(plain);
    let list = decode_body(&body).unwrap();
    let (servers, errors) = parse_links(&list);
    assert_eq!(servers.len(), 2);
    assert_eq!(errors.len(), 2);
    assert!(errors[0].starts_with("SE-3: "), "{}", errors[0]);
    assert!(errors[1].starts_with("FI-4: "), "{}", errors[1]);
    assert!(errors.iter().all(|e| e.contains("xhttp")));
}

#[test]
fn hwid_headers_map_to_actionable_errors() {
    assert!(hwid_rejection(None, None).is_none());
    assert_eq!(hwid_rejection(None, Some("true")).unwrap().code(), "HWID_REQUIRED");
    assert_eq!(hwid_rejection(Some("true"), None).unwrap().code(), "DEVICE_LIMIT");
    assert_eq!(hwid_rejection(Some("true"), Some("true")).unwrap().code(), "DEVICE_LIMIT");
    assert!(hwid_rejection(None, Some("false")).is_none());
    assert!(hwid_rejection(Some("0"), None).is_none());
    assert!(hwid_rejection(None, Some("1")).is_some());
}

const PLACEHOLDER: &str = "vless://00000000-0000-0000-0000-000000000000@0.0.0.0:1\
    ?encryption=none&type=tcp&security=none#Placeholder";

#[test]
fn placeholder_parses_cleanly_which_is_why_it_needs_a_guard() {
    let (servers, errors) = parse_links(PLACEHOLDER);
    assert_eq!(servers.len(), 1);
    assert!(errors.is_empty(), "{errors:?}");
    assert!(is_placeholder(&servers[0]));
}

#[test]
fn placeholder_only_list_is_an_error_not_a_server() {
    let (parsed, _) = parse_links(PLACEHOLDER);
    let err = drop_placeholders(parsed.clone(), None).unwrap_err();
    assert_eq!(err.code(), "DEVICE_LIMIT");
    let err = drop_placeholders(parsed, Some(AppError::HwidRequired)).unwrap_err();
    assert_eq!(err.code(), "HWID_REQUIRED");
}

#[test]
fn real_servers_survive_a_stray_flag_header() {
    let (parsed, _) = parse_links(&format!("{PLACEHOLDER}\n{LINK_A}\n{LINK_B}"));
    assert_eq!(parsed.len(), 3);
    let servers = drop_placeholders(parsed, Some(AppError::HwidRequired)).unwrap();
    assert_eq!(servers.len(), 2);
    assert!(servers.iter().all(|s| !is_placeholder(s)));
    assert_eq!(servers[0].server, "a.com");
}

#[test]
fn empty_list_without_placeholders_is_not_a_device_limit() {
    assert!(drop_placeholders(Vec::new(), None).unwrap().is_empty());
}

#[test]
fn profile_title_header_decodes_base64() {
    assert_eq!(decode_header_text("base64:RXhhbXBsZSBOZXR3b3Jr").as_deref(), Some("Example Network"));
}

#[test]
fn profile_title_header_accepts_a_plain_value() {
    assert_eq!(decode_header_text("My Panel").as_deref(), Some("My Panel"));
    assert_eq!(decode_header_text("  spaced  ").as_deref(), Some("spaced"));
    assert!(decode_header_text("").is_none());
}

#[test]
fn profile_title_header_survives_unpadded_and_url_safe_base64() {
    let cyrillic = "Моя подписка";
    let mut b64 = STANDARD.encode(cyrillic);
    while b64.ends_with('=') {
        b64.pop();
    }
    assert_eq!(decode_header_text(&format!("base64:{b64}")).as_deref(), Some(cyrillic));
    let url_safe = URL_SAFE.encode("a?b>c");
    assert_eq!(decode_header_text(&format!("base64:{url_safe}")).as_deref(), Some("a?b>c"));
}

#[test]
fn undecodable_base64_title_is_dropped() {
    assert!(decode_header_text("base64:!!!!").is_none());
    assert!(decode_header_text("base64:").is_none());
    assert!(decode_header_text(&format!("base64:{}", STANDARD.encode([0xff, 0xfe]))).is_none());
}

#[test]
fn only_http_urls_are_surfaced_as_links() {
    assert!(is_http_url("https://support.example.com/help"));
    assert!(is_http_url("http://panel.example.com"));
    assert!(!is_http_url("javascript:alert(1)"));
    assert!(!is_http_url("support.example.com/help"));
}

#[test]
fn unlimited_plan_still_yields_a_quota() {
    let q = parse_userinfo("upload=0; download=127879592133; total=0; expire=1786000000")
        .expect("unlimited plans report total=0, not a missing header");
    assert_eq!(q.download, 127_879_592_133);
    assert_eq!(q.total, 0);
    assert_eq!(q.expire, 1_786_000_000);
}

#[test]
fn merge_keeps_ids_for_unchanged_raw_links() {
    let (mut old, errs) = parse_links(&format!("{LINK_A}\n{LINK_B}"));
    assert!(errs.is_empty());
    old[0].last_ping_ms = Some(42);
    let old_id_a = old[0].id.clone();
    let link_c = "vless://u1@c.com:443?security=none#c";
    let (fresh, _) = parse_links(&format!("{LINK_A}\n{link_c}"));
    let (merged, added, removed) = merge_servers(&old, fresh);
    assert_eq!(merged.len(), 2);
    assert_eq!(added, 1);
    assert_eq!(removed, 1);
    let a = merged.iter().find(|s| s.raw == LINK_A).unwrap();
    assert_eq!(a.id, old_id_a);
    assert_eq!(a.last_ping_ms, Some(42));
}

#[test]
fn merge_preserves_favorites_and_cumulative_traffic() {
    let (mut old, _) = parse_links(&format!("{LINK_A}\n{LINK_B}"));
    old[0].favorite = true;
    old[0].total_up = 1_000;
    old[0].total_down = 250_000;
    let (fresh, _) = parse_links(&format!("{LINK_A}\n{LINK_B}"));
    assert!(fresh.iter().all(|s| !s.favorite && s.total_up == 0));
    let (merged, added, removed) = merge_servers(&old, fresh);
    assert_eq!((added, removed), (0, 0));
    let a = merged.iter().find(|s| s.raw == LINK_A).unwrap();
    assert!(a.favorite);
    assert_eq!(a.total_up, 1_000);
    assert_eq!(a.total_down, 250_000);
    let b = merged.iter().find(|s| s.raw == LINK_B).unwrap();
    assert!(!b.favorite);
    assert_eq!(b.total_down, 0);
}

#[test]
fn merging_a_list_with_itself_changes_nothing() {
    let (mut old, _) = parse_links(&format!("{LINK_A}\n{LINK_B}"));
    old[1].favorite = true;
    let again: Vec<_> = old.clone();
    let (merged, added, removed) = merge_servers(&old, again);
    assert_eq!(merged, old);
    assert_eq!((added, removed), (0, 0));
}

fn headers() -> ResponseHeaders {
    ResponseHeaders {
        content_disposition: Some("attachment; filename=\"account-123\"".into()),
        profile_title: Some(" base64:RXhhbXBsZSBOZXR3b3Jr ".into()),
        update_interval: Some("12".into()),
        support_url: Some("https://t.me/support".into()),
        web_page_url: Some("javascript:alert(1)".into()),
        hwid_not_supported: None,
        hwid_max_devices: None,
    }
}

#[test]
fn a_response_is_read_into_servers_and_panel_details() {
    let quota = Some(SubscriptionQuota { upload: 1, download: 2, total: 3, expire: 4 });
    let body = STANDARD.encode(format!("{LINK_A}\n{LINK_B}\nvmess://x"));
    let f = read_subscription(&headers(), quota, &body).unwrap();
    assert_eq!(f.servers.len(), 2);
    assert_eq!(f.errors.len(), 1);
    assert_eq!(f.quota, quota);
    assert_eq!(f.filename.as_deref(), Some("account-123"));
    assert_eq!(f.title.as_deref(), Some("Example Network"));
    assert_eq!(f.update_interval_hours, Some(12));
    assert_eq!(f.support_url.as_deref(), Some("https://t.me/support"));
    assert!(f.web_page_url.is_none());
}

#[test]
fn a_gated_response_reports_the_panels_reason() {
    let mut h = headers();
    h.hwid_max_devices = Some("true".into());
    let err = read_subscription(&h, None, PLACEHOLDER).err().unwrap();
    assert_eq!(err.code(), "DEVICE_LIMIT");
}

#[test]
fn blank_user_agent_falls_back_to_the_default() {
    assert_eq!(user_agent_for("  "), DEFAULT_SUB_USER_AGENT);
    assert_eq!(user_agent_for(" Happ/1.0 "), "Happ/1.0");
}
