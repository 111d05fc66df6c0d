use sha2::{Digest, Sha256};
use umbra::hwid::{device_model, device_os, hash_id, hwid, os_version};
use umbra::models::{ProxyBackup, Settings};
use umbra::proxy::{
    default_bypass_list, elevation_result, has_resume_tun, join_args, proxy_server_value,
    release_proxy_ownership, take_proxy_ownership, RESUME_TUN_FLAG,
};

#[test]
fn join_args_space_separated() {
    assert_eq!(join_args(&["--resume-tun", "--minimized"]), "--resume-tun --minimized");
}

#[test]
fn join_args_quotes_whitespace() {
    assert_eq!(join_args(&["--path", "C:\\a b\\c"]), "--path \"C:\\a b\\c\"");
}

#[test]
fn join_args_empty() {
    assert_eq!(join_args(&[]), "");
}

fn args(list: &[&str]) -> Vec<String> {
    list.iter().map(|s| s.to_string()).collect()
}

#[test]
fn resume_tun_flag_detected_anywhere_in_argv() {
    assert!(has_resume_tun(&args(&["umbra.exe", RESUME_TUN_FLAG])));
    assert!(has_resume_tun(&args(&["umbra.exe", "--minimized", RESUME_TUN_FLAG])));
}

#[test]
fn resume_tun_flag_absent_or_partial_is_not_detected() {
    assert!(!has_resume_tun(&args(&["umbra.exe"])));
    assert!(!has_resume_tun(&args(&["umbra.exe", "--minimized"])));
    assert!(!has_resume_tun(&args(&["umbra.exe", "--resume-tun=1"])));
    assert!(!has_resume_tun(&args(&["umbra.exe", "resume-tun"])));
}

#[test]
fn resume_tun_flag_survives_the_command_line_round_trip() {
    assert_eq!(join_args(&[RESUME_TUN_FLAG]), RESUME_TUN_FLAG);
}

#[test]
fn elevation_codes_above_32_are_success() {
    assert!(elevation_result(33).is_ok());
    assert_eq!(
        elevation_result(5).unwrap_err().to_string(),
        "elevation request failed (ShellExecuteW code 5)"
    );
    assert_eq!(
        elevation_result(-2).unwrap_err().to_string(),
        "elevation request failed (ShellExecuteW code -2)"
    );
}

#[test]
fn proxy_server_value_formats_loopback() {
    assert_eq!(proxy_server_value(2080), "127.0.0.1:2080");
}

#[test]
fn bypass_list_covers_private_ranges() {
    let list = default_bypass_list();
    assert!(list.starts_with("localhost;127.*;10.*;172.16.*;"));
    assert!(list.ends_with(";192.168.*;<local>"));
    for n in 16..=31 {
        assert!(list.contains(&format!(";172.{n}.*;")));
    }
    assert!(!list.contains("172.15.*"));
    assert!(!list.contains("172.32.*"));
    assert_eq!(list.matches(';').count(), 20);
}

#[test]
fn a_second_take_over_keeps_the_users_backup() {
    let mut s = Settings::default();
    let user = ProxyBackup { enable: 1, server: Some("corp:8080".into()), bypass_list: None };
    take_proxy_ownership(&mut s, user.clone());
    assert!(s.proxy_owned);
    let ours = ProxyBackup { enable: 1, server: Some("127.0.0.1:2080".into()), bypass_list: None };
    take_proxy_ownership(&mut s, ours);
    assert_eq!(s.proxy_backup, user);
    release_proxy_ownership(&mut s);
    assert!(!s.proxy_owned);
    assert_eq!(s.proxy_backup, user);
}

#[test]
fn hash_is_stable_and_salted() {
    let a = hash_id("same-seed");
    let b = hash_id("same-seed");
    assert_eq!(a, b);
    assert_eq!(a.len(), 32);
    assert_ne!(a, "same-seed");
    assert_ne!(hash_id("other-seed"), a);
}

#[test]
fn fallback_is_reused_when_provided() {
    let id = hwid(None, Some("cafebabecafebabecafebabecafebabe"));
    assert_eq!(id.len(), 32);
    assert!(id.chars().all(|c| c.is_ascii_hexdigit()));
    assert_eq!(id, "cafebabecafebabecafebabecafebabe");
    assert_eq!(hwid(Some("guid"), Some("x")), hash_id("guid"));
    let fresh = hwid(None, Some(""));
    assert_eq!(fresh.len(), 32);
}

#[test]
fn hash_matches_the_salted_sha256_prefix() {
    let mut h = Sha256::new();
    h.update(b"umbra-hwid-v1");
    h.update(b"seed");
    let full: String = h.finalize().iter().map(|b| format!("{b:02x}")).collect();
    assert_eq!(hash_id("seed"), full[..32]);
}

#[test]
fn descriptors_are_non_empty() {
    assert!(!device_model(None, None).is_empty());
    assert!(!device_model(Some("ASUS"), Some("ROG STRIX")).is_empty());
    assert!(!device_os("windows").is_empty());
    assert!(!device_os("linux").is_empty());
    assert!(!os_version(None, None).is_empty());
    assert!(!os_version(Some("26100"), Some("Windows 10 Pro")).is_empty());
}

#[test]
fn device_descriptions_follow_the_registry_values() {
    assert_eq!(device_model(Some("ASUS"), Some("ROG STRIX B550-F")), "ASUS ROG STRIX B550-F");
    assert_eq!(device_model(Some("Lenovo"), Some("lenovo")), "lenovo");
    assert_eq!(device_model(Some("Dell"), None), "Dell");
    assert_eq!(device_model(None, None), "PC");
    assert_eq!(device_os("windows"), "Windows");
    assert_eq!(device_os("macos"), "macOS");
    assert_eq!(os_version(Some("26100"), Some("Windows 10 Pro")), "11 (26100)");
    assert_eq!(os_version(Some("19045"), None), "10 (19045)");
    assert_eq!(os_version(Some("x"), Some("Windows 10 Pro")), "Windows 10 Pro (x)");
    assert_eq!(os_version(None, None), "Windows");
}
