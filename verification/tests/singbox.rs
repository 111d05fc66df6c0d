use umbra::events::LogLine;
use umbra::singbox::clash_api::{base_url, delay_path};
use umbra::singbox::download::{
    apply_mirror, asset_version, digest_to_hex, is_core_entry, latest_compatible, release_from_tag,
    release_tag, update_available, GhAsset, GhRelease,
};
use umbra::singbox::process::{
    attempts_after_exit, backoff_secs, check_failure, crash_step, normalize_level, parse_log_line,
    ready_deadline, short_reason, tail_str, try_parse, LogBuffer, MAX_REASON_CHARS,
};
use umbra::singbox::version::{
    core_path, ensure_compatible_core, is_version_compatible, parse_version_line,
};

/// The clash-api readiness budget's floor and ceiling, in milliseconds.
const READY_BASE: u64 = 30_000;
const READY_MAX: u64 = 120_000;

#[test]
fn parses_singbox_timestamped_line() {
    let line = "+0300 2026-07-27 12:00:00 INFO [tag] inbound started";
    let l = parse_log_line(line);
    assert_eq!(l.level, "info");
    assert_eq!(l.message, "[tag] inbound started");
    let expected = chrono::DateTime::parse_from_rfc3339("2026-07-27T12:00:00+03:00")
        .unwrap()
        .timestamp_millis();
    assert_eq!(l.ts, expected);
}

#[test]
fn maps_fatal_and_warn_levels() {
    assert_eq!(parse_log_line("+0000 2026-01-01 00:00:00 FATAL boom").level, "error");
    assert_eq!(parse_log_line("+0000 2026-01-01 00:00:00 WARN careful").level, "warn");
    assert_eq!(parse_log_line("-0500 2026-01-01 00:00:00 DEBUG dbg").level, "debug");
}

#[test]
fn garbage_falls_back_to_info_with_raw_message() {
    let l = parse_log_line("something odd happened");
    assert_eq!(l.level, "info");
    assert_eq!(l.message, "something odd happened");
    assert!(l.ts > 0);
}

#[test]
fn bad_offset_or_level_falls_back() {
    let l = parse_log_line("0300 2026-07-27 12:00:00 INFO x");
    assert_eq!(l.message, "0300 2026-07-27 12:00:00 INFO x");
    let l = parse_log_line("+0300 2026-07-27 12:00:00 NOTALEVEL x");
    assert_eq!(l.level, "info");
    assert_eq!(l.message, "+0300 2026-07-27 12:00:00 NOTALEVEL x");
}

#[test]
fn message_keeps_its_spaces_and_may_be_missing() {
    let l = try_parse("+0100 2026-01-01 00:00:00 warning a  b c").unwrap();
    assert_eq!(l.level, "warn");
    assert_eq!(l.message, "a  b c");
    let l = try_parse("+0100 2026-01-01 00:00:00 panic").unwrap();
    assert_eq!(l.level, "error");
    assert_eq!(l.message, "");
    assert!(try_parse("+0100 2026-01-01 00:00:00").is_none());
    assert_eq!(normalize_level("TRACE").as_deref(), Some("trace"));
    assert!(normalize_level("notice").is_none());
}

#[test]
fn backoff_sequence_is_1_3_9_capped() {
    assert_eq!(backoff_secs(1), 1);
    assert_eq!(backoff_secs(2), 3);
    assert_eq!(backoff_secs(3), 9);
    assert_eq!(backoff_secs(4), 9);
}

fn line(i: usize) -> String {
    format!("m{i}")
}

#[test]
fn ring_caps_at_2000_keeping_newest() {
    let mut buf = LogBuffer::new();
    for i in 0..2100 {
        buf.push_now("info", line(i));
    }
    let tail = buf.tail(3000);
    assert_eq!(tail.len(), 2000);
    assert_eq!(tail[0].message, "m100");
    assert_eq!(tail.last().unwrap().message, "m2099");
}

#[test]
fn tail_returns_last_n_in_order() {
    let mut buf = LogBuffer::new();
    for i in 0..10 {
        buf.push_now("info", line(i));
    }
    let tail = buf.tail(3);
    assert_eq!(tail.iter().map(|l| l.message.as_str()).collect::<Vec<_>>(), vec!["m7", "m8", "m9"]);
}

#[test]
fn drain_pending_empties_but_keeps_ring() {
    let mut buf = LogBuffer::new();
    buf.push_now("info", "a".to_string());
    buf.push_now("warn", "b".to_string());
    let batch = buf.drain_pending();
    assert_eq!(batch.len(), 2);
    assert_eq!(batch[1].level, "warn");
    assert!(buf.drain_pending().is_empty());
    assert_eq!(buf.tail(10).len(), 2);
}

#[test]
fn clear_wipes_ring_and_pending() {
    let mut buf = LogBuffer::new();
    buf.push_now("info", "a".to_string());
    buf.clear();
    assert!(buf.tail(10).is_empty());
    assert!(buf.drain_pending().is_empty());
}

#[test]
fn unsent_batch_is_capped_too() {
    let mut buf = LogBuffer::new();
    for i in 0..2005 {
        buf.push(LogLine { ts: i as i64, level: "info".into(), message: line(i) });
    }
    let batch = buf.drain_pending();
    assert_eq!(batch.len(), 2000);
    assert_eq!(batch[0].message, "m5");
    assert_eq!(batch[1999].ts, 2004);
}

#[test]
fn tail_str_keeps_last_chars() {
    assert_eq!(tail_str("hello", 10), "hello");
    assert_eq!(tail_str("hello", 3), "llo");
    assert_eq!(tail_str("привет", 3), "вет");
}

#[test]
fn ready_deadline_starts_far_above_the_old_8s() {
    assert_eq!(ready_deadline(0), READY_BASE);
    assert!(ready_deadline(0) >= 30_000, "a single-server core must still get a generous budget");
}

#[test]
fn ready_deadline_scales_with_outbound_count() {
    assert_eq!(ready_deadline(57), READY_BASE + 250 * 57);
    assert!(ready_deadline(57) > ready_deadline(10));
    assert!(ready_deadline(10) > ready_deadline(0));
}

#[test]
fn ready_deadline_is_capped() {
    assert_eq!(ready_deadline(100_000), READY_MAX);
    assert_eq!(ready_deadline(usize::from(u16::MAX)), READY_MAX);
}

#[test]
fn short_reason_takes_the_first_meaningful_line() {
    let wall = "\n\n  FATAL[0000] decode config at generated.json: bad json  \nnext line\nand another";
    assert_eq!(short_reason(wall), "FATAL[0000] decode config at generated.json: bad json");
}

#[test]
fn short_reason_caps_length_with_an_ellipsis() {
    let long = "x".repeat(500);
    let out = short_reason(&long);
    assert_eq!(out.chars().count(), MAX_REASON_CHARS);
    assert!(out.ends_with('…'));
    assert!(!out.contains('\n'));
}

#[test]
fn short_reason_handles_empty_input() {
    assert_eq!(short_reason("   \n\n "), "no details available");
    assert_eq!(short_reason(""), "no details available");
}

#[test]
fn short_reason_is_char_safe_on_cyrillic() {
    let long = "п".repeat(400);
    let out = short_reason(&long);
    assert_eq!(out.chars().count(), MAX_REASON_CHARS);
}

#[test]
fn check_failure_logs_every_line_and_toasts_the_first() {
    let (logged, err) = check_failure("\n  FATAL bad json \n\n  at line 3 \n");
    assert_eq!(logged, vec!["[sing-box check] FATAL bad json".to_string(), "[sing-box check] at line 3".to_string()]);
    assert_eq!(err.code(), "CORE_START_FAILED");
    assert_eq!(err.to_string(), "sing-box failed to start: invalid config: FATAL bad json");
}

#[test]
fn crash_streak_restarts_three_times_then_gives_up() {
    let mut attempt = attempts_after_exit(2, 61_000);
    assert_eq!(attempt, 0);
    assert_eq!(attempts_after_exit(2, 59_999), 2);
    let mut delays = Vec::new();
    loop {
        let (next, info, delay) = crash_step(attempt, Some(1));
        attempt = next;
        assert_eq!(info.attempt, next);
        assert_eq!(info.will_restart, delay.is_some());
        match delay {
            Some(d) => delays.push(d),
            None => break,
        }
    }
    assert_eq!(delays, vec![1, 3, 9]);
    assert_eq!(attempt, 4);
}

// -- version ---------------------------------------------------------------

#[test]
fn parses_version_output() {
    let out = "sing-box version 1.11.9\n\nEnvironment: go1.23.4 windows/amd64\n";
    assert_eq!(parse_version_line(out).as_deref(), Some("1.11.9"));
}

#[test]
fn rejects_garbage_output() {
    assert!(parse_version_line("").is_none());
    assert!(parse_version_line("not sing-box").is_none());
    assert!(parse_version_line("sing-box version").is_none());
}

#[test]
fn core_path_is_under_bin() {
    let p = core_path("C:\\data");
    assert!(p.ends_with("bin\\sing-box.exe") || p.ends_with("bin/sing-box.exe"));
}

#[test]
fn only_1_13_cores_are_compatible() {
    assert!(is_version_compatible("1.13.14"));
    assert!(is_version_compatible(" v1.13 "));
    assert!(!is_version_compatible("1.12.9"));
    assert!(!is_version_compatible("1.130.0"));
    assert!(!is_version_compatible("garbage"));
    assert_eq!(ensure_compatible_core(false, None).unwrap_err().code(), "CORE_NOT_INSTALLED");
    assert_eq!(ensure_compatible_core(true, None).unwrap_err().code(), "CORE_START_FAILED");
    let err = ensure_compatible_core(true, Some("1.11.9".into())).unwrap_err();
    assert_eq!(
        err.to_string(),
        "unsupported format: installed sing-box version 1.11.9 is incompatible with Umbra (requires sing-box 1.13.x)"
    );
    assert_eq!(ensure_compatible_core(true, Some("1.13.2".into())).unwrap(), "1.13.2");
}

// -- download --------------------------------------------------------------

#[test]
fn asset_name_matching() {
    assert_eq!(asset_version("sing-box-1.11.9-windows-amd64.zip").as_deref(), Some("1.11.9"));
    assert_eq!(asset_version("sing-box-1.12.0-windows-amd64.zip").as_deref(), Some("1.12.0"));
    assert!(asset_version("sing-box-1.11.9-windows-amd64-legacy.zip").is_none());
    assert!(asset_version("sing-box-1.11.9-legacy-windows-7-amd64.zip").is_none());
    assert!(asset_version("sing-box-1.11.9-linux-amd64.zip").is_none());
    assert!(asset_version("sing-box-1.11.9-windows-arm64.zip").is_none());
    assert!(asset_version("sing-box-1.11-windows-amd64.zip").is_none());
    assert!(asset_version("sing-box-1.11.9.1-windows-amd64.zip").is_none());
    assert!(asset_version("sing-box-1.11.x-windows-amd64.zip").is_none());
}

#[test]
fn digest_parsing() {
    let hex = "a".repeat(64);
    assert_eq!(digest_to_hex(&format!("sha256:{hex}")).as_deref(), Some(hex.as_str()));
    let upper = "A".repeat(64);
    assert_eq!(digest_to_hex(&format!("sha256:{upper}")).unwrap(), hex);
    assert!(digest_to_hex("sha256:abcd").is_none());
    assert!(digest_to_hex("md5:abcd").is_none());
    assert!(digest_to_hex(&"z".repeat(64)).is_none());
}

#[test]
fn mirror_prefixing() {
    let url = "https://github.com/SagerNet/sing-box/releases/download/v1.11.9/sing-box-1.11.9-windows-amd64.zip";
    assert_eq!(apply_mirror("", url), url);
    assert_eq!(apply_mirror("   ", url), url);
    assert_eq!(apply_mirror("https://gh-proxy.com/", url), format!("https://gh-proxy.com/{url}"));
    assert_eq!(apply_mirror("https://gh-proxy.com", url), format!("https://gh-proxy.com/{url}"));
}

#[test]
fn update_compare() {
    assert!(update_available(None, "1.11.9"));
    assert!(update_available(Some("1.11.8"), "1.11.9"));
    assert!(update_available(Some("1.9.9"), "1.11.0"));
    assert!(!update_available(Some("1.11.9"), "1.11.9"));
    assert!(!update_available(Some("1.12.0"), "1.11.9"));
    assert!(update_available(Some("weird"), "1.11.9"));
    assert!(!update_available(Some("weird"), "weird"));
}

#[test]
fn core_entry_names() {
    assert!(is_core_entry("sing-box.exe"));
    assert!(is_core_entry("sing-box-1.11.9-windows-amd64/sing-box.exe"));
    assert!(is_core_entry("sing-box-1.11.9-windows-amd64\\sing-box.exe"));
    assert!(!is_core_entry("bin/sing-box.exe.sig"));
    assert!(!is_core_entry("LICENSE"));
}

fn asset(name: &str) -> GhAsset {
    GhAsset {
        name: name.into(),
        browser_download_url: format!("https://example.com/{name}"),
        size: 7,
        digest: Some(format!("sha256:{}", "B".repeat(64))),
    }
}

#[test]
fn the_newest_compatible_release_is_chosen() {
    let releases = vec![
        GhRelease { assets: vec![asset("sing-box-1.14.0-windows-amd64.zip")] },
        GhRelease { assets: vec![asset("notes.txt"), asset("sing-box-1.13.5-windows-amd64.zip")] },
        GhRelease { assets: vec![asset("sing-box-1.13.4-windows-amd64.zip")] },
    ];
    let info = latest_compatible(&releases).unwrap();
    assert_eq!(info.version, "1.13.5");
    assert_eq!(info.url, "https://example.com/sing-box-1.13.5-windows-amd64.zip");
    assert_eq!(info.size, 7);
    assert_eq!(info.sha256.as_deref(), Some("b".repeat(64).as_str()));
    let err = latest_compatible(&vec![GhRelease { assets: vec![asset("x.zip")] }]).unwrap_err();
    assert_eq!(err.code(), "NOT_FOUND");
    let err = release_from_tag(&GhRelease { assets: vec![asset("x.zip")] }).unwrap_err();
    assert_eq!(err.to_string(), "not found: windows-amd64 asset in sing-box release");
}

#[test]
fn requested_versions_become_tags() {
    assert_eq!(release_tag(Some(" 1.13.5 ")).as_deref(), Some("v1.13.5"));
    assert_eq!(release_tag(Some("v1.13.5")).as_deref(), Some("v1.13.5"));
    assert!(release_tag(Some("  ")).is_none());
    assert!(release_tag(None).is_none());
}

// -- clash api -------------------------------------------------------------

#[test]
fn delay_path_urlencodes_tag() {
    assert_eq!(delay_path(9095, "My Server (2)"), "http://127.0.0.1:9095/proxies/My%20Server%20%282%29/delay");
}

#[test]
fn delay_path_passes_plain_tags_through() {
    assert_eq!(delay_path(9100, "server1"), "http://127.0.0.1:9100/proxies/server1/delay");
    assert_eq!(base_url(9100), "http://127.0.0.1:9100");
}

// -- control api probing, startup exits and downloads -------------------------

use umbra::singbox::download::{check_download, progress_due, verify_digest, PROGRESS_STEP};
use umbra::singbox::process::{probe_step, startup_exit_error, ClashNote};

#[test]
fn clash_api_probes_log_transitions_and_one_late_warning() {
    assert_eq!(probe_step(false, true, true, true), (false, ClashNote::Ready));
    assert_eq!(probe_step(true, false, false, true), (false, ClashNote::Lost));
    assert_eq!(probe_step(false, false, false, false), (false, ClashNote::Quiet));
    assert_eq!(probe_step(false, false, false, true), (true, ClashNote::StillUnreachable));
    assert_eq!(probe_step(false, false, true, true), (true, ClashNote::Quiet));
    assert_eq!(probe_step(true, true, true, true), (true, ClashNote::Quiet));
}

#[test]
fn startup_exits_name_the_code() {
    assert_eq!(
        startup_exit_error(Some(-1)).to_string(),
        "sing-box failed to start: the core exited immediately (code -1) — see Logs for details"
    );
    assert_eq!(startup_exit_error(None).code(), "CORE_START_FAILED");
}

#[test]
fn downloads_are_checked_against_the_published_digest() {
    let empty_sha = "e3b0c44298fc1c149afbf4c8996fb92427ae41e4649b934ca495991b7852b855";
    assert!(check_download(Some(empty_sha), b"").is_ok());
    assert!(check_download(None, b"anything").is_ok());
    let err = check_download(Some("00"), b"").unwrap_err();
    assert_eq!(err.code(), "INTERNAL");
    assert!(err.to_string().contains(&format!("got {empty_sha}")));
    assert!(verify_digest(Some("0aff"), &vec![0x0a, 0xff]).is_ok());
    assert!(verify_digest(Some("0AFF"), &vec![0x0a, 0xff]).is_err());
}

#[test]
fn progress_is_reported_every_step() {
    assert!(!progress_due(PROGRESS_STEP - 1, 0));
    assert!(progress_due(PROGRESS_STEP, 0));
    assert!(progress_due(3 * PROGRESS_STEP, 2 * PROGRESS_STEP));
}

#[test]
fn core_path_joins_the_data_dir_with_bin() {
    let p = core_path("/data");
    assert!(p == "/data/bin/sing-box.exe" || p == "/data\\bin\\sing-box.exe", "{p}");
    let q = core_path("/data/");
    assert!(q == "/data/bin/sing-box.exe" || q == "/data/bin\\sing-box.exe", "{q}");
    let r = core_path("");
    assert!(r == "bin/sing-box.exe" || r == "bin\\sing-box.exe", "{r}");
}

#[test]
fn pushes_keep_the_newest_lines_in_order() {
    let mut buf = LogBuffer::new();
    for i in 0..2005 {
        buf.push_now("info", line(i));
    }
    let all = buf.tail(usize::MAX);
    assert_eq!(all.len(), 2000);
    for (k, l) in all.iter().enumerate() {
        assert_eq!(l.message, line(k + 5));
    }
    let batch = buf.drain_pending();
    assert_eq!(batch.len(), 2000);
    assert_eq!(batch[0].message, "m5");
}
