use umbra::models::{Hysteria2Node, Hysteria2Obfs, ProxyKind, ProxyNode, Security, Transport, VlessNode};
use umbra::parser::hysteria2::{hysteria2_from_url, parse_hysteria2, Hysteria2Parser};
use umbra::parser::v2ray_json::{
    build_canonical_hysteria2_uri, build_canonical_vless_uri, is_info_entry, parse_v2ray_json_text,
};
use umbra::parser::vless::{parse_vless, vless_from_url_parts, VlessParser};
use umbra::url_text::UrlParts;
use umbra::parser::{parse_any, parse_links, LinkParser};

fn vless_of(s: &ProxyNode) -> &VlessNode {
    match &s.kind {
        ProxyKind::Vless(v) => v,
        _ => panic!("not vless"),
    }
}

fn hy2_of(s: &ProxyNode) -> &Hysteria2Node {
    match &s.kind {
        ProxyKind::Hysteria2(h) => h,
        _ => panic!("not hysteria2"),
    }
}

/// Imports a V2Ray JSON array given as text.
fn import(text: &str) -> (Vec<ProxyNode>, Vec<String>) {
    parse_v2ray_json_text(text)
}

// ---------------------------------------------------------------------------
// Bulk import
// ---------------------------------------------------------------------------

#[test]
fn parse_links_dedupes_and_collects_errors() {
    let text = "vless://u1@h.com:443?security=none#a\n\
                vless://u1@h.com:443?security=none#a\n\
                vmess://whatever\n\
                just-some-words";
    let (servers, errors) = parse_links(text);
    assert_eq!(servers.len(), 1);
    assert_eq!(errors.len(), 1);
    assert!(errors[0].contains("vmess"));
}

#[test]
fn parse_links_strips_bom() {
    let (servers, errors) = parse_links("\u{feff}vless://u1@h.com:443?security=none#a");
    assert_eq!(servers.len(), 1);
    assert!(errors.is_empty());
}

#[test]
fn mixed_batch_imports_good_links_and_names_the_skipped() {
    let text = "\
vless://u1@a.com:443?security=reality&pbk=k1&type=tcp&flow=xtls-rprx-vision#DE-1\n\
vless://u1@b.com:443?security=reality&pbk=k2&type=grpc&serviceName=svc#NL-2\n\
vless://u1@c.com:443?security=reality&pbk=k3&type=xhttp&path=%2Fx#%D0%A4%D0%B8%D0%BD%D0%BB%D1%8F%D0%BD%D0%B4%D0%B8%D1%8F\n\
vless://u1@d.com:443?security=reality&pbk=k4&type=tcp#US-3\n\
vless://u1@e.com:443?security=reality&pbk=k5&type=xhttp#Japan\n";
    let (servers, errors) = parse_links(text);

    let names: Vec<&str> = servers.iter().map(|s| s.name.as_str()).collect();
    assert_eq!(names, ["DE-1", "NL-2", "US-3"]);
    assert_eq!(errors.len(), 2);

    let fin = errors.iter().find(|e| e.starts_with("Финляндия")).unwrap();
    assert!(fin.contains("xhttp"), "{fin}");
    assert!(errors.iter().any(|e| e.starts_with("Japan:")));
    assert!(errors.iter().all(|e| !e.contains("vless://")), "{errors:?}");
}

#[test]
fn error_label_falls_back_to_link_without_remark() {
    let (servers, errors) = parse_links("vless://u1@h.com:443?security=tls&type=xhttp");
    assert!(servers.is_empty());
    assert_eq!(errors.len(), 1);
    assert!(errors[0].starts_with("vless://u1@h.com"), "{}", errors[0]);
}

#[test]
fn parse_any_rejects_unknown_scheme() {
    let err = parse_any("ss://abc@h:1").unwrap_err();
    assert_eq!(err.code(), "UNSUPPORTED_FORMAT");
}

#[test]
fn parse_links_gives_each_imported_server_a_distinct_link() {
    let text = "vless://u1@a.com:443?security=none#a vless://u1@a.com:443?security=none#a \
                vless://u1@b.com:443?security=none#b";
    let (servers, _) = parse_links(text);
    assert_eq!(servers.len(), 2);
    assert_ne!(servers[0].raw, servers[1].raw);
    assert_ne!(servers[0].id, servers[1].id);
}

// ---------------------------------------------------------------------------
// VLESS links
// ---------------------------------------------------------------------------

#[test]
fn reality_vision_tcp_with_cyrillic_remark() {
    let uri = "vless://b831381d-6324-4d53-ad4f-8cda48b30811@example.com:443?security=reality&sni=yahoo.com&fp=firefox&pbk=SbVKOEMjK0sIlbwg4akyBg5mL5KZwwB-ed4eEE7YnRc&sid=6ba85179&flow=xtls-rprx-vision&type=tcp#%D0%9C%D0%BE%D1%81%D0%BA%D0%B2%D0%B0%20%F0%9F%9A%80";
    let s = parse_vless(uri).unwrap();
    assert_eq!(s.name, "Москва 🚀");
    let v = vless_of(&s);
    assert_eq!(v.uuid, "b831381d-6324-4d53-ad4f-8cda48b30811");
    assert_eq!(s.server, "example.com");
    assert_eq!(s.port, 443);
    assert_eq!(v.security, Security::Reality);
    assert_eq!(v.sni, "yahoo.com");
    assert_eq!(v.fingerprint, "firefox");
    assert_eq!(v.public_key, "SbVKOEMjK0sIlbwg4akyBg5mL5KZwwB-ed4eEE7YnRc");
    assert_eq!(v.short_id, "6ba85179");
    assert_eq!(v.flow, "xtls-rprx-vision");
    assert_eq!(v.transport, Transport::Tcp);
    assert!(v.alpn.is_empty());
    assert_eq!(s.raw, uri);
}

#[test]
fn ws_tls_with_encoded_path_and_ed() {
    let uri = "vless://u1@host.com:8443?security=tls&type=ws&path=%2Fchat%3Fed%3D2048&host=cdn.example.org&alpn=h2,http/1.1&allowInsecure=1";
    let s = parse_vless(uri).unwrap();
    let v = vless_of(&s);
    assert_eq!(v.security, Security::Tls);
    assert_eq!(
        v.transport,
        Transport::Ws { path: "/chat".into(), host: "cdn.example.org".into() }
    );
    assert_eq!(v.sni, "cdn.example.org");
    assert_eq!(v.alpn, vec!["h2".to_string(), "http/1.1".to_string()]);
    assert!(v.insecure);
    assert_eq!(s.name, "host.com:8443");
}

#[test]
fn grpc_with_service_name() {
    let uri = "vless://u1@h.com:2053?security=tls&type=grpc&serviceName=my%2Fgrpc&sni=cdn.com";
    let s = parse_vless(uri).unwrap();
    let v = vless_of(&s);
    assert_eq!(v.transport, Transport::Grpc { service_name: "my/grpc".into() });
    assert_eq!(v.sni, "cdn.com");
}

#[test]
fn ipv6_host_brackets_stripped() {
    let uri = "vless://u1@[2001:db8::1]:443#v6";
    let s = parse_vless(uri).unwrap();
    assert_eq!(s.server, "2001:db8::1");
    assert_eq!(s.port, 443);
    let v = vless_of(&s);
    assert_eq!(v.security, Security::Plain);
    assert_eq!(v.sni, "");
    assert_eq!(s.name, "v6");
}

#[test]
fn missing_port_is_parse_error() {
    let err = parse_vless("vless://u1@host.com?security=tls&type=tcp").unwrap_err();
    assert_eq!(err.code(), "PARSE_ERROR");
    assert!(err.to_string().contains("port"));
}

#[test]
fn header_type_http_is_unsupported() {
    let err = parse_vless("vless://u1@host.com:80?type=tcp&headerType=http").unwrap_err();
    assert_eq!(err.code(), "UNSUPPORTED_FORMAT");
    assert!(err.to_string().contains("headerType"));
}

#[test]
fn alpn_dropped_for_reality() {
    let uri = "vless://u1@h.com:443?security=reality&pbk=xyz&alpn=h2%2Chttp%2F1.1&type=tcp";
    let s = parse_vless(uri).unwrap();
    assert!(vless_of(&s).alpn.is_empty());
}

#[test]
fn flow_dropped_for_ws() {
    let uri = "vless://u1@h.com:443?security=tls&type=ws&flow=xtls-rprx-vision&path=/x";
    let s = parse_vless(uri).unwrap();
    let v = vless_of(&s);
    assert_eq!(v.flow, "");
    assert_eq!(v.transport, Transport::Ws { path: "/x".into(), host: String::new() });
}

#[test]
fn reality_missing_pbk_is_parse_error() {
    let err = parse_vless("vless://u1@h.com:443?security=reality&type=tcp").unwrap_err();
    assert_eq!(err.code(), "PARSE_ERROR");
    assert!(err.to_string().contains("pbk"));
}

#[test]
fn pbk_verbatim_plus_kept_and_fp_defaults_to_chrome() {
    let uri = "vless://u1@h.com:443?security=reality&pbk=abc+def%2F&type=tcp";
    let s = parse_vless(uri).unwrap();
    let v = vless_of(&s);
    assert_eq!(v.public_key, "abc+def%2F");
    assert_eq!(v.fingerprint, "chrome");
}

#[test]
fn xhttp_is_unsupported_and_never_becomes_tcp() {
    let uri = "vless://u1@h.com:443?security=reality&pbk=abc&type=xhttp&path=%2Fyz&host=cdn.com&mode=auto#Amsterdam";
    let err = parse_vless(uri).unwrap_err();
    assert_eq!(err.code(), "UNSUPPORTED_FORMAT");
    let msg = err.to_string();
    assert!(msg.contains("xhttp"), "{msg}");
    assert!(msg.contains("sing-box"), "{msg}");
}

#[test]
fn splithttp_alias_is_unsupported() {
    let err = parse_vless("vless://u1@h.com:443?security=tls&type=splithttp#X").unwrap_err();
    assert_eq!(err.code(), "UNSUPPORTED_FORMAT");
    assert!(err.to_string().contains("sing-box"));
}

#[test]
fn unknown_transports_are_rejected_not_silently_tcp() {
    for ty in ["XHTTP", "garbage", "h2", "http", "quic", "kcp"] {
        let uri = format!("vless://u1@h.com:443?security=tls&type={ty}#N");
        let err = parse_vless(&uri)
            .map(|s| s.kind)
            .expect_err(&format!("type={ty} must not parse"));
        assert_eq!(err.code(), "UNSUPPORTED_FORMAT", "type={ty}");
        assert!(err.to_string().contains(&ty.to_ascii_lowercase()), "{}", err.to_string());
    }
}

#[test]
fn transport_type_matching_is_case_insensitive() {
    let s = parse_vless("vless://u1@h.com:443?security=tls&type=WS&path=/x").unwrap();
    assert_eq!(vless_of(&s).transport, Transport::Ws { path: "/x".into(), host: String::new() });
}

#[test]
fn sni_falls_back_to_server_domain_but_not_ip() {
    let s = parse_vless("vless://u1@example.org:443?security=tls").unwrap();
    assert_eq!(vless_of(&s).sni, "example.org");
    let s = parse_vless("vless://u1@1.2.3.4:443?security=tls").unwrap();
    assert_eq!(vless_of(&s).sni, "");
}

#[test]
fn unknown_security_is_unsupported() {
    let err = parse_vless("vless://u1@h.com:443?security=xtls").unwrap_err();
    assert_eq!(err.code(), "UNSUPPORTED_FORMAT");
    assert!(err.to_string().contains("security \"xtls\""));
}

// ---------------------------------------------------------------------------
// Hysteria2 links
// ---------------------------------------------------------------------------

#[test]
fn parse_valid_hysteria2_with_salamander_obfs() {
    let uri = "hysteria2://my_pass@hy2.example.com:8443?sni=sni.example.com&insecure=1&obfs=salamander&obfs-password=obfs_pass#My%20Server";
    let node = parse_hysteria2(uri).unwrap();
    assert_eq!(node.name, "My Server");
    assert_eq!(node.server, "hy2.example.com");
    assert_eq!(node.port, 8443);
    let h = hy2_of(&node);
    assert_eq!(h.password, "my_pass");
    assert_eq!(h.sni, "sni.example.com");
    assert!(h.insecure);
    assert_eq!(h.obfs, Some(Hysteria2Obfs::Salamander { password: "obfs_pass".into() }));
}

#[test]
fn parse_hy2_alias_and_default_port_443() {
    let uri = "hy2://secret@example.org/?alpn=h3,h2#Test";
    let node = parse_hysteria2(uri).unwrap();
    assert_eq!(node.server, "example.org");
    assert_eq!(node.port, 443);
    assert_eq!(node.name, "Test");
    let h = hy2_of(&node);
    assert_eq!(h.password, "secret");
    assert_eq!(h.sni, "example.org");
    assert_eq!(h.alpn, vec!["h3", "h2"]);
    assert!(h.obfs.is_none());
}

#[test]
fn reject_multi_port() {
    let err = parse_hysteria2("hy2://pass@example.com:443-445#Test").unwrap_err();
    assert_eq!(err.code(), "UNSUPPORTED_FORMAT");
    assert!(err.to_string().contains("multi-port"));
}

#[test]
fn reject_pin_sha256() {
    let err = parse_hysteria2("hy2://pass@example.com:443?pinSHA256=abcdef#Test").unwrap_err();
    assert_eq!(err.code(), "UNSUPPORTED_FORMAT");
    assert!(err.to_string().contains("pinSHA256"));
}

#[test]
fn reject_ech() {
    let err = parse_hysteria2("hy2://pass@example.com:443?ech=1#Test").unwrap_err();
    assert_eq!(err.code(), "UNSUPPORTED_FORMAT");
    assert!(err.to_string().contains("ech"));
}

#[test]
fn reject_unknown_obfs() {
    let err = parse_hysteria2("hy2://pass@example.com:443?obfs=shadowsocks#Test").unwrap_err();
    assert_eq!(err.code(), "UNSUPPORTED_FORMAT");
    assert!(err.to_string().contains("shadowsocks"));
}

// ---------------------------------------------------------------------------
// V2Ray JSON arrays
// ---------------------------------------------------------------------------

#[test]
fn test_1_vless_tcp_reality() {
    let (servers, errors) = import(
        r#"[{"remarks": "NL-1 TCP", "outbounds": [{"tag": "proxy", "protocol": "vless",
            "settings": {"vnext": [{"address": "nl1.example.com", "port": 443,
              "users": [{"id": "11111111-2222-3333-4444-555555555555", "encryption": "none",
                         "flow": "xtls-rprx-vision"}]}]},
            "streamSettings": {"network": "tcp", "security": "reality",
              "realitySettings": {"serverName": "nl1.example.com", "publicKey": "pk-test-key",
                                  "shortId": "sid123", "fingerprint": "firefox"}}}]}]"#,
    );
    assert!(errors.is_empty(), "{errors:?}");
    assert_eq!(servers.len(), 1);
    let s = &servers[0];
    assert_eq!(s.name, "NL-1 TCP");
    assert_eq!(s.server, "nl1.example.com");
    assert_eq!(s.port, 443);
    let v = vless_of(s);
    assert_eq!(v.uuid, "11111111-2222-3333-4444-555555555555");
    assert_eq!(v.flow, "xtls-rprx-vision");
    assert_eq!(v.security, Security::Reality);
    assert_eq!(v.sni, "nl1.example.com");
    assert_eq!(v.public_key, "pk-test-key");
    assert_eq!(v.short_id, "sid123");
    assert_eq!(v.fingerprint, "firefox");
    assert_eq!(v.transport, Transport::Tcp);
}

#[test]
fn test_2_vless_grpc_reality() {
    let (servers, errors) = import(
        r#"[{"remarks": "SE-2 GRPC", "outbounds": [{"tag": "proxy", "protocol": "vless",
            "settings": {"vnext": [{"address": "se2.example.com", "port": 7443,
              "users": [{"id": "22222222-2222-3333-4444-555555555555", "encryption": "none",
                         "flow": ""}]}]},
            "streamSettings": {"network": "grpc",
              "grpcSettings": {"serviceName": "test-grpc-svc", "authority": "se2.example.com"},
              "security": "reality",
              "realitySettings": {"serverName": "se2.example.com", "publicKey": "pk-grpc-key",
                                  "shortId": "sid456", "fingerprint": "chrome"}}}]}]"#,
    );
    assert!(errors.is_empty(), "{errors:?}");
    assert_eq!(servers.len(), 1);
    let s = &servers[0];
    assert_eq!(s.name, "SE-2 GRPC");
    assert_eq!(s.server, "se2.example.com");
    assert_eq!(s.port, 7443);
    let v = vless_of(s);
    assert_eq!(v.uuid, "22222222-2222-3333-4444-555555555555");
    assert_eq!(v.flow, "");
    assert_eq!(v.security, Security::Reality);
    assert_eq!(v.public_key, "pk-grpc-key");
    assert_eq!(v.transport, Transport::Grpc { service_name: "test-grpc-svc".to_string() });
}

#[test]
fn test_3_hysteria_2() {
    let (servers, errors) = import(
        r#"[{"remarks": "Games Hysteria", "outbounds": [{"tag": "proxy", "protocol": "hysteria",
            "settings": {"address": "hy.example.com", "port": 6443, "version": 2},
            "streamSettings": {"network": "hysteria",
              "hysteriaSettings": {"version": 2, "auth": "secret-pass"},
              "security": "tls",
              "tlsSettings": {"serverName": "hy.example.com", "alpn": ["h3"]}}}]}]"#,
    );
    assert!(errors.is_empty(), "{errors:?}");
    assert_eq!(servers.len(), 1);
    let s = &servers[0];
    assert_eq!(s.name, "Games Hysteria");
    assert_eq!(s.server, "hy.example.com");
    assert_eq!(s.port, 6443);
    let h = hy2_of(s);
    assert_eq!(h.password, "secret-pass");
    assert_eq!(h.sni, "hy.example.com");
    assert_eq!(h.alpn, vec!["h3"]);
}

#[test]
fn test_4_xhttp_skipped() {
    let (servers, errors) = import(
        r#"[{"remarks": "Skipped-XHTTP", "outbounds": [{"tag": "proxy", "protocol": "vless",
            "settings": {"vnext": [{"address": "xhttp.example.com", "port": 23443,
              "users": [{"id": "u1", "flow": ""}]}]},
            "streamSettings": {"network": "xhttp", "security": "reality",
              "realitySettings": {"publicKey": "pk", "serverName": "xhttp.example.com"}}}]},
           {"remarks": "Good-TCP", "outbounds": [{"tag": "proxy", "protocol": "vless",
            "settings": {"vnext": [{"address": "tcp.example.com", "port": 443,
              "users": [{"id": "u2", "flow": ""}]}]},
            "streamSettings": {"network": "tcp", "security": "reality",
              "realitySettings": {"publicKey": "pk2", "serverName": "tcp.example.com"}}}]}]"#,
    );
    assert_eq!(servers.len(), 1);
    assert_eq!(servers[0].name, "Good-TCP");
    assert_eq!(errors.len(), 1);
    assert!(errors[0].contains("xhttp"));
}

#[test]
fn test_5_fallback_when_proxy_tag_absent() {
    let (servers, errors) = import(
        r#"[{"remarks": "Fallback-Server", "outbounds": [{"tag": "custom-vless-tag",
            "protocol": "vless",
            "settings": {"vnext": [{"address": "fallback.example.com", "port": 443,
              "users": [{"id": "u1", "flow": ""}]}]},
            "streamSettings": {"network": "tcp", "security": "none"}}]}]"#,
    );
    assert!(errors.is_empty(), "{errors:?}");
    assert_eq!(servers.len(), 1);
    assert_eq!(servers[0].server, "fallback.example.com");
}

#[test]
fn test_6_direct_first_not_imported() {
    let (servers, errors) = import(
        r#"[{"remarks": "Direct-First", "outbounds": [
            {"tag": "direct", "protocol": "freedom"},
            {"tag": "block", "protocol": "blackhole"},
            {"tag": "real-proxy", "protocol": "vless",
             "settings": {"vnext": [{"address": "real.example.com", "port": 443,
               "users": [{"id": "u1", "flow": ""}]}]},
             "streamSettings": {"network": "tcp", "security": "none"}}]}]"#,
    );
    assert!(errors.is_empty(), "{errors:?}");
    assert_eq!(servers.len(), 1);
    assert_eq!(servers[0].server, "real.example.com");
}

#[test]
fn test_7_info_entry_skipped() {
    let (servers, _errors) = import(
        r#"[{"remarks": "⌛️Дней осталось: 19", "outbounds": [{"tag": "proxy", "protocol": "vless",
            "settings": {"vnext": [{"address": "sub1.example.com", "port": 10443,
              "users": [{"id": "u1", "flow": ""}]}]}}]},
           {"remarks": "✉️Наш TG: @proxire Новости и Поддержка", "outbounds": [{"tag": "proxy",
            "protocol": "vless",
            "settings": {"vnext": [{"address": "sub2.example.com", "port": 10443,
              "users": [{"id": "u2", "flow": ""}]}]}}]}]"#,
    );
    assert!(servers.is_empty(), "info entries must not become VPN nodes");
}

#[test]
fn test_8_repeated_import_deduplicates() {
    let item = r#"{"remarks": "Server-1", "outbounds": [{"tag": "proxy", "protocol": "vless",
        "settings": {"vnext": [{"address": "srv1.example.com", "port": 443,
          "users": [{"id": "u1", "flow": ""}]}]},
        "streamSettings": {"network": "tcp", "security": "none"}}]}"#;
    let (servers, _) = import(&format!("[{item}, {item}]"));
    assert_eq!(servers.len(), 1, "identical raw links in same batch must be deduplicated");
}

#[test]
fn test_canonical_vless_and_hy2_uri_roundtrip() {
    let vless_node = VlessNode {
        uuid: "11111111-2222-3333-4444-555555555555".into(),
        flow: "xtls-rprx-vision".into(),
        security: Security::Reality,
        sni: "nl.example.com".into(),
        fingerprint: "chrome".into(),
        public_key: "test_pbk_123".into(),
        short_id: "abcd12".into(),
        insecure: false,
        alpn: vec![],
        transport: Transport::Tcp,
    };
    let uri = build_canonical_vless_uri("nl.example.com", 443, "NL-1", &vless_node);
    let entry = VlessParser.parse(&uri).expect("canonical vless URI should parse");
    assert_eq!(entry.server, "nl.example.com");
    assert_eq!(entry.port, 443);
    assert_eq!(entry.name, "NL-1");
    let v = vless_of(&entry);
    assert_eq!(v.uuid, vless_node.uuid);
    assert_eq!(v.public_key, vless_node.public_key);

    let hy2_node = Hysteria2Node {
        password: "mypassword".into(),
        obfs: Some(Hysteria2Obfs::Salamander { password: "obfspass".into() }),
        insecure: false,
        sni: "hy.example.com".into(),
        alpn: vec!["h3".into()],
    };
    let uri_hy2 = build_canonical_hysteria2_uri("hy.example.com", 6443, "Hy-1", &hy2_node);
    let entry_hy2 = Hysteria2Parser.parse(&uri_hy2).expect("canonical hy2 URI should parse");
    assert_eq!(entry_hy2.server, "hy.example.com");
    assert_eq!(entry_hy2.port, 6443);
    assert_eq!(entry_hy2.name, "Hy-1");
    let h = hy2_of(&entry_hy2);
    assert_eq!(h.password, hy2_node.password);
    assert_eq!(h.sni, hy2_node.sni);
}

#[test]
fn test_ipv6_canonical_uri_formatting() {
    let vless_node = VlessNode {
        uuid: "11111111-2222-3333-4444-555555555555".into(),
        flow: "".into(),
        security: Security::Plain,
        sni: "".into(),
        fingerprint: "".into(),
        public_key: "".into(),
        short_id: "".into(),
        insecure: false,
        alpn: vec![],
        transport: Transport::Tcp,
    };
    let uri = build_canonical_vless_uri("2001:db8::1", 443, "IPv6 Node", &vless_node);
    assert!(uri.contains("@[2001:db8::1]:443"));
    let parsed = VlessParser.parse(&uri).expect("IPv6 URI must be valid");
    assert_eq!(parsed.server, "2001:db8::1");
}

#[test]
fn test_info_entry_handle_delimitation() {
    assert!(!is_info_entry("NL - 10G@ams", "1.2.3.4", 443));
    assert!(!is_info_entry("user@domain.com node", "1.2.3.4", 443));
    assert!(is_info_entry("@proxire_support News", "1.2.3.4", 443));
    assert!(is_info_entry("Support: @my_vpn_bot", "1.2.3.4", 443));
    assert!(is_info_entry("Join (@my_channel)", "1.2.3.4", 443));
}

#[test]
fn test_string_port_and_short_ids_array() {
    let (servers, errors) = import(
        r#"[{"remarks": "String Port Node", "outbounds": [{"tag": "proxy", "protocol": "vless",
            "settings": {"vnext": [{"address": "strport.example.com", "port": "8443",
              "users": [{"id": "u1", "flow": ""}]}]},
            "streamSettings": {"network": "tcp", "security": "reality",
              "realitySettings": {"publicKey": "pk-str", "serverName": "strport.example.com",
                                  "shortIds": ["sid_from_array"]}}}]}]"#,
    );
    assert!(errors.is_empty(), "{errors:?}");
    assert_eq!(servers.len(), 1);
    assert_eq!(servers[0].port, 8443);
    assert_eq!(vless_of(&servers[0]).short_id, "sid_from_array");
}

#[test]
fn canonical_vless_link_spells_out_every_field() {
    let node = VlessNode {
        uuid: "u".into(),
        flow: "xtls-rprx-vision".into(),
        security: Security::Tls,
        sni: "a b".into(),
        fingerprint: "chrome".into(),
        public_key: String::new(),
        short_id: String::new(),
        insecure: true,
        alpn: vec!["h2".into(), "http/1.1".into()],
        transport: Transport::Ws { path: "/p".into(), host: "h.com".into() },
    };
    let uri = build_canonical_vless_uri("s.com", 8443, "My Node", &node);
    assert_eq!(
        uri,
        "vless://u@s.com:8443?type=ws&path=%2Fp&host=h%2Ecom&security=tls&sni=a%20b&fp=chrome&insecure=1&alpn=h2,http/1.1&flow=xtls-rprx-vision#My%20Node"
    );
}

#[test]
fn canonical_hysteria2_link_omits_sni_equal_to_server() {
    let node = Hysteria2Node {
        password: "p@ss".into(),
        obfs: None,
        insecure: false,
        sni: "hy.com".into(),
        alpn: vec![],
    };
    assert_eq!(
        build_canonical_hysteria2_uri("hy.com", 443, "", &node),
        "hysteria2://p%40ss@hy.com:443"
    );
}

#[test]
fn json_parse_failure_is_one_error_line() {
    let (servers, errors) = import("{ not json");
    assert!(servers.is_empty());
    assert_eq!(errors.len(), 1);
    assert!(errors[0].starts_with("failed to parse V2Ray JSON: "));
}

#[test]
fn missing_outbounds_and_unusable_outbounds_are_reported() {
    let (servers, errors) = import(
        r#"[{"remarks": "A"}, {"remarks": "B", "outbounds": [{"tag": "direct", "protocol": "freedom"}]}]"#,
    );
    assert!(servers.is_empty());
    assert_eq!(errors, vec![
        "A: missing outbounds array".to_string(),
        "B: no compatible proxy outbound found".to_string(),
    ]);
}

#[test]
fn imported_json_server_carries_its_canonical_link() {
    let (servers, _) = import(
        r#"[{"remarks": "X", "outbounds": [{"protocol": "vless",
            "settings": {"address": "[2001:db8::5]", "port": 443, "id": "u1"}}]}]"#,
    );
    assert_eq!(servers.len(), 1);
    assert_eq!(servers[0].server, "2001:db8::5");
    assert_eq!(servers[0].raw, "vless://u1@[2001:db8::5]:443?type=tcp&security=none#X");
}

#[test]
fn a_bad_element_leaves_the_others_as_they_are() {
    let good_a = r#"{"remarks": "A", "outbounds": [{"tag": "proxy", "protocol": "vless",
        "settings": {"vnext": [{"address": "a.example.com", "port": 443,
          "users": [{"id": "u1", "flow": ""}]}]},
        "streamSettings": {"network": "tcp", "security": "none"}}]}"#;
    let bad = r#"{"remarks": "Bad", "outbounds": [{"tag": "proxy", "protocol": "vless",
        "settings": {"vnext": [{"address": "x.example.com", "port": 443,
          "users": [{"id": "u9", "flow": ""}]}]},
        "streamSettings": {"network": "xhttp", "security": "none"}}]}"#;
    let good_b = r#"{"remarks": "B", "outbounds": []}"#;
    let with_bad = import(&format!("[{good_a}, {bad}, {good_b}]"));
    let without = import(&format!("[{good_a}, {good_b}]"));
    let raws = |v: &Vec<ProxyNode>| v.iter().map(|s| s.raw.clone()).collect::<Vec<_>>();
    assert_eq!(raws(&with_bad.0), raws(&without.0));
    assert_eq!(with_bad.0.len(), 1);
    assert_eq!(with_bad.1.len(), 2);
    assert!(with_bad.1[0].starts_with("Bad: "), "{:?}", with_bad.1);
    assert!(with_bad.1[0].contains("xhttp"));
    assert_eq!(with_bad.1[1], without.1[0]);
    assert_eq!(without.1.len(), 1);
}

#[test]
fn percent_decoding_reads_escapes_once() {
    let s: Vec<char> = "a%2Fb%zz%41+%e2%82%ac%ff".chars().collect();
    let d: String = umbra::url_text::dec(&s).into_iter().collect();
    assert_eq!(d, "a/b%zzA+\u{20ac}\u{fffd}");
}

#[test]
fn a_dash_in_a_portless_host_is_no_port_range() {
    let n = parse_hysteria2("hy2://pass@my-host.example.org/#N").unwrap();
    assert_eq!(n.server, "my-host.example.org");
    assert_eq!(n.port, 443);
    assert_eq!(n.name, "N");
    let n = parse_hysteria2("hysteria2://pass@my-host.example.org:8443?sni=a-b.example#x-y:1-2").unwrap();
    assert_eq!(n.port, 8443);
    let err = parse_hysteria2("hysteria2://pass@host.example:443,444#N").unwrap_err();
    assert!(err.to_string().contains("multi-port"));
}

#[test]
fn a_parsed_vless_url_becomes_a_server() {
    let url = UrlParts {
        scheme: "vless".into(),
        username: "u1".into(),
        host: Some("[2001:db8::1]".into()),
        port: Some(8443),
        query: Some("security=tls&sni=x.example&type=ws&path=%2Fws".into()),
        fragment: Some("My%20Node".into()),
    };
    let n = vless_from_url_parts("vless://raw", &url).unwrap();
    assert_eq!(n.server, "2001:db8::1");
    assert_eq!(n.port, 8443);
    assert_eq!(n.name, "My Node");
    assert_eq!(n.raw, "vless://raw");
    let v = vless_of(&n);
    assert_eq!(v.uuid, "u1");
    assert_eq!(v.sni, "x.example");
    let mut no_port = url;
    no_port.port = None;
    assert!(vless_from_url_parts("vless://raw", &no_port).unwrap_err().to_string().contains("missing port"));
}

#[test]
fn a_parsed_hysteria2_url_becomes_a_server() {
    let url = UrlParts {
        scheme: "hy2".into(),
        username: "pa%20ss".into(),
        host: Some("h.example".into()),
        port: None,
        query: Some("insecure=1&alpn=h3".into()),
        fragment: None,
    };
    let n = hysteria2_from_url("hy2://raw", &url).unwrap();
    assert_eq!(n.server, "h.example");
    assert_eq!(n.port, 443);
    assert_eq!(n.name, "h.example:443");
    let h = hy2_of(&n);
    assert_eq!(h.password, "pa ss");
    assert_eq!(h.sni, "h.example");
    assert!(h.insecure);
    assert_eq!(h.alpn, vec!["h3"]);
    let mut no_user = url;
    no_user.username = String::new();
    assert!(hysteria2_from_url("hy2://raw", &no_user).is_err());
}
