use serde_json::Value;
use umbra::error::AppError;
use umbra::json::Json;
use umbra::models::{
    AppRouteAction, AppRouteRule, Hysteria2Node, Hysteria2Obfs, IpStrategy, Mode, ProxyKind,
    ProxyNode, RouteTarget, Security, Settings, Transport, VlessNode,
};
use umbra::singbox::config::{generate, sanitize_name, GeneratedConfig};

fn entry(id: &str, name: &str) -> ProxyNode {
    ProxyNode {
        id: id.into(),
        name: name.into(),
        server: "203.0.113.10".into(),
        port: 443,
        last_ping_ms: None,
        favorite: false,
        total_up: 0,
        total_down: 0,
        raw: String::new(),
        kind: ProxyKind::Vless(VlessNode {
            uuid: "11111111-2222-3333-4444-555555555555".into(),
            flow: String::new(),
            security: Security::Plain,
            sni: String::new(),
            fingerprint: String::new(),
            public_key: String::new(),
            short_id: String::new(),
            insecure: false,
            alpn: Vec::new(),
            transport: Transport::Tcp,
        }),
    }
}

fn reality_entry(id: &str, name: &str) -> ProxyNode {
    let mut s = entry(id, name);
    if let ProxyKind::Vless(ref mut v) = s.kind {
        v.security = Security::Reality;
        v.flow = "xtls-rprx-vision".into();
        v.sni = "cdn.example.org".into();
        v.public_key = "pubkey123".into();
        v.short_id = "ab12".into();
    }
    s
}

fn to_value(j: &Json) -> Value {
    match j {
        Json::Null => Value::Null,
        Json::Bool(b) => Value::Bool(*b),
        Json::Number(Some(n)) => Value::from(*n),
        Json::Number(None) => Value::Null,
        Json::Str(s) => Value::String(s.clone()),
        Json::Array(a) => Value::Array(a.iter().map(to_value).collect()),
        Json::Object(m) => {
            Value::Object(m.iter().map(|(k, v)| (k.clone(), to_value(v))).collect())
        }
    }
}

fn parse(text: &str) -> Value {
    serde_json::from_str(text).expect("expected value")
}

struct Generated {
    cfg: GeneratedConfig,
    json: Value,
}

impl Generated {
    fn tag(&self, id: &str) -> &str {
        self.cfg.tag_for(id).expect("tag").as_str()
    }
}

fn gen(settings: &Settings, servers: &[ProxyNode], selected: &str) -> Generated {
    let refs: Vec<&ProxyNode> = servers.iter().collect();
    let cfg = generate(settings, &refs, selected, 9090, "s3cret").expect("generate");
    let json = to_value(&cfg.json);
    Generated { cfg, json }
}

fn at<'a>(g: &'a Generated, ptr: &str) -> &'a Value {
    g.json
        .pointer(ptr)
        .unwrap_or_else(|| panic!("missing pointer {ptr}"))
}

#[test]
fn reality_outbound_full_shape() {
    let servers = vec![reality_entry("a", "RU-1")];
    let cfg = gen(&Settings::default(), &servers, "a");
    let ob = at(&cfg, "/outbounds/2");
    assert_eq!(ob["type"], "vless");
    assert_eq!(ob["tag"], "RU-1");
    assert_eq!(ob["server"], "203.0.113.10");
    assert_eq!(ob["server_port"], 443);
    assert_eq!(ob["uuid"], "11111111-2222-3333-4444-555555555555");
    assert_eq!(ob["flow"], "xtls-rprx-vision");
    assert_eq!(ob["packet_encoding"], "xudp");
    assert_eq!(ob["tls"]["enabled"], true);
    assert_eq!(ob["tls"]["server_name"], "cdn.example.org");
    assert_eq!(ob["tls"]["insecure"], false);
    assert_eq!(ob["tls"]["utls"]["enabled"], true);
    assert_eq!(ob["tls"]["utls"]["fingerprint"], "chrome");
    assert_eq!(ob["tls"]["reality"]["enabled"], true);
    assert_eq!(ob["tls"]["reality"]["public_key"], "pubkey123");
    assert_eq!(ob["tls"]["reality"]["short_id"], "ab12");
    assert!(ob.get("transport").is_none(), "tcp must omit transport");
}

#[test]
fn ws_outbound_host_header_and_no_flow() {
    let mut s = entry("a", "WS");
    if let ProxyKind::Vless(ref mut v) = s.kind {
        v.security = Security::Tls;
        v.sni = "ws.example.org".into();
        v.transport = Transport::Ws {
            path: "/ws".into(),
            host: "ws.example.org".into(),
        };
    }
    let mut no_host = entry("b", "WS2");
    if let ProxyKind::Vless(ref mut v) = no_host.kind {
        v.transport = Transport::Ws {
            path: "/p".into(),
            host: String::new(),
        };
    }
    let cfg = gen(&Settings::default(), &[s, no_host], "a");
    let ob = at(&cfg, "/outbounds/2");
    assert!(ob.get("flow").is_none(), "empty flow must be omitted");
    assert_eq!(ob["transport"]["type"], "ws");
    assert_eq!(ob["transport"]["path"], "/ws");
    assert_eq!(ob["transport"]["headers"]["Host"], "ws.example.org");
    let ob2 = at(&cfg, "/outbounds/3");
    assert!(
        ob2["transport"].get("headers").is_none(),
        "empty host must omit headers"
    );
}

#[test]
fn grpc_and_httpupgrade_transports() {
    let mut g = entry("a", "G");
    if let ProxyKind::Vless(ref mut v) = g.kind {
        v.transport = Transport::Grpc {
            service_name: "svc".into(),
        };
    }
    let mut h = entry("b", "H");
    if let ProxyKind::Vless(ref mut v) = h.kind {
        v.transport = Transport::Httpupgrade {
            path: "/up".into(),
            host: "up.example.org".into(),
        };
    }
    let cfg = gen(&Settings::default(), &[g, h], "b");
    assert_eq!(at(&cfg, "/outbounds/2/transport/type"), "grpc");
    assert_eq!(at(&cfg, "/outbounds/2/transport/service_name"), "svc");
    assert_eq!(at(&cfg, "/outbounds/3/transport/type"), "httpupgrade");
    assert_eq!(at(&cfg, "/outbounds/3/transport/path"), "/up");
    assert_eq!(at(&cfg, "/outbounds/3/transport/host"), "up.example.org");
}

#[test]
fn security_none_omits_tls_entirely() {
    let servers = vec![entry("a", "Plain")];
    let cfg = gen(&Settings::default(), &servers, "a");
    assert!(at(&cfg, "/outbounds/2").get("tls").is_none());
}

#[test]
fn tls_alpn_and_utls_omission() {
    let mut bare = entry("a", "T1");
    if let ProxyKind::Vless(ref mut v) = bare.kind {
        v.security = Security::Tls;
        v.sni = "t.example.org".into();
    }
    let mut full = entry("b", "T2");
    if let ProxyKind::Vless(ref mut v) = full.kind {
        v.security = Security::Tls;
        v.sni = "t2.example.org".into();
        v.fingerprint = "firefox".into();
        v.alpn = vec!["h2".into(), "http/1.1".into()];
    }
    let cfg = gen(&Settings::default(), &[bare, full], "a");
    let t1 = at(&cfg, "/outbounds/2/tls");
    assert!(t1.get("alpn").is_none(), "empty alpn must be omitted");
    assert!(
        t1.get("utls").is_none(),
        "empty fingerprint on plain tls must omit utls"
    );
    assert!(t1.get("reality").is_none());
    let t2 = at(&cfg, "/outbounds/3/tls");
    assert_eq!(t2["alpn"], parse(r#"["h2", "http/1.1"]"#));
    assert_eq!(t2["utls"]["fingerprint"], "firefox");
}

#[test]
fn tags_sanitized_deduped_with_fallbacks() {
    let servers = vec![
        entry("a", "  My   Server "),
        entry("b", "My Server"),
        entry("c", "My Server"),
        entry("d", "   "),
        entry("e", "proxy"),
    ];
    let cfg = gen(&Settings::default(), &servers, "a");
    assert_eq!(cfg.tag("a"), "My Server");
    assert_eq!(cfg.tag("b"), "My Server (2)");
    assert_eq!(cfg.tag("c"), "My Server (3)");
    assert_eq!(cfg.tag("d"), "server-4");
    assert_eq!(cfg.tag("e"), "proxy (2)", "reserved outbound tags must not be reused");
    assert_eq!(at(&cfg, "/outbounds/3/tag"), "My Server (2)");
}

#[test]
fn bypass_ru_adds_rule_and_rule_set() {
    let servers = vec![entry("a", "S")];
    let off = gen(&Settings::default(), &servers, "a");
    let rules = at(&off, "/route/rules").as_array().expect("rules");
    assert_eq!(rules.len(), 5);
    assert!(off.json.pointer("/route/rule_set").is_none());

    let mut settings = Settings::default();
    settings.bypass_ru = true;
    let on = gen(&settings, &servers, "a");
    let rules = at(&on, "/route/rules").as_array().expect("rules");
    assert_eq!(rules.len(), 6);
    assert_eq!(
        rules[5],
        parse(r#"{ "rule_set": ["geosite-ru", "geoip-ru"], "outbound": "direct" }"#)
    );
    let rs = at(&on, "/route/rule_set").as_array().expect("rule_set");
    assert_eq!(rs.len(), 2);
    assert_eq!(rs[0]["tag"], "geosite-ru");
    assert_eq!(
        rs[0]["url"],
        "https://raw.githubusercontent.com/SagerNet/sing-geosite/rule-set/geosite-category-ru.srs"
    );
    assert_eq!(rs[1]["tag"], "geoip-ru");
    assert_eq!(rs[1]["download_detour"], "proxy");
    assert_eq!(rs[1]["update_interval"], "7d");
}

#[test]
fn application_rules_precede_generic_routes() {
    let servers = vec![entry("a", "S")];
    let mut settings = Settings::default();
    settings.app_routes = vec![
        AppRouteRule {
            id: "browser".into(),
            process_name: "firefox.exe".into(),
            action: AppRouteAction::Proxy,
        },
        AppRouteRule {
            id: "game".into(),
            process_name: "game.exe".into(),
            action: AppRouteAction::Direct,
        },
        AppRouteRule {
            id: "blocked".into(),
            process_name: "telemetry.exe".into(),
            action: AppRouteAction::Block,
        },
    ];

    let cfg = gen(&settings, &servers, "a");
    let rules = at(&cfg, "/route/rules").as_array().expect("rules");
    assert_eq!(
        rules[2],
        parse(r#"{ "process_name": ["firefox.exe"], "outbound": "proxy" }"#)
    );
    assert_eq!(
        rules[3],
        parse(r#"{ "process_name": ["game.exe"], "outbound": "direct" }"#)
    );
    assert_eq!(
        rules[4],
        parse(r#"{ "process_name": ["telemetry.exe"], "action": "reject" }"#)
    );
    assert_eq!(
        rules[5],
        parse(r#"{ "ip_is_private": true, "outbound": "direct" }"#)
    );
}

#[test]
fn route_default_can_be_direct_and_empty_processes_are_ignored() {
    let servers = vec![entry("a", "S")];
    let mut settings = Settings::default();
    settings.route_default = RouteTarget::Direct;
    settings.app_routes = vec![AppRouteRule {
        id: "empty".into(),
        process_name: "   ".into(),
        action: AppRouteAction::Block,
    }];

    let cfg = gen(&settings, &servers, "a");
    assert_eq!(at(&cfg, "/route/final"), "direct");
    assert_eq!(at(&cfg, "/route/rules").as_array().map(Vec::len), Some(5));
}

#[test]
fn mixed_vs_tun_inbounds() {
    let servers = vec![entry("a", "S")];
    let mut settings = Settings::default();
    settings.mixed_port = 7777;
    let mixed = gen(&settings, &servers, "a");
    let inb = at(&mixed, "/inbounds/0");
    assert_eq!(inb["type"], "mixed");
    assert_eq!(inb["tag"], "mixed-in");
    assert_eq!(inb["listen"], "127.0.0.1");
    assert_eq!(inb["listen_port"], 7777);
    assert_eq!(at(&mixed, "/inbounds").as_array().map(Vec::len), Some(1));

    settings.mode = Mode::Tun;
    settings.tun_mtu = 1500;
    settings.tun_strict_route = false;
    settings.tun_stack = "gvisor".into();
    let tun = gen(&settings, &servers, "a");
    let inb = at(&tun, "/inbounds/0");
    assert_eq!(inb["type"], "tun");
    assert_eq!(inb["tag"], "tun-in");
    assert_eq!(inb["interface_name"], "umbra-tun");
    assert_eq!(
        inb["address"],
        parse(r#"["172.19.0.1/30", "fdfe:dcba:9876::1/126"]"#)
    );
    assert_eq!(inb["mtu"], 1500);
    assert_eq!(inb["auto_route"], true);
    assert_eq!(inb["strict_route"], false);
    assert_eq!(inb["stack"], "gvisor");
    assert_eq!(inb["udp_timeout"], "5m");
}

#[test]
fn custom_ip_strategy_setting() {
    let servers = vec![entry("a", "S")];
    let mut settings = Settings::default();
    settings.ip_strategy = IpStrategy::PreferIpv6;
    let cfg = gen(&settings, &servers, "a");
    assert_eq!(at(&cfg, "/dns/strategy"), "prefer_ipv6");
}

#[test]
fn selector_and_urltest_wiring() {
    let servers = vec![entry("a", "One"), entry("b", "Two")];
    let cfg = gen(&Settings::default(), &servers, "b");
    let sel = at(&cfg, "/outbounds/0");
    assert_eq!(sel["type"], "selector");
    assert_eq!(sel["tag"], "proxy");
    assert_eq!(sel["outbounds"], parse(r#"["auto", "One", "Two"]"#));
    assert_eq!(sel["default"], "Two");
    assert_eq!(sel["interrupt_exist_connections"], true);
    let auto = at(&cfg, "/outbounds/1");
    assert_eq!(auto["type"], "urltest");
    assert_eq!(auto["tag"], "auto");
    assert_eq!(auto["outbounds"], parse(r#"["One", "Two"]"#));
    assert_eq!(auto["url"], Settings::default().ping_url);
    assert_eq!(auto["interval"], "3m");
    assert_eq!(auto["tolerance"], 50);
    let last = at(&cfg, "/outbounds/4");
    assert_eq!(last, &parse(r#"{ "type": "direct", "tag": "direct" }"#));
}

#[test]
fn unknown_selected_id_is_not_found() {
    let servers = vec![entry("a", "S")];
    let refs: Vec<&ProxyNode> = servers.iter().collect();
    let err = generate(&Settings::default(), &refs, "nope", 9090, "s").expect_err("must fail");
    assert!(matches!(err, AppError::NotFound(_)));
    assert_eq!(err, AppError::NotFound("server nope".into()));
}

#[test]
fn top_level_log_experimental_dns_route() {
    let servers = vec![entry("a", "S")];
    let mut settings = Settings::default();
    settings.log_level = "debug".into();
    let cfg = gen(&settings, &servers, "a");
    assert_eq!(at(&cfg, "/log/level"), "debug");
    assert_eq!(at(&cfg, "/log/timestamp"), true);
    assert_eq!(
        at(&cfg, "/experimental/clash_api/external_controller"),
        "127.0.0.1:9090"
    );
    assert_eq!(at(&cfg, "/experimental/clash_api/secret"), "s3cret");
    assert_eq!(at(&cfg, "/experimental/clash_api/default_mode"), "Rule");
    assert_eq!(at(&cfg, "/experimental/cache_file/enabled"), true);
    assert_eq!(at(&cfg, "/experimental/cache_file/path"), "cache.db");
    assert_eq!(at(&cfg, "/dns/servers/0/tag"), "dns-remote");
    assert_eq!(at(&cfg, "/dns/servers/0/type"), "https");
    assert_eq!(at(&cfg, "/dns/servers/0/detour"), "proxy");
    assert_eq!(at(&cfg, "/dns/servers/1/type"), "local");
    assert_eq!(at(&cfg, "/dns/final"), "dns-remote");
    assert_eq!(at(&cfg, "/dns/strategy"), "ipv4_only");
    assert_eq!(at(&cfg, "/dns/independent_cache"), true);
    assert_eq!(at(&cfg, "/route/final"), "proxy");
    assert_eq!(at(&cfg, "/route/auto_detect_interface"), true);
    assert_eq!(
        at(&cfg, "/route/default_domain_resolver/server"),
        "dns-local"
    );
    assert_eq!(at(&cfg, "/route/rules/0"), &parse(r#"{ "action": "sniff" }"#));
    assert_eq!(
        at(&cfg, "/route/rules/1"),
        &parse(r#"{ "protocol": "dns", "action": "hijack-dns" }"#)
    );
    assert_eq!(cfg.cfg.clash_port, 9090);
    assert_eq!(cfg.cfg.clash_secret, "s3cret");
}

#[test]
fn test_singbox_check_hysteria2() {
    let hy2_node = ProxyNode {
        id: "hy2-1".into(),
        name: "Hysteria2 Test".into(),
        server: "1.1.1.1".into(),
        port: 443,
        last_ping_ms: None,
        favorite: false,
        total_up: 0,
        total_down: 0,
        raw: "".into(),
        kind: ProxyKind::Hysteria2(Hysteria2Node {
            password: "testpass".into(),
            obfs: Some(Hysteria2Obfs::Salamander {
                password: "obfspass".into(),
            }),
            insecure: false,
            sni: "example.com".into(),
            alpn: vec!["h3".into()],
        }),
    };
    let servers = vec![hy2_node];
    let refs: Vec<&ProxyNode> = servers.iter().collect();
    let cfg = generate(&Settings::default(), &refs, "hy2-1", 9090, "secret").unwrap();
    let doc = to_value(&cfg.json);
    let ob = doc.pointer("/outbounds/2").expect("outbound");
    assert_eq!(
        ob,
        &parse(
            r#"{ "type": "hysteria2", "tag": "Hysteria2 Test", "server": "1.1.1.1",
                 "server_port": 443, "password": "testpass",
                 "tls": { "enabled": true, "server_name": "example.com",
                          "insecure": false, "alpn": ["h3"] },
                 "obfs": { "type": "salamander", "password": "obfspass" } }"#
        )
    );
}

#[test]
fn hysteria2_without_sni_names_the_server() {
    let mut node = entry("h", "H");
    node.kind = ProxyKind::Hysteria2(Hysteria2Node {
        password: "pw".into(),
        obfs: None,
        insecure: true,
        sni: String::new(),
        alpn: Vec::new(),
    });
    let cfg = gen(&Settings::default(), &[node], "h");
    let ob = at(&cfg, "/outbounds/2");
    assert_eq!(ob["tls"]["server_name"], "203.0.113.10");
    assert_eq!(ob["tls"]["insecure"], true);
    assert!(ob["tls"].get("alpn").is_none());
    assert!(ob.get("obfs").is_none());
}

#[test]
fn sanitize_collapses_whitespace() {
    assert_eq!(sanitize_name("  a \t b\n c  "), "a b c");
    assert_eq!(sanitize_name("   "), "");
}

#[test]
fn tags_stay_distinct_and_unreserved() {
    let servers = vec![
        entry("a", "auto"),
        entry("b", "direct"),
        entry("c", "auto (2)"),
        entry("d", "auto"),
    ];
    let cfg = gen(&Settings::default(), &servers, "a");
    let tags: Vec<&str> = ["a", "b", "c", "d"].iter().map(|id| cfg.tag(id)).collect();
    assert_eq!(tags, vec!["auto (2)", "direct (2)", "auto (2) (2)", "auto (3)"]);
}

#[test]
fn tag_lookup_keeps_the_last_duplicate_id() {
    let servers = vec![entry("x", "First"), entry("x", "Second")];
    let cfg = gen(&Settings::default(), &servers, "x");
    assert_eq!(cfg.tag("x"), "Second");
    assert_eq!(at(&cfg, "/outbounds/0/default"), "First");
    assert!(cfg.cfg.tag_for("missing").is_none());
}
