//! Reading Xray-style outbounds (`vless`, `hysteria`/`hysteria2`) out of a
//! V2Ray JSON client configuration.

use vstd::prelude::*;
use vstd::string::*;

use crate::error::{error_message, parse_error, unsupported_error, AppError, AppResult, ErrorView};
use crate::ids::new_id;
use crate::json::{
    as_bool, as_str, as_u64, deref, first, get, jbool, jfirst, jget, jor, jstr, ju64, or_else,
    Json,
};
use crate::models::{
    obfs_view, texts, Hysteria2Node, Hysteria2Obfs, Hysteria2View, KindView, NodeView, ProxyKind, ProxyNode,
    Security, Transport, TransportView, VlessNode, VlessView,
};
use crate::parser::v2ray_json::{
    build_canonical_hysteria2_uri, build_canonical_vless_uri, canonical_hysteria2,
    canonical_vless,
};
use crate::parser::vless::{
    node_outcome, nonempty, or_default, strip_leading_exec, strip_trailing_exec, transport_detail,
    unbracket,
};
use crate::text::{
    chars_of, decimal, decimal_exec, eq_ignore_case, eq_ignore_case_exec, eq_str, lower_chars,
    lower_seq, parse_unsigned, parse_unsigned_exec, push_all, push_str, string_of, strings_text,
    trim, trim_chars,
};
use crate::url_text::{is_ip_address, parses_as_ip};

verus! {

// ---------------------------------------------------------------------------
// Field readers
// ---------------------------------------------------------------------------

/// A port as panels write it: a JSON number (its low 16 bits, as `as u16`
/// keeps them) or a string holding a decimal `u16`.
pub open spec fn port_value(j: Option<Json>) -> Option<u16> {
    match j {
        Some(Json::Number(Some(p))) => Some((p % 65536) as u16),
        Some(Json::Str(s)) => match parse_unsigned(trim(s@), 65535) {
            Some(n) => Some(n as u16),
            None => None,
        },
        _ => None,
    }
}

fn port_value_exec(j: Option<&Json>) -> (r: Option<u16>)
    ensures
        r == port_value(deref(j)),
{
    match j {
        Some(Json::Number(Some(p))) => Some((*p % 65536) as u16),
        Some(Json::Str(s)) => match parse_unsigned_exec(&trim_chars(&chars_of(s.as_str())), 65535) {
            Some(n) => Some(n as u16),
            None => None,
        },
        _ => None,
    }
}

fn text_or_default(j: Option<&Json>) -> (r: Vec<char>)
    ensures
        r@ == or_default(jstr(deref(j))),
{
    match as_str(j) {
        Some(s) => chars_of(s),
        None => Vec::new(),
    }
}

/// The text, or `lit` when it is missing or empty.
pub open spec fn text_or(j: Option<Json>, lit: Seq<char>) -> Seq<char> {
    match nonempty(jstr(j)) {
        Some(t) => t,
        None => lit,
    }
}

fn text_or_exec(j: Option<&Json>, lit: &str) -> (r: Vec<char>)
    ensures
        r@ == text_or(deref(j), lit@),
{
    match as_str(j) {
        Some(s) => {
            let t = chars_of(s);
            if t.len() > 0 {
                t
            } else {
                chars_of(lit)
            }
        },
        None => chars_of(lit),
    }
}

/// The strings of a JSON array, other elements skipped.
pub open spec fn json_strings(v: Seq<Json>) -> Seq<Seq<char>>
    decreases v.len(),
{
    if v.len() == 0 {
        Seq::empty()
    } else {
        let r = json_strings(v.drop_last());
        match v.last() {
            Json::Str(s) => r.push(s@),
            _ => r,
        }
    }
}

/// The strings of an ALPN array; `None` when the value is not an array.
pub open spec fn json_alpn(j: Option<Json>) -> Option<Seq<Seq<char>>> {
    match j {
        Some(Json::Array(v)) => Some(json_strings(v@)),
        _ => None,
    }
}

fn json_alpn_exec(j: Option<&Json>) -> (r: Option<Vec<String>>)
    ensures
        match r {
            Some(v) => json_alpn(deref(j)) == Some(strings_text(v@)),
            None => json_alpn(deref(j)) is None,
        },
{
    match j {
        Some(Json::Array(v)) => {
            let mut out: Vec<String> = Vec::new();
            let mut i: usize = 0;
            while i < v.len()
                invariant
                    i <= v@.len(),
                    strings_text(out@) == json_strings(v@.subrange(0, i as int)),
                decreases v.len() - i,
            {
                let ghost pre = v@.subrange(0, i as int);
                assert(v@.subrange(0, i + 1 as int).drop_last() =~= pre);
                match &v[i] {
                    Json::Str(s) => {
                        let ghost before = out@;
                        out.push(s.clone());
                        assert(strings_text(out@) =~= strings_text(before).push(s@));
                    },
                    _ => {},
                }
                i += 1;
            }
            assert(v@.subrange(0, v@.len() as int) =~= v@);
            Some(out)
        },
        _ => None,
    }
}

/// `allowInsecure` (or `insecure`) when it is a boolean, `false` otherwise.
pub open spec fn json_insecure(tls: Option<Json>) -> bool {
    match jbool(jor(jget(tls, "allowInsecure"@), jget(tls, "insecure"@))) {
        Some(b) => b,
        None => false,
    }
}

fn json_insecure_exec(tls: Option<&Json>) -> (r: bool)
    ensures
        r == json_insecure(deref(tls)),
{
    match as_bool(or_else(get(tls, "allowInsecure"), get(tls, "insecure"))) {
        Some(b) => b,
        None => false,
    }
}

/// The SNI: the configured server name, else the server when it is a
/// domain name.
pub open spec fn json_sni(raw: Seq<char>, server: Seq<char>) -> Seq<char> {
    if raw.len() == 0 && !is_ip_address(server) {
        server
    } else {
        raw
    }
}

fn json_sni_exec(raw: Vec<char>, server: &[char]) -> (r: Vec<char>)
    ensures
        r@ == json_sni(raw@, server@),
{
    if raw.len() == 0 {
        let s = string_of(server);
        if !parses_as_ip(s.as_str()) {
            return chars_of(s.as_str());
        }
    }
    raw
}

/// The display name: the trimmed remarks, or `server:port` when blank.
pub open spec fn outbound_name(remarks: Seq<char>, server: Seq<char>, port: u16) -> Seq<char> {
    if trim(remarks).len() == 0 {
        server + ":"@ + decimal(port as nat)
    } else {
        trim(remarks)
    }
}

fn outbound_name_exec(remarks: &str, server: &[char], port: u16) -> (r: Vec<char>)
    ensures
        r@ == outbound_name(remarks@, server@, port),
{
    let t = trim_chars(&chars_of(remarks));
    if t.len() == 0 {
        let mut n = chars_of(string_of(server).as_str());
        push_str(&mut n, ":");
        push_all(&mut n, &decimal_exec(port as u64));
        n
    } else {
        t
    }
}

// ---------------------------------------------------------------------------
// Choosing the outbound
// ---------------------------------------------------------------------------

/// `protocol` (or `type`), lower-cased; empty when missing.
pub open spec fn proto_of(o: Json) -> Seq<char> {
    lower_seq(or_default(jstr(jor(jget(Some(o), "protocol"@), jget(Some(o), "type"@)))))
}

/// `tag`, lower-cased; empty when missing.
pub open spec fn tag_of(o: Json) -> Seq<char> {
    lower_seq(or_default(jstr(jget(Some(o), "tag"@))))
}

/// Routing helpers that never carry traffic to a server.
pub open spec fn routing_helpers() -> Seq<Seq<char>> {
    seq![
        "freedom"@,
        "direct"@,
        "blackhole"@,
        "block"@,
        "dns"@,
        "selector"@,
        "urltest"@,
        "balancer"@,
    ]
}

pub open spec fn is_proxy_protocol(p: Seq<char>) -> bool {
    p == "vless"@ || p == "hysteria"@ || p == "hysteria2"@
}

/// An outbound this client can import: a proxy protocol, and neither its
/// protocol nor its tag names a routing helper.
pub open spec fn usable(o: Json) -> bool {
    !routing_helpers().contains(proto_of(o)) && !routing_helpers().contains(tag_of(o))
        && is_proxy_protocol(proto_of(o))
}

/// Tagged `proxy`, in any case.
pub open spec fn tagged_proxy(o: Json) -> bool {
    match jstr(jget(Some(o), "tag"@)) {
        Some(t) => eq_ignore_case(t, "proxy"@),
        None => false,
    }
}

/// The first index whose outbound is tagged `proxy` (`tagged`) or usable.
pub open spec fn first_match(v: Seq<Json>, tagged: bool) -> Option<int>
    decreases v.len(),
{
    if v.len() == 0 {
        None
    } else if (if tagged {
        tagged_proxy(v[0])
    } else {
        usable(v[0])
    }) {
        Some(0)
    } else {
        match first_match(v.drop_first(), tagged) {
            Some(i) => Some(i + 1),
            None => None,
        }
    }
}

/// The main proxy outbound: the first one tagged `proxy` when it is
/// usable, else the first usable one.
pub open spec fn select_index(v: Seq<Json>) -> Option<int> {
    match first_match(v, true) {
        Some(i) => if usable(v[i]) {
            Some(i)
        } else {
            first_match(v, false)
        },
        None => first_match(v, false),
    }
}

/// What `first_match` finds is an index of the list whose entry matches.
pub proof fn lemma_first_match_bounds(v: Seq<Json>, tagged: bool)
    ensures
        match first_match(v, tagged) {
            Some(i) => 0 <= i < v.len() && (if tagged {
                tagged_proxy(v[i])
            } else {
                usable(v[i])
            }),
            None => true,
        },
    decreases v.len(),
{
    if v.len() > 0 {
        lemma_first_match_bounds(v.drop_first(), tagged);
    }
}

/// `select_index` picks an index of the list, and a usable outbound.
pub proof fn lemma_select_bounds(v: Seq<Json>)
    ensures
        match select_index(v) {
            Some(i) => 0 <= i < v.len() && usable(v[i]),
            None => true,
        },
{
    lemma_first_match_bounds(v, true);
    lemma_first_match_bounds(v, false);
}

pub fn proto_exec(o: &Json) -> (r: Vec<char>)
    ensures
        r@ == proto_of(*o),
{
    lower_chars(&text_or_default(or_else(get(Some(o), "protocol"), get(Some(o), "type"))))
}

fn tag_exec(o: &Json) -> (r: Vec<char>)
    ensures
        r@ == tag_of(*o),
{
    lower_chars(&text_or_default(get(Some(o), "tag")))
}

/// Whether a protocol or a tag names a routing helper.
pub fn is_excluded(proto: &[char], tag: &[char]) -> (r: bool)
    ensures
        r == (routing_helpers().contains(proto@) || routing_helpers().contains(tag@)),
{
    let helpers = vec!["freedom", "direct", "blackhole", "block", "dns", "selector", "urltest", "balancer"];
    assert(helpers@.map_values(|s: &str| s@) =~= routing_helpers());
    let mut k: usize = 0;
    while k < helpers.len()
        invariant
            k <= helpers@.len(),
            helpers@.map_values(|s: &str| s@) == routing_helpers(),
            forall|j: int| 0 <= j < k ==> routing_helpers()[j] != proto@ && routing_helpers()[j] != tag@,
        decreases helpers.len() - k,
    {
        if eq_str(proto, helpers[k]) || eq_str(tag, helpers[k]) {
            assert(routing_helpers()[k as int] == helpers@[k as int]@);
            assert(routing_helpers().contains(proto@) || routing_helpers().contains(tag@));
            return true;
        }
        k += 1;
    }
    false
}

fn usable_exec(o: &Json) -> (r: bool)
    ensures
        r == usable(*o),
{
    let p = proto_exec(o);
    let t = tag_exec(o);
    if is_excluded(&p, &t) {
        return false;
    }
    eq_str(&p, "vless") || eq_str(&p, "hysteria") || eq_str(&p, "hysteria2")
}

fn tagged_proxy_exec(o: &Json) -> (r: bool)
    ensures
        r == tagged_proxy(*o),
{
    match as_str(get(Some(o), "tag")) {
        Some(t) => eq_ignore_case_exec(&chars_of(t), &chars_of("proxy")),
        None => false,
    }
}

fn first_match_exec(v: &Vec<Json>, tagged: bool) -> (r: Option<usize>)
    ensures
        match r {
            Some(i) => first_match(v@, tagged) == Some(i as int),
            None => first_match(v@, tagged) is None,
        },
{
    let mut i: usize = 0;
    assert(v@.subrange(0, v@.len() as int) =~= v@);
    while i < v.len()
        invariant
            i <= v@.len(),
            first_match(v@, tagged) == match first_match(v@.subrange(i as int, v@.len() as int), tagged) {
                Some(k) => Some(k + i),
                None => None,
            },
        decreases v.len() - i,
    {
        let ghost rest = v@.subrange(i as int, v@.len() as int);
        assert(rest.drop_first() =~= v@.subrange(i + 1, v@.len() as int));
        assert(rest[0] == v@[i as int]);
        let hit = if tagged {
            tagged_proxy_exec(&v[i])
        } else {
            usable_exec(&v[i])
        };
        if hit {
            return Some(i);
        }
        i += 1;
    }
    assert(v@.subrange(i as int, v@.len() as int) =~= Seq::<Json>::empty());
    None
}

/// The index of the outbound to import, if any.
pub fn select_outbound(outbounds: &Vec<Json>) -> (r: Option<usize>)
    ensures
        match r {
            Some(i) => select_index(outbounds@) == Some(i as int),
            None => select_index(outbounds@) is None,
        },
{
    proof {
        lemma_first_match_bounds(outbounds@, true);
    }
    match first_match_exec(outbounds, true) {
        Some(i) => {
            if usable_exec(&outbounds[i]) {
                Some(i)
            } else {
                first_match_exec(outbounds, false)
            }
        },
        None => first_match_exec(outbounds, false),
    }
}


// ---------------------------------------------------------------------------
// VLESS outbounds
// ---------------------------------------------------------------------------

/// Where a VLESS outbound points and as whom: `(address, port, user id,
/// flow)`, from `settings.vnext[0]` or from `settings` itself.
pub open spec fn vless_endpoint(settings: Option<Json>) -> Result<
    (Seq<char>, u16, Seq<char>, Seq<char>),
    ErrorView,
> {
    match jfirst(jget(settings, "vnext"@)) {
        Some(vnext) => {
            let v = Some(vnext);
            match jstr(jget(v, "address"@)) {
                None => Err(ErrorView::Parse("vless missing address in vnext"@)),
                Some(address) => match port_value(jget(v, "port"@)) {
                    None => Err(ErrorView::Parse("vless missing port in vnext"@)),
                    Some(port) => match jfirst(jget(v, "users"@)) {
                        None => Err(ErrorView::Parse("vless missing user in vnext"@)),
                        Some(user) => match jstr(jget(Some(user), "id"@)) {
                            None => Err(ErrorView::Parse("vless missing user id"@)),
                            Some(uuid) => Ok(
                                (address, port, uuid, or_default(jstr(jget(Some(user), "flow"@)))),
                            ),
                        },
                    },
                },
            }
        },
        None => match jstr(jget(settings, "address"@)) {
            None => Err(ErrorView::Parse("vless missing address"@)),
            Some(address) => match port_value(jget(settings, "port"@)) {
                None => Err(ErrorView::Parse("vless missing port"@)),
                Some(port) => match jstr(jor(jget(settings, "id"@), jget(settings, "uuid"@))) {
                    None => Err(ErrorView::Parse("vless missing user id"@)),
                    Some(uuid) => Ok(
                        (address, port, uuid, or_default(jstr(jget(settings, "flow"@)))),
                    ),
                },
            },
        },
    }
}

pub open spec fn endpoint_outcome(r: AppResult<(Vec<char>, u16, Vec<char>, Vec<char>)>) -> Result<
    (Seq<char>, u16, Seq<char>, Seq<char>),
    ErrorView,
> {
    match r {
        Ok(t) => Ok((t.0@, t.1, t.2@, t.3@)),
        Err(e) => Err(e@),
    }
}

fn vless_endpoint_exec(settings: Option<&Json>) -> (r: AppResult<(Vec<char>, u16, Vec<char>, Vec<char>)>)
    ensures
        endpoint_outcome(r) == vless_endpoint(deref(settings)),
{
    match first(get(settings, "vnext")) {
        Some(vnext) => {
            let v = Some(vnext);
            let address = match as_str(get(v, "address")) {
                Some(a) => chars_of(a),
                None => {
                    return Err(parse_error(&chars_of("vless missing address in vnext")));
                },
            };
            let port = match port_value_exec(get(v, "port")) {
                Some(p) => p,
                None => {
                    return Err(parse_error(&chars_of("vless missing port in vnext")));
                },
            };
            let user = match first(get(v, "users")) {
                Some(u) => u,
                None => {
                    return Err(parse_error(&chars_of("vless missing user in vnext")));
                },
            };
            let uuid = match as_str(get(Some(user), "id")) {
                Some(i) => chars_of(i),
                None => {
                    return Err(parse_error(&chars_of("vless missing user id")));
                },
            };
            let flow = text_or_default(get(Some(user), "flow"));
            Ok((address, port, uuid, flow))
        },
        None => {
            let address = match as_str(get(settings, "address")) {
                Some(a) => chars_of(a),
                None => {
                    return Err(parse_error(&chars_of("vless missing address")));
                },
            };
            let port = match port_value_exec(get(settings, "port")) {
                Some(p) => p,
                None => {
                    return Err(parse_error(&chars_of("vless missing port")));
                },
            };
            let uuid = match as_str(or_else(get(settings, "id"), get(settings, "uuid"))) {
                Some(i) => chars_of(i),
                None => {
                    return Err(parse_error(&chars_of("vless missing user id")));
                },
            };
            let flow = text_or_default(get(settings, "flow"));
            Ok((address, port, uuid, flow))
        },
    }
}

/// The transport named in `streamSettings.network`: trimmed, lower-cased,
/// `tcp` when missing.
pub open spec fn json_network(stream: Option<Json>) -> Seq<char> {
    lower_seq(
        match jstr(jget(stream, "network"@)) {
            Some(n) => trim(n),
            None => "tcp"@,
        },
    )
}

pub open spec fn json_transport(stream: Option<Json>, network: Seq<char>) -> Result<
    TransportView,
    ErrorView,
> {
    if network == "tcp"@ {
        Ok(TransportView::Tcp)
    } else if network == "grpc"@ {
        Ok(
            TransportView::Grpc {
                service_name: or_default(
                    jstr(jget(jget(stream, "grpcSettings"@), "serviceName"@)),
                ),
            },
        )
    } else if network == "ws"@ {
        let ws = jget(stream, "wsSettings"@);
        let h = jget(ws, "headers"@);
        Ok(
            TransportView::Ws {
                path: text_or(jget(ws, "path"@), "/"@),
                host: or_default(jstr(jor(jget(h, "Host"@), jget(h, "host"@)))),
            },
        )
    } else if network == "httpupgrade"@ {
        let hu = jget(stream, "httpupgradeSettings"@);
        Ok(
            TransportView::Httpupgrade {
                path: text_or(jget(hu, "path"@), "/"@),
                host: or_default(jstr(jget(hu, "host"@))),
            },
        )
    } else {
        Err(ErrorView::Unsupported("transport \""@ + network + "\""@ + transport_detail(network)))
    }
}

pub open spec fn transport_result(r: AppResult<Transport>) -> Result<TransportView, ErrorView> {
    match r {
        Ok(t) => Ok(t@),
        Err(e) => Err(e@),
    }
}

fn json_transport_exec(stream: Option<&Json>, network: &Vec<char>) -> (r: AppResult<Transport>)
    ensures
        transport_result(r) == json_transport(deref(stream), network@),
{
    if eq_str(network, "tcp") {
        Ok(Transport::Tcp)
    } else if eq_str(network, "grpc") {
        let name = text_or_default(get(get(stream, "grpcSettings"), "serviceName"));
        Ok(Transport::Grpc { service_name: string_of(&name) })
    } else if eq_str(network, "ws") {
        let ws = get(stream, "wsSettings");
        let h = get(ws, "headers");
        let path = text_or_exec(get(ws, "path"), "/");
        let host = text_or_default(or_else(get(h, "Host"), get(h, "host")));
        Ok(Transport::Ws { path: string_of(&path), host: string_of(&host) })
    } else if eq_str(network, "httpupgrade") {
        let hu = get(stream, "httpupgradeSettings");
        let path = text_or_exec(get(hu, "path"), "/");
        let host = text_or_default(get(hu, "host"));
        Ok(Transport::Httpupgrade { path: string_of(&path), host: string_of(&host) })
    } else {
        let mut msg = chars_of("transport \"");
        push_all(&mut msg, network);
        push_str(&mut msg, "\"");
        if eq_str(network, "xhttp") || eq_str(network, "splithttp") {
            push_str(&mut msg, " — sing-box has no xhttp/SplitHTTP transport (Xray only)");
        } else {
            proof {
                assert(msg@ + transport_detail(network@) =~= msg@);
            }
        }
        Err(unsupported_error(&msg))
    }
}

/// The TLS-layer fields of a VLESS node.
pub struct SecurityFields {
    pub security: Security,
    pub sni: Seq<char>,
    pub fingerprint: Seq<char>,
    pub public_key: Seq<char>,
    pub short_id: Seq<char>,
    pub insecure: bool,
    pub alpn: Seq<Seq<char>>,
}

pub open spec fn json_security(stream: Option<Json>, server: Seq<char>) -> Result<
    SecurityFields,
    ErrorView,
> {
    let s = lower_seq(
        match jstr(jget(stream, "security"@)) {
            Some(x) => x,
            None => "none"@,
        },
    );
    if s == "reality"@ {
        let reality = jget(stream, "realitySettings"@);
        let pbk = or_default(jstr(jget(reality, "publicKey"@)));
        if pbk.len() == 0 {
            Err(ErrorView::Parse("reality link is missing pbk"@))
        } else {
            Ok(
                SecurityFields {
                    security: Security::Reality,
                    sni: json_sni(or_default(jstr(jget(reality, "serverName"@))), server),
                    fingerprint: text_or(jget(reality, "fingerprint"@), "chrome"@),
                    public_key: pbk,
                    short_id: or_default(
                        match jstr(jget(reality, "shortId"@)) {
                            Some(x) => Some(x),
                            None => jstr(jfirst(jget(reality, "shortIds"@))),
                        },
                    ),
                    insecure: false,
                    alpn: Seq::empty(),
                },
            )
        }
    } else if s == "tls"@ {
        let tls = jget(stream, "tlsSettings"@);
        Ok(
            SecurityFields {
                security: Security::Tls,
                sni: json_sni(or_default(jstr(jget(tls, "serverName"@))), server),
                fingerprint: or_default(jstr(jget(tls, "fingerprint"@))),
                public_key: Seq::empty(),
                short_id: Seq::empty(),
                insecure: json_insecure(tls),
                alpn: match json_alpn(jget(tls, "alpn"@)) {
                    Some(a) => a,
                    None => Seq::empty(),
                },
            },
        )
    } else if s == "none"@ {
        Ok(
            SecurityFields {
                security: Security::Plain,
                sni: Seq::empty(),
                fingerprint: Seq::empty(),
                public_key: Seq::empty(),
                short_id: Seq::empty(),
                insecure: false,
                alpn: Seq::empty(),
            },
        )
    } else {
        Err(ErrorView::Unsupported("security \""@ + s + "\""@))
    }
}

struct SecurityParts {
    security: Security,
    sni: Vec<char>,
    fingerprint: Vec<char>,
    public_key: Vec<char>,
    short_id: Vec<char>,
    insecure: bool,
    alpn: Vec<String>,
}

impl View for SecurityParts {
    type V = SecurityFields;

    closed spec fn view(&self) -> SecurityFields {
        SecurityFields {
            security: self.security,
            sni: self.sni@,
            fingerprint: self.fingerprint@,
            public_key: self.public_key@,
            short_id: self.short_id@,
            insecure: self.insecure,
            alpn: strings_text(self.alpn@),
        }
    }
}

spec fn parts_outcome(r: AppResult<SecurityParts>) -> Result<SecurityFields, ErrorView> {
    match r {
        Ok(p) => Ok(p@),
        Err(e) => Err(e@),
    }
}

fn reality_parts(reality: Option<&Json>, server: &[char]) -> (r: AppResult<SecurityParts>)
    ensures
        parts_outcome(r) == ({
            let pbk = or_default(jstr(jget(deref(reality), "publicKey"@)));
            if pbk.len() == 0 {
                Err(ErrorView::Parse("reality link is missing pbk"@))
            } else {
                Ok(
                    SecurityFields {
                        security: Security::Reality,
                        sni: json_sni(or_default(jstr(jget(deref(reality), "serverName"@))), server@),
                        fingerprint: text_or(jget(deref(reality), "fingerprint"@), "chrome"@),
                        public_key: pbk,
                        short_id: or_default(
                            match jstr(jget(deref(reality), "shortId"@)) {
                                Some(x) => Some(x),
                                None => jstr(jfirst(jget(deref(reality), "shortIds"@))),
                            },
                        ),
                        insecure: false,
                        alpn: Seq::empty(),
                    },
                )
            }
        }),
{
    let pbk = text_or_default(get(reality, "publicKey"));
    if pbk.len() == 0 {
        return Err(parse_error(&chars_of("reality link is missing pbk")));
    }
    let sni = json_sni_exec(text_or_default(get(reality, "serverName")), server);
    let fp = text_or_exec(get(reality, "fingerprint"), "chrome");
    let sid = match as_str(get(reality, "shortId")) {
        Some(x) => chars_of(x),
        None => text_or_default(first(get(reality, "shortIds"))),
    };
    let alpn: Vec<String> = Vec::new();
    assert(strings_text(alpn@) =~= Seq::<Seq<char>>::empty());
    Ok(
        SecurityParts {
            security: Security::Reality,
            sni,
            fingerprint: fp,
            public_key: pbk,
            short_id: sid,
            insecure: false,
            alpn,
        },
    )
}

fn tls_parts(tls: Option<&Json>, server: &[char]) -> (r: SecurityParts)
    ensures
        r@ == (SecurityFields {
            security: Security::Tls,
            sni: json_sni(or_default(jstr(jget(deref(tls), "serverName"@))), server@),
            fingerprint: or_default(jstr(jget(deref(tls), "fingerprint"@))),
            public_key: Seq::empty(),
            short_id: Seq::empty(),
            insecure: json_insecure(deref(tls)),
            alpn: match json_alpn(jget(deref(tls), "alpn"@)) {
                Some(a) => a,
                None => Seq::empty(),
            },
        }),
{
    let sni = json_sni_exec(text_or_default(get(tls, "serverName")), server);
    let fp = text_or_default(get(tls, "fingerprint"));
    let insecure = json_insecure_exec(tls);
    let alpn = match json_alpn_exec(get(tls, "alpn")) {
        Some(a) => a,
        None => {
            let e: Vec<String> = Vec::new();
            assert(strings_text(e@) =~= Seq::<Seq<char>>::empty());
            e
        },
    };
    SecurityParts {
        security: Security::Tls,
        sni,
        fingerprint: fp,
        public_key: Vec::new(),
        short_id: Vec::new(),
        insecure,
        alpn,
    }
}

fn json_security_exec(stream: Option<&Json>, server: &[char]) -> (r: AppResult<SecurityParts>)
    ensures
        parts_outcome(r) == json_security(deref(stream), server@),
{
    let raw = match as_str(get(stream, "security")) {
        Some(x) => chars_of(x),
        None => chars_of("none"),
    };
    let s = lower_chars(&raw);
    if eq_str(&s, "reality") {
        reality_parts(get(stream, "realitySettings"), server)
    } else if eq_str(&s, "tls") {
        Ok(tls_parts(get(stream, "tlsSettings"), server))
    } else if eq_str(&s, "none") {
        let alpn: Vec<String> = Vec::new();
        assert(strings_text(alpn@) =~= Seq::<Seq<char>>::empty());
        Ok(
            SecurityParts {
                security: Security::Plain,
                sni: Vec::new(),
                fingerprint: Vec::new(),
                public_key: Vec::new(),
                short_id: Vec::new(),
                insecure: false,
                alpn,
            },
        )
    } else {
        let mut msg = chars_of("security \"");
        push_all(&mut msg, &s);
        push_str(&mut msg, "\"");
        Err(unsupported_error(&msg))
    }
}


/// What `parse_vless_outbound` makes of an outbound, its random id left
/// blank.
pub open spec fn vless_outbound_spec(remarks: Seq<char>, outbound: Json) -> Result<
    NodeView,
    ErrorView,
> {
    match vless_endpoint(jget(Some(outbound), "settings"@)) {
        Err(e) => Err(e),
        Ok((address, port, uuid, flow)) => {
            let server = unbracket(address);
            let stream = jget(Some(outbound), "streamSettings"@);
            match json_transport(stream, json_network(stream)) {
                Err(e) => Err(e),
                Ok(transport) => match json_security(stream, server) {
                    Err(e) => Err(e),
                    Ok(sec) => {
                        let name = outbound_name(remarks, server, port);
                        let node = VlessView {
                            uuid,
                            flow: if transport == TransportView::Tcp {
                                flow
                            } else {
                                Seq::empty()
                            },
                            security: sec.security,
                            sni: sec.sni,
                            fingerprint: sec.fingerprint,
                            public_key: sec.public_key,
                            short_id: sec.short_id,
                            insecure: sec.insecure,
                            alpn: sec.alpn,
                            transport,
                        };
                        Ok(
                            NodeView {
                                id: Seq::empty(),
                                name,
                                server,
                                port,
                                last_ping_ms: None,
                                favorite: false,
                                total_up: 0,
                                total_down: 0,
                                raw: canonical_vless(server, port, name, node),
                                kind: KindView::Vless(node),
                            },
                        )
                    },
                },
            }
        },
    }
}

/// Reads a VLESS outbound into a node, with its canonical share link as the
/// raw link. The id of the result is fresh and random.
pub fn parse_vless_outbound(remarks: &str, outbound: &Json) -> (r: AppResult<ProxyNode>)
    ensures
        node_outcome(r) == vless_outbound_spec(remarks@, *outbound),
{
    let (address, port, uuid, flow) = match vless_endpoint_exec(get(Some(outbound), "settings")) {
        Ok(t) => t,
        Err(e) => {
            return Err(e);
        },
    };
    let server = strip_trailing_exec(&strip_leading_exec(&address, '['), ']');
    let stream = get(Some(outbound), "streamSettings");
    let raw_network = match as_str(get(stream, "network")) {
        Some(n) => trim_chars(&chars_of(n)),
        None => chars_of("tcp"),
    };
    let network = lower_chars(&raw_network);
    let transport = match json_transport_exec(stream, &network) {
        Ok(t) => t,
        Err(e) => {
            return Err(e);
        },
    };
    let sec = match json_security_exec(stream, &server) {
        Ok(p) => p,
        Err(e) => {
            return Err(e);
        },
    };
    let flow = if matches!(transport, Transport::Tcp) {
        flow
    } else {
        Vec::new()
    };
    let name = outbound_name_exec(remarks, &server, port);
    assert(strings_text(sec.alpn@) =~= texts(sec.alpn@));
    let node = VlessNode {
        uuid: string_of(&uuid),
        flow: string_of(&flow),
        security: sec.security,
        sni: string_of(&sec.sni),
        fingerprint: string_of(&sec.fingerprint),
        public_key: string_of(&sec.public_key),
        short_id: string_of(&sec.short_id),
        insecure: sec.insecure,
        alpn: sec.alpn,
        transport,
    };
    let server_s = string_of(&server);
    let name_s = string_of(&name);
    let raw = build_canonical_vless_uri(server_s.as_str(), port, name_s.as_str(), &node);
    Ok(
        ProxyNode {
            id: new_id(),
            name: name_s,
            server: server_s,
            port,
            last_ping_ms: None,
            favorite: false,
            total_up: 0,
            total_down: 0,
            raw,
            kind: ProxyKind::Vless(node),
        },
    )
}


// ---------------------------------------------------------------------------
// Hysteria outbounds
// ---------------------------------------------------------------------------

/// `settings.address`, else `settings.vnext[0].address`.
pub open spec fn settings_address(settings: Option<Json>) -> Option<Json> {
    jor(jget(settings, "address"@), jget(jfirst(jget(settings, "vnext"@)), "address"@))
}

/// `settings.port`, else `settings.vnext[0].port`.
pub open spec fn settings_port(settings: Option<Json>) -> Option<Json> {
    jor(jget(settings, "port"@), jget(jfirst(jget(settings, "vnext"@)), "port"@))
}

/// The port of a Hysteria outbound: from `settings`, else from
/// `settings.vnext[0]`, else 443.
pub open spec fn hysteria_port(settings: Option<Json>) -> u16 {
    match port_value(jget(settings, "port"@)) {
        Some(p) => p,
        None => match port_value(jget(jfirst(jget(settings, "vnext"@)), "port"@)) {
            Some(p) => p,
            None => 443,
        },
    }
}

/// The password: `auth` or `password` in the Hysteria stream settings, else
/// in `settings`.
pub open spec fn hysteria_password(hs: Option<Json>, settings: Option<Json>) -> Option<Seq<char>> {
    jstr(
        jor(
            jor(jor(jget(hs, "auth"@), jget(hs, "password"@)), jget(settings, "auth"@)),
            jget(settings, "password"@),
        ),
    )
}

/// The Salamander password, when one is set and not empty.
pub open spec fn hysteria_obfs(hs: Option<Json>) -> Option<Seq<char>> {
    let o = jget(hs, "obfs"@);
    nonempty(
        jstr(
            jor(
                jor(jget(hs, "obfsPassword"@), jget(hs, "obfs-password"@)),
                jor(jget(o, "password"@), jget(o, "salamander"@)),
            ),
        ),
    )
}

/// What `parse_hysteria_outbound` makes of an outbound, its random id left
/// blank.
pub open spec fn hysteria_outbound_spec(remarks: Seq<char>, outbound: Json) -> Result<
    NodeView,
    ErrorView,
> {
    let settings = jget(Some(outbound), "settings"@);
    match jstr(settings_address(settings)) {
        None => Err(ErrorView::Parse("hysteria missing address"@)),
        Some(address) => {
            let server = unbracket(address);
            let port = hysteria_port(settings);
            let stream = jget(Some(outbound), "streamSettings"@);
            let hs = jor(jget(stream, "hysteriaSettings"@), jget(stream, "hysteria2Settings"@));
            match hysteria_password(hs, settings) {
                None => Err(ErrorView::Parse("hysteria missing auth/password"@)),
                Some(password) => {
                    let tls = jget(stream, "tlsSettings"@);
                    let name = outbound_name(remarks, server, port);
                    let node = Hysteria2View {
                        password,
                        obfs: hysteria_obfs(hs),
                        insecure: json_insecure(tls),
                        sni: json_sni(or_default(jstr(jget(tls, "serverName"@))), server),
                        alpn: match json_alpn(jget(tls, "alpn"@)) {
                            Some(a) => a,
                            None => seq!["h3"@],
                        },
                    };
                    Ok(
                        NodeView {
                            id: Seq::empty(),
                            name,
                            server,
                            port,
                            last_ping_ms: None,
                            favorite: false,
                            total_up: 0,
                            total_down: 0,
                            raw: canonical_hysteria2(server, port, name, node),
                            kind: KindView::Hysteria2(node),
                        },
                    )
                },
            }
        },
    }
}

fn hysteria_port_exec(settings: Option<&Json>) -> (r: u16)
    ensures
        r == hysteria_port(deref(settings)),
{
    match port_value_exec(get(settings, "port")) {
        Some(p) => p,
        None => match port_value_exec(get(first(get(settings, "vnext")), "port")) {
            Some(p) => p,
            None => 443,
        },
    }
}

fn hysteria_obfs_exec(hs: Option<&Json>) -> (r: Option<Hysteria2Obfs>)
    ensures
        obfs_view(r) == hysteria_obfs(deref(hs)),
{
    let o = get(hs, "obfs");
    let v = or_else(
        or_else(get(hs, "obfsPassword"), get(hs, "obfs-password")),
        or_else(get(o, "password"), get(o, "salamander")),
    );
    match as_str(v) {
        Some(p) => {
            let c = chars_of(p);
            if c.len() > 0 {
                Some(Hysteria2Obfs::Salamander { password: string_of(&c) })
            } else {
                None
            }
        },
        None => None,
    }
}

fn alpn_or_h3(tls: Option<&Json>) -> (r: Vec<String>)
    ensures
        texts(r@) == match json_alpn(jget(deref(tls), "alpn"@)) {
            Some(a) => a,
            None => seq!["h3"@],
        },
{
    match json_alpn_exec(get(tls, "alpn")) {
        Some(a) => {
            assert(strings_text(a@) =~= texts(a@));
            a
        },
        None => {
            let mut v: Vec<String> = Vec::new();
            v.push(String::from_str("h3"));
            assert(texts(v@) =~= seq!["h3"@]);
            v
        },
    }
}

/// Reads a Hysteria (v2) outbound into a node, with its canonical share
/// link as the raw link. The id of the result is fresh and random.
pub fn parse_hysteria_outbound(remarks: &str, outbound: &Json) -> (r: AppResult<ProxyNode>)
    ensures
        node_outcome(r) == hysteria_outbound_spec(remarks@, *outbound),
{
    let settings = get(Some(outbound), "settings");
    let address = match as_str(
        or_else(get(settings, "address"), get(first(get(settings, "vnext")), "address")),
    ) {
        Some(a) => chars_of(a),
        None => {
            return Err(parse_error(&chars_of("hysteria missing address")));
        },
    };
    let server = strip_trailing_exec(&strip_leading_exec(&address, '['), ']');
    let port = hysteria_port_exec(settings);
    let stream = get(Some(outbound), "streamSettings");
    let hs = or_else(get(stream, "hysteriaSettings"), get(stream, "hysteria2Settings"));
    let pw = or_else(
        or_else(or_else(get(hs, "auth"), get(hs, "password")), get(settings, "auth")),
        get(settings, "password"),
    );
    let password = match as_str(pw) {
        Some(p) => String::from_str(p),
        None => {
            return Err(parse_error(&chars_of("hysteria missing auth/password")));
        },
    };
    let tls = get(stream, "tlsSettings");
    let sni = json_sni_exec(text_or_default(get(tls, "serverName")), &server);
    let node = Hysteria2Node {
        password,
        obfs: hysteria_obfs_exec(hs),
        insecure: json_insecure_exec(tls),
        sni: string_of(&sni),
        alpn: alpn_or_h3(tls),
    };
    let name = outbound_name_exec(remarks, &server, port);
    let server_s = string_of(&server);
    let name_s = string_of(&name);
    let raw = build_canonical_hysteria2_uri(server_s.as_str(), port, name_s.as_str(), &node);
    Ok(
        ProxyNode {
            id: new_id(),
            name: name_s,
            server: server_s,
            port,
            last_ping_ms: None,
            favorite: false,
            total_up: 0,
            total_down: 0,
            raw,
            kind: ProxyKind::Hysteria2(node),
        },
    )
}

} // verus!
