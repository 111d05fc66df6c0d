//! vless:// share-link parser.
//! Format: vless://<uuid>@<host>:<port>?<query>#<remark>

use vstd::prelude::*;
use vstd::string::*;

use crate::error::{parse_error, unsupported_error, AppError, AppResult, ErrorView};
use crate::ids::new_id;
use crate::models::{
    KindView, NodeView, ProxyKind, ProxyNode, Security, Transport, TransportView, VlessNode,
    VlessView, without_id,
};
use crate::text::{
    chars_of, decimal, decimal_exec, eq_ignore_case, eq_ignore_case_exec, eq_str, find,
    find_exec, copy_range, is_blank, lower_chars, lower_seq, push_all, push_str, split_chars,
    split_char, split_once, split_once_exec, split_trimmed, seq_views, string_of, strings_text,
    trim, trim_bounds, trim_chars, trimmed_nonempty,
};
use crate::url_text::{
    dec, is_ip_address, pair_texts, parse_url, parses_as_ip, percent_decoded, url_parse,
    UrlParts, UrlView,
};

verus! {

pub struct VlessParser;

// ---------------------------------------------------------------------------
// Query parameters
// ---------------------------------------------------------------------------

/// One `key=value` piece: the key percent-decoded, the value kept raw.
pub open spec fn query_entry(p: Seq<char>) -> (Seq<char>, Seq<char>) {
    match split_once(p, '=') {
        Some((k, v)) => (percent_decoded(k), v),
        None => (percent_decoded(p), Seq::empty()),
    }
}

/// The entries of the non-empty `&`-separated pieces, in order.
pub open spec fn query_entries(pieces: Seq<Seq<char>>) -> Seq<(Seq<char>, Seq<char>)>
    decreases pieces.len(),
{
    if pieces.len() == 0 {
        Seq::empty()
    } else {
        let r = query_entries(pieces.drop_last());
        if pieces.last().len() == 0 {
            r
        } else {
            r.push(query_entry(pieces.last()))
        }
    }
}

pub open spec fn has_key(es: Seq<(Seq<char>, Seq<char>)>, k: Seq<char>) -> bool {
    exists|i: int| 0 <= i < es.len() && #[trigger] es[i].0 == k
}

/// The entries whose key has not occurred before: the first occurrence wins.
pub open spec fn first_keys(es: Seq<(Seq<char>, Seq<char>)>) -> Seq<(Seq<char>, Seq<char>)>
    decreases es.len(),
{
    if es.len() == 0 {
        Seq::empty()
    } else {
        let d = first_keys(es.drop_last());
        if has_key(d, es.last().0) {
            d
        } else {
            d.push(es.last())
        }
    }
}

/// The parameter map of a query: keys decoded, values raw, first wins.
pub open spec fn query_map_spec(query: Option<Seq<char>>) -> Seq<(Seq<char>, Seq<char>)> {
    match query {
        Some(q) => first_keys(query_entries(split_char(q, '&'))),
        None => Seq::empty(),
    }
}

/// The value stored under `k`.
pub open spec fn lookup(es: Seq<(Seq<char>, Seq<char>)>, k: Seq<char>) -> Option<Seq<char>>
    decreases es.len(),
{
    if es.len() == 0 {
        None
    } else if es[0].0 == k {
        Some(es[0].1)
    } else {
        lookup(es.drop_first(), k)
    }
}

/// Manual query parsing: `+` is not a space, keys are decoded, values are
/// kept raw, and the first occurrence of a key wins.
pub fn query_map(query: Option<&str>) -> (r: Vec<(String, String)>)
    ensures
        pair_texts(r@) == query_map_spec(match query {
            Some(q) => Some(q@),
            None => None,
        }),
{
    let mut map: Vec<(String, String)> = Vec::new();
    let q = match query {
        Some(q) => q,
        None => {
            return map;
        },
    };
    let qc = chars_of(q);
    let pieces = split_chars(&qc, '&');
    let mut i: usize = 0;
    while i < pieces.len()
        invariant
            i <= pieces@.len(),
            seq_views(pieces@) == split_char(q@, '&'),
            pair_texts(map@) == first_keys(query_entries(seq_views(pieces@).subrange(0, i as int))),
        decreases pieces.len() - i,
    {
        let ghost pre = seq_views(pieces@).subrange(0, i as int);
        let ghost nxt = seq_views(pieces@).subrange(0, i + 1 as int);
        proof {
            assert(nxt.drop_last() =~= pre);
            assert(nxt.last() == pieces@[i as int]@);
        }
        let piece = &pieces[i];
        if piece.len() > 0 {
            let e = entry_of(piece);
            let present = contains_key(&map, &e.0);
            let ghost before = map@;
            if !present {
                map.push(e);
            }
            proof {
                lemma_first_keys_push(query_entries(pre), (e.0@, e.1@));
                lemma_pair_texts_push(before, e);
            }
        }
        i += 1;
    }
    assert(seq_views(pieces@).subrange(0, pieces@.len() as int) =~= seq_views(pieces@));
    map
}

proof fn lemma_first_keys_push(es: Seq<(Seq<char>, Seq<char>)>, x: (Seq<char>, Seq<char>))
    ensures
        first_keys(es.push(x)) == (if has_key(first_keys(es), x.0) {
            first_keys(es)
        } else {
            first_keys(es).push(x)
        }),
{
    assert(es.push(x).drop_last() =~= es);
}

proof fn lemma_pair_texts_push(v: Seq<(String, String)>, e: (String, String))
    ensures
        pair_texts(v.push(e)) == pair_texts(v).push((e.0@, e.1@)),
{
    assert(pair_texts(v.push(e)) =~= pair_texts(v).push((e.0@, e.1@)));
}

/// One `key=value` piece as an entry.
fn entry_of(piece: &[char]) -> (r: (String, String))
    ensures
        (r.0@, r.1@) == query_entry(piece@),
{
    match split_once_exec(piece, '=') {
        Some(kv) => {
            let k = dec(&kv.0);
            (string_of(&k), string_of(&kv.1))
        },
        None => {
            let k = dec(piece);
            let empty: Vec<char> = Vec::new();
            (string_of(&k), string_of(&empty))
        },
    }
}

fn contains_key(map: &Vec<(String, String)>, k: &String) -> (r: bool)
    ensures
        r == has_key(pair_texts(map@), k@),
{
    let mut i: usize = 0;
    while i < map.len()
        invariant
            i <= map@.len(),
            forall|j: int| 0 <= j < i ==> #[trigger] pair_texts(map@)[j].0 != k@,
        decreases map.len() - i,
    {
        if map[i].0 == *k {
            assert(pair_texts(map@)[i as int].0 == k@);
            return true;
        }
        i += 1;
    }
    false
}

/// The raw value stored under `key`.
pub fn raw_param(map: &Vec<(String, String)>, key: &str) -> (r: Option<Vec<char>>)
    ensures
        opt_chars(r) == lookup(pair_texts(map@), key@),
{
    let k = String::from_str(key);
    let mut i: usize = 0;
    assert(pair_texts(map@).subrange(0, map@.len() as int) =~= pair_texts(map@));
    while i < map.len()
        invariant
            i <= map@.len(),
            k@ == key@,
            lookup(pair_texts(map@), key@) == lookup(pair_texts(map@).subrange(i as int, map@.len() as int), key@),
        decreases map.len() - i,
    {
        let ghost rest = pair_texts(map@).subrange(i as int, map@.len() as int);
        assert(rest.drop_first() =~= pair_texts(map@).subrange(i + 1 as int, map@.len() as int));
        if map[i].0 == k {
            return Some(chars_of(map[i].1.as_str()));
        }
        i += 1;
    }
    assert(pair_texts(map@).subrange(i as int, map@.len() as int) =~= Seq::<(Seq<char>, Seq<char>)>::empty());
    None
}

pub open spec fn opt_chars(o: Option<Vec<char>>) -> Option<Seq<char>> {
    match o {
        Some(v) => Some(v@),
        None => None,
    }
}

/// The percent-decoded value stored under `k`.
pub open spec fn qget(q: Seq<(Seq<char>, Seq<char>)>, k: Seq<char>) -> Option<Seq<char>> {
    match lookup(q, k) {
        Some(v) => Some(percent_decoded(v)),
        None => None,
    }
}

/// The decoded value stored under `key`.
pub fn param(map: &Vec<(String, String)>, key: &str) -> (r: Option<Vec<char>>)
    ensures
        opt_chars(r) == qget(pair_texts(map@), key@),
{
    match raw_param(map, key) {
        Some(v) => Some(dec(&v)),
        None => None,
    }
}

pub open spec fn nonempty(o: Option<Seq<char>>) -> Option<Seq<char>> {
    match o {
        Some(v) => if v.len() > 0 {
            Some(v)
        } else {
            None
        },
        None => None,
    }
}

pub open spec fn or_default(o: Option<Seq<char>>) -> Seq<char> {
    match o {
        Some(v) => v,
        None => Seq::empty(),
    }
}

fn take_nonempty(o: Option<Vec<char>>) -> (r: Option<Vec<char>>)
    ensures
        opt_chars(r) == nonempty(opt_chars(o)),
{
    match o {
        Some(v) => if v.len() > 0 {
            Some(v)
        } else {
            None
        },
        None => None,
    }
}

fn unwrap_or_default(o: Option<Vec<char>>) -> (r: Vec<char>)
    ensures
        r@ == or_default(opt_chars(o)),
{
    match o {
        Some(v) => v,
        None => Vec::new(),
    }
}

fn unwrap_or_lit(o: Option<Vec<char>>, lit: &str) -> (r: Vec<char>)
    ensures
        r@ == (match opt_chars(o) {
            Some(v) => v,
            None => lit@,
        }),
{
    match o {
        Some(v) => v,
        None => chars_of(lit),
    }
}

// ---------------------------------------------------------------------------
// The link's fields
// ---------------------------------------------------------------------------

/// The requested transport: `type`, trimmed and lower-cased, `tcp` by default.
pub open spec fn transport_type(q: Seq<(Seq<char>, Seq<char>)>) -> Seq<char> {
    match qget(q, "type"@) {
        Some(t) => if lower_seq(trim(t)).len() > 0 {
            lower_seq(trim(t))
        } else {
            "tcp"@
        },
        None => "tcp"@,
    }
}

/// The ws/httpupgrade path: `/` by default, with an `?ed=` early-data
/// suffix cut off.
pub open spec fn ws_path(q: Seq<(Seq<char>, Seq<char>)>) -> Seq<char> {
    let p0 = match nonempty(qget(q, "path"@)) {
        Some(p) => p,
        None => "/"@,
    };
    let p1 = match find(p0, "?ed="@) {
        Some(i) => p0.subrange(0, i),
        None => p0,
    };
    if p1.len() == 0 {
        "/"@
    } else {
        p1
    }
}

pub open spec fn transport_detail(t: Seq<char>) -> Seq<char> {
    if t == "xhttp"@ || t == "splithttp"@ {
        " — sing-box has no xhttp/SplitHTTP transport (Xray only)"@
    } else {
        Seq::empty()
    }
}

pub open spec fn vless_transport(q: Seq<(Seq<char>, Seq<char>)>) -> Result<TransportView, ErrorView> {
    let t = transport_type(q);
    if t == "tcp"@ {
        Ok(TransportView::Tcp)
    } else if t == "ws"@ || t == "httpupgrade"@ {
        let path = ws_path(q);
        let host = or_default(qget(q, "host"@));
        if t == "ws"@ {
            Ok(TransportView::Ws { path, host })
        } else {
            Ok(TransportView::Httpupgrade { path, host })
        }
    } else if t == "grpc"@ {
        Ok(TransportView::Grpc { service_name: or_default(qget(q, "serviceName"@)) })
    } else {
        Err(ErrorView::Unsupported("transport \""@ + t + "\""@ + transport_detail(t)))
    }
}

pub open spec fn vless_security(q: Seq<(Seq<char>, Seq<char>)>) -> Result<Security, ErrorView> {
    let s = match nonempty(qget(q, "security"@)) {
        Some(v) => v,
        None => "none"@,
    };
    if s == "reality"@ {
        Ok(Security::Reality)
    } else if s == "tls"@ {
        Ok(Security::Tls)
    } else if s == "none"@ {
        Ok(Security::Plain)
    } else {
        Err(ErrorView::Unsupported("security \""@ + s + "\""@))
    }
}

/// SNI: the `sni` parameter, else `host`, else the server when it is a
/// domain name; empty without TLS.
pub open spec fn vless_sni(q: Seq<(Seq<char>, Seq<char>)>, security: Security, server: Seq<char>) -> Seq<char> {
    if security == Security::Plain {
        Seq::empty()
    } else {
        match nonempty(qget(q, "sni"@)) {
            Some(v) => v,
            None => match nonempty(qget(q, "host"@)) {
                Some(v) => v,
                None => if !is_ip_address(server) {
                    server
                } else {
                    Seq::empty()
                },
            },
        }
    }
}

pub open spec fn vless_fingerprint(q: Seq<(Seq<char>, Seq<char>)>, security: Security) -> Seq<char> {
    if security == Security::Reality {
        match nonempty(qget(q, "fp"@)) {
            Some(v) => v,
            None => "chrome"@,
        }
    } else {
        or_default(qget(q, "fp"@))
    }
}

pub open spec fn vless_alpn(q: Seq<(Seq<char>, Seq<char>)>, security: Security) -> Seq<Seq<char>> {
    if security == Security::Reality {
        Seq::empty()
    } else {
        match qget(q, "alpn"@) {
            Some(a) => trimmed_nonempty(split_char(a, ',')),
            None => Seq::empty(),
        }
    }
}

pub open spec fn vless_insecure(q: Seq<(Seq<char>, Seq<char>)>) -> bool {
    (match qget(q, "allowInsecure"@) {
        Some(v) => v == "1"@ || eq_ignore_case(v, "true"@),
        None => false,
    }) || qget(q, "insecure"@) == Some("1"@)
}

/// `s.trim_start_matches(c)`.
pub open spec fn strip_leading(s: Seq<char>, c: char) -> Seq<char>
    decreases s.len(),
{
    if s.len() > 0 && s[0] == c {
        strip_leading(s.drop_first(), c)
    } else {
        s
    }
}

/// `s.trim_end_matches(c)`.
pub open spec fn strip_trailing(s: Seq<char>, c: char) -> Seq<char>
    decreases s.len(),
{
    if s.len() > 0 && s.last() == c {
        strip_trailing(s.drop_last(), c)
    } else {
        s
    }
}

/// The host without IPv6 brackets.
pub open spec fn unbracket(h: Seq<char>) -> Seq<char> {
    strip_trailing(strip_leading(h, '['), ']')
}

/// The display name: the decoded `#remark`, or `server:port` when it is
/// missing or blank.
pub open spec fn remark_name(fragment: Option<Seq<char>>, server: Seq<char>, port: u16) -> Seq<char> {
    match fragment {
        Some(f) => if !is_blank(percent_decoded(f)) {
            percent_decoded(f)
        } else {
            server + ":"@ + decimal(port as nat)
        },
        None => server + ":"@ + decimal(port as nat),
    }
}

/// What `parse_vless` makes of a link, its random id left blank.
pub open spec fn vless_spec(uri: Seq<char>) -> Result<NodeView, ErrorView> {
    match url_parse(uri) {
        Err(e) => Err(ErrorView::Parse("invalid vless link: "@ + e)),
        Ok(u) => vless_from_url(uri, u),
    }
}

/// What a vless link makes of its parsed URL (`uri` kept as the raw link).
pub open spec fn vless_from_url(uri: Seq<char>, u: UrlView) -> Result<NodeView, ErrorView> {
    if u.scheme != "vless"@ {
        Err(ErrorView::Parse("not a vless link"@))
    } else if percent_decoded(u.username).len() == 0 {
        Err(ErrorView::Parse("missing user id before @"@))
    } else {
        match u.host {
            None => Err(ErrorView::Parse("missing server address"@)),
            Some(h) => match u.port {
                None => Err(ErrorView::Parse("missing port"@)),
                Some(port) => vless_from_query(uri, u, unbracket(h), port, query_map_spec(u.query)),
            },
        }
    }
}

pub open spec fn vless_from_query(
    uri: Seq<char>,
    u: UrlView,
    server: Seq<char>,
    port: u16,
    q: Seq<(Seq<char>, Seq<char>)>,
) -> Result<NodeView, ErrorView> {
    if qget(q, "headerType"@) == Some("http"@) {
        Err(ErrorView::Unsupported("headerType=http (HTTP obfuscation)"@))
    } else {
        match vless_transport(q) {
            Err(e) => Err(e),
            Ok(transport) => match vless_security(q) {
                Err(e) => Err(e),
                Ok(security) => {
                    let public_key = or_default(lookup(q, "pbk"@));
                    if security == Security::Reality && public_key.len() == 0 {
                        Err(ErrorView::Parse("reality link is missing pbk"@))
                    } else {
                        Ok(
                            NodeView {
                                id: Seq::empty(),
                                name: remark_name(u.fragment, server, port),
                                server,
                                port,
                                last_ping_ms: None,
                                favorite: false,
                                total_up: 0,
                                total_down: 0,
                                raw: uri,
                                kind: KindView::Vless(
                                    VlessView {
                                        uuid: percent_decoded(u.username),
                                        flow: if transport == TransportView::Tcp {
                                            or_default(qget(q, "flow"@))
                                        } else {
                                            Seq::empty()
                                        },
                                        security,
                                        sni: vless_sni(q, security, server),
                                        fingerprint: vless_fingerprint(q, security),
                                        public_key,
                                        short_id: or_default(qget(q, "sid"@)),
                                        insecure: vless_insecure(q),
                                        alpn: vless_alpn(q, security),
                                        transport,
                                    },
                                ),
                            },
                        )
                    }
                },
            },
        }
    }
}

/// The `type` a transport is named by.
pub open spec fn transport_kind(t: TransportView) -> Seq<char> {
    match t {
        TransportView::Tcp => "tcp"@,
        TransportView::Ws { .. } => "ws"@,
        TransportView::Grpc { .. } => "grpc"@,
        TransportView::Httpupgrade { .. } => "httpupgrade"@,
    }
}

/// A parsed link's transport is the one its `type` names: `ws` gives a
/// WebSocket transport, `httpupgrade` an HTTP-upgrade one, `grpc` gRPC and
/// `tcp` (or no `type`) plain TCP; any other type is refused.
pub proof fn lemma_parsed_transport_kind(uri: Seq<char>, u: UrlView)
    ensures
        vless_from_url(uri, u) is Ok ==> {
            let n = vless_from_url(uri, u)->Ok_0;
            &&& n.kind is Vless
            &&& transport_kind(n.kind->Vless_0.transport) == transport_type(query_map_spec(u.query))
        },
        vless_from_url(uri, u) is Ok && transport_type(query_map_spec(u.query)) == "httpupgrade"@
            ==> vless_from_url(uri, u)->Ok_0.kind->Vless_0.transport is Httpupgrade,
        vless_from_url(uri, u) is Ok && transport_type(query_map_spec(u.query)) == "ws"@
            ==> vless_from_url(uri, u)->Ok_0.kind->Vless_0.transport is Ws,
{
    reveal_strlit("tcp");
    reveal_strlit("ws");
    reveal_strlit("grpc");
    reveal_strlit("httpupgrade");
    assert("ws"@ != "httpupgrade"@ && "ws"@ != "tcp"@ && "ws"@ != "grpc"@) by {
        assert("ws"@.len() == 2 && "httpupgrade"@.len() == 11 && "tcp"@.len() == 3 && "grpc"@.len() == 4);
    }
    assert("httpupgrade"@ != "tcp"@ && "httpupgrade"@ != "grpc"@ && "grpc"@ != "tcp"@) by {
        assert("httpupgrade"@.len() == 11 && "tcp"@.len() == 3 && "grpc"@.len() == 4);
    }
}

/// The same for a whole link: a parsed `vless://` link's transport is the
/// one the `type` of its query names.
pub proof fn lemma_vless_transport_kind(uri: Seq<char>)
    ensures
        vless_spec(uri) is Ok ==> {
            &&& url_parse(uri) is Ok
            &&& vless_spec(uri)->Ok_0.kind is Vless
            &&& transport_kind(vless_spec(uri)->Ok_0.kind->Vless_0.transport) == transport_type(
                query_map_spec(url_parse(uri)->Ok_0.query),
            )
        },
{
    match url_parse(uri) {
        Ok(u) => lemma_parsed_transport_kind(uri, u),
        Err(_) => {},
    }
}

// ---------------------------------------------------------------------------
// Executable parser
// ---------------------------------------------------------------------------

pub open spec fn transport_outcome(r: AppResult<Transport>) -> Result<TransportView, ErrorView> {
    match r {
        Ok(t) => Ok(t@),
        Err(e) => Err(e@),
    }
}

fn transport_of(q: &Vec<(String, String)>) -> (r: AppResult<Transport>)
    ensures
        transport_outcome(r) == vless_transport(pair_texts(q@)),
{
    let ghost qs = pair_texts(q@);
    let t = match param(q, "type") {
        Some(t) => {
            let l = lower_chars(&trim_chars(&t));
            if l.len() > 0 {
                l
            } else {
                chars_of("tcp")
            }
        },
        None => chars_of("tcp"),
    };
    assert(t@ == transport_type(qs));
    if eq_str(&t, "tcp") {
        Ok(Transport::Tcp)
    } else if eq_str(&t, "ws") || eq_str(&t, "httpupgrade") {
        let path = ws_path_exec(q);
        let host = unwrap_or_default(param(q, "host"));
        if eq_str(&t, "ws") {
            Ok(Transport::Ws { path: string_of(&path), host: string_of(&host) })
        } else {
            Ok(Transport::Httpupgrade { path: string_of(&path), host: string_of(&host) })
        }
    } else if eq_str(&t, "grpc") {
        let name = unwrap_or_default(param(q, "serviceName"));
        Ok(Transport::Grpc { service_name: string_of(&name) })
    } else {
        let mut msg = chars_of("transport \"");
        push_all(&mut msg, &t);
        push_str(&mut msg, "\"");
        if eq_str(&t, "xhttp") || eq_str(&t, "splithttp") {
            push_str(&mut msg, " — sing-box has no xhttp/SplitHTTP transport (Xray only)");
        } else {
            proof {
                assert(msg@ + transport_detail(t@) =~= msg@);
            }
        }
        Err(unsupported_error(&msg))
    }
}

fn ws_path_exec(q: &Vec<(String, String)>) -> (r: Vec<char>)
    ensures
        r@ == ws_path(pair_texts(q@)),
{
    let p0 = unwrap_or_lit(take_nonempty(param(q, "path")), "/");
    let ed = chars_of("?ed=");
    let p1 = match find_exec(&p0, &ed) {
        Some(i) => {
            proof {
                crate::text::lemma_find_bounds(p0@, ed@);
            }
            copy_range(&p0, 0, i)
        },
        None => p0,
    };
    if p1.len() == 0 {
        chars_of("/")
    } else {
        p1
    }
}

pub open spec fn security_outcome(r: AppResult<Security>) -> Result<Security, ErrorView> {
    match r {
        Ok(t) => Ok(t),
        Err(e) => Err(e@),
    }
}

fn security_of(q: &Vec<(String, String)>) -> (r: AppResult<Security>)
    ensures
        security_outcome(r) == vless_security(pair_texts(q@)),
{
    let s = unwrap_or_lit(take_nonempty(param(q, "security")), "none");
    if eq_str(&s, "reality") {
        Ok(Security::Reality)
    } else if eq_str(&s, "tls") {
        Ok(Security::Tls)
    } else if eq_str(&s, "none") {
        Ok(Security::Plain)
    } else {
        let mut msg = chars_of("security \"");
        push_all(&mut msg, &s);
        push_str(&mut msg, "\"");
        Err(unsupported_error(&msg))
    }
}

fn sni_of(q: &Vec<(String, String)>, security: Security, server: &[char]) -> (r: Vec<char>)
    ensures
        r@ == vless_sni(pair_texts(q@), security, server@),
{
    if matches!(security, Security::Plain) {
        return Vec::new();
    }
    match take_nonempty(param(q, "sni")) {
        Some(v) => v,
        None => match take_nonempty(param(q, "host")) {
            Some(v) => v,
            None => {
                let st = string_of(server);
                if !parses_as_ip(st.as_str()) {
                    copy_range(server, 0, server.len())
                } else {
                    Vec::new()
                }
            },
        },
    }
}

fn fingerprint_of(q: &Vec<(String, String)>, security: Security) -> (r: Vec<char>)
    ensures
        r@ == vless_fingerprint(pair_texts(q@), security),
{
    if matches!(security, Security::Reality) {
        unwrap_or_lit(take_nonempty(param(q, "fp")), "chrome")
    } else {
        unwrap_or_default(param(q, "fp"))
    }
}

fn alpn_of(q: &Vec<(String, String)>, security: Security) -> (r: Vec<String>)
    ensures
        strings_text(r@) == vless_alpn(pair_texts(q@), security),
{
    if matches!(security, Security::Reality) {
        let r: Vec<String> = Vec::new();
        assert(strings_text(r@) =~= Seq::<Seq<char>>::empty());
        return r;
    }
    match param(q, "alpn") {
        Some(a) => split_trimmed(&a, ','),
        None => {
            let r: Vec<String> = Vec::new();
            assert(strings_text(r@) =~= Seq::<Seq<char>>::empty());
            r
        },
    }
}

fn insecure_of(q: &Vec<(String, String)>) -> (r: bool)
    ensures
        r == vless_insecure(pair_texts(q@)),
{
    let truth = chars_of("true");
    let a = match param(q, "allowInsecure") {
        Some(v) => eq_str(&v, "1") || eq_ignore_case_exec(&v, &truth),
        None => false,
    };
    let b = match param(q, "insecure") {
        Some(v) => eq_str(&v, "1"),
        None => false,
    };
    a || b
}

pub fn strip_leading_exec(s: &[char], c: char) -> (r: Vec<char>)
    ensures
        r@ == strip_leading(s@, c),
{
    let mut i: usize = 0;
    assert(s@.subrange(0, s@.len() as int) =~= s@);
    while i < s.len() && s[i] == c
        invariant
            i <= s@.len(),
            strip_leading(s@, c) == strip_leading(s@.subrange(i as int, s@.len() as int), c),
        decreases s.len() - i,
    {
        assert(s@.subrange(i as int, s@.len() as int).drop_first() =~= s@.subrange(i + 1 as int, s@.len() as int));
        i += 1;
    }
    copy_range(s, i, s.len())
}

pub fn strip_trailing_exec(s: &[char], c: char) -> (r: Vec<char>)
    ensures
        r@ == strip_trailing(s@, c),
{
    let mut j: usize = s.len();
    assert(s@.subrange(0, s@.len() as int) =~= s@);
    while j > 0 && s[j - 1] == c
        invariant
            j <= s@.len(),
            strip_trailing(s@, c) == strip_trailing(s@.subrange(0, j as int), c),
        decreases j,
    {
        assert(s@.subrange(0, j as int).drop_last() =~= s@.subrange(0, j - 1 as int));
        j -= 1;
    }
    copy_range(s, 0, j)
}

pub fn remark_name_exec(fragment: &Option<String>, server: &[char], port: u16) -> (r: Vec<char>)
    ensures
        r@ == remark_name(crate::url_text::opt_text(*fragment), server@, port),
{
    match fragment {
        Some(f) => {
            let d = dec(&chars_of(f.as_str()));
            let (a, b) = trim_bounds(&d);
            if a < b {
                return d;
            }
        },
        None => {},
    }
    let mut name = copy_range(server, 0, server.len());
    push_str(&mut name, ":");
    let digits = decimal_exec(port as u64);
    push_all(&mut name, &digits);
    name
}

pub open spec fn node_outcome(r: AppResult<ProxyNode>) -> Result<NodeView, ErrorView> {
    match r {
        Ok(n) => Ok(without_id(n@)),
        Err(e) => Err(e@),
    }
}

/// Parses a `vless://` link. The id of the result is fresh and random.
pub fn parse_vless(uri: &str) -> (r: AppResult<ProxyNode>)
    ensures
        node_outcome(r) == vless_spec(uri@),
{
    let url = match parse_url(uri) {
        Ok(u) => u,
        Err(e) => {
            let mut msg = chars_of("invalid vless link: ");
            push_str(&mut msg, e.as_str());
            return Err(parse_error(&msg));
        },
    };
    vless_from_url_parts(uri, &url)
}

/// Builds the server of a vless link from its parsed URL: user id, host and
/// port, transport and security parameters and name (see
/// `vless_from_url`). The id of the result is fresh and random.
pub fn vless_from_url_parts(uri: &str, url: &UrlParts) -> (r: AppResult<ProxyNode>)
    ensures
        node_outcome(r) == vless_from_url(uri@, url@),
{
    if !eq_str(&chars_of(url.scheme.as_str()), "vless") {
        return Err(parse_error(&chars_of("not a vless link")));
    }
    let uuid = dec(&chars_of(url.username.as_str()));
    if uuid.len() == 0 {
        return Err(parse_error(&chars_of("missing user id before @")));
    }
    let host = match &url.host {
        Some(h) => chars_of(h.as_str()),
        None => {
            return Err(parse_error(&chars_of("missing server address")));
        },
    };
    let server = strip_trailing_exec(&strip_leading_exec(&host, '['), ']');
    let port = match url.port {
        Some(p) => p,
        None => {
            return Err(parse_error(&chars_of("missing port")));
        },
    };
    let q = match &url.query {
        Some(qs) => query_map(Some(qs.as_str())),
        None => query_map(None),
    };
    let ghost qs = pair_texts(q@);
    assert(qs == query_map_spec(url@.query));
    match param(&q, "headerType") {
        Some(h) => {
            if eq_str(&h, "http") {
                return Err(unsupported_error(&chars_of("headerType=http (HTTP obfuscation)")));
            }
        },
        None => {},
    }
    let transport = match transport_of(&q) {
        Ok(t) => t,
        Err(e) => {
            return Err(e);
        },
    };
    let security = match security_of(&q) {
        Ok(s) => s,
        Err(e) => {
            return Err(e);
        },
    };
    let sni = sni_of(&q, security, &server);
    let fingerprint = fingerprint_of(&q, security);
    let public_key = unwrap_or_default(raw_param(&q, "pbk"));
    if matches!(security, Security::Reality) && public_key.len() == 0 {
        return Err(parse_error(&chars_of("reality link is missing pbk")));
    }
    let short_id = unwrap_or_default(param(&q, "sid"));
    let flow = if matches!(transport, Transport::Tcp) {
        unwrap_or_default(param(&q, "flow"))
    } else {
        Vec::new()
    };
    let alpn = alpn_of(&q, security);
    let insecure = insecure_of(&q);
    let name = remark_name_exec(&url.fragment, &server, port);
    let node = ProxyNode {
        id: new_id(),
        name: string_of(&name),
        server: string_of(&server),
        port,
        last_ping_ms: None,
        favorite: false,
        total_up: 0,
        total_down: 0,
        raw: String::from_str(uri),
        kind: ProxyKind::Vless(
            VlessNode {
                uuid: string_of(&uuid),
                flow: string_of(&flow),
                security,
                sni: string_of(&sni),
                fingerprint: string_of(&fingerprint),
                public_key: string_of(&public_key),
                short_id: string_of(&short_id),
                insecure,
                alpn,
                transport,
            },
        ),
    };
    Ok(node)
}

} // verus!
