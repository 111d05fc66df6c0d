//! V2Ray JSON-array subscriptions: panel-notice detection, canonical share
//! links for the servers found, and the outbound extraction.

use vstd::prelude::*;
use vstd::string::*;

use crate::models::{
    obfs_view, texts, Hysteria2Node, Hysteria2Obfs, Hysteria2View, Security, Transport,
    TransportView, VlessNode, VlessView,
};
use crate::text::{
    chars_of, contains, contains_str, copy_range, decimal, decimal_exec, eq_str, find, find_exec,
    has_char, is_ws, is_ws_exec, join, join_exec, join_strings, lemma_find_bounds, lower_chars,
    lower_seq, occurs_at, push_all, push_str, seq_eq, seq_views, starts_with, string_of,
    strings_text, trim, trim_chars,
};
use crate::url_text::{enc, enc_chars, pct_encode};
use crate::error::{error_message, AppResult, ErrorView};
use crate::json::{
    as_str, as_u64, deref, first, get, jget, json_array_text, json_seq_v, jstr, ju64, or_else,
    parse_json_array, Json,
};
use crate::models::{node_views, without_id, NodeView, ProxyNode};
use crate::parser::ids_blank;
use crate::parser::outbounds::{
    hysteria_outbound_spec, parse_hysteria_outbound, parse_vless_outbound, proto_exec, proto_of,
    select_index, select_outbound, settings_address, settings_port, vless_outbound_spec,
};
use crate::parser::vless::{node_outcome, or_default};

verus! {

// ---------------------------------------------------------------------------
// Panel notices
// ---------------------------------------------------------------------------

pub open spec fn is_ascii_alnum(c: char) -> bool {
    ('0' <= c && c <= '9') || ('a' <= c && c <= 'z') || ('A' <= c && c <= 'Z')
}

/// Whether the occurrence of a `len`-character word at `i` stands on word
/// boundaries (no ASCII letter or digit right before or right after it).
pub open spec fn bounded_at(text: Seq<char>, i: int, len: int) -> bool {
    (i == 0 || !is_ascii_alnum(text[i - 1])) && (i + len >= text.len() || !is_ascii_alnum(
        text[i + len],
    ))
}

/// The scan `contains_word` performs from `from` on: the next occurrence is
/// checked for boundaries and the scan resumes after it.
pub open spec fn word_scan(text: Seq<char>, word: Seq<char>, from: int) -> bool
    decreases text.len() - from,
    when 0 <= from <= text.len() && word.len() > 0
{
    match find(text.subrange(from, text.len() as int), word) {
        None => false,
        Some(k) => if bounded_at(text, from + k, word.len() as int) {
            true
        } else if from + k + word.len() <= text.len() && k >= 0 {
            word_scan(text, word, from + k + word.len())
        } else {
            false
        },
    }
}

/// Whether `word` appears in `text` with word boundaries on both sides.
pub fn contains_word(text: &[char], word: &[char]) -> (r: bool)
    requires
        word@.len() > 0,
    ensures
        r == word_scan(text@, word@, 0),
{
    let mut from: usize = 0;
    loop
        invariant
            from <= text@.len(),
            word@.len() > 0,
            word_scan(text@, word@, 0) == word_scan(text@, word@, from as int),
        decreases text.len() - from,
    {
        let rest = copy_range(text, from, text.len());
        match find_exec(&rest, word) {
            None => {
                return false;
            },
            Some(k) => {
                proof {
                    lemma_find_bounds(rest@, word@);
                }
                let abs = from + k;
                let before_ok = abs == 0 || !ascii_alnum_exec(text[abs - 1]);
                let after = abs + word.len();
                let after_ok = after >= text.len() || !ascii_alnum_exec(text[after]);
                if before_ok && after_ok {
                    return true;
                }
                from = after;
            },
        }
    }
}

fn ascii_alnum_exec(c: char) -> (r: bool)
    ensures
        r == is_ascii_alnum(c),
{
    ('0' <= c && c <= '9') || ('a' <= c && c <= 'z') || ('A' <= c && c <= 'Z')
}

pub open spec fn is_handle_char(c: char) -> bool {
    is_ascii_alnum(c) || c == '_'
}

/// A Telegram mention at `i`: `@` at the start or after whitespace, `(` or
/// `[`, followed by at least four letters, digits or underscores.
pub open spec fn mention_at(s: Seq<char>, i: int) -> bool {
    &&& 0 <= i
    &&& i + 4 < s.len()
    &&& s[i] == '@'
    &&& (i == 0 || is_ws(s[i - 1]) || s[i - 1] == '(' || s[i - 1] == '[')
    &&& is_handle_char(s[i + 1])
    &&& is_handle_char(s[i + 2])
    &&& is_handle_char(s[i + 3])
    &&& is_handle_char(s[i + 4])
}

pub open spec fn has_mention(s: Seq<char>) -> bool {
    exists|i: int| mention_at(s, i)
}

fn has_mention_exec(s: &[char]) -> (r: bool)
    ensures
        r == has_mention(s@),
{
    let n = s.len();
    let mut i: usize = 0;
    while i < n
        invariant
            i <= n == s@.len(),
            forall|j: int| 0 <= j < i ==> !mention_at(s@, j),
        decreases n - i,
    {
        if s[i] == '@' && (i == 0 || is_ws_exec(s[i - 1]) || s[i - 1] == '(' || s[i - 1] == '[')
            && 4 < n - i && is_handle_exec(s[i + 1]) && is_handle_exec(s[i + 2]) && is_handle_exec(
            s[i + 3],
        ) && is_handle_exec(s[i + 4]) {
            assert(mention_at(s@, i as int));
            return true;
        }
        i += 1;
    }
    proof {
        assert forall|j: int| !mention_at(s@, j) by {
            if 0 <= j && j >= i {
                assert(j + 4 >= s@.len() || !mention_at(s@, j));
            }
        }
    }
    false
}

fn is_handle_exec(c: char) -> (r: bool)
    ensures
        r == is_handle_char(c),
{
    ascii_alnum_exec(c) || c == '_'
}

/// Stems of Russian notices (expiry, renewal, traffic, support).
pub open spec fn cyrillic_keywords() -> Seq<Seq<char>> {
    seq![
        "осталось"@,
        "осталась"@,
        "истека"@,
        "истёк"@,
        "истек"@,
        "подписк"@,
        "продлит"@,
        "продлен"@,
        "тариф"@,
        "трафик"@,
        "не работает"@,
        "нажим"@,
        "нажат"@,
        "обновит"@,
        "обновлени"@,
        "включит"@,
        "поддержк"@,
        "дней осталось"@,
    ]
}

fn cyrillic_keywords_exec() -> (r: Vec<&'static str>)
    ensures
        r@.map_values(|s: &str| s@) == cyrillic_keywords(),
{
    let r = vec![
        "осталось",
        "осталась",
        "истека",
        "истёк",
        "истек",
        "подписк",
        "продлит",
        "продлен",
        "тариф",
        "трафик",
        "не работает",
        "нажим",
        "нажат",
        "обновит",
        "обновлени",
        "включит",
        "поддержк",
        "дней осталось",
    ];
    assert(r@.map_values(|s: &str| s@) =~= cyrillic_keywords());
    r
}

/// English notices, matched as whole words.
pub open spec fn ascii_keywords() -> Seq<Seq<char>> {
    seq![
        "days left"@,
        "days remaining"@,
        "expires"@,
        "expired"@,
        "expiring"@,
        "subscription"@,
        "renew"@,
    ]
}

fn ascii_keywords_exec() -> (r: Vec<&'static str>)
    ensures
        r@.map_values(|s: &str| s@) == ascii_keywords(),
{
    let r = vec!["days left", "days remaining", "expires", "expired", "expiring", "subscription", "renew"];
    assert(r@.map_values(|s: &str| s@) =~= ascii_keywords());
    r
}

proof fn lemma_ascii_keywords_nonempty()
    ensures
        forall|j: int| 0 <= j < ascii_keywords().len() ==> #[trigger] ascii_keywords()[j].len() > 0,
{
    reveal_strlit("days left");
    reveal_strlit("days remaining");
    reveal_strlit("expires");
    reveal_strlit("expired");
    reveal_strlit("expiring");
    reveal_strlit("subscription");
    reveal_strlit("renew");
}

/// Addresses no real server has.
pub open spec fn unroutable_hosts() -> Seq<Seq<char>> {
    seq!["0.0.0.0"@, "::"@, "::0"@, "127.0.0.1"@, "::1"@, "localhost"@]
}

/// Whether an entry is an informational panel notice (an expiry countdown, a
/// support link, an unroutable placeholder) rather than a real server.
pub open spec fn info_entry_spec(name: Seq<char>, server: Seq<char>, port: u16) -> bool {
    let ls = lower_seq(trim(server));
    let ln = lower_seq(name);
    ||| unroutable_hosts().contains(ls)
    ||| port == 1
    ||| contains(ln, "http://"@)
    ||| contains(ln, "https://"@)
    ||| contains(ln, "t.me/"@)
    ||| has_mention(ln)
    ||| exists|k: int| 0 <= k < cyrillic_keywords().len() && contains(ln, #[trigger] cyrillic_keywords()[k])
    ||| exists|k: int| 0 <= k < ascii_keywords().len() && word_scan(ln, #[trigger] ascii_keywords()[k], 0)
}

/// Whether an entry is an informational panel notice rather than a server.
pub fn is_info_entry(name: &str, server: &str, port: u16) -> (r: bool)
    ensures
        r == info_entry_spec(name@, server@, port),
{
    let ls = lower_chars(&trim_chars(&chars_of(server)));
    let hosts = vec!["0.0.0.0", "::", "::0", "127.0.0.1", "::1", "localhost"];
    assert(hosts@.map_values(|s: &str| s@) =~= unroutable_hosts());
    let mut h: usize = 0;
    while h < hosts.len()
        invariant
            h <= hosts@.len(),
            hosts@.map_values(|s: &str| s@) == unroutable_hosts(),
            ls@ == lower_seq(trim(server@)),
            forall|j: int| 0 <= j < h ==> unroutable_hosts()[j] != ls@,
        decreases hosts.len() - h,
    {
        if seq_eq(&ls, &chars_of(hosts[h])) {
            assert(unroutable_hosts()[h as int] == ls@);
            return true;
        }
        h += 1;
    }
    assert(!unroutable_hosts().contains(ls@));
    if port == 1 {
        return true;
    }
    let ln = lower_chars(&chars_of(name));
    if contains_str(&ln, "http://") || contains_str(&ln, "https://") || contains_str(&ln, "t.me/") {
        return true;
    }
    if has_mention_exec(&ln) {
        return true;
    }
    if any_cyrillic_keyword(&ln) {
        return true;
    }
    any_ascii_keyword(&ln)
}

fn any_cyrillic_keyword(ln: &[char]) -> (r: bool)
    ensures
        r == exists|k: int| 0 <= k < cyrillic_keywords().len() && contains(ln@, #[trigger] cyrillic_keywords()[k]),
{
    let cyr = cyrillic_keywords_exec();
    let mut k: usize = 0;
    while k < cyr.len()
        invariant
            k <= cyr@.len(),
            cyr@.map_values(|s: &str| s@) == cyrillic_keywords(),
            forall|j: int| 0 <= j < k ==> !contains(ln@, #[trigger] cyrillic_keywords()[j]),
        decreases cyr.len() - k,
    {
        if contains_str(ln, cyr[k]) {
            assert(contains(ln@, cyrillic_keywords()[k as int]));
            return true;
        }
        k += 1;
    }
    false
}

fn any_ascii_keyword(ln: &[char]) -> (r: bool)
    ensures
        r == exists|k: int| 0 <= k < ascii_keywords().len() && word_scan(ln@, #[trigger] ascii_keywords()[k], 0),
{
    let asc = ascii_keywords_exec();
    proof {
        lemma_ascii_keywords_nonempty();
    }
    let mut k: usize = 0;
    while k < asc.len()
        invariant
            k <= asc@.len(),
            asc@.map_values(|s: &str| s@) == ascii_keywords(),
            forall|j: int| 0 <= j < ascii_keywords().len() ==> #[trigger] ascii_keywords()[j].len() > 0,
            forall|j: int| 0 <= j < k ==> !word_scan(ln@, #[trigger] ascii_keywords()[j], 0),
        decreases asc.len() - k,
    {
        let w = chars_of(asc[k]);
        assert(w@ == ascii_keywords()[k as int]);
        if contains_word(ln, &w) {
            return true;
        }
        k += 1;
    }
    false
}


// ---------------------------------------------------------------------------
// Canonical share links
// ---------------------------------------------------------------------------

/// One query piece when `cond` holds, none otherwise.
pub open spec fn opt_piece(cond: bool, piece: Seq<char>) -> Seq<Seq<char>> {
    if cond {
        seq![piece]
    } else {
        Seq::empty()
    }
}

/// `key` followed by the value as it is, when the value is not empty.
pub open spec fn kv_piece(key: Seq<char>, value: Seq<char>) -> Seq<Seq<char>> {
    opt_piece(value.len() > 0, key + value)
}

/// `key` followed by the percent-encoded value, when the value is not empty.
pub open spec fn enc_piece(key: Seq<char>, value: Seq<char>) -> Seq<Seq<char>> {
    opt_piece(value.len() > 0, key + pct_encode(value))
}

pub open spec fn path_host_pieces(path: Seq<char>, host: Seq<char>) -> Seq<Seq<char>> {
    opt_piece(path.len() > 0 && path != "/"@, "path="@ + pct_encode(path)) + enc_piece(
        "host="@,
        host,
    )
}

/// The query pieces that name a transport and its settings.
pub open spec fn transport_pieces(t: TransportView) -> Seq<Seq<char>> {
    match t {
        TransportView::Tcp => seq!["type=tcp"@],
        TransportView::Ws { path, host } => seq!["type=ws"@] + path_host_pieces(path, host),
        TransportView::Grpc { service_name } => seq!["type=grpc"@] + enc_piece(
            "serviceName="@,
            service_name,
        ),
        TransportView::Httpupgrade { path, host } => seq!["type=httpupgrade"@] + path_host_pieces(
            path,
            host,
        ),
    }
}

/// The query pieces that name the security layer and its settings.
pub open spec fn security_pieces(n: VlessView) -> Seq<Seq<char>> {
    match n.security {
        Security::Reality => seq!["security=reality"@] + kv_piece("pbk="@, n.public_key) + kv_piece(
            "fp="@,
            n.fingerprint,
        ) + kv_piece("sid="@, n.short_id) + enc_piece("sni="@, n.sni) + kv_piece("flow="@, n.flow),
        Security::Tls => seq!["security=tls"@] + enc_piece("sni="@, n.sni) + kv_piece(
            "fp="@,
            n.fingerprint,
        ) + opt_piece(n.insecure, "insecure=1"@) + opt_piece(
            n.alpn.len() > 0,
            "alpn="@ + join(n.alpn, ","@),
        ) + kv_piece("flow="@, n.flow),
        Security::Plain => seq!["security=none"@],
    }
}

/// `?` and the pieces joined by `&`; nothing when there are none.
pub open spec fn query_suffix(pieces: Seq<Seq<char>>) -> Seq<char> {
    if pieces.len() == 0 {
        Seq::empty()
    } else {
        "?"@ + join(pieces, "&"@)
    }
}

/// `#` and the percent-encoded name; nothing for an empty name.
pub open spec fn fragment_suffix(name: Seq<char>) -> Seq<char> {
    if name.len() == 0 {
        Seq::empty()
    } else {
        "#"@ + pct_encode(name)
    }
}

/// The host as a link writes it: an IPv6 address in brackets.
pub open spec fn host_form(server: Seq<char>) -> Seq<char> {
    if server.contains(':') && !(server.len() > 0 && server[0] == '[') {
        "["@ + server + "]"@
    } else {
        server
    }
}

/// The `vless://` link that describes a node.
pub open spec fn canonical_vless(server: Seq<char>, port: u16, name: Seq<char>, n: VlessView) -> Seq<
    char,
> {
    "vless://"@ + n.uuid + "@"@ + host_form(server) + ":"@ + decimal(port as nat) + query_suffix(
        transport_pieces(n.transport) + security_pieces(n),
    ) + fragment_suffix(name)
}

pub open spec fn hy2_pieces(server: Seq<char>, h: Hysteria2View) -> Seq<Seq<char>> {
    opt_piece(h.sni.len() > 0 && h.sni != server, "sni="@ + pct_encode(h.sni)) + opt_piece(
        h.insecure,
        "insecure=1"@,
    ) + opt_piece(h.alpn.len() > 0, "alpn="@ + join(h.alpn, ","@)) + obfs_pieces(h.obfs)
}

pub open spec fn obfs_pieces(obfs: Option<Seq<char>>) -> Seq<Seq<char>> {
    match obfs {
        Some(p) => seq!["obfs=salamander"@, "obfs-password="@ + pct_encode(p)],
        None => Seq::empty(),
    }
}

/// The `hysteria2://` link that describes a node.
pub open spec fn canonical_hysteria2(
    server: Seq<char>,
    port: u16,
    name: Seq<char>,
    h: Hysteria2View,
) -> Seq<char> {
    "hysteria2://"@ + pct_encode(h.password) + "@"@ + host_form(server) + ":"@ + decimal(
        port as nat,
    ) + query_suffix(hy2_pieces(server, h)) + fragment_suffix(name)
}

fn push_piece_if(pieces: &mut Vec<Vec<char>>, cond: bool, piece: Vec<char>)
    ensures
        seq_views(final(pieces)@) == seq_views(old(pieces)@) + opt_piece(cond, piece@),
{
    let ghost before = seq_views(pieces@);
    if cond {
        pieces.push(piece);
        assert(seq_views(pieces@) =~= before + opt_piece(cond, piece@));
    } else {
        assert(before + opt_piece(cond, piece@) =~= before);
    }
}

fn key_value(key: &str, value: &[char]) -> (r: Vec<char>)
    ensures
        r@ == key@ + value@,
{
    let mut r = chars_of(key);
    push_all(&mut r, value);
    r
}

fn key_encoded(key: &str, value: &str) -> (r: Vec<char>)
    ensures
        r@ == key@ + pct_encode(value@),
{
    let e = enc(value);
    key_value(key, &e)
}

fn push_path_host(pieces: &mut Vec<Vec<char>>, path: &String, host: &String)
    ensures
        seq_views(final(pieces)@) == seq_views(old(pieces)@) + path_host_pieces(path@, host@),
{
    let ghost before = seq_views(pieces@);
    let p = chars_of(path.as_str());
    let keep = p.len() > 0 && !eq_str(&p, "/");
    push_piece_if(pieces, keep, key_encoded("path=", path.as_str()));
    let h = chars_of(host.as_str());
    push_piece_if(pieces, h.len() > 0, key_encoded("host=", host.as_str()));
    assert(seq_views(pieces@) =~= before + path_host_pieces(path@, host@));
}

fn transport_pieces_exec(t: &Transport) -> (r: Vec<Vec<char>>)
    ensures
        seq_views(r@) == transport_pieces(t@),
{
    let mut r: Vec<Vec<char>> = Vec::new();
    match t {
        Transport::Tcp => {
            r.push(chars_of("type=tcp"));
            assert(seq_views(r@) =~= seq!["type=tcp"@]);
        },
        Transport::Ws { path, host } => {
            r.push(chars_of("type=ws"));
            assert(seq_views(r@) =~= seq!["type=ws"@]);
            push_path_host(&mut r, path, host);
        },
        Transport::Grpc { service_name } => {
            r.push(chars_of("type=grpc"));
            assert(seq_views(r@) =~= seq!["type=grpc"@]);
            let n = chars_of(service_name.as_str());
            push_piece_if(&mut r, n.len() > 0, key_encoded("serviceName=", service_name.as_str()));
        },
        Transport::Httpupgrade { path, host } => {
            r.push(chars_of("type=httpupgrade"));
            assert(seq_views(r@) =~= seq!["type=httpupgrade"@]);
            push_path_host(&mut r, path, host);
        },
    }
    r
}

fn push_kv(pieces: &mut Vec<Vec<char>>, key: &str, value: &String)
    ensures
        seq_views(final(pieces)@) == seq_views(old(pieces)@) + kv_piece(key@, value@),
{
    let v = chars_of(value.as_str());
    push_piece_if(pieces, v.len() > 0, key_value(key, &v));
}

fn push_enc(pieces: &mut Vec<Vec<char>>, key: &str, value: &String)
    ensures
        seq_views(final(pieces)@) == seq_views(old(pieces)@) + enc_piece(key@, value@),
{
    let v = chars_of(value.as_str());
    push_piece_if(pieces, v.len() > 0, key_encoded(key, value.as_str()));
}

fn alpn_value(alpn: &Vec<String>) -> (r: Vec<char>)
    ensures
        r@ == "alpn="@ + join(texts(alpn@), ","@),
{
    let j = join_strings(alpn, ",");
    assert(strings_text(alpn@) =~= texts(alpn@));
    key_value("alpn=", &j)
}

fn reality_pieces(node: &VlessNode) -> (r: Vec<Vec<char>>)
    requires
        node.security == Security::Reality,
    ensures
        seq_views(r@) == security_pieces(node@),
{
    let mut r: Vec<Vec<char>> = Vec::new();
    r.push(chars_of("security=reality"));
    assert(seq_views(r@) =~= seq!["security=reality"@]);
    push_kv(&mut r, "pbk=", &node.public_key);
    push_kv(&mut r, "fp=", &node.fingerprint);
    push_kv(&mut r, "sid=", &node.short_id);
    push_enc(&mut r, "sni=", &node.sni);
    push_kv(&mut r, "flow=", &node.flow);
    r
}

fn tls_pieces(node: &VlessNode) -> (r: Vec<Vec<char>>)
    requires
        node.security == Security::Tls,
    ensures
        seq_views(r@) == security_pieces(node@),
{
    let mut r: Vec<Vec<char>> = Vec::new();
    r.push(chars_of("security=tls"));
    assert(seq_views(r@) =~= seq!["security=tls"@]);
    push_enc(&mut r, "sni=", &node.sni);
    push_kv(&mut r, "fp=", &node.fingerprint);
    push_piece_if(&mut r, node.insecure, chars_of("insecure=1"));
    push_piece_if(&mut r, node.alpn.len() > 0, alpn_value(&node.alpn));
    push_kv(&mut r, "flow=", &node.flow);
    r
}

fn security_pieces_exec(node: &VlessNode) -> (r: Vec<Vec<char>>)
    ensures
        seq_views(r@) == security_pieces(node@),
{
    match node.security {
        Security::Reality => reality_pieces(node),
        Security::Tls => tls_pieces(node),
        Security::Plain => {
            let mut r: Vec<Vec<char>> = Vec::new();
            r.push(chars_of("security=none"));
            assert(seq_views(r@) =~= seq!["security=none"@]);
            r
        },
    }
}

fn append_pieces(a: &mut Vec<Vec<char>>, b: Vec<Vec<char>>)
    ensures
        seq_views(final(a)@) == seq_views(old(a)@) + seq_views(b@),
{
    let mut b = b;
    let ghost bv = b@;
    a.append(&mut b);
    assert(seq_views(a@) =~= seq_views(old(a)@) + seq_views(bv));
}

fn query_suffix_exec(pieces: &Vec<Vec<char>>) -> (r: Vec<char>)
    ensures
        r@ == query_suffix(seq_views(pieces@)),
{
    if pieces.len() == 0 {
        Vec::new()
    } else {
        let j = join_exec(pieces, "&");
        key_value("?", &j)
    }
}

fn fragment_suffix_exec(name: &str) -> (r: Vec<char>)
    ensures
        r@ == fragment_suffix(name@),
{
    let n = chars_of(name);
    if n.len() == 0 {
        Vec::new()
    } else {
        key_encoded("#", name)
    }
}

fn host_form_exec(server: &str) -> (r: Vec<char>)
    ensures
        r@ == host_form(server@),
{
    let s = chars_of(server);
    if has_char(&s, ':') && !(s.len() > 0 && s[0] == '[') {
        let mut r = key_value("[", &s);
        push_str(&mut r, "]");
        r
    } else {
        s
    }
}

/// `user@host:port`, then the query and the fragment.
fn link_tail(user: &[char], server: &str, port: u16, query: &Vec<Vec<char>>, name: &str) -> (r:
    Vec<char>)
    ensures
        r@ == user@ + "@"@ + host_form(server@) + ":"@ + decimal(port as nat) + query_suffix(
            seq_views(query@),
        ) + fragment_suffix(name@),
{
    let mut r = copy_range(user, 0, user.len());
    push_str(&mut r, "@");
    push_all(&mut r, &host_form_exec(server));
    push_str(&mut r, ":");
    push_all(&mut r, &decimal_exec(port as u64));
    push_all(&mut r, &query_suffix_exec(query));
    push_all(&mut r, &fragment_suffix_exec(name));
    r
}

/// The canonical `vless://` share link of a node.
pub fn build_canonical_vless_uri(server: &str, port: u16, name: &str, node: &VlessNode) -> (r:
    String)
    ensures
        r@ == canonical_vless(server@, port, name@, node@),
{
    let mut query = transport_pieces_exec(&node.transport);
    append_pieces(&mut query, security_pieces_exec(node));
    let user = key_value("vless://", &chars_of(node.uuid.as_str()));
    let tail = link_tail(&user, server, port, &query, name);
    string_of(&tail)
}

fn push_obfs(pieces: &mut Vec<Vec<char>>, obfs: &Option<Hysteria2Obfs>)
    ensures
        seq_views(final(pieces)@) == seq_views(old(pieces)@) + obfs_pieces(obfs_view(*obfs)),
{
    let ghost before = seq_views(pieces@);
    match obfs {
        Some(Hysteria2Obfs::Salamander { password }) => {
            pieces.push(chars_of("obfs=salamander"));
            pieces.push(key_encoded("obfs-password=", password.as_str()));
        },
        None => {},
    }
    assert(seq_views(pieces@) =~= before + obfs_pieces(obfs_view(*obfs)));
}

/// The canonical `hysteria2://` share link of a node.
pub fn build_canonical_hysteria2_uri(server: &str, port: u16, name: &str, node: &Hysteria2Node) -> (r:
    String)
    ensures
        r@ == canonical_hysteria2(server@, port, name@, node@),
{
    let mut query: Vec<Vec<char>> = Vec::new();
    let sni = chars_of(node.sni.as_str());
    let same = eq_str(&sni, server);
    push_piece_if(&mut query, sni.len() > 0 && !same, key_encoded("sni=", node.sni.as_str()));
    push_piece_if(&mut query, node.insecure, chars_of("insecure=1"));
    push_piece_if(&mut query, node.alpn.len() > 0, alpn_value(&node.alpn));
    push_obfs(&mut query, &node.obfs);
    assert(seq_views(query@) =~= hy2_pieces(server@, node@));
    let user = key_encoded("hysteria2://", node.password.as_str());
    let tail = link_tail(&user, server, port, &query, name);
    string_of(&tail)
}


// ---------------------------------------------------------------------------
// Importing a JSON array of client configurations
// ---------------------------------------------------------------------------

/// What one element of the array turns into.
pub enum ItemOutcome {
    /// A panel notice, dropped without a word.
    Notice,
    /// An error line for the import report.
    Failed(Seq<char>),
    Server(NodeView),
}

/// `remarks`, empty when missing.
pub open spec fn item_remarks(item: Json) -> Seq<char> {
    or_default(jstr(jget(Some(item), "remarks"@)))
}

/// The `outbounds` array when it is there and not empty.
pub open spec fn item_outbounds(item: Json) -> Option<Seq<Json>> {
    match jget(Some(item), "outbounds"@) {
        Some(Json::Array(v)) => if v@.len() > 0 {
            Some(v@)
        } else {
            None
        },
        _ => None,
    }
}

/// The port the notice check looks at: a numeric port (low 16 bits), else 0.
pub open spec fn notice_port(settings: Option<Json>) -> u16 {
    ((match ju64(settings_port(settings)) {
        Some(p) => p,
        None => 0,
    }) % 65536) as u16
}

pub open spec fn result_item(remarks: Seq<char>, r: Result<NodeView, ErrorView>) -> ItemOutcome {
    match r {
        Ok(n) => ItemOutcome::Server(n),
        Err(e) => ItemOutcome::Failed(remarks + ": "@ + error_message(e)),
    }
}

pub open spec fn item_outcome(item: Json) -> ItemOutcome {
    let remarks = item_remarks(item);
    match item_outbounds(item) {
        None => ItemOutcome::Failed(remarks + ": missing outbounds array"@),
        Some(obs) => match select_index(obs) {
            None => ItemOutcome::Failed(remarks + ": no compatible proxy outbound found"@),
            Some(i) => {
                let o = obs[i];
                let settings = jget(Some(o), "settings"@);
                if info_entry_spec(
                    remarks,
                    or_default(jstr(settings_address(settings))),
                    notice_port(settings),
                ) {
                    ItemOutcome::Notice
                } else {
                    let proto = proto_of(o);
                    if proto == "vless"@ {
                        result_item(remarks, vless_outbound_spec(remarks, o))
                    } else if proto == "hysteria"@ || proto == "hysteria2"@ {
                        result_item(remarks, hysteria_outbound_spec(remarks, o))
                    } else {
                        ItemOutcome::Failed(remarks + ": unsupported protocol \""@ + proto + "\""@)
                    }
                }
            },
        },
    }
}

/// The raw links of a list of nodes.
pub open spec fn raws(ns: Seq<NodeView>) -> Seq<Seq<char>> {
    ns.map_values(|n: NodeView| n.raw)
}

/// The servers (ids blank) and the error lines of an import, element by
/// element; a server whose raw link is already in the list is skipped.
pub open spec fn v2ray_import(items: Seq<Json>) -> (Seq<NodeView>, Seq<Seq<char>>)
    decreases items.len(),
{
    if items.len() == 0 {
        (Seq::empty(), Seq::empty())
    } else {
        let acc = v2ray_import(items.drop_last());
        match item_outcome(items.last()) {
            ItemOutcome::Notice => acc,
            ItemOutcome::Failed(e) => (acc.0, acc.1.push(e)),
            ItemOutcome::Server(n) => if raws(acc.0).contains(n.raw) {
                acc
            } else {
                (acc.0.push(n), acc.1)
            },
        }
    }
}

enum ItemResult {
    Notice,
    Failed(String),
    Server(ProxyNode),
}

spec fn item_view(r: ItemResult) -> ItemOutcome {
    match r {
        ItemResult::Notice => ItemOutcome::Notice,
        ItemResult::Failed(e) => ItemOutcome::Failed(e@),
        ItemResult::Server(n) => ItemOutcome::Server(without_id(n@)),
    }
}

fn failed_line(remarks: &[char], suffix: &[char]) -> (r: ItemResult)
    ensures
        item_view(r) == ItemOutcome::Failed(remarks@ + suffix@),
{
    let m = crate::text::concat(remarks, suffix);
    ItemResult::Failed(string_of(&m))
}

fn result_exec(remarks: &[char], r: AppResult<ProxyNode>) -> (out: ItemResult)
    ensures
        item_view(out) == result_item(remarks@, node_outcome(r)),
{
    match r {
        Ok(n) => ItemResult::Server(n),
        Err(e) => {
            let msg = e.to_string();
            let mut suffix = chars_of(": ");
            push_str(&mut suffix, msg.as_str());
            assert(remarks@ + suffix@ =~= remarks@ + ": "@ + msg@);
            failed_line(remarks, &suffix)
        },
    }
}

fn notice_port_exec(settings: Option<&Json>) -> (r: u16)
    ensures
        r == notice_port(deref(settings)),
{
    let p = match as_u64(or_else(get(settings, "port"), get(first(get(settings, "vnext")), "port"))) {
        Some(p) => p,
        None => 0,
    };
    (p % 65536) as u16
}

fn import_item(item: &Json) -> (r: ItemResult)
    ensures
        item_view(r) == item_outcome(*item),
{
    let remarks = match as_str(get(Some(item), "remarks")) {
        Some(x) => chars_of(x),
        None => Vec::new(),
    };
    let obs = match get(Some(item), "outbounds") {
        Some(Json::Array(v)) => {
            if v.len() > 0 {
                v
            } else {
                return failed_line(&remarks, &chars_of(": missing outbounds array"));
            }
        },
        _ => {
            return failed_line(&remarks, &chars_of(": missing outbounds array"));
        },
    };
    let i = match select_outbound(obs) {
        Some(i) => i,
        None => {
            return failed_line(&remarks, &chars_of(": no compatible proxy outbound found"));
        },
    };
    proof {
        crate::parser::outbounds::lemma_select_bounds(obs@);
    }
    let o = &obs[i];
    let settings = get(Some(o), "settings");
    let address = match as_str(
        or_else(get(settings, "address"), get(first(get(settings, "vnext")), "address")),
    ) {
        Some(a) => String::from_str(a),
        None => String::new(),
    };
    let remarks_s = string_of(&remarks);
    if is_info_entry(remarks_s.as_str(), address.as_str(), notice_port_exec(settings)) {
        return ItemResult::Notice;
    }
    let proto = proto_exec(o);
    if eq_str(&proto, "vless") {
        result_exec(&remarks, parse_vless_outbound(remarks_s.as_str(), o))
    } else if eq_str(&proto, "hysteria") || eq_str(&proto, "hysteria2") {
        result_exec(&remarks, parse_hysteria_outbound(remarks_s.as_str(), o))
    } else {
        let mut what = chars_of(": unsupported protocol \"");
        push_all(&mut what, &proto);
        push_str(&mut what, "\"");
        assert(remarks@ + what@ =~= remarks@ + ": unsupported protocol \""@ + proto@ + "\""@);
        failed_line(&remarks, &what)
    }
}

fn raw_listed(servers: &Vec<ProxyNode>, raw: &String) -> (r: bool)
    ensures
        r == raws(ids_blank(node_views(servers@))).contains(raw@),
{
    let ghost rs = raws(ids_blank(node_views(servers@)));
    let mut k: usize = 0;
    while k < servers.len()
        invariant
            k <= servers@.len(),
            rs == raws(ids_blank(node_views(servers@))),
            forall|j: int| 0 <= j < k ==> rs[j] != raw@,
        decreases servers.len() - k,
    {
        if servers[k].raw == *raw {
            assert(rs[k as int] == raw@);
            return true;
        }
        k += 1;
    }
    false
}

/// Imports a V2Ray JSON array of client configurations (as parsed from the
/// subscription body, or the parser's error message): each element's main
/// proxy outbound becomes a server, panel notices are dropped, a server
/// whose raw link is already listed is skipped, and every element that
/// cannot be imported adds an error line. One element failing never stops
/// the others.
pub fn parse_v2ray_json(document: Result<Vec<Json>, String>) -> (r: (Vec<ProxyNode>, Vec<String>))
    ensures
        match document {
            Err(e) => r.0@.len() == 0 && strings_text(r.1@) == seq![
                "failed to parse V2Ray JSON: "@ + e@,
            ],
            Ok(items) => ids_blank(node_views(r.0@)) == v2ray_import(items@).0 && strings_text(
                r.1@,
            ) == v2ray_import(items@).1,
        },
{
    let items = match document {
        Ok(v) => v,
        Err(e) => {
            let mut m = chars_of("failed to parse V2Ray JSON: ");
            push_str(&mut m, e.as_str());
            let mut errors: Vec<String> = Vec::new();
            errors.push(string_of(&m));
            assert(strings_text(errors@) =~= seq!["failed to parse V2Ray JSON: "@ + e@]);
            return (Vec::new(), errors);
        },
    };
    let mut servers: Vec<ProxyNode> = Vec::new();
    let mut errors: Vec<String> = Vec::new();
    let mut i: usize = 0;
    while i < items.len()
        invariant
            i <= items@.len(),
            ids_blank(node_views(servers@)) == v2ray_import(items@.subrange(0, i as int)).0,
            strings_text(errors@) == v2ray_import(items@.subrange(0, i as int)).1,
        decreases items.len() - i,
    {
        let ghost pre = items@.subrange(0, i as int);
        assert(items@.subrange(0, i + 1 as int).drop_last() =~= pre);
        assert(items@.subrange(0, i + 1 as int).last() == items@[i as int]);
        let ghost sv = servers@;
        let ghost ev = errors@;
        match import_item(&items[i]) {
            ItemResult::Notice => {},
            ItemResult::Failed(e) => {
                errors.push(e);
                assert(strings_text(errors@) =~= strings_text(ev).push(e@));
            },
            ItemResult::Server(n) => {
                if !raw_listed(&servers, &n.raw) {
                    servers.push(n);
                    assert(ids_blank(node_views(servers@)) =~= ids_blank(node_views(sv)).push(
                        without_id(n@),
                    ));
                }
            },
        }
        i += 1;
    }
    assert(items@.subrange(0, items@.len() as int) =~= items@);
    (servers, errors)
}


/// Imports a V2Ray JSON array given as text: the text is read with
/// `serde_json` (`json_array_text`); a text that is no JSON array gives no
/// server and the one line `failed to parse V2Ray JSON: <error>`, and the
/// elements of one are imported as `parse_v2ray_json` imports them.
pub fn parse_v2ray_json_text(text: &str) -> (r: (Vec<ProxyNode>, Vec<String>))
    ensures
        match json_array_text(text@) {
            Err(e) => r.0@.len() == 0 && strings_text(r.1@) == seq![
                "failed to parse V2Ray JSON: "@ + e,
            ],
            Ok(items) => exists|docs: Seq<Json>|
                #![trigger json_seq_v(docs)]
                json_seq_v(docs) == items && ids_blank(node_views(r.0@)) == v2ray_import(docs).0
                    && strings_text(r.1@) == v2ray_import(docs).1,
        },
{
    let document = parse_json_array(text);
    let ghost d = document;
    let r = parse_v2ray_json(document);
    proof {
        match d {
            Ok(v) => {
                assert(json_seq_v(v@) == json_array_text(text@)->Ok_0);
            },
            Err(e) => {},
        }
    }
    r
}

/// No two servers of an import share a raw link, and every element yields
/// at most one server or one error line.
pub proof fn lemma_v2ray_import_distinct(items: Seq<Json>)
    ensures
        forall|i: int, j: int|
            0 <= i < j < v2ray_import(items).0.len() ==> #[trigger] v2ray_import(items).0[i].raw
                != #[trigger] v2ray_import(items).0[j].raw,
        v2ray_import(items).0.len() + v2ray_import(items).1.len() <= items.len(),
    decreases items.len(),
{
    if items.len() > 0 {
        lemma_v2ray_import_distinct(items.drop_last());
        let acc = v2ray_import(items.drop_last());
        match item_outcome(items.last()) {
            ItemOutcome::Server(n) => {
                if !raws(acc.0).contains(n.raw) {
                    let ns = acc.0.push(n);
                    assert forall|i: int, j: int| 0 <= i < j < ns.len() implies ns[i].raw
                        != ns[j].raw by {
                        if j == ns.len() - 1 {
                            assert(raws(acc.0)[i] == ns[i].raw);
                        }
                    }
                }
            },
            _ => {},
        }
    }
}

/// The error lines of an import are those of its parts, in order: what an
/// element reports never depends on the other elements.
pub proof fn lemma_import_errors_split(a: Seq<Json>, b: Seq<Json>)
    ensures
        v2ray_import(a + b).1 == v2ray_import(a).1 + v2ray_import(b).1,
    decreases b.len(),
{
    if b.len() == 0 {
        assert(a + b =~= a);
        assert(v2ray_import(a).1 + v2ray_import(b).1 =~= v2ray_import(a).1);
    } else {
        let init = b.drop_last();
        lemma_import_errors_split(a, init);
        assert((a + b).drop_last() =~= a + init);
        assert((a + b).last() == b.last());
        match item_outcome(b.last()) {
            ItemOutcome::Failed(e) => {
                assert(v2ray_import(a).1 + v2ray_import(init).1.push(e) =~= (v2ray_import(a).1
                    + v2ray_import(init).1).push(e));
            },
            _ => {},
        }
    }
}

/// An element that yields no server changes nothing about the servers the
/// elements around it yield.
proof fn lemma_import_servers_skip(a: Seq<Json>, x: Json, b: Seq<Json>)
    requires
        !(item_outcome(x) is Server),
    ensures
        v2ray_import(a.push(x) + b).0 == v2ray_import(a + b).0,
    decreases b.len(),
{
    if b.len() == 0 {
        assert(a.push(x) + b =~= a.push(x));
        assert(a.push(x).drop_last() =~= a);
        assert(a + b =~= a);
    } else {
        let init = b.drop_last();
        lemma_import_servers_skip(a, x, init);
        assert((a.push(x) + b).drop_last() =~= a.push(x) + init);
        assert((a.push(x) + b).last() == b.last());
        assert((a + b).drop_last() =~= a + init);
        assert((a + b).last() == b.last());
    }
}

/// The error line of an element that cannot be imported starts with the
/// element's remarks and `: `.
pub proof fn lemma_failed_line_names_item(item: Json)
    requires
        item_outcome(item) is Failed,
    ensures
        starts_with(item_outcome(item)->Failed_0, item_remarks(item) + ": "@),
{
    let r = item_remarks(item);
    let line = item_outcome(item)->Failed_0;
    let pre = r + ": "@;
    reveal_strlit(": ");
    reveal_strlit(": missing outbounds array");
    reveal_strlit(": no compatible proxy outbound found");
    reveal_strlit(": unsupported protocol \"");
    assert(": missing outbounds array"@ =~= ": "@ + "missing outbounds array"@) by {
        reveal_strlit("missing outbounds array");
    }
    assert(": no compatible proxy outbound found"@ =~= ": "@ + "no compatible proxy outbound found"@)
        by {
        reveal_strlit("no compatible proxy outbound found");
    }
    assert(": unsupported protocol \""@ =~= ": "@ + "unsupported protocol \""@) by {
        reveal_strlit("unsupported protocol \"");
    }
    let rest: Seq<char> = match item_outbounds(item) {
        None => "missing outbounds array"@,
        Some(obs) => match select_index(obs) {
            None => "no compatible proxy outbound found"@,
            Some(i) => {
                let o = obs[i];
                let proto = proto_of(o);
                if proto == "vless"@ {
                    error_message(vless_outbound_spec(r, o)->Err_0)
                } else if proto == "hysteria"@ || proto == "hysteria2"@ {
                    error_message(hysteria_outbound_spec(r, o)->Err_0)
                } else {
                    "unsupported protocol \""@ + proto + "\""@
                }
            },
        },
    };
    assert(line =~= pre + rest);
    assert(line.subrange(0, pre.len() as int) =~= pre);
}

/// One bad element never aborts the batch: when element `k` cannot be
/// imported, it adds no server and exactly its own error line, in its
/// place, and every other element yields the servers and the error lines it
/// yields when element `k` is absent.
pub proof fn lemma_bad_item_is_isolated(items: Seq<Json>, k: int)
    requires
        0 <= k < items.len(),
        item_outcome(items[k]) is Failed,
    ensures
        v2ray_import(items).0 == v2ray_import(items.take(k) + items.skip(k + 1)).0,
        v2ray_import(items).1 == v2ray_import(items.take(k)).1.push(
            item_outcome(items[k])->Failed_0,
        ) + v2ray_import(items.skip(k + 1)).1,
        v2ray_import(items.take(k) + items.skip(k + 1)).1 == v2ray_import(items.take(k)).1
            + v2ray_import(items.skip(k + 1)).1,
        starts_with(item_outcome(items[k])->Failed_0, item_remarks(items[k]) + ": "@),
{
    lemma_failed_line_names_item(items[k]);
    let a = items.take(k);
    let b = items.skip(k + 1);
    assert(items =~= a.push(items[k]) + b);
    lemma_import_servers_skip(a, items[k], b);
    lemma_import_errors_split(a.push(items[k]), b);
    lemma_import_errors_split(a, b);
    assert(a.push(items[k]).drop_last() =~= a);
}

} // verus!
