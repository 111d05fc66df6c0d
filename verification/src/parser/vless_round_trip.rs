//! Reading back the vless links this library writes.

use vstd::prelude::*;
use vstd::string::*;

use crate::parser::round_trip::{
    all_in, is_key_char, is_plain_char, lemma_form_field_plain, lemma_key_chars, lemma_split_once_at,
};
use crate::parser::vless::{first_keys, has_key, lookup, query_entry};
use crate::models::{Security, TransportView, VlessView};
use crate::parser::v2ray_json::{security_pieces, transport_pieces};
use crate::text::{join, split_char};
use crate::url_text::{pct_encode, percent_decoded, plus_to_space};

verus! {

// ---------------------------------------------------------------------------
// The query of a canonical vless link
// ---------------------------------------------------------------------------

/// Plain ASCII text percent-decodes to itself.
pub proof fn lemma_percent_plain(x: Seq<char>)
    requires
        all_in(x, |c: char| is_plain_char(c)),
    ensures
        percent_decoded(x) == x,
{
    lemma_form_field_plain(x);
    assert(plus_to_space(x) =~= x);
}

proof fn lemma_lookup_concat(a: Seq<(Seq<char>, Seq<char>)>, b: Seq<(Seq<char>, Seq<char>)>, k: Seq<char>)
    ensures
        lookup(a + b, k) == if has_key(a, k) {
            lookup(a, k)
        } else {
            lookup(b, k)
        },
    decreases a.len(),
{
    if a.len() == 0 {
        assert(a + b =~= b);
        assert(!has_key(a, k));
    } else {
        lemma_lookup_concat(a.drop_first(), b, k);
        assert((a + b).drop_first() =~= a.drop_first() + b);
        assert((a + b)[0] == a[0]);
        if a[0].0 == k {
            assert(has_key(a, k));
        } else {
            if has_key(a, k) {
                let i = choose|i: int| 0 <= i < a.len() && #[trigger] a[i].0 == k;
                assert(a.drop_first()[i - 1].0 == k);
            }
            if has_key(a.drop_first(), k) {
                let i = choose|i: int| 0 <= i < a.drop_first().len() && #[trigger] a.drop_first()[i].0 == k;
                assert(a[i + 1].0 == k);
            }
        }
    }
}

proof fn lemma_lookup_some(es: Seq<(Seq<char>, Seq<char>)>, k: Seq<char>)
    ensures
        lookup(es, k) is Some <==> has_key(es, k),
    decreases es.len(),
{
    if es.len() > 0 {
        lemma_lookup_some(es.drop_first(), k);
        if has_key(es, k) && es[0].0 != k {
            let i = choose|i: int| 0 <= i < es.len() && #[trigger] es[i].0 == k;
            assert(es.drop_first()[i - 1].0 == k);
        }
        if has_key(es.drop_first(), k) {
            let i = choose|i: int| 0 <= i < es.drop_first().len() && #[trigger] es.drop_first()[i].0 == k;
            assert(es[i + 1].0 == k);
        }
    }
}

/// Keeping first occurrences changes no lookup.
pub proof fn lemma_lookup_first_keys(es: Seq<(Seq<char>, Seq<char>)>, k: Seq<char>)
    ensures
        lookup(first_keys(es), k) == lookup(es, k),
    decreases es.len(),
{
    if es.len() > 0 {
        let init = es.drop_last();
        let e = es.last();
        lemma_lookup_first_keys(init, k);
        let d = first_keys(init);
        assert(es =~= init + seq![e]);
        lemma_lookup_concat(init, seq![e], k);
        lemma_lookup_some(init, k);
        lemma_lookup_some(d, k);
        assert(first_keys(es) == if has_key(d, e.0) { d } else { d.push(e) });
        assert(lookup(es, k) == if has_key(init, k) { lookup(init, k) } else { lookup(seq![e], k) });
        assert(has_key(d, k) == has_key(init, k));
        assert(seq![e].drop_first() =~= Seq::<(Seq<char>, Seq<char>)>::empty());
        assert(lookup(Seq::<(Seq<char>, Seq<char>)>::empty(), k) is None);
        assert(lookup(seq![e], k) == if e.0 == k { Some(e.1) } else { None::<Seq<char>> });
        if has_key(d, e.0) {
            if e.0 == k {
                assert(lookup(d, k) is Some);
            }
        } else {
            assert(d.push(e) =~= d + seq![e]);
            lemma_lookup_concat(d, seq![e], k);
        }
    }
}

/// A piece `key=value` with a plain key: the key and the raw value.
proof fn lemma_query_entry_kv(key: Seq<char>, val: Seq<char>)
    requires
        all_in(key, |c: char| is_key_char(c)),
    ensures
        query_entry(key + seq!['='] + val) == (key, val),
{
    lemma_key_chars(key);
    assert(all_in(key, |c: char| c != '=')) by {
        assert forall|i: int| 0 <= i < key.len() implies #[trigger] key[i] != '=' by {
            assert(is_plain_char(key[i]) && key[i] != '=');
        }
    }
    lemma_split_once_at(key, '=', val);
    lemma_percent_plain(key);
}

/// Characters of a query key or fixed value of a canonical vless link.
pub open spec fn is_name_char(c: char) -> bool {
    ('a' <= c && c <= 'z') || ('A' <= c && c <= 'Z') || ('0' <= c && c <= '9') || c == '-'
}

/// The entries the query map reads from non-empty pieces.
pub open spec fn entries(ps: Seq<Seq<char>>) -> Seq<(Seq<char>, Seq<char>)> {
    ps.map_values(|p: Seq<char>| query_entry(p))
}

/// A query piece `key=value`: a key of name characters, a value without
/// `&`.
pub open spec fn kv_form(p: Seq<char>, key: Seq<char>) -> bool {
    &&& all_in(key, |c: char| is_name_char(c))
    &&& key.len() > 0
    &&& p.len() > key.len()
    &&& p.subrange(0, key.len() as int) == key
    &&& p[key.len() as int] == '='
    &&& all_in(p, |c: char| c != '&')
}

/// The pieces of a list are `key=value` pieces with keys that `keys` allows.
pub open spec fn pieces_with_keys(ps: Seq<Seq<char>>, keys: spec_fn(Seq<char>) -> bool) -> bool {
    forall|i: int| 0 <= i < ps.len() ==> #[trigger] piece_has_key(ps[i], keys)
}

/// A `key=value` piece whose key `keys` allows.
pub open spec fn piece_has_key(p: Seq<char>, keys: spec_fn(Seq<char>) -> bool) -> bool {
    exists|k: Seq<char>| #[trigger] kv_form(p, k) && keys(k)
}

proof fn lemma_kv_entry(p: Seq<char>, key: Seq<char>)
    requires
        kv_form(p, key),
    ensures
        query_entry(p).0 == key,
        query_entry(p).1 == p.subrange(key.len() + 1int, p.len() as int),
{
    let v = p.subrange(key.len() + 1int, p.len() as int);
    assert(p =~= key + seq!['='] + v);
    assert(all_in(key, |c: char| is_plain_char(c) && c != '=')) by {
        assert forall|i: int| 0 <= i < key.len() implies is_plain_char(#[trigger] key[i]) && key[i] != '=' by {
            assert(is_name_char(key[i]));
        }
    }
    assert(all_in(key, |c: char| c != '=')) by {
        assert forall|i: int| 0 <= i < key.len() implies #[trigger] key[i] != '=' by {
            assert(is_name_char(key[i]));
        }
    }
    assert(all_in(key, |c: char| is_plain_char(c))) by {
        assert forall|i: int| 0 <= i < key.len() implies is_plain_char(#[trigger] key[i]) by {
            assert(is_name_char(key[i]));
        }
    }
    lemma_split_once_at(key, '=', v);
    lemma_percent_plain(key);
}

/// No entry of such pieces has a key that `keys` does not allow.
proof fn lemma_no_key(ps: Seq<Seq<char>>, keys: spec_fn(Seq<char>) -> bool, k: Seq<char>)
    requires
        pieces_with_keys(ps, keys),
        !keys(k),
    ensures
        !has_key(entries(ps), k),
{
    if has_key(entries(ps), k) {
        let i = choose|i: int| 0 <= i < entries(ps).len() && #[trigger] entries(ps)[i].0 == k;
        assert(piece_has_key(ps[i], keys));
        let key = choose|key: Seq<char>| #[trigger] kv_form(ps[i], key) && keys(key);
        lemma_kv_entry(ps[i], key);
    }
}

proof fn lemma_pieces_with_keys_concat(a: Seq<Seq<char>>, b: Seq<Seq<char>>, keys: spec_fn(Seq<char>) -> bool)
    requires
        pieces_with_keys(a, keys),
        pieces_with_keys(b, keys),
    ensures
        pieces_with_keys(a + b, keys),
{
    assert forall|i: int| 0 <= i < (a + b).len() implies #[trigger] piece_has_key((a + b)[i], keys) by {
        if i < a.len() {
            assert((a + b)[i] == a[i]);
        } else {
            assert((a + b)[i] == b[i - a.len()]);
        }
    }
}

/// An optional `key=value` piece.
proof fn lemma_opt_kv(cond: bool, key: Seq<char>, v: Seq<char>, keys: spec_fn(Seq<char>) -> bool)
    requires
        all_in(key, |c: char| is_name_char(c)),
        key.len() > 0,
        all_in(v, |c: char| c != '&'),
        keys(key),
    ensures
        pieces_with_keys(crate::parser::v2ray_json::opt_piece(cond, key + seq!['='] + v), keys),
{
    let p = key + seq!['='] + v;
    if cond {
        assert(p.subrange(0, key.len() as int) =~= key);
        assert(p[key.len() as int] == '=');
        assert(all_in(key, |c: char| c != '&')) by {
            assert forall|i: int| 0 <= i < key.len() implies #[trigger] key[i] != '&' by {
                assert(is_name_char(key[i]));
            }
        }
        assert(all_in(seq!['='], |c: char| c != '&'));
        crate::parser::round_trip::lemma_all_in_concat(key, seq!['='], |c: char| c != '&');
        crate::parser::round_trip::lemma_all_in_concat(key + seq!['='], v, |c: char| c != '&');
        assert(kv_form(p, key));
        let ps = crate::parser::v2ray_json::opt_piece(cond, p);
        assert forall|i: int| 0 <= i < ps.len() implies #[trigger] piece_has_key(ps[i], keys) by {
            assert(ps[i] == p);
            assert(kv_form(ps[i], key) && keys(key));
        }
    }
}

/// The keys of the transport pieces.
pub open spec fn is_transport_key(k: Seq<char>) -> bool {
    k == "type"@ || k == "path"@ || k == "host"@ || k == "serviceName"@
}

/// The transport type a canonical link names.
pub open spec fn transport_name(t: TransportView) -> Seq<char> {
    match t {
        TransportView::Tcp => "tcp"@,
        TransportView::Ws { .. } => "ws"@,
        TransportView::Grpc { .. } => "grpc"@,
        TransportView::Httpupgrade { .. } => "httpupgrade"@,
    }
}

proof fn lemma_name_chars_lit()
    ensures
        all_in("type"@, |c: char| is_name_char(c)),
        all_in("path"@, |c: char| is_name_char(c)),
        all_in("host"@, |c: char| is_name_char(c)),
        all_in("serviceName"@, |c: char| is_name_char(c)),
        all_in("tcp"@, |c: char| is_name_char(c)),
        all_in("ws"@, |c: char| is_name_char(c)),
        all_in("grpc"@, |c: char| is_name_char(c)),
        all_in("httpupgrade"@, |c: char| is_name_char(c)),
        "type"@.len() == 4,
        "path"@.len() == 4,
        "host"@.len() == 4,
        "serviceName"@.len() == 11,
        "type=tcp"@ == "type"@ + seq!['='] + "tcp"@,
        "type=ws"@ == "type"@ + seq!['='] + "ws"@,
        "type=grpc"@ == "type"@ + seq!['='] + "grpc"@,
        "type=httpupgrade"@ == "type"@ + seq!['='] + "httpupgrade"@,
        "path="@ == "path"@ + seq!['='],
        "host="@ == "host"@ + seq!['='],
        "serviceName="@ == "serviceName"@ + seq!['='],
{
    reveal_strlit("type");
    reveal_strlit("path");
    reveal_strlit("host");
    reveal_strlit("serviceName");
    reveal_strlit("tcp");
    reveal_strlit("ws");
    reveal_strlit("grpc");
    reveal_strlit("httpupgrade");
    reveal_strlit("type=tcp");
    reveal_strlit("type=ws");
    reveal_strlit("type=grpc");
    reveal_strlit("type=httpupgrade");
    reveal_strlit("path=");
    reveal_strlit("host=");
    reveal_strlit("serviceName=");
    assert("type=tcp"@ =~= "type"@ + seq!['='] + "tcp"@);
    assert("type=ws"@ =~= "type"@ + seq!['='] + "ws"@);
    assert("type=grpc"@ =~= "type"@ + seq!['='] + "grpc"@);
    assert("type=httpupgrade"@ =~= "type"@ + seq!['='] + "httpupgrade"@);
    assert("path="@ =~= "path"@ + seq!['=']);
    assert("host="@ =~= "host"@ + seq!['=']);
    assert("serviceName="@ =~= "serviceName"@ + seq!['=']);
}

proof fn lemma_pct_no_amp(v: Seq<char>)
    ensures
        all_in(pct_encode(v), |c: char| c != '&'),
{
    crate::parser::round_trip::lemma_pct_encode_chars(v);
    assert forall|i: int| 0 <= i < pct_encode(v).len() implies #[trigger] pct_encode(v)[i] != '&' by {
        assert(crate::parser::round_trip::is_pct_char(pct_encode(v)[i]));
    }
}

proof fn lemma_type_piece(tn: Seq<char>)
    requires
        all_in(tn, |c: char| is_name_char(c)),
    ensures
        kv_form("type"@ + seq!['='] + tn, "type"@),
        pieces_with_keys(seq!["type"@ + seq!['='] + tn], |k: Seq<char>| is_transport_key(k)),
{
    lemma_name_chars_lit();
    let v = tn;
    assert(all_in(v, |c: char| c != '&')) by {
        assert forall|i: int| 0 <= i < v.len() implies #[trigger] v[i] != '&' by {
            assert(is_name_char(v[i]));
        }
    }
    lemma_opt_kv(true, "type"@, v, |k: Seq<char>| is_transport_key(k));
    let p = "type"@ + seq!['='] + v;
    assert(crate::parser::v2ray_json::opt_piece(true, p) == seq![p]);
    assert(piece_has_key(p, |k: Seq<char>| is_transport_key(k))) by {
        assert(seq![p][0] == p);
    }
    let k0 = choose|k: Seq<char>| #[trigger] kv_form(p, k) && is_transport_key(k);
    assert(p.subrange(0, 4) =~= "type"@);
    assert(p[4] == '=');
    assert(all_in("type"@, |c: char| c != '&')) by {
        assert forall|i: int| 0 <= i < 4 implies #[trigger] "type"@[i] != '&' by {
            assert(is_name_char("type"@[i]));
        }
    }
}

/// The transport pieces: `type=<name>` first, then pieces keyed `path`,
/// `host` or `serviceName`.
proof fn lemma_transport_pieces(t: TransportView)
    ensures
        transport_pieces(t).len() >= 1,
        transport_pieces(t)[0] == "type"@ + seq!['='] + transport_name(t),
        kv_form(transport_pieces(t)[0], "type"@),
        pieces_with_keys(transport_pieces(t), |k: Seq<char>| is_transport_key(k)),
{
    lemma_name_chars_lit();
    let tn = transport_name(t);
    assert(all_in(tn, |c: char| is_name_char(c)));
    lemma_type_piece(tn);
    let first = seq!["type"@ + seq!['='] + tn];
    let keys = |k: Seq<char>| is_transport_key(k);
    match t {
        TransportView::Tcp => {
            assert(transport_pieces(t) == first);
        },
        TransportView::Ws { path, host } | TransportView::Httpupgrade { path, host } => {
            lemma_pct_no_amp(path);
            lemma_pct_no_amp(host);
            lemma_opt_kv(path.len() > 0 && path != "/"@, "path"@, pct_encode(path), keys);
            lemma_opt_kv(host.len() > 0, "host"@, pct_encode(host), keys);
            let pp = crate::parser::v2ray_json::opt_piece(path.len() > 0 && path != "/"@, "path"@ + seq!['='] + pct_encode(path));
            let hp = crate::parser::v2ray_json::opt_piece(host.len() > 0, "host"@ + seq!['='] + pct_encode(host));
            assert(crate::parser::v2ray_json::path_host_pieces(path, host) == pp + hp);
            lemma_pieces_with_keys_concat(pp, hp, keys);
            lemma_pieces_with_keys_concat(first, pp + hp, keys);
            assert(transport_pieces(t) == first + (pp + hp));
        },
        TransportView::Grpc { service_name } => {
            lemma_pct_no_amp(service_name);
            lemma_opt_kv(service_name.len() > 0, "serviceName"@, pct_encode(service_name), keys);
            let sp = crate::parser::v2ray_json::opt_piece(service_name.len() > 0, "serviceName"@ + seq!['='] + pct_encode(service_name));
            lemma_pieces_with_keys_concat(first, sp, keys);
            assert(transport_pieces(t) == first + sp);
        },
    }
}

/// The keys of the security pieces.
pub open spec fn is_security_key(k: Seq<char>) -> bool {
    k == "security"@ || k == "pbk"@ || k == "fp"@ || k == "sid"@ || k == "sni"@ || k == "flow"@
        || k == "insecure"@ || k == "alpn"@
}

/// The security name a canonical link writes.
pub open spec fn security_name(s: Security) -> Seq<char> {
    match s {
        Security::Reality => "reality"@,
        Security::Tls => "tls"@,
        Security::Plain => "none"@,
    }
}

proof fn lemma_security_lits()
    ensures
        all_in("security"@, |c: char| is_name_char(c)),
        all_in("reality"@, |c: char| is_name_char(c)),
        all_in("tls"@, |c: char| is_name_char(c)),
        all_in("none"@, |c: char| is_name_char(c)),
        "security=reality"@ == "security"@ + seq!['='] + "reality"@,
        "security=tls"@ == "security"@ + seq!['='] + "tls"@,
        "security=none"@ == "security"@ + seq!['='] + "none"@,
        "security"@.len() == 8,
{
    reveal_strlit("security");
    reveal_strlit("reality");
    reveal_strlit("tls");
    reveal_strlit("none");
    reveal_strlit("security=reality");
    reveal_strlit("security=tls");
    reveal_strlit("security=none");
    assert("security=reality"@ =~= "security"@ + seq!['='] + "reality"@);
    assert("security=tls"@ =~= "security"@ + seq!['='] + "tls"@);
    assert("security=none"@ =~= "security"@ + seq!['='] + "none"@);
}

proof fn lemma_option_lits()
    ensures
        all_in("pbk"@, |c: char| is_name_char(c)),
        all_in("fp"@, |c: char| is_name_char(c)),
        all_in("sid"@, |c: char| is_name_char(c)),
        all_in("sni"@, |c: char| is_name_char(c)),
        all_in("flow"@, |c: char| is_name_char(c)),
        all_in("insecure"@, |c: char| is_name_char(c)),
        all_in("alpn"@, |c: char| is_name_char(c)),
        all_in("1"@, |c: char| c != '&'),
        all_in(","@, |c: char| c != '&'),
        "pbk"@.len() == 3,
        "fp"@.len() == 2,
        "sid"@.len() == 3,
        "sni"@.len() == 3,
        "flow"@.len() == 4,
        "insecure"@.len() == 8,
        "alpn"@.len() == 4,
        "pbk="@ == "pbk"@ + seq!['='],
        "fp="@ == "fp"@ + seq!['='],
        "sid="@ == "sid"@ + seq!['='],
        "sni="@ == "sni"@ + seq!['='],
        "flow="@ == "flow"@ + seq!['='],
        "insecure=1"@ == "insecure"@ + seq!['='] + "1"@,
        "alpn="@ == "alpn"@ + seq!['='],
{
    reveal_strlit("pbk");
    reveal_strlit("fp");
    reveal_strlit("sid");
    reveal_strlit("sni");
    reveal_strlit("flow");
    reveal_strlit("insecure");
    reveal_strlit("alpn");
    reveal_strlit("1");
    reveal_strlit(",");
    reveal_strlit("pbk=");
    reveal_strlit("fp=");
    reveal_strlit("sid=");
    reveal_strlit("sni=");
    reveal_strlit("flow=");
    reveal_strlit("insecure=1");
    reveal_strlit("alpn=");
    assert("pbk="@ =~= "pbk"@ + seq!['=']);
    assert("fp="@ =~= "fp"@ + seq!['=']);
    assert("sid="@ =~= "sid"@ + seq!['=']);
    assert("sni="@ =~= "sni"@ + seq!['=']);
    assert("flow="@ =~= "flow"@ + seq!['=']);
    assert("insecure=1"@ =~= "insecure"@ + seq!['='] + "1"@);
    assert("alpn="@ =~= "alpn"@ + seq!['=']);
}

/// Values a canonical vless link writes as they are hold no `&`.
pub open spec fn raw_values_ok(n: VlessView) -> bool {
    &&& all_in(n.public_key, |c: char| c != '&')
    &&& all_in(n.fingerprint, |c: char| c != '&')
    &&& all_in(n.short_id, |c: char| c != '&')
    &&& all_in(n.flow, |c: char| c != '&')
    &&& forall|k: int| 0 <= k < n.alpn.len() ==> all_in(#[trigger] n.alpn[k], |c: char| c != '&')
}

proof fn lemma_security_first(sec: Security)
    ensures
        kv_form("security"@ + seq!['='] + security_name(sec), "security"@),
        pieces_with_keys(
            seq!["security"@ + seq!['='] + security_name(sec)],
            |k: Seq<char>| is_security_key(k) && k != "pbk"@,
        ),
{
    lemma_security_lits();
    let v = security_name(sec);
    assert(all_in(v, |c: char| is_name_char(c)));
    assert(all_in(v, |c: char| c != '&')) by {
        assert forall|i: int| 0 <= i < v.len() implies #[trigger] v[i] != '&' by {
            assert(is_name_char(v[i]));
        }
    }
    reveal_strlit("pbk");
    assert("security"@ != "pbk"@) by {
        assert("security"@.len() != "pbk"@.len());
    }
    let keys = |k: Seq<char>| is_security_key(k) && k != "pbk"@;
    lemma_opt_kv(true, "security"@, v, keys);
    let p = "security"@ + seq!['='] + v;
    assert(crate::parser::v2ray_json::opt_piece(true, p) == seq![p]);
    assert(p.subrange(0, 8) =~= "security"@);
    assert(p[8] == '=');
    assert(piece_has_key(p, keys)) by {
        assert(seq![p][0] == p);
    }
    let k0 = choose|k: Seq<char>| #[trigger] kv_form(p, k) && keys(k);
}

proof fn lemma_keys_weaken(ps: Seq<Seq<char>>, p: spec_fn(Seq<char>) -> bool, q: spec_fn(Seq<char>) -> bool)
    requires
        pieces_with_keys(ps, p),
        forall|k: Seq<char>| #[trigger] p(k) ==> q(k),
    ensures
        pieces_with_keys(ps, q),
{
    assert forall|i: int| 0 <= i < ps.len() implies #[trigger] piece_has_key(ps[i], q) by {
        assert(piece_has_key(ps[i], p));
        let k = choose|k: Seq<char>| #[trigger] kv_form(ps[i], k) && p(k);
        assert(kv_form(ps[i], k) && q(k));
    }
}

proof fn lemma_tls_options(n: VlessView)
    requires
        raw_values_ok(n),
    ensures
        pieces_with_keys(
            crate::parser::v2ray_json::enc_piece("sni="@, n.sni) + crate::parser::v2ray_json::kv_piece("fp="@, n.fingerprint)
                + crate::parser::v2ray_json::opt_piece(n.insecure, "insecure=1"@) + crate::parser::v2ray_json::opt_piece(
                n.alpn.len() > 0,
                "alpn="@ + join(n.alpn, ","@),
            ) + crate::parser::v2ray_json::kv_piece("flow="@, n.flow),
            |k: Seq<char>| is_security_key(k) && k != "pbk"@,
        ),
{
    lemma_option_lits();
    reveal_strlit("pbk");
    reveal_strlit("sni");
    reveal_strlit("fp");
    reveal_strlit("insecure");
    reveal_strlit("alpn");
    reveal_strlit("flow");
    let keys = |k: Seq<char>| is_security_key(k) && k != "pbk"@;
    assert(keys("sni"@) && keys("fp"@) && keys("insecure"@) && keys("alpn"@) && keys("flow"@)) by {
        assert("sni"@[1] != "pbk"@[1]);
        assert("fp"@.len() != "pbk"@.len());
        assert("insecure"@.len() != "pbk"@.len());
        assert("alpn"@.len() != "pbk"@.len());
        assert("flow"@.len() != "pbk"@.len());
    }
    lemma_pct_no_amp(n.sni);
    lemma_opt_kv(n.sni.len() > 0, "sni"@, pct_encode(n.sni), keys);
    lemma_opt_kv(n.fingerprint.len() > 0, "fp"@, n.fingerprint, keys);
    lemma_opt_kv(n.insecure, "insecure"@, "1"@, keys);
    crate::parser::round_trip::lemma_all_in_join_pub(n.alpn, ","@);
    lemma_opt_kv(n.alpn.len() > 0, "alpn"@, join(n.alpn, ","@), keys);
    lemma_opt_kv(n.flow.len() > 0, "flow"@, n.flow, keys);
    let a = crate::parser::v2ray_json::enc_piece("sni="@, n.sni);
    let b = crate::parser::v2ray_json::kv_piece("fp="@, n.fingerprint);
    let c = crate::parser::v2ray_json::opt_piece(n.insecure, "insecure=1"@);
    let d = crate::parser::v2ray_json::opt_piece(n.alpn.len() > 0, "alpn="@ + join(n.alpn, ","@));
    let e = crate::parser::v2ray_json::kv_piece("flow="@, n.flow);
    lemma_pieces_with_keys_concat(a, b, keys);
    lemma_pieces_with_keys_concat(a + b, c, keys);
    lemma_pieces_with_keys_concat(a + b + c, d, keys);
    lemma_pieces_with_keys_concat(a + b + c + d, e, keys);
}

proof fn lemma_reality_options(n: VlessView)
    requires
        raw_values_ok(n),
    ensures
        pieces_with_keys(
            crate::parser::v2ray_json::kv_piece("fp="@, n.fingerprint) + crate::parser::v2ray_json::kv_piece("sid="@, n.short_id)
                + crate::parser::v2ray_json::enc_piece("sni="@, n.sni) + crate::parser::v2ray_json::kv_piece("flow="@, n.flow),
            |k: Seq<char>| is_security_key(k),
        ),
        pieces_with_keys(crate::parser::v2ray_json::kv_piece("pbk="@, n.public_key), |k: Seq<char>| is_security_key(k)),
{
    lemma_option_lits();
    let keys = |k: Seq<char>| is_security_key(k);
    lemma_pct_no_amp(n.sni);
    lemma_opt_kv(n.public_key.len() > 0, "pbk"@, n.public_key, keys);
    lemma_opt_kv(n.fingerprint.len() > 0, "fp"@, n.fingerprint, keys);
    lemma_opt_kv(n.short_id.len() > 0, "sid"@, n.short_id, keys);
    lemma_opt_kv(n.sni.len() > 0, "sni"@, pct_encode(n.sni), keys);
    lemma_opt_kv(n.flow.len() > 0, "flow"@, n.flow, keys);
    let a = crate::parser::v2ray_json::kv_piece("fp="@, n.fingerprint);
    let b = crate::parser::v2ray_json::kv_piece("sid="@, n.short_id);
    let c = crate::parser::v2ray_json::enc_piece("sni="@, n.sni);
    let d = crate::parser::v2ray_json::kv_piece("flow="@, n.flow);
    lemma_pieces_with_keys_concat(a, b, keys);
    lemma_pieces_with_keys_concat(a + b, c, keys);
    lemma_pieces_with_keys_concat(a + b + c, d, keys);
}

proof fn lemma_first_keys_np(sec: Security)
    ensures
        pieces_with_keys(seq!["security"@ + seq!['='] + security_name(sec)], |k: Seq<char>| is_security_key(k)),
{
    lemma_security_first(sec);
    let first = seq!["security"@ + seq!['='] + security_name(sec)];
    let np = |k: Seq<char>| is_security_key(k) && k != "pbk"@;
    let all = |k: Seq<char>| is_security_key(k);
    assert forall|k: Seq<char>| #[trigger] np(k) implies all(k) by {}
    lemma_keys_weaken(first, np, all);
}

#[verifier::spinoff_prover]
proof fn lemma_security_pieces_tls(n: VlessView)
    requires
        raw_values_ok(n),
        n.security == Security::Tls,
    ensures
        security_pieces(n).len() >= 1,
        security_pieces(n)[0] == "security"@ + seq!['='] + security_name(n.security),
        kv_form(security_pieces(n)[0], "security"@),
        pieces_with_keys(security_pieces(n), |k: Seq<char>| is_security_key(k)),
        n.security != Security::Reality ==> pieces_with_keys(
            security_pieces(n),
            |k: Seq<char>| is_security_key(k) && k != "pbk"@,
        ),
        n.security == Security::Reality && n.public_key.len() > 0 ==> security_pieces(n).len() >= 2
            && security_pieces(n)[1] == "pbk"@ + seq!['='] + n.public_key && kv_form(
            security_pieces(n)[1],
            "pbk"@,
        ),
{
    lemma_security_lits();
    lemma_security_first(n.security);
    let first = seq!["security"@ + seq!['='] + security_name(n.security)];
    let np = |k: Seq<char>| is_security_key(k) && k != "pbk"@;
    let all = |k: Seq<char>| is_security_key(k);
    lemma_tls_options(n);
    let rest = crate::parser::v2ray_json::enc_piece("sni="@, n.sni) + crate::parser::v2ray_json::kv_piece("fp="@, n.fingerprint)
        + crate::parser::v2ray_json::opt_piece(n.insecure, "insecure=1"@) + crate::parser::v2ray_json::opt_piece(
        n.alpn.len() > 0,
        "alpn="@ + join(n.alpn, ","@),
    ) + crate::parser::v2ray_json::kv_piece("flow="@, n.flow);
    assert(security_pieces(n) =~= first + rest);
    lemma_pieces_with_keys_concat(first, rest, np);
    assert forall|k: Seq<char>| #[trigger] np(k) implies all(k) by {}
    lemma_keys_weaken(first + rest, np, all);
}

#[verifier::spinoff_prover]
proof fn lemma_security_pieces_plain(n: VlessView)
    requires
        n.security == Security::Plain,
    ensures
        security_pieces(n).len() >= 1,
        security_pieces(n)[0] == "security"@ + seq!['='] + security_name(n.security),
        kv_form(security_pieces(n)[0], "security"@),
        pieces_with_keys(security_pieces(n), |k: Seq<char>| is_security_key(k)),
        n.security != Security::Reality ==> pieces_with_keys(
            security_pieces(n),
            |k: Seq<char>| is_security_key(k) && k != "pbk"@,
        ),
        n.security == Security::Reality && n.public_key.len() > 0 ==> security_pieces(n).len() >= 2
            && security_pieces(n)[1] == "pbk"@ + seq!['='] + n.public_key && kv_form(
            security_pieces(n)[1],
            "pbk"@,
        ),
{
    lemma_security_lits();
    lemma_security_first(n.security);
    lemma_first_keys_np(n.security);
    let first = seq!["security"@ + seq!['='] + security_name(n.security)];
    assert(security_pieces(n) == first);
}

#[verifier::spinoff_prover]
proof fn lemma_security_pieces_reality(n: VlessView)
    requires
        raw_values_ok(n),
        n.security == Security::Reality,
    ensures
        security_pieces(n).len() >= 1,
        security_pieces(n)[0] == "security"@ + seq!['='] + security_name(n.security),
        kv_form(security_pieces(n)[0], "security"@),
        pieces_with_keys(security_pieces(n), |k: Seq<char>| is_security_key(k)),
        n.security != Security::Reality ==> pieces_with_keys(
            security_pieces(n),
            |k: Seq<char>| is_security_key(k) && k != "pbk"@,
        ),
        n.security == Security::Reality && n.public_key.len() > 0 ==> security_pieces(n).len() >= 2
            && security_pieces(n)[1] == "pbk"@ + seq!['='] + n.public_key && kv_form(
            security_pieces(n)[1],
            "pbk"@,
        ),
{
    lemma_security_lits();
    lemma_option_lits();
    lemma_security_first(n.security);
    lemma_first_keys_np(n.security);
    let first = seq!["security"@ + seq!['='] + security_name(n.security)];
    let all = |k: Seq<char>| is_security_key(k);
    lemma_reality_options(n);
    let pb = crate::parser::v2ray_json::kv_piece("pbk="@, n.public_key);
    let rest = crate::parser::v2ray_json::kv_piece("fp="@, n.fingerprint) + crate::parser::v2ray_json::kv_piece("sid="@, n.short_id)
        + crate::parser::v2ray_json::enc_piece("sni="@, n.sni) + crate::parser::v2ray_json::kv_piece("flow="@, n.flow);
    assert(security_pieces(n) =~= first + pb + rest);
    lemma_pieces_with_keys_concat(first, pb, all);
    lemma_pieces_with_keys_concat(first + pb, rest, all);
    if n.public_key.len() > 0 {
        let pp = "pbk"@ + seq!['='] + n.public_key;
        assert(pb == seq![pp]);
        assert((first + pb + rest)[1] == pp);
        assert(pp.subrange(0, 3) =~= "pbk"@);
        assert(pp[3] == '=');
        assert(all_in("pbk"@, |c: char| c != '&')) by {
            assert forall|i: int| 0 <= i < 3 implies #[trigger] "pbk"@[i] != '&' by {
                assert(is_name_char("pbk"@[i]));
            }
        }
        crate::parser::round_trip::lemma_all_in_concat("pbk"@, seq!['='], |c: char| c != '&');
        crate::parser::round_trip::lemma_all_in_concat("pbk"@ + seq!['='], n.public_key, |c: char| c != '&');
    }
}

/// The security pieces: `security=<name>` first, then pieces keyed by
/// security options; `pbk` only under reality, where it comes second.
proof fn lemma_security_pieces(n: VlessView)
    requires
        raw_values_ok(n),
    ensures
        security_pieces(n).len() >= 1,
        security_pieces(n)[0] == "security"@ + seq!['='] + security_name(n.security),
        kv_form(security_pieces(n)[0], "security"@),
        pieces_with_keys(security_pieces(n), |k: Seq<char>| is_security_key(k)),
        n.security != Security::Reality ==> pieces_with_keys(
            security_pieces(n),
            |k: Seq<char>| is_security_key(k) && k != "pbk"@,
        ),
        n.security == Security::Reality && n.public_key.len() > 0 ==> security_pieces(n).len() >= 2
            && security_pieces(n)[1] == "pbk"@ + seq!['='] + n.public_key && kv_form(
            security_pieces(n)[1],
            "pbk"@,
        ),
{
    match n.security {
        Security::Plain => lemma_security_pieces_plain(n),
        Security::Tls => lemma_security_pieces_tls(n),
        Security::Reality => lemma_security_pieces_reality(n),
    }
}

/// The query pieces of a canonical vless link.
pub open spec fn vless_pieces(n: VlessView) -> Seq<Seq<char>> {
    transport_pieces(n.transport) + security_pieces(n)
}

/// The parameter map the parser reads from the query of a canonical vless
/// link.
pub open spec fn vless_query_map(n: VlessView) -> Seq<(Seq<char>, Seq<char>)> {
    crate::parser::vless::query_map_spec(Some(join(vless_pieces(n), "&"@)))
}

proof fn lemma_pieces_split(ps: Seq<Seq<char>>, keys: spec_fn(Seq<char>) -> bool)
    requires
        pieces_with_keys(ps, keys),
        ps.len() >= 1,
    ensures
        split_char(join(ps, "&"@), '&') == ps,
        crate::parser::vless::query_entries(ps) == entries(ps),
{
    reveal_strlit("&");
    assert("&"@ =~= seq!['&']);
    assert forall|k: int| 0 <= k < ps.len() implies all_in(#[trigger] ps[k], |c: char| c != '&') && ps[k].len() > 0 by {
        assert(piece_has_key(ps[k], keys));
        let key = choose|key: Seq<char>| #[trigger] kv_form(ps[k], key) && keys(key);
    }
    crate::parser::round_trip::lemma_split_join(ps, '&');
    lemma_query_entries_all(ps);
}

proof fn lemma_query_entries_all(ps: Seq<Seq<char>>)
    requires
        forall|k: int| 0 <= k < ps.len() ==> (#[trigger] ps[k]).len() > 0,
    ensures
        crate::parser::vless::query_entries(ps) == entries(ps),
    decreases ps.len(),
{
    if ps.len() > 0 {
        let init = ps.drop_last();
        assert forall|k: int| 0 <= k < init.len() implies (#[trigger] init[k]).len() > 0 by {
            assert(init[k] == ps[k]);
        }
        lemma_query_entries_all(init);
        assert(ps.last() == ps[ps.len() - 1]);
        assert(entries(ps) =~= entries(init).push(query_entry(ps.last())));
    }
}

proof fn lemma_key_lits()
    ensures
        !is_transport_key("security"@),
        !is_transport_key("pbk"@),
        !is_transport_key("headerType"@),
        !is_security_key("headerType"@),
        "security"@ != "pbk"@,
        "type"@.len() == 4,
        "security"@.len() == 8,
        "pbk"@.len() == 3,
{
    reveal_strlit("type");
    reveal_strlit("path");
    reveal_strlit("host");
    reveal_strlit("serviceName");
    reveal_strlit("security");
    reveal_strlit("pbk");
    reveal_strlit("headerType");
    reveal_strlit("fp");
    reveal_strlit("sid");
    reveal_strlit("sni");
    reveal_strlit("flow");
    reveal_strlit("insecure");
    reveal_strlit("alpn");
    assert("headerType"@.len() == 10);
    assert("pbk"@.len() == 3 && "type"@.len() == 4 && "path"@.len() == 4 && "host"@.len() == 4
        && "serviceName"@.len() == 11);
    assert("security"@[0] != "serviceName"@[1]);
    assert("security"@.len() != "serviceName"@.len());
    assert("pbk"@[0] != "sni"@[0] && "pbk"@[0] != "sid"@[0]);
}

/// The query map of a canonical vless link keeps first occurrences of the
/// transport entries followed by the security entries.
#[verifier::spinoff_prover]
#[verifier::rlimit(30)]
proof fn lemma_vless_setup(n: VlessView)
    requires
        raw_values_ok(n),
    ensures
        vless_query_map(n) == first_keys(entries(transport_pieces(n.transport)) + entries(security_pieces(n))),
{
    let tp = transport_pieces(n.transport);
    let sp = security_pieces(n);
    let ps = tp + sp;
    lemma_transport_pieces(n.transport);
    lemma_security_pieces(n);
    let tk = |k: Seq<char>| is_transport_key(k);
    let sk = |k: Seq<char>| is_security_key(k);
    let any = |k: Seq<char>| is_transport_key(k) || is_security_key(k);
    assert forall|k: Seq<char>| #[trigger] tk(k) implies any(k) by {}
    assert forall|k: Seq<char>| #[trigger] sk(k) implies any(k) by {}
    lemma_keys_weaken(tp, tk, any);
    lemma_keys_weaken(sp, sk, any);
    lemma_pieces_with_keys_concat(tp, sp, any);
    lemma_pieces_split(ps, any);
    assert(entries(ps) =~= entries(tp) + entries(sp));
}

#[verifier::spinoff_prover]
#[verifier::rlimit(30)]
proof fn lemma_lookup_type(n: VlessView)
    requires
        raw_values_ok(n),
    ensures
        lookup(vless_query_map(n), "type"@) == Some(transport_name(n.transport)),
{
    let tp = transport_pieces(n.transport);
    let sp = security_pieces(n);
    lemma_vless_setup(n);
    lemma_transport_pieces(n.transport);
    lemma_key_lits();
    lemma_kv_entry(tp[0], "type"@);
    assert(tp[0].subrange(5, tp[0].len() as int) =~= transport_name(n.transport));
    assert(entries(tp)[0] == ("type"@, transport_name(n.transport)));
    assert(has_key(entries(tp), "type"@));
    lemma_lookup_concat(entries(tp), entries(sp), "type"@);
    lemma_lookup_first_keys(entries(tp) + entries(sp), "type"@);
}

#[verifier::spinoff_prover]
#[verifier::rlimit(30)]
proof fn lemma_lookup_security(n: VlessView)
    requires
        raw_values_ok(n),
    ensures
        lookup(vless_query_map(n), "security"@) == Some(security_name(n.security)),
{
    let tp = transport_pieces(n.transport);
    let sp = security_pieces(n);
    lemma_vless_setup(n);
    lemma_transport_pieces(n.transport);
    lemma_security_pieces(n);
    lemma_key_lits();
    lemma_no_key(tp, |k: Seq<char>| is_transport_key(k), "security"@);
    lemma_kv_entry(sp[0], "security"@);
    assert(sp[0].subrange(9, sp[0].len() as int) =~= security_name(n.security));
    assert(entries(sp)[0] == ("security"@, security_name(n.security)));
    lemma_lookup_concat(entries(tp), entries(sp), "security"@);
    lemma_lookup_first_keys(entries(tp) + entries(sp), "security"@);
}

#[verifier::spinoff_prover]
#[verifier::rlimit(30)]
proof fn lemma_lookup_header(n: VlessView)
    requires
        raw_values_ok(n),
    ensures
        lookup(vless_query_map(n), "headerType"@) is None,
{
    let tp = transport_pieces(n.transport);
    let sp = security_pieces(n);
    lemma_vless_setup(n);
    lemma_transport_pieces(n.transport);
    lemma_security_pieces(n);
    lemma_key_lits();
    lemma_no_key(tp, |k: Seq<char>| is_transport_key(k), "headerType"@);
    lemma_no_key(sp, |k: Seq<char>| is_security_key(k), "headerType"@);
    lemma_lookup_concat(entries(tp), entries(sp), "headerType"@);
    lemma_lookup_some(entries(sp), "headerType"@);
    lemma_lookup_first_keys(entries(tp) + entries(sp), "headerType"@);
}

#[verifier::spinoff_prover]
#[verifier::rlimit(30)]
proof fn lemma_lookup_sp_reality(n: VlessView)
    requires
        raw_values_ok(n),
        n.security == Security::Reality,
        n.public_key.len() > 0,
    ensures
        lookup(entries(security_pieces(n)), "pbk"@) == Some(n.public_key),
{
    let sp = security_pieces(n);
    lemma_security_pieces_reality(n);
    lemma_key_lits();
    lemma_kv_entry(sp[0], "security"@);
    lemma_kv_entry(sp[1], "pbk"@);
    assert(sp[1].subrange(4, sp[1].len() as int) =~= n.public_key);
    let es = entries(sp);
    assert(es[0].0 == "security"@);
    assert(es[1] == ("pbk"@, n.public_key));
    assert(es.drop_first()[0] == es[1]);
    assert(lookup(es.drop_first(), "pbk"@) == Some(n.public_key));
}

#[verifier::spinoff_prover]
proof fn lemma_lookup_pbk_reality(n: VlessView)
    requires
        raw_values_ok(n),
        n.security == Security::Reality,
        n.public_key.len() > 0,
    ensures
        lookup(vless_query_map(n), "pbk"@) == Some(n.public_key),
{
    let tp = transport_pieces(n.transport);
    let sp = security_pieces(n);
    lemma_vless_setup(n);
    lemma_transport_pieces(n.transport);
    lemma_key_lits();
    lemma_no_key(tp, |k: Seq<char>| is_transport_key(k), "pbk"@);
    lemma_lookup_sp_reality(n);
    lemma_lookup_concat(entries(tp), entries(sp), "pbk"@);
    lemma_lookup_first_keys(entries(tp) + entries(sp), "pbk"@);
}

#[verifier::spinoff_prover]
proof fn lemma_lookup_pbk_other(n: VlessView)
    requires
        raw_values_ok(n),
        n.security != Security::Reality,
    ensures
        lookup(vless_query_map(n), "pbk"@) is None,
{
    let tp = transport_pieces(n.transport);
    let sp = security_pieces(n);
    lemma_vless_setup(n);
    lemma_transport_pieces(n.transport);
    lemma_security_pieces(n);
    lemma_key_lits();
    lemma_no_key(tp, |k: Seq<char>| is_transport_key(k), "pbk"@);
    lemma_lookup_concat(entries(tp), entries(sp), "pbk"@);
    lemma_lookup_first_keys(entries(tp) + entries(sp), "pbk"@);
    lemma_no_key(sp, |k: Seq<char>| is_security_key(k) && k != "pbk"@, "pbk"@);
    lemma_lookup_some(entries(sp), "pbk"@);
}

proof fn lemma_name_value_plain(v: Seq<char>)
    requires
        all_in(v, |c: char| is_name_char(c)),
    ensures
        percent_decoded(v) == v,
        crate::text::trim(v) == v,
        crate::text::lower_seq(v) == v || exists|i: int| 0 <= i < v.len() && 'A' <= #[trigger] v[i] && v[i] <= 'Z',
{
    assert(all_in(v, |c: char| is_plain_char(c))) by {
        assert forall|i: int| 0 <= i < v.len() implies is_plain_char(#[trigger] v[i]) by {
            assert(is_name_char(v[i]));
        }
    }
    lemma_percent_plain(v);
    assert(all_in(v, |c: char| !crate::text::is_ws(c))) by {
        assert forall|i: int| 0 <= i < v.len() implies !crate::text::is_ws(#[trigger] v[i]) by {
            assert(is_name_char(v[i]));
        }
    }
    crate::parser::round_trip::lemma_trim_clean(v);
    if !exists|i: int| 0 <= i < v.len() && 'A' <= #[trigger] v[i] && v[i] <= 'Z' {
        crate::parser::round_trip::lemma_lower_clean(v);
    }
}

#[verifier::spinoff_prover]
#[verifier::rlimit(30)]
proof fn lemma_transport_read(n: VlessView)
    requires
        raw_values_ok(n),
    ensures
        crate::parser::vless::vless_transport(vless_query_map(n)) is Ok,
        crate::parser::vless::transport_type(vless_query_map(n)) == transport_name(n.transport),
{
    lemma_lookup_type(n);
    lemma_name_chars_lit();
    let tn = transport_name(n.transport);
    lemma_name_value_plain(tn);
    reveal_strlit("tcp");
    reveal_strlit("ws");
    reveal_strlit("grpc");
    reveal_strlit("httpupgrade");
    assert(crate::text::lower_seq(tn) == tn) by {
        crate::parser::round_trip::lemma_lower_clean(tn);
    }
    assert(tn.len() > 0);
    assert(crate::parser::vless::transport_type(vless_query_map(n)) == tn);
    assert("grpc"@ != "tcp"@ && "grpc"@ != "ws"@ && "grpc"@ != "httpupgrade"@) by {
        assert("grpc"@.len() == 4 && "tcp"@.len() == 3 && "ws"@.len() == 2 && "httpupgrade"@.len() == 11);
    }
    assert("ws"@ != "tcp"@ && "httpupgrade"@ != "tcp"@ && "httpupgrade"@ != "ws"@) by {
        assert("tcp"@.len() == 3 && "ws"@.len() == 2 && "httpupgrade"@.len() == 11);
    }
}

#[verifier::spinoff_prover]
#[verifier::rlimit(30)]
proof fn lemma_security_read(n: VlessView)
    requires
        raw_values_ok(n),
    ensures
        crate::parser::vless::vless_security(vless_query_map(n)) == Ok::<Security, crate::error::ErrorView>(n.security),
{
    lemma_lookup_security(n);
    lemma_security_lits();
    let sn = security_name(n.security);
    lemma_name_value_plain(sn);
    reveal_strlit("reality");
    reveal_strlit("tls");
    reveal_strlit("none");
    assert(sn.len() > 0);
    assert("tls"@ != "reality"@ && "none"@ != "reality"@ && "none"@ != "tls"@) by {
        assert("tls"@.len() == 3 && "reality"@.len() == 7 && "none"@.len() == 4);
    }
}

/// A server, name and node a canonical vless link can be read back from: a
/// lower-case DNS name or IPv4 address, a name that is not blank, a user id
/// of plain ASCII, values written as they are that hold no `&`, and a
/// public key exactly under reality.
pub open spec fn vless_round_trip_ok(server: Seq<char>, name: Seq<char>, n: VlessView) -> bool {
    &&& server.len() > 0
    &&& all_in(server, |c: char| crate::parser::round_trip::is_host_char(c))
    &&& !crate::text::is_blank(name)
    &&& n.uuid.len() > 0
    &&& all_in(n.uuid, |c: char| is_plain_char(c))
    &&& raw_values_ok(n)
    &&& (n.security == Security::Reality <==> n.public_key.len() > 0)
}

/// Reading back a canonical vless link gives the server, port and name it
/// was built from, and the node's user id, security and public key. The
/// premise on `url_parse` says what the `url` crate makes of the link: the
/// scheme `vless`, the user id as user name, the server as host, the port,
/// the query as written and the encoded name as fragment.
pub proof fn lemma_vless_round_trip(
    server: Seq<char>,
    port: u16,
    name: Seq<char>,
    n: VlessView,
    u: crate::url_text::UrlView,
)
    requires
        vless_round_trip_ok(server, name, n),
        crate::url_text::url_parse(crate::parser::v2ray_json::canonical_vless(server, port, name, n))
            == Ok::<crate::url_text::UrlView, Seq<char>>(u),
        u.scheme == "vless"@,
        u.username == n.uuid,
        u.host == Some(server),
        u.port == Some(port),
        u.query == Some(join(vless_pieces(n), "&"@)),
        u.fragment == Some(pct_encode(name)),
    ensures
        ({
            let link = crate::parser::v2ray_json::canonical_vless(server, port, name, n);
            let r = crate::parser::vless::vless_spec(link);
            &&& r is Ok
            &&& r->Ok_0.server == server
            &&& r->Ok_0.port == port
            &&& r->Ok_0.name == name
            &&& r->Ok_0.raw == link
            &&& r->Ok_0.kind is Vless
            &&& r->Ok_0.kind->Vless_0.uuid == n.uuid
            &&& r->Ok_0.kind->Vless_0.security == n.security
            &&& r->Ok_0.kind->Vless_0.public_key == n.public_key
            &&& crate::parser::vless::transport_kind(r->Ok_0.kind->Vless_0.transport)
                == crate::parser::vless::transport_kind(n.transport)
        }),
{
    let link = crate::parser::v2ray_json::canonical_vless(server, port, name, n);
    let q = vless_query_map(n);
    assert(crate::parser::vless::query_map_spec(u.query) == q);
    lemma_percent_plain(n.uuid);
    crate::url_text::lemma_decode_undoes_encode(name);
    assert(crate::parser::round_trip::is_host_char(server[0]));
    assert(crate::parser::round_trip::is_host_char(server.last())) by {
        assert(server.last() == server[server.len() - 1]);
    }
    assert(crate::parser::vless::strip_leading(server, '[') == server);
    assert(crate::parser::vless::strip_trailing(server, ']') == server);
    assert(crate::parser::vless::unbracket(server) == server);
    lemma_lookup_header(n);
    lemma_transport_read(n);
    lemma_security_read(n);
    if n.security == Security::Reality {
        lemma_lookup_pbk_reality(n);
    } else {
        lemma_lookup_pbk_other(n);
        assert(n.public_key =~= Seq::<char>::empty());
    }
    assert(crate::parser::vless::or_default(lookup(q, "pbk"@)) == n.public_key);
    assert(crate::parser::vless::qget(q, "headerType"@) is None);
    assert(crate::parser::vless::remark_name(u.fragment, server, port) == name);
    crate::parser::vless::lemma_parsed_transport_kind(link, u);
    assert(transport_name(n.transport) == crate::parser::vless::transport_kind(n.transport));
}

} // verus!
