//! The sing-box 1.13 configuration document: built from the settings and
//! the chosen servers, with the map from server id to outbound tag and the
//! clash-api coordinates. Nothing here does I/O.

use vstd::prelude::*;
use vstd::string::*;

use crate::error::AppError;
use crate::json::{
    array, boolean, items_v, jstrs, jv_get, member_if, members_v, number, object, put, push_item,
    strings, text, text_owned, Json, JsonV,
};
use crate::models::{
    AppRouteAction, AppRouteRule, Hysteria2Node, Hysteria2Obfs, Hysteria2View, IpStrategy, Mode,
    NodeView, ProxyKind, ProxyNode, RouteTarget, Security, Settings, Transport, TransportView,
    VlessNode, VlessView, KindView, texts,
};
use crate::text::{
    chars_of, decimal, decimal_exec, is_ws, join, join_exec, push_all, push_str, split_words,
    string_of, trim, trim_chars, words,
};

verus! {

// ---------------------------------------------------------------------------
// Server outbounds
// ---------------------------------------------------------------------------

/// A string value.
pub open spec fn js(s: Seq<char>) -> JsonV {
    JsonV::Str(s)
}

/// The `tls` block of a VLESS outbound.
pub open spec fn vless_tls_doc(v: VlessView) -> JsonV {
    let fingerprint = if v.fingerprint.len() == 0 {
        "chrome"@
    } else {
        v.fingerprint
    };
    JsonV::Object(
        seq![
            ("enabled"@, JsonV::Bool(true)),
            ("server_name"@, js(v.sni)),
            ("insecure"@, JsonV::Bool(v.insecure)),
        ] + member_if(
            v.fingerprint.len() > 0 || v.security == Security::Reality,
            "utls"@,
            JsonV::Object(
                seq![("enabled"@, JsonV::Bool(true)), ("fingerprint"@, js(fingerprint))],
            ),
        ) + member_if(v.alpn.len() > 0, "alpn"@, jstrs(v.alpn)) + member_if(
            v.security == Security::Reality,
            "reality"@,
            JsonV::Object(
                seq![
                    ("enabled"@, JsonV::Bool(true)),
                    ("public_key"@, js(v.public_key)),
                    ("short_id"@, js(v.short_id)),
                ],
            ),
        ),
    )
}

/// The `transport` member of a VLESS outbound; none for plain TCP.
pub open spec fn transport_members(t: TransportView) -> Seq<(Seq<char>, JsonV)> {
    match t {
        TransportView::Tcp => Seq::empty(),
        TransportView::Ws { path, host } => seq![
            (
                "transport"@,
                JsonV::Object(
                    seq![("type"@, js("ws"@)), ("path"@, js(path))] + member_if(
                        host.len() > 0,
                        "headers"@,
                        JsonV::Object(seq![("Host"@, js(host))]),
                    ),
                ),
            ),
        ],
        TransportView::Grpc { service_name } => seq![
            (
                "transport"@,
                JsonV::Object(seq![("type"@, js("grpc"@)), ("service_name"@, js(service_name))]),
            ),
        ],
        TransportView::Httpupgrade { path, host } => seq![
            (
                "transport"@,
                JsonV::Object(
                    seq![("type"@, js("httpupgrade"@)), ("path"@, js(path))] + member_if(
                        host.len() > 0,
                        "host"@,
                        js(host),
                    ),
                ),
            ),
        ],
    }
}

/// The outbound of a VLESS server under `tag`.
pub open spec fn vless_doc(n: NodeView, v: VlessView, tag: Seq<char>) -> JsonV {
    JsonV::Object(
        seq![
            ("type"@, js("vless"@)),
            ("tag"@, js(tag)),
            ("server"@, js(n.server)),
            ("server_port"@, JsonV::Number(Some(n.port as u64))),
            ("uuid"@, js(v.uuid)),
        ] + member_if(v.flow.len() > 0, "flow"@, js(v.flow)) + seq![
            ("packet_encoding"@, js("xudp"@)),
        ] + member_if(v.security != Security::Plain, "tls"@, vless_tls_doc(v))
            + transport_members(v.transport),
    )
}

/// The outbound of a Hysteria2 server under `tag`.
pub open spec fn hysteria2_doc(n: NodeView, h: Hysteria2View, tag: Seq<char>) -> JsonV {
    let server_name = if h.sni.len() > 0 {
        h.sni
    } else {
        n.server
    };
    JsonV::Object(
        seq![
            ("type"@, js("hysteria2"@)),
            ("tag"@, js(tag)),
            ("server"@, js(n.server)),
            ("server_port"@, JsonV::Number(Some(n.port as u64))),
            ("password"@, js(h.password)),
            (
                "tls"@,
                JsonV::Object(
                    seq![
                        ("enabled"@, JsonV::Bool(true)),
                        ("server_name"@, js(server_name)),
                        ("insecure"@, JsonV::Bool(h.insecure)),
                    ] + member_if(h.alpn.len() > 0, "alpn"@, jstrs(h.alpn)),
                ),
            ),
        ] + match h.obfs {
            Some(p) => seq![
                (
                    "obfs"@,
                    JsonV::Object(seq![("type"@, js("salamander"@)), ("password"@, js(p))]),
                ),
            ],
            None => Seq::empty(),
        },
    )
}

/// The outbound of a server under `tag`.
pub open spec fn server_doc(n: NodeView, tag: Seq<char>) -> JsonV {
    match n.kind {
        KindView::Vless(v) => vless_doc(n, v, tag),
        KindView::Hysteria2(h) => hysteria2_doc(n, h, tag),
    }
}

fn tls_of_vless(v: &VlessNode) -> (r: Json)
    ensures
        r@ == vless_tls_doc(v@),
{
    let mut tls: Vec<(String, Json)> = Vec::new();
    put(&mut tls, "enabled", boolean(true));
    put(&mut tls, "server_name", text(v.sni.as_str()));
    put(&mut tls, "insecure", boolean(v.insecure));
    let ghost head = members_v(tls@);
    let ghost fp = if v.fingerprint@.len() == 0 {
        "chrome"@
    } else {
        v.fingerprint@
    };
    if !v.fingerprint.as_str().is_empty() || v.security == Security::Reality {
        let fingerprint = if v.fingerprint.as_str().is_empty() {
            text("chrome")
        } else {
            text(v.fingerprint.as_str())
        };
        let mut utls: Vec<(String, Json)> = Vec::new();
        put(&mut utls, "enabled", boolean(true));
        put(&mut utls, "fingerprint", fingerprint);
        assert(members_v(utls@) =~= seq![
            ("enabled"@, JsonV::Bool(true)),
            ("fingerprint"@, js(fp)),
        ]);
        put(&mut tls, "utls", object(utls));
    }
    let ghost with_utls = members_v(tls@);
    if v.alpn.len() > 0 {
        put(&mut tls, "alpn", strings(&v.alpn));
    }
    let ghost with_alpn = members_v(tls@);
    if v.security == Security::Reality {
        let mut reality: Vec<(String, Json)> = Vec::new();
        put(&mut reality, "enabled", boolean(true));
        put(&mut reality, "public_key", text(v.public_key.as_str()));
        put(&mut reality, "short_id", text(v.short_id.as_str()));
        assert(members_v(reality@) =~= seq![
            ("enabled"@, JsonV::Bool(true)),
            ("public_key"@, js(v.public_key@)),
            ("short_id"@, js(v.short_id@)),
        ]);
        put(&mut tls, "reality", object(reality));
    }
    assert(with_utls =~= head + member_if(
        v.fingerprint@.len() > 0 || v.security == Security::Reality,
        "utls"@,
        JsonV::Object(seq![("enabled"@, JsonV::Bool(true)), ("fingerprint"@, js(fp))]),
    ));
    assert(with_alpn =~= with_utls + member_if(v@.alpn.len() > 0, "alpn"@, jstrs(v@.alpn)));
    let r = object(tls);
    assert(r@->Object_0 =~= vless_tls_doc(v@)->Object_0);
    r
}

fn transport_of_vless(o: &mut Vec<(String, Json)>, t: &Transport)
    ensures
        members_v(final(o)@) == members_v(old(o)@) + transport_members(t@),
{
    let ghost before = members_v(o@);
    match t {
        Transport::Tcp => {
            assert(members_v(o@) =~= before + transport_members(t@));
        },
        Transport::Ws { path, host } => {
            let mut m: Vec<(String, Json)> = Vec::new();
            put(&mut m, "type", text("ws"));
            put(&mut m, "path", text(path.as_str()));
            let ghost head = members_v(m@);
            assert(head =~= seq![("type"@, js("ws"@)), ("path"@, js(path@))]);
            if !host.as_str().is_empty() {
                let mut h: Vec<(String, Json)> = Vec::new();
                put(&mut h, "Host", text(host.as_str()));
                assert(members_v(h@) =~= seq![("Host"@, js(host@))]);
                put(&mut m, "headers", object(h));
            }
            assert(members_v(m@) =~= head + member_if(
                host@.len() > 0,
                "headers"@,
                JsonV::Object(seq![("Host"@, js(host@))]),
            ));
            put(o, "transport", object(m));
            assert(members_v(o@) =~= before + transport_members(t@));
        },
        Transport::Grpc { service_name } => {
            let mut m: Vec<(String, Json)> = Vec::new();
            put(&mut m, "type", text("grpc"));
            put(&mut m, "service_name", text(service_name.as_str()));
            assert(members_v(m@) =~= seq![
                ("type"@, js("grpc"@)),
                ("service_name"@, js(service_name@)),
            ]);
            put(o, "transport", object(m));
            assert(members_v(o@) =~= before + transport_members(t@));
        },
        Transport::Httpupgrade { path, host } => {
            let mut m: Vec<(String, Json)> = Vec::new();
            put(&mut m, "type", text("httpupgrade"));
            put(&mut m, "path", text(path.as_str()));
            let ghost head = members_v(m@);
            assert(head =~= seq![("type"@, js("httpupgrade"@)), ("path"@, js(path@))]);
            if !host.as_str().is_empty() {
                put(&mut m, "host", text(host.as_str()));
            }
            assert(members_v(m@) =~= head + member_if(host@.len() > 0, "host"@, js(host@)));
            put(o, "transport", object(m));
            assert(members_v(o@) =~= before + transport_members(t@));
        },
    }
}

/// The outbound of a VLESS server under `tag`.
pub fn vless_outbound(s: &ProxyNode, v: &VlessNode, tag: &str) -> (r: Json)
    ensures
        r@ == vless_doc(s@, v@, tag@),
{
    let mut o: Vec<(String, Json)> = Vec::new();
    put(&mut o, "type", text("vless"));
    put(&mut o, "tag", text(tag));
    put(&mut o, "server", text(s.server.as_str()));
    put(&mut o, "server_port", number(s.port as u64));
    put(&mut o, "uuid", text(v.uuid.as_str()));
    let ghost head = members_v(o@);
    if !v.flow.as_str().is_empty() {
        put(&mut o, "flow", text(v.flow.as_str()));
    }
    let ghost with_flow = members_v(o@);
    put(&mut o, "packet_encoding", text("xudp"));
    let ghost with_encoding = members_v(o@);
    if v.security != Security::Plain {
        put(&mut o, "tls", tls_of_vless(v));
    }
    let ghost with_tls = members_v(o@);
    transport_of_vless(&mut o, &v.transport);
    assert(with_flow =~= head + member_if(v@.flow.len() > 0, "flow"@, js(v@.flow)));
    assert(with_tls =~= with_encoding + member_if(
        v.security != Security::Plain,
        "tls"@,
        vless_tls_doc(v@),
    ));
    let r = object(o);
    assert(r@->Object_0 =~= vless_doc(s@, v@, tag@)->Object_0);
    r
}

/// The outbound of a Hysteria2 server under `tag`.
pub fn hysteria2_outbound(s: &ProxyNode, h: &Hysteria2Node, tag: &str) -> (r: Json)
    ensures
        r@ == hysteria2_doc(s@, h@, tag@),
{
    let mut o: Vec<(String, Json)> = Vec::new();
    put(&mut o, "type", text("hysteria2"));
    put(&mut o, "tag", text(tag));
    put(&mut o, "server", text(s.server.as_str()));
    put(&mut o, "server_port", number(s.port as u64));
    put(&mut o, "password", text(h.password.as_str()));
    let mut tls: Vec<(String, Json)> = Vec::new();
    put(&mut tls, "enabled", boolean(true));
    if !h.sni.as_str().is_empty() {
        put(&mut tls, "server_name", text(h.sni.as_str()));
    } else {
        put(&mut tls, "server_name", text(s.server.as_str()));
    }
    put(&mut tls, "insecure", boolean(h.insecure));
    let ghost head = members_v(tls@);
    let ghost server_name = if h.sni@.len() > 0 {
        h.sni@
    } else {
        s.server@
    };
    assert(head =~= seq![
        ("enabled"@, JsonV::Bool(true)),
        ("server_name"@, js(server_name)),
        ("insecure"@, JsonV::Bool(h.insecure)),
    ]);
    if h.alpn.len() > 0 {
        put(&mut tls, "alpn", strings(&h.alpn));
    }
    assert(members_v(tls@) =~= head + member_if(h@.alpn.len() > 0, "alpn"@, jstrs(h@.alpn)));
    put(&mut o, "tls", object(tls));
    let ghost before_obfs = members_v(o@);
    match &h.obfs {
        Some(Hysteria2Obfs::Salamander { password }) => {
            let mut ob: Vec<(String, Json)> = Vec::new();
            put(&mut ob, "type", text("salamander"));
            put(&mut ob, "password", text(password.as_str()));
            assert(members_v(ob@) =~= seq![("type"@, js("salamander"@)), ("password"@, js(password@))]);
            put(&mut o, "obfs", object(ob));
        },
        None => {},
    }
    let r = object(o);
    assert(r@->Object_0 =~= hysteria2_doc(s@, h@, tag@)->Object_0);
    r
}

/// The outbound of a server under `tag`.
pub fn server_outbound(s: &ProxyNode, tag: &str) -> (r: Json)
    ensures
        r@ == server_doc(s@, tag@),
{
    match &s.kind {
        ProxyKind::Vless(v) => vless_outbound(s, v, tag),
        ProxyKind::Hysteria2(h) => hysteria2_outbound(s, h, tag),
    }
}

// ---------------------------------------------------------------------------
// Outbound tags
// ---------------------------------------------------------------------------

/// Tags of the outbounds every document has; no server may take one.
pub open spec fn reserved_tags() -> Seq<Seq<char>> {
    seq!["proxy"@, "auto"@, "direct"@]
}

/// A server name with its whitespace runs collapsed to single spaces and
/// trimmed (`split_whitespace` joined by a space).
pub open spec fn sanitized(name: Seq<char>) -> Seq<char> {
    join(words(name), " "@)
}

/// The tag a server at position `i` asks for: its sanitized name, or
/// `server-<i+1>` when that is empty.
pub open spec fn base_tag(name: Seq<char>, i: int) -> Seq<char> {
    if sanitized(name).len() == 0 {
        "server-"@ + decimal((i + 1) as nat)
    } else {
        sanitized(name)
    }
}

/// The `k`-th tag tried for `base`: `base` itself, then `base (2)`,
/// `base (3)`, and so on.
pub open spec fn candidate(base: Seq<char>, k: nat) -> Seq<char> {
    if k <= 1 {
        base
    } else {
        base + " ("@ + decimal(k) + ")"@
    }
}

/// `tag` is the first candidate for `base` that `used` does not hold.
pub open spec fn first_free(base: Seq<char>, used: Seq<Seq<char>>, tag: Seq<char>) -> bool {
    exists|k: nat|
        #![trigger candidate(base, k)]
        k >= 1 && tag == candidate(base, k) && !used.contains(tag) && (forall|j: nat|
            1 <= j < k ==> used.contains(#[trigger] candidate(base, j)))
}

/// `tags` are the tags given to servers named `names`, in order: each the
/// first free candidate of its base tag, next to the reserved tags and the
/// tags given before it.
pub open spec fn tags_assigned(names: Seq<Seq<char>>, tags: Seq<Seq<char>>) -> bool {
    &&& tags.len() == names.len()
    &&& forall|i: int|
        0 <= i < tags.len() ==> first_free(
            base_tag(names[i], i),
            reserved_tags() + tags.take(i),
            #[trigger] tags[i],
        )
}

/// A decimal has at least one digit, and two from ten on.
pub proof fn lemma_decimal_len(n: nat)
    ensures
        decimal(n).len() >= 1,
        n >= 10 ==> decimal(n).len() >= 2,
    decreases n,
{
    if n >= 10 {
        lemma_decimal_len(n / 10);
    }
}

/// Distinct numbers have distinct decimals.
pub proof fn lemma_decimal_injective(a: nat, b: nat)
    requires
        decimal(a) == decimal(b),
    ensures
        a == b,
    decreases a,
{
    lemma_decimal_len(a);
    lemma_decimal_len(b);
    if a < 10 && b < 10 {
        assert(decimal(a)[0] == decimal(b)[0]);
        assert(decimal(a)[0] as u32 == 48 + a);
        assert(decimal(b)[0] as u32 == 48 + b);
    } else if a >= 10 && b >= 10 {
        let da = decimal(a);
        let db = decimal(b);
        assert(da.drop_last() =~= decimal(a / 10));
        assert(db.drop_last() =~= decimal(b / 10));
        lemma_decimal_injective(a / 10, b / 10);
        assert(da.last() as u32 == 48 + a % 10);
        assert(db.last() as u32 == 48 + b % 10);
    }
}

/// Distinct suffix numbers give distinct candidate tags.
pub proof fn lemma_candidate_injective(base: Seq<char>, j: nat, k: nat)
    requires
        j >= 1,
        k >= 1,
        candidate(base, j) == candidate(base, k),
    ensures
        j == k,
{
    lemma_decimal_len(j);
    lemma_decimal_len(k);
    reveal_strlit(" (");
    reveal_strlit(")");
    if j >= 2 && k >= 2 {
        let cj = candidate(base, j);
        let ck = candidate(base, k);
        assert(cj.subrange(base.len() + 2int, cj.len() - 1int) =~= decimal(j));
        assert(ck.subrange(base.len() + 2int, ck.len() - 1int) =~= decimal(k));
        lemma_decimal_injective(j, k);
    } else if j >= 2 {
        assert(candidate(base, j).len() > base.len());
    } else if k >= 2 {
        assert(candidate(base, k).len() > base.len());
    }
}

/// Assigned tags never take a reserved tag and never repeat.
pub proof fn lemma_tags_distinct(names: Seq<Seq<char>>, tags: Seq<Seq<char>>)
    requires
        tags_assigned(names, tags),
    ensures
        forall|i: int| 0 <= i < tags.len() ==> !reserved_tags().contains(#[trigger] tags[i]),
        forall|i: int, j: int| 0 <= i < j < tags.len() ==> tags[i] != tags[j],
{
    assert forall|i: int| 0 <= i < tags.len() implies !reserved_tags().contains(
        #[trigger] tags[i],
    ) by {
        let used = reserved_tags() + tags.take(i);
        assert(first_free(base_tag(names[i], i), used, tags[i]));
        if reserved_tags().contains(tags[i]) {
            let k = choose|k: int| 0 <= k < 3 && reserved_tags()[k] == tags[i];
            assert(used[k] == tags[i]);
        }
    }
    assert forall|i: int, j: int| 0 <= i < j < tags.len() implies tags[i] != tags[j] by {
        let used = reserved_tags() + tags.take(j);
        assert(first_free(base_tag(names[j], j), used, tags[j]));
        assert(used[3 + i] == tags[i]);
    }
}

/// A server name with its whitespace runs collapsed (see `sanitized`).
pub fn sanitize_name(name: &str) -> (r: String)
    ensures
        r@ == sanitized(name@),
{
    let ws = split_words(&chars_of(name));
    let joined = join_exec(&ws, " ");
    string_of(&joined)
}

fn holds_text(used: &Vec<String>, t: &String) -> (r: bool)
    ensures
        r == texts(used@).contains(t@),
{
    let ghost uv = texts(used@);
    let mut i: usize = 0;
    while i < used.len()
        invariant
            i <= used@.len(),
            uv == texts(used@),
            forall|j: int| 0 <= j < i ==> uv[j] != t@,
        decreases used.len() - i,
    {
        if used[i] == *t {
            assert(uv[i as int] == t@);
            return true;
        }
        i += 1;
    }
    false
}

fn candidate_exec(base: &Vec<char>, k: usize) -> (r: String)
    requires
        k >= 1,
    ensures
        r@ == candidate(base@, k as nat),
{
    if k <= 1 {
        string_of(base)
    } else {
        let mut c: Vec<char> = Vec::new();
        push_all(&mut c, base);
        push_str(&mut c, " (");
        push_all(&mut c, &decimal_exec(k as u64));
        push_str(&mut c, ")");
        string_of(&c)
    }
}

/// The first candidate for `base` that `used` does not hold.
fn free_tag(base: &Vec<char>, used: &Vec<String>) -> (r: String)
    requires
        used@.len() < usize::MAX,
    ensures
        first_free(base@, texts(used@), r@),
{
    let ghost uv = texts(used@);
    let ghost mut tried: Set<Seq<char>> = Set::empty();
    proof {
        uv.lemma_cardinality_of_set();
    }
    let mut k: usize = 1;
    loop
        invariant
            1 <= k <= used@.len() + 1,
            used@.len() < usize::MAX,
            uv == texts(used@),
            uv.to_set().len() <= uv.len(),
            forall|j: nat| 1 <= j < k ==> uv.contains(#[trigger] candidate(base@, j)),
            tried.finite(),
            tried.len() == k - 1,
            tried.subset_of(uv.to_set()),
            forall|x: Seq<char>|
                tried.contains(x) ==> exists|j: nat|
                    1 <= j < k && x == #[trigger] candidate(base@, j),
        decreases used@.len() + 1 - k,
    {
        let tag = candidate_exec(base, k);
        if !holds_text(used, &tag) {
            assert(candidate(base@, k as nat) == tag@);
            return tag;
        }
        proof {
            let c = candidate(base@, k as nat);
            if tried.contains(c) {
                let j = choose|j: nat| 1 <= j < k && c == #[trigger] candidate(base@, j);
                lemma_candidate_injective(base@, j, k as nat);
            }
            let t2 = tried.insert(c);
            assert(t2.len() == k);
            assert(t2.subset_of(uv.to_set()));
            vstd::set_lib::lemma_len_subset(t2, uv.to_set());
            assert forall|x: Seq<char>| t2.contains(x) implies exists|j: nat|
                1 <= j < k + 1 && x == #[trigger] candidate(base@, j) by {
                if x == c {
                    assert(candidate(base@, k as nat) == x);
                } else {
                    let j = choose|j: nat| 1 <= j < k && x == #[trigger] candidate(base@, j);
                    assert(candidate(base@, j) == x);
                }
            }
            tried = t2;
        }
        k += 1;
    }
}

/// The names of the given servers, in order.
pub open spec fn names_of(servers: Seq<&ProxyNode>) -> Seq<Seq<char>> {
    Seq::new(servers.len(), |i: int| servers[i].name@)
}

/// The tag of each server, in order (see `tags_assigned`).
pub fn assign_tags(servers: &[&ProxyNode]) -> (r: Vec<String>)
    requires
        servers@.len() + 3 < usize::MAX,
    ensures
        tags_assigned(names_of(servers@), texts(r@)),
{
    let mut used: Vec<String> = Vec::new();
    used.push(String::from_str("proxy"));
    used.push(String::from_str("auto"));
    used.push(String::from_str("direct"));
    let mut tags: Vec<String> = Vec::new();
    let ghost names = names_of(servers@);
    let mut i: usize = 0;
    while i < servers.len()
        invariant
            i <= servers@.len(),
            servers@.len() + 3 < usize::MAX,
            names == names_of(servers@),
            tags@.len() == i,
            used@.len() == i + 3,
            texts(used@) =~= reserved_tags() + texts(tags@),
            forall|k: int|
                0 <= k < i ==> first_free(
                    base_tag(names[k], k),
                    reserved_tags() + texts(tags@).take(k),
                    #[trigger] texts(tags@)[k],
                ),
        decreases servers.len() - i,
    {
        let name = sanitize_name(servers[i].name.as_str());
        let base: Vec<char> = if name.as_str().is_empty() {
            let mut b: Vec<char> = Vec::new();
            push_str(&mut b, "server-");
            push_all(&mut b, &decimal_exec((i + 1) as u64));
            b
        } else {
            chars_of(name.as_str())
        };
        assert(base@ == base_tag(names[i as int], i as int));
        let tag = free_tag(&base, &used);
        let ghost before = texts(tags@);
        let ghost used_before = texts(used@);
        let ghost tv = tag@;
        used.push(tag.clone());
        tags.push(tag);
        proof {
            assert(texts(used@) =~= used_before.push(tv));
            let after = texts(tags@);
            assert(after =~= before.push(tv));
            assert(used_before =~= reserved_tags() + before);
            assert(texts(used@) =~= reserved_tags() + after);
            assert(after.take(i as int) =~= before);
            assert forall|k: int| 0 <= k < i + 1 implies first_free(
                base_tag(names[k], k),
                reserved_tags() + after.take(k),
                #[trigger] after[k],
            ) by {
                if k < i {
                    assert(after.take(k) =~= before.take(k));
                    assert(after[k] == before[k]);
                }
            }
        }
        i += 1;
    }
    assert(texts(tags@).take(servers@.len() as int) =~= texts(tags@));
    tags
}

// ---------------------------------------------------------------------------
// Inbounds and routing
// ---------------------------------------------------------------------------

/// The inbounds: a local mixed proxy, or the TUN adapter.
pub open spec fn inbounds_doc(s: Settings) -> JsonV {
    match s.mode {
        Mode::SystemProxy => JsonV::Array(
            seq![
                JsonV::Object(
                    seq![
                        ("type"@, js("mixed"@)),
                        ("tag"@, js("mixed-in"@)),
                        ("listen"@, js("127.0.0.1"@)),
                        ("listen_port"@, JsonV::Number(Some(s.mixed_port as u64))),
                    ],
                ),
            ],
        ),
        Mode::Tun => JsonV::Array(
            seq![
                JsonV::Object(
                    seq![
                        ("type"@, js("tun"@)),
                        ("tag"@, js("tun-in"@)),
                        ("interface_name"@, js("umbra-tun"@)),
                        ("address"@, jstrs(seq!["172.19.0.1/30"@, "fdfe:dcba:9876::1/126"@])),
                        ("mtu"@, JsonV::Number(Some(s.tun_mtu as u64))),
                        ("auto_route"@, JsonV::Bool(true)),
                        ("strict_route"@, JsonV::Bool(s.tun_strict_route)),
                        ("stack"@, js(s.tun_stack@)),
                        ("endpoint_independent_nat"@, JsonV::Bool(true)),
                        ("udp_timeout"@, js("5m"@)),
                    ],
                ),
            ],
        ),
    }
}

/// The rule for traffic of the process named `name`.
pub open spec fn app_rule_doc(name: Seq<char>, action: AppRouteAction) -> JsonV {
    match action {
        AppRouteAction::Proxy => JsonV::Object(
            seq![("process_name"@, jstrs(seq![name])), ("outbound"@, js("proxy"@))],
        ),
        AppRouteAction::Direct => JsonV::Object(
            seq![("process_name"@, jstrs(seq![name])), ("outbound"@, js("direct"@))],
        ),
        AppRouteAction::Block => JsonV::Object(
            seq![("process_name"@, jstrs(seq![name])), ("action"@, js("reject"@))],
        ),
    }
}

/// The rules for the per-application routes, in order; a route whose
/// trimmed process name is empty gives none.
pub open spec fn app_rule_docs(routes: Seq<AppRouteRule>) -> Seq<JsonV>
    decreases routes.len(),
{
    if routes.len() == 0 {
        Seq::empty()
    } else {
        let before = app_rule_docs(routes.drop_last());
        let name = trim(routes.last().process_name@);
        if name.len() == 0 {
            before
        } else {
            before.push(app_rule_doc(name, routes.last().action))
        }
    }
}

/// The remote rule set `tag` downloaded from `url`.
pub open spec fn rule_set_doc(tag: Seq<char>, url: Seq<char>) -> JsonV {
    JsonV::Object(
        seq![
            ("tag"@, js(tag)),
            ("type"@, js("remote"@)),
            ("format"@, js("binary"@)),
            ("url"@, js(url)),
            ("download_detour"@, js("proxy"@)),
            ("update_interval"@, js("7d"@)),
        ],
    )
}

pub open spec fn geosite_ru_url() -> Seq<char> {
    "https://raw.githubusercontent.com/SagerNet/sing-geosite/rule-set/geosite-category-ru.srs"@
}

pub open spec fn geoip_ru_url() -> Seq<char> {
    "https://raw.githubusercontent.com/SagerNet/sing-geoip/rule-set/geoip-ru.srs"@
}

/// The route rules: sniffing and DNS hijack first, then the application
/// rules, then private addresses, the clash modes and, with `bypass_ru`,
/// the Russian geo sets.
pub open spec fn route_rules_doc(s: Settings) -> Seq<JsonV> {
    seq![
        JsonV::Object(seq![("action"@, js("sniff"@))]),
        JsonV::Object(seq![("protocol"@, js("dns"@)), ("action"@, js("hijack-dns"@))]),
    ] + app_rule_docs(s.app_routes@) + seq![
        JsonV::Object(seq![("ip_is_private"@, JsonV::Bool(true)), ("outbound"@, js("direct"@))]),
        JsonV::Object(seq![("clash_mode"@, js("Direct"@)), ("outbound"@, js("direct"@))]),
        JsonV::Object(seq![("clash_mode"@, js("Global"@)), ("outbound"@, js("proxy"@))]),
    ] + if s.bypass_ru {
        seq![
            JsonV::Object(
                seq![
                    ("rule_set"@, jstrs(seq!["geosite-ru"@, "geoip-ru"@])),
                    ("outbound"@, js("direct"@)),
                ],
            ),
        ]
    } else {
        Seq::empty()
    }
}

/// The `route` block.
pub open spec fn route_doc(s: Settings) -> JsonV {
    JsonV::Object(
        seq![("rules"@, JsonV::Array(route_rules_doc(s)))] + member_if(
            s.bypass_ru,
            "rule_set"@,
            JsonV::Array(
                seq![
                    rule_set_doc("geosite-ru"@, geosite_ru_url()),
                    rule_set_doc("geoip-ru"@, geoip_ru_url()),
                ],
            ),
        ) + seq![
            (
                "final"@,
                js(
                    match s.route_default {
                        RouteTarget::Proxy => "proxy"@,
                        RouteTarget::Direct => "direct"@,
                    },
                ),
            ),
            ("auto_detect_interface"@, JsonV::Bool(true)),
            ("default_domain_resolver"@, JsonV::Object(seq![("server"@, js("dns-local"@))])),
        ],
    )
}

fn one_string(s: &str) -> (r: Json)
    ensures
        r@ == jstrs(seq![s@]),
{
    let mut v: Vec<String> = Vec::new();
    v.push(String::from_str(s));
    let r = strings(&v);
    assert(texts(v@) =~= seq![s@]);
    r
}

fn two_strings(a: &str, b: &str) -> (r: Json)
    ensures
        r@ == jstrs(seq![a@, b@]),
{
    let mut v: Vec<String> = Vec::new();
    v.push(String::from_str(a));
    v.push(String::from_str(b));
    let r = strings(&v);
    assert(texts(v@) =~= seq![a@, b@]);
    r
}

/// The inbounds for the chosen mode.
pub fn inbounds(settings: &Settings) -> (r: Json)
    ensures
        r@ == inbounds_doc(*settings),
{
    let mut o: Vec<(String, Json)> = Vec::new();
    match settings.mode {
        Mode::SystemProxy => {
            put(&mut o, "type", text("mixed"));
            put(&mut o, "tag", text("mixed-in"));
            put(&mut o, "listen", text("127.0.0.1"));
            put(&mut o, "listen_port", number(settings.mixed_port as u64));
        },
        Mode::Tun => {
            put(&mut o, "type", text("tun"));
            put(&mut o, "tag", text("tun-in"));
            put(&mut o, "interface_name", text("umbra-tun"));
            put(&mut o, "address", two_strings("172.19.0.1/30", "fdfe:dcba:9876::1/126"));
            put(&mut o, "mtu", number(settings.tun_mtu as u64));
            put(&mut o, "auto_route", boolean(true));
            put(&mut o, "strict_route", boolean(settings.tun_strict_route));
            put(&mut o, "stack", text(settings.tun_stack.as_str()));
            put(&mut o, "endpoint_independent_nat", boolean(true));
            put(&mut o, "udp_timeout", text("5m"));
        },
    }
    let inner = object(o);
    let mut v: Vec<Json> = Vec::new();
    push_item(&mut v, inner);
    let r = array(v);
    assert(r@->Array_0[0]->Object_0 =~= inbounds_doc(*settings)->Array_0[0]->Object_0);
    assert(r@->Array_0 =~= inbounds_doc(*settings)->Array_0);
    r
}

fn app_rule(name: String, action: AppRouteAction) -> (r: Json)
    ensures
        r@ == app_rule_doc(name@, action),
{
    let mut o: Vec<(String, Json)> = Vec::new();
    put(&mut o, "process_name", one_string(name.as_str()));
    match action {
        AppRouteAction::Proxy => put(&mut o, "outbound", text("proxy")),
        AppRouteAction::Direct => put(&mut o, "outbound", text("direct")),
        AppRouteAction::Block => put(&mut o, "action", text("reject")),
    }
    let r = object(o);
    assert(r@->Object_0 =~= app_rule_doc(name@, action)->Object_0);
    r
}

fn rule_set(tag: &str, url: &str) -> (r: Json)
    ensures
        r@ == rule_set_doc(tag@, url@),
{
    let mut o: Vec<(String, Json)> = Vec::new();
    put(&mut o, "tag", text(tag));
    put(&mut o, "type", text("remote"));
    put(&mut o, "format", text("binary"));
    put(&mut o, "url", text(url));
    put(&mut o, "download_detour", text("proxy"));
    put(&mut o, "update_interval", text("7d"));
    let r = object(o);
    assert(r@->Object_0 =~= rule_set_doc(tag@, url@)->Object_0);
    r
}

fn pair_object(k1: &str, v1: Json, k2: &str, v2: Json) -> (r: Json)
    ensures
        r@ == JsonV::Object(seq![(k1@, v1@), (k2@, v2@)]),
{
    let mut o: Vec<(String, Json)> = Vec::new();
    put(&mut o, k1, v1);
    put(&mut o, k2, v2);
    let r = object(o);
    assert(r@->Object_0 =~= seq![(k1@, v1@), (k2@, v2@)]);
    r
}

/// The `route` block.
pub fn route(settings: &Settings) -> (r: Json)
    ensures
        r@ == route_doc(*settings),
{
    let mut rules: Vec<Json> = Vec::new();
    let mut sniff: Vec<(String, Json)> = Vec::new();
    put(&mut sniff, "action", text("sniff"));
    let sniff = object(sniff);
    assert(sniff@->Object_0 =~= seq![("action"@, js("sniff"@))]);
    push_item(&mut rules, sniff);
    push_item(&mut rules, pair_object("protocol", text("dns"), "action", text("hijack-dns")));
    let ghost head = items_v(rules@);
    let routes = &settings.app_routes;
    let mut i: usize = 0;
    while i < routes.len()
        invariant
            i <= routes@.len(),
            routes == &settings.app_routes,
            items_v(rules@) == head + app_rule_docs(routes@.take(i as int)),
        decreases routes.len() - i,
    {
        let ghost pre = routes@.take(i as int);
        assert(routes@.take(i + 1 as int).drop_last() =~= pre);
        let name = trim_chars(&chars_of(routes[i].process_name.as_str()));
        if name.len() > 0 {
            push_item(&mut rules, app_rule(string_of(&name), routes[i].action));
        }
        i += 1;
        assert(items_v(rules@) =~= head + app_rule_docs(routes@.take(i as int)));
    }
    assert(routes@.take(routes@.len() as int) =~= routes@);
    push_item(&mut rules, pair_object("ip_is_private", boolean(true), "outbound", text("direct")));
    push_item(&mut rules, pair_object("clash_mode", text("Direct"), "outbound", text("direct")));
    push_item(&mut rules, pair_object("clash_mode", text("Global"), "outbound", text("proxy")));
    if settings.bypass_ru {
        push_item(
            &mut rules,
            pair_object("rule_set", two_strings("geosite-ru", "geoip-ru"), "outbound", text("direct")),
        );
    }
    assert(items_v(rules@) =~= route_rules_doc(*settings));
    let mut o: Vec<(String, Json)> = Vec::new();
    put(&mut o, "rules", array(rules));
    let ghost head2 = members_v(o@);
    if settings.bypass_ru {
        let mut sets: Vec<Json> = Vec::new();
        push_item(
            &mut sets,
            rule_set(
                "geosite-ru",
                "https://raw.githubusercontent.com/SagerNet/sing-geosite/rule-set/geosite-category-ru.srs",
            ),
        );
        push_item(
            &mut sets,
            rule_set(
                "geoip-ru",
                "https://raw.githubusercontent.com/SagerNet/sing-geoip/rule-set/geoip-ru.srs",
            ),
        );
        let sets = array(sets);
        assert(sets@->Array_0 =~= seq![
            rule_set_doc("geosite-ru"@, geosite_ru_url()),
            rule_set_doc("geoip-ru"@, geoip_ru_url()),
        ]);
        put(&mut o, "rule_set", sets);
    }
    let ghost with_sets = members_v(o@);
    match settings.route_default {
        RouteTarget::Proxy => put(&mut o, "final", text("proxy")),
        RouteTarget::Direct => put(&mut o, "final", text("direct")),
    }
    put(&mut o, "auto_detect_interface", boolean(true));
    let mut resolver: Vec<(String, Json)> = Vec::new();
    put(&mut resolver, "server", text("dns-local"));
    let resolver = object(resolver);
    assert(resolver@->Object_0 =~= seq![("server"@, js("dns-local"@))]);
    put(&mut o, "default_domain_resolver", resolver);
    assert(with_sets =~= head2 + member_if(
        settings.bypass_ru,
        "rule_set"@,
        JsonV::Array(
            seq![
                rule_set_doc("geosite-ru"@, geosite_ru_url()),
                rule_set_doc("geoip-ru"@, geoip_ru_url()),
            ],
        ),
    ));
    let r = object(o);
    assert(r@->Object_0 =~= route_doc(*settings)->Object_0);
    r
}

// ---------------------------------------------------------------------------
// The document
// ---------------------------------------------------------------------------

/// The name sing-box gives an address strategy.
pub open spec fn strategy_name(i: IpStrategy) -> Seq<char> {
    match i {
        IpStrategy::Ipv4Only => "ipv4_only"@,
        IpStrategy::PreferIpv4 => "prefer_ipv4"@,
        IpStrategy::PreferIpv6 => "prefer_ipv6"@,
        IpStrategy::Ipv6Only => "ipv6_only"@,
    }
}

/// The `proxy` selector: `auto` and every server, defaulting to the
/// selected server.
pub open spec fn selector_doc(tags: Seq<Seq<char>>, selected_tag: Seq<char>) -> JsonV {
    JsonV::Object(
        seq![
            ("type"@, js("selector"@)),
            ("tag"@, js("proxy"@)),
            ("outbounds"@, jstrs(seq!["auto"@] + tags)),
            ("default"@, js(selected_tag)),
            ("interrupt_exist_connections"@, JsonV::Bool(true)),
        ],
    )
}

/// The `auto` url test over every server.
pub open spec fn urltest_doc(tags: Seq<Seq<char>>, ping_url: Seq<char>) -> JsonV {
    JsonV::Object(
        seq![
            ("type"@, js("urltest"@)),
            ("tag"@, js("auto"@)),
            ("outbounds"@, jstrs(tags)),
            ("url"@, js(ping_url)),
            ("interval"@, js("3m"@)),
            ("tolerance"@, JsonV::Number(Some(50))),
        ],
    )
}

/// The outbounds: selector, url test, one per server, then `direct`.
pub open spec fn outbounds_doc(
    s: Settings,
    nodes: Seq<NodeView>,
    tags: Seq<Seq<char>>,
    selected_tag: Seq<char>,
) -> Seq<JsonV> {
    seq![selector_doc(tags, selected_tag), urltest_doc(tags, s.ping_url@)] + Seq::new(
        nodes.len(),
        |i: int| server_doc(nodes[i], tags[i]),
    ) + seq![JsonV::Object(seq![("type"@, js("direct"@)), ("tag"@, js("direct"@))])]
}

/// The `dns` block.
pub open spec fn dns_doc(s: Settings) -> JsonV {
    JsonV::Object(
        seq![
            (
                "servers"@,
                JsonV::Array(
                    seq![
                        JsonV::Object(
                            seq![
                                ("tag"@, js("dns-remote"@)),
                                ("type"@, js("https"@)),
                                ("server"@, js("1.1.1.1"@)),
                                ("detour"@, js("proxy"@)),
                            ],
                        ),
                        JsonV::Object(seq![("tag"@, js("dns-local"@)), ("type"@, js("local"@))]),
                    ],
                ),
            ),
            ("final"@, js("dns-remote"@)),
            ("strategy"@, js(strategy_name(s.ip_strategy))),
            ("independent_cache"@, JsonV::Bool(true)),
        ],
    )
}

/// The `experimental` block: the clash api on `127.0.0.1:<port>` and the
/// cache file.
pub open spec fn experimental_doc(port: u16, secret: Seq<char>) -> JsonV {
    JsonV::Object(
        seq![
            (
                "clash_api"@,
                JsonV::Object(
                    seq![
                        ("external_controller"@, js("127.0.0.1:"@ + decimal(port as nat))),
                        ("secret"@, js(secret)),
                        ("default_mode"@, js("Rule"@)),
                    ],
                ),
            ),
            (
                "cache_file"@,
                JsonV::Object(seq![("enabled"@, JsonV::Bool(true)), ("path"@, js("cache.db"@))]),
            ),
        ],
    )
}

/// The whole configuration document.
pub open spec fn config_doc(
    s: Settings,
    nodes: Seq<NodeView>,
    tags: Seq<Seq<char>>,
    selected_tag: Seq<char>,
    port: u16,
    secret: Seq<char>,
) -> JsonV {
    JsonV::Object(
        seq![
            (
                "log"@,
                JsonV::Object(seq![("level"@, js(s.log_level@)), ("timestamp"@, JsonV::Bool(true))]),
            ),
            ("experimental"@, experimental_doc(port, secret)),
            ("dns"@, dns_doc(s)),
            ("inbounds"@, inbounds_doc(s)),
            ("outbounds"@, JsonV::Array(outbounds_doc(s, nodes, tags, selected_tag))),
            ("route"@, route_doc(s)),
        ],
    )
}

/// The servers' views, in order.
pub open spec fn nodes_of(servers: Seq<&ProxyNode>) -> Seq<NodeView> {
    Seq::new(servers.len(), |i: int| servers[i]@)
}

/// The servers' ids, in order.
pub open spec fn ids_of(servers: Seq<&ProxyNode>) -> Seq<Seq<char>> {
    Seq::new(servers.len(), |i: int| servers[i].id@)
}

/// The position of the first occurrence of `id`.
pub open spec fn first_index(ids: Seq<Seq<char>>, id: Seq<char>) -> Option<int>
    decreases ids.len(),
{
    if ids.len() == 0 {
        None
    } else {
        match first_index(ids.drop_last(), id) {
            Some(i) => Some(i),
            None => if ids.last() == id {
                Some(ids.len() - 1)
            } else {
                None
            },
        }
    }
}

/// What `first_index` finds is there, and nothing before it matches.
pub proof fn lemma_first_index_bounds(ids: Seq<Seq<char>>, id: Seq<char>)
    ensures
        first_index(ids, id) matches Some(k) ==> 0 <= k < ids.len() && ids[k] == id && forall|j: int|
            0 <= j < k ==> ids[j] != id,
    decreases ids.len(),
{
    if ids.len() > 0 {
        lemma_first_index_bounds(ids.drop_last(), id);
        if let Some(k) = first_index(ids.drop_last(), id) {
            assert(ids.drop_last()[k] == ids[k]);
            assert forall|j: int| 0 <= j < k implies ids[j] != id by {
                assert(ids.drop_last()[j] == ids[j]);
            }
        } else {
            if ids.last() == id {
                assert forall|j: int| 0 <= j < ids.len() - 1 implies ids[j] != id by {
                    assert(ids.drop_last()[j] == ids[j]);
                    if ids[j] == id {
                        lemma_first_index_some_inner(ids.drop_last(), id, j);
                    }
                }
            }
        }
    }
}

proof fn lemma_first_index_some_inner(ids: Seq<Seq<char>>, id: Seq<char>, j: int)
    requires
        0 <= j < ids.len(),
        ids[j] == id,
    ensures
        first_index(ids, id) is Some,
    decreases ids.len(),
{
    if j < ids.len() - 1 {
        assert(ids.drop_last()[j] == ids[j]);
        lemma_first_index_some_inner(ids.drop_last(), id, j);
    }
}

/// Texts of a list of string pairs.
pub open spec fn pair_texts(v: Seq<(String, String)>) -> Seq<(Seq<char>, Seq<char>)> {
    Seq::new(v.len(), |i: int| (v[i].0@, v[i].1@))
}

/// The second halves of a list of pairs.
pub open spec fn seconds(v: Seq<(Seq<char>, Seq<char>)>) -> Seq<Seq<char>> {
    Seq::new(v.len(), |i: int| v[i].1)
}

/// The second half of the last pair whose first half is `key`.
pub open spec fn last_value(v: Seq<(Seq<char>, Seq<char>)>, key: Seq<char>) -> Option<Seq<char>>
    decreases v.len(),
{
    if v.len() == 0 {
        None
    } else if v.last().0 == key {
        Some(v.last().1)
    } else {
        last_value(v.drop_last(), key)
    }
}

/// A generated document with what the caller needs to drive the core.
#[derive(Debug)]
pub struct GeneratedConfig {
    pub json: Json,
    /// `(server id, outbound tag)` for every server, in the servers' order.
    pub tag_by_server_id: Vec<(String, String)>,
    pub clash_port: u16,
    pub clash_secret: String,
}

impl GeneratedConfig {
    /// The outbound tag of the server `id` (the last entry for it, as a map
    /// built from the entries in order keeps).
    pub fn tag_for(&self, id: &str) -> (r: Option<&String>)
        ensures
            match r {
                Some(t) => last_value(pair_texts(self.tag_by_server_id@), id@) == Some(t@),
                None => last_value(pair_texts(self.tag_by_server_id@), id@) is None,
            },
    {
        let ghost pv = pair_texts(self.tag_by_server_id@);
        let key = String::from_str(id);
        let mut i: usize = self.tag_by_server_id.len();
        assert(pv.take(i as int) =~= pv);
        while i > 0
            invariant
                i <= self.tag_by_server_id@.len(),
                pv == pair_texts(self.tag_by_server_id@),
                key@ == id@,
                last_value(pv, id@) == last_value(pv.take(i as int), id@),
            decreases i,
        {
            let ghost pre = pv.take(i as int);
            assert(pre.drop_last() =~= pv.take(i - 1));
            if self.tag_by_server_id[i - 1].0 == key {
                return Some(&self.tag_by_server_id[i - 1].1);
            }
            i -= 1;
        }
        None
    }
}

fn dns_block(settings: &Settings) -> (r: Json)
    ensures
        r@ == dns_doc(*settings),
{
    let mut remote: Vec<(String, Json)> = Vec::new();
    put(&mut remote, "tag", text("dns-remote"));
    put(&mut remote, "type", text("https"));
    put(&mut remote, "server", text("1.1.1.1"));
    put(&mut remote, "detour", text("proxy"));
    let remote = object(remote);
    let local = pair_object("tag", text("dns-local"), "type", text("local"));
    let mut servers: Vec<Json> = Vec::new();
    push_item(&mut servers, remote);
    push_item(&mut servers, local);
    let servers = array(servers);
    let mut o: Vec<(String, Json)> = Vec::new();
    put(&mut o, "servers", servers);
    put(&mut o, "final", text("dns-remote"));
    put(&mut o, "strategy", text(settings.ip_strategy.as_str()));
    put(&mut o, "independent_cache", boolean(true));
    let r = object(o);
    proof {
        let d = dns_doc(*settings);
        assert(remote@->Object_0 =~= d->Object_0[0].1->Array_0[0]->Object_0);
        assert(servers@->Array_0 =~= d->Object_0[0].1->Array_0);
        assert(r@->Object_0 =~= d->Object_0);
    }
    r
}

fn experimental_block(clash_port: u16, clash_secret: &str) -> (r: Json)
    ensures
        r@ == experimental_doc(clash_port, clash_secret@),
{
    let mut controller: Vec<char> = Vec::new();
    push_str(&mut controller, "127.0.0.1:");
    push_all(&mut controller, &decimal_exec(clash_port as u64));
    let mut api: Vec<(String, Json)> = Vec::new();
    put(&mut api, "external_controller", text_owned(string_of(&controller)));
    put(&mut api, "secret", text(clash_secret));
    put(&mut api, "default_mode", text("Rule"));
    let api = object(api);
    let cache = pair_object("enabled", boolean(true), "path", text("cache.db"));
    let r = pair_object("clash_api", api, "cache_file", cache);
    proof {
        let d = experimental_doc(clash_port, clash_secret@);
        assert(api@->Object_0 =~= d->Object_0[0].1->Object_0);
        assert(r@->Object_0 =~= d->Object_0);
    }
    r
}

fn outbound_list(
    settings: &Settings,
    servers: &[&ProxyNode],
    tags: &Vec<String>,
    selected_tag: &String,
) -> (r: Json)
    requires
        tags@.len() == servers@.len(),
    ensures
        r@ == JsonV::Array(
            outbounds_doc(*settings, nodes_of(servers@), texts(tags@), selected_tag@),
        ),
{
    let ghost tv = texts(tags@);
    let mut selected_list: Vec<String> = Vec::new();
    selected_list.push(String::from_str("auto"));
    let mut j: usize = 0;
    while j < tags.len()
        invariant
            j <= tags@.len(),
            tv == texts(tags@),
            texts(selected_list@) =~= seq!["auto"@] + tv.take(j as int),
        decreases tags.len() - j,
    {
        let ghost before = texts(selected_list@);
        selected_list.push(tags[j].clone());
        assert(texts(selected_list@) =~= before.push(tv[j as int]));
        j += 1;
        assert(texts(selected_list@) =~= seq!["auto"@] + tv.take(j as int));
    }
    assert(tv.take(tags@.len() as int) =~= tv);
    let mut sel: Vec<(String, Json)> = Vec::new();
    put(&mut sel, "type", text("selector"));
    put(&mut sel, "tag", text("proxy"));
    put(&mut sel, "outbounds", strings(&selected_list));
    put(&mut sel, "default", text(selected_tag.as_str()));
    put(&mut sel, "interrupt_exist_connections", boolean(true));
    let sel = object(sel);
    assert(sel@->Object_0 =~= selector_doc(tv, selected_tag@)->Object_0);
    let mut auto: Vec<(String, Json)> = Vec::new();
    put(&mut auto, "type", text("urltest"));
    put(&mut auto, "tag", text("auto"));
    put(&mut auto, "outbounds", strings(tags));
    put(&mut auto, "url", text(settings.ping_url.as_str()));
    put(&mut auto, "interval", text("3m"));
    put(&mut auto, "tolerance", number(50));
    let auto = object(auto);
    assert(auto@->Object_0 =~= urltest_doc(tv, settings.ping_url@)->Object_0);
    let mut items: Vec<Json> = Vec::new();
    push_item(&mut items, sel);
    push_item(&mut items, auto);
    let ghost head = items_v(items@);
    let ghost nodes = nodes_of(servers@);
    let mut i: usize = 0;
    while i < servers.len()
        invariant
            i <= servers@.len(),
            tags@.len() == servers@.len(),
            tv == texts(tags@),
            nodes == nodes_of(servers@),
            items_v(items@) =~= head + Seq::new(i as nat, |k: int| server_doc(nodes[k], tv[k])),
        decreases servers.len() - i,
    {
        push_item(&mut items, server_outbound(servers[i], tags[i].as_str()));
        i += 1;
    }
    let direct = pair_object("type", text("direct"), "tag", text("direct"));
    push_item(&mut items, direct);
    let r = array(items);
    assert(r@->Array_0 =~= outbounds_doc(*settings, nodes, tv, selected_tag@));
    r
}

/// The configuration document for `servers`, with `selected_id` as the
/// selector's default; `NotFound("server <id>")` when no server has that id.
pub fn generate(
    settings: &Settings,
    servers: &[&ProxyNode],
    selected_id: &str,
    clash_port: u16,
    clash_secret: &str,
) -> (r: Result<GeneratedConfig, AppError>)
    requires
        servers@.len() + 3 < usize::MAX,
    ensures
        match r {
            Ok(cfg) => {
                let pairs = pair_texts(cfg.tag_by_server_id@);
                let tags = seconds(pairs);
                &&& first_index(ids_of(servers@), selected_id@) is Some
                &&& pairs.len() == servers@.len()
                &&& forall|i: int| 0 <= i < pairs.len() ==> (#[trigger] pairs[i]).0 == servers@[i].id@
                &&& tags_assigned(names_of(servers@), tags)
                &&& cfg.json@ == config_doc(
                    *settings,
                    nodes_of(servers@),
                    tags,
                    tags[first_index(ids_of(servers@), selected_id@)->0],
                    clash_port,
                    clash_secret@,
                )
                &&& cfg.clash_port == clash_port
                &&& cfg.clash_secret@ == clash_secret@
            },
            Err(e) => {
                &&& first_index(ids_of(servers@), selected_id@) is None
                &&& e@ == crate::error::ErrorView::NotFound("server "@ + selected_id@)
            },
        },
{
    let tags = assign_tags(servers);
    let ghost tv = texts(tags@);
    let ghost ids = ids_of(servers@);
    let key = String::from_str(selected_id);
    let mut pairs: Vec<(String, String)> = Vec::new();
    let mut found: Option<usize> = None;
    let mut i: usize = 0;
    while i < servers.len()
        invariant
            i <= servers@.len(),
            tags@.len() == servers@.len(),
            tv == texts(tags@),
            ids == ids_of(servers@),
            key@ == selected_id@,
            pair_texts(pairs@) =~= Seq::new(i as nat, |k: int| (ids[k], tv[k])),
            match found {
                Some(p) => p < i && first_index(ids.take(i as int), selected_id@) == Some(
                    p as int,
                ),
                None => first_index(ids.take(i as int), selected_id@) is None,
            },
        decreases servers.len() - i,
    {
        assert(ids.take(i + 1 as int).drop_last() =~= ids.take(i as int));
        if found.is_none() && servers[i].id == key {
            found = Some(i);
        }
        let ghost before = pair_texts(pairs@);
        let id = servers[i].id.clone();
        let tag = tags[i].clone();
        pairs.push((id, tag));
        assert(pair_texts(pairs@) =~= before.push((ids[i as int], tv[i as int])));
        i += 1;
    }
    assert(ids.take(servers@.len() as int) =~= ids);
    match found {
        None => {
            let mut msg: Vec<char> = Vec::new();
            push_str(&mut msg, "server ");
            push_str(&mut msg, selected_id);
            Err(AppError::NotFound(string_of(&msg)))
        },
        Some(p) => {
            let selected_tag = tags[p].clone();
            let outbounds = outbound_list(settings, servers, &tags, &selected_tag);
            let log = pair_object("level", text(settings.log_level.as_str()), "timestamp", boolean(true));
            let mut doc: Vec<(String, Json)> = Vec::new();
            put(&mut doc, "log", log);
            put(&mut doc, "experimental", experimental_block(clash_port, clash_secret));
            put(&mut doc, "dns", dns_block(settings));
            put(&mut doc, "inbounds", inbounds(settings));
            put(&mut doc, "outbounds", outbounds);
            put(&mut doc, "route", route(settings));
            let json = object(doc);
            assert(log@->Object_0 =~= seq![
                ("level"@, js(settings.log_level@)),
                ("timestamp"@, JsonV::Bool(true)),
            ]);
            assert(seconds(pair_texts(pairs@)) =~= tv);
            assert(json@->Object_0 =~= config_doc(
                *settings,
                nodes_of(servers@),
                tv,
                tv[p as int],
                clash_port,
                clash_secret@,
            )->Object_0);
            Ok(
                GeneratedConfig {
                    json,
                    tag_by_server_id: pairs,
                    clash_port,
                    clash_secret: String::from_str(clash_secret),
                },
            )
        },
    }
}

// ---------------------------------------------------------------------------
// The TLS fingerprint of a VLESS outbound
// ---------------------------------------------------------------------------

proof fn lemma_outbound_key_lits()
    ensures
        "tls"@ != "type"@,
        "tls"@ != "tag"@,
        "tls"@ != "server"@,
        "tls"@ != "server_port"@,
        "tls"@ != "uuid"@,
        "tls"@ != "flow"@,
        "tls"@ != "packet_encoding"@,
        "utls"@ != "enabled"@,
        "utls"@ != "server_name"@,
        "utls"@ != "insecure"@,
        "fingerprint"@ != "enabled"@,
{
    reveal_strlit("tls");
    reveal_strlit("type");
    reveal_strlit("tag");
    reveal_strlit("server");
    reveal_strlit("server_port");
    reveal_strlit("uuid");
    reveal_strlit("flow");
    reveal_strlit("packet_encoding");
    reveal_strlit("utls");
    reveal_strlit("enabled");
    reveal_strlit("server_name");
    reveal_strlit("insecure");
    reveal_strlit("fingerprint");
    assert("tls"@.len() == 3 && "type"@.len() == 4 && "server"@.len() == 6 && "server_port"@.len() == 11
        && "uuid"@.len() == 4 && "flow"@.len() == 4 && "packet_encoding"@.len() == 15);
    assert("tls"@[1] != "tag"@[1]);
    assert("utls"@.len() == 4 && "enabled"@.len() == 7 && "server_name"@.len() == 11
        && "insecure"@.len() == 8 && "fingerprint"@.len() == 11);
}

/// The `tls` member of a VLESS outbound with TLS or Reality is its TLS block.
proof fn lemma_vless_tls_member(n: NodeView, v: VlessView, tag: Seq<char>)
    requires
        v.security != Security::Plain,
    ensures
        jv_get(vless_doc(n, v, tag), "tls"@) == Some(vless_tls_doc(v)),
{
    lemma_outbound_key_lits();
    let a = seq![
        ("type"@, js("vless"@)),
        ("tag"@, js(tag)),
        ("server"@, js(n.server)),
        ("server_port"@, JsonV::Number(Some(n.port as u64))),
        ("uuid"@, js(v.uuid)),
    ] + member_if(v.flow.len() > 0, "flow"@, js(v.flow)) + seq![("packet_encoding"@, js("xudp"@))];
    let t = member_if(v.security != Security::Plain, "tls"@, vless_tls_doc(v));
    let x = transport_members(v.transport);
    assert forall|j: int| 0 <= j < a.len() implies (#[trigger] a[j]).0 != "tls"@ by {
        if v.flow.len() > 0 {
            assert(j < 7);
        } else {
            assert(j < 6);
        }
    }
    crate::json::lemma_key_index_none(a, "tls"@);
    assert(t == seq![("tls"@, vless_tls_doc(v))]);
    crate::json::lemma_key_index_single(("tls"@, vless_tls_doc(v)), "tls"@);
    crate::json::lemma_key_index_concat(a, t, "tls"@);
    crate::json::lemma_key_index_concat(a + t, x, "tls"@);
    assert(vless_doc(n, v, tag) == JsonV::Object(a + t + x));
    assert((a + t + x)[a.len() as int] == ("tls"@, vless_tls_doc(v)));
}

/// The `utls` member of a TLS block, when there is one.
proof fn lemma_utls_member(v: VlessView)
    ensures
        ({
            let fp = if v.fingerprint.len() == 0 {
                "chrome"@
            } else {
                v.fingerprint
            };
            &&& v.fingerprint.len() > 0 || v.security == Security::Reality ==> jv_get(vless_tls_doc(v), "utls"@)
                == Some(JsonV::Object(seq![("enabled"@, JsonV::Bool(true)), ("fingerprint"@, js(fp))]))
            &&& !(v.fingerprint.len() > 0 || v.security == Security::Reality) ==> jv_get(
                vless_tls_doc(v),
                "utls"@,
            ) is None
        }),
{
    lemma_outbound_key_lits();
    let fp = if v.fingerprint.len() == 0 {
        "chrome"@
    } else {
        v.fingerprint
    };
    let head = seq![
        ("enabled"@, JsonV::Bool(true)),
        ("server_name"@, js(v.sni)),
        ("insecure"@, JsonV::Bool(v.insecure)),
    ];
    let on = v.fingerprint.len() > 0 || v.security == Security::Reality;
    let utls = JsonV::Object(seq![("enabled"@, JsonV::Bool(true)), ("fingerprint"@, js(fp))]);
    let u = member_if(on, "utls"@, utls);
    let rest = member_if(v.alpn.len() > 0, "alpn"@, jstrs(v.alpn)) + member_if(
        v.security == Security::Reality,
        "reality"@,
        JsonV::Object(
            seq![
                ("enabled"@, JsonV::Bool(true)),
                ("public_key"@, js(v.public_key)),
                ("short_id"@, js(v.short_id)),
            ],
        ),
    );
    let al = member_if(v.alpn.len() > 0, "alpn"@, jstrs(v.alpn));
    let re = member_if(
        v.security == Security::Reality,
        "reality"@,
        JsonV::Object(
            seq![
                ("enabled"@, JsonV::Bool(true)),
                ("public_key"@, js(v.public_key)),
                ("short_id"@, js(v.short_id)),
            ],
        ),
    );
    assert(vless_tls_doc(v) == JsonV::Object(head + u + al + re));
    assert(head + u + al + re =~= head + u + rest);
    assert forall|j: int| 0 <= j < head.len() implies (#[trigger] head[j]).0 != "utls"@ by {}
    crate::json::lemma_key_index_none(head, "utls"@);
    crate::json::lemma_key_index_concat(head, u, "utls"@);
    crate::json::lemma_key_index_concat(head + u, rest, "utls"@);
    if on {
        assert(u == seq![("utls"@, utls)]);
        crate::json::lemma_key_index_single(("utls"@, utls), "utls"@);
        assert((head + u + rest)[3] == ("utls"@, utls));
    } else {
        assert(u =~= Seq::<(Seq<char>, JsonV)>::empty());
        reveal_strlit("utls");
        reveal_strlit("alpn");
        reveal_strlit("reality");
        assert("utls"@ != "alpn"@ && "utls"@ != "reality"@) by {
            assert("utls"@[0] != "alpn"@[0] && "utls"@.len() != "reality"@.len());
        }
        assert forall|j: int| 0 <= j < rest.len() implies (#[trigger] rest[j]).0 != "utls"@ by {}
        crate::json::lemma_key_index_none(rest, "utls"@);
        assert(head + u =~= head);
    }
}

/// The uTLS fingerprint of a VLESS outbound is the server's own: for a
/// server with TLS or Reality and a fingerprint, the outbound's
/// `tls.utls.fingerprint` is that fingerprint; `chrome` stands in only
/// when the server has none (and then only under Reality, where uTLS is
/// required); a TLS server without one gets no `utls` block.
pub proof fn lemma_vless_fingerprint(n: NodeView, tag: Seq<char>)
    requires
        n.kind is Vless,
        n.kind->Vless_0.security != Security::Plain,
    ensures
        ({
            let v = n.kind->Vless_0;
            let tls = jv_get(server_doc(n, tag), "tls"@);
            &&& tls is Some
            &&& v.fingerprint.len() > 0 ==> jv_get(tls->Some_0, "utls"@) is Some && jv_get(
                jv_get(tls->Some_0, "utls"@)->Some_0,
                "fingerprint"@,
            ) == Some(JsonV::Str(v.fingerprint))
            &&& v.fingerprint.len() == 0 && v.security == Security::Reality ==> jv_get(
                tls->Some_0,
                "utls"@,
            ) is Some && jv_get(jv_get(tls->Some_0, "utls"@)->Some_0, "fingerprint"@) == Some(
                JsonV::Str("chrome"@),
            )
            &&& v.fingerprint.len() == 0 && v.security == Security::Tls ==> jv_get(tls->Some_0, "utls"@)
                is None
        }),
{
    let v = n.kind->Vless_0;
    lemma_vless_tls_member(n, v, tag);
    lemma_utls_member(v);
    lemma_outbound_key_lits();
    let fp = if v.fingerprint.len() == 0 {
        "chrome"@
    } else {
        v.fingerprint
    };
    let um = seq![("enabled"@, JsonV::Bool(true)), ("fingerprint"@, js(fp))];
    crate::json::lemma_key_index_single(("enabled"@, JsonV::Bool(true)), "fingerprint"@);
    crate::json::lemma_key_index_single(("fingerprint"@, js(fp)), "fingerprint"@);
    crate::json::lemma_key_index_concat(
        seq![("enabled"@, JsonV::Bool(true))],
        seq![("fingerprint"@, js(fp))],
        "fingerprint"@,
    );
    assert(seq![("enabled"@, JsonV::Bool(true))] + seq![("fingerprint"@, js(fp))] =~= um);
}

} // verus!
