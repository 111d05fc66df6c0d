//! hysteria2:// (alias hy2://) share-link parser.

use vstd::prelude::*;
use vstd::string::*;

use crate::error::{parse_error, unsupported_error, AppError, AppResult, ErrorView};
use crate::ids::new_id;
use crate::models::{
    Hysteria2Node, Hysteria2Obfs, Hysteria2View, KindView, NodeView, ProxyKind, ProxyNode,
};
use crate::parser::vless::{node_outcome, remark_name, remark_name_exec};
use crate::parser::LinkParser;
use crate::text::{
    occurs_at,
    chars_of, copy_range, eq_str, find, find_exec, has_char, last_index_exec, last_index_of,
    lemma_find_bounds, lemma_last_index_bounds, lower_chars, lower_seq, push_all, push_str,
    split_char, split_trimmed, starts_with, starts_with_str, string_of, strings_text, trim,
    trim_chars, trimmed_nonempty,
};
use crate::url_text::{
    is_ip_address, opt_text, pair_texts, parse_form_pairs, parse_url, parses_as_ip,
    percent_decode_utf8, percent_decoded_strict, form_pairs, url_parse, UrlParts, UrlView,
};

verus! {

pub struct Hysteria2Parser;

impl LinkParser for Hysteria2Parser {
    fn scheme(&self) -> (r: &str)
        ensures
            r@ == "hysteria2"@,
    {
        "hysteria2"
    }

    fn parse(&self, uri: &str) -> (r: AppResult<ProxyNode>)
        ensures
            node_outcome(r) == hy2_spec(uri@),
    {
        parse_hysteria2(uri)
    }
}

// ---------------------------------------------------------------------------
// Multi-port detection
// ---------------------------------------------------------------------------

pub open spec fn is_port_stop(c: char, with_slash: bool) -> bool {
    c == '?' || c == '#' || (with_slash && c == '/')
}

/// Index of the first `?`/`#` (and `/` when asked) in `s`, or its length.
pub open spec fn stop_at(s: Seq<char>, with_slash: bool) -> int
    decreases s.len(),
{
    if s.len() == 0 {
        0
    } else {
        let k = stop_at(s.drop_last(), with_slash);
        if k < s.len() - 1 {
            k
        } else if is_port_stop(s.last(), with_slash) {
            s.len() - 1
        } else {
            s.len() as int
        }
    }
}

/// The scan for the end of a port list stops within the text.
pub proof fn lemma_stop_at_bounds(s: Seq<char>, w: bool)
    ensures
        0 <= stop_at(s, w) <= s.len(),
    decreases s.len(),
{
    if s.len() > 0 {
        lemma_stop_at_bounds(s.drop_last(), w);
    }
}

/// Whether the port text after the last `:` of `s` lists several ports.
pub open spec fn multi_port_after_colon(s: Seq<char>, with_slash: bool) -> bool {
    match last_index_of(s, ':') {
        Some(p) => {
            let after = s.subrange(p + 1, s.len() as int);
            let seg = after.subrange(0, stop_at(after, with_slash));
            seg.contains('-') || seg.contains(',')
        },
        None => false,
    }
}

/// The authority of a link: the text after `://` up to the first `/`, `?`
/// or `#`.
pub open spec fn authority_of(t: Seq<char>) -> Seq<char> {
    match find(t, "://"@) {
        Some(i) => {
            let after = t.subrange(i + 3, t.len() as int);
            after.subrange(0, stop_at(after, true))
        },
        None => Seq::empty(),
    }
}

/// The port field of the authority (after any userinfo and the last `:`)
/// lists several ports, as in `:443-445` or `:443,444`.
pub open spec fn multi_port_in_port_field(t: Seq<char>) -> bool {
    let a = authority_of(t);
    let hp = match last_index_of(a, '@') {
        Some(k) => a.subrange(k + 1, a.len() as int),
        None => a,
    };
    multi_port_after_colon(hp, true)
}

fn multi_port_after_colon_exec(s: &[char], with_slash: bool) -> (r: bool)
    ensures
        r == multi_port_after_colon(s@, with_slash),
{
    match last_index_exec(s, ':') {
        Some(p) => {
            let n = s.len();
            assert(p < n);
            let after = copy_range(s, p + 1, n);
            let k = stop_at_exec(&after, with_slash);
            let seg = copy_range(&after, 0, k);
            has_char(&seg, '-') || has_char(&seg, ',')
        },
        None => false,
    }
}

fn stop_at_exec(s: &[char], with_slash: bool) -> (r: usize)
    ensures
        r as int == stop_at(s@, with_slash),
        r <= s@.len(),
{
    let mut i: usize = 0;
    while i < s.len()
        invariant
            i <= s@.len(),
            stop_at(s@.subrange(0, i as int), with_slash) == i as int,
        decreases s.len() - i,
    {
        assert(s@.subrange(0, i + 1 as int).drop_last() =~= s@.subrange(0, i as int));
        let c = s[i];
        if c == '?' || c == '#' || (with_slash && c == '/') {
            proof {
                lemma_stop_at_prefix(s@, i as int + 1, i as int, with_slash);
            }
            return i;
        }
        i += 1;
    }
    assert(s@.subrange(0, s@.len() as int) =~= s@);
    i
}

/// Once a stop is found, longer texts stop at the same place.
proof fn lemma_stop_at_prefix(s: Seq<char>, n: int, k: int, w: bool)
    requires
        0 <= k < n <= s.len(),
        stop_at(s.subrange(0, n), w) == k,
    ensures
        stop_at(s, w) == k,
    decreases s.len() - n,
{
    if n < s.len() {
        assert(s.subrange(0, n + 1).drop_last() =~= s.subrange(0, n));
        lemma_stop_at_prefix(s, n + 1, k, w);
    } else {
        assert(s.subrange(0, n) =~= s);
    }
}

fn multi_port_in_port_field_exec(t: &[char]) -> (r: bool)
    ensures
        r == multi_port_in_port_field(t@),
{
    let sep = chars_of("://");
    let a = match find_exec(t, &sep) {
        Some(i) => {
            proof {
                lemma_find_bounds(t@, sep@);
                reveal_strlit("://");
                assert(occurs_at(t@, sep@, i as int));
            }
            let n = t.len();
            let after = copy_range(t, i + 3, n);
            let k = stop_at_exec(&after, true);
            copy_range(&after, 0, k)
        },
        None => Vec::new(),
    };
    proof {
        reveal_strlit("://");
        assert(a@ == authority_of(t@));
    }
    let hp = match last_index_exec(&a, '@') {
        Some(k) => copy_range(&a, k + 1, a.len()),
        None => a,
    };
    multi_port_after_colon_exec(&hp, true)
}

// ---------------------------------------------------------------------------
// Query parameters
// ---------------------------------------------------------------------------

pub struct Hy2Params {
    pub sni: Seq<char>,
    pub insecure: bool,
    pub alpn: Seq<Seq<char>>,
    pub obfs_type: Option<Seq<char>>,
    pub obfs_password: Option<Seq<char>>,
}

pub open spec fn hy2_initial() -> Hy2Params {
    Hy2Params {
        sni: Seq::empty(),
        insecure: false,
        alpn: Seq::empty(),
        obfs_type: None,
        obfs_password: None,
    }
}

/// One query pair applied to the parameters read so far.
pub open spec fn hy2_step(p: Hy2Params, k: Seq<char>, v: Seq<char>) -> Result<Hy2Params, ErrorView> {
    let key = lower_seq(k);
    if key == "sni"@ {
        Ok(Hy2Params { sni: v, ..p })
    } else if key == "insecure"@ || key == "allowinsecure"@ {
        let lv = lower_seq(v);
        if lv == "1"@ || lv == "true"@ {
            Ok(Hy2Params { insecure: true, ..p })
        } else if lv == "0"@ || lv == "false"@ {
            Ok(Hy2Params { insecure: false, ..p })
        } else {
            Err(ErrorView::Parse("invalid insecure value: "@ + v))
        }
    } else if key == "alpn"@ {
        if v.len() > 0 {
            Ok(Hy2Params { alpn: trimmed_nonempty(split_char(v, ',')), ..p })
        } else {
            Ok(p)
        }
    } else if key == "obfs"@ {
        Ok(Hy2Params { obfs_type: Some(lower_seq(v)), ..p })
    } else if key == "obfs-password"@ || key == "obfspassword"@ || key == "obfs-param"@ || key
        == "obfsparam"@ {
        Ok(Hy2Params { obfs_password: Some(v), ..p })
    } else if key == "pinsha256"@ || key == "pin-sha256"@ {
        Err(ErrorView::Unsupported("pinSHA256 is unsupported"@))
    } else if key == "ech"@ {
        Err(ErrorView::Unsupported("ech is unsupported"@))
    } else {
        Ok(p)
    }
}

/// All query pairs applied in order; the first error stops the reading.
pub open spec fn hy2_params(pairs: Seq<(Seq<char>, Seq<char>)>) -> Result<Hy2Params, ErrorView>
    decreases pairs.len(),
{
    if pairs.len() == 0 {
        Ok(hy2_initial())
    } else {
        match hy2_params(pairs.drop_last()) {
            Err(e) => Err(e),
            Ok(p) => hy2_step(p, pairs.last().0, pairs.last().1),
        }
    }
}

pub open spec fn hy2_pairs(u: UrlView) -> Seq<(Seq<char>, Seq<char>)> {
    match u.query {
        Some(q) => form_pairs(q),
        None => Seq::empty(),
    }
}

/// The host without one pair of surrounding IPv6 brackets.
pub open spec fn debracket(h: Seq<char>) -> Seq<char> {
    if h.len() >= 2 && h[0] == '[' && h.last() == ']' {
        h.subrange(1, h.len() - 1)
    } else {
        h
    }
}

/// The obfuscation password, or the reason the `obfs` settings are refused.
pub open spec fn hy2_obfs(p: Hy2Params) -> Result<Option<Seq<char>>, ErrorView> {
    match p.obfs_type {
        None => Ok(None),
        Some(t) => if t == "none"@ {
            Ok(None)
        } else if t == "salamander"@ {
            match p.obfs_password {
                Some(pw) => Ok(Some(pw)),
                None => Err(ErrorView::Parse("obfs=salamander requires obfs-password"@)),
            }
        } else {
            Err(ErrorView::Unsupported("hysteria2 obfs type '"@ + t + "' is unsupported"@))
        },
    }
}

/// What `parse_hysteria2` makes of a link, its random id left blank.
pub open spec fn hy2_spec(uri: Seq<char>) -> Result<NodeView, ErrorView> {
    let t = trim(uri);
    if !(starts_with(lower_seq(t), "hysteria2://"@) || starts_with(lower_seq(t), "hy2://"@)) {
        Err(ErrorView::Parse("not a hysteria2 URI"@))
    } else if multi_port_in_port_field(t) {
        Err(ErrorView::Unsupported("multi-port is unsupported"@))
    } else {
        match url_parse(t) {
            Err(e) => Err(ErrorView::Parse("invalid hysteria2 url: "@ + e)),
            Ok(u) => hy2_from_url(uri, u),
        }
    }
}

/// What a hysteria2 link makes of its parsed URL (`uri` kept as the raw
/// link).
pub open spec fn hy2_from_url(uri: Seq<char>, u: UrlView) -> Result<NodeView, ErrorView> {
    if u.username.len() == 0 {
        Err(ErrorView::Parse("hysteria2 URL missing auth/password"@))
    } else {
        match percent_decoded_strict(u.username) {
            None => Err(ErrorView::Parse("invalid utf-8 in userinfo"@)),
            Some(password) => match u.host {
                None => Err(ErrorView::Parse("hysteria2 URL missing host"@)),
                Some(h) => {
                    let server = debracket(h);
                    let port: u16 = match u.port {
                        Some(p) => p,
                        None => 443,
                    };
                    if server.len() == 0 {
                        Err(ErrorView::Parse("hysteria2 URL host is empty"@))
                    } else {
                        match hy2_params(hy2_pairs(u)) {
                            Err(e) => Err(e),
                            Ok(p) => match hy2_obfs(p) {
                                Err(e) => Err(e),
                                Ok(obfs) => Ok(
                                    NodeView {
                                        id: Seq::empty(),
                                        name: remark_name(u.fragment, server, port),
                                        server,
                                        port,
                                        last_ping_ms: None,
                                        favorite: false,
                                        total_up: 0,
                                        total_down: 0,
                                        raw: uri,
                                        kind: KindView::Hysteria2(
                                            Hysteria2View {
                                                password,
                                                obfs,
                                                insecure: p.insecure,
                                                sni: if p.sni.len() == 0 && !is_ip_address(
                                                    server,
                                                ) {
                                                    server
                                                } else {
                                                    p.sni
                                                },
                                                alpn: p.alpn,
                                            },
                                        ),
                                    },
                                ),
                            },
                        }
                    }
                },
            },
        }
    }
}

// ---------------------------------------------------------------------------
// Executable parser
// ---------------------------------------------------------------------------

struct Params {
    sni: Vec<char>,
    insecure: bool,
    alpn: Vec<String>,
    obfs_type: Option<Vec<char>>,
    obfs_password: Option<Vec<char>>,
}

spec fn ochars(o: Option<Vec<char>>) -> Option<Seq<char>> {
    match o {
        Some(v) => Some(v@),
        None => None,
    }
}

impl View for Params {
    type V = Hy2Params;

    closed spec fn view(&self) -> Hy2Params {
        Hy2Params {
            sni: self.sni@,
            insecure: self.insecure,
            alpn: strings_text(self.alpn@),
            obfs_type: ochars(self.obfs_type),
            obfs_password: ochars(self.obfs_password),
        }
    }
}

fn step_exec(p: Params, k: &String, v: &String) -> (r: Result<Params, AppError>)
    ensures
        match r {
            Ok(q) => hy2_step(p@, k@, v@) == Ok::<Hy2Params, ErrorView>(q@),
            Err(e) => hy2_step(p@, k@, v@) == Err::<Hy2Params, ErrorView>(e@),
        },
{
    let key = lower_chars(&chars_of(k.as_str()));
    let vc = chars_of(v.as_str());
    let mut p = p;
    if eq_str(&key, "sni") {
        p.sni = vc;
        Ok(p)
    } else if eq_str(&key, "insecure") || eq_str(&key, "allowinsecure") {
        let lv = lower_chars(&vc);
        if eq_str(&lv, "1") || eq_str(&lv, "true") {
            p.insecure = true;
            Ok(p)
        } else if eq_str(&lv, "0") || eq_str(&lv, "false") {
            p.insecure = false;
            Ok(p)
        } else {
            let mut msg = chars_of("invalid insecure value: ");
            push_all(&mut msg, &vc);
            Err(parse_error(&msg))
        }
    } else if eq_str(&key, "alpn") {
        if vc.len() > 0 {
            p.alpn = split_trimmed(&vc, ',');
        }
        Ok(p)
    } else if eq_str(&key, "obfs") {
        p.obfs_type = Some(lower_chars(&vc));
        Ok(p)
    } else if eq_str(&key, "obfs-password") || eq_str(&key, "obfspassword") || eq_str(
        &key,
        "obfs-param",
    ) || eq_str(&key, "obfsparam") {
        p.obfs_password = Some(vc);
        Ok(p)
    } else if eq_str(&key, "pinsha256") || eq_str(&key, "pin-sha256") {
        Err(unsupported_error(&chars_of("pinSHA256 is unsupported")))
    } else if eq_str(&key, "ech") {
        Err(unsupported_error(&chars_of("ech is unsupported")))
    } else {
        Ok(p)
    }
}

fn params_exec(pairs: &Vec<(String, String)>) -> (r: Result<Params, AppError>)
    ensures
        match r {
            Ok(q) => hy2_params(pair_texts(pairs@)) == Ok::<Hy2Params, ErrorView>(q@),
            Err(e) => hy2_params(pair_texts(pairs@)) == Err::<Hy2Params, ErrorView>(e@),
        },
{
    let mut p = Params {
        sni: Vec::new(),
        insecure: false,
        alpn: Vec::new(),
        obfs_type: None,
        obfs_password: None,
    };
    assert(strings_text(p.alpn@) =~= Seq::<Seq<char>>::empty());
    assert(p@ =~= hy2_initial());
    let mut i: usize = 0;
    while i < pairs.len()
        invariant
            i <= pairs@.len(),
            hy2_params(pair_texts(pairs@).subrange(0, i as int)) == Ok::<Hy2Params, ErrorView>(p@),
        decreases pairs.len() - i,
    {
        assert(pair_texts(pairs@).subrange(0, i + 1 as int).drop_last() =~= pair_texts(pairs@).subrange(0, i as int));
        match step_exec(p, &pairs[i].0, &pairs[i].1) {
            Ok(q) => {
                p = q;
            },
            Err(e) => {
                proof {
                    lemma_params_err_sticks(pair_texts(pairs@), i as int + 1);
                }
                return Err(e);
            },
        }
        i += 1;
    }
    assert(pair_texts(pairs@).subrange(0, pairs@.len() as int) =~= pair_texts(pairs@));
    Ok(p)
}

/// An error in a prefix of the pairs is the outcome of all of them.
proof fn lemma_params_err_sticks(pairs: Seq<(Seq<char>, Seq<char>)>, n: int)
    requires
        0 <= n <= pairs.len(),
        hy2_params(pairs.subrange(0, n)) is Err,
    ensures
        hy2_params(pairs) == hy2_params(pairs.subrange(0, n)),
    decreases pairs.len() - n,
{
    if n < pairs.len() {
        assert(pairs.subrange(0, n + 1).drop_last() =~= pairs.subrange(0, n));
        lemma_params_err_sticks(pairs, n + 1);
    } else {
        assert(pairs.subrange(0, n) =~= pairs);
    }
}

/// Parses a `hysteria2://` or `hy2://` link. The id of the result is fresh
/// and random.
pub fn parse_hysteria2(uri: &str) -> (r: AppResult<ProxyNode>)
    ensures
        node_outcome(r) == hy2_spec(uri@),
{
    let t = trim_chars(&chars_of(uri));
    let lt = lower_chars(&t);
    if !(starts_with_str(&lt, "hysteria2://") || starts_with_str(&lt, "hy2://")) {
        return Err(parse_error(&chars_of("not a hysteria2 URI")));
    }
    if multi_port_in_port_field_exec(&t) {
        return Err(unsupported_error(&chars_of("multi-port is unsupported")));
    }
    let ts = string_of(&t);
    let url = match parse_url(ts.as_str()) {
        Ok(u) => u,
        Err(e) => {
            let mut msg = chars_of("invalid hysteria2 url: ");
            push_str(&mut msg, e.as_str());
            return Err(parse_error(&msg));
        },
    };
    proof {
        assert(url_parse(trim(uri@)) == Ok::<UrlView, Seq<char>>(url@));
    }
    hysteria2_from_url(uri, &url)
}

/// Builds the server of a hysteria2 link from its parsed URL: password,
/// host and port, query parameters and name (see `hy2_from_url`). The id
/// of the result is fresh and random.
pub fn hysteria2_from_url(uri: &str, url: &UrlParts) -> (r: AppResult<ProxyNode>)
    ensures
        node_outcome(r) == hy2_from_url(uri@, url@),
{
    if chars_of(url.username.as_str()).len() == 0 {
        return Err(parse_error(&chars_of("hysteria2 URL missing auth/password")));
    }
    let password = match percent_decode_utf8(url.username.as_str()) {
        Some(p) => p,
        None => {
            return Err(parse_error(&chars_of("invalid utf-8 in userinfo")));
        },
    };
    let h = match &url.host {
        Some(h) => chars_of(h.as_str()),
        None => {
            return Err(parse_error(&chars_of("hysteria2 URL missing host")));
        },
    };
    let server = if h.len() >= 2 && h[0] == '[' && h[h.len() - 1] == ']' {
        copy_range(&h, 1, h.len() - 1)
    } else {
        h
    };
    if server.len() == 0 {
        return Err(parse_error(&chars_of("hysteria2 URL host is empty")));
    }
    let port: u16 = match url.port {
        Some(p) => p,
        None => 443,
    };
    let pairs = match &url.query {
        Some(q) => parse_form_pairs(q.as_str()),
        None => {
            let v: Vec<(String, String)> = Vec::new();
            assert(pair_texts(v@) =~= Seq::<(Seq<char>, Seq<char>)>::empty());
            v
        },
    };
    let p = match params_exec(&pairs) {
        Ok(p) => p,
        Err(e) => {
            return Err(e);
        },
    };
    let obfs = match &p.obfs_type {
        None => None,
        Some(t) => {
            if eq_str(t, "none") {
                None
            } else if eq_str(t, "salamander") {
                match &p.obfs_password {
                    Some(pw) => Some(Hysteria2Obfs::Salamander { password: string_of(pw) }),
                    None => {
                        return Err(parse_error(&chars_of("obfs=salamander requires obfs-password")));
                    },
                }
            } else {
                let mut msg = chars_of("hysteria2 obfs type '");
                push_all(&mut msg, t);
                push_str(&mut msg, "' is unsupported");
                return Err(unsupported_error(&msg));
            }
        },
    };
    let sni = if p.sni.len() == 0 && !parses_as_ip(string_of(&server).as_str()) {
        copy_range(&server, 0, server.len())
    } else {
        p.sni
    };
    let name = remark_name_exec(&url.fragment, &server, port);
    assert(hy2_pairs(url@) == pair_texts(pairs@));
    assert(hy2_params(hy2_pairs(url@)) == Ok::<Hy2Params, ErrorView>(p@));
    assert(server@ == debracket(url@.host->Some_0));
    assert(hy2_obfs(p@) is Ok);
    let node = ProxyNode {
        id: new_id(),
        name: string_of(&name),
        server: string_of(&server),
        port,
        last_ping_ms: None,
        favorite: false,
        total_up: 0,
        total_down: 0,
        raw: String::from_str(uri),
        kind: ProxyKind::Hysteria2(
            Hysteria2Node { password, obfs, insecure: p.insecure, sni: string_of(&sni), alpn: p.alpn },
        ),
    };
    proof {
        let sp = hy2_from_url(uri@, url@);
        assert(sp is Ok);
        let nv = sp->Ok_0;
        assert(nv.name == node@.name);
        assert(nv.server == node@.server);
        assert(nv.port == node@.port);
        assert(nv.raw == node@.raw);
        let a = nv.kind->Hysteria2_0;
        let b = node@.kind->Hysteria2_0;
        assert(nv.kind is Hysteria2);
        assert(a.password == b.password);
        assert(a.obfs == b.obfs);
        assert(a.insecure == b.insecure);
        assert(a.sni == b.sni);
        assert(a.alpn == b.alpn);
    }
    Ok(node)
}

} // verus!
