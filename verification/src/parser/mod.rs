//! Share-link parsing: scheme dispatch and bulk import.

pub mod vless;
pub mod hysteria2;
pub mod v2ray_json;
pub mod outbounds;
pub mod round_trip;
pub mod vless_round_trip;

use vstd::prelude::*;
use vstd::string::*;

use crate::error::{error_message, unsupported_error, AppError, AppResult, ErrorView};
use crate::models::{node_views, without_id, NodeView, ProxyNode};
use crate::text::{
    chars_of, contains, contains_str, copy_range, eq_ignore_case, eq_ignore_case_exec, find,
    find_exec, lemma_find_bounds, push_all, push_str, seq_eq, seq_views, split_once,
    split_once_exec, split_words, starts_with, starts_with_str, string_of, strings_text, trim,
    trim_chars, words,
};
use crate::url_text::{dec, percent_decoded};
use self::vless::{node_outcome, parse_vless, strip_leading, vless_spec, VlessParser};

verus! {

/// A share-link parser for one scheme.
pub trait LinkParser {
    fn scheme(&self) -> &str;

    fn parse(&self, uri: &str) -> AppResult<ProxyNode>;
}

impl LinkParser for VlessParser {
    fn scheme(&self) -> (r: &str)
        ensures
            r@ == "vless"@,
    {
        "vless"
    }

    fn parse(&self, uri: &str) -> (r: AppResult<ProxyNode>)
        ensures
            node_outcome(r) == vless_spec(uri@),
    {
        parse_vless(uri)
    }
}

/// The scheme named in an unsupported link: the text before the first `://`.
pub open spec fn scheme_of(uri: Seq<char>) -> Seq<char> {
    match find(uri, "://"@) {
        Some(i) => uri.subrange(0, i),
        None => uri,
    }
}

/// Whether `uri` starts with `vless://`, the scheme compared without case.
pub open spec fn is_vless_link(uri: Seq<char>) -> bool {
    uri.len() >= 5 && eq_ignore_case(uri.subrange(0, 5), "vless"@) && starts_with(
        uri.subrange(5, uri.len() as int),
        "://"@,
    )
}

/// What `parse_any` makes of a link, its random id left blank.
pub open spec fn parse_any_spec(uri: Seq<char>) -> Result<NodeView, ErrorView> {
    if is_vless_link(uri) {
        vless_spec(uri)
    } else {
        Err(ErrorView::Unsupported("scheme \""@ + scheme_of(uri) + "\""@))
    }
}

/// Dispatches a single share link by its scheme prefix.
pub fn parse_any(uri: &str) -> (r: AppResult<ProxyNode>)
    ensures
        node_outcome(r) == parse_any_spec(uri@),
{
    let u = chars_of(uri);
    let vless = chars_of("vless");
    if u.len() >= 5 {
        let head = copy_range(&u, 0, 5);
        let tail = copy_range(&u, 5, u.len());
        if eq_ignore_case_exec(&head, &vless) && starts_with_str(&tail, "://") {
            return parse_vless(uri);
        }
    }
    let sep = chars_of("://");
    let scheme = match find_exec(&u, &sep) {
        Some(i) => {
            proof {
                lemma_find_bounds(u@, sep@);
            }
            copy_range(&u, 0, i)
        },
        None => u,
    };
    let mut msg = chars_of("scheme \"");
    push_all(&mut msg, &scheme);
    push_str(&mut msg, "\"");
    Err(unsupported_error(&msg))
}

// ---------------------------------------------------------------------------
// Bulk import
// ---------------------------------------------------------------------------

/// A token without the byte-order marks some panels put in front of it.
pub open spec fn strip_bom(t: Seq<char>) -> Seq<char> {
    strip_leading(t, '\u{feff}')
}

/// The tokens that look like links, in order, each kept the first time only.
pub open spec fn link_tokens(ws: Seq<Seq<char>>) -> Seq<Seq<char>>
    decreases ws.len(),
{
    if ws.len() == 0 {
        Seq::empty()
    } else {
        let r = link_tokens(ws.drop_last());
        let t = strip_bom(ws.last());
        if contains(t, "://"@) && !r.contains(t) {
            r.push(t)
        } else {
            r
        }
    }
}

/// The servers parsed from the tokens, ids left blank.
pub open spec fn parsed_nodes(ts: Seq<Seq<char>>) -> Seq<NodeView>
    decreases ts.len(),
{
    if ts.len() == 0 {
        Seq::empty()
    } else {
        let r = parsed_nodes(ts.drop_last());
        match parse_any_spec(ts.last()) {
            Ok(n) => r.push(n),
            Err(_) => r,
        }
    }
}

/// One line per token that failed: its label, `: `, and the error message.
pub open spec fn parse_errors(ts: Seq<Seq<char>>) -> Seq<Seq<char>>
    decreases ts.len(),
{
    if ts.len() == 0 {
        Seq::empty()
    } else {
        let r = parse_errors(ts.drop_last());
        match parse_any_spec(ts.last()) {
            Ok(_) => r,
            Err(e) => r.push(label_spec(ts.last()) + ": "@ + error_message(e)),
        }
    }
}

pub open spec fn ids_blank(v: Seq<NodeView>) -> Seq<NodeView> {
    v.map_values(|n: NodeView| without_id(n))
}

/// Parses a blob of pasted text: splits it on whitespace, skips tokens
/// that are not links, deduplicates by the raw link. Returns the servers
/// and one error line per link that did not parse.
pub fn parse_links(text: &str) -> (r: (Vec<ProxyNode>, Vec<String>))
    ensures
        ids_blank(node_views(r.0@)) == parsed_nodes(link_tokens(words(text@))),
        strings_text(r.1@) == parse_errors(link_tokens(words(text@))),
{
    let tc = chars_of(text);
    let ws = split_words(&tc);
    let mut seen: Vec<Vec<char>> = Vec::new();
    let mut servers: Vec<ProxyNode> = Vec::new();
    let mut errors: Vec<String> = Vec::new();
    let mut i: usize = 0;
    while i < ws.len()
        invariant
            i <= ws@.len(),
            seq_views(ws@) == words(text@),
            seq_views(seen@) == link_tokens(seq_views(ws@).subrange(0, i as int)),
            ids_blank(node_views(servers@)) == parsed_nodes(seq_views(seen@)),
            strings_text(errors@) == parse_errors(seq_views(seen@)),
        decreases ws.len() - i,
    {
        let ghost pre = seq_views(ws@).subrange(0, i as int);
        let ghost nxt = seq_views(ws@).subrange(0, i + 1 as int);
        proof {
            assert(nxt.drop_last() =~= pre);
            assert(nxt.last() == ws@[i as int]@);
        }
        let token = strip_bom_exec(&ws[i]);
        if contains_str(&token, "://") && !contains_token(&seen, &token) {
            let ghost before_seen = seq_views(seen@);
            let ghost before_servers = servers@;
            let ghost before_errors = errors@;
            let st = string_of(&token);
            match parse_any(st.as_str()) {
                Ok(entry) => {
                    servers.push(entry);
                    proof {
                        assert(node_views(servers@) =~= node_views(before_servers).push(entry@));
                        assert(ids_blank(node_views(servers@)) =~= ids_blank(node_views(before_servers)).push(without_id(entry@)));
                    }
                },
                Err(e) => {
                    let mut line = label(&token);
                    push_str(&mut line, ": ");
                    let m = e.to_string();
                    push_str(&mut line, m.as_str());
                    errors.push(string_of(&line));
                    proof {
                        assert(strings_text(errors@) =~= strings_text(before_errors).push(line@));
                    }
                },
            }
            seen.push(token);
            proof {
                assert(seq_views(seen@) =~= before_seen.push(token@));
                assert(seq_views(seen@).drop_last() =~= before_seen);
            }
        }
        i += 1;
    }
    assert(seq_views(ws@).subrange(0, ws@.len() as int) =~= seq_views(ws@));
    (servers, errors)
}

fn strip_bom_exec(t: &[char]) -> (r: Vec<char>)
    ensures
        r@ == strip_bom(t@),
{
    let mut i: usize = 0;
    assert(t@.subrange(0, t@.len() as int) =~= t@);
    while i < t.len() && t[i] == '\u{feff}'
        invariant
            i <= t@.len(),
            strip_leading(t@, '\u{feff}') == strip_leading(t@.subrange(i as int, t@.len() as int), '\u{feff}'),
        decreases t.len() - i,
    {
        assert(t@.subrange(i as int, t@.len() as int).drop_first() =~= t@.subrange(i + 1 as int, t@.len() as int));
        i += 1;
    }
    copy_range(t, i, t.len())
}

fn contains_token(seen: &Vec<Vec<char>>, t: &[char]) -> (r: bool)
    ensures
        r == seq_views(seen@).contains(t@),
{
    let mut i: usize = 0;
    while i < seen.len()
        invariant
            i <= seen@.len(),
            forall|j: int| 0 <= j < i ==> seq_views(seen@)[j] != t@,
        decreases seen.len() - i,
    {
        if seq_eq(&seen[i], t) {
            assert(seq_views(seen@)[i as int] == t@);
            return true;
        }
        i += 1;
    }
    false
}

// ---------------------------------------------------------------------------
// Error labels
// ---------------------------------------------------------------------------

/// At most 64 characters; longer texts are cut and end with `…`.
pub open spec fn short_spec(s: Seq<char>) -> Seq<char> {
    if s.len() <= 64 {
        s
    } else {
        s.subrange(0, 64).push('…')
    }
}

/// The label of an error line: the link's decoded `#remark`, else the link.
pub open spec fn label_spec(link: Seq<char>) -> Seq<char> {
    let name = match split_once(link, '#') {
        Some((_, frag)) => trim(percent_decoded(frag)),
        None => Seq::empty(),
    };
    if name.len() == 0 {
        short_spec(link)
    } else {
        short_spec(name)
    }
}

pub fn short(s: &[char]) -> (r: Vec<char>)
    ensures
        r@ == short_spec(s@),
{
    if s.len() <= 64 {
        copy_range(s, 0, s.len())
    } else {
        let mut r = copy_range(s, 0, 64);
        r.push('…');
        r
    }
}

fn label(link: &[char]) -> (r: Vec<char>)
    ensures
        r@ == label_spec(link@),
{
    let name = match split_once_exec(link, '#') {
        Some(p) => trim_chars(&dec(&p.1)),
        None => Vec::new(),
    };
    if name.len() == 0 {
        short(link)
    } else {
        short(&name)
    }
}

// ---------------------------------------------------------------------------
// Laws
// ---------------------------------------------------------------------------

/// Each link enters a batch once: the link tokens of any text are pairwise
/// distinct.
pub proof fn lemma_link_tokens_distinct(ws: Seq<Seq<char>>)
    ensures
        forall|i: int, j: int|
            0 <= i < j < link_tokens(ws).len() ==> link_tokens(ws)[i] != link_tokens(ws)[j],
    decreases ws.len(),
{
    if ws.len() > 0 {
        lemma_link_tokens_distinct(ws.drop_last());
        let r = link_tokens(ws.drop_last());
        let t = strip_bom(ws.last());
        if contains(t, "://"@) && !r.contains(t) {
            assert forall|i: int, j: int|
                0 <= i < j < link_tokens(ws).len() implies link_tokens(ws)[i] != link_tokens(ws)[j] by {
                if j == r.len() {
                    assert(link_tokens(ws)[i] == r[i]);
                }
            }
        }
    }
}

/// Every server of a batch keeps the link it was parsed from, and since a
/// link enters a batch once, no two servers of one `parse_links` result
/// carry the same raw link.
pub proof fn lemma_parse_links_raw_distinct(text: Seq<char>)
    ensures
        forall|i: int, j: int|
            0 <= i < j < parsed_nodes(link_tokens(words(text))).len() ==> parsed_nodes(
                link_tokens(words(text)),
            )[i].raw != parsed_nodes(link_tokens(words(text)))[j].raw,
{
    let ts = link_tokens(words(text));
    lemma_link_tokens_distinct(words(text));
    lemma_parsed_nodes_raws(ts);
}

/// The servers parsed from distinct links carry distinct raw links.
pub proof fn lemma_parsed_nodes_raws(ts: Seq<Seq<char>>)
    requires
        forall|i: int, j: int| 0 <= i < j < ts.len() ==> ts[i] != ts[j],
    ensures
        forall|i: int, j: int|
            0 <= i < j < parsed_nodes(ts).len() ==> parsed_nodes(ts)[i].raw != parsed_nodes(ts)[j].raw,
        forall|i: int|
            0 <= i < parsed_nodes(ts).len() ==> #[trigger] ts.contains(parsed_nodes(ts)[i].raw),
    decreases ts.len(),
{
    if ts.len() > 0 {
        let pre = ts.drop_last();
        assert forall|i: int, j: int| 0 <= i < j < pre.len() implies pre[i] != pre[j] by {
            assert(pre[i] == ts[i] && pre[j] == ts[j]);
        }
        lemma_parsed_nodes_raws(pre);
        lemma_parse_any_raw(ts.last());
        let r = parsed_nodes(pre);
        assert forall|i: int| 0 <= i < r.len() implies #[trigger] ts.contains(r[i].raw) by {
            assert(pre.contains(r[i].raw));
            let k = choose|k: int| 0 <= k < pre.len() && pre[k] == r[i].raw;
            assert(ts[k] == r[i].raw);
        }
        match parse_any_spec(ts.last()) {
            Ok(n) => {
                assert(!pre.contains(ts.last())) by {
                    if pre.contains(ts.last()) {
                        let k = choose|k: int| 0 <= k < pre.len() && pre[k] == ts.last();
                        assert(ts[k] == ts[ts.len() - 1]);
                    }
                }
                assert forall|i: int, j: int|
                    0 <= i < j < parsed_nodes(ts).len() implies parsed_nodes(ts)[i].raw
                    != parsed_nodes(ts)[j].raw by {
                    if j == r.len() {
                        assert(parsed_nodes(ts)[i] == r[i]);
                        assert(pre.contains(r[i].raw));
                    }
                }
                assert(ts.contains(n.raw)) by {
                    assert(ts[ts.len() - 1] == n.raw);
                }
            },
            Err(_) => {},
        }
    }
}

/// A parsed link's server keeps the link itself as its raw text.
pub proof fn lemma_parse_any_raw(uri: Seq<char>)
    ensures
        parse_any_spec(uri) matches Ok(n) ==> n.raw == uri,
{
}

} // verus!
