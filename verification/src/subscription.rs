//! Subscription responses: body decoding, the panel's headers, stand-in
//! entries, and merging a refreshed server list into the stored one.

use base64::engine::general_purpose::{STANDARD, URL_SAFE};
use base64::Engine;
use vstd::prelude::*;
use vstd::string::*;
use vstd::utf8::{decode_utf8, encode_utf8, valid_utf8};

use crate::error::{parse_error, unsupported_error, AppError, AppResult, ErrorView};
use crate::models::{node_views, without_id, NodeView, ProxyNode, SubscriptionQuota};
use crate::parser::vless::{
    nonempty, opt_chars, strip_leading, strip_leading_exec, strip_trailing, strip_trailing_exec,
};
use crate::url_text::{dec, pair_texts, percent_decoded};
use crate::parser::v2ray_json::raws;
use crate::parser::{ids_blank, link_tokens, parse_errors, parsed_nodes};
use crate::text::{
    chars_of, contains, contains_str, copy_range, eq_ignore_case, eq_ignore_case_exec, eq_str,
    find, find_exec, index_of, occurs_at, is_ws, is_ws_exec, lemma_find_bounds, lower_chars, lower_seq,
    push_all, seq_views, split_char, split_chars, starts_with, starts_with_str, string_of,
    strings_text, trim, words,
    trim_chars,
};

verus! {

/// The User-Agent sent when the settings leave it blank: a plain v2rayN, so
/// panels serve the URI list rather than a client-specific format.
pub const DEFAULT_SUB_USER_AGENT: &'static str = "v2rayN/7.13 Umbra/0.1.0";

// ---------------------------------------------------------------------------
// Base64 and UTF-8
// ---------------------------------------------------------------------------

/// What `base64::engine::general_purpose::STANDARD.decode` makes of a text:
/// the bytes, or `None` when it is not padded standard base64.
pub uninterp spec fn base64_standard(text: Seq<char>) -> Option<Seq<u8>>;

/// What `base64::engine::general_purpose::URL_SAFE.decode` makes of a text.
pub uninterp spec fn base64_url_safe(text: Seq<char>) -> Option<Seq<u8>>;

/// What `String::from_utf8_lossy` makes of bytes that are not valid UTF-8
/// (each invalid sequence replaced by U+FFFD).
pub uninterp spec fn utf8_lossy_invalid(bytes: Seq<u8>) -> Seq<char>;

/// `String::from_utf8_lossy`: valid UTF-8 decoded as it is; otherwise the
/// text with invalid sequences replaced by U+FFFD.
pub open spec fn utf8_lossy(bytes: Seq<u8>) -> Seq<char> {
    if valid_utf8(bytes) {
        decode_utf8(bytes)
    } else {
        utf8_lossy_invalid(bytes)
    }
}

pub open spec fn opt_bytes(o: Option<Vec<u8>>) -> Option<Seq<u8>> {
    match o {
        Some(v) => Some(v@),
        None => None,
    }
}

/// Calls `STANDARD.decode`; the contract claims only that the outcome is
/// `base64_standard` of the text.
#[verifier::external_body]
fn decode_standard(text: &str) -> (r: Option<Vec<u8>>)
    ensures
        opt_bytes(r) == base64_standard(text@),
{
    STANDARD.decode(text).ok()
}

/// Calls `URL_SAFE.decode`; the contract claims only that the outcome is
/// `base64_url_safe` of the text.
#[verifier::external_body]
fn decode_url_safe(text: &str) -> (r: Option<Vec<u8>>)
    ensures
        opt_bytes(r) == base64_url_safe(text@),
{
    URL_SAFE.decode(text).ok()
}

/// Calls `String::from_utf8`: as its documentation says, the text exactly
/// when the bytes are valid UTF-8, decoded as such.
#[verifier::external_body]
fn utf8_text(bytes: Vec<u8>) -> (r: Option<String>)
    ensures
        r is Some <==> valid_utf8(bytes@),
        r matches Some(s) ==> s@ == decode_utf8(bytes@),
{
    String::from_utf8(bytes).ok()
}

/// Calls `String::from_utf8_lossy`: as its documentation says, valid UTF-8
/// comes back decoded as it is; what it makes of other bytes is
/// `utf8_lossy_invalid` of them.
#[verifier::external_body]
fn lossy_text(bytes: &[u8]) -> (r: String)
    ensures
        valid_utf8(bytes@) ==> r@ == decode_utf8(bytes@),
        !valid_utf8(bytes@) ==> r@ == utf8_lossy_invalid(bytes@),
{
    String::from_utf8_lossy(bytes).into_owned()
}

/// The characters that are not whitespace, in order.
pub open spec fn drop_ws(s: Seq<char>) -> Seq<char>
    decreases s.len(),
{
    if s.len() == 0 {
        Seq::empty()
    } else if is_ws(s.last()) {
        drop_ws(s.drop_last())
    } else {
        drop_ws(s.drop_last()).push(s.last())
    }
}

fn drop_ws_exec(s: &[char]) -> (r: Vec<char>)
    ensures
        r@ == drop_ws(s@),
{
    let mut r: Vec<char> = Vec::new();
    let mut i: usize = 0;
    while i < s.len()
        invariant
            i <= s@.len(),
            r@ == drop_ws(s@.subrange(0, i as int)),
        decreases s.len() - i,
    {
        assert(s@.subrange(0, i + 1 as int).drop_last() =~= s@.subrange(0, i as int));
        if !is_ws_exec(s[i]) {
            r.push(s[i]);
        }
        i += 1;
    }
    assert(s@.subrange(0, s@.len() as int) =~= s@);
    r
}

/// `=` appended until the UTF-8 length is a multiple of four.
pub open spec fn pad4(s: Seq<char>) -> Seq<char> {
    s + Seq::new(((4 - encode_utf8(s).len() % 4) % 4) as nat, |i: int| '=')
}

fn pad4_exec(s: &[char]) -> (r: String)
    ensures
        r@ == pad4(s@),
{
    let st = string_of(s);
    let sr = st.as_str();
    let n = sr.as_bytes().len();
    assert(sr@ == s@);
    assert(n == encode_utf8(s@).len());
    let k: usize = (4 - n % 4) % 4;
    let mut r = chars_of(st.as_str());
    let mut j: usize = 0;
    while j < k
        invariant
            j <= k,
            k == (4 - encode_utf8(s@).len() % 4) % 4,
            r@ == s@ + Seq::new(j as nat, |i: int| '='),
        decreases k - j,
    {
        r.push('=');
        j += 1;
        assert(r@ =~= s@ + Seq::new(j as nat, |i: int| '='));
    }
    string_of(&r)
}

// ---------------------------------------------------------------------------
// Header values
// ---------------------------------------------------------------------------

/// The trimmed text of decoded bytes, when they are UTF-8 and it is not
/// blank.
pub open spec fn utf8_title(bytes: Option<Seq<u8>>) -> Option<Seq<char>> {
    match bytes {
        Some(b) => if valid_utf8(b) && trim(decode_utf8(b)).len() > 0 {
            Some(trim(decode_utf8(b)))
        } else {
            None
        },
        None => None,
    }
}

/// A header value that may be wrapped as `base64:<payload>`: the payload
/// (whitespace dropped, padded) decoded as standard, then URL-safe base64,
/// kept when it is non-blank UTF-8; a plain value trimmed. Blank gives
/// nothing.
pub open spec fn header_text(value: Seq<char>) -> Option<Seq<char>> {
    if starts_with(value, "base64:"@) {
        let padded = pad4(drop_ws(value.subrange(7, value.len() as int)));
        match utf8_title(base64_standard(padded)) {
            Some(t) => Some(t),
            None => utf8_title(base64_url_safe(padded)),
        }
    } else {
        nonempty(Some(trim(value)))
    }
}

fn utf8_title_exec(bytes: Option<Vec<u8>>) -> (r: Option<String>)
    ensures
        crate::url_text::opt_text(r) == utf8_title(opt_bytes(bytes)),
{
    match bytes {
        Some(b) => match utf8_text(b) {
            Some(t) => {
                let tt = trim_chars(&chars_of(t.as_str()));
                if tt.len() > 0 {
                    Some(string_of(&tt))
                } else {
                    None
                }
            },
            None => None,
        },
        None => None,
    }
}

/// Decodes a header value that may be wrapped as `base64:<payload>` (header
/// values are Latin-1, so panels ship non-ASCII titles that way). A payload
/// that is not UTF-8 gives nothing rather than the raw text.
pub fn decode_header_text(value: &str) -> (r: Option<String>)
    ensures
        crate::url_text::opt_text(r) == header_text(value@),
{
    let v = chars_of(value);
    if starts_with_str(&v, "base64:") {
        proof {
            reveal_strlit("base64:");
        }
        let payload = drop_ws_exec(&copy_range(&v, 7, v.len()));
        let padded = pad4_exec(&payload);
        match utf8_title_exec(decode_standard(padded.as_str())) {
            Some(t) => Some(t),
            None => utf8_title_exec(decode_url_safe(padded.as_str())),
        }
    } else {
        let t = trim_chars(&v);
        if t.len() > 0 {
            Some(string_of(&t))
        } else {
            None
        }
    }
}

pub open spec fn is_http_url_spec(value: Seq<char>) -> bool {
    starts_with(value, "http://"@) || starts_with(value, "https://"@)
}

/// Whether a link may be shown as clickable: `http://` or `https://` only.
pub fn is_http_url(value: &str) -> (r: bool)
    ensures
        r == is_http_url_spec(value@),
{
    let v = chars_of(value);
    starts_with_str(&v, "http://") || starts_with_str(&v, "https://")
}

/// A flag header counts as set when present and, trimmed, neither empty,
/// `false` (any case) nor `0`.
pub open spec fn flag_set(value: Option<Seq<char>>) -> bool {
    match value {
        Some(v) => {
            let t = trim(v);
            t.len() > 0 && !eq_ignore_case(t, "false"@) && t != "0"@
        },
        None => false,
    }
}

pub open spec fn opt_str(o: Option<&str>) -> Option<Seq<char>> {
    match o {
        Some(s) => Some(s@),
        None => None,
    }
}

/// Whether a device-gate flag header (its value, if sent) is set.
pub fn header_flag(value: Option<&str>) -> (r: bool)
    ensures
        r == flag_set(opt_str(value)),
{
    match value {
        Some(v) => {
            let t = trim_chars(&chars_of(v));
            t.len() > 0 && !eq_ignore_case_exec(&t, &chars_of("false")) && !eq_str(&t, "0")
        },
        None => false,
    }
}

/// The panel's reason for withholding the list, from the values of
/// `x-hwid-max-devices-reached` and `x-hwid-not-supported`: the device
/// limit wins over the missing device id.
pub open spec fn gate_spec(max_devices: Option<Seq<char>>, not_supported: Option<Seq<char>>) -> Option<
    ErrorView,
> {
    if flag_set(max_devices) {
        Some(ErrorView::DeviceLimit)
    } else if flag_set(not_supported) {
        Some(ErrorView::HwidRequired)
    } else {
        None
    }
}

pub open spec fn opt_error(o: Option<AppError>) -> Option<ErrorView> {
    match o {
        Some(e) => Some(e@),
        None => None,
    }
}

/// Maps the panel's device-gate headers (their values, if sent) onto an
/// actionable error.
pub fn hwid_rejection(max_devices: Option<&str>, not_supported: Option<&str>) -> (r: Option<AppError>)
    ensures
        opt_error(r) == gate_spec(opt_str(max_devices), opt_str(not_supported)),
{
    if header_flag(max_devices) {
        return Some(AppError::DeviceLimit);
    }
    if header_flag(not_supported) {
        return Some(AppError::HwidRequired);
    }
    None
}

// ---------------------------------------------------------------------------
// Stand-in entries
// ---------------------------------------------------------------------------

/// The stand-in entry a panel serves instead of the real list: port 1 on
/// an address that never routes.
pub open spec fn placeholder_spec(n: NodeView) -> bool {
    n.port == 1 && (n.server == "0.0.0.0"@ || n.server == "::"@ || n.server == "127.0.0.1"@)
}

/// Whether a server is a panel's stand-in entry.
pub fn is_placeholder(s: &ProxyNode) -> (r: bool)
    ensures
        r == placeholder_spec(s@),
{
    let v = chars_of(s.server.as_str());
    s.port == 1 && (eq_str(&v, "0.0.0.0") || eq_str(&v, "::") || eq_str(&v, "127.0.0.1"))
}

/// The servers that are not stand-ins, in order.
pub open spec fn real_servers(v: Seq<NodeView>) -> Seq<NodeView>
    decreases v.len(),
{
    if v.len() == 0 {
        Seq::empty()
    } else if placeholder_spec(v.last()) {
        real_servers(v.drop_last())
    } else {
        real_servers(v.drop_last()).push(v.last())
    }
}

pub open spec fn list_outcome(r: AppResult<Vec<ProxyNode>>) -> Result<Seq<NodeView>, ErrorView> {
    match r {
        Ok(v) => Ok(node_views(v@)),
        Err(e) => Err(e@),
    }
}

/// What is left once the stand-ins are gone: the real servers if there are
/// any; else the panel's own reason; else, when stand-ins were all there
/// was, the device limit; else the empty list.
pub open spec fn drop_placeholders_spec(parsed: Seq<NodeView>, gate: Option<ErrorView>) -> Result<
    Seq<NodeView>,
    ErrorView,
> {
    let kept = real_servers(parsed);
    if kept.len() > 0 {
        Ok(kept)
    } else {
        match gate {
            Some(e) => Err(e),
            None => if parsed.len() > 0 {
                Err(ErrorView::DeviceLimit)
            } else {
                Ok(kept)
            },
        }
    }
}

/// Strips the panel's stand-in entries and decides whether what is left is
/// a real list. The device-gate headers are advisory: only a list made of
/// nothing but stand-ins is an error, and `gate` then supplies the reason.
pub fn drop_placeholders(parsed: Vec<ProxyNode>, gate: Option<AppError>) -> (r: AppResult<
    Vec<ProxyNode>,
>)
    ensures
        list_outcome(r) == drop_placeholders_spec(node_views(parsed@), opt_error(gate)),
{
    let had_any = parsed.len() > 0;
    let mut servers: Vec<ProxyNode> = Vec::new();
    let mut rest = parsed;
    let ghost all = node_views(rest@);
    let ghost n = all.len();
    while rest.len() > 0
        invariant
            n == all.len(),
            rest@.len() <= n,
            node_views(rest@) == all.subrange(n - rest@.len(), n as int),
            node_views(servers@) == real_servers(all.subrange(0, n - rest@.len())),
        decreases rest.len(),
    {
        let ghost i = n - rest@.len();
        assert(all.subrange(0, i + 1).drop_last() =~= all.subrange(0, i));
        assert(node_views(rest@)[0] == all[i]);
        let ghost old_rest = rest@;
        let s = rest.remove(0);
        assert(rest@ =~= old_rest.subrange(1, old_rest.len() as int));
        assert forall|k: int| 0 <= k < rest@.len() implies #[trigger] node_views(rest@)[k] == all[i + 1 + k] by {
            assert(node_views(old_rest)[k + 1] == all[i + 1 + k]);
        }
        assert(node_views(rest@) =~= all.subrange(n - rest@.len(), n as int));
        if !is_placeholder(&s) {
            let ghost before = servers@;
            servers.push(s);
            assert(node_views(servers@) =~= node_views(before).push(all[i]));
        }
    }
    assert(all.subrange(0, n as int) =~= all);
    if servers.len() > 0 {
        return Ok(servers);
    }
    match gate {
        Some(e) => Err(e),
        None => if had_any {
            Err(AppError::DeviceLimit)
        } else {
            Ok(servers)
        },
    }
}


// ---------------------------------------------------------------------------
// Response bodies
// ---------------------------------------------------------------------------

/// The first line of a text (up to the first `\n`).
pub open spec fn first_line(t: Seq<char>) -> Seq<char> {
    match index_of(t, '\n') {
        Some(i) => t.subrange(0, i),
        None => t,
    }
}

/// The lossily decoded bytes, when they hold a link.
pub open spec fn lossy_links(bytes: Option<Seq<u8>>) -> Option<Seq<char>> {
    match bytes {
        Some(b) => if contains(utf8_lossy(b), "://"@) {
            Some(utf8_lossy(b))
        } else {
            None
        },
        None => None,
    }
}

/// The URI list a subscription body holds: the trimmed body (byte-order
/// marks dropped) when its first line has a link; else the body decoded as
/// standard, then URL-safe base64 (whitespace dropped, padded), when that
/// holds a link; else an error that names what the body looks like.
pub open spec fn decode_body_spec(body: Seq<char>) -> Result<Seq<char>, ErrorView> {
    let t = trim(strip_leading(body, '\u{feff}'));
    if t.len() == 0 {
        Err(ErrorView::Parse("subscription response is empty"@))
    } else if contains(first_line(t), "://"@) {
        Ok(t)
    } else {
        let padded = pad4(drop_ws(t));
        match lossy_links(base64_standard(padded)) {
            Some(l) => Ok(l),
            None => match lossy_links(base64_url_safe(padded)) {
                Some(l) => Ok(l),
                None => if starts_with(t, "proxies:"@) || contains(t, "\nproxies:"@) {
                    Err(ErrorView::Unsupported("Clash YAML subscription (URI list expected)"@))
                } else if t.len() > 0 && t[0] == '{' {
                    Err(ErrorView::Unsupported("JSON config subscription (URI list expected)"@))
                } else {
                    Err(ErrorView::Parse("unrecognized subscription format"@))
                },
            },
        }
    }
}

pub open spec fn text_outcome(r: AppResult<String>) -> Result<Seq<char>, ErrorView> {
    match r {
        Ok(s) => Ok(s@),
        Err(e) => Err(e@),
    }
}

fn lossy_links_exec(bytes: Option<Vec<u8>>) -> (r: Option<String>)
    ensures
        crate::url_text::opt_text(r) == lossy_links(opt_bytes(bytes)),
{
    match bytes {
        Some(b) => {
            let t = lossy_text(b.as_slice());
            if contains_str(&chars_of(t.as_str()), "://") {
                Some(t)
            } else {
                None
            }
        },
        None => None,
    }
}

pub fn first_line_exec(t: &[char]) -> (r: Vec<char>)
    ensures
        r@ == first_line(t@),
{
    match crate::text::split_once_exec(t, '\n') {
        Some(p) => p.0,
        None => copy_range(t, 0, t.len()),
    }
}

/// Turns a subscription response body into a plain URI list.
pub fn decode_body(body: &str) -> (r: AppResult<String>)
    ensures
        text_outcome(r) == decode_body_spec(body@),
{
    let b = chars_of(body);
    let t = trim_chars(&strip_leading_exec(&b, '\u{feff}'));
    if t.len() == 0 {
        return Err(parse_error(&chars_of("subscription response is empty")));
    }
    if contains_str(&first_line_exec(&t), "://") {
        return Ok(string_of(&t));
    }
    let padded = pad4_exec(&drop_ws_exec(&t));
    match lossy_links_exec(decode_standard(padded.as_str())) {
        Some(l) => {
            return Ok(l);
        },
        None => {},
    }
    match lossy_links_exec(decode_url_safe(padded.as_str())) {
        Some(l) => {
            return Ok(l);
        },
        None => {},
    }
    if starts_with_str(&t, "proxies:") || contains_str(&t, "\nproxies:") {
        return Err(unsupported_error(&chars_of("Clash YAML subscription (URI list expected)")));
    }
    if t.len() > 0 && t[0] == '{' {
        return Err(unsupported_error(&chars_of("JSON config subscription (URI list expected)")));
    }
    Err(parse_error(&chars_of("unrecognized subscription format")))
}


// ---------------------------------------------------------------------------
// subscription-userinfo
// ---------------------------------------------------------------------------

/// The `key=value` pieces of a `subscription-userinfo` value split on `;`:
/// each trimmed piece with an `=`, its key trimmed and lower-cased, its
/// value trimmed.
pub open spec fn userinfo_entries(parts: Seq<Seq<char>>) -> Seq<(Seq<char>, Seq<char>)>
    decreases parts.len(),
{
    if parts.len() == 0 {
        Seq::empty()
    } else {
        let r = userinfo_entries(parts.drop_last());
        match crate::text::split_once(trim(parts.last()), '=') {
            Some(kv) => r.push((lower_seq(trim(kv.0)), trim(kv.1))),
            None => r,
        }
    }
}

/// The `(key, value)` pairs of `upload=..; download=..; total=..;
/// expire=..`, keys lower-cased, in order.
pub fn userinfo_fields(value: &str) -> (r: Vec<(String, String)>)
    ensures
        pair_texts(r@) == userinfo_entries(split_char(value@, ';')),
{
    let parts = split_chars(&chars_of(value), ';');
    let ghost pv = seq_views(parts@);
    let mut r: Vec<(String, String)> = Vec::new();
    let mut i: usize = 0;
    while i < parts.len()
        invariant
            i <= parts@.len(),
            pv == seq_views(parts@),
            pv == split_char(value@, ';'),
            pair_texts(r@) == userinfo_entries(pv.subrange(0, i as int)),
        decreases parts.len() - i,
    {
        assert(pv.subrange(0, i + 1 as int).drop_last() =~= pv.subrange(0, i as int));
        assert(pv.subrange(0, i + 1 as int).last() == parts@[i as int]@);
        let t = trim_chars(&parts[i]);
        match crate::text::split_once_exec(&t, '=') {
            Some(kv) => {
                let k = lower_chars(&trim_chars(&kv.0));
                let v = trim_chars(&kv.1);
                let ghost before = r@;
                r.push((string_of(&k), string_of(&v)));
                assert(pair_texts(r@) =~= pair_texts(before).push((k@, v@)));
            },
            None => {},
        }
        i += 1;
    }
    assert(pv.subrange(0, parts@.len() as int) =~= pv);
    r
}

/// The value last given for `key` with a number, 0 when there is none.
pub open spec fn field_value(fs: Seq<(Seq<char>, Option<u64>)>, key: Seq<char>) -> u64
    decreases fs.len(),
{
    if fs.len() == 0 {
        0
    } else if fs.last().0 == key && fs.last().1 is Some {
        fs.last().1->0
    } else {
        field_value(fs.drop_last(), key)
    }
}

pub open spec fn any_number(fs: Seq<(Seq<char>, Option<u64>)>) -> bool {
    exists|i: int| 0 <= i < fs.len() && (#[trigger] fs[i]).1 is Some
}

/// The quota the numeric fields describe; nothing when no field had a
/// number.
pub open spec fn quota_spec(fs: Seq<(Seq<char>, Option<u64>)>) -> Option<SubscriptionQuota> {
    if any_number(fs) {
        Some(
            SubscriptionQuota {
                upload: field_value(fs, "upload"@),
                download: field_value(fs, "download"@),
                total: field_value(fs, "total"@),
                expire: field_value(fs, "expire"@),
            },
        )
    } else {
        None
    }
}

pub open spec fn number_fields(v: Seq<(String, Option<u64>)>) -> Seq<(Seq<char>, Option<u64>)> {
    v.map_values(|p: (String, Option<u64>)| (p.0@, p.1))
}

fn field_value_exec(fields: &Vec<(String, Option<u64>)>, key: &str) -> (r: u64)
    ensures
        r == field_value(number_fields(fields@), key@),
{
    let ghost fs = number_fields(fields@);
    let k = String::from_str(key);
    let mut i: usize = fields.len();
    assert(fs.subrange(0, fs.len() as int) =~= fs);
    while i > 0
        invariant
            i <= fields@.len(),
            fs == number_fields(fields@),
            k@ == key@,
            field_value(fs, key@) == field_value(fs.subrange(0, i as int), key@),
        decreases i,
    {
        let ghost pre = fs.subrange(0, i as int);
        assert(pre.drop_last() =~= fs.subrange(0, i - 1));
        assert(pre.last() == fs[i - 1]);
        if fields[i - 1].0 == k {
            match fields[i - 1].1 {
                Some(n) => {
                    return n;
                },
                None => {},
            }
        }
        i -= 1;
    }
    0
}

fn has_number(fields: &Vec<(String, Option<u64>)>) -> (r: bool)
    ensures
        r == any_number(number_fields(fields@)),
{
    let ghost fs = number_fields(fields@);
    let mut i: usize = 0;
    while i < fields.len()
        invariant
            i <= fields@.len(),
            fs == number_fields(fields@),
            forall|j: int| 0 <= j < i ==> (#[trigger] fs[j]).1 is None,
        decreases fields.len() - i,
    {
        if fields[i].1.is_some() {
            assert(fs[i as int].1 is Some);
            return true;
        }
        i += 1;
    }
    false
}

/// Builds the quota from the `subscription-userinfo` fields, each with its
/// value read as a number (`None` where it is not one). A later field wins
/// over an earlier one with the same key; missing keys count as 0.
pub fn quota_from_fields(fields: &Vec<(String, Option<u64>)>) -> (r: Option<SubscriptionQuota>)
    ensures
        r == quota_spec(number_fields(fields@)),
{
    if !has_number(fields) {
        return None;
    }
    Some(
        SubscriptionQuota {
            upload: field_value_exec(fields, "upload"),
            download: field_value_exec(fields, "download"),
            total: field_value_exec(fields, "total"),
            expire: field_value_exec(fields, "expire"),
        },
    )
}

// ---------------------------------------------------------------------------
// Content-Disposition
// ---------------------------------------------------------------------------

/// `s.trim_matches('"')`.
pub open spec fn unquote(s: Seq<char>) -> Seq<char> {
    strip_trailing(strip_leading(s, '"'), '"')
}

/// A `filename*=charset''value` part: the percent-decoded value.
pub open spec fn star_candidate(part: Seq<char>) -> Option<Seq<char>> {
    let p = trim(part);
    if starts_with(p, "filename*="@) {
        let rest = unquote(p.subrange(10, p.len() as int));
        let value = match find(rest, "''"@) {
            Some(i) => rest.subrange(i + 2, rest.len() as int),
            None => rest,
        };
        nonempty(Some(percent_decoded(value)))
    } else {
        None
    }
}

/// A `filename="value"` part: the unquoted, trimmed value.
pub open spec fn plain_candidate(part: Seq<char>) -> Option<Seq<char>> {
    let p = trim(part);
    if starts_with(p, "filename="@) {
        nonempty(Some(trim(unquote(p.subrange(9, p.len() as int)))))
    } else {
        None
    }
}

/// The first part that yields a name.
pub open spec fn first_candidate(parts: Seq<Seq<char>>, star: bool) -> Option<Seq<char>>
    decreases parts.len(),
{
    if parts.len() == 0 {
        None
    } else {
        match (if star {
            star_candidate(parts[0])
        } else {
            plain_candidate(parts[0])
        }) {
            Some(n) => Some(n),
            None => first_candidate(parts.drop_first(), star),
        }
    }
}

/// The file name of a Content-Disposition value: the RFC 5987
/// `filename*=` form first, then the plain `filename=`.
pub open spec fn disposition_name(value: Seq<char>) -> Option<Seq<char>> {
    match first_candidate(split_char(value, ';'), true) {
        Some(n) => Some(n),
        None => first_candidate(split_char(value, ';'), false),
    }
}

fn unquote_exec(s: &[char]) -> (r: Vec<char>)
    ensures
        r@ == unquote(s@),
{
    strip_trailing_exec(&strip_leading_exec(s, '"'), '"')
}

fn star_candidate_exec(part: &[char]) -> (r: Option<Vec<char>>)
    ensures
        opt_chars(r) == star_candidate(part@),
{
    let p = trim_chars(part);
    if !starts_with_str(&p, "filename*=") {
        return None;
    }
    proof {
        reveal_strlit("filename*=");
    }
    let rest = unquote_exec(&copy_range(&p, 10, p.len()));
    let quotes = chars_of("''");
    let value = match find_exec(&rest, &quotes) {
        Some(i) => {
            let n = rest.len();
            proof {
                reveal_strlit("''");
                lemma_find_bounds(rest@, quotes@);
                assert(quotes@.len() == 2);
                assert(occurs_at(rest@, quotes@, i as int));
                assert(i + 2 <= n);
            }
            copy_range(&rest, i + 2, n)
        },
        None => rest,
    };
    let name = dec(&value);
    if name.len() > 0 {
        Some(name)
    } else {
        None
    }
}

fn plain_candidate_exec(part: &[char]) -> (r: Option<Vec<char>>)
    ensures
        opt_chars(r) == plain_candidate(part@),
{
    let p = trim_chars(part);
    if !starts_with_str(&p, "filename=") {
        return None;
    }
    proof {
        reveal_strlit("filename=");
    }
    let name = trim_chars(&unquote_exec(&copy_range(&p, 9, p.len())));
    if name.len() > 0 {
        Some(name)
    } else {
        None
    }
}

fn first_candidate_exec(parts: &Vec<Vec<char>>, star: bool) -> (r: Option<Vec<char>>)
    ensures
        opt_chars(r) == first_candidate(seq_views(parts@), star),
{
    let ghost pv = seq_views(parts@);
    let mut i: usize = 0;
    assert(pv.subrange(0, pv.len() as int) =~= pv);
    while i < parts.len()
        invariant
            i <= parts@.len(),
            pv == seq_views(parts@),
            first_candidate(pv, star) == first_candidate(pv.subrange(i as int, pv.len() as int), star),
        decreases parts.len() - i,
    {
        let ghost rest = pv.subrange(i as int, pv.len() as int);
        assert(rest.drop_first() =~= pv.subrange(i + 1, pv.len() as int));
        assert(rest[0] == parts@[i as int]@);
        let c = if star {
            star_candidate_exec(&parts[i])
        } else {
            plain_candidate_exec(&parts[i])
        };
        if c.is_some() {
            return c;
        }
        i += 1;
    }
    None
}

/// Extracts a file name from a Content-Disposition header value, preferring
/// RFC 5987 `filename*=UTF-8''...` over plain `filename="..."`.
pub fn filename_from_disposition(value: &str) -> (r: Option<String>)
    ensures
        crate::url_text::opt_text(r) == disposition_name(value@),
{
    let parts = split_chars(&chars_of(value), ';');
    match first_candidate_exec(&parts, true) {
        Some(n) => Some(string_of(&n)),
        None => match first_candidate_exec(&parts, false) {
            Some(n) => Some(string_of(&n)),
            None => None,
        },
    }
}


// ---------------------------------------------------------------------------
// Merging a refreshed list
// ---------------------------------------------------------------------------

/// The index of the last node with the given raw link.
pub open spec fn last_with_raw(v: Seq<NodeView>, raw: Seq<char>) -> Option<int>
    decreases v.len(),
{
    if v.len() == 0 {
        None
    } else if v.last().raw == raw {
        Some(v.len() - 1)
    } else {
        last_with_raw(v.drop_last(), raw)
    }
}

/// A fetched node carrying over what belongs to the user from the stored
/// one: id, last ping, favorite star and cumulative traffic.
pub open spec fn carry_local(n: NodeView, old: NodeView) -> NodeView {
    NodeView {
        id: old.id,
        last_ping_ms: old.last_ping_ms,
        favorite: old.favorite,
        total_up: old.total_up,
        total_down: old.total_down,
        ..n
    }
}

/// A fetched node as the merge keeps it: with the local state of the
/// stored node that has the same raw link (the last one, if several do).
pub open spec fn merged_entry(existing: Seq<NodeView>, n: NodeView) -> NodeView {
    match last_with_raw(existing, n.raw) {
        Some(i) => carry_local(n, existing[i]),
        None => n,
    }
}

pub open spec fn merged_list(existing: Seq<NodeView>, fetched: Seq<NodeView>) -> Seq<NodeView> {
    fetched.map_values(|n: NodeView| merged_entry(existing, n))
}

/// How many fetched nodes have a raw link no stored node has.
pub open spec fn count_new(existing: Seq<NodeView>, fetched: Seq<NodeView>) -> nat
    decreases fetched.len(),
{
    if fetched.len() == 0 {
        0
    } else {
        count_new(existing, fetched.drop_last()) + if last_with_raw(
            existing,
            fetched.last().raw,
        ) is None {
            1nat
        } else {
            0nat
        }
    }
}

/// How many stored nodes have a raw link not among `links`.
pub open spec fn count_gone(existing: Seq<NodeView>, links: Seq<Seq<char>>) -> nat
    decreases existing.len(),
{
    if existing.len() == 0 {
        0
    } else {
        count_gone(existing.drop_last(), links) + if links.contains(existing.last().raw) {
            0nat
        } else {
            1nat
        }
    }
}

fn listed(links: &Vec<String>, raw: &String) -> (r: bool)
    ensures
        r == strings_text(links@).contains(raw@),
{
    let ghost ls = strings_text(links@);
    let mut k: usize = 0;
    while k < links.len()
        invariant
            k <= links@.len(),
            ls == strings_text(links@),
            forall|j: int| 0 <= j < k ==> ls[j] != raw@,
        decreases links.len() - k,
    {
        if links[k] == *raw {
            assert(ls[k as int] == raw@);
            return true;
        }
        k += 1;
    }
    false
}

fn last_with_raw_exec(v: &[ProxyNode], raw: &String) -> (r: Option<usize>)
    ensures
        match r {
            Some(i) => last_with_raw(node_views(v@), raw@) == Some(i as int),
            None => last_with_raw(node_views(v@), raw@) is None,
        },
{
    let ghost nv = node_views(v@);
    let mut i: usize = v.len();
    assert(nv.subrange(0, nv.len() as int) =~= nv);
    while i > 0
        invariant
            i <= v@.len(),
            nv == node_views(v@),
            last_with_raw(nv, raw@) == last_with_raw(nv.subrange(0, i as int), raw@),
        decreases i,
    {
        let ghost pre = nv.subrange(0, i as int);
        assert(pre.drop_last() =~= nv.subrange(0, i - 1));
        assert(pre.last() == nv[i - 1]);
        if v[i - 1].raw == *raw {
            return Some(i - 1);
        }
        i -= 1;
    }
    None
}

/// Merges freshly fetched servers into the stored list: entries whose raw
/// link is unchanged keep their id, last ping, favorite star and cumulative
/// traffic. Returns the merged list (in fetched order) and how many servers
/// were added and removed.
pub fn merge_servers(existing: &[ProxyNode], fetched: Vec<ProxyNode>) -> (r: (Vec<ProxyNode>, usize, usize))
    ensures
        node_views(r.0@) == merged_list(node_views(existing@), node_views(fetched@)),
        r.1 == count_new(node_views(existing@), node_views(fetched@)),
        r.2 == count_gone(node_views(existing@), raws(node_views(fetched@))),
{
    let ghost ev = node_views(existing@);
    let ghost fv = node_views(fetched@);
    let ghost n = fv.len();
    let mut rest = fetched;
    let mut merged: Vec<ProxyNode> = Vec::new();
    let mut fresh: Vec<String> = Vec::new();
    let mut added: usize = 0;
    let total: usize = rest.len();
    while rest.len() > 0
        invariant
            ev == node_views(existing@),
            ev.len() == existing@.len(),
            n == fv.len(),
            n == total,
            rest@.len() <= n,
            node_views(rest@) == fv.subrange(n - rest@.len(), n as int),
            node_views(merged@) == merged_list(ev, fv.subrange(0, n - rest@.len())),
            strings_text(fresh@) == raws(fv.subrange(0, n - rest@.len())),
            added == count_new(ev, fv.subrange(0, n - rest@.len())),
            added <= n - rest@.len(),
        decreases rest.len(),
    {
        let ghost i = n - rest@.len();
        let ghost pre = fv.subrange(0, i + 1);
        assert(pre.drop_last() =~= fv.subrange(0, i));
        assert(node_views(rest@)[0] == fv[i]);
        let ghost old_rest = rest@;
        let mut s = rest.remove(0);
        assert(rest@ =~= old_rest.subrange(1, old_rest.len() as int));
        assert forall|k: int| 0 <= k < rest@.len() implies #[trigger] node_views(rest@)[k] == fv[i
            + 1 + k] by {
            assert(node_views(old_rest)[k + 1] == fv[i + 1 + k]);
        }
        assert(node_views(rest@) =~= fv.subrange(n - rest@.len(), n as int));
        let ghost fs = s@;
        let link = s.raw.clone();
        match last_with_raw_exec(existing, &s.raw) {
            Some(k) => {
                proof {
                    lemma_last_with_raw_bounds(ev, fs.raw);
                }
                s.id = existing[k].id.clone();
                s.last_ping_ms = existing[k].last_ping_ms;
                s.favorite = existing[k].favorite;
                s.total_up = existing[k].total_up;
                s.total_down = existing[k].total_down;
                assert(s@ == carry_local(fs, ev[k as int]));
            },
            None => {
                added += 1;
            },
        }
        let ghost mv = merged@;
        let ghost frv = fresh@;
        merged.push(s);
        fresh.push(link);
        assert(node_views(merged@) =~= node_views(mv).push(merged_entry(ev, fs)));
        assert(merged_list(ev, pre) =~= merged_list(ev, fv.subrange(0, i)).push(merged_entry(ev, fs)));
        assert(strings_text(fresh@) =~= strings_text(frv).push(fs.raw));
        assert(raws(pre) =~= raws(fv.subrange(0, i)).push(fs.raw));
    }
    assert(fv.subrange(0, n as int) =~= fv);
    let mut removed: usize = 0;
    let mut j: usize = 0;
    while j < existing.len()
        invariant
            ev == node_views(existing@),
            strings_text(fresh@) == raws(fv),
            j <= existing@.len(),
            removed == count_gone(ev.subrange(0, j as int), raws(fv)),
            removed <= j,
        decreases existing.len() - j,
    {
        assert(ev.subrange(0, j + 1 as int).drop_last() =~= ev.subrange(0, j as int));
        if !listed(&fresh, &existing[j].raw) {
            removed += 1;
        }
        j += 1;
    }
    assert(ev.subrange(0, existing@.len() as int) =~= ev);
    (merged, added, removed)
}

/// The merged list has exactly the fetched raw links, in the fetched order,
/// and takes everything but the user's own state from the fetched nodes.
pub proof fn lemma_merge_keeps_links(existing: Seq<NodeView>, fetched: Seq<NodeView>)
    ensures
        merged_list(existing, fetched).len() == fetched.len(),
        forall|i: int|
            0 <= i < fetched.len() ==> {
                let m = #[trigger] merged_list(existing, fetched)[i];
                &&& m.raw == fetched[i].raw
                &&& m.name == fetched[i].name
                &&& m.server == fetched[i].server
                &&& m.port == fetched[i].port
                &&& m.kind == fetched[i].kind
            },
{
}

/// `last_with_raw` finds the last entry with the link, or says none has it.
pub proof fn lemma_last_with_raw_bounds(v: Seq<NodeView>, raw: Seq<char>)
    ensures
        match last_with_raw(v, raw) {
            Some(i) => 0 <= i < v.len() && v[i].raw == raw && forall|j: int|
                i < j < v.len() ==> #[trigger] v[j].raw != raw,
            None => forall|j: int| 0 <= j < v.len() ==> #[trigger] v[j].raw != raw,
        },
    decreases v.len(),
{
    if v.len() > 0 {
        let w = v.drop_last();
        lemma_last_with_raw_bounds(w, raw);
        assert forall|j: int| 0 <= j < w.len() implies #[trigger] v[j].raw == w[j].raw by {}
    }
}

/// Every stored server that is fetched again keeps its id, last ping, star
/// and traffic; every fetched server no stored one matches is new.
pub proof fn lemma_merge_keeps_local_state(existing: Seq<NodeView>, fetched: Seq<NodeView>, i: int)
    requires
        0 <= i < fetched.len(),
    ensures
        ({
            let m = merged_list(existing, fetched)[i];
            match last_with_raw(existing, fetched[i].raw) {
                Some(k) => 0 <= k < existing.len() && existing[k].raw == fetched[i].raw && m.id
                    == existing[k].id && m.last_ping_ms == existing[k].last_ping_ms && m.favorite
                    == existing[k].favorite && m.total_up == existing[k].total_up && m.total_down
                    == existing[k].total_down,
                None => m == fetched[i],
            }
        }),
{
    lemma_last_with_raw_bounds(existing, fetched[i].raw);
}

/// Refreshing a list (whose raw links are distinct) with itself changes
/// nothing: same nodes, nothing added, nothing removed.
pub proof fn lemma_merge_self(v: Seq<NodeView>)
    requires
        forall|i: int, j: int| 0 <= i < j < v.len() ==> #[trigger] v[i].raw != #[trigger] v[j].raw,
    ensures
        merged_list(v, v) == v,
        count_new(v, v) == 0,
        count_gone(v, raws(v)) == 0,
{
    assert forall|i: int| 0 <= i < v.len() implies #[trigger] merged_entry(v, v[i]) == v[i] by {
        lemma_last_with_raw_bounds(v, v[i].raw);
        match last_with_raw(v, v[i].raw) {
            Some(k) => {
                if k != i {
                    if k < i {
                        assert(v[k].raw != v[i].raw);
                    } else {
                        assert(v[i].raw != v[k].raw);
                    }
                }
            },
            None => {},
        }
    }
    assert(merged_list(v, v) =~= v);
    assert forall|i: int| 0 <= i < v.len() implies v.contains(#[trigger] v[i]) by {}
    lemma_count_new_zero(v, v, v.len() as int);
    assert(v.subrange(0, v.len() as int) =~= v);
    lemma_count_gone_zero(v, raws(v), v.len() as int);
}

proof fn lemma_count_new_zero(existing: Seq<NodeView>, fetched: Seq<NodeView>, k: int)
    requires
        0 <= k <= fetched.len(),
        forall|i: int| 0 <= i < fetched.len() ==> existing.contains(#[trigger] fetched[i]),
    ensures
        count_new(existing, fetched.subrange(0, k)) == 0,
    decreases k,
{
    if k > 0 {
        assert(fetched.subrange(0, k).drop_last() =~= fetched.subrange(0, k - 1));
        lemma_count_new_zero(existing, fetched, k - 1);
        let x = fetched[k - 1];
        assert(existing.contains(x));
        let w = choose|w: int| 0 <= w < existing.len() && existing[w] == x;
        lemma_last_with_raw_bounds(existing, x.raw);
        assert(existing[w].raw == x.raw);
        assert(fetched.subrange(0, k).last() == x);
    }
}

proof fn lemma_count_gone_zero(existing: Seq<NodeView>, links: Seq<Seq<char>>, k: int)
    requires
        0 <= k <= existing.len(),
        links == raws(existing),
    ensures
        count_gone(existing.subrange(0, k), links) == 0,
    decreases k,
{
    if k > 0 {
        assert(existing.subrange(0, k).drop_last() =~= existing.subrange(0, k - 1));
        lemma_count_gone_zero(existing, links, k - 1);
        assert(links[k - 1] == existing[k - 1].raw);
        assert(links.contains(existing[k - 1].raw));
        assert(existing.subrange(0, k).last() == existing[k - 1]);
    }
}


// ---------------------------------------------------------------------------
// A fetched response
// ---------------------------------------------------------------------------

/// What a subscription fetch yields.
pub struct FetchedSubscription {
    pub servers: Vec<ProxyNode>,
    pub errors: Vec<String>,
    pub quota: Option<SubscriptionQuota>,
    /// From Content-Disposition: the panel's file name, in practice an
    /// account id; only a fallback for `title`.
    pub filename: Option<String>,
    /// From `Profile-Title`: the name the panel wants shown.
    pub title: Option<String>,
    /// From `Profile-Update-Interval`, in hours.
    pub update_interval_hours: Option<u32>,
    /// From `Support-Url`.
    pub support_url: Option<String>,
    /// From `Profile-Web-Page-Url`.
    pub web_page_url: Option<String>,
}

/// Identity headers for panels that enforce a per-device limit.
#[derive(Debug, Clone, Default)]
pub struct DeviceIdentity {
    pub hwid: String,
    pub os: String,
    pub os_version: String,
    pub model: String,
}

/// The values of the response headers the client reads, as sent.
pub struct ResponseHeaders {
    pub content_disposition: Option<String>,
    pub profile_title: Option<String>,
    pub update_interval: Option<String>,
    pub support_url: Option<String>,
    pub web_page_url: Option<String>,
    pub hwid_not_supported: Option<String>,
    pub hwid_max_devices: Option<String>,
}

/// The User-Agent to send: the configured one trimmed, or the default when
/// it is blank.
pub fn user_agent_for(configured: &str) -> (r: String)
    ensures
        r@ == (if trim(configured@).len() == 0 {
            DEFAULT_SUB_USER_AGENT@
        } else {
            trim(configured@)
        }),
{
    let t = trim_chars(&chars_of(configured));
    if t.len() == 0 {
        String::from_str(DEFAULT_SUB_USER_AGENT)
    } else {
        string_of(&t)
    }
}

/// A header value trimmed, when it is not blank.
pub open spec fn header_value(h: Option<Seq<char>>) -> Option<Seq<char>> {
    match h {
        Some(v) => nonempty(Some(trim(v))),
        None => None,
    }
}

fn header_value_exec(h: &Option<String>) -> (r: Option<Vec<char>>)
    ensures
        opt_chars(r) == header_value(crate::url_text::opt_text(*h)),
{
    match h {
        Some(v) => {
            let t = trim_chars(&chars_of(v.as_str()));
            if t.len() > 0 {
                Some(t)
            } else {
                None
            }
        },
        None => None,
    }
}

/// The title the panel wants shown, decoded.
pub open spec fn title_spec(h: Option<Seq<char>>) -> Option<Seq<char>> {
    match header_value(h) {
        Some(v) => header_text(v),
        None => None,
    }
}

/// The refresh interval in hours, when the header is a decimal `u32`.
pub open spec fn interval_spec(h: Option<Seq<char>>) -> Option<u32> {
    match header_value(h) {
        Some(v) => match crate::text::parse_unsigned(v, 4294967295) {
            Some(n) => Some(n as u32),
            None => None,
        },
        None => None,
    }
}

/// A link header, kept when it is an `http(s)` URL.
pub open spec fn link_spec(h: Option<Seq<char>>) -> Option<Seq<char>> {
    match header_value(h) {
        Some(v) => if is_http_url_spec(v) {
            Some(v)
        } else {
            None
        },
        None => None,
    }
}

fn link_exec(h: &Option<String>) -> (r: Option<String>)
    ensures
        crate::url_text::opt_text(r) == link_spec(crate::url_text::opt_text(*h)),
{
    match header_value_exec(h) {
        Some(v) => {
            let s = string_of(&v);
            if is_http_url(s.as_str()) {
                Some(s)
            } else {
                None
            }
        },
        None => None,
    }
}

/// Stand-ins are told apart without looking at ids.
pub proof fn lemma_real_servers_ids(v: Seq<NodeView>)
    ensures
        real_servers(ids_blank(v)) == ids_blank(real_servers(v)),
    decreases v.len(),
{
    if v.len() > 0 {
        lemma_real_servers_ids(v.drop_last());
        assert(ids_blank(v).drop_last() =~= ids_blank(v.drop_last()));
        let r = real_servers(v.drop_last());
        assert(ids_blank(r.push(v.last())) =~= ids_blank(r).push(without_id(v.last())));
    }
}

/// What `read_subscription` yields, servers' ids left blank: the body's
/// links parsed with the stand-ins dropped (`gate` explaining a list of
/// nothing but stand-ins), and the decoded headers.
pub open spec fn servers_spec(body: Seq<char>, gate: Option<ErrorView>) -> Result<
    (Seq<NodeView>, Seq<Seq<char>>),
    ErrorView,
> {
    match decode_body_spec(body) {
        Err(e) => Err(e),
        Ok(list) => match drop_placeholders_spec(parsed_nodes(link_tokens(words(list))), gate) {
            Err(e) => Err(e),
            Ok(kept) => Ok((kept, parse_errors(link_tokens(words(list))))),
        },
    }
}

pub open spec fn headers_gate(h: ResponseHeaders) -> Option<ErrorView> {
    gate_spec(
        crate::url_text::opt_text(h.hwid_max_devices),
        crate::url_text::opt_text(h.hwid_not_supported),
    )
}

/// Reads a successful subscription response: its headers (the quota
/// already read from `subscription-userinfo`) and its body.
pub fn read_subscription(headers: &ResponseHeaders, quota: Option<SubscriptionQuota>, body: &str) -> (r:
    AppResult<FetchedSubscription>)
    ensures
        match servers_spec(body@, headers_gate(*headers)) {
            Err(e) => r matches Err(x) && x@ == e,
            Ok((kept, errors)) => r matches Ok(f) && {
                &&& ids_blank(node_views(f.servers@)) == kept
                &&& strings_text(f.errors@) == errors
                &&& f.quota == quota
                &&& crate::url_text::opt_text(f.filename) == match headers.content_disposition {
                    Some(d) => disposition_name(d@),
                    None => None,
                }
                &&& crate::url_text::opt_text(f.title) == title_spec(
                    crate::url_text::opt_text(headers.profile_title),
                )
                &&& f.update_interval_hours == interval_spec(
                    crate::url_text::opt_text(headers.update_interval),
                )
                &&& crate::url_text::opt_text(f.support_url) == link_spec(
                    crate::url_text::opt_text(headers.support_url),
                )
                &&& crate::url_text::opt_text(f.web_page_url) == link_spec(
                    crate::url_text::opt_text(headers.web_page_url),
                )
            },
        },
{
    let max_devices = match &headers.hwid_max_devices {
        Some(v) => Some(v.as_str()),
        None => None,
    };
    let not_supported = match &headers.hwid_not_supported {
        Some(v) => Some(v.as_str()),
        None => None,
    };
    let gate = hwid_rejection(max_devices, not_supported);
    let filename = match &headers.content_disposition {
        Some(d) => filename_from_disposition(d.as_str()),
        None => None,
    };
    let title = match header_value_exec(&headers.profile_title) {
        Some(v) => decode_header_text(string_of(&v).as_str()),
        None => None,
    };
    let update_interval_hours = match header_value_exec(&headers.update_interval) {
        Some(v) => match crate::text::parse_unsigned_exec(&v, 4294967295) {
            Some(n) => Some(n as u32),
            None => None,
        },
        None => None,
    };
    let support_url = link_exec(&headers.support_url);
    let web_page_url = link_exec(&headers.web_page_url);
    let list = match decode_body(body) {
        Ok(l) => l,
        Err(e) => {
            return Err(e);
        },
    };
    let (parsed, errors) = crate::parser::parse_links(list.as_str());
    let ghost pv = node_views(parsed@);
    let servers = match drop_placeholders(parsed, gate) {
        Ok(s) => s,
        Err(e) => {
            proof {
                lemma_real_servers_ids(pv);
            }
            return Err(e);
        },
    };
    proof {
        lemma_real_servers_ids(pv);
    }
    Ok(
        FetchedSubscription {
            servers,
            errors,
            quota,
            filename,
            title,
            update_interval_hours,
            support_url,
            web_page_url,
        },
    )
}

} // verus!
