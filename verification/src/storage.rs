//! Where settings and profiles are stored, and how a stored profile store of
//! an older layout becomes the current one. Reading and writing the files
//! is the caller's; what is decided about their contents is here.

use vstd::prelude::*;
use vstd::string::*;

use crate::error::{AppError, ErrorView};
use crate::json::{as_u64, get, jget, json_bytes, ju64, parse_json_bytes, Json};
use crate::models::{
    copy_strings, node_views, texts, KindView, NodeView, ProfileStore, ProxyKind, ProxyNode,
    Security, SubView, Subscription, SubscriptionQuota, Transport, TransportView, VlessNode,
    VlessView,
};
use crate::singbox::version::{join_path, lemma_plain_names, may_be_verbatim, path_joined};
use crate::text::{
    chars_of, copy_range, decimal, decimal_exec, ends_with, push_all, push_str, string_of,
};
use crate::url_text::opt_text;

verus! {

/// File name of the settings, inside the data directory.
pub const SETTINGS_FILE: &'static str = "settings.json";

/// File name of the profile store, inside the data directory.
pub const PROFILES_FILE: &'static str = "profiles.json";

/// The settings file of a data directory: the directory joined with
/// `settings.json`.
pub fn settings_path(data_dir: &str) -> (r: String)
    ensures
        ends_with(r@, "settings.json"@),
        !may_be_verbatim(data_dir@) ==> path_joined(data_dir@, "settings.json"@, r@),
{
    proof {
        lemma_plain_names();
        reveal_strlit("settings.json");
        assert(SETTINGS_FILE@ == "settings.json"@);
    }
    join_path(data_dir, SETTINGS_FILE)
}

/// The profile store file of a data directory: the directory joined with
/// `profiles.json`.
pub fn profiles_path(data_dir: &str) -> (r: String)
    ensures
        ends_with(r@, "profiles.json"@),
        !may_be_verbatim(data_dir@) ==> path_joined(data_dir@, "profiles.json"@, r@),
{
    proof {
        lemma_plain_names();
        reveal_strlit("profiles.json");
        assert(PROFILES_FILE@ == "profiles.json"@);
    }
    join_path(data_dir, PROFILES_FILE)
}

// ---------------------------------------------------------------------------
// Layout versions
// ---------------------------------------------------------------------------

/// The layout version a stored document declares: its `version` member as
/// an integer (cut to 32 bits), 1 when it has none.
pub open spec fn declared_version(doc: Json) -> u32 {
    match ju64(jget(Some(doc), "version"@)) {
        Some(v) => (v % 0x1_0000_0000) as u32,
        None => 1,
    }
}

/// The layout version a stored document declares.
pub fn stored_version(doc: &Json) -> (r: u32)
    ensures
        r == declared_version(*doc),
{
    match as_u64(get(Some(doc), "version")) {
        Some(v) => (v % 0x1_0000_0000) as u32,
        None => 1,
    }
}

/// What loading a stored profile store of a given layout version does.
#[derive(Debug, Clone, Copy, PartialEq, Eq, Structural)]
pub enum LoadPlan {
    /// The current layout: read it as it is.
    Current,
    /// The first layout: read it, back it up, convert it and save the result.
    Migrate,
    /// A layout from a later release: refuse it and leave the file alone.
    Refuse,
}

/// What to do with a store of the given layout version: versions above 2
/// are refused, 2 is read as it is, anything lower is migrated.
pub fn load_plan(version: u32) -> (r: LoadPlan)
    ensures
        version > 2 ==> r == LoadPlan::Refuse,
        version == 2 ==> r == LoadPlan::Current,
        version < 2 ==> r == LoadPlan::Migrate,
{
    if version > 2 {
        LoadPlan::Refuse
    } else if version == 2 {
        LoadPlan::Current
    } else {
        LoadPlan::Migrate
    }
}

/// The plan `load_plan` picks for a layout version.
pub open spec fn plan_for(version: u32) -> LoadPlan {
    if version > 2 {
        LoadPlan::Refuse
    } else if version == 2 {
        LoadPlan::Current
    } else {
        LoadPlan::Migrate
    }
}

/// Reads the bytes of a stored profile store as JSON (`json_bytes`) and
/// decides what to do with it: the parser's error text when they are not
/// JSON, else the plan for the layout version the document declares,
/// together with the document.
pub fn plan_store_load(bytes: &[u8]) -> (r: Result<(LoadPlan, Json), String>)
    ensures
        match json_bytes(bytes@) {
            Err(e) => r matches Err(x) && x@ == e,
            Ok(d) => r matches Ok(p) && p.1@ == d && p.0 == plan_for(declared_version(p.1)),
        },
{
    match parse_json_bytes(bytes) {
        Err(e) => Err(e),
        Ok(doc) => {
            let plan = load_plan(stored_version(&doc));
            Ok((plan, doc))
        },
    }
}

/// The error for a store written by a later release.
pub fn future_version_error(version: u32, path: &str) -> (e: AppError)
    ensures
        e@ == ErrorView::Internal(
            "[umbra] unknown ProfileStore version "@ + decimal(version as nat) + " in "@ + path@,
        ),
{
    let mut msg: Vec<char> = Vec::new();
    push_str(&mut msg, "[umbra] unknown ProfileStore version ");
    push_all(&mut msg, &decimal_exec(version as u64));
    push_str(&mut msg, " in ");
    push_str(&mut msg, path);
    AppError::Internal(string_of(&msg))
}

/// `s` without the suffix `suffix`, when it ends with it.
pub open spec fn strip_suffix(s: Seq<char>, suffix: Seq<char>) -> Seq<char> {
    if ends_with(s, suffix) {
        s.subrange(0, s.len() - suffix.len())
    } else {
        s
    }
}

/// The name of a timestamped backup of a damaged file:
/// `<stem>.<tag>.<secs>.json`, the stem being the file name without
/// `.json` (`profiles` when the path has no readable file name).
pub open spec fn backup_name_spec(file_name: Option<Seq<char>>, tag: Seq<char>, secs: u64) -> Seq<char> {
    let name = match file_name {
        Some(n) => n,
        None => "profiles.json"@,
    };
    strip_suffix(name, ".json"@) + "."@ + tag + "."@ + decimal(secs as nat) + ".json"@
}

/// The name of a timestamped backup (see `backup_name_spec`).
pub fn backup_name(file_name: Option<&str>, tag: &str, secs: u64) -> (r: String)
    ensures
        r@ == backup_name_spec(
            match file_name {
                Some(n) => Some(n@),
                None => None,
            },
            tag@,
            secs,
        ),
{
    let name = match file_name {
        Some(n) => chars_of(n),
        None => chars_of("profiles.json"),
    };
    let stem = if crate::text::ends_with_str(&name, ".json") {
        proof {
            reveal_strlit(".json");
        }
        copy_range(&name, 0, name.len() - 5)
    } else {
        name
    };
    let mut r = stem;
    push_str(&mut r, ".");
    push_str(&mut r, tag);
    push_str(&mut r, ".");
    push_all(&mut r, &decimal_exec(secs));
    push_str(&mut r, ".json");
    string_of(&r)
}

// ---------------------------------------------------------------------------
// The first layout
// ---------------------------------------------------------------------------

/// A server as the first layout stored it: always VLESS, its fields flat.
#[derive(Debug, Clone)]
pub struct ProxyNodeV1 {
    pub id: String,
    pub name: String,
    pub protocol: String,
    pub server: String,
    pub port: u16,
    pub uuid: String,
    pub flow: String,
    pub security: Security,
    pub sni: String,
    pub fingerprint: String,
    pub public_key: String,
    pub short_id: String,
    pub insecure: bool,
    pub alpn: Vec<String>,
    pub transport: Transport,
    pub last_ping_ms: Option<u32>,
    pub favorite: bool,
    pub total_up: u64,
    pub total_down: u64,
    pub raw: String,
}

/// A subscription as the first layout stored it.
#[derive(Debug, Clone)]
pub struct SubscriptionV1 {
    pub id: String,
    pub name: String,
    pub url: String,
    pub updated_at: Option<String>,
    pub quota: Option<SubscriptionQuota>,
    pub auto_update_hours: u32,
    pub support_url: Option<String>,
    pub web_page_url: Option<String>,
    pub panel_title: Option<String>,
    pub servers: Vec<ProxyNodeV1>,
}

/// The profile store as the first layout stored it.
#[derive(Debug, Clone)]
pub struct ProfileStoreV1 {
    pub version: u32,
    pub manual: Vec<ProxyNodeV1>,
    pub subscriptions: Vec<SubscriptionV1>,
}

/// A first-layout server in the current layout: the same server, its
/// connection fields under the VLESS kind.
pub open spec fn converted(v: ProxyNodeV1) -> NodeView {
    NodeView {
        id: v.id@,
        name: v.name@,
        server: v.server@,
        port: v.port,
        last_ping_ms: v.last_ping_ms,
        favorite: v.favorite,
        total_up: v.total_up,
        total_down: v.total_down,
        raw: v.raw@,
        kind: KindView::Vless(
            VlessView {
                uuid: v.uuid@,
                flow: v.flow@,
                security: v.security,
                sni: v.sni@,
                fingerprint: v.fingerprint@,
                public_key: v.public_key@,
                short_id: v.short_id@,
                insecure: v.insecure,
                alpn: texts(v.alpn@),
                transport: v.transport@,
            },
        ),
    }
}

/// Converts a first-layout server (see `converted`).
pub fn convert_v1_node(v1: ProxyNodeV1) -> (r: ProxyNode)
    ensures
        r@ == converted(v1),
{
    ProxyNode {
        id: v1.id,
        name: v1.name,
        server: v1.server,
        port: v1.port,
        last_ping_ms: v1.last_ping_ms,
        favorite: v1.favorite,
        total_up: v1.total_up,
        total_down: v1.total_down,
        raw: v1.raw,
        kind: ProxyKind::Vless(
            VlessNode {
                uuid: v1.uuid,
                flow: v1.flow,
                security: v1.security,
                sni: v1.sni,
                fingerprint: v1.fingerprint,
                public_key: v1.public_key,
                short_id: v1.short_id,
                insecure: v1.insecure,
                alpn: v1.alpn,
                transport: v1.transport,
            },
        ),
    }
}

/// Converts a list of first-layout servers, in order.
pub fn convert_v1_nodes(v: Vec<ProxyNodeV1>) -> (r: Vec<ProxyNode>)
    ensures
        node_views(r@) == Seq::new(v@.len(), |i: int| converted(v@[i])),
{
    let ghost orig = v@;
    let total = v.len();
    let mut rest = v;
    let mut r: Vec<ProxyNode> = Vec::new();
    let mut i: usize = 0;
    while rest.len() > 0
        invariant
            i + rest@.len() == orig.len(),
            orig.len() == total,
            rest@ =~= orig.subrange(i as int, orig.len() as int),
            node_views(r@) =~= Seq::new(i as nat, |k: int| converted(orig[k])),
        decreases rest.len(),
    {
        let ghost before = node_views(r@);
        let n = rest.remove(0);
        assert(n == orig[i as int]);
        r.push(convert_v1_node(n));
        assert(node_views(r@) =~= before.push(converted(orig[i as int])));
        i += 1;
    }
    r
}

/// A first-layout subscription in the current layout: the same metadata,
/// its servers converted.
pub open spec fn converted_sub(s: SubscriptionV1) -> SubView {
    SubView {
        id: s.id@,
        name: s.name@,
        url: s.url@,
        updated_at: opt_text(s.updated_at),
        quota: s.quota,
        auto_update_hours: s.auto_update_hours,
        support_url: opt_text(s.support_url),
        web_page_url: opt_text(s.web_page_url),
        panel_title: opt_text(s.panel_title),
        servers: Seq::new(s.servers@.len(), |i: int| converted(s.servers@[i])),
    }
}

/// Converts a first-layout subscription (see `converted_sub`).
pub fn convert_v1_subscription(s: SubscriptionV1) -> (r: Subscription)
    ensures
        r@ == converted_sub(s),
{
    Subscription {
        id: s.id,
        name: s.name,
        url: s.url,
        updated_at: s.updated_at,
        quota: s.quota,
        auto_update_hours: s.auto_update_hours,
        support_url: s.support_url,
        web_page_url: s.web_page_url,
        panel_title: s.panel_title,
        servers: convert_v1_nodes(s.servers),
    }
}

/// A first-layout store in the current layout: version 2, every server and
/// subscription converted, in order.
pub fn migrate_v1(v1: ProfileStoreV1) -> (r: ProfileStore)
    ensures
        r.version == 2,
        node_views(r.manual@) == Seq::new(v1.manual@.len(), |i: int| converted(v1.manual@[i])),
        r.subscriptions@.len() == v1.subscriptions@.len(),
        forall|i: int|
            0 <= i < v1.subscriptions@.len() ==> #[trigger] r.subscriptions@[i]@ == converted_sub(
                v1.subscriptions@[i],
            ),
{
    let manual = convert_v1_nodes(v1.manual);
    let ghost orig = v1.subscriptions@;
    let total = v1.subscriptions.len();
    let mut rest = v1.subscriptions;
    let mut subs: Vec<Subscription> = Vec::new();
    let mut i: usize = 0;
    while rest.len() > 0
        invariant
            i + rest@.len() == orig.len(),
            orig.len() == total,
            rest@ =~= orig.subrange(i as int, orig.len() as int),
            subs@.len() == i,
            forall|k: int| 0 <= k < i ==> #[trigger] subs@[k]@ == converted_sub(orig[k]),
        decreases rest.len(),
    {
        let s = rest.remove(0);
        assert(s == orig[i as int]);
        subs.push(convert_v1_subscription(s));
        i += 1;
    }
    ProfileStore { version: 2, manual, subscriptions: subs }
}

} // verus!
