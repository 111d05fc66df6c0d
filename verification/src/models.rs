//! Data models persisted by the app and exchanged with the frontend.

use vstd::prelude::*;
use vstd::string::*;

verus! {

// ---------------------------------------------------------------------------
// Connection
// ---------------------------------------------------------------------------

#[derive(Debug, Clone, Copy, PartialEq, Eq, Structural)]
pub enum Mode {
    SystemProxy,
    Tun,
}

#[derive(Debug, Clone, Copy, PartialEq, Eq, Structural)]
pub enum RouteTarget {
    Proxy,
    Direct,
}

#[derive(Debug, Clone, Copy, PartialEq, Eq, Structural)]
pub enum AppRouteAction {
    Proxy,
    Direct,
    Block,
}

#[derive(Debug, Clone, PartialEq, Eq)]
pub struct AppRouteRule {
    pub id: String,
    pub process_name: String,
    pub action: AppRouteAction,
}

#[derive(Debug, Clone, Copy, PartialEq, Eq, Structural)]
pub enum RuleType {
    Process,
    Domain,
    IpCidr,
}

#[derive(Debug, Clone, Copy, PartialEq, Eq, Structural)]
pub enum ProcessMatcher {
    Name,
    Path,
}

#[derive(Debug, Clone, Copy, PartialEq, Eq, Structural)]
pub enum DomainMatcher {
    Suffix,
    Exact,
    Keyword,
    Regex,
}

/// Default of `RouteRule::enabled` when a stored rule omits it.
pub fn default_true() -> (r: bool)
    ensures
        r,
{
    true
}

#[derive(Debug, Clone, PartialEq, Eq)]
pub struct RouteRule {
    pub id: String,
    pub enabled: bool,
    pub rule_type: RuleType,
    pub value: String,
    pub process_matcher: Option<ProcessMatcher>,
    pub domain_matcher: Option<DomainMatcher>,
    pub action: AppRouteAction,
    pub description: Option<String>,
}

#[derive(Debug, Clone, PartialEq, Eq)]
pub struct RunningProcess {
    pub pid: u32,
    pub name: String,
    pub title: Option<String>,
    pub path: Option<String>,
}

#[derive(Debug, Clone, Copy, PartialEq, Eq, Structural)]
pub enum ConnStatus {
    Disconnected,
    Connecting,
    Connected,
    Stopping,
}

#[derive(Debug, Clone, PartialEq, Eq)]
pub struct ConnectionState {
    pub status: ConnStatus,
    pub server_id: Option<String>,
    /// Name of the server the tunnel is actually running against, taken when
    /// the connection was established; it outlives the profile entry.
    pub server_name: Option<String>,
    pub mode: Mode,
    pub since_ms: Option<i64>,
    pub error: Option<String>,
}

impl ConnectionState {
    pub fn disconnected(mode: Mode) -> (r: Self)
        ensures
            r.status == ConnStatus::Disconnected,
            r.server_id is None,
            r.server_name is None,
            r.mode == mode,
            r.since_ms is None,
            r.error is None,
    {
        ConnectionState {
            status: ConnStatus::Disconnected,
            server_id: None,
            server_name: None,
            mode,
            since_ms: None,
            error: None,
        }
    }
}

// ---------------------------------------------------------------------------
// Servers
// ---------------------------------------------------------------------------

#[derive(Debug, Clone, PartialEq, Eq)]
pub enum Transport {
    Tcp,
    Ws { path: String, host: String },
    Grpc { service_name: String },
    Httpupgrade { path: String, host: String },
}

pub enum TransportView {
    Tcp,
    Ws { path: Seq<char>, host: Seq<char> },
    Grpc { service_name: Seq<char> },
    Httpupgrade { path: Seq<char>, host: Seq<char> },
}

impl View for Transport {
    type V = TransportView;

    open spec fn view(&self) -> TransportView {
        match self {
            Transport::Tcp => TransportView::Tcp,
            Transport::Ws { path, host } => TransportView::Ws { path: path@, host: host@ },
            Transport::Grpc { service_name } => TransportView::Grpc {
                service_name: service_name@,
            },
            Transport::Httpupgrade { path, host } => TransportView::Httpupgrade {
                path: path@,
                host: host@,
            },
        }
    }
}

#[derive(Debug, Clone, Copy, PartialEq, Eq, Structural)]
pub enum Security {
    Reality,
    Tls,
    /// No TLS layer (`security=none`).
    Plain,
}

#[derive(Debug, Clone, PartialEq, Eq)]
pub enum Hysteria2Obfs {
    Salamander { password: String },
}

/// The Salamander password, when obfuscation is on.
pub open spec fn obfs_view(o: Option<Hysteria2Obfs>) -> Option<Seq<char>> {
    match o {
        Some(Hysteria2Obfs::Salamander { password }) => Some(password@),
        None => None,
    }
}

/// The texts of a list of strings.
pub open spec fn texts(v: Seq<String>) -> Seq<Seq<char>> {
    v.map_values(|s: String| s@)
}

#[derive(Debug, Clone, PartialEq, Eq)]
pub struct VlessNode {
    pub uuid: String,
    pub flow: String,
    pub security: Security,
    pub sni: String,
    pub fingerprint: String,
    pub public_key: String,
    pub short_id: String,
    pub insecure: bool,
    pub alpn: Vec<String>,
    pub transport: Transport,
}

pub struct VlessView {
    pub uuid: Seq<char>,
    pub flow: Seq<char>,
    pub security: Security,
    pub sni: Seq<char>,
    pub fingerprint: Seq<char>,
    pub public_key: Seq<char>,
    pub short_id: Seq<char>,
    pub insecure: bool,
    pub alpn: Seq<Seq<char>>,
    pub transport: TransportView,
}

impl View for VlessNode {
    type V = VlessView;

    open spec fn view(&self) -> VlessView {
        VlessView {
            uuid: self.uuid@,
            flow: self.flow@,
            security: self.security,
            sni: self.sni@,
            fingerprint: self.fingerprint@,
            public_key: self.public_key@,
            short_id: self.short_id@,
            insecure: self.insecure,
            alpn: texts(self.alpn@),
            transport: self.transport@,
        }
    }
}

#[derive(Debug, Clone, PartialEq, Eq)]
pub struct Hysteria2Node {
    pub password: String,
    pub obfs: Option<Hysteria2Obfs>,
    pub insecure: bool,
    pub sni: String,
    pub alpn: Vec<String>,
}

pub struct Hysteria2View {
    pub password: Seq<char>,
    /// The Salamander password, when obfuscation is on.
    pub obfs: Option<Seq<char>>,
    pub insecure: bool,
    pub sni: Seq<char>,
    pub alpn: Seq<Seq<char>>,
}

impl View for Hysteria2Node {
    type V = Hysteria2View;

    open spec fn view(&self) -> Hysteria2View {
        Hysteria2View {
            password: self.password@,
            obfs: obfs_view(self.obfs),
            insecure: self.insecure,
            sni: self.sni@,
            alpn: texts(self.alpn@),
        }
    }
}

#[derive(Debug, Clone, PartialEq, Eq)]
pub enum ProxyKind {
    Vless(VlessNode),
    Hysteria2(Hysteria2Node),
}

pub enum KindView {
    Vless(VlessView),
    Hysteria2(Hysteria2View),
}

impl View for ProxyKind {
    type V = KindView;

    open spec fn view(&self) -> KindView {
        match self {
            ProxyKind::Vless(v) => KindView::Vless(v@),
            ProxyKind::Hysteria2(h) => KindView::Hysteria2(h@),
        }
    }
}

#[derive(Debug, Clone, PartialEq, Eq)]
pub struct ProxyNode {
    pub id: String,
    pub name: String,
    pub server: String,
    pub port: u16,
    pub last_ping_ms: Option<u32>,
    pub favorite: bool,
    pub total_up: u64,
    pub total_down: u64,
    pub raw: String,
    pub kind: ProxyKind,
}

pub struct NodeView {
    pub id: Seq<char>,
    pub name: Seq<char>,
    pub server: Seq<char>,
    pub port: u16,
    pub last_ping_ms: Option<u32>,
    pub favorite: bool,
    pub total_up: u64,
    pub total_down: u64,
    pub raw: Seq<char>,
    pub kind: KindView,
}

impl View for ProxyNode {
    type V = NodeView;

    open spec fn view(&self) -> NodeView {
        NodeView {
            id: self.id@,
            name: self.name@,
            server: self.server@,
            port: self.port,
            last_ping_ms: self.last_ping_ms,
            favorite: self.favorite,
            total_up: self.total_up,
            total_down: self.total_down,
            raw: self.raw@,
            kind: self.kind@,
        }
    }
}

/// A node's view with its random id blanked out.
pub open spec fn without_id(n: NodeView) -> NodeView {
    NodeView { id: Seq::empty(), ..n }
}

pub type ServerEntry = ProxyNode;

/// The views of a list of nodes.
pub open spec fn node_views(v: Seq<ProxyNode>) -> Seq<NodeView> {
    v.map_values(|n: ProxyNode| n@)
}

// ---------------------------------------------------------------------------
// Subscriptions
// ---------------------------------------------------------------------------

#[derive(Debug, Clone, Copy, PartialEq, Eq, Structural)]
pub struct SubscriptionQuota {
    pub upload: u64,
    pub download: u64,
    pub total: u64,
    /// unix seconds, 0 = never
    pub expire: u64,
}

#[derive(Debug, Clone, PartialEq, Eq)]
pub struct Subscription {
    pub id: String,
    pub name: String,
    pub url: String,
    pub updated_at: Option<String>,
    pub quota: Option<SubscriptionQuota>,
    pub auto_update_hours: u32,
    /// `Support-Url` header: the provider's support contact.
    pub support_url: Option<String>,
    /// `Profile-Web-Page-Url` header: the provider's account page.
    pub web_page_url: Option<String>,
    /// The panel's own title (`Profile-Title`), kept so a later refresh can
    /// tell an auto-derived name from one the user typed.
    pub panel_title: Option<String>,
    pub servers: Vec<ProxyNode>,
}

/// A subscription with its texts as character sequences and its servers
/// by their views.
pub struct SubView {
    pub id: Seq<char>,
    pub name: Seq<char>,
    pub url: Seq<char>,
    pub updated_at: Option<Seq<char>>,
    pub quota: Option<SubscriptionQuota>,
    pub auto_update_hours: u32,
    pub support_url: Option<Seq<char>>,
    pub web_page_url: Option<Seq<char>>,
    pub panel_title: Option<Seq<char>>,
    pub servers: Seq<NodeView>,
}

impl View for Subscription {
    type V = SubView;

    open spec fn view(&self) -> SubView {
        SubView {
            id: self.id@,
            name: self.name@,
            url: self.url@,
            updated_at: crate::url_text::opt_text(self.updated_at),
            quota: self.quota,
            auto_update_hours: self.auto_update_hours,
            support_url: crate::url_text::opt_text(self.support_url),
            web_page_url: crate::url_text::opt_text(self.web_page_url),
            panel_title: crate::url_text::opt_text(self.panel_title),
            servers: node_views(self.servers@),
        }
    }
}

/// A copy of an optional string.
pub fn copy_opt(o: &Option<String>) -> (r: Option<String>)
    ensures
        crate::url_text::opt_text(r) == crate::url_text::opt_text(*o),
{
    match o {
        Some(s) => Some(s.clone()),
        None => None,
    }
}

/// A copy of a list of strings.
pub fn copy_strings(v: &Vec<String>) -> (r: Vec<String>)
    ensures
        texts(r@) == texts(v@),
{
    let mut r: Vec<String> = Vec::new();
    let mut i: usize = 0;
    while i < v.len()
        invariant
            i <= v@.len(),
            texts(r@) =~= texts(v@).take(i as int),
        decreases v.len() - i,
    {
        let ghost before = texts(r@);
        r.push(v[i].clone());
        assert(texts(r@) =~= before.push(v@[i as int]@));
        i += 1;
    }
    assert(texts(v@).take(v@.len() as int) =~= texts(v@));
    r
}

impl Transport {
    /// A copy with the same view.
    pub fn copy(&self) -> (r: Transport)
        ensures
            r@ == self@,
    {
        match self {
            Transport::Tcp => Transport::Tcp,
            Transport::Ws { path, host } => Transport::Ws { path: path.clone(), host: host.clone() },
            Transport::Grpc { service_name } => Transport::Grpc {
                service_name: service_name.clone(),
            },
            Transport::Httpupgrade { path, host } => Transport::Httpupgrade {
                path: path.clone(),
                host: host.clone(),
            },
        }
    }
}

impl ProxyNode {
    /// A copy with the same view.
    pub fn copy(&self) -> (r: ProxyNode)
        ensures
            r@ == self@,
    {
        let kind = match &self.kind {
            ProxyKind::Vless(v) => ProxyKind::Vless(
                VlessNode {
                    uuid: v.uuid.clone(),
                    flow: v.flow.clone(),
                    security: v.security,
                    sni: v.sni.clone(),
                    fingerprint: v.fingerprint.clone(),
                    public_key: v.public_key.clone(),
                    short_id: v.short_id.clone(),
                    insecure: v.insecure,
                    alpn: copy_strings(&v.alpn),
                    transport: v.transport.copy(),
                },
            ),
            ProxyKind::Hysteria2(h) => ProxyKind::Hysteria2(
                Hysteria2Node {
                    password: h.password.clone(),
                    obfs: match &h.obfs {
                        Some(Hysteria2Obfs::Salamander { password }) => Some(
                            Hysteria2Obfs::Salamander { password: password.clone() },
                        ),
                        None => None,
                    },
                    insecure: h.insecure,
                    sni: h.sni.clone(),
                    alpn: copy_strings(&h.alpn),
                },
            ),
        };
        ProxyNode {
            id: self.id.clone(),
            name: self.name.clone(),
            server: self.server.clone(),
            port: self.port,
            last_ping_ms: self.last_ping_ms,
            favorite: self.favorite,
            total_up: self.total_up,
            total_down: self.total_down,
            raw: self.raw.clone(),
            kind,
        }
    }
}

/// A copy of a list of servers.
pub fn copy_nodes(v: &Vec<ProxyNode>) -> (r: Vec<ProxyNode>)
    ensures
        node_views(r@) == node_views(v@),
{
    let mut r: Vec<ProxyNode> = Vec::new();
    let mut i: usize = 0;
    while i < v.len()
        invariant
            i <= v@.len(),
            node_views(r@) =~= node_views(v@).take(i as int),
        decreases v.len() - i,
    {
        let ghost before = node_views(r@);
        r.push(v[i].copy());
        assert(node_views(r@) =~= before.push(v@[i as int]@));
        i += 1;
    }
    assert(node_views(v@).take(v@.len() as int) =~= node_views(v@));
    r
}

impl Subscription {
    /// A copy with the same view.
    pub fn copy(&self) -> (r: Subscription)
        ensures
            r@ == self@,
    {
        Subscription {
            id: self.id.clone(),
            name: self.name.clone(),
            url: self.url.clone(),
            updated_at: copy_opt(&self.updated_at),
            quota: self.quota,
            auto_update_hours: self.auto_update_hours,
            support_url: copy_opt(&self.support_url),
            web_page_url: copy_opt(&self.web_page_url),
            panel_title: copy_opt(&self.panel_title),
            servers: copy_nodes(&self.servers),
        }
    }
}

#[derive(Debug, Clone, PartialEq, Eq)]
pub struct ProfileStore {
    pub version: u32,
    pub manual: Vec<ProxyNode>,
    pub subscriptions: Vec<Subscription>,
}

/// Version written into a fresh profile store.
pub fn default_store_version() -> (r: u32)
    ensures
        r == 2,
{
    2
}


impl Default for ProfileStore {
    fn default() -> (r: Self)
        ensures
            r.version == 2,
            r.manual@.len() == 0,
            r.subscriptions@.len() == 0,
    {
        ProfileStore { version: default_store_version(), manual: Vec::new(), subscriptions: Vec::new() }
    }
}

/// The servers of every subscription, one list after the other.
pub open spec fn sub_servers(subs: Seq<Subscription>) -> Seq<ProxyNode>
    decreases subs.len(),
{
    if subs.len() == 0 {
        Seq::empty()
    } else {
        sub_servers(subs.drop_last()) + subs.last().servers@
    }
}

/// Every server of the store: the manual ones, then each subscription's.
pub open spec fn store_servers(p: ProfileStore) -> Seq<ProxyNode> {
    p.manual@ + sub_servers(p.subscriptions@)
}

/// Where a server sits: `(-1, j)` for the `j`-th manual one, `(i, j)` for
/// the `j`-th of subscription `i`.
pub open spec fn server_at(p: ProfileStore, loc: (int, int)) -> ProxyNode {
    if loc.0 < 0 {
        p.manual@[loc.1]
    } else {
        p.subscriptions@[loc.0].servers@[loc.1]
    }
}

pub open spec fn valid_loc(p: ProfileStore, loc: (int, int)) -> bool {
    if loc.0 < 0 {
        loc.0 == -1 && 0 <= loc.1 < p.manual@.len()
    } else {
        loc.0 < p.subscriptions@.len() && 0 <= loc.1 < p.subscriptions@[loc.0].servers@.len()
    }
}

/// The first place (manual servers first, then each subscription's in
/// order) holding a server with the given id.
pub open spec fn locate(p: ProfileStore, id: Seq<char>) -> Option<(int, int)> {
    if exists|j: int| 0 <= j < p.manual@.len() && (#[trigger] p.manual@[j]).id@ == id {
        Some((-1, choose|j: int| 0 <= j < p.manual@.len() && p.manual@[j].id@ == id && forall|k: int| 0 <= k < j ==> (#[trigger] p.manual@[k]).id@ != id))
    } else if exists|i: int, j: int|
        0 <= i < p.subscriptions@.len() && 0 <= j < p.subscriptions@[i].servers@.len()
            && (#[trigger] p.subscriptions@[i].servers@[j]).id@ == id {
        Some(
            choose|i: int, j: int|
                0 <= i < p.subscriptions@.len() && 0 <= j < p.subscriptions@[i].servers@.len()
                    && p.subscriptions@[i].servers@[j].id@ == id && (forall|a: int, b: int|
                    0 <= a < i && 0 <= b < p.subscriptions@[a].servers@.len() ==> (
                    #[trigger] p.subscriptions@[a].servers@[b]).id@ != id) && (forall|b: int|
                    0 <= b < j ==> (#[trigger] p.subscriptions@[i].servers@[b]).id@ != id),
        )
    } else {
        None
    }
}

/// Whether some server of the store, manual or from a subscription, has
/// the id.
pub open spec fn has_server(p: ProfileStore, id: Seq<char>) -> bool {
    ||| exists|j: int| 0 <= j < p.manual@.len() && (#[trigger] p.manual@[j]).id@ == id
    ||| exists|i: int, j: int|
        0 <= i < p.subscriptions@.len() && 0 <= j < p.subscriptions@[i].servers@.len()
            && (#[trigger] p.subscriptions@[i].servers@[j]).id@ == id
}

/// The nodes behind a list of references.
pub open spec fn derefs(v: Seq<&ProxyNode>) -> Seq<ProxyNode> {
    v.map_values(|x: &ProxyNode| *x)
}

impl ProfileStore {
    /// Every server: the manual ones, then each subscription's in order.
    pub fn all_servers(&self) -> (r: Vec<&ProxyNode>)
        ensures
            derefs(r@) == store_servers(*self),
    {
        let mut r: Vec<&ProxyNode> = Vec::new();
        let mut j: usize = 0;
        while j < self.manual.len()
            invariant
                j <= self.manual@.len(),
                derefs(r@) == self.manual@.subrange(0, j as int),
            decreases self.manual.len() - j,
        {
            let ghost before = r@;
            let x = &self.manual[j];
            r.push(x);
            assert(r@ == before.push(x));
            assert(derefs(r@) =~= derefs(before).push(*x));
            j += 1;
            assert(derefs(r@) =~= self.manual@.subrange(0, j as int));
        }
        assert(self.manual@.subrange(0, self.manual@.len() as int) =~= self.manual@);
        let mut i: usize = 0;
        while i < self.subscriptions.len()
            invariant
                i <= self.subscriptions@.len(),
                derefs(r@) == self.manual@ + sub_servers(
                    self.subscriptions@.subrange(0, i as int),
                ),
            decreases self.subscriptions.len() - i,
        {
            let servers = &self.subscriptions[i].servers;
            let ghost base = derefs(r@);
            let mut k: usize = 0;
            while k < servers.len()
                invariant
                    k <= servers@.len(),
                    derefs(r@) == base + servers@.subrange(0, k as int),
                decreases servers.len() - k,
            {
                let ghost before = r@;
                let x = &servers[k];
                r.push(x);
                assert(r@ == before.push(x));
                assert(derefs(r@) =~= derefs(before).push(*x));
                k += 1;
                assert(derefs(r@) =~= base + servers@.subrange(0, k as int));
            }
            assert(servers@.subrange(0, servers@.len() as int) =~= servers@);
            assert(self.subscriptions@.subrange(0, i + 1 as int).drop_last() =~= self.subscriptions@.subrange(0, i as int));
            i += 1;
            assert(derefs(r@) =~= self.manual@ + sub_servers(
                self.subscriptions@.subrange(0, i as int),
            ));
        }
        assert(self.subscriptions@.subrange(0, self.subscriptions@.len() as int) =~= self.subscriptions@);
        r
    }

    fn locate_exec(&self, id: &str) -> (r: Option<(Option<usize>, usize)>)
        ensures
            match r {
                None => locate(*self, id@) is None,
                Some((si, j)) => locate(*self, id@) == Some((match si { Some(i) => i as int, None => -1int }, j as int))
                    && valid_loc(*self, (match si { Some(i) => i as int, None => -1int }, j as int))
                    && server_at(*self, (match si { Some(i) => i as int, None => -1int }, j as int)).id@ == id@,
            },
    {
        let k = String::from_str(id);
        let mut j: usize = 0;
        while j < self.manual.len()
            invariant
                j <= self.manual@.len(),
                k@ == id@,
                forall|m: int| 0 <= m < j ==> (#[trigger] self.manual@[m]).id@ != id@,
            decreases self.manual.len() - j,
        {
            if self.manual[j].id == k {
                proof {
                    let w = choose|w: int| 0 <= w < self.manual@.len() && self.manual@[w].id@ == id@ && forall|m: int| 0 <= m < w ==> (#[trigger] self.manual@[m]).id@ != id@;
                    assert(0 <= j < self.manual@.len() && self.manual@[j as int].id@ == id@);
                    if w < j {
                    } else if w > j {
                        assert(self.manual@[j as int].id@ != id@);
                    }
                }
                return Some((None, j));
            }
            j += 1;
        }
        let mut i: usize = 0;
        while i < self.subscriptions.len()
            invariant
                i <= self.subscriptions@.len(),
                k@ == id@,
                forall|m: int| 0 <= m < self.manual@.len() ==> (#[trigger] self.manual@[m]).id@ != id@,
                forall|a: int, b: int|
                    0 <= a < i && 0 <= b < self.subscriptions@[a].servers@.len() ==> (
                    #[trigger] self.subscriptions@[a].servers@[b]).id@ != id@,
            decreases self.subscriptions.len() - i,
        {
            let servers = &self.subscriptions[i].servers;
            let mut b: usize = 0;
            while b < servers.len()
                invariant
                    b <= servers@.len(),
                    i < self.subscriptions@.len(),
                    servers@ == self.subscriptions@[i as int].servers@,
                    k@ == id@,
                    forall|m: int| 0 <= m < self.manual@.len() ==> (#[trigger] self.manual@[m]).id@ != id@,
                    forall|a: int, c: int|
                        0 <= a < i && 0 <= c < self.subscriptions@[a].servers@.len() ==> (
                        #[trigger] self.subscriptions@[a].servers@[c]).id@ != id@,
                    forall|c: int| 0 <= c < b ==> (#[trigger] servers@[c]).id@ != id@,
                decreases servers.len() - b,
            {
                if servers[b].id == k {
                    proof {
                        let ii = i as int;
                        let bb = b as int;
                        let (wi, wj) = choose|wi: int, wj: int|
                            0 <= wi < self.subscriptions@.len() && 0 <= wj < self.subscriptions@[wi].servers@.len()
                                && self.subscriptions@[wi].servers@[wj].id@ == id@ && (forall|a: int, c: int|
                                0 <= a < wi && 0 <= c < self.subscriptions@[a].servers@.len() ==> (
                                #[trigger] self.subscriptions@[a].servers@[c]).id@ != id@) && (forall|c: int|
                                0 <= c < wj ==> (#[trigger] self.subscriptions@[wi].servers@[c]).id@ != id@);
                        assert(self.subscriptions@[ii].servers@[bb].id@ == id@);
                        if wi < ii {
                        } else if wi > ii {
                            assert(self.subscriptions@[ii].servers@[bb].id@ != id@);
                        } else if wj < bb {
                            assert(servers@[wj].id@ != id@);
                        } else if wj > bb {
                            assert(self.subscriptions@[wi].servers@[bb].id@ != id@);
                        }
                    }
                    return Some((Some(i), b));
                }
                b += 1;
            }
            i += 1;
        }
        None
    }

    /// The server with the given id, if any (the first one, manual servers
    /// first).
    pub fn find_server(&self, id: &str) -> (r: Option<&ProxyNode>)
        ensures
            match locate(*self, id@) {
                Some(loc) => r matches Some(x) && *x == server_at(*self, loc),
                None => r is None,
            },
            r matches Some(x) ==> x.id@ == id@,
            r is None <==> !has_server(*self, id@),
    {
        match self.locate_exec(id) {
            Some((None, j)) => Some(&self.manual[j]),
            Some((Some(i), j)) => Some(&self.subscriptions[i].servers[j]),
            None => None,
        }
    }
}


/// `after` is `before` with the server at `loc` replaced by `n`.
pub open spec fn replaced_at(before: ProfileStore, after: ProfileStore, loc: (int, int), n: ProxyNode) -> bool {
    &&& after.version == before.version
    &&& if loc.0 < 0 {
        &&& after.manual@ == before.manual@.update(loc.1, n)
        &&& after.subscriptions@ == before.subscriptions@
    } else {
        &&& after.manual@ == before.manual@
        &&& after.subscriptions@.len() == before.subscriptions@.len()
        &&& forall|k: int| 0 <= k < before.subscriptions@.len() && k != loc.0
            ==> #[trigger] after.subscriptions@[k] == before.subscriptions@[k]
        &&& {
            let a = after.subscriptions@[loc.0];
            let b = before.subscriptions@[loc.0];
            &&& a.servers@ == b.servers@.update(loc.1, n)
            &&& a.id == b.id
            &&& a.name == b.name
            &&& a.url == b.url
            &&& a.updated_at == b.updated_at
            &&& a.quota == b.quota
            &&& a.auto_update_hours == b.auto_update_hours
            &&& a.support_url == b.support_url
            &&& a.web_page_url == b.web_page_url
            &&& a.panel_title == b.panel_title
        }
    }
}

impl ProfileStore {
    /// The server with the given id (the first one, manual servers first),
    /// to change in place.
    pub fn find_server_mut(&mut self, id: &str) -> (r: Option<&mut ProxyNode>)
        ensures
            match locate(*old(self), id@) {
                Some(loc) => r matches Some(x) && *x == server_at(*old(self), loc) && replaced_at(
                    *old(self),
                    *final(self),
                    loc,
                    *final(x),
                ),
                None => r is None && *final(self) == *old(self),
            },
            r matches Some(x) ==> x.id@ == id@,
            r is None <==> !has_server(*old(self), id@),
    {
        match self.locate_exec(id) {
            Some((None, j)) => Some(&mut self.manual[j]),
            Some((Some(i), j)) => Some(&mut self.subscriptions[i].servers[j]),
            None => None,
        }
    }
}


// ---------------------------------------------------------------------------
// Settings
// ---------------------------------------------------------------------------

/// The system proxy settings found before this app changed them.
#[derive(Debug, Clone, PartialEq, Eq)]
pub struct ProxyBackup {
    pub enable: u32,
    pub server: Option<String>,
    pub bypass_list: Option<String>,
}

impl Default for ProxyBackup {
    fn default() -> (r: Self)
        ensures
            r.enable == 0,
            r.server is None,
            r.bypass_list is None,
    {
        ProxyBackup { enable: 0, server: None, bypass_list: None }
    }
}

#[derive(Debug, Clone, Copy, PartialEq, Eq, Structural)]
pub enum IpStrategy {
    Ipv4Only,
    PreferIpv4,
    PreferIpv6,
    Ipv6Only,
}

impl IpStrategy {
    /// The name sing-box uses for the strategy.
    pub fn as_str(&self) -> (r: &'static str)
        ensures
            r@ == match *self {
                IpStrategy::Ipv4Only => "ipv4_only"@,
                IpStrategy::PreferIpv4 => "prefer_ipv4"@,
                IpStrategy::PreferIpv6 => "prefer_ipv6"@,
                IpStrategy::Ipv6Only => "ipv6_only"@,
            },
    {
        match self {
            IpStrategy::Ipv4Only => "ipv4_only",
            IpStrategy::PreferIpv4 => "prefer_ipv4",
            IpStrategy::PreferIpv6 => "prefer_ipv6",
            IpStrategy::Ipv6Only => "ipv6_only",
        }
    }
}

#[derive(Debug, Clone)]
pub struct Settings {
    pub version: u32,
    pub language: String,
    pub accent: String,
    pub mode: Mode,
    pub mixed_port: u16,
    pub selected_server_id: Option<String>,
    pub autostart: bool,
    pub start_minimized: bool,
    pub minimize_to_tray: bool,
    pub connect_on_startup: bool,
    pub log_level: String,
    pub bypass_ru: bool,
    /// Fallback for traffic that matched no application or geo rule.
    pub route_default: RouteTarget,
    /// Legacy per-process split-tunnelling rules.
    pub app_routes: Vec<AppRouteRule>,
    /// Per-application / domain / IP-CIDR routing rules.
    pub routing_rules: Vec<RouteRule>,
    pub tun_stack: String,
    pub tun_strict_route: bool,
    pub tun_mtu: u32,
    /// Route only Discord's UDP voice traffic directly.
    pub discord_voice_direct: bool,
    pub ip_strategy: IpStrategy,
    pub ping_url: String,
    pub reduce_motion: bool,
    /// Server-list ordering: "default", "ping" or "name".
    pub server_sort: String,
    /// Group keys the user collapsed on the Servers page.
    pub collapsed_groups: Vec<String>,
    pub github_mirror: String,
    /// User-Agent used when fetching subscriptions.
    pub sub_user_agent: String,
    /// Send the device-identity headers to panels that limit devices.
    pub send_hwid: bool,
    /// Cached hardware id; regenerated when empty.
    pub hwid: String,
    /// Set while this app owns the system proxy settings.
    pub proxy_owned: bool,
    pub proxy_backup: ProxyBackup,
}

impl Default for Settings {
    fn default() -> (r: Self)
        ensures
            r.version == 1,
            r.language@ == "ru"@,
            r.accent@ == "violet"@,
            r.mode == Mode::SystemProxy,
            r.mixed_port == 2080,
            r.selected_server_id is None,
            !r.autostart,
            !r.start_minimized,
            r.minimize_to_tray,
            !r.connect_on_startup,
            r.log_level@ == "info"@,
            !r.bypass_ru,
            r.route_default == RouteTarget::Proxy,
            r.app_routes@.len() == 0,
            r.routing_rules@.len() == 0,
            r.tun_stack@ == "mixed"@,
            r.tun_strict_route,
            r.tun_mtu == 9000,
            r.discord_voice_direct,
            r.ip_strategy == IpStrategy::Ipv4Only,
            r.ping_url@ == "https://www.gstatic.com/generate_204"@,
            !r.reduce_motion,
            r.server_sort@ == "default"@,
            r.collapsed_groups@.len() == 0,
            r.github_mirror@.len() == 0,
            r.sub_user_agent@ == crate::subscription::DEFAULT_SUB_USER_AGENT@,
            r.send_hwid,
            r.hwid@.len() == 0,
            !r.proxy_owned,
            r.proxy_backup.enable == 0,
            r.proxy_backup.server is None,
            r.proxy_backup.bypass_list is None,
    {
        Settings {
            version: 1,
            language: String::from_str("ru"),
            accent: String::from_str("violet"),
            mode: Mode::SystemProxy,
            mixed_port: 2080,
            selected_server_id: None,
            autostart: false,
            start_minimized: false,
            minimize_to_tray: true,
            connect_on_startup: false,
            log_level: String::from_str("info"),
            bypass_ru: false,
            route_default: RouteTarget::Proxy,
            app_routes: Vec::new(),
            routing_rules: Vec::new(),
            tun_stack: String::from_str("mixed"),
            tun_strict_route: true,
            tun_mtu: 9000,
            discord_voice_direct: true,
            ip_strategy: IpStrategy::Ipv4Only,
            ping_url: String::from_str("https://www.gstatic.com/generate_204"),
            reduce_motion: false,
            server_sort: String::from_str("default"),
            collapsed_groups: Vec::new(),
            github_mirror: String::new(),
            sub_user_agent: String::from_str(crate::subscription::DEFAULT_SUB_USER_AGENT),
            send_hwid: true,
            hwid: String::new(),
            proxy_owned: false,
            proxy_backup: ProxyBackup::default(),
        }
    }
}

/// A legacy per-process route as a routing rule: enabled, matching the
/// process by name, with the same id and action.
pub open spec fn migrated_rule(ar: AppRouteRule) -> RouteRule {
    RouteRule {
        id: ar.id,
        enabled: true,
        rule_type: RuleType::Process,
        value: ar.process_name,
        process_matcher: Some(ProcessMatcher::Name),
        domain_matcher: None,
        action: ar.action,
        description: None,
    }
}

/// The routing rules after normalization: the legacy routes migrated when
/// there are no rules yet, the rules as they are otherwise.
pub open spec fn normalized_rules(rules: Seq<RouteRule>, app_routes: Seq<AppRouteRule>) -> Seq<RouteRule> {
    if rules.len() == 0 && app_routes.len() > 0 {
        app_routes.map_values(|ar: AppRouteRule| migrated_rule(ar))
    } else {
        rules
    }
}

/// Everything but the routing rules is the same.
pub open spec fn same_but_rules(a: Settings, b: Settings) -> bool {
    &&& a.version == b.version
    &&& a.language == b.language
    &&& a.accent == b.accent
    &&& a.mode == b.mode
    &&& a.mixed_port == b.mixed_port
    &&& a.selected_server_id == b.selected_server_id
    &&& a.autostart == b.autostart
    &&& a.start_minimized == b.start_minimized
    &&& a.minimize_to_tray == b.minimize_to_tray
    &&& a.connect_on_startup == b.connect_on_startup
    &&& a.log_level == b.log_level
    &&& a.bypass_ru == b.bypass_ru
    &&& a.route_default == b.route_default
    &&& a.app_routes == b.app_routes
    &&& a.tun_stack == b.tun_stack
    &&& a.tun_strict_route == b.tun_strict_route
    &&& a.tun_mtu == b.tun_mtu
    &&& a.discord_voice_direct == b.discord_voice_direct
    &&& a.ip_strategy == b.ip_strategy
    &&& a.ping_url == b.ping_url
    &&& a.reduce_motion == b.reduce_motion
    &&& a.server_sort == b.server_sort
    &&& a.collapsed_groups == b.collapsed_groups
    &&& a.github_mirror == b.github_mirror
    &&& a.sub_user_agent == b.sub_user_agent
    &&& a.send_hwid == b.send_hwid
    &&& a.hwid == b.hwid
    &&& a.proxy_owned == b.proxy_owned
    &&& a.proxy_backup == b.proxy_backup
}

impl Settings {
    /// Migrates the legacy per-process routes into routing rules when no
    /// routing rule exists yet.
    pub fn normalize(&mut self)
        ensures
            final(self).routing_rules@ == normalized_rules(old(self).routing_rules@, old(self).app_routes@),
            same_but_rules(*final(self), *old(self)),
    {
        if self.routing_rules.len() == 0 && self.app_routes.len() > 0 {
            let mut rules: Vec<RouteRule> = Vec::new();
            let mut i: usize = 0;
            while i < self.app_routes.len()
                invariant
                    i <= self.app_routes@.len(),
                    rules@ == self.app_routes@.subrange(0, i as int).map_values(
                        |ar: AppRouteRule| migrated_rule(ar),
                    ),
                decreases self.app_routes.len() - i,
            {
                let ar = &self.app_routes[i];
                rules.push(
                    RouteRule {
                        id: ar.id.clone(),
                        enabled: true,
                        rule_type: RuleType::Process,
                        value: ar.process_name.clone(),
                        process_matcher: Some(ProcessMatcher::Name),
                        domain_matcher: None,
                        action: ar.action,
                        description: None,
                    },
                );
                i += 1;
                assert(rules@ =~= self.app_routes@.subrange(0, i as int).map_values(
                    |ar: AppRouteRule| migrated_rule(ar),
                ));
            }
            assert(self.app_routes@.subrange(0, self.app_routes@.len() as int) =~= self.app_routes@);
            self.routing_rules = rules;
        }
    }
}

/// Normalizing twice is normalizing once.
pub proof fn lemma_normalize_idempotent(rules: Seq<RouteRule>, app_routes: Seq<AppRouteRule>)
    ensures
        normalized_rules(normalized_rules(rules, app_routes), app_routes) == normalized_rules(
            rules,
            app_routes,
        ),
{
}

// ---------------------------------------------------------------------------
// Core status and command results
// ---------------------------------------------------------------------------

#[derive(Debug, Clone)]
pub struct CoreStatus {
    pub installed: bool,
    pub version: Option<String>,
    pub path: String,
}

#[derive(Debug, Clone)]
pub struct UpdateCheck {
    pub current: Option<String>,
    pub latest: String,
    pub update_available: bool,
}

#[derive(Debug, Clone)]
pub struct ImportResult {
    pub added: usize,
    pub errors: Vec<String>,
}

#[derive(Debug, Clone)]
pub struct ServersList {
    pub manual: Vec<ProxyNode>,
    pub subscriptions: Vec<Subscription>,
}

} // verus!
