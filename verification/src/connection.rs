//! The decisions behind the connection commands: which ports to try for the
//! control api, the control api's secret, whether a connect or a mode switch
//! may go ahead, and what a url test or a live server switch talks to.

use vstd::prelude::*;
use vstd::string::*;

use crate::error::{AppError, AppResult, ErrorView};
use crate::hwid::{hex_lower, hex_prefix, lemma_hex_len};
use crate::ids::random_bytes;
use crate::models::{
    locate, server_at, ConnStatus, ConnectionState, Mode, ProfileStore, ProxyNode,
};
use crate::url_text::opt_text;
use crate::singbox::config::{last_value, pair_texts, GeneratedConfig};
use crate::subscription::opt_str;
use crate::text::{push_str, string_of};

verus! {

/// First port tried for the control api.
pub const CLASH_PORT_START: u16 = 9095;

/// How many ports from the start are tried.
pub const PORT_ATTEMPTS: u16 = 200;

// ---------------------------------------------------------------------------
// Control api coordinates
// ---------------------------------------------------------------------------

/// The ports tried for the control api, in order: `start`, `start + 1`, ...
/// for `n` steps, stopping at the end of the port range and skipping
/// `avoid`.
pub open spec fn port_candidates_spec(start: u16, avoid: Option<u16>, n: nat) -> Seq<u16>
    decreases n,
{
    if n == 0 {
        Seq::empty()
    } else {
        let before = port_candidates_spec(start, avoid, (n - 1) as nat);
        let p = start + (n - 1);
        if p > u16::MAX {
            before
        } else if avoid == Some(p as u16) {
            before
        } else {
            before.push(p as u16)
        }
    }
}

/// The ports tried for the control api, in order.
pub fn port_candidates(start: u16, avoid: Option<u16>) -> (r: Vec<u16>)
    ensures
        r@ == port_candidates_spec(start, avoid, PORT_ATTEMPTS as nat),
{
    let mut r: Vec<u16> = Vec::new();
    let mut offset: u16 = 0;
    while offset < PORT_ATTEMPTS
        invariant
            offset <= PORT_ATTEMPTS,
            r@ == port_candidates_spec(start, avoid, offset as nat),
        decreases PORT_ATTEMPTS - offset,
    {
        match start.checked_add(offset) {
            None => {
                proof {
                    lemma_candidates_past_end(start, avoid, offset as nat, PORT_ATTEMPTS as nat);
                }
                return r;
            },
            Some(port) => {
                if avoid != Some(port) {
                    r.push(port);
                }
            },
        }
        offset += 1;
    }
    r
}

proof fn lemma_candidates_past_end(start: u16, avoid: Option<u16>, k: nat, n: nat)
    requires
        start + k > u16::MAX,
        k <= n,
    ensures
        port_candidates_spec(start, avoid, n) == port_candidates_spec(start, avoid, k),
    decreases n - k,
{
    if n > k {
        lemma_candidates_past_end(start, avoid, k, (n - 1) as nat);
    }
}

/// The ports tried rise strictly from `start`, stay within the attempts
/// window, and never include the avoided port.
pub proof fn lemma_port_candidates(start: u16, avoid: Option<u16>, n: nat)
    ensures
        forall|i: int|
            0 <= i < port_candidates_spec(start, avoid, n).len() ==> {
                let p = #[trigger] port_candidates_spec(start, avoid, n)[i];
                &&& start <= p < start + n
                &&& avoid != Some(p)
            },
        forall|i: int, j: int|
            0 <= i < j < port_candidates_spec(start, avoid, n).len() ==> port_candidates_spec(
                start,
                avoid,
                n,
            )[i] < port_candidates_spec(start, avoid, n)[j],
    decreases n,
{
    if n > 0 {
        lemma_port_candidates(start, avoid, (n - 1) as nat);
        let before = port_candidates_spec(start, avoid, (n - 1) as nat);
        let now = port_candidates_spec(start, avoid, n);
        assert forall|i: int| 0 <= i < before.len() implies now[i] == before[i] by {
            if now.len() > before.len() {
                assert(now =~= before.push(now.last()));
            }
        }
        assert forall|i: int| 0 <= i < now.len() implies ({
            let p = #[trigger] now[i];
            &&& start <= p < start + n
            &&& avoid != Some(p)
        }) by {
            if i < before.len() {
                assert(now[i] == before[i]);
            }
        }
        assert forall|i: int, j: int| 0 <= i < j < now.len() implies now[i] < now[j] by {
            assert(now[i] == before[i]);
            if j < before.len() {
                assert(now[j] == before[j]);
            }
        }
    }
}

/// A fresh secret for the control api: sixteen random bytes as 32
/// lower-case hex digits.
pub fn random_secret() -> (s: String)
    ensures
        exists|b: Seq<u8>| b.len() == 16 && s@ == hex_lower(b),
        s@.len() == 32,
{
    let bytes = random_bytes();
    let mut v: Vec<u8> = Vec::new();
    let mut i: usize = 0;
    while i < 16
        invariant
            i <= 16,
            v@ == bytes@.subrange(0, i as int),
        decreases 16 - i,
    {
        v.push(bytes[i]);
        i += 1;
        assert(v@ =~= bytes@.subrange(0, i as int));
    }
    let hex = hex_prefix(&v, 16);
    proof {
        assert(v@.subrange(0, 16) =~= v@);
        lemma_hex_len(v@);
    }
    string_of(&hex)
}

// ---------------------------------------------------------------------------
// Connect and mode switch
// ---------------------------------------------------------------------------

/// `NotFound("server <id>")`.
pub open spec fn server_not_found(id: Seq<char>) -> ErrorView {
    ErrorView::NotFound("server "@ + id)
}

fn server_not_found_error(id: &str) -> (e: AppError)
    ensures
        e@ == server_not_found(id@),
{
    let mut msg: Vec<char> = Vec::new();
    push_str(&mut msg, "server ");
    push_str(&mut msg, id);
    AppError::NotFound(string_of(&msg))
}

/// The name of the server `id`, snapshotted when a connection starts, or
/// `NotFound("server <id>")`.
pub fn server_name(store: &ProfileStore, id: &str) -> (r: AppResult<String>)
    ensures
        match locate(*store, id@) {
            Some(loc) => r matches Ok(n) && n@ == server_at(*store, loc).name@,
            None => r matches Err(e) && e@ == server_not_found(id@),
        },
{
    match store.find_server(id) {
        Some(s) => Ok(s.name.clone()),
        None => Err(server_not_found_error(id)),
    }
}

/// Whether a connect to `server_id` may start: the server must exist
/// (its name is returned) and TUN mode needs an elevated process.
pub fn connect_checks(store: &ProfileStore, server_id: &str, mode: Mode, elevated: bool) -> (r:
    AppResult<String>)
    ensures
        match locate(*store, server_id@) {
            None => r matches Err(e) && e@ == server_not_found(server_id@),
            Some(loc) => if mode == Mode::Tun && !elevated {
                r matches Err(e) && e@ == ErrorView::NeedsElevation
            } else {
                r matches Ok(n) && n@ == server_at(*store, loc).name@
            },
        },
{
    let name = server_name(store, server_id)?;
    if matches!(mode, Mode::Tun) && !elevated {
        return Err(AppError::NeedsElevation);
    }
    Ok(name)
}

/// What a mode switch does once it is allowed.
#[derive(Debug, Clone, PartialEq, Eq)]
pub enum ModePlan {
    /// The mode is already the requested one: nothing changes.
    Unchanged,
    /// Save the mode, then reconnect to this server in it.
    Reconnect(String),
    /// Save the mode and show it; no tunnel is up to restart.
    Update,
}

/// What `plan_set_mode` decides.
pub enum PlanView {
    Unchanged,
    Reconnect(Seq<char>),
    Update,
}

pub open spec fn plan_outcome(r: AppResult<ModePlan>) -> Result<PlanView, ErrorView> {
    match r {
        Ok(ModePlan::Unchanged) => Ok(PlanView::Unchanged),
        Ok(ModePlan::Reconnect(id)) => Ok(PlanView::Reconnect(id@)),
        Ok(ModePlan::Update) => Ok(PlanView::Update),
        Err(e) => Err(e@),
    }
}

pub open spec fn plan_set_mode_spec(
    current: Mode,
    requested: Mode,
    elevated: bool,
    status: ConnStatus,
    server_id: Option<Seq<char>>,
) -> Result<PlanView, ErrorView> {
    if current == requested {
        Ok(PlanView::Unchanged)
    } else if requested == Mode::Tun && !elevated {
        Err(ErrorView::NeedsElevation)
    } else {
        match server_id {
            Some(id) if status == ConnStatus::Connected => Ok(PlanView::Reconnect(id)),
            _ => Ok(PlanView::Update),
        }
    }
}

/// Plans a mode switch: nothing when the mode is unchanged, `NeedsElevation`
/// for TUN without elevation, a reconnect when connected to a server, else
/// just the new mode.
pub fn plan_set_mode(
    current: Mode,
    requested: Mode,
    elevated: bool,
    status: ConnStatus,
    server_id: Option<&str>,
) -> (r: AppResult<ModePlan>)
    ensures
        plan_outcome(r) == plan_set_mode_spec(current, requested, elevated, status, opt_str(server_id)),
{
    if current == requested {
        return Ok(ModePlan::Unchanged);
    }
    if matches!(requested, Mode::Tun) && !elevated {
        return Err(AppError::NeedsElevation);
    }
    match (status, server_id) {
        (ConnStatus::Connected, Some(id)) => Ok(ModePlan::Reconnect(String::from_str(id))),
        _ => Ok(ModePlan::Update),
    }
}

// ---------------------------------------------------------------------------
// The running core
// ---------------------------------------------------------------------------

/// The outbound tag of `id` in a running configuration.
pub open spec fn running_tag(cfg: GeneratedConfig, id: Seq<char>) -> Option<Seq<char>> {
    last_value(pair_texts(cfg.tag_by_server_id@), id)
}

/// What a url test of the active server talks to: its id and its tag in the
/// running configuration. Needs a connected tunnel with an active server, a
/// running core whose control api is up, and the server in its config.
/// Outcome of `url_test_target`: `(server id, tag)` or the error.
pub open spec fn url_test_spec(
    status: ConnStatus,
    server_id: Option<Seq<char>>,
    running: Option<(GeneratedConfig, bool)>,
) -> Result<(Seq<char>, Seq<char>), ErrorView> {
    if status != ConnStatus::Connected {
        Err(ErrorView::Internal("not connected"@))
    } else {
        match server_id {
            None => Err(ErrorView::Internal("no active server"@)),
            Some(id) => match running {
                None => Err(ErrorView::Internal("core is not running"@)),
                Some(c) => if !c.1 {
                    Err(
                        ErrorView::Internal(
                            "the core's control api is not up yet; try again in a moment"@,
                        ),
                    )
                } else {
                    match running_tag(c.0, id) {
                        Some(t) => Ok((id, t)),
                        None => Err(ErrorView::NotFound("server "@ + id + " in running config"@)),
                    }
                },
            },
        }
    }
}

pub open spec fn running_view(running: Option<(&GeneratedConfig, bool)>) -> Option<
    (GeneratedConfig, bool),
> {
    match running {
        Some(c) => Some((*c.0, c.1)),
        None => None,
    }
}

pub open spec fn pair_outcome(r: AppResult<(String, String)>) -> Result<
    (Seq<char>, Seq<char>),
    ErrorView,
> {
    match r {
        Ok(p) => Ok((p.0@, p.1@)),
        Err(e) => Err(e@),
    }
}

/// What a url test of the active server talks to: its id and its tag in the
/// running configuration. Needs a connected tunnel with an active server, a
/// running core whose control api is up, and the server in its config.
pub fn url_test_target(
    status: ConnStatus,
    server_id: Option<&str>,
    running: Option<(&GeneratedConfig, bool)>,
) -> (r: AppResult<(String, String)>)
    ensures
        pair_outcome(r) == url_test_spec(status, opt_str(server_id), running_view(running)),
{
    if !matches!(status, ConnStatus::Connected) {
        return Err(AppError::Internal(String::from_str("not connected")));
    }
    let id = match server_id {
        Some(id) => id,
        None => return Err(AppError::Internal(String::from_str("no active server"))),
    };
    let (cfg, ready) = match running {
        Some(c) => c,
        None => return Err(AppError::Internal(String::from_str("core is not running"))),
    };
    if !ready {
        return Err(
            AppError::Internal(
                String::from_str("the core's control api is not up yet; try again in a moment"),
            ),
        );
    }
    match cfg.tag_for(id) {
        Some(t) => Ok((String::from_str(id), t.clone())),
        None => {
            let mut msg: Vec<char> = Vec::new();
            push_str(&mut msg, "server ");
            push_str(&mut msg, id);
            push_str(&mut msg, " in running config");
            Err(AppError::NotFound(string_of(&msg)))
        },
    }
}

/// The tag a live server switch selects: none when no core runs (the new
/// selection applies on the next connect); `NotFound` when the server is not
/// in the running configuration; `Internal` while the control api is down.
/// Outcome of `hot_switch_tag`.
pub open spec fn hot_switch_spec(id: Seq<char>, running: Option<(GeneratedConfig, bool)>) -> Result<
    Option<Seq<char>>,
    ErrorView,
> {
    match running {
        None => Ok(None),
        Some(c) => match running_tag(c.0, id) {
            None => Err(
                ErrorView::NotFound(
                    "server "@ + id + " is not in the running config; reconnect to apply"@,
                ),
            ),
            Some(t) => if c.1 {
                Ok(Some(t))
            } else {
                Err(
                    ErrorView::Internal(
                        "the core's control api is not up yet; reconnect to switch server"@,
                    ),
                )
            },
        },
    }
}

pub open spec fn opt_text_outcome(r: AppResult<Option<String>>) -> Result<
    Option<Seq<char>>,
    ErrorView,
> {
    match r {
        Ok(Some(t)) => Ok(Some(t@)),
        Ok(None) => Ok(None),
        Err(e) => Err(e@),
    }
}

/// The tag a live server switch selects: none when no core runs (the new
/// selection applies on the next connect); `NotFound` when the server is not
/// in the running configuration; `Internal` while the control api is down.
pub fn hot_switch_tag(id: &str, running: Option<(&GeneratedConfig, bool)>) -> (r: AppResult<
    Option<String>,
>)
    ensures
        opt_text_outcome(r) == hot_switch_spec(id@, running_view(running)),
{
    let (cfg, ready) = match running {
        Some(c) => c,
        None => return Ok(None),
    };
    let tag = match cfg.tag_for(id) {
        Some(t) => t.clone(),
        None => {
            let mut msg: Vec<char> = Vec::new();
            push_str(&mut msg, "server ");
            push_str(&mut msg, id);
            push_str(&mut msg, " is not in the running config; reconnect to apply");
            return Err(AppError::NotFound(string_of(&msg)));
        },
    };
    if !ready {
        return Err(
            AppError::Internal(
                String::from_str("the core's control api is not up yet; reconnect to switch server"),
            ),
        );
    }
    Ok(Some(tag))
}

// ---------------------------------------------------------------------------
// Pings
// ---------------------------------------------------------------------------

/// A server to measure: its id, host and port.
#[derive(Debug, Clone, PartialEq, Eq)]
pub struct PingTarget {
    pub id: String,
    pub host: String,
    pub port: u16,
}

/// The targets for the requested ids, in order, skipping ids of no server:
/// `(id, host, port)` of the server each id finds.
pub open spec fn ping_targets_spec(store: ProfileStore, ids: Seq<Seq<char>>) -> Seq<
    (Seq<char>, Seq<char>, u16),
>
    decreases ids.len(),
{
    if ids.len() == 0 {
        Seq::empty()
    } else {
        let before = ping_targets_spec(store, ids.drop_last());
        match locate(store, ids.last()) {
            Some(loc) => {
                let s = server_at(store, loc);
                before.push((s.id@, s.server@, s.port))
            },
            None => before,
        }
    }
}

pub open spec fn target_views(v: Seq<PingTarget>) -> Seq<(Seq<char>, Seq<char>, u16)> {
    Seq::new(v.len(), |i: int| (v[i].id@, v[i].host@, v[i].port))
}

/// The servers to ping for the requested ids.
pub fn ping_targets(store: &ProfileStore, ids: &Vec<String>) -> (r: Vec<PingTarget>)
    ensures
        target_views(r@) == ping_targets_spec(*store, crate::models::texts(ids@)),
{
    let ghost ts = crate::models::texts(ids@);
    let mut r: Vec<PingTarget> = Vec::new();
    let mut i: usize = 0;
    while i < ids.len()
        invariant
            i <= ids@.len(),
            ts == crate::models::texts(ids@),
            target_views(r@) == ping_targets_spec(*store, ts.take(i as int)),
        decreases ids.len() - i,
    {
        assert(ts.take(i + 1 as int).drop_last() =~= ts.take(i as int));
        let ghost before = target_views(r@);
        match store.find_server(ids[i].as_str()) {
            Some(s) => {
                r.push(PingTarget { id: s.id.clone(), host: s.server.clone(), port: s.port });
                assert(target_views(r@) =~= before.push((s.id@, s.server@, s.port)));
            },
            None => {},
        }
        i += 1;
    }
    assert(ts.take(ids@.len() as int) =~= ts);
    r
}

// ---------------------------------------------------------------------------
// The connection state through a session
// ---------------------------------------------------------------------------

/// A connect starts: connecting to `server_id` (named `name`) in `mode`,
/// with no start time or error yet.
pub fn mark_connecting(c: &mut ConnectionState, server_id: String, name: String, mode: Mode)
    ensures
        final(c).status == ConnStatus::Connecting,
        opt_text(final(c).server_id) == Some(server_id@),
        opt_text(final(c).server_name) == Some(name@),
        final(c).mode == mode,
        final(c).since_ms is None,
        final(c).error is None,
{
    c.status = ConnStatus::Connecting;
    c.server_id = Some(server_id);
    c.server_name = Some(name);
    c.mode = mode;
    c.since_ms = None;
    c.error = None;
}

/// The tunnel is up since `now_ms`; the server and mode stay.
pub fn mark_connected(c: &mut ConnectionState, now_ms: i64)
    ensures
        final(c).status == ConnStatus::Connected,
        final(c).since_ms == Some(now_ms),
        final(c).error is None,
        final(c).server_id == old(c).server_id,
        final(c).server_name == old(c).server_name,
        final(c).mode == old(c).mode,
{
    c.status = ConnStatus::Connected;
    c.since_ms = Some(now_ms);
    c.error = None;
}

/// A connect failed: disconnected in `mode`, carrying the error's message.
pub fn mark_failed(c: &mut ConnectionState, mode: Mode, message: String)
    ensures
        final(c).status == ConnStatus::Disconnected,
        final(c).server_id is None,
        final(c).server_name is None,
        final(c).mode == mode,
        final(c).since_ms is None,
        opt_text(final(c).error) == Some(message@),
{
    *c = ConnectionState::disconnected(mode);
    c.error = Some(message);
}

/// A disconnect starts: stopping, the error cleared.
pub fn mark_stopping(c: &mut ConnectionState)
    ensures
        final(c).status == ConnStatus::Stopping,
        final(c).error is None,
        final(c).server_id == old(c).server_id,
        final(c).server_name == old(c).server_name,
        final(c).mode == old(c).mode,
        final(c).since_ms == old(c).since_ms,
{
    c.status = ConnStatus::Stopping;
    c.error = None;
}

/// A crashed core is being restarted: connecting again, no start time.
pub fn mark_restarting(c: &mut ConnectionState)
    ensures
        final(c).status == ConnStatus::Connecting,
        final(c).since_ms is None,
        final(c).server_id == old(c).server_id,
        final(c).server_name == old(c).server_name,
        final(c).mode == old(c).mode,
        final(c).error == old(c).error,
{
    c.status = ConnStatus::Connecting;
    c.since_ms = None;
}

/// The restarts ran out: disconnected, no server, with the crash named.
pub fn mark_gave_up(c: &mut ConnectionState)
    ensures
        final(c).status == ConnStatus::Disconnected,
        final(c).server_id is None,
        final(c).server_name is None,
        final(c).since_ms is None,
        opt_text(final(c).error) == Some("sing-box crashed and could not be restarted"@),
        final(c).mode == old(c).mode,
{
    c.status = ConnStatus::Disconnected;
    c.server_id = None;
    c.server_name = None;
    c.since_ms = None;
    c.error = Some(String::from_str("sing-box crashed and could not be restarted"));
}

/// A live server switch went through: the tunnel now runs `server_id`.
pub fn mark_switched(c: &mut ConnectionState, server_id: String, name: String)
    ensures
        opt_text(final(c).server_id) == Some(server_id@),
        opt_text(final(c).server_name) == Some(name@),
        final(c).status == old(c).status,
        final(c).mode == old(c).mode,
        final(c).since_ms == old(c).since_ms,
        final(c).error == old(c).error,
{
    c.server_id = Some(server_id);
    c.server_name = Some(name);
}

/// A mode switch while a tunnel is up reconnects it: whenever the requested
/// mode differs from the current one and the switch is allowed (TUN only
/// when elevated), a connected tunnel with an active server is planned as a
/// reconnect to that server, from TUN to the system proxy as well as the
/// other way. Without a connected server only the stored mode changes; the
/// same mode again changes nothing; TUN without elevation is refused.
pub proof fn lemma_mode_switch_plan(
    current: Mode,
    requested: Mode,
    elevated: bool,
    status: ConnStatus,
    server_id: Option<Seq<char>>,
)
    ensures
        current == requested ==> plan_set_mode_spec(current, requested, elevated, status, server_id)
            == Ok::<PlanView, ErrorView>(PlanView::Unchanged),
        current != requested && requested == Mode::Tun && !elevated ==> plan_set_mode_spec(
            current,
            requested,
            elevated,
            status,
            server_id,
        ) == Err::<PlanView, ErrorView>(ErrorView::NeedsElevation),
        current != requested && (requested == Mode::Tun ==> elevated) && status
            == ConnStatus::Connected && server_id is Some ==> plan_set_mode_spec(
            current,
            requested,
            elevated,
            status,
            server_id,
        ) == Ok::<PlanView, ErrorView>(PlanView::Reconnect(server_id->Some_0)),
        current != requested && (requested == Mode::Tun ==> elevated) && (status
            != ConnStatus::Connected || server_id is None) ==> plan_set_mode_spec(
            current,
            requested,
            elevated,
            status,
            server_id,
        ) == Ok::<PlanView, ErrorView>(PlanView::Update),
{
}

} // verus!
