//! The addresses of sing-box's clash API on the loopback interface, and what
//! the per-server traffic it reports does to the stored counters.

use vstd::prelude::*;
use vstd::string::*;

use crate::models::{locate, replaced_at, server_at, ProfileStore, ProxyNode};
use crate::text::{chars_of, decimal, decimal_exec, push_all, push_str, string_of};
use crate::url_text::{enc, pct_encode};

verus! {

/// The API's base URL for a local port.
pub fn base_url(port: u16) -> (r: String)
    ensures
        r@ == "http://127.0.0.1:"@ + decimal(port as nat),
{
    let mut r = chars_of("http://127.0.0.1:");
    push_all(&mut r, &decimal_exec(port as u64));
    string_of(&r)
}

/// The delay-test endpoint of one outbound, its tag percent-encoded.
pub fn delay_path(port: u16, tag: &str) -> (r: String)
    ensures
        r@ == "http://127.0.0.1:"@ + decimal(port as nat) + "/proxies/"@ + pct_encode(tag@)
            + "/delay"@,
{
    let mut r = chars_of(base_url(port).as_str());
    push_str(&mut r, "/proxies/");
    push_all(&mut r, &enc(tag));
    push_str(&mut r, "/delay");
    string_of(&r)
}

/// A per-server chunk of traffic ready to be written to the store.
#[derive(Debug, Clone, PartialEq, Eq)]
pub struct TotalsBatch {
    pub server_id: String,
    pub up: u64,
    pub down: u64,
}

/// `a + b`, capped at `u64::MAX`.
pub open spec fn sat_add(a: u64, b: u64) -> u64 {
    if a + b > u64::MAX {
        u64::MAX
    } else {
        (a + b) as u64
    }
}

/// Adds a batch to the cumulative counters of its server (the first with
/// its id), saturating; a server deleted mid-session takes nothing. Returns
/// whether the server was found.
pub fn apply_totals(store: &mut ProfileStore, batch: &TotalsBatch) -> (found: bool)
    ensures
        match locate(*old(store), batch.server_id@) {
            None => !found && *final(store) == *old(store),
            Some(loc) => found && replaced_at(
                *old(store),
                *final(store),
                loc,
                ProxyNode {
                    total_up: sat_add(server_at(*old(store), loc).total_up, batch.up),
                    total_down: sat_add(server_at(*old(store), loc).total_down, batch.down),
                    ..server_at(*old(store), loc)
                },
            ),
        },
{
    match store.find_server_mut(batch.server_id.as_str()) {
        None => false,
        Some(s) => {
            s.total_up = s.total_up.saturating_add(batch.up);
            s.total_down = s.total_down.saturating_add(batch.down);
            true
        },
    }
}

/// Records a measured latency (or the lack of one) on the server with the
/// given id (the first with it). Returns whether the server was found.
pub fn record_latency(store: &mut ProfileStore, id: &str, latency: Option<u32>) -> (found: bool)
    ensures
        match locate(*old(store), id@) {
            None => !found && *final(store) == *old(store),
            Some(loc) => found && replaced_at(
                *old(store),
                *final(store),
                loc,
                ProxyNode { last_ping_ms: latency, ..server_at(*old(store), loc) },
            ),
        },
{
    match store.find_server_mut(id) {
        None => false,
        Some(s) => {
            s.last_ping_ms = latency;
            true
        },
    }
}

} // verus!
