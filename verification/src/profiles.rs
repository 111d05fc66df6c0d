//! The rules behind the profile commands: what a deletion does to the ids
//! that point at servers, how subscriptions are named and ordered, and when
//! one is due for a refresh.

use vstd::prelude::*;
use vstd::string::*;

use crate::error::{parse_error, AppError, AppResult, ErrorView};
use crate::models::{
    copy_opt, SubView, SubscriptionQuota,
    locate, node_views, replaced_at, server_at, texts, ConnStatus, NodeView, ProfileStore, ProxyNode,
    Subscription,
};
use crate::parser::vless::nonempty;
use crate::parser::v2ray_json::raws;
use crate::singbox::config::{first_index, lemma_first_index_bounds};
use crate::subscription::{
    count_gone, count_new, merge_servers, merged_list, opt_str, DeviceIdentity,
    FetchedSubscription,
};
use crate::text::{chars_of, push_str, string_of, trim, trim_chars};
use crate::url_text::{opt_text, parse_url, url_parse};

verus! {

// ---------------------------------------------------------------------------
// Post-mutation reconciliation
// ---------------------------------------------------------------------------

/// What a profile mutation must do to the ids pointing at servers that no
/// longer exist.
#[derive(Debug, Clone, Copy, PartialEq, Eq, Structural)]
pub struct Reconciliation {
    /// The persisted selection points at a deleted server.
    pub clear_selection: bool,
    /// A live tunnel is running against a server no longer in the list.
    pub active_server_gone: bool,
}

fn listed(ids: &Vec<String>, id: &str) -> (r: bool)
    ensures
        r == texts(ids@).contains(id@),
{
    let k = String::from_str(id);
    let ghost ts = texts(ids@);
    let mut i: usize = 0;
    while i < ids.len()
        invariant
            i <= ids@.len(),
            ts == texts(ids@),
            k@ == id@,
            forall|j: int| 0 <= j < i ==> ts[j] != id@,
        decreases ids.len() - i,
    {
        if ids[i] == k {
            assert(ts[i as int] == id@);
            return true;
        }
        i += 1;
    }
    false
}

/// Decides, from the ids of the servers that still exist, whether the
/// selection must be cleared and whether a live tunnel (connecting,
/// connected or stopping) lost its server.
pub fn reconcile(
    alive_ids: &Vec<String>,
    selected_id: Option<&str>,
    conn_status: ConnStatus,
    conn_server_id: Option<&str>,
) -> (r: Reconciliation)
    ensures
        r.clear_selection == (opt_str(selected_id) matches Some(id) && !texts(
            alive_ids@,
        ).contains(id)),
        r.active_server_gone == (conn_status != ConnStatus::Disconnected && (opt_str(
            conn_server_id,
        ) matches Some(id) && !texts(alive_ids@).contains(id))),
{
    let clear_selection = match selected_id {
        Some(id) => !listed(alive_ids, id),
        None => false,
    };
    let live = !matches!(conn_status, ConnStatus::Disconnected);
    let active_server_gone = live && match conn_server_id {
        Some(id) => !listed(alive_ids, id),
        None => false,
    };
    Reconciliation { clear_selection, active_server_gone }
}

// ---------------------------------------------------------------------------
// Naming
// ---------------------------------------------------------------------------

/// The host of a URL, when it parses and has one.
pub open spec fn host_of(url: Seq<char>) -> Option<Seq<char>> {
    match url_parse(url) {
        Ok(u) => u.host,
        Err(_) => None,
    }
}

/// The host of a URL, when it parses and has one.
pub fn url_host(url: &str) -> (r: Option<String>)
    ensures
        opt_text(r) == host_of(url@),
{
    match parse_url(url) {
        Ok(u) => u.host,
        Err(_) => None,
    }
}

/// The name of a subscription the user did not name: the panel's title,
/// else the file name (trimmed, when not blank), else the URL's host, else
/// `Subscription`.
pub open spec fn derived_name(title: Option<Seq<char>>, filename: Option<Seq<char>>, url: Seq<char>) -> Seq<char> {
    let picked = match title {
        Some(t) => Some(t),
        None => filename,
    };
    match picked {
        Some(p) if trim(p).len() > 0 => trim(p),
        _ => match host_of(url) {
            Some(h) => h,
            None => "Subscription"@,
        },
    }
}

/// Names a subscription the user did not name. The panel's title is the
/// one field meant for people; the file name is usually an account id; the
/// host at least says which provider it is.
pub fn derive_name(title: Option<&str>, filename: Option<&str>, url: &str) -> (r: String)
    ensures
        r@ == derived_name(opt_str(title), opt_str(filename), url@),
{
    let picked = match title {
        Some(t) => Some(t),
        None => filename,
    };
    match picked {
        Some(p) => {
            let t = trim_chars(&chars_of(p));
            if t.len() > 0 {
                return string_of(&t);
            }
        },
        None => {},
    }
    match url_host(url) {
        Some(h) => h,
        None => String::from_str("Subscription"),
    }
}

/// Whether a refresh may replace the stored name with the panel's fresh
/// title: only a name this app picked (blank, the earlier title, the file
/// name, the host, or `Subscription`), never one the user typed.
pub open spec fn adoptable(
    stored: Seq<char>,
    previous_title: Option<Seq<char>>,
    filename: Option<Seq<char>>,
    host: Option<Seq<char>>,
) -> bool {
    let s = trim(stored);
    ||| s.len() == 0
    ||| previous_title == Some(s)
    ||| filename == Some(s)
    ||| host == Some(s)
    ||| s == "Subscription"@
}

fn same(o: Option<&str>, s: &Vec<char>) -> (r: bool)
    ensures
        r == (opt_str(o) == Some(s@)),
{
    match o {
        Some(v) => crate::text::seq_eq(&chars_of(v), s),
        None => false,
    }
}

/// Whether a refresh may replace the stored name with the panel's title.
pub fn may_adopt_title(
    stored: &str,
    previous_title: Option<&str>,
    filename: Option<&str>,
    host: Option<&str>,
) -> (r: bool)
    ensures
        r == adoptable(stored@, opt_str(previous_title), opt_str(filename), opt_str(host)),
{
    let s = trim_chars(&chars_of(stored));
    s.len() == 0 || same(previous_title, &s) || same(filename, &s) || same(host, &s)
        || crate::text::eq_str(&s, "Subscription")
}

// ---------------------------------------------------------------------------
// Ordering
// ---------------------------------------------------------------------------

/// The last position of `id` in `ids`, or `ids.len()` when it is not there.
pub open spec fn rank(ids: Seq<Seq<char>>, id: Seq<char>) -> int
    decreases ids.len(),
{
    if ids.len() == 0 {
        0
    } else if ids.last() == id {
        ids.len() - 1
    } else {
        let r = rank(ids.drop_last(), id);
        if r == ids.len() - 1 {
            ids.len() as int
        } else {
            r
        }
    }
}

/// A rank is a position of the id in the list, or the list's length when it is absent.
pub proof fn lemma_rank_bounds(ids: Seq<Seq<char>>, id: Seq<char>)
    ensures
        0 <= rank(ids, id) <= ids.len(),
        rank(ids, id) < ids.len() ==> ids[rank(ids, id)] == id,
        rank(ids, id) == ids.len() ==> !ids.contains(id),
    decreases ids.len(),
{
    if ids.len() > 0 {
        lemma_rank_bounds(ids.drop_last(), id);
        if ids.last() != id && rank(ids.drop_last(), id) == ids.len() - 1 {
            assert forall|j: int| 0 <= j < ids.len() implies ids[j] != id by {
                if j < ids.len() - 1 {
                    assert(ids.drop_last()[j] == ids[j]);
                }
            }
        }
    }
}

/// The subscriptions of rank `r`, in their order.
pub open spec fn of_rank(subs: Seq<Subscription>, ids: Seq<Seq<char>>, r: int) -> Seq<Subscription>
    decreases subs.len(),
{
    if subs.len() == 0 {
        Seq::empty()
    } else if rank(ids, subs.last().id@) == r {
        of_rank(subs.drop_last(), ids, r).push(subs.last())
    } else {
        of_rank(subs.drop_last(), ids, r)
    }
}

/// The subscriptions of rank `r` or more, in their order.
pub open spec fn from_rank(subs: Seq<Subscription>, ids: Seq<Seq<char>>, r: int) -> Seq<Subscription>
    decreases subs.len(),
{
    if subs.len() == 0 {
        Seq::empty()
    } else if rank(ids, subs.last().id@) >= r {
        from_rank(subs.drop_last(), ids, r).push(subs.last())
    } else {
        from_rank(subs.drop_last(), ids, r)
    }
}

/// The subscriptions of rank below `k`, grouped by rank.
pub open spec fn ordered(subs: Seq<Subscription>, ids: Seq<Seq<char>>, k: int) -> Seq<Subscription>
    decreases k,
{
    if k <= 0 {
        Seq::empty()
    } else {
        ordered(subs, ids, k - 1) + of_rank(subs, ids, k - 1)
    }
}

/// The order `apply_order` produces: a stable sort by the position of each
/// id in `ids` (its last one), unmentioned ids after all mentioned ones.
pub open spec fn reordered(subs: Seq<Subscription>, ids: Seq<Seq<char>>) -> Seq<Subscription> {
    ordered(subs, ids, ids.len() + 1int)
}

fn rank_exec(ids: &Vec<String>, id: &String) -> (r: usize)
    ensures
        r == rank(texts(ids@), id@),
{
    let ghost ts = texts(ids@);
    let mut i: usize = ids.len();
    while i > 0
        invariant
            i <= ids@.len(),
            ts == texts(ids@),
            forall|j: int| i <= j < ids@.len() ==> ts[j] != id@,
        decreases i,
    {
        if ids[i - 1] == *id {
            proof {
                lemma_rank_last(ts, id@, i - 1);
            }
            return i - 1;
        }
        i -= 1;
    }
    proof {
        lemma_rank_missing(ts, id@);
    }
    ids.len()
}

proof fn lemma_rank_last(ids: Seq<Seq<char>>, id: Seq<char>, k: int)
    requires
        0 <= k < ids.len(),
        ids[k] == id,
        forall|j: int| k < j < ids.len() ==> ids[j] != id,
    ensures
        rank(ids, id) == k,
    decreases ids.len(),
{
    if k < ids.len() - 1 {
        lemma_rank_last(ids.drop_last(), id, k);
        assert(ids.last() != id);
    }
}

proof fn lemma_rank_missing(ids: Seq<Seq<char>>, id: Seq<char>)
    requires
        forall|j: int| 0 <= j < ids.len() ==> ids[j] != id,
    ensures
        rank(ids, id) == ids.len(),
    decreases ids.len(),
{
    if ids.len() > 0 {
        lemma_rank_missing(ids.drop_last(), id);
        assert(ids.last() != id);
    }
}

proof fn lemma_split_rank(subs: Seq<Subscription>, ids: Seq<Seq<char>>, r: int)
    ensures
        of_rank(from_rank(subs, ids, r), ids, r) == of_rank(subs, ids, r),
        from_rank(from_rank(subs, ids, r), ids, r + 1) == from_rank(subs, ids, r + 1),
    decreases subs.len(),
{
    if subs.len() > 0 {
        lemma_split_rank(subs.drop_last(), ids, r);
        let x = subs.last();
        let f = from_rank(subs.drop_last(), ids, r);
        if rank(ids, x.id@) >= r {
            assert(from_rank(subs, ids, r).drop_last() =~= f);
        } else {
            assert(from_rank(subs, ids, r) == f);
        }
    }
}

proof fn lemma_from_zero(subs: Seq<Subscription>, ids: Seq<Seq<char>>)
    ensures
        from_rank(subs, ids, 0) == subs,
    decreases subs.len(),
{
    if subs.len() > 0 {
        lemma_from_zero(subs.drop_last(), ids);
        lemma_rank_bounds(ids, subs.last().id@);
        assert(subs.drop_last().push(subs.last()) =~= subs);
    }
}

proof fn lemma_from_top(subs: Seq<Subscription>, ids: Seq<Seq<char>>)
    ensures
        from_rank(subs, ids, ids.len() as int) == of_rank(subs, ids, ids.len() as int),
    decreases subs.len(),
{
    if subs.len() > 0 {
        lemma_from_top(subs.drop_last(), ids);
        lemma_rank_bounds(ids, subs.last().id@);
    }
}

/// Moves the subscriptions of rank `r` from `rest` to the end of `out`,
/// keeping the others in `rest`.
fn move_rank(out: &mut Vec<Subscription>, rest: &mut Vec<Subscription>, ids: &Vec<String>, r: usize)
    ensures
        final(out)@ == old(out)@ + of_rank(old(rest)@, texts(ids@), r as int),
        final(rest)@ == from_rank(old(rest)@, texts(ids@), r + 1),
{
    let ghost ts = texts(ids@);
    let ghost src = rest@;
    let ghost n = src.len();
    let ghost out0 = out@;
    let mut keep: Vec<Subscription> = Vec::new();
    while rest.len() > 0
        invariant
            n == src.len(),
            rest@.len() <= n,
            rest@ == src.subrange(n - rest@.len(), n as int),
            out@ == out0 + of_rank(src.subrange(0, n - rest@.len()), ts, r as int),
            keep@ == from_rank(src.subrange(0, n - rest@.len()), ts, r + 1),
            ts == texts(ids@),
        decreases rest.len(),
    {
        let ghost i = n - rest@.len();
        let ghost pre = src.subrange(0, i + 1);
        assert(pre.drop_last() =~= src.subrange(0, i));
        assert(pre.last() == src[i]);
        let ghost old_rest = rest@;
        let s = rest.remove(0);
        assert(rest@ =~= src.subrange(n - rest@.len(), n as int));
        let k = rank_exec(ids, &s.id);
        if k == r {
            let ghost o = out@;
            out.push(s);
            assert(out@ =~= out0 + of_rank(pre, ts, r as int));
        } else if k > r {
            keep.push(s);
        }
    }
    assert(src.subrange(0, n as int) =~= src);
    *rest = keep;
}

/// Reorders subscriptions to match `ids`: stable and total, so ids the
/// caller did not mention keep their relative order after the ones it did,
/// and no entry is ever dropped.
pub fn apply_order(subs: &mut Vec<Subscription>, ids: &Vec<String>)
    ensures
        final(subs)@ == reordered(old(subs)@, texts(ids@)),
{
    let ghost ts = texts(ids@);
    let ghost orig = subs@;
    let mut rest: Vec<Subscription> = Vec::new();
    std::mem::swap(subs, &mut rest);
    let mut out: Vec<Subscription> = Vec::new();
    proof {
        lemma_from_zero(orig, ts);
    }
    let n = ids.len();
    let mut r: usize = 0;
    while r < n
        invariant
            r <= n,
            n == ids@.len(),
            ts == texts(ids@),
            ts.len() == n,
            out@ == ordered(orig, ts, r as int),
            rest@ == from_rank(orig, ts, r as int),
        decreases n - r,
    {
        let ghost before = rest@;
        move_rank(&mut out, &mut rest, ids, r);
        proof {
            lemma_split_rank(orig, ts, r as int);
        }
        r += 1;
    }
    proof {
        lemma_from_top(orig, ts);
        assert(ordered(orig, ts, n + 1) == ordered(orig, ts, n as int) + of_rank(orig, ts, n as int));
    }
    let mut tail = rest;
    out.append(&mut tail);
    *subs = out;
}

proof fn lemma_below_split(subs: Seq<Subscription>, ids: Seq<Seq<char>>, k: int)
    requires
        k >= 0,
    ensures
        from_rank(subs, ids, 0).to_multiset() == ordered(subs, ids, k).to_multiset().add(
            from_rank(subs, ids, k).to_multiset(),
        ),
    decreases k,
{
    broadcast use vstd::seq_lib::lemma_multiset_commutative;

    if k == 0 {
        let e = Seq::<Subscription>::empty();
        assert(ordered(subs, ids, 0) =~= e);
        assert(e + from_rank(subs, ids, 0) =~= from_rank(subs, ids, 0));
        assert((e + from_rank(subs, ids, 0)).to_multiset() == e.to_multiset().add(
            from_rank(subs, ids, 0).to_multiset(),
        ));
    } else {
        lemma_below_split(subs, ids, k - 1);
        lemma_rank_split_multiset(subs, ids, k - 1);
        assert(ordered(subs, ids, k).to_multiset() =~= ordered(subs, ids, k - 1).to_multiset().add(
            of_rank(subs, ids, k - 1).to_multiset(),
        ));
        assert(from_rank(subs, ids, 0).to_multiset() =~= ordered(subs, ids, k).to_multiset().add(
            from_rank(subs, ids, k).to_multiset(),
        ));
    }
}

proof fn lemma_rank_split_multiset(subs: Seq<Subscription>, ids: Seq<Seq<char>>, r: int)
    ensures
        from_rank(subs, ids, r).to_multiset() == of_rank(subs, ids, r).to_multiset().add(
            from_rank(subs, ids, r + 1).to_multiset(),
        ),
    decreases subs.len(),
{
    broadcast use vstd::seq_lib::to_multiset_build;

    if subs.len() == 0 {
        let e = Seq::<Subscription>::empty();
        assert(e + e =~= e);
        vstd::seq_lib::lemma_multiset_commutative(e, e);
    } else {
        lemma_rank_split_multiset(subs.drop_last(), ids, r);
        let x = subs.last();
        let d = subs.drop_last();
        if rank(ids, x.id@) == r {
            assert(from_rank(subs, ids, r).to_multiset() =~= from_rank(d, ids, r).to_multiset().insert(x));
            assert(of_rank(subs, ids, r).to_multiset() =~= of_rank(d, ids, r).to_multiset().insert(x));
            assert(from_rank(subs, ids, r).to_multiset() =~= of_rank(subs, ids, r).to_multiset().add(
                from_rank(subs, ids, r + 1).to_multiset(),
            ));
        } else if rank(ids, x.id@) > r {
            assert(from_rank(subs, ids, r).to_multiset() =~= from_rank(d, ids, r).to_multiset().insert(x));
            assert(from_rank(subs, ids, r + 1).to_multiset() =~= from_rank(d, ids, r + 1).to_multiset().insert(x));
            assert(from_rank(subs, ids, r).to_multiset() =~= of_rank(subs, ids, r).to_multiset().add(
                from_rank(subs, ids, r + 1).to_multiset(),
            ));
        }
    }
}

proof fn lemma_above_top(subs: Seq<Subscription>, ids: Seq<Seq<char>>)
    ensures
        from_rank(subs, ids, ids.len() + 1int) == Seq::<Subscription>::empty(),
    decreases subs.len(),
{
    if subs.len() > 0 {
        lemma_above_top(subs.drop_last(), ids);
        lemma_rank_bounds(ids, subs.last().id@);
    }
}

/// Reordering never drops, duplicates or invents a subscription: the result
/// holds exactly the same entries.
pub proof fn lemma_reorder_is_permutation(subs: Seq<Subscription>, ids: Seq<Seq<char>>)
    ensures
        reordered(subs, ids).to_multiset() == subs.to_multiset(),
        reordered(subs, ids).len() == subs.len(),
{
    broadcast use vstd::seq_lib::to_multiset_len;

    lemma_below_split(subs, ids, ids.len() + 1int);
    lemma_above_top(subs, ids);
    lemma_from_zero(subs, ids);
    let o = reordered(subs, ids);
    let e = Seq::<Subscription>::empty();
    assert(o + e =~= o);
    vstd::seq_lib::lemma_multiset_commutative(o, e);
    assert(o.to_multiset() =~= subs.to_multiset());
    assert(o.to_multiset().len() == o.len());
    assert(subs.to_multiset().len() == subs.len());
}

/// An empty request leaves the order as it is.
pub proof fn lemma_reorder_empty_is_identity(subs: Seq<Subscription>)
    ensures
        reordered(subs, Seq::empty()) == subs,
{
    let ids = Seq::<Seq<char>>::empty();
    lemma_from_zero(subs, ids);
    lemma_from_top(subs, ids);
    assert(ordered(subs, ids, 0) =~= Seq::<Subscription>::empty());
    assert(reordered(subs, ids) =~= of_rank(subs, ids, 0));
}

// ---------------------------------------------------------------------------
// Refresh results
// ---------------------------------------------------------------------------

/// A fetch that yielded no server is an error, naming the first link error
/// when there is one.
pub fn ensure_has_servers(fetched: &FetchedSubscription) -> (r: AppResult<()>)
    ensures
        fetched.servers@.len() > 0 ==> r is Ok,
        fetched.servers@.len() == 0 ==> (r matches Err(e) && e@ == ErrorView::Parse(
            "subscription contains no usable links"@ + if fetched.errors@.len() > 0 {
                ": "@ + fetched.errors@[0]@
            } else {
                Seq::empty()
            },
        )),
{
    if fetched.servers.len() > 0 {
        return Ok(());
    }
    let mut msg = chars_of("subscription contains no usable links");
    if fetched.errors.len() > 0 {
        push_str(&mut msg, ": ");
        push_str(&mut msg, fetched.errors[0].as_str());
        assert(msg@ =~= "subscription contains no usable links"@ + (": "@ + fetched.errors@[0]@));
    } else {
        assert(msg@ + Seq::<char>::empty() =~= msg@);
    }
    Err(parse_error(&msg))
}


// ---------------------------------------------------------------------------
// Auto-update schedule
// ---------------------------------------------------------------------------

/// An instant as seconds since the Unix epoch and the nanoseconds past that
/// second.
#[derive(Debug, Clone, Copy, PartialEq, Eq, Structural)]
pub struct Timestamp {
    pub secs: i64,
    pub nanos: u32,
}

/// What `chrono::DateTime::parse_from_rfc3339` makes of a text: the
/// instant's `timestamp()` and `timestamp_subsec_nanos()`, or `None` when
/// it is not RFC 3339.
pub uninterp spec fn rfc3339_instant(text: Seq<char>) -> Option<(i64, u32)>;

pub open spec fn instant_view(o: Option<Timestamp>) -> Option<(i64, u32)> {
    match o {
        Some(t) => Some((t.secs, t.nanos)),
        None => None,
    }
}

/// Calls `chrono::DateTime::parse_from_rfc3339` and reads the instant's
/// timestamp and sub-second nanoseconds; the contract claims only that the
/// outcome is `rfc3339_instant` of the text.
#[verifier::external_body]
fn parse_rfc3339(text: &str) -> (r: Option<Timestamp>)
    ensures
        instant_view(r) == rfc3339_instant(text@),
{
    chrono::DateTime::parse_from_rfc3339(text)
        .ok()
        .map(|t| Timestamp { secs: t.timestamp(), nanos: t.timestamp_subsec_nanos() })
}

/// Whole hours in a span of `nanos` nanoseconds, truncated toward zero (as
/// `TimeDelta::num_hours` counts them).
pub open spec fn whole_hours(nanos: int) -> int {
    if nanos >= 0 {
        nanos / 3_600_000_000_000
    } else {
        -((-nanos) / 3_600_000_000_000)
    }
}

/// The span from `earlier` to `later`, in nanoseconds.
pub open spec fn span_nanos(later: (i64, u32), earlier: (i64, u32)) -> int {
    (later.0 - earlier.0) * 1_000_000_000 + (later.1 - earlier.1)
}

/// Whether a refresh is overdue at `now`: never with auto-update off;
/// always when no readable timestamp says when the last one was; else once
/// the whole hours since it reach the interval (a timestamp in the future
/// gives a negative span, which waits).
pub open spec fn due_spec(hours: u32, updated_at: Option<Seq<char>>, now: (i64, u32)) -> bool {
    if hours == 0 {
        false
    } else {
        match updated_at {
            None => true,
            Some(t) => match rfc3339_instant(t) {
                None => true,
                Some(last) => whole_hours(span_nanos(now, last)) >= hours,
            },
        }
    }
}

/// Whether a subscription's refresh is overdue at `now`.
pub fn due_for_refresh(auto_update_hours: u32, updated_at: Option<&str>, now: Timestamp) -> (r: bool)
    ensures
        r == due_spec(auto_update_hours, opt_str(updated_at), (now.secs, now.nanos)),
{
    if auto_update_hours == 0 {
        return false;
    }
    let last = match updated_at {
        Some(t) => match parse_rfc3339(t) {
            Some(l) => l,
            None => {
                return true;
            },
        },
        None => {
            return true;
        },
    };
    let span: i128 = (now.secs as i128 - last.secs as i128) * 1_000_000_000 + (now.nanos as i128
        - last.nanos as i128);
    let hours: i128 = if span >= 0 {
        span / 3_600_000_000_000
    } else {
        -((-span) / 3_600_000_000_000)
    };
    hours >= auto_update_hours as i128
}

// ---------------------------------------------------------------------------
// Edits of the profile store
// ---------------------------------------------------------------------------

/// The raw links of a list of servers.
pub open spec fn raws_of(v: Seq<ProxyNode>) -> Seq<Seq<char>> {
    Seq::new(v.len(), |i: int| v[i].raw@)
}

/// The parsed servers whose raw link is not among `known`, in order.
pub open spec fn fresh_links(known: Seq<Seq<char>>, parsed: Seq<NodeView>) -> Seq<NodeView>
    decreases parsed.len(),
{
    if parsed.len() == 0 {
        Seq::empty()
    } else {
        let before = fresh_links(known, parsed.drop_last());
        if known.contains(parsed.last().raw) {
            before
        } else {
            before.push(parsed.last())
        }
    }
}

fn raw_listed(raws: &Vec<String>, raw: &String) -> (r: bool)
    ensures
        r == texts(raws@).contains(raw@),
{
    let ghost ts = texts(raws@);
    let mut i: usize = 0;
    while i < raws.len()
        invariant
            i <= raws@.len(),
            ts == texts(raws@),
            forall|j: int| 0 <= j < i ==> ts[j] != raw@,
        decreases raws.len() - i,
    {
        if raws[i] == *raw {
            assert(ts[i as int] == raw@);
            return true;
        }
        i += 1;
    }
    false
}

/// Adds the parsed share links to the manual servers, skipping those whose
/// raw link a manual server already has; returns how many were added.
pub fn import_links(manual: &mut Vec<ProxyNode>, parsed: Vec<ProxyNode>) -> (added: usize)
    ensures
        node_views(final(manual)@) == node_views(old(manual)@) + fresh_links(
            raws_of(old(manual)@),
            node_views(parsed@),
        ),
        added == fresh_links(raws_of(old(manual)@), node_views(parsed@)).len(),
{
    let ghost known = raws_of(manual@);
    let ghost start = node_views(manual@);
    let ghost pv = node_views(parsed@);
    let mut raws: Vec<String> = Vec::new();
    let mut k: usize = 0;
    while k < manual.len()
        invariant
            k <= manual@.len(),
            known == raws_of(manual@),
            texts(raws@) =~= known.take(k as int),
        decreases manual.len() - k,
    {
        let ghost before = texts(raws@);
        raws.push(manual[k].raw.clone());
        assert(texts(raws@) =~= before.push(known[k as int]));
        assert(known.take(k + 1 as int) =~= known.take(k as int).push(known[k as int]));
        k += 1;
    }
    assert(known.take(manual@.len() as int) =~= known);
    let total = parsed.len();
    let mut rest = parsed;
    let mut added: usize = 0;
    let mut i: usize = 0;
    while rest.len() > 0
        invariant
            i + rest@.len() == pv.len(),
            pv.len() == total,
            added <= i,
            node_views(rest@) =~= pv.subrange(i as int, pv.len() as int),
            texts(raws@) == known,
            node_views(manual@) == start + fresh_links(known, pv.take(i as int)),
            added == fresh_links(known, pv.take(i as int)).len(),
        decreases rest.len(),
    {
        let ghost before = node_views(manual@);
        let ghost r0 = node_views(rest@);
        let entry = rest.remove(0);
        assert(node_views(rest@) =~= r0.subrange(1, r0.len() as int));
        assert(r0[0] == pv[i as int]);
        assert(entry@ == pv[i as int]);
        assert(pv.take(i + 1 as int).drop_last() =~= pv.take(i as int));
        if !raw_listed(&raws, &entry.raw) {
            manual.push(entry);
            added = added + 1;
            assert(node_views(manual@) =~= before.push(pv[i as int]));
        }
        i += 1;
        assert(node_views(rest@) =~= pv.subrange(i as int, pv.len() as int));
    }
    assert(pv.take(pv.len() as int) =~= pv);
    added
}

/// The raw links of a list of server views.
pub open spec fn view_raws(v: Seq<NodeView>) -> Seq<Seq<char>> {
    Seq::new(v.len(), |i: int| v[i].raw)
}

proof fn lemma_fresh_none(known: Seq<Seq<char>>, parsed: Seq<NodeView>)
    requires
        forall|j: int| 0 <= j < parsed.len() ==> known.contains(#[trigger] parsed[j].raw),
    ensures
        fresh_links(known, parsed).len() == 0,
    decreases parsed.len(),
{
    if parsed.len() > 0 {
        assert forall|j: int| 0 <= j < parsed.len() - 1 implies known.contains(
            #[trigger] parsed.drop_last()[j].raw,
        ) by {
            assert(parsed.drop_last()[j] == parsed[j]);
        }
        lemma_fresh_none(known, parsed.drop_last());
        assert(known.contains(parsed[parsed.len() - 1].raw));
    }
}

proof fn lemma_fresh_covers(known: Seq<Seq<char>>, parsed: Seq<NodeView>)
    ensures
        forall|j: int|
            0 <= j < parsed.len() ==> (known + view_raws(fresh_links(known, parsed))).contains(
                #[trigger] parsed[j].raw,
            ),
    decreases parsed.len(),
{
    if parsed.len() > 0 {
        let w = parsed.drop_last();
        lemma_fresh_covers(known, w);
        let before = fresh_links(known, w);
        let now = fresh_links(known, parsed);
        let all = known + view_raws(now);
        assert forall|j: int| 0 <= j < parsed.len() implies all.contains(#[trigger] parsed[j].raw) by {
            if j < parsed.len() - 1 {
                assert(w[j] == parsed[j]);
                let prev = known + view_raws(before);
                let k = choose|k: int| 0 <= k < prev.len() && prev[k] == w[j].raw;
                if k >= known.len() {
                    assert(now.take(before.len() as int) =~= before);
                }
                assert(0 <= k < all.len());
                assert(all[k] == prev[k]);
            } else {
                if !known.contains(parsed.last().raw) {
                    assert(all[known.len() + before.len() as int] == parsed.last().raw);
                } else {
                    let k = choose|k: int| 0 <= k < known.len() && known[k] == parsed.last().raw;
                    assert(all[k] == known[k]);
                }
                assert(parsed[j] == parsed.last());
            }
        }
    }
}

/// Importing the same links again adds nothing.
pub proof fn lemma_import_idempotent(known: Seq<Seq<char>>, parsed: Seq<NodeView>)
    ensures
        fresh_links(known + view_raws(fresh_links(known, parsed)), parsed).len() == 0,
{
    lemma_fresh_covers(known, parsed);
    lemma_fresh_none(known + view_raws(fresh_links(known, parsed)), parsed);
}

/// The servers whose id is not `id`, in order.
pub open spec fn other_servers(v: Seq<ProxyNode>, id: Seq<char>) -> Seq<ProxyNode>
    decreases v.len(),
{
    if v.len() == 0 {
        Seq::empty()
    } else {
        let before = other_servers(v.drop_last(), id);
        if v.last().id@ == id {
            before
        } else {
            before.push(v.last())
        }
    }
}

/// The subscriptions whose id is not `id`, in order.
pub open spec fn other_subscriptions(v: Seq<Subscription>, id: Seq<char>) -> Seq<Subscription>
    decreases v.len(),
{
    if v.len() == 0 {
        Seq::empty()
    } else {
        let before = other_subscriptions(v.drop_last(), id);
        if v.last().id@ == id {
            before
        } else {
            before.push(v.last())
        }
    }
}

proof fn lemma_other_servers_len(v: Seq<ProxyNode>, id: Seq<char>)
    ensures
        other_servers(v, id).len() <= v.len(),
        other_servers(v, id).len() == v.len() <==> forall|j: int|
            0 <= j < v.len() ==> (#[trigger] v[j]).id@ != id,
    decreases v.len(),
{
    if v.len() > 0 {
        lemma_other_servers_len(v.drop_last(), id);
        if other_servers(v, id).len() == v.len() {
            assert forall|j: int| 0 <= j < v.len() implies (#[trigger] v[j]).id@ != id by {
                if j < v.len() - 1 {
                    assert(v.drop_last()[j] == v[j]);
                }
            }
        }
        if forall|j: int| 0 <= j < v.len() ==> (#[trigger] v[j]).id@ != id {
            assert forall|j: int| 0 <= j < v.len() - 1 implies (#[trigger] v.drop_last()[j]).id@
                != id by {
                assert(v.drop_last()[j] == v[j]);
            }
            assert(v[v.len() - 1].id@ != id);
        }
    }
}

proof fn lemma_other_subscriptions_len(v: Seq<Subscription>, id: Seq<char>)
    ensures
        other_subscriptions(v, id).len() <= v.len(),
        other_subscriptions(v, id).len() == v.len() <==> forall|j: int|
            0 <= j < v.len() ==> (#[trigger] v[j]).id@ != id,
    decreases v.len(),
{
    if v.len() > 0 {
        lemma_other_subscriptions_len(v.drop_last(), id);
        if other_subscriptions(v, id).len() == v.len() {
            assert forall|j: int| 0 <= j < v.len() implies (#[trigger] v[j]).id@ != id by {
                if j < v.len() - 1 {
                    assert(v.drop_last()[j] == v[j]);
                }
            }
        }
        if forall|j: int| 0 <= j < v.len() ==> (#[trigger] v[j]).id@ != id {
            assert forall|j: int| 0 <= j < v.len() - 1 implies (#[trigger] v.drop_last()[j]).id@
                != id by {
                assert(v.drop_last()[j] == v[j]);
            }
            assert(v[v.len() - 1].id@ != id);
        }
    }
}

/// After a removal no server with the id is left, and every other server
/// stays.
pub proof fn lemma_removed_server_gone(v: Seq<ProxyNode>, id: Seq<char>)
    ensures
        forall|j: int|
            0 <= j < other_servers(v, id).len() ==> (#[trigger] other_servers(v, id)[j]).id@ != id,
        forall|j: int| 0 <= j < v.len() && (#[trigger] v[j]).id@ != id ==> other_servers(v, id).contains(v[j]),
    decreases v.len(),
{
    if v.len() > 0 {
        let w = v.drop_last();
        lemma_removed_server_gone(w, id);
        let before = other_servers(w, id);
        let now = other_servers(v, id);
        assert forall|j: int| 0 <= j < now.len() implies (#[trigger] now[j]).id@ != id by {
            if j < before.len() {
                assert(now[j] == before[j]);
            }
        }
        assert forall|j: int| 0 <= j < v.len() && (#[trigger] v[j]).id@ != id implies now.contains(v[j]) by {
            if j < w.len() {
                assert(w[j] == v[j]);
                let k = choose|k: int| 0 <= k < before.len() && before[k] == w[j];
                assert(now[k] == before[k]);
            } else {
                assert(now[before.len() as int] == v[j]);
            }
        }
    }
}

/// After a removal no subscription with the id is left, and every other
/// subscription stays.
pub proof fn lemma_removed_subscription_gone(v: Seq<Subscription>, id: Seq<char>)
    ensures
        forall|j: int|
            0 <= j < other_subscriptions(v, id).len() ==> (#[trigger] other_subscriptions(
                v,
                id,
            )[j]).id@ != id,
        forall|j: int|
            0 <= j < v.len() && (#[trigger] v[j]).id@ != id ==> other_subscriptions(v, id).contains(
                v[j],
            ),
    decreases v.len(),
{
    if v.len() > 0 {
        let w = v.drop_last();
        lemma_removed_subscription_gone(w, id);
        let before = other_subscriptions(w, id);
        let now = other_subscriptions(v, id);
        assert forall|j: int| 0 <= j < now.len() implies (#[trigger] now[j]).id@ != id by {
            if j < before.len() {
                assert(now[j] == before[j]);
            }
        }
        assert forall|j: int| 0 <= j < v.len() && (#[trigger] v[j]).id@ != id implies now.contains(v[j]) by {
            if j < w.len() {
                assert(w[j] == v[j]);
                let k = choose|k: int| 0 <= k < before.len() && before[k] == w[j];
                assert(now[k] == before[k]);
            } else {
                assert(now[before.len() as int] == v[j]);
            }
        }
    }
}

/// `NotFound("<prefix><id>")`.
fn not_found(prefix: &str, id: &str) -> (e: AppError)
    ensures
        e@ == ErrorView::NotFound(prefix@ + id@),
{
    let mut msg: Vec<char> = Vec::new();
    push_str(&mut msg, prefix);
    push_str(&mut msg, id);
    AppError::NotFound(string_of(&msg))
}

/// Removes every manual server with the given id; `NotFound("server <id>")`
/// and no change when there is none.
pub fn remove_manual_server(manual: &mut Vec<ProxyNode>, id: &str) -> (r: AppResult<()>)
    ensures
        (exists|j: int| 0 <= j < old(manual)@.len() && (#[trigger] old(manual)@[j]).id@ == id@)
            ==> r is Ok && final(manual)@ == other_servers(old(manual)@, id@),
        !(exists|j: int| 0 <= j < old(manual)@.len() && (#[trigger] old(manual)@[j]).id@ == id@)
            ==> (r matches Err(e) && e@ == ErrorView::NotFound("server "@ + id@)) && final(manual)@
            == old(manual)@,
{
    let ghost orig = manual@;
    let n = manual.len();
    let key = String::from_str(id);
    let mut kept: Vec<ProxyNode> = Vec::new();
    let mut rest: Vec<ProxyNode> = Vec::new();
    std::mem::swap(&mut rest, manual);
    let mut i: usize = 0;
    while rest.len() > 0
        invariant
            i + rest@.len() == orig.len(),
            orig.len() == n,
            rest@ =~= orig.subrange(i as int, orig.len() as int),
            kept@ == other_servers(orig.take(i as int), id@),
            key@ == id@,
            manual@.len() == 0,
        decreases rest.len(),
    {
        let s = rest.remove(0);
        assert(orig.take(i + 1 as int).drop_last() =~= orig.take(i as int));
        assert(s == orig[i as int]);
        if s.id != key {
            kept.push(s);
        }
        i += 1;
    }
    assert(orig.take(orig.len() as int) =~= orig);
    proof {
        lemma_other_servers_len(orig, id@);
    }
    if kept.len() == n {
        *manual = kept;
        proof {
            lemma_other_servers_prefix(orig, id@);
        }
        Err(not_found("server ", id))
    } else {
        *manual = kept;
        Ok(())
    }
}

proof fn lemma_other_servers_prefix(v: Seq<ProxyNode>, id: Seq<char>)
    requires
        forall|j: int| 0 <= j < v.len() ==> (#[trigger] v[j]).id@ != id,
    ensures
        other_servers(v, id) == v,
    decreases v.len(),
{
    if v.len() > 0 {
        assert forall|j: int| 0 <= j < v.len() - 1 implies (#[trigger] v.drop_last()[j]).id@
            != id by {
            assert(v.drop_last()[j] == v[j]);
        }
        lemma_other_servers_prefix(v.drop_last(), id);
        assert(v[v.len() - 1].id@ != id);
        assert(v.drop_last().push(v.last()) =~= v);
    }
}

proof fn lemma_other_subscriptions_prefix(v: Seq<Subscription>, id: Seq<char>)
    requires
        forall|j: int| 0 <= j < v.len() ==> (#[trigger] v[j]).id@ != id,
    ensures
        other_subscriptions(v, id) == v,
    decreases v.len(),
{
    if v.len() > 0 {
        assert forall|j: int| 0 <= j < v.len() - 1 implies (#[trigger] v.drop_last()[j]).id@
            != id by {
            assert(v.drop_last()[j] == v[j]);
        }
        lemma_other_subscriptions_prefix(v.drop_last(), id);
        assert(v[v.len() - 1].id@ != id);
        assert(v.drop_last().push(v.last()) =~= v);
    }
}

/// Removes every subscription with the given id;
/// `NotFound("subscription <id>")` and no change when there is none.
pub fn remove_subscription(subs: &mut Vec<Subscription>, id: &str) -> (r: AppResult<()>)
    ensures
        (exists|j: int| 0 <= j < old(subs)@.len() && (#[trigger] old(subs)@[j]).id@ == id@)
            ==> r is Ok && final(subs)@ == other_subscriptions(old(subs)@, id@),
        !(exists|j: int| 0 <= j < old(subs)@.len() && (#[trigger] old(subs)@[j]).id@ == id@)
            ==> (r matches Err(e) && e@ == ErrorView::NotFound("subscription "@ + id@))
            && final(subs)@ == old(subs)@,
{
    let ghost orig = subs@;
    let n = subs.len();
    let key = String::from_str(id);
    let mut kept: Vec<Subscription> = Vec::new();
    let mut rest: Vec<Subscription> = Vec::new();
    std::mem::swap(&mut rest, subs);
    let mut i: usize = 0;
    while rest.len() > 0
        invariant
            i + rest@.len() == orig.len(),
            orig.len() == n,
            rest@ =~= orig.subrange(i as int, orig.len() as int),
            kept@ == other_subscriptions(orig.take(i as int), id@),
            key@ == id@,
        decreases rest.len(),
    {
        let s = rest.remove(0);
        assert(orig.take(i + 1 as int).drop_last() =~= orig.take(i as int));
        assert(s == orig[i as int]);
        if s.id != key {
            kept.push(s);
        }
        i += 1;
    }
    assert(orig.take(orig.len() as int) =~= orig);
    proof {
        lemma_other_subscriptions_len(orig, id@);
    }
    if kept.len() == n {
        *subs = kept;
        proof {
            lemma_other_subscriptions_prefix(orig, id@);
        }
        Err(not_found("subscription ", id))
    } else {
        *subs = kept;
        Ok(())
    }
}

/// The ids of a list of subscriptions.
pub open spec fn sub_ids(subs: Seq<Subscription>) -> Seq<Seq<char>> {
    Seq::new(subs.len(), |i: int| subs[i].id@)
}

/// The position of the first subscription with the given id.
pub fn find_subscription(subs: &Vec<Subscription>, id: &str) -> (r: Option<usize>)
    ensures
        match r {
            Some(k) => first_index(sub_ids(subs@), id@) == Some(k as int),
            None => first_index(sub_ids(subs@), id@) is None,
        },
{
    let ghost ids = sub_ids(subs@);
    let key = String::from_str(id);
    let mut i: usize = 0;
    while i < subs.len()
        invariant
            i <= subs@.len(),
            ids == sub_ids(subs@),
            key@ == id@,
            first_index(ids.take(i as int), id@) is None,
        decreases subs.len() - i,
    {
        assert(ids.take(i + 1 as int).drop_last() =~= ids.take(i as int));
        if subs[i].id == key {
            proof {
                lemma_first_index_prefix(ids, id@, i as int);
            }
            return Some(i);
        }
        i += 1;
    }
    assert(ids.take(subs@.len() as int) =~= ids);
    None
}

/// A first occurrence in a prefix is the first occurrence in the whole.
pub proof fn lemma_first_index_prefix(ids: Seq<Seq<char>>, id: Seq<char>, i: int)
    requires
        0 <= i < ids.len(),
        ids[i] == id,
        first_index(ids.take(i), id) is None,
    ensures
        first_index(ids, id) == Some(i),
    decreases ids.len(),
{
    if i < ids.len() - 1 {
        assert(ids.drop_last().take(i) =~= ids.take(i));
        lemma_first_index_prefix(ids.drop_last(), id, i);
    } else {
        assert(ids.drop_last() =~= ids.take(i));
    }
}

/// `subs` after `k` with `k`-th element's view set to `v`, all others kept.
pub open spec fn changed_at(before: Seq<Subscription>, after: Seq<Subscription>, k: int, v: SubView) -> bool {
    &&& after.len() == before.len()
    &&& after[k]@ == v
    &&& forall|j: int| 0 <= j < before.len() && j != k ==> #[trigger] after[j] == before[j]
}

/// Renames a subscription: the trimmed name, and the panel title forgotten
/// so that later refreshes leave the name alone. A blank name is a `Parse`
/// error; an unknown id is `NotFound("subscription <id>")`. Returns the
/// renamed subscription.
pub fn rename_subscription(subs: &mut Vec<Subscription>, id: &str, name: &str) -> (r: AppResult<
    Subscription,
>)
    ensures
        trim(name@).len() == 0 ==> (r matches Err(e) && e@ == ErrorView::Parse(
            "subscription name cannot be empty"@,
        )) && final(subs)@ == old(subs)@,
        trim(name@).len() > 0 ==> match first_index(sub_ids(old(subs)@), id@) {
            None => (r matches Err(e) && e@ == ErrorView::NotFound("subscription "@ + id@))
                && final(subs)@ == old(subs)@,
            Some(k) => (r matches Ok(s) && s@ == final(subs)@[k]@) && changed_at(
                old(subs)@,
                final(subs)@,
                k,
                SubView { name: trim(name@), panel_title: None, ..old(subs)@[k]@ },
            ),
        },
{
    let t = trim_chars(&chars_of(name));
    if t.len() == 0 {
        return Err(AppError::Parse(String::from_str("subscription name cannot be empty")));
    }
    match find_subscription(subs, id) {
        None => Err(not_found("subscription ", id)),
        Some(k) => {
            proof {
                lemma_first_index_bounds(sub_ids(subs@), id@);
            }
            let s = &mut subs[k];
            s.name = string_of(&t);
            s.panel_title = None;
            Ok(subs[k].copy())
        },
    }
}

/// Sets a subscription's refresh interval; `NotFound("subscription <id>")`
/// for an unknown id.
pub fn set_auto_update(subs: &mut Vec<Subscription>, id: &str, hours: u32) -> (r: AppResult<()>)
    ensures
        match first_index(sub_ids(old(subs)@), id@) {
            None => (r matches Err(e) && e@ == ErrorView::NotFound("subscription "@ + id@))
                && final(subs)@ == old(subs)@,
            Some(k) => r is Ok && changed_at(
                old(subs)@,
                final(subs)@,
                k,
                SubView { auto_update_hours: hours, ..old(subs)@[k]@ },
            ),
        },
{
    match find_subscription(subs, id) {
        None => Err(not_found("subscription ", id)),
        Some(k) => {
            proof {
                lemma_first_index_bounds(sub_ids(subs@), id@);
            }
            let s = &mut subs[k];
            s.auto_update_hours = hours;
            Ok(())
        },
    }
}

/// Stars or unstars a server (the first with the id); returns whether
/// anything changed. `NotFound("server <id>")` for an unknown id.
pub fn set_server_favorite(store: &mut ProfileStore, id: &str, favorite: bool) -> (r: AppResult<
    bool,
>)
    ensures
        match locate(*old(store), id@) {
            None => (r matches Err(e) && e@ == ErrorView::NotFound("server "@ + id@))
                && *final(store) == *old(store),
            Some(loc) => r == Ok::<bool, AppError>(server_at(*old(store), loc).favorite != favorite)
                && replaced_at(
                *old(store),
                *final(store),
                loc,
                ProxyNode { favorite, ..server_at(*old(store), loc) },
            ),
        },
{
    match store.find_server_mut(id) {
        None => Err(not_found("server ", id)),
        Some(s) => {
            if s.favorite == favorite {
                Ok(false)
            } else {
                s.favorite = favorite;
                Ok(true)
            }
        },
    }
}

/// The name of a new subscription: the one given, trimmed, when it is not
/// blank; else the derived one.
pub open spec fn chosen_name(given: Option<Seq<char>>, fetched_title: Option<Seq<char>>, filename: Option<Seq<char>>, url: Seq<char>) -> Seq<char> {
    match given {
        Some(n) if trim(n).len() > 0 => trim(n),
        _ => derived_name(fetched_title, filename, url),
    }
}

/// A new subscription from what its first fetch returned: named as
/// `chosen_name` says, stamped `now`, refreshing at the panel's interval
/// (off when the panel gives none).
pub fn new_subscription(
    id: String,
    url: String,
    name: Option<String>,
    fetched: FetchedSubscription,
    now: String,
) -> (r: Subscription)
    ensures
        r@ == (SubView {
            id: id@,
            name: chosen_name(
                opt_text(name),
                opt_text(fetched.title),
                opt_text(fetched.filename),
                url@,
            ),
            url: url@,
            updated_at: Some(now@),
            quota: fetched.quota,
            auto_update_hours: match fetched.update_interval_hours {
                Some(h) => h,
                None => 0,
            },
            support_url: opt_text(fetched.support_url),
            web_page_url: opt_text(fetched.web_page_url),
            panel_title: opt_text(fetched.title),
            servers: node_views(fetched.servers@),
        }),
{
    let given = match &name {
        Some(n) => {
            let t = trim_chars(&chars_of(n.as_str()));
            if t.len() > 0 {
                Some(string_of(&t))
            } else {
                None
            }
        },
        None => None,
    };
    let final_name = match given {
        Some(n) => n,
        None => {
            let title = match &fetched.title {
                Some(t) => Some(t.as_str()),
                None => None,
            };
            let filename = match &fetched.filename {
                Some(f) => Some(f.as_str()),
                None => None,
            };
            derive_name(title, filename, url.as_str())
        },
    };
    let hours = match fetched.update_interval_hours {
        Some(h) => h,
        None => 0,
    };
    Subscription {
        id,
        name: final_name,
        url,
        updated_at: Some(now),
        quota: fetched.quota,
        auto_update_hours: hours,
        support_url: fetched.support_url,
        web_page_url: fetched.web_page_url,
        panel_title: fetched.title,
        servers: fetched.servers,
    }
}

/// A subscription after a refresh brought `fetched` at `now`: the merged
/// servers, the new stamp, and each header the panel sent replacing the
/// stored one; the fresh title also becomes the name when the stored name
/// is one this app picked.
pub open spec fn refreshed(old: SubView, fetched: FetchedSubscription, now: Seq<char>) -> SubView {
    let title = opt_text(fetched.title);
    SubView {
        servers: merged_list(old.servers, node_views(fetched.servers@)),
        updated_at: Some(now),
        quota: if fetched.quota is Some {
            fetched.quota
        } else {
            old.quota
        },
        name: match title {
            Some(t) if adoptable(old.name, old.panel_title, opt_text(fetched.filename), host_of(old.url)) => t,
            _ => old.name,
        },
        panel_title: match title {
            Some(t) => Some(t),
            None => old.panel_title,
        },
        support_url: match opt_text(fetched.support_url) {
            Some(u) => Some(u),
            None => old.support_url,
        },
        web_page_url: match opt_text(fetched.web_page_url) {
            Some(u) => Some(u),
            None => old.web_page_url,
        },
        ..old
    }
}

/// Applies a refresh to a stored subscription (see `refreshed`); returns
/// how many servers were added and removed.
pub fn apply_refresh(sub: &mut Subscription, fetched: FetchedSubscription, now: String) -> (r: (
    usize,
    usize,
))
    ensures
        final(sub)@ == refreshed(old(sub)@, fetched, now@),
        r.0 == count_new(old(sub)@.servers, node_views(fetched.servers@)),
        r.1 == count_gone(old(sub)@.servers, raws(node_views(fetched.servers@))),
{
    let ghost before = sub@;
    let ghost f = fetched;
    let FetchedSubscription {
        servers,
        errors: _,
        quota,
        filename,
        title,
        update_interval_hours: _,
        support_url,
        web_page_url,
    } = fetched;
    let (merged, added, removed) = merge_servers(sub.servers.as_slice(), servers);
    sub.servers = merged;
    sub.updated_at = Some(now);
    if quota.is_some() {
        sub.quota = quota;
    }
    match title {
        Some(t) => {
            let host = url_host(sub.url.as_str());
            let prev = match &sub.panel_title {
                Some(p) => Some(p.as_str()),
                None => None,
            };
            let file = match &filename {
                Some(x) => Some(x.as_str()),
                None => None,
            };
            let h = match &host {
                Some(x) => Some(x.as_str()),
                None => None,
            };
            if may_adopt_title(sub.name.as_str(), prev, file, h) {
                sub.name = t.clone();
            }
            sub.panel_title = Some(t);
        },
        None => {},
    }
    if support_url.is_some() {
        sub.support_url = support_url;
    }
    if web_page_url.is_some() {
        sub.web_page_url = web_page_url;
    }
    (added, removed)
}

/// The ids of the subscriptions due for a refresh at `now`, in order.
pub open spec fn due_list(subs: Seq<Subscription>, now: (i64, u32)) -> Seq<Seq<char>>
    decreases subs.len(),
{
    if subs.len() == 0 {
        Seq::empty()
    } else {
        let before = due_list(subs.drop_last(), now);
        let s = subs.last();
        if due_spec(s.auto_update_hours, opt_text(s.updated_at), now) {
            before.push(s.id@)
        } else {
            before
        }
    }
}

/// The ids of the subscriptions whose refresh is due at `now`.
pub fn due_ids(subs: &Vec<Subscription>, now: Timestamp) -> (r: Vec<String>)
    ensures
        texts(r@) == due_list(subs@, (now.secs, now.nanos)),
{
    let mut r: Vec<String> = Vec::new();
    let mut i: usize = 0;
    while i < subs.len()
        invariant
            i <= subs@.len(),
            texts(r@) == due_list(subs@.take(i as int), (now.secs, now.nanos)),
        decreases subs.len() - i,
    {
        assert(subs@.take(i + 1 as int).drop_last() =~= subs@.take(i as int));
        let s = &subs[i];
        let updated = match &s.updated_at {
            Some(u) => Some(u.as_str()),
            None => None,
        };
        let ghost before = texts(r@);
        if due_for_refresh(s.auto_update_hours, updated, now) {
            r.push(s.id.clone());
            assert(texts(r@) =~= before.push(s.id@));
        }
        i += 1;
    }
    assert(subs@.take(subs@.len() as int) =~= subs@);
    r
}

/// The identity sent with subscription requests: only when the setting is
/// on and the hardware id is not blank (a blank one would read as a
/// malformed device rather than an absent one).
pub fn request_identity(
    send_hwid: bool,
    hwid: &str,
    os: String,
    os_version: String,
    model: String,
) -> (r: Option<DeviceIdentity>)
    ensures
        (send_hwid && trim(hwid@).len() > 0) <==> r is Some,
        r matches Some(d) ==> d.hwid@ == hwid@ && d.os@ == os@ && d.os_version@ == os_version@
            && d.model@ == model@,
{
    if !send_hwid {
        return None;
    }
    let t = trim_chars(&chars_of(hwid));
    if t.len() == 0 {
        return None;
    }
    Some(DeviceIdentity { hwid: String::from_str(hwid), os, os_version, model })
}

// ---------------------------------------------------------------------------
// The auto-update failure streaks
// ---------------------------------------------------------------------------

/// Whether a list holds no text twice.
pub open spec fn distinct(v: Seq<Seq<char>>) -> bool {
    forall|i: int, j: int| 0 <= i < j < v.len() ==> v[i] != v[j]
}

/// The texts of `v` that `ids` holds, in order.
pub open spec fn still_listed(v: Seq<Seq<char>>, ids: Seq<Seq<char>>) -> Seq<Seq<char>>
    decreases v.len(),
{
    if v.len() == 0 {
        Seq::empty()
    } else {
        let before = still_listed(v.drop_last(), ids);
        if ids.contains(v.last()) {
            before.push(v.last())
        } else {
            before
        }
    }
}

/// The texts of `v` other than `x`, in order.
pub open spec fn without_text(v: Seq<Seq<char>>, x: Seq<char>) -> Seq<Seq<char>>
    decreases v.len(),
{
    if v.len() == 0 {
        Seq::empty()
    } else {
        let before = without_text(v.drop_last(), x);
        if v.last() == x {
            before
        } else {
            before.push(v.last())
        }
    }
}

proof fn lemma_still_listed_sub(v: Seq<Seq<char>>, ids: Seq<Seq<char>>)
    ensures
        forall|k: int|
            0 <= k < still_listed(v, ids).len() ==> v.contains(#[trigger] still_listed(v, ids)[k]),
        distinct(v) ==> distinct(still_listed(v, ids)),
    decreases v.len(),
{
    if v.len() > 0 {
        let w = v.drop_last();
        lemma_still_listed_sub(w, ids);
        let before = still_listed(w, ids);
        assert forall|k: int| 0 <= k < before.len() implies v.contains(#[trigger] before[k]) by {
            let j = choose|j: int| 0 <= j < w.len() && w[j] == before[k];
            assert(v[j] == w[j]);
        }
        assert(v[v.len() - 1] == v.last());
        if distinct(v) {
            assert forall|i: int, j: int| 0 <= i < j < w.len() implies w[i] != w[j] by {
                assert(w[i] == v[i] && w[j] == v[j]);
            }
            assert forall|k: int| 0 <= k < before.len() implies before[k] != v.last() by {
                let j = choose|j: int| 0 <= j < w.len() && w[j] == before[k];
                assert(v[j] == w[j]);
            }
        }
    }
}

proof fn lemma_without_text(v: Seq<Seq<char>>, x: Seq<char>)
    ensures
        !without_text(v, x).contains(x),
        forall|k: int|
            0 <= k < without_text(v, x).len() ==> v.contains(#[trigger] without_text(v, x)[k]),
        distinct(v) ==> distinct(without_text(v, x)),
        !v.contains(x) ==> without_text(v, x) == v,
    decreases v.len(),
{
    if v.len() > 0 {
        let w = v.drop_last();
        lemma_without_text(w, x);
        let before = without_text(w, x);
        assert forall|k: int| 0 <= k < before.len() implies v.contains(#[trigger] before[k]) by {
            let j = choose|j: int| 0 <= j < w.len() && w[j] == before[k];
            assert(v[j] == w[j]);
        }
        assert(v[v.len() - 1] == v.last());
        if distinct(v) {
            assert forall|i: int, j: int| 0 <= i < j < w.len() implies w[i] != w[j] by {
                assert(w[i] == v[i] && w[j] == v[j]);
            }
            assert forall|k: int| 0 <= k < before.len() implies before[k] != v.last() by {
                let j = choose|j: int| 0 <= j < w.len() && w[j] == before[k];
                assert(v[j] == w[j]);
            }
        }
        if !v.contains(x) {
            assert forall|j: int| 0 <= j < w.len() implies w[j] != x by {
                assert(w[j] == v[j]);
            }
            assert(w.push(v.last()) =~= v);
        }
    }
}

/// Keeps only the failing ids that still name a subscription, in order.
pub fn prune_failing(failing: &mut Vec<String>, subs: &Vec<Subscription>)
    ensures
        texts(final(failing)@) == still_listed(texts(old(failing)@), sub_ids(subs@)),
{
    let ghost orig = texts(failing@);
    let ghost ids = sub_ids(subs@);
    let mut kept: Vec<String> = Vec::new();
    let mut i: usize = 0;
    while i < failing.len()
        invariant
            i <= failing@.len(),
            orig == texts(failing@),
            ids == sub_ids(subs@),
            texts(kept@) == still_listed(orig.take(i as int), ids),
        decreases failing.len() - i,
    {
        let ghost before = texts(kept@);
        assert(orig.take(i + 1 as int).drop_last() =~= orig.take(i as int));
        let found = find_subscription(subs, failing[i].as_str()).is_some();
        proof {
            lemma_first_index_some(ids, orig[i as int]);
        }
        if found {
            kept.push(failing[i].clone());
            assert(texts(kept@) =~= before.push(orig[i as int]));
        }
        i += 1;
    }
    assert(orig.take(failing@.len() as int) =~= orig);
    *failing = kept;
}

/// `first_index` finds exactly the ids a list holds.
pub proof fn lemma_first_index_some(ids: Seq<Seq<char>>, id: Seq<char>)
    ensures
        first_index(ids, id) is Some <==> ids.contains(id),
    decreases ids.len(),
{
    if ids.len() > 0 {
        let w = ids.drop_last();
        lemma_first_index_some(w, id);
        if w.contains(id) {
            let j = choose|j: int| 0 <= j < w.len() && w[j] == id;
            assert(ids[j] == w[j]);
        }
        if ids.contains(id) && !w.contains(id) {
            let j = choose|j: int| 0 <= j < ids.len() && ids[j] == id;
            if j < w.len() {
                assert(w[j] == ids[j]);
            }
        }
    }
}

/// Records how a refresh of `id` went in the set of subscriptions whose
/// refreshes keep failing; returns whether it is worth a log line: a
/// recovery, or the first failure of a streak.
pub fn note_refresh(failing: &mut Vec<String>, id: &str, succeeded: bool) -> (log: bool)
    ensures
        succeeded ==> log == texts(old(failing)@).contains(id@) && texts(final(failing)@)
            == without_text(texts(old(failing)@), id@),
        !succeeded ==> log == !texts(old(failing)@).contains(id@) && texts(final(failing)@) == (
        if log {
            texts(old(failing)@).push(id@)
        } else {
            texts(old(failing)@)
        }),
        distinct(texts(old(failing)@)) ==> distinct(texts(final(failing)@)),
{
    let ghost orig = texts(failing@);
    let key = String::from_str(id);
    let mut listed = false;
    let mut kept: Vec<String> = Vec::new();
    let mut i: usize = 0;
    while i < failing.len()
        invariant
            i <= failing@.len(),
            orig == texts(failing@),
            key@ == id@,
            listed == orig.take(i as int).contains(id@),
            texts(kept@) == without_text(orig.take(i as int), id@),
        decreases failing.len() - i,
    {
        let ghost before = texts(kept@);
        let ghost pre = orig.take(i as int);
        assert(orig.take(i + 1 as int) =~= pre.push(orig[i as int]));
        assert(orig.take(i + 1 as int).drop_last() =~= pre);
        if failing[i] == key {
            listed = true;
            assert(orig.take(i + 1 as int)[i as int] == id@);
        } else {
            kept.push(failing[i].clone());
            assert(texts(kept@) =~= before.push(orig[i as int]));
            proof {
                if !pre.contains(id@) {
                    let nxt = orig.take(i + 1 as int);
                    assert forall|j: int| 0 <= j <= i implies #[trigger] nxt[j] != id@ by {
                        if j < i {
                            assert(nxt[j] == pre[j]);
                        }
                    }
                }
            }
        }
        proof {
            if pre.contains(id@) {
                let j = choose|j: int| 0 <= j < pre.len() && pre[j] == id@;
                assert(orig.take(i + 1 as int)[j] == id@);
            }
        }
        i += 1;
    }
    assert(orig.take(failing@.len() as int) =~= orig);
    proof {
        lemma_without_text(orig, id@);
    }
    if succeeded {
        *failing = kept;
        listed
    } else if listed {
        false
    } else {
        let ghost before = texts(failing@);
        failing.push(key);
        assert(texts(failing@) =~= before.push(id@));
        proof {
            if distinct(orig) {
                assert forall|a: int, b: int| 0 <= a < b < texts(failing@).len() implies texts(
                    failing@,
                )[a] != texts(failing@)[b] by {
                    if b == orig.len() {
                        assert(orig[a] != id@);
                    }
                }
            }
        }
        true
    }
}

/// A refresh keeps the traffic figures current: when the panel sends a
/// quota, the refreshed subscription holds exactly that quota, and only
/// when it sends none does the stored one stay. The servers are the merge
/// of the stored ones with the fetched ones, and the refresh time is the
/// new stamp.
pub proof fn lemma_refresh_quota(old: SubView, fetched: FetchedSubscription, now: Seq<char>)
    ensures
        fetched.quota is Some ==> refreshed(old, fetched, now).quota == fetched.quota,
        fetched.quota is None ==> refreshed(old, fetched, now).quota == old.quota,
        refreshed(old, fetched, now).updated_at == Some(now),
        refreshed(old, fetched, now).id == old.id,
        refreshed(old, fetched, now).url == old.url,
{
}

} // verus!
