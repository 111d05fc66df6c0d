//! System proxy and elevation: the values written to the system proxy
//! settings, who owns them, and the command line of the elevated relaunch.

use vstd::prelude::*;
use vstd::string::*;

use crate::error::{AppError, ErrorView};
use crate::models::{texts, ProxyBackup, Settings};
use crate::text::{
    chars_of, decimal, decimal_exec, is_ws, is_ws_exec, join, join_exec, push_all, push_str,
    seq_views, string_of,
};

verus! {

/// Handed to the elevated instance so it knows to pick the connection back
/// up.
pub const RESUME_TUN_FLAG: &'static str = "--resume-tun";

/// Whether a command line (program name included) carries the resume flag
/// as a whole argument.
pub fn has_resume_tun(args: &Vec<String>) -> (r: bool)
    ensures
        r == texts(args@).contains(RESUME_TUN_FLAG@),
{
    let flag = String::from_str(RESUME_TUN_FLAG);
    let ghost ts = texts(args@);
    let mut i: usize = 0;
    while i < args.len()
        invariant
            i <= args@.len(),
            ts == texts(args@),
            flag@ == RESUME_TUN_FLAG@,
            forall|j: int| 0 <= j < i ==> ts[j] != RESUME_TUN_FLAG@,
        decreases args.len() - i,
    {
        if args[i] == flag {
            assert(ts[i as int] == RESUME_TUN_FLAG@);
            return true;
        }
        i += 1;
    }
    false
}

/// An argument as a command line carries it: in double quotes when it
/// holds whitespace.
pub open spec fn quoted_arg(a: Seq<char>) -> Seq<char> {
    if exists|i: int| 0 <= i < a.len() && is_ws(#[trigger] a[i]) {
        "\""@ + a + "\""@
    } else {
        a
    }
}

pub open spec fn quoted_args(args: Seq<Seq<char>>) -> Seq<Seq<char>> {
    args.map_values(|a: Seq<char>| quoted_arg(a))
}

pub open spec fn str_texts(v: Seq<&str>) -> Seq<Seq<char>> {
    v.map_values(|s: &str| s@)
}

fn quote_exec(a: &str) -> (r: Vec<char>)
    ensures
        r@ == quoted_arg(a@),
{
    let c = chars_of(a);
    let mut i: usize = 0;
    while i < c.len()
        invariant
            i <= c@.len(),
            c@ == a@,
            forall|j: int| 0 <= j < i ==> !is_ws(#[trigger] c@[j]),
        decreases c.len() - i,
    {
        if is_ws_exec(c[i]) {
            let mut r = chars_of("\"");
            push_all(&mut r, &c);
            push_str(&mut r, "\"");
            return r;
        }
        i += 1;
    }
    c
}

/// The parameter string of the elevated relaunch: the arguments separated
/// by spaces, each quoted when it holds whitespace.
pub fn join_args(args: &[&str]) -> (r: String)
    ensures
        r@ == join(quoted_args(str_texts(args@)), " "@),
{
    let mut parts: Vec<Vec<char>> = Vec::new();
    let mut i: usize = 0;
    while i < args.len()
        invariant
            i <= args@.len(),
            seq_views(parts@) == quoted_args(str_texts(args@)).subrange(0, i as int),
        decreases args.len() - i,
    {
        let q = quote_exec(args[i]);
        let ghost before = parts@;
        parts.push(q);
        i += 1;
        assert(seq_views(parts@) =~= seq_views(before).push(q@));
        assert(seq_views(parts@) =~= quoted_args(str_texts(args@)).subrange(0, i as int));
    }
    assert(quoted_args(str_texts(args@)).subrange(0, args@.len() as int) =~= quoted_args(
        str_texts(args@),
    ));
    string_of(&join_exec(&parts, " "))
}

/// A signed number in decimal.
pub open spec fn signed_decimal(n: int) -> Seq<char> {
    if n < 0 {
        "-"@ + decimal((-n) as nat)
    } else {
        decimal(n as nat)
    }
}

pub(crate) fn signed_decimal_exec(n: isize) -> (r: Vec<char>)
    ensures
        r@ == signed_decimal(n as int),
{
    if n < 0 {
        let m: u64 = ((0i128 - n as i128) as u64);
        let mut r = chars_of("-");
        push_all(&mut r, &decimal_exec(m));
        r
    } else {
        decimal_exec(n as u64)
    }
}

/// What the shell's answer to the elevation request means: above 32 is
/// success, anything else an error naming the code.
pub fn elevation_result(code: isize) -> (r: Result<(), AppError>)
    ensures
        code > 32 ==> r is Ok,
        code <= 32 ==> (r matches Err(e) && e@ == ErrorView::Internal(
            "elevation request failed (ShellExecuteW code "@ + signed_decimal(code as int) + ")"@,
        )),
{
    if code > 32 {
        Ok(())
    } else {
        let mut msg = chars_of("elevation request failed (ShellExecuteW code ");
        push_all(&mut msg, &signed_decimal_exec(code));
        push_str(&mut msg, ")");
        Err(AppError::Internal(string_of(&msg)))
    }
}

// ---------------------------------------------------------------------------
// System proxy values
// ---------------------------------------------------------------------------

/// The proxy server value: the loopback address and the local port.
pub fn proxy_server_value(port: u16) -> (r: String)
    ensures
        r@ == "127.0.0.1:"@ + decimal(port as nat),
{
    let mut r = chars_of("127.0.0.1:");
    push_all(&mut r, &decimal_exec(port as u64));
    string_of(&r)
}

/// The private ranges that bypass the proxy: localhost, 127/8, 10/8,
/// 172.16/12, 192.168/16 and local names.
pub open spec fn bypass_entries() -> Seq<Seq<char>> {
    seq!["localhost"@, "127.*"@, "10.*"@] + Seq::new(
        16,
        |i: int| "172."@ + decimal((16 + i) as nat) + ".*"@,
    ) + seq!["192.168.*"@, "<local>"@]
}

/// The bypass list written with the proxy: the private ranges joined by `;`.
pub fn default_bypass_list() -> (r: String)
    ensures
        r@ == join(bypass_entries(), ";"@),
{
    let mut parts: Vec<Vec<char>> = Vec::new();
    parts.push(chars_of("localhost"));
    parts.push(chars_of("127.*"));
    parts.push(chars_of("10.*"));
    let ghost head = seq!["localhost"@, "127.*"@, "10.*"@];
    assert(seq_views(parts@) =~= head);
    let mut n: u64 = 16;
    while n <= 31
        invariant
            16 <= n <= 32,
            seq_views(parts@) == head + Seq::new(
                (n - 16) as nat,
                |i: int| "172."@ + decimal((16 + i) as nat) + ".*"@,
            ),
        decreases 32 - n,
    {
        let mut p = chars_of("172.");
        push_all(&mut p, &decimal_exec(n));
        push_str(&mut p, ".*");
        let ghost before = seq_views(parts@);
        parts.push(p);
        n += 1;
        assert(seq_views(parts@) =~= before.push(p@));
        assert(seq_views(parts@) =~= head + Seq::new(
            (n - 16) as nat,
            |i: int| "172."@ + decimal((16 + i) as nat) + ".*"@,
        ));
    }
    let ghost mid = seq_views(parts@);
    parts.push(chars_of("192.168.*"));
    parts.push(chars_of("<local>"));
    assert(seq_views(parts@) =~= bypass_entries());
    string_of(&join_exec(&parts, ";"))
}

/// The backup after taking over the proxy: the values found, unless this
/// app already owned it.
pub open spec fn taken_backup(owned: bool, backup: ProxyBackup, current: ProxyBackup) -> ProxyBackup {
    if owned {
        backup
    } else {
        current
    }
}

/// Takes over the system proxy: the values found (`current`) become the
/// backup unless this app already owns the proxy, in which case the settings
/// hold its own values and the user's real backup must survive.
pub fn take_proxy_ownership(settings: &mut Settings, current: ProxyBackup)
    ensures
        final(settings).proxy_owned,
        final(settings).proxy_backup == taken_backup(
            old(settings).proxy_owned,
            old(settings).proxy_backup,
            current,
        ),
        final(settings).routing_rules == old(settings).routing_rules,
        final(settings).mixed_port == old(settings).mixed_port,
        final(settings).mode == old(settings).mode,
{
    if !settings.proxy_owned {
        settings.proxy_backup = current;
    }
    settings.proxy_owned = true;
}

/// Hands the system proxy back once the backup is restored.
pub fn release_proxy_ownership(settings: &mut Settings)
    ensures
        !final(settings).proxy_owned,
        final(settings).proxy_backup == old(settings).proxy_backup,
        final(settings).routing_rules == old(settings).routing_rules,
{
    settings.proxy_owned = false;
}

/// A second take-over (the app already owns the proxy) keeps the backup of
/// the first: a repeated enable never overwrites the user's real settings
/// with this app's own.
pub proof fn lemma_second_take_keeps_backup(
    owned: bool,
    backup: ProxyBackup,
    first: ProxyBackup,
    second: ProxyBackup,
)
    ensures
        taken_backup(true, taken_backup(owned, backup, first), second) == taken_backup(
            owned,
            backup,
            first,
        ),
{
}

} // verus!
