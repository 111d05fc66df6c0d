//! The running-process list the routing-rule editor offers: which
//! processes of the system's snapshot are listed, with which window title,
//! and in what order.

use vstd::prelude::*;
use vstd::string::*;

use crate::models::RunningProcess;
use crate::text::{chars_of, eq_ignore_case, eq_ignore_case_exec, string_of, trim, trim_chars};
use crate::url_text::opt_text;

verus! {

// ---------------------------------------------------------------------------
// Unicode lower case
// ---------------------------------------------------------------------------

/// What `str::to_lowercase` gives for a text.
pub uninterp spec fn lowercase_text(s: Seq<char>) -> Seq<char>;

/// Calls `str::to_lowercase`; the contract names its result.
#[verifier::external_body]
fn to_lowercase(s: &str) -> (r: String)
    ensures
        r@ == lowercase_text(s@),
{
    s.to_lowercase()
}

// ---------------------------------------------------------------------------
// Order
// ---------------------------------------------------------------------------

/// Lexicographic order on texts by code point (the order of `str`'s `<=`,
/// UTF-8 byte order being code-point order).
pub open spec fn text_le(a: Seq<char>, b: Seq<char>) -> bool
    decreases a.len(),
{
    if a.len() == 0 {
        true
    } else if b.len() == 0 {
        false
    } else if a[0] != b[0] {
        a[0] < b[0]
    } else {
        text_le(a.drop_first(), b.drop_first())
    }
}

/// Any two texts are ordered one way or the other.
pub proof fn lemma_text_le_total(a: Seq<char>, b: Seq<char>)
    ensures
        text_le(a, b) || text_le(b, a),
    decreases a.len(),
{
    if a.len() > 0 && b.len() > 0 && a[0] == b[0] {
        lemma_text_le_total(a.drop_first(), b.drop_first());
    }
}

/// The text order is transitive.
pub proof fn lemma_text_le_trans(a: Seq<char>, b: Seq<char>, c: Seq<char>)
    requires
        text_le(a, b),
        text_le(b, c),
    ensures
        text_le(a, c),
    decreases a.len(),
{
    if a.len() > 0 && b.len() > 0 && c.len() > 0 && a[0] == b[0] && b[0] == c[0] {
        lemma_text_le_trans(a.drop_first(), b.drop_first(), c.drop_first());
    }
}

/// `a <= b` on texts.
fn text_le_exec(a: &Vec<char>, b: &Vec<char>) -> (r: bool)
    ensures
        r == text_le(a@, b@),
{
    let mut i: usize = 0;
    assert(a@.subrange(0, a@.len() as int) =~= a@);
    assert(b@.subrange(0, b@.len() as int) =~= b@);
    while i < a.len() && i < b.len() && a[i] == b[i]
        invariant
            i <= a@.len(),
            i <= b@.len(),
            a@.subrange(0, i as int) == b@.subrange(0, i as int),
            text_le(a@, b@) == text_le(
                a@.subrange(i as int, a@.len() as int),
                b@.subrange(i as int, b@.len() as int),
            ),
        decreases a.len() - i,
    {
        let ghost sa = a@.subrange(i as int, a@.len() as int);
        let ghost sb = b@.subrange(i as int, b@.len() as int);
        assert(sa.drop_first() =~= a@.subrange(i + 1, a@.len() as int));
        assert(sb.drop_first() =~= b@.subrange(i + 1, b@.len() as int));
        i += 1;
        assert(a@.subrange(0, i as int) =~= b@.subrange(0, i as int));
    }
    if i == a.len() {
        true
    } else if i == b.len() {
        false
    } else {
        a[i] < b[i]
    }
}

/// What the list is ordered by: processes with a window first, then by the
/// lower-cased name.
pub struct ProcKey {
    pub untitled: bool,
    pub lname: Seq<char>,
}

/// A listed process, its texts as character sequences.
pub struct ProcView {
    pub pid: u32,
    pub name: Seq<char>,
    pub title: Option<Seq<char>>,
    pub path: Option<Seq<char>>,
}

pub open spec fn proc_view(p: RunningProcess) -> ProcView {
    ProcView { pid: p.pid, name: p.name@, title: opt_text(p.title), path: opt_text(p.path) }
}

pub open spec fn proc_views(v: Seq<RunningProcess>) -> Seq<ProcView> {
    Seq::new(v.len(), |i: int| proc_view(v[i]))
}

pub open spec fn key_of(p: ProcView) -> ProcKey {
    ProcKey { untitled: p.title is None, lname: lowercase_text(p.name) }
}

/// `a` may come before `b`.
pub open spec fn key_le(a: ProcKey, b: ProcKey) -> bool {
    if a.untitled != b.untitled {
        !a.untitled
    } else {
        text_le(a.lname, b.lname)
    }
}

/// Any two sort keys are ordered one way or the other.
pub proof fn lemma_key_le_total(a: ProcKey, b: ProcKey)
    ensures
        key_le(a, b) || key_le(b, a),
{
    lemma_text_le_total(a.lname, b.lname);
}

/// The sort-key order is transitive.
pub proof fn lemma_key_le_trans(a: ProcKey, b: ProcKey, c: ProcKey)
    requires
        key_le(a, b),
        key_le(b, c),
    ensures
        key_le(a, c),
{
    if a.untitled == b.untitled && b.untitled == c.untitled {
        lemma_text_le_trans(a.lname, b.lname, c.lname);
    }
}

/// How many leading elements of `s` may come before `x` (for `s` sorted,
/// where a stable insertion puts `x`: after every element not above it).
pub open spec fn insert_pos(s: Seq<ProcView>, x: ProcView) -> nat
    decreases s.len(),
{
    if s.len() == 0 {
        0
    } else if key_le(key_of(s[0]), key_of(x)) {
        1 + insert_pos(s.drop_first(), x)
    } else {
        0
    }
}

/// `x` inserted into `s` after the leading elements that may come before
/// it.
pub open spec fn insert_sorted(s: Seq<ProcView>, x: ProcView) -> Seq<ProcView> {
    let k = insert_pos(s, x) as int;
    s.take(k).push(x) + s.skip(k)
}

/// The list sorted stably by `key_le`: each element inserted, in order,
/// after every earlier one that may come before it.
pub open spec fn sorted_list(s: Seq<ProcView>) -> Seq<ProcView>
    decreases s.len(),
{
    if s.len() == 0 {
        Seq::empty()
    } else {
        insert_sorted(sorted_list(s.drop_last()), s.last())
    }
}

pub open spec fn is_sorted(s: Seq<ProcView>) -> bool {
    forall|i: int, j: int| 0 <= i < j < s.len() ==> key_le(key_of(s[i]), key_of(s[j]))
}

proof fn lemma_insert_pos_bounds(s: Seq<ProcView>, x: ProcView)
    ensures
        insert_pos(s, x) <= s.len(),
        forall|i: int| 0 <= i < insert_pos(s, x) ==> key_le(key_of(#[trigger] s[i]), key_of(x)),
        insert_pos(s, x) < s.len() ==> !key_le(key_of(s[insert_pos(s, x) as int]), key_of(x)),
    decreases s.len(),
{
    if s.len() > 0 && key_le(key_of(s[0]), key_of(x)) {
        lemma_insert_pos_bounds(s.drop_first(), x);
        assert forall|i: int| 0 <= i < insert_pos(s, x) implies key_le(key_of(#[trigger] s[i]), key_of(x)) by {
            if i > 0 {
                assert(s[i] == s.drop_first()[i - 1]);
            }
        }
        if insert_pos(s, x) < s.len() {
            assert(s[insert_pos(s, x) as int] == s.drop_first()[insert_pos(s.drop_first(), x) as int]);
        }
    }
}

proof fn lemma_insert_keeps_sorted(s: Seq<ProcView>, x: ProcView)
    requires
        is_sorted(s),
    ensures
        is_sorted(insert_sorted(s, x)),
        insert_sorted(s, x).len() == s.len() + 1,
{
    lemma_insert_pos_bounds(s, x);
    let k = insert_pos(s, x) as int;
    let r = insert_sorted(s, x);
    assert(r.len() == s.len() + 1);
    assert forall|i: int, j: int| 0 <= i < j < r.len() implies key_le(key_of(r[i]), key_of(r[j])) by {
        if j < k {
            assert(r[i] == s[i] && r[j] == s[j]);
        } else if j == k {
            assert(r[i] == s[i]);
            assert(r[j] == x);
        } else if i < k {
            assert(r[i] == s[i]);
            assert(r[j] == s[j - 1]);
            if i < j - 1 {
            }
        } else if i == k {
            assert(r[i] == x);
            assert(r[j] == s[j - 1]);
            lemma_key_le_total(key_of(s[k]), key_of(x));
            if j - 1 > k {
                lemma_key_le_trans(key_of(x), key_of(s[k]), key_of(s[j - 1]));
            }
        } else {
            assert(r[i] == s[i - 1]);
            assert(r[j] == s[j - 1]);
        }
    }
}

/// The sorted list is sorted.
pub proof fn lemma_sorted_list_sorted(s: Seq<ProcView>)
    ensures
        is_sorted(sorted_list(s)),
        sorted_list(s).len() == s.len(),
    decreases s.len(),
{
    if s.len() > 0 {
        lemma_sorted_list_sorted(s.drop_last());
        lemma_insert_keeps_sorted(sorted_list(s.drop_last()), s.last());
    }
}

/// The sorted list holds the same processes, as many times each.
pub proof fn lemma_sorted_list_permutes(s: Seq<ProcView>)
    ensures
        sorted_list(s).to_multiset() == s.to_multiset(),
    decreases s.len(),
{
    if s.len() > 0 {
        let w = s.drop_last();
        let x = s.last();
        lemma_sorted_list_permutes(w);
        let t = sorted_list(w);
        lemma_insert_pos_bounds(t, x);
        let k = insert_pos(t, x) as int;
        let a = t.take(k);
        let b = t.skip(k);
        let one = seq![x];
        assert(a.push(x) =~= a + one);
        assert(insert_sorted(t, x) =~= (a + one) + b);
        assert(a + b =~= t);
        assert(w + one =~= s);
        vstd::seq_lib::lemma_multiset_commutative(a + one, b);
        vstd::seq_lib::lemma_multiset_commutative(a, one);
        vstd::seq_lib::lemma_multiset_commutative(a, b);
        vstd::seq_lib::lemma_multiset_commutative(w, one);
        assert(a.to_multiset().add(one.to_multiset()).add(b.to_multiset()) =~= a.to_multiset().add(
            b.to_multiset(),
        ).add(one.to_multiset()));
        assert(sorted_list(s) == insert_sorted(t, x));
        assert(sorted_list(s).to_multiset() == ((a + one) + b).to_multiset());
        assert(s.to_multiset() == (w + one).to_multiset());
    } else {
        assert(s =~= Seq::<ProcView>::empty());
    }
}

fn key_le_exec(a: &RunningProcess, la: &Vec<char>, b: &RunningProcess, lb: &Vec<char>) -> (r: bool)
    requires
        la@ == lowercase_text(a.name@),
        lb@ == lowercase_text(b.name@),
    ensures
        r == key_le(key_of(proc_view(*a)), key_of(proc_view(*b))),
{
    let ua = a.title.is_none();
    let ub = b.title.is_none();
    if ua != ub {
        !ua
    } else {
        text_le_exec(la, lb)
    }
}

/// The processes sorted stably: those with a window first, then by their
/// lower-cased names.
pub fn order_processes(v: Vec<RunningProcess>) -> (r: Vec<RunningProcess>)
    ensures
        proc_views(r@) == sorted_list(proc_views(v@)),
{
    let ghost orig = proc_views(v@);
    let total = v.len();
    let mut rest = v;
    let mut out: Vec<RunningProcess> = Vec::new();
    let mut keys: Vec<Vec<char>> = Vec::new();
    let mut i: usize = 0;
    while rest.len() > 0
        invariant
            i + rest@.len() == orig.len(),
            orig.len() == total,
            proc_views(rest@) =~= orig.subrange(i as int, orig.len() as int),
            proc_views(out@) == sorted_list(orig.take(i as int)),
            keys@.len() == out@.len(),
            forall|k: int| 0 <= k < out@.len() ==> (#[trigger] keys@[k])@ == lowercase_text(out@[k].name@),
        decreases rest.len(),
    {
        let ghost r0 = proc_views(rest@);
        let ghost old_rest = rest@;
        assert(r0[0] == orig[i as int]);
        assert(r0[0] == proc_view(old_rest[0]));
        let x = rest.remove(0);
        assert(x == old_rest[0]);
        assert(proc_views(rest@) =~= r0.subrange(1, r0.len() as int));
        assert(proc_view(x) == orig[i as int]);
        assert(orig.take(i + 1 as int).drop_last() =~= orig.take(i as int));
        let lx = chars_of(to_lowercase(x.name.as_str()).as_str());
        let ghost s = proc_views(out@);
        let ghost xv = proc_view(x);
        assert(s.skip(0) =~= s);
        let mut k: usize = 0;
        while k < out.len() && key_le_exec(&out[k], &keys[k], &x, &lx)
            invariant
                k <= out@.len(),
                proc_views(out@) == s,
                xv == proc_view(x),
                keys@.len() == out@.len(),
                forall|m: int| 0 <= m < out@.len() ==> (#[trigger] keys@[m])@ == lowercase_text(out@[m].name@),
                lx@ == lowercase_text(x.name@),
                insert_pos(s, xv) == k + insert_pos(s.skip(k as int), xv),
            decreases out.len() - k,
        {
            assert(s[k as int] == proc_view(out@[k as int]));
            assert(s.skip(k as int).drop_first() =~= s.skip(k + 1 as int));
            k += 1;
        }
        proof {
            if k < out@.len() {
                assert(s.skip(k as int)[0] == s[k as int]);
                assert(s[k as int] == proc_view(out@[k as int]));
            }
            assert(insert_pos(s, xv) == k);
        }
        out.insert(k, x);
        keys.insert(k, lx);
        assert(proc_views(out@) =~= insert_sorted(s, xv));
        i += 1;
    }
    assert(orig.take(orig.len() as int) =~= orig);
    out
}

// ---------------------------------------------------------------------------
// Which processes are listed
// ---------------------------------------------------------------------------

/// A top-level window, as the system enumerates them.
#[derive(Debug, Clone)]
pub struct WindowEntry {
    pub pid: u32,
    pub visible: bool,
    pub title: String,
}

/// A process of the system's snapshot: its id, executable file name, and
/// full image path when it could be queried.
#[derive(Debug, Clone)]
pub struct ProcessEntry {
    pub pid: u32,
    pub exe_name: String,
    pub path: Option<String>,
}

/// The title shown for a process: the trimmed text of its first visible
/// window whose text is not blank.
pub open spec fn window_title(ws: Seq<WindowEntry>, pid: u32) -> Option<Seq<char>>
    decreases ws.len(),
{
    if ws.len() == 0 {
        None
    } else {
        let w = ws[0];
        if w.visible && w.pid != 0 && w.pid == pid && trim(w.title@).len() > 0 {
            Some(trim(w.title@))
        } else {
            window_title(ws.drop_first(), pid)
        }
    }
}

/// System processes never offered for routing rules.
pub open spec fn system_processes() -> Seq<Seq<char>> {
    seq![
        "svchost.exe"@,
        "dwm.exe"@,
        "smss.exe"@,
        "csrss.exe"@,
        "wininit.exe"@,
        "winlogon.exe"@,
        "services.exe"@,
        "lsass.exe"@,
        "fontdrvhost.exe"@,
        "RuntimeBroker.exe"@,
        "sihost.exe"@,
        "ctfmon.exe"@,
        "conhost.exe"@,
    ]
}

/// The name is one of the system processes, ignoring ASCII case.
pub open spec fn is_system_process(name: Seq<char>) -> bool {
    exists|i: int| 0 <= i < system_processes().len() && eq_ignore_case(name, #[trigger] system_processes()[i])
}

/// A snapshot entry is listed: a real process (id above 4) with a name
/// that is not blank and not a system process.
pub open spec fn listed_entry(e: ProcessEntry) -> bool {
    e.pid > 4 && trim(e.exe_name@).len() > 0 && !is_system_process(trim(e.exe_name@))
}

pub open spec fn entry_view(e: ProcessEntry, ws: Seq<WindowEntry>) -> ProcView {
    ProcView {
        pid: e.pid,
        name: trim(e.exe_name@),
        title: window_title(ws, e.pid),
        path: opt_text(e.path),
    }
}

/// Two listed processes are the same entry when their lower-cased names
/// and titles agree.
pub open spec fn same_entry(a: ProcView, b: ProcView) -> bool {
    lowercase_text(a.name) == lowercase_text(b.name) && a.title == b.title
}

/// The listed processes in snapshot order, each kept only the first time
/// its name and title occur.
pub open spec fn listed_views(es: Seq<ProcessEntry>, ws: Seq<WindowEntry>) -> Seq<ProcView>
    decreases es.len(),
{
    if es.len() == 0 {
        Seq::empty()
    } else {
        let before = listed_views(es.drop_last(), ws);
        let e = es.last();
        if !listed_entry(e) {
            before
        } else if exists|j: int| 0 <= j < before.len() && same_entry(#[trigger] before[j], entry_view(e, ws)) {
            before
        } else {
            before.push(entry_view(e, ws))
        }
    }
}

/// No two listed processes are the same entry, none is a system process,
/// and every one is a real process with a name.
pub proof fn lemma_listed_views(es: Seq<ProcessEntry>, ws: Seq<WindowEntry>)
    ensures
        forall|i: int, j: int|
            0 <= i < j < listed_views(es, ws).len() ==> !same_entry(
                listed_views(es, ws)[i],
                listed_views(es, ws)[j],
            ),
        forall|i: int|
            0 <= i < listed_views(es, ws).len() ==> {
                let p = #[trigger] listed_views(es, ws)[i];
                &&& p.pid > 4
                &&& p.name.len() > 0
                &&& !is_system_process(p.name)
            },
    decreases es.len(),
{
    if es.len() > 0 {
        lemma_listed_views(es.drop_last(), ws);
        let before = listed_views(es.drop_last(), ws);
        let now = listed_views(es, ws);
        if now.len() > before.len() {
            let v = entry_view(es.last(), ws);
            assert(now == before.push(v));
            assert forall|i: int, j: int| 0 <= i < j < now.len() implies !same_entry(now[i], now[j]) by {
                if j == before.len() {
                    assert(now[i] == before[i]);
                    assert(now[j] == v);
                } else {
                    assert(now[i] == before[i] && now[j] == before[j]);
                }
            }
            assert forall|i: int| 0 <= i < now.len() implies {
                let p = #[trigger] now[i];
                &&& p.pid > 4
                &&& p.name.len() > 0
                &&& !is_system_process(p.name)
            } by {
                if i < before.len() {
                    assert(now[i] == before[i]);
                }
            }
        }
    }
}

fn window_title_exec(ws: &Vec<WindowEntry>, pid: u32) -> (r: Option<String>)
    ensures
        opt_text(r) == window_title(ws@, pid),
{
    let mut i: usize = 0;
    assert(ws@.skip(0) =~= ws@);
    while i < ws.len()
        invariant
            i <= ws@.len(),
            window_title(ws@, pid) == window_title(ws@.skip(i as int), pid),
        decreases ws.len() - i,
    {
        assert(ws@.skip(i as int)[0] == ws@[i as int]);
        assert(ws@.skip(i as int).drop_first() =~= ws@.skip(i + 1 as int));
        let w = &ws[i];
        if w.visible && w.pid != 0 && w.pid == pid {
            let t = trim_chars(&chars_of(w.title.as_str()));
            if t.len() > 0 {
                return Some(string_of(&t));
            }
        }
        i += 1;
    }
    None
}

fn is_system_exec(name: &Vec<char>) -> (r: bool)
    ensures
        r == is_system_process(name@),
{
    let names = vec![
        "svchost.exe",
        "dwm.exe",
        "smss.exe",
        "csrss.exe",
        "wininit.exe",
        "winlogon.exe",
        "services.exe",
        "lsass.exe",
        "fontdrvhost.exe",
        "RuntimeBroker.exe",
        "sihost.exe",
        "ctfmon.exe",
        "conhost.exe",
    ];
    assert(names@.map_values(|s: &str| s@) =~= system_processes());
    let mut i: usize = 0;
    while i < names.len()
        invariant
            i <= names@.len(),
            names@.map_values(|s: &str| s@) == system_processes(),
            forall|j: int| 0 <= j < i ==> !eq_ignore_case(name@, #[trigger] system_processes()[j]),
        decreases names.len() - i,
    {
        let n = chars_of(names[i]);
        assert(system_processes()[i as int] == names@[i as int]@);
        if eq_ignore_case_exec(name, &n) {
            return true;
        }
        i += 1;
    }
    false
}

fn same_title(a: &Option<String>, b: &Option<String>) -> (r: bool)
    ensures
        r == (opt_text(*a) == opt_text(*b)),
{
    match (a, b) {
        (None, None) => true,
        (Some(x), Some(y)) => *x == *y,
        _ => false,
    }
}

/// The processes to offer for routing rules, from the system's snapshot
/// and its windows: the listed entries (see `listed_views`), ordered by
/// `order_processes`.
pub fn list_running_processes(entries: Vec<ProcessEntry>, windows: &Vec<WindowEntry>) -> (r: Vec<
    RunningProcess,
>)
    ensures
        proc_views(r@) == sorted_list(listed_views(entries@, windows@)),
{
    let ghost es = entries@;
    let ghost ws = windows@;
    let mut out: Vec<RunningProcess> = Vec::new();
    let mut keys: Vec<Vec<char>> = Vec::new();
    let mut i: usize = 0;
    while i < entries.len()
        invariant
            i <= es.len(),
            es == entries@,
            ws == windows@,
            proc_views(out@) == listed_views(es.take(i as int), ws),
            keys@.len() == out@.len(),
            forall|k: int| 0 <= k < out@.len() ==> (#[trigger] keys@[k])@ == lowercase_text(out@[k].name@),
        decreases entries.len() - i,
    {
        assert(es.take(i + 1 as int).drop_last() =~= es.take(i as int));
        let e = &entries[i];
        let ghost before = proc_views(out@);
        let name = trim_chars(&chars_of(e.exe_name.as_str()));
        if e.pid > 4 && name.len() > 0 && !is_system_exec(&name) {
            let name_text = string_of(&name);
            let lname = chars_of(to_lowercase(name_text.as_str()).as_str());
            let title = window_title_exec(windows, e.pid);
            let ghost v = entry_view(*e, ws);
            let mut dup = false;
            let mut k: usize = 0;
            while k < out.len()
                invariant
                    k <= out@.len(),
                    proc_views(out@) == before,
                    keys@.len() == out@.len(),
                    forall|m: int| 0 <= m < out@.len() ==> (#[trigger] keys@[m])@ == lowercase_text(out@[m].name@),
                    lname@ == lowercase_text(v.name),
                    opt_text(title) == v.title,
                    dup == exists|j: int| 0 <= j < k && same_entry(#[trigger] before[j], v),
                decreases out.len() - k,
            {
                assert(before[k as int] == proc_view(out@[k as int]));
                if crate::text::seq_eq(&keys[k], &lname) && same_title(&out[k].title, &title) {
                    dup = true;
                }
                k += 1;
            }
            if !dup {
                let path = match &e.path {
                    Some(p) => Some(p.clone()),
                    None => None,
                };
                out.push(RunningProcess { pid: e.pid, name: name_text, title, path });
                keys.push(lname);
                assert(proc_views(out@) =~= before.push(v));
            }
        }
        i += 1;
    }
    assert(es.take(es.len() as int) =~= es);
    order_processes(out)
}

} // verus!
