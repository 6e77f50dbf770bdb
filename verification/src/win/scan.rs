//! The decisions of a port and tunnel scan on Windows. The application asks
//! PowerShell for the listening sockets and the processes (one JSON document),
//! the ngrok API, `tailscale serve status` and `~/.cloudflared/config.yml`;
//! what it gathers is turned into port rows here, with the same downstream
//! logic as on Linux.

use vstd::prelude::*;
use vstd::utf8::{decode_utf8, encode_utf8, is_char_boundary};
use std::collections::HashMap;
use crate::json::{
    JsonModel, as_array, as_i64, as_str, as_u64, get, json_array, json_contents, json_get, json_i64, json_str,
    json_text, json_u64, parse_json,
};
use crate::cloudflared_parser::{spec_target_port, target_port_from_cmdline};
use crate::localtunnel_parser::{parse_from_cmdline, spec_parse_from_cmdline};
use crate::models::{
    ListenView, PortInfo, ProjectInfo, ProjectView, RawListen, TunnelInfo, TunnelProvider, TunnelView,
    listen_views, port_views, tunnel_views,
};
use crate::port_assembler::{assemble, name_map, project_map, spec_rows, stable_sort_of};
use crate::process_name_heuristic::{display_name, spec_display_name};
use crate::scan_service::{listen_pids, spec_listen_pids};
use crate::text::{
    chars_eq, chars_of, contains, contains_chars, ends_with, lowercase, seqs, to_lowercase, trim, trim_chars,
    words, words_of,
};

verus! {

broadcast use vstd::std_specs::hash::group_hash_axioms;

// ---------------------------------------------------------------------------
// Process names
// ---------------------------------------------------------------------------

/// The lower-cased name ends in `.exe`.
pub open spec fn has_exe(lower: Seq<char>) -> bool {
    ".exe"@.is_suffix_of(lower)
}

/// Where the name is cut: the byte length of the lower-cased name, less the
/// four bytes of `.exe`.
pub open spec fn exe_cut(lower: Seq<char>) -> int {
    encode_utf8(lower).len() - 4
}

/// The cut falls on a character boundary of the name itself (it may not when
/// lower-casing changed the byte length of the name).
pub open spec fn cut_ok(name: Seq<char>, lower: Seq<char>) -> bool {
    has_exe(lower) ==> is_char_boundary(encode_utf8(name), exe_cut(lower))
}

/// The name with a trailing `.exe` (in any case) removed: the bytes of the
/// name before the cut, when the lower-cased name ends in `.exe`; else the
/// name unchanged.
pub open spec fn spec_cut_exe(name: Seq<char>, lower: Seq<char>) -> Seq<char> {
    if has_exe(lower) {
        decode_utf8(encode_utf8(name).subrange(0, exe_cut(lower)))
    } else {
        name
    }
}

/// `trim_exe` on a name, or `None` where it cannot cut the name.
pub open spec fn spec_trim_exe(name: Seq<char>) -> Option<Seq<char>> {
    if cut_ok(name, lowercase(name)) {
        Some(spec_cut_exe(name, lowercase(name)))
    } else {
        None
    }
}

proof fn lemma_encode_len(s: Seq<char>)
    ensures
        encode_utf8(s).len() >= s.len(),
    decreases s.len(),
{
    if s.len() > 0 {
        lemma_encode_len(s.drop_first());
    }
}

/// Removes a trailing `.exe` from `name`, given `lower`, the lower-cased name:
/// when `lower` ends in `.exe`, the name is cut at the byte length of `lower`
/// less four.
pub fn cut_exe(name: &str, lower: &str) -> (r: String)
    requires
        cut_ok(name@, lower@),
    ensures
        r@ == spec_cut_exe(name@, lower@),
{
    let lv = chars_of(lower);
    let ext = chars_of(".exe");
    if ends_with(lv.as_slice(), ext.as_slice()) {
        proof {
            reveal_strlit(".exe");
            lemma_encode_len(lower@);
        }
        let k = lower.as_bytes().len() - 4;
        let (head, _tail) = name.split_at(k);
        let r = String::from_str(head);
        proof {
            vstd::utf8::encode_utf8_decode_utf8(r@);
        }
        r
    } else {
        String::from_str(name)
    }
}

/// Strips a trailing `.exe`/`.EXE` so display names match the command of the
/// other platforms. The cut is made at the length of the lower-cased name,
/// which must fall on a character boundary of the name.
pub fn trim_exe(name: &str) -> (r: String)
    requires
        cut_ok(name@, lowercase(name@)),
    ensures
        r@ == spec_cut_exe(name@, lowercase(name@)),
{
    let lower = to_lowercase(name);
    cut_exe(name, lower.as_str())
}

/// `trim_exe`, or `None` for a name it cannot cut (one whose lower-cased form
/// has a different byte length, such that the cut splits a character).
pub fn checked_trim_exe(name: &str) -> (r: Option<String>)
    ensures
        match r {
            Some(s) => spec_trim_exe(name@) == Some(s@),
            None => spec_trim_exe(name@) is None,
        },
{
    let lower = to_lowercase(name);
    let lv = chars_of(lower.as_str());
    let ext = chars_of(".exe");
    if ends_with(lv.as_slice(), ext.as_slice()) {
        proof {
            reveal_strlit(".exe");
            lemma_encode_len(lower@);
        }
        let k = lower.as_str().as_bytes().len() - 4;
        if !name.is_char_boundary(k) {
            return None;
        }
    }
    Some(trim_exe(name))
}

// ---------------------------------------------------------------------------
// Processes
// ---------------------------------------------------------------------------

/// What the scan keeps of a process.
#[derive(Debug)]
pub struct Proc {
    pub name: String,
    pub cmdline: Option<String>,
    pub exepath: Option<String>,
}

pub struct ProcView {
    pub name: Seq<char>,
    pub cmdline: Option<Seq<char>>,
    pub exepath: Option<Seq<char>>,
}

impl View for Proc {
    type V = ProcView;

    open spec fn view(&self) -> ProcView {
        ProcView {
            name: self.name@,
            cmdline: match self.cmdline {
                Some(c) => Some(c@),
                None => None,
            },
            exepath: match self.exepath {
                Some(e) => Some(e@),
                None => None,
            },
        }
    }
}

/// The processes by pid, and their pids in the order they were first listed.
#[derive(Debug)]
pub struct ProcTable {
    pub order: Vec<i32>,
    pub procs: HashMap<i32, Proc>,
}

pub open spec fn proc_views(m: Map<i32, Proc>) -> Map<i32, ProcView> {
    m.map_values(|p: Proc| p@)
}

impl ProcTable {
    /// Every pid of `order` has a process.
    pub open spec fn wf(&self) -> bool {
        forall|i: int| 0 <= i < self.order@.len() ==> self.procs@.contains_key(#[trigger] self.order@[i])
    }
}

/// The text of member `key`, when it is a string.
pub open spec fn member_str(v: JsonModel, key: Seq<char>) -> Option<Seq<char>> {
    match json_get(v, key) {
        Some(m) => json_str(m),
        None => None,
    }
}

/// The number of member `key`, when it is an integer that fits `i64`.
pub open spec fn member_i64(v: JsonModel, key: Seq<char>) -> Option<i64> {
    match json_get(v, key) {
        Some(m) => json_i64(m),
        None => None,
    }
}

/// The number of member `key`, when it is an integer that fits `u64`.
pub open spec fn member_u64(v: JsonModel, key: Seq<char>) -> Option<u64> {
    match json_get(v, key) {
        Some(m) => json_u64(m),
        None => None,
    }
}

/// The elements of the array member `key` (none when it is missing or not
/// an array).
pub open spec fn member_items(v: JsonModel, key: Seq<char>) -> Seq<JsonModel> {
    match json_get(v, key) {
        Some(m) => match json_array(m) {
            Some(items) => items,
            None => Seq::empty(),
        },
        None => Seq::empty(),
    }
}

/// One `Win32_Process` entry: its `ProcessId` (truncated to `i32`) and what is
/// kept of it; none without a `ProcessId`.
pub open spec fn spec_proc_entry(e: JsonModel) -> Option<(i32, ProcView)> {
    match member_i64(e, "ProcessId"@) {
        Some(pid) => Some(
            (
                pid as i32,
                ProcView {
                    name: match member_str(e, "Name"@) {
                        Some(n) => n,
                        None => Seq::empty(),
                    },
                    cmdline: member_str(e, "CommandLine"@),
                    exepath: member_str(e, "ExecutablePath"@),
                },
            ),
        ),
        None => None,
    }
}

/// The pids in order of first appearance, and the processes by pid (a later
/// entry for the same pid replaces an earlier one).
pub open spec fn spec_procs(items: Seq<JsonModel>) -> (Seq<i32>, Map<i32, ProcView>)
    decreases items.len(),
{
    if items.len() == 0 {
        (Seq::empty(), Map::empty())
    } else {
        let (order, m) = spec_procs(items.drop_last());
        match spec_proc_entry(items.last()) {
            Some((pid, v)) => (
                if m.contains_key(pid) {
                    order
                } else {
                    order.push(pid)
                },
                m.insert(pid, v),
            ),
            None => (order, m),
        }
    }
}

proof fn lemma_procs_order(items: Seq<JsonModel>)
    ensures
        forall|i: int| 0 <= i < spec_procs(items).0.len() ==> spec_procs(items).1.contains_key(#[trigger] spec_procs(items).0[i]),
        forall|k: i32| spec_procs(items).1.contains_key(k) ==> spec_procs(items).0.contains(k),
        spec_procs(items).0.no_duplicates(),
    decreases items.len(),
{
    if items.len() > 0 {
        lemma_procs_order(items.drop_last());
        let (order, m) = spec_procs(items.drop_last());
        match spec_proc_entry(items.last()) {
            Some((pid, v)) => {
                if !m.contains_key(pid) {
                    let o2 = order.push(pid);
                    assert(o2.last() == pid);
                    assert forall|k: i32| m.insert(pid, v).contains_key(k) implies o2.contains(k) by {
                        if k != pid {
                            assert(m.contains_key(k));
                            assert(spec_procs(items.drop_last()).1.contains_key(k));
                            assert(order.contains(k));
                            let j = choose|j: int| 0 <= j < order.len() && order[j] == k;
                            assert(o2[j] == k);
                        }
                    }
                }
            },
            None => {},
        }
    }
}

fn member_string(e: &serde_json::Value, key: &str) -> (r: Option<String>)
    ensures
        match r {
            Some(s) => member_str(json_contents(*e), key@) == Some(s@),
            None => member_str(json_contents(*e), key@) is None,
        },
{
    match get(e, key) {
        Some(m) => match as_str(m) {
            Some(s) => Some(String::from_str(s)),
            None => None,
        },
        None => None,
    }
}

fn member_array<'a>(v: &'a serde_json::Value, key: &str) -> (r: Option<&'a Vec<serde_json::Value>>)
    ensures
        match r {
            Some(a) => a@.map_values(|e: serde_json::Value| json_contents(e)) == member_items(json_contents(*v), key@),
            None => member_items(json_contents(*v), key@) == Seq::<JsonModel>::empty(),
        },
{
    match get(v, key) {
        Some(m) => as_array(m),
        None => None,
    }
}

/// The processes listed under `procs` in the PowerShell document.
pub fn procs_of(root: &serde_json::Value) -> (r: ProcTable)
    ensures
        r.order@ == spec_procs(member_items(json_contents(*root), "procs"@)).0,
        proc_views(r.procs@) == spec_procs(member_items(json_contents(*root), "procs"@)).1,
        r.wf(),
        r.order@.no_duplicates(),
        forall|k: i32| r.procs@.contains_key(k) ==> r.order@.contains(k),
{
    let ghost items = member_items(json_contents(*root), "procs"@);
    let mut order: Vec<i32> = Vec::new();
    let mut procs: HashMap<i32, Proc> = HashMap::new();
    assert(proc_views(procs@) =~= Map::<i32, ProcView>::empty());
    proof {
        lemma_procs_order(items);
    }
    match member_array(root, "procs") {
        Some(arr) => {
            let ghost es = arr@.map_values(|e: serde_json::Value| json_contents(e));
            let mut i: usize = 0;
            assert(es.take(0) =~= Seq::<JsonModel>::empty());
            while i < arr.len()
                invariant
                    es == arr@.map_values(|e: serde_json::Value| json_contents(e)),
                    es == items,
                    0 <= i <= es.len(),
                    order@ == spec_procs(es.take(i as int)).0,
                    proc_views(procs@) == spec_procs(es.take(i as int)).1,
                    procs@.dom() == spec_procs(es.take(i as int)).1.dom(),
                decreases es.len() - i,
            {
                assert(es.take(i as int + 1).drop_last() =~= es.take(i as int));
                assert(es.take(i as int + 1).last() == json_contents(arr@[i as int]));
                let e = &arr[i];
                match get(e, "ProcessId") {
                    Some(pv) => match as_i64(pv) {
                        Some(pid64) => {
                            let pid = #[verifier::truncate] (pid64 as i32);
                            let name = match member_string(e, "Name") {
                                Some(n) => n,
                                None => String::new(),
                            };
                            let cmdline = member_string(e, "CommandLine");
                            let exepath = member_string(e, "ExecutablePath");
                            let p = Proc { name, cmdline, exepath };
                            let ghost before = proc_views(procs@);
                            if !procs.contains_key(&pid) {
                                order.push(pid);
                            }
                            procs.insert(pid, p);
                            assert(proc_views(procs@) =~= before.insert(pid, p@));
                        },
                        None => {},
                    },
                    None => {},
                }
                i = i + 1;
            }
            assert(es.take(es.len() as int) =~= es);
        },
        None => {
            assert(items =~= Seq::<JsonModel>::empty());
        },
    }
    let r = ProcTable { order, procs };
    proof {
        assert forall|i: int| 0 <= i < r.order@.len() implies r.procs@.contains_key(#[trigger] r.order@[i]) by {
            assert(proc_views(r.procs@).contains_key(r.order@[i]));
        }
        assert forall|k: i32| r.procs@.contains_key(k) implies r.order@.contains(k) by {
            assert(proc_views(r.procs@).contains_key(k));
        }
    }
    r
}

// ---------------------------------------------------------------------------
// Listening sockets
// ---------------------------------------------------------------------------

/// One `Get-NetTCPConnection` entry: its owning pid (0 when missing; truncated
/// to `i32`) and its port (truncated to `u16`); none without a `LocalPort`.
pub open spec fn spec_conn(c: JsonModel) -> Option<(i32, u16)> {
    match member_u64(c, "LocalPort"@) {
        Some(port) => Some(
            (
                match member_i64(c, "OwningProcess"@) {
                    Some(pid) => pid as i32,
                    None => 0i32,
                },
                port as u16,
            ),
        ),
        None => None,
    }
}

/// The command shown for a socket of `pid`: its process's name without
/// `.exe`, or empty for an unknown pid; `None` where the name cannot be cut.
pub open spec fn spec_command(procs: Map<i32, ProcView>, pid: i32) -> Option<Seq<char>> {
    if procs.contains_key(pid) {
        spec_trim_exe(procs[pid].name)
    } else {
        Some(Seq::empty())
    }
}

/// Some socket of `acc` has this pid and port.
pub open spec fn has_listen(acc: Seq<ListenView>, pid: i32, port: u16) -> bool {
    exists|j: int| 0 <= j < acc.len() && (#[trigger] acc[j]).pid == pid && acc[j].port == port
}

/// The sockets of the connection entries, once per pid and port, in order;
/// `None` where a process name met on the way cannot be cut.
pub open spec fn spec_listens(conns: Seq<JsonModel>, procs: Map<i32, ProcView>) -> Option<Seq<ListenView>>
    decreases conns.len(),
{
    if conns.len() == 0 {
        Some(Seq::empty())
    } else {
        match spec_listens(conns.drop_last(), procs) {
            None => None,
            Some(acc) => match spec_conn(conns.last()) {
                None => Some(acc),
                Some((pid, port)) => if has_listen(acc, pid, port) {
                    Some(acc)
                } else {
                    match spec_command(procs, pid) {
                        Some(c) => Some(acc.push(ListenView { pid, command: c, port })),
                        None => None,
                    }
                },
            },
        }
    }
}

proof fn lemma_listens_none(conns: Seq<JsonModel>, procs: Map<i32, ProcView>, n: int)
    requires
        0 <= n <= conns.len(),
        spec_listens(conns.take(n), procs) is None,
    ensures
        spec_listens(conns, procs) is None,
    decreases conns.len() - n,
{
    if n < conns.len() {
        assert(conns.take(n + 1).drop_last() =~= conns.take(n));
        lemma_listens_none(conns, procs, n + 1);
    } else {
        assert(conns.take(n) =~= conns);
    }
}

fn find_listen(acc: &Vec<RawListen>, pid: i32, port: u16) -> (r: bool)
    ensures
        r == has_listen(listen_views(acc@), pid, port),
{
    let ghost lv = listen_views(acc@);
    let mut j: usize = 0;
    while j < acc.len()
        invariant
            lv == listen_views(acc@),
            0 <= j <= acc@.len(),
            forall|h: int| 0 <= h < j ==> !((#[trigger] lv[h]).pid == pid && lv[h].port == port),
        decreases acc@.len() - j,
    {
        assert(lv[j as int] == acc@[j as int]@);
        if acc[j].pid == pid && acc[j].port == port {
            return true;
        }
        j = j + 1;
    }
    false
}

/// The listening sockets listed under `conns` in the PowerShell document,
/// each named by its process; `None` where a process name cannot be cut.
pub fn listens_of(root: &serde_json::Value, table: &ProcTable) -> (r: Option<Vec<RawListen>>)
    ensures
        match r {
            Some(ls) => spec_listens(member_items(json_contents(*root), "conns"@), proc_views(table.procs@))
                == Some(listen_views(ls@)),
            None => spec_listens(member_items(json_contents(*root), "conns"@), proc_views(table.procs@)) is None,
        },
{
    let ghost items = member_items(json_contents(*root), "conns"@);
    let ghost pm = proc_views(table.procs@);
    let mut listens: Vec<RawListen> = Vec::new();
    match member_array(root, "conns") {
        Some(arr) => {
            let ghost es = arr@.map_values(|e: serde_json::Value| json_contents(e));
            let mut i: usize = 0;
            assert(es.take(0) =~= Seq::<JsonModel>::empty());
            assert(listen_views(listens@) =~= Seq::<ListenView>::empty());
            while i < arr.len()
                invariant
                    es == arr@.map_values(|e: serde_json::Value| json_contents(e)),
                    es == items,
                    items == member_items(json_contents(*root), "conns"@),
                    pm == proc_views(table.procs@),
                    0 <= i <= es.len(),
                    spec_listens(es.take(i as int), pm) == Some(listen_views(listens@)),
                decreases es.len() - i,
            {
                assert(es.take(i as int + 1).drop_last() =~= es.take(i as int));
                assert(es.take(i as int + 1).last() == json_contents(arr@[i as int]));
                let c = &arr[i];
                let port64 = match get(c, "LocalPort") {
                    Some(v) => as_u64(v),
                    None => None,
                };
                match port64 {
                    Some(p64) => {
                        let pid: i32 = match get(c, "OwningProcess") {
                            Some(v) => match as_i64(v) {
                                Some(x) => #[verifier::truncate] (x as i32),
                                None => 0,
                            },
                            None => 0,
                        };
                        let port = #[verifier::truncate] (p64 as u16);
                        if !find_listen(&listens, pid, port) {
                            let command = match table.procs.get(&pid) {
                                Some(p) => match checked_trim_exe(p.name.as_str()) {
                                    Some(cmd) => cmd,
                                    None => {
                                        proof {
                                            assert(spec_listens(es.take(i as int + 1), pm) is None);
                                            lemma_listens_none(es, pm, i as int + 1);
                                        }
                                        return None;
                                    },
                                },
                                None => String::new(),
                            };
                            let ghost before = listen_views(listens@);
                            listens.push(RawListen { pid, command, port });
                            assert(listen_views(listens@) =~= before.push(
                                ListenView { pid, command: command@, port },
                            ));
                        }
                    },
                    None => {},
                }
                i = i + 1;
            }
            assert(es.take(es.len() as int) =~= es);
        },
        None => {
            assert(items =~= Seq::<JsonModel>::empty());
            assert(listen_views(listens@) =~= Seq::<ListenView>::empty());
        },
    }
    Some(listens)
}

// ---------------------------------------------------------------------------
// Tunnels of running processes
// ---------------------------------------------------------------------------

/// A token that invokes the localtunnel CLI: `lt`, `lt.cmd`, or a path
/// ending in `\lt` or `/lt`.
pub open spec fn lt_token(t: Seq<char>) -> bool {
    t == "lt"@ || t == "lt.cmd"@ || "\\lt"@.is_suffix_of(t) || "/lt"@.is_suffix_of(t)
}

/// The command line invokes the localtunnel CLI.
pub open spec fn spec_is_localtunnel(cmd: Seq<char>) -> bool {
    exists|i: int| 0 <= i < words(cmd).len() && lt_token(#[trigger] words(cmd)[i])
}

/// True when some whitespace-separated token of the command line is `lt`,
/// `lt.cmd`, or a path to `lt`.
pub fn is_localtunnel(cmd: &str) -> (r: bool)
    ensures
        r == spec_is_localtunnel(cmd@),
{
    let cv = chars_of(cmd);
    let toks = words_of(cv.as_slice());
    let lt = chars_of("lt");
    let lt_cmd = chars_of("lt.cmd");
    let back_lt = chars_of("\\lt");
    let slash_lt = chars_of("/lt");
    let ghost tv = seqs(toks@);
    let mut i: usize = 0;
    while i < toks.len()
        invariant
            tv == seqs(toks@),
            tv == words(cmd@),
            lt@ == "lt"@,
            lt_cmd@ == "lt.cmd"@,
            back_lt@ == "\\lt"@,
            slash_lt@ == "/lt"@,
            0 <= i <= tv.len(),
            forall|j: int| 0 <= j < i ==> !lt_token(#[trigger] tv[j]),
        decreases tv.len() - i,
    {
        assert(tv[i as int] == toks@[i as int]@);
        let t = toks[i].as_slice();
        if chars_eq(t, lt.as_slice()) || chars_eq(t, lt_cmd.as_slice()) || ends_with(t, back_lt.as_slice())
            || ends_with(t, slash_lt.as_slice()) {
            return true;
        }
        i = i + 1;
    }
    false
}

/// The tunnels one command line points at: a `cloudflared` quick tunnel's
/// `--url` port (no public URL), then a localtunnel.
pub open spec fn spec_command_tunnels(cmd: Seq<char>) -> Seq<TunnelView> {
    (if contains(cmd, "cloudflared"@) && spec_target_port(cmd) is Some {
        seq![
            TunnelView {
                provider: TunnelProvider::Cloudflare,
                public_url: None,
                target_port: spec_target_port(cmd)->0,
            },
        ]
    } else {
        Seq::empty()
    }) + (if spec_is_localtunnel(cmd) && spec_parse_from_cmdline(cmd) is Some {
        seq![spec_parse_from_cmdline(cmd)->0]
    } else {
        Seq::empty()
    })
}

/// The tunnels of the processes, taken in the order `order`.
pub open spec fn spec_proc_tunnels(order: Seq<i32>, procs: Map<i32, ProcView>) -> Seq<TunnelView>
    decreases order.len(),
{
    if order.len() == 0 {
        Seq::empty()
    } else {
        spec_proc_tunnels(order.drop_last(), procs) + match procs[order.last()].cmdline {
            Some(c) => spec_command_tunnels(c),
            None => Seq::empty(),
        }
    }
}

/// Looks at the command line of every process for cloudflared quick tunnels
/// and localtunnel. The processes are taken in the order of the table (the
/// order in which PowerShell listed them).
pub fn proc_tunnels(table: &ProcTable) -> (r: Vec<TunnelInfo>)
    requires
        table.wf(),
    ensures
        tunnel_views(r@) == spec_proc_tunnels(table.order@, proc_views(table.procs@)),
{
    let ghost pm = proc_views(table.procs@);
    let ghost order = table.order@;
    let mut result: Vec<TunnelInfo> = Vec::new();
    let mut i: usize = 0;
    assert(order.take(0) =~= Seq::<i32>::empty());
    while i < table.order.len()
        invariant
            table.wf(),
            order == table.order@,
            pm == proc_views(table.procs@),
            0 <= i <= order.len(),
            tunnel_views(result@) == spec_proc_tunnels(order.take(i as int), pm),
        decreases order.len() - i,
    {
        assert(order.take(i as int + 1).drop_last() =~= order.take(i as int));
        assert(order.take(i as int + 1).last() == order[i as int]);
        let pid = table.order[i];
        assert(table.procs@.contains_key(pid));
        let ghost before = tunnel_views(result@);
        match table.procs.get(&pid) {
            Some(p) => {
                assert(pm[pid] == p@);
                match &p.cmdline {
                    Some(cmd) => {
                        let cv = chars_of(cmd.as_str());
                        let cfw = chars_of("cloudflared");
                        if contains_chars(cv.as_slice(), cfw.as_slice()) {
                            match target_port_from_cmdline(cmd.as_str()) {
                                Some(port) => {
                                    result.push(
                                        TunnelInfo {
                                            provider: TunnelProvider::Cloudflare,
                                            public_url: None,
                                            target_port: port,
                                        },
                                    );
                                },
                                None => {},
                            }
                        }
                        if is_localtunnel(cmd.as_str()) {
                            match parse_from_cmdline(cmd.as_str()) {
                                Some(lt) => {
                                    result.push(lt);
                                },
                                None => {},
                            }
                        }
                        assert(tunnel_views(result@) =~= before + spec_command_tunnels(cmd@));
                    },
                    None => {
                        assert(tunnel_views(result@) =~= before + Seq::<TunnelView>::empty());
                    },
                }
            },
            None => {},
        }
        i = i + 1;
    }
    assert(order.take(order.len() as int) =~= order);
    result
}

// ---------------------------------------------------------------------------
// Assembling the rows
// ---------------------------------------------------------------------------

/// The display names of the processes behind the sockets, by pid: the
/// heuristic name of the process's command (its name without `.exe`) and
/// its command line (the command when it has none); `None` where a name
/// cannot be cut.
pub open spec fn spec_names(pids: Seq<i32>, procs: Map<i32, ProcView>) -> Option<Map<i32, Seq<char>>>
    decreases pids.len(),
{
    if pids.len() == 0 {
        Some(Map::empty())
    } else {
        match spec_names(pids.drop_last(), procs) {
            None => None,
            Some(m) => {
                let pid = pids.last();
                if procs.contains_key(pid) {
                    match spec_trim_exe(procs[pid].name) {
                        Some(cmd) => Some(
                            m.insert(
                                pid,
                                spec_display_name(
                                    cmd,
                                    match procs[pid].cmdline {
                                        Some(c) => c,
                                        None => cmd,
                                    },
                                ),
                            ),
                        ),
                        None => None,
                    }
                } else {
                    Some(m)
                }
            },
        }
    }
}

/// The projects found, by pid (a later entry for the same pid wins).
pub open spec fn found_projects(ps: Seq<(i32, ProjectInfo)>) -> Map<i32, ProjectView>
    decreases ps.len(),
{
    if ps.len() == 0 {
        Map::empty()
    } else {
        found_projects(ps.drop_last()).insert(ps.last().0, ps.last().1@)
    }
}

proof fn lemma_names_none(pids: Seq<i32>, procs: Map<i32, ProcView>, n: int)
    requires
        0 <= n <= pids.len(),
        spec_names(pids.take(n), procs) is None,
    ensures
        spec_names(pids, procs) is None,
    decreases pids.len() - n,
{
    if n < pids.len() {
        assert(pids.take(n + 1).drop_last() =~= pids.take(n));
        lemma_names_none(pids, procs, n + 1);
    } else {
        assert(pids.take(n) =~= pids);
    }
}

/// Assembles the port rows of a Windows scan from the sockets, the process
/// table, the projects resolved for the sockets' processes, and the tunnels;
/// `None` where a process name cannot be cut.
pub fn scan(
    listens: Vec<RawListen>,
    table: &ProcTable,
    projects: &Vec<(i32, ProjectInfo)>,
    tunnels: &Vec<TunnelInfo>,
) -> (r: Option<Vec<PortInfo>>)
    ensures
        match r {
            Some(rows) => spec_names(spec_listen_pids(listen_views(listens@)), proc_views(table.procs@)) matches Some(names)
                && stable_sort_of(
                port_views(rows@),
                spec_rows(listen_views(listens@), found_projects(projects@), names, tunnel_views(tunnels@)),
            ),
            None => spec_names(spec_listen_pids(listen_views(listens@)), proc_views(table.procs@)) is None,
        },
{
    let pids = listen_pids(&listens);
    let ghost pm = proc_views(table.procs@);
    let mut names: HashMap<i32, String> = HashMap::new();
    let mut i: usize = 0;
    assert(pids@.take(0) =~= Seq::<i32>::empty());
    assert(name_map(names@) =~= Map::<i32, Seq<char>>::empty());
    while i < pids.len()
        invariant
            pm == proc_views(table.procs@),
            pids@ == spec_listen_pids(listen_views(listens@)),
            0 <= i <= pids@.len(),
            spec_names(pids@.take(i as int), pm) == Some(name_map(names@)),
        decreases pids@.len() - i,
    {
        assert(pids@.take(i as int + 1).drop_last() =~= pids@.take(i as int));
        assert(pids@.take(i as int + 1).last() == pids@[i as int]);
        let pid = pids[i];
        match table.procs.get(&pid) {
            Some(p) => {
                assert(pm[pid] == p@);
                match checked_trim_exe(p.name.as_str()) {
                    Some(cmd) => {
                        let full = match &p.cmdline {
                            Some(c) => c.clone(),
                            None => cmd.clone(),
                        };
                        let name = display_name(cmd.as_str(), full.as_str());
                        let ghost before = name_map(names@);
                        names.insert(pid, name);
                        assert(name_map(names@) =~= before.insert(pid, name@));
                    },
                    None => {
                        proof {
                            assert(spec_names(pids@.take(i as int + 1), pm) is None);
                            lemma_names_none(pids@, pm, i as int + 1);
                        }
                        return None;
                    },
                }
            },
            None => {},
        }
        i = i + 1;
    }
    assert(pids@.take(pids@.len() as int) =~= pids@);
    let mut found: HashMap<i32, ProjectInfo> = HashMap::new();
    let mut k: usize = 0;
    assert(projects@.take(0) =~= Seq::<(i32, ProjectInfo)>::empty());
    assert(project_map(found@) =~= Map::<i32, ProjectView>::empty());
    while k < projects.len()
        invariant
            0 <= k <= projects@.len(),
            project_map(found@) == found_projects(projects@.take(k as int)),
        decreases projects@.len() - k,
    {
        assert(projects@.take(k as int + 1).drop_last() =~= projects@.take(k as int));
        assert(projects@.take(k as int + 1).last() == projects@[k as int]);
        let entry = &projects[k];
        let ghost before = project_map(found@);
        found.insert(entry.0, entry.1.clone());
        assert(project_map(found@) =~= before.insert(entry.0, entry.1@));
        k = k + 1;
    }
    assert(projects@.take(projects@.len() as int) =~= projects@);
    Some(assemble(listens, &found, &names, tunnels.as_slice()))
}

/// The JSON document of the PowerShell query's output, or `None` when it
/// is not JSON.
pub fn parse_document(out: &str) -> (r: Option<serde_json::Value>)
    ensures
        r is Some <==> json_text(encode_utf8(out@)) is Some,
        r matches Some(v) ==> Some(json_contents(v)) == json_text(encode_utf8(out@)),
{
    parse_json(out.as_bytes())
}

// ---------------------------------------------------------------------------
// PowerShell output
// ---------------------------------------------------------------------------

/// What a PowerShell script run gives back: its output, unless that is
/// blank.
pub fn powershell(stdout: String) -> (r: Option<String>)
    ensures
        match r {
            Some(s) => s@ == stdout@ && trim(stdout@).len() > 0,
            None => trim(stdout@).len() == 0,
        },
{
    let sv = chars_of(stdout.as_str());
    let t = trim_chars(sv.as_slice());
    if t.len() == 0 {
        None
    } else {
        Some(stdout)
    }
}

/// What a program run gives back: its output, unless that is blank and the
/// program failed.
pub fn powershell_bin(stdout: String, success: bool) -> (r: Option<String>)
    ensures
        match r {
            Some(s) => s@ == stdout@ && (trim(stdout@).len() > 0 || success),
            None => trim(stdout@).len() == 0 && !success,
        },
{
    let sv = chars_of(stdout.as_str());
    let t = trim_chars(sv.as_slice());
    if t.len() == 0 && !success {
        None
    } else {
        Some(stdout)
    }
}

/// No two sockets of a Windows scan share a pid and a port.
pub proof fn law_listens_unique(conns: Seq<JsonModel>, procs: Map<i32, ProcView>)
    ensures
        spec_listens(conns, procs) matches Some(ls) ==> forall|i: int, j: int|
            0 <= i < j < ls.len() ==> !((#[trigger] ls[i]).pid == (#[trigger] ls[j]).pid && ls[i].port == ls[j].port),
    decreases conns.len(),
{
    if conns.len() > 0 {
        law_listens_unique(conns.drop_last(), procs);
        match spec_listens(conns.drop_last(), procs) {
            Some(acc) => match spec_conn(conns.last()) {
                Some((pid, port)) => {
                    if !has_listen(acc, pid, port) {
                        match spec_command(procs, pid) {
                            Some(c) => {
                                let v = ListenView { pid, command: c, port };
                                let s2 = acc.push(v);
                                assert forall|i: int, j: int| 0 <= i < j < s2.len() implies !((#[trigger] s2[i]).pid
                                    == (#[trigger] s2[j]).pid && s2[i].port == s2[j].port) by {
                                    if j == acc.len() {
                                        assert(s2[i] == acc[i]);
                                        assert(s2[j] == v);
                                    } else {
                                        assert(s2[i] == acc[i] && s2[j] == acc[j]);
                                    }
                                }
                            },
                            None => {},
                        }
                    }
                },
                None => {},
            },
            None => {},
        }
    }
}

} // verus!
