//! The decisions of a full scan on Linux. The application runs `ss`, reads
//! `/proc`, asks the ngrok API, runs `tailscale serve status` and reads
//! `~/.cloudflared/config.yml`; what it gathers is turned into port rows here.

use vstd::prelude::*;
use std::collections::HashMap;
use crate::cloudflared_parser::{ingress_from_config_yaml, spec_ingress, spec_target_port, target_port_from_cmdline};
use crate::localtunnel_parser::{parse_from_cmdline, spec_parse_from_cmdline};
use crate::models::{
    ListenView, PortInfo, ProjectInfo, ProjectView, RawListen, TunnelInfo, TunnelProvider, TunnelView,
    listen_views, opt_view, port_views, tunnel_views,
};
use crate::port_assembler::{assemble, name_map, project_map, spec_rows, stable_sort_of};
use crate::process_name_heuristic::{display_name, spec_display_name};
use crate::text::{
    chars_of, contains, contains_chars, ends_with, non_empty, parse_i32, parse_i32_chars, seqs,
    split_chars, split_on, string_of, trim, trim_chars,
};

verus! {

broadcast use vstd::std_specs::hash::group_hash_axioms;

/// The pieces joined with `sep` between them (`[..].join(" ")`).
pub open spec fn join(ps: Seq<Seq<char>>, sep: char) -> Seq<char>
    decreases ps.len(),
{
    if ps.len() == 0 {
        Seq::empty()
    } else if ps.len() == 1 {
        ps[0]
    } else {
        join(ps.drop_last(), sep).push(sep) + ps.last()
    }
}

/// A `/proc/PID/cmdline` (NUL-separated) as a readable command line: the
/// non-empty arguments joined by spaces and trimmed; `None` when that is empty.
pub open spec fn spec_full_command(raw: Seq<char>) -> Option<Seq<char>> {
    let t = trim(join(non_empty(split_on(raw, '\0')), ' '));
    if t.len() == 0 {
        None
    } else {
        Some(t)
    }
}

/// `/proc/PID/cmdline` is NUL-separated; join into a readable command line.
pub fn full_command(raw: &str) -> (r: Option<String>)
    ensures
        match r {
            Some(s) => spec_full_command(raw@) == Some(s@),
            None => spec_full_command(raw@) is None,
        },
{
    let rv = chars_of(raw);
    let parts = split_chars(rv.as_slice(), '\0');
    let ghost pv = seqs(parts@);
    let mut joined: Vec<char> = Vec::new();
    let ghost mut kept: Seq<Seq<char>> = Seq::empty();
    let mut i: usize = 0;
    assert(pv.take(0) =~= Seq::<Seq<char>>::empty());
    while i < parts.len()
        invariant
            pv == seqs(parts@),
            pv == split_on(raw@, '\0'),
            0 <= i <= pv.len(),
            kept == non_empty(pv.take(i as int)),
            joined@ == join(kept, ' '),
            (kept.len() == 0) == (joined@.len() == 0),
        decreases pv.len() - i,
    {
        assert(pv.take(i as int + 1).drop_last() =~= pv.take(i as int));
        assert(pv[i as int] == parts@[i as int]@);
        let p = &parts[i];
        if p.len() > 0 {
            let ghost before = joined@;
            if joined.len() > 0 {
                joined.push(' ');
            }
            let mut k: usize = 0;
            let ghost mid = joined@;
            while k < p.len()
                invariant
                    0 <= k <= p@.len(),
                    joined@ == mid + p@.take(k as int),
                decreases p@.len() - k,
            {
                joined.push(p[k]);
                assert(joined@ =~= mid + p@.take(k as int + 1));
                k = k + 1;
            }
            assert(p@.take(p@.len() as int) =~= p@);
            proof {
                let nk = kept.push(p@);
                assert(nk.drop_last() =~= kept);
                if kept.len() == 0 {
                    assert(before.len() == 0);
                    assert(joined@ =~= p@);
                } else {
                    assert(joined@ =~= join(kept, ' ').push(' ') + p@);
                }
                assert(pv.take(i as int + 1).last() == p@);
                kept = nk;
            }
        }
        i = i + 1;
    }
    assert(pv.take(pv.len() as int) =~= pv);
    let t = trim_chars(joined.as_slice());
    if t.len() == 0 {
        None
    } else {
        Some(string_of(t.as_slice()))
    }
}

/// The command line invokes the localtunnel CLI: some space-separated token
/// is `lt` or ends in `/lt`.
pub open spec fn spec_is_localtunnel(cmd: Seq<char>) -> bool {
    exists|i: int|
        0 <= i < split_on(cmd, ' ').len() && (#[trigger] split_on(cmd, ' ')[i] == "lt"@
            || "/lt"@.is_suffix_of(split_on(cmd, ' ')[i]))
}

/// True when the command line invokes the localtunnel CLI (`lt` token or `.../lt` path).
pub fn is_localtunnel(cmd: &str) -> (r: bool)
    ensures
        r == spec_is_localtunnel(cmd@),
{
    let cv = chars_of(cmd);
    let toks = split_chars(cv.as_slice(), ' ');
    let lt = chars_of("lt");
    let slash_lt = chars_of("/lt");
    let ghost tv = seqs(toks@);
    let mut i: usize = 0;
    while i < toks.len()
        invariant
            tv == seqs(toks@),
            tv == split_on(cmd@, ' '),
            lt@ == "lt"@,
            slash_lt@ == "/lt"@,
            0 <= i <= tv.len(),
            forall|j: int| 0 <= j < i ==> !(#[trigger] tv[j] == "lt"@ || "/lt"@.is_suffix_of(tv[j])),
        decreases tv.len() - i,
    {
        assert(tv[i as int] == toks@[i as int]@);
        if crate::text::chars_eq(toks[i].as_slice(), lt.as_slice()) || ends_with(
            toks[i].as_slice(),
            slash_lt.as_slice(),
        ) {
            return true;
        }
        i = i + 1;
    }
    false
}

/// The tunnels one running command line points at: a `cloudflared` quick
/// tunnel's `--url` port (no public URL), then a localtunnel.
pub open spec fn tunnels_of_command(cmd: Seq<char>) -> Seq<TunnelView> {
    let cf = if contains(cmd, "cloudflared"@) && spec_target_port(cmd) is Some {
        seq![
            TunnelView {
                provider: TunnelProvider::Cloudflare,
                public_url: None,
                target_port: spec_target_port(cmd)->0,
            },
        ]
    } else {
        Seq::empty()
    };
    let lt = if spec_is_localtunnel(cmd) && spec_parse_from_cmdline(cmd) is Some {
        seq![spec_parse_from_cmdline(cmd)->0]
    } else {
        Seq::empty()
    };
    cf + lt
}

/// The tunnels of every process, given their raw `/proc/PID/cmdline` texts.
pub open spec fn spec_proc_tunnels(raws: Seq<Seq<char>>) -> Seq<TunnelView>
    decreases raws.len(),
{
    if raws.len() == 0 {
        Seq::empty()
    } else {
        let init = spec_proc_tunnels(raws.drop_last());
        match spec_full_command(raws.last()) {
            Some(cmd) => init + tunnels_of_command(cmd),
            None => init,
        }
    }
}

/// Strings' texts.
pub open spec fn texts_of(v: Seq<String>) -> Seq<Seq<char>> {
    v.map_values(|s: String| s@)
}

/// Walks the raw command lines of every process for cloudflared quick tunnels
/// and localtunnel.
pub fn scan_proc_tunnels(cmdlines: &Vec<String>) -> (r: Vec<TunnelInfo>)
    ensures
        tunnel_views(r@) == spec_proc_tunnels(texts_of(cmdlines@)),
{
    let ghost raws = texts_of(cmdlines@);
    let mut result: Vec<TunnelInfo> = Vec::new();
    let mut i: usize = 0;
    assert(raws.take(0) =~= Seq::<Seq<char>>::empty());
    while i < cmdlines.len()
        invariant
            raws == texts_of(cmdlines@),
            0 <= i <= raws.len(),
            tunnel_views(result@) == spec_proc_tunnels(raws.take(i as int)),
        decreases raws.len() - i,
    {
        assert(raws.take(i as int + 1).drop_last() =~= raws.take(i as int));
        assert(raws.take(i as int + 1).last() == cmdlines@[i as int]@);
        let ghost before = tunnel_views(result@);
        match full_command(cmdlines[i].as_str()) {
            Some(cmd) => {
                let cv = chars_of(cmd.as_str());
                let cfw = chars_of("cloudflared");
                if contains_chars(cv.as_slice(), cfw.as_slice()) {
                    match target_port_from_cmdline(cmd.as_str()) {
                        Some(port) => {
                            let t = TunnelInfo {
                                provider: TunnelProvider::Cloudflare,
                                public_url: None,
                                target_port: port,
                            };
                            result.push(t);
                        },
                        None => {},
                    }
                }
                let ghost mid = tunnel_views(result@);
                if is_localtunnel(cmd.as_str()) {
                    match parse_from_cmdline(cmd.as_str()) {
                        Some(lt) => {
                            result.push(lt);
                        },
                        None => {},
                    }
                }
                assert(tunnel_views(result@) =~= before + tunnels_of_command(cmd@));
            },
            None => {},
        }
        i = i + 1;
    }
    assert(raws.take(raws.len() as int) =~= raws);
    result
}

/// The `/proc` entries that are process ids, as numbers, in order.
pub open spec fn spec_proc_pids(entries: Seq<Seq<char>>) -> Seq<i32>
    decreases entries.len(),
{
    if entries.len() == 0 {
        Seq::empty()
    } else {
        let init = spec_proc_pids(entries.drop_last());
        match parse_i32(entries.last()) {
            Some(pid) => init.push(pid),
            None => init,
        }
    }
}

/// The directory entries of `/proc` that parse as process ids.
pub fn proc_pids(entries: &Vec<String>) -> (r: Vec<i32>)
    ensures
        r@ == spec_proc_pids(texts_of(entries@)),
{
    let ghost es = texts_of(entries@);
    let mut r: Vec<i32> = Vec::new();
    let mut i: usize = 0;
    assert(es.take(0) =~= Seq::<Seq<char>>::empty());
    while i < entries.len()
        invariant
            es == texts_of(entries@),
            0 <= i <= es.len(),
            r@ == spec_proc_pids(es.take(i as int)),
        decreases es.len() - i,
    {
        assert(es.take(i as int + 1).drop_last() =~= es.take(i as int));
        assert(es.take(i as int + 1).last() == entries@[i as int]@);
        let ev = chars_of(entries[i].as_str());
        match parse_i32_chars(ev.as_slice()) {
            Some(pid) => r.push(pid),
            None => {},
        }
        i = i + 1;
    }
    assert(es.take(es.len() as int) =~= es);
    r
}

/// All tunnels of a scan, in the order ngrok API, running processes,
/// `tailscale serve status`, cloudflared `config.yml`.
pub open spec fn spec_scan_tunnels(
    ngrok: Option<Seq<TunnelView>>,
    procs: Seq<TunnelView>,
    tailscale: Option<Seq<char>>,
    cloudflared_yaml: Option<Seq<char>>,
) -> Seq<TunnelView> {
    (match ngrok {
        Some(t) => t,
        None => Seq::empty(),
    }) + procs + (match tailscale {
        Some(out) => crate::tailscale_parser::spec_parse(out),
        None => Seq::empty(),
    }) + (match cloudflared_yaml {
        Some(y) => spec_ingress(y),
        None => Seq::empty(),
    })
}

/// The views of an optional list of tunnels.
pub open spec fn opt_tunnels(o: Option<Vec<TunnelInfo>>) -> Option<Seq<TunnelView>> {
    match o {
        Some(t) => Some(tunnel_views(t@)),
        None => None,
    }
}

pub fn scan_tunnels(
    ngrok: Option<Vec<TunnelInfo>>,
    procs: Vec<TunnelInfo>,
    tailscale: Option<String>,
    cloudflared_yaml: Option<String>,
) -> (r: Vec<TunnelInfo>)
    ensures
        tunnel_views(r@) == spec_scan_tunnels(
            opt_tunnels(ngrok),
            tunnel_views(procs@),
            opt_view(tailscale),
            opt_view(cloudflared_yaml),
        ),
{
    let ghost ng = opt_tunnels(ngrok);
    let ghost pr = tunnel_views(procs@);
    let mut tunnels: Vec<TunnelInfo> = match ngrok {
        Some(t) => t,
        None => Vec::new(),
    };
    let mut procs = procs;
    tunnels.append(&mut procs);
    let mut ts = match &tailscale {
        Some(out) => crate::tailscale_parser::parse(out.as_str()),
        None => Vec::new(),
    };
    tunnels.append(&mut ts);
    let mut cf = match &cloudflared_yaml {
        Some(y) => ingress_from_config_yaml(y.as_str()),
        None => Vec::new(),
    };
    tunnels.append(&mut cf);
    proof {
        assert(tunnel_views(tunnels@) =~= spec_scan_tunnels(
            ng,
            pr,
            opt_view(tailscale),
            opt_view(cloudflared_yaml),
        ));
    }
    tunnels
}


/// The distinct positive pids of the sockets, in order of first appearance.
pub open spec fn spec_listen_pids(ls: Seq<ListenView>) -> Seq<i32>
    decreases ls.len(),
{
    if ls.len() == 0 {
        Seq::empty()
    } else {
        let init = spec_listen_pids(ls.drop_last());
        if ls.last().pid > 0 && !init.contains(ls.last().pid) {
            init.push(ls.last().pid)
        } else {
            init
        }
    }
}

/// The processes to look up: every positive pid among the sockets, once.
pub fn listen_pids(listens: &Vec<RawListen>) -> (r: Vec<i32>)
    ensures
        r@ == spec_listen_pids(listen_views(listens@)),
{
    let ghost lv = listen_views(listens@);
    let mut r: Vec<i32> = Vec::new();
    let mut i: usize = 0;
    assert(lv.take(0) =~= Seq::<ListenView>::empty());
    while i < listens.len()
        invariant
            lv == listen_views(listens@),
            0 <= i <= lv.len(),
            r@ == spec_listen_pids(lv.take(i as int)),
        decreases lv.len() - i,
    {
        assert(lv.take(i as int + 1).drop_last() =~= lv.take(i as int));
        assert(lv.take(i as int + 1).last() == listens@[i as int]@);
        let pid = listens[i].pid;
        if pid > 0 {
            let mut found = false;
            let mut k: usize = 0;
            while k < r.len()
                invariant
                    0 <= k <= r@.len(),
                    found == (exists|j: int| 0 <= j < k && r@[j] == pid),
                decreases r@.len() - k,
            {
                if r[k] == pid {
                    found = true;
                }
                k = k + 1;
            }
            if !found {
                r.push(pid);
            }
        }
        i = i + 1;
    }
    assert(lv.take(lv.len() as int) =~= lv);
    r
}

/// What the application found about one process.
pub struct PidProbe {
    pub pid: i32,
    /// The project resolved from its working directory, if any.
    pub project: Option<ProjectInfo>,
    /// Its raw `/proc/PID/cmdline`, when readable.
    pub cmdline: Option<String>,
}

/// The projects found, by pid (a later probe of the same pid wins).
pub open spec fn probe_projects(ps: Seq<PidProbe>) -> Map<i32, ProjectView>
    decreases ps.len(),
{
    if ps.len() == 0 {
        Map::empty()
    } else {
        let m = probe_projects(ps.drop_last());
        match ps.last().project {
            Some(p) => m.insert(ps.last().pid, p@),
            None => m,
        }
    }
}

/// The command of the first socket of `pid`, else `full`.
pub open spec fn command_for(ls: Seq<ListenView>, pid: i32, full: Seq<char>) -> Seq<char> {
    match crate::text::first_index(ls.map_values(|l: ListenView| l.pid), pid) {
        Some(i) => ls[i].command,
        None => full,
    }
}

/// The display names found, by pid: for each process with a readable command
/// line, the name the heuristic gives its socket's command and that line.
pub open spec fn probe_names(ls: Seq<ListenView>, ps: Seq<PidProbe>) -> Map<i32, Seq<char>>
    decreases ps.len(),
{
    if ps.len() == 0 {
        Map::empty()
    } else {
        let m = probe_names(ls, ps.drop_last());
        let p = ps.last();
        match p.cmdline {
            Some(raw) => match spec_full_command(raw@) {
                Some(full) => m.insert(
                    p.pid,
                    spec_display_name(command_for(ls, p.pid, full), full),
                ),
                None => m,
            },
            None => m,
        }
    }
}

fn command_of(listens: &Vec<RawListen>, pid: i32, full: &String) -> (r: String)
    ensures
        r@ == command_for(listen_views(listens@), pid, full@),
{
    let ghost pids = listen_views(listens@).map_values(|l: ListenView| l.pid);
    let mut i: usize = 0;
    while i < listens.len()
        invariant
            pids == listen_views(listens@).map_values(|l: ListenView| l.pid),
            0 <= i <= listens@.len(),
            crate::text::first_index(pids, pid) == crate::text::index_from(pids, pid, i as int),
        decreases listens@.len() - i,
    {
        assert(pids[i as int] == listens@[i as int].pid);
        if listens[i].pid == pid {
            return listens[i].command.clone();
        }
        i = i + 1;
    }
    full.clone()
}

/// Assembles the port rows of a scan from the sockets, what was found about
/// each process, and the tunnels.
pub fn scan(listens: Vec<RawListen>, probes: &Vec<PidProbe>, tunnels: &Vec<TunnelInfo>) -> (r: Vec<
    PortInfo,
>)
    ensures
        stable_sort_of(
            port_views(r@),
            spec_rows(
                listen_views(listens@),
                probe_projects(probes@),
                probe_names(listen_views(listens@), probes@),
                tunnel_views(tunnels@),
            ),
        ),
{
    let ghost lv = listen_views(listens@);
    let mut projects: HashMap<i32, ProjectInfo> = HashMap::new();
    let mut names: HashMap<i32, String> = HashMap::new();
    let mut i: usize = 0;
    assert(probes@.take(0) =~= Seq::<PidProbe>::empty());
    assert(project_map(projects@) =~= Map::<i32, ProjectView>::empty());
    assert(name_map(names@) =~= Map::<i32, Seq<char>>::empty());
    while i < probes.len()
        invariant
            lv == listen_views(listens@),
            0 <= i <= probes@.len(),
            project_map(projects@) == probe_projects(probes@.take(i as int)),
            name_map(names@) == probe_names(lv, probes@.take(i as int)),
        decreases probes@.len() - i,
    {
        assert(probes@.take(i as int + 1).drop_last() =~= probes@.take(i as int));
        assert(probes@.take(i as int + 1).last() == probes@[i as int]);
        let p = &probes[i];
        match &p.project {
            Some(info) => {
                let ghost before = project_map(projects@);
                projects.insert(p.pid, info.clone());
                assert(project_map(projects@) =~= before.insert(p.pid, info@));
            },
            None => {},
        }
        match &p.cmdline {
            Some(raw) => match full_command(raw.as_str()) {
                Some(full) => {
                    let cmd = command_of(&listens, p.pid, &full);
                    let name = display_name(cmd.as_str(), full.as_str());
                    let ghost before = name_map(names@);
                    names.insert(p.pid, name);
                    assert(name_map(names@) =~= before.insert(
                        p.pid,
                        spec_display_name(command_for(lv, p.pid, full@), full@),
                    ));
                },
                None => {},
            },
            None => {},
        }
        i = i + 1;
    }
    assert(probes@.take(probes@.len() as int) =~= probes@);
    assemble(listens, &projects, &names, tunnels.as_slice())
}

} // verus!
