//! The shapes sent to the web frontend of the Windows app, and what a scan
//! command answers: every port row with whether the ignore rules hide it, and
//! the rules themselves.

use vstd::prelude::*;
use crate::ignore_rules::{spec_ignored, texts};
use crate::models::{
    PortInfo, PortView, ProjectInfo, ProjectView, TunnelInfo, TunnelView, kind_label, port_id,
    port_views, provider_label,
};
use crate::win::ignore_store::IgnoreStore;

verus! {

#[derive(Debug)]
pub struct TunnelDTO {
    pub provider: String,
    pub public_url: Option<String>,
    pub target_port: u16,
}

pub struct TunnelDTOView {
    pub provider: Seq<char>,
    pub public_url: Option<Seq<char>>,
    pub target_port: u16,
}

impl View for TunnelDTO {
    type V = TunnelDTOView;

    open spec fn view(&self) -> TunnelDTOView {
        TunnelDTOView {
            provider: self.provider@,
            public_url: match self.public_url {
                Some(u) => Some(u@),
                None => None,
            },
            target_port: self.target_port,
        }
    }
}

#[derive(Debug)]
pub struct ProjectDTO {
    pub name: String,
    pub kind: String,
    pub path: String,
}

pub struct ProjectDTOView {
    pub name: Seq<char>,
    pub kind: Seq<char>,
    pub path: Seq<char>,
}

impl View for ProjectDTO {
    type V = ProjectDTOView;

    open spec fn view(&self) -> ProjectDTOView {
        ProjectDTOView { name: self.name@, kind: self.kind@, path: self.path@ }
    }
}

#[derive(Debug)]
pub struct PortDTO {
    pub id: String,
    pub port: u16,
    pub pid: i32,
    pub command: String,
    pub display_name: String,
    pub project: Option<ProjectDTO>,
    pub tunnels: Vec<TunnelDTO>,
    pub ignored: bool,
}

pub struct PortDTOView {
    pub id: Seq<char>,
    pub port: u16,
    pub pid: i32,
    pub command: Seq<char>,
    pub display_name: Seq<char>,
    pub project: Option<ProjectDTOView>,
    pub tunnels: Seq<TunnelDTOView>,
    pub ignored: bool,
}

pub open spec fn tunnel_dto_views(s: Seq<TunnelDTO>) -> Seq<TunnelDTOView> {
    s.map_values(|t: TunnelDTO| t@)
}

impl View for PortDTO {
    type V = PortDTOView;

    open spec fn view(&self) -> PortDTOView {
        PortDTOView {
            id: self.id@,
            port: self.port,
            pid: self.pid,
            command: self.command@,
            display_name: self.display_name@,
            project: match self.project {
                Some(p) => Some(p@),
                None => None,
            },
            tunnels: tunnel_dto_views(self.tunnels@),
            ignored: self.ignored,
        }
    }
}

#[derive(Debug)]
pub struct RulesDTO {
    pub processes: Vec<String>,
    pub ports: Vec<u16>,
}

#[derive(Debug)]
pub struct ScanResult {
    pub ports: Vec<PortDTO>,
    pub rules: RulesDTO,
}

pub open spec fn port_dto_views(s: Seq<PortDTO>) -> Seq<PortDTOView> {
    s.map_values(|p: PortDTO| p@)
}

/// A tunnel as sent: its provider by label.
pub open spec fn spec_tunnel(t: TunnelView) -> TunnelDTOView {
    TunnelDTOView {
        provider: provider_label(t.provider),
        public_url: t.public_url,
        target_port: t.target_port,
    }
}

/// A project as sent: its kind by label.
pub open spec fn spec_project(p: ProjectView) -> ProjectDTOView {
    ProjectDTOView { name: p.name, kind: kind_label(p.kind), path: p.path }
}

/// A port row as sent, with its id and whether it is ignored.
pub open spec fn spec_port_dto(p: PortView, ignored: bool) -> PortDTOView {
    PortDTOView {
        id: port_id(p.pid, p.port),
        port: p.port,
        pid: p.pid,
        command: p.command,
        display_name: p.display_name,
        project: match p.project {
            Some(pr) => Some(spec_project(pr)),
            None => None,
        },
        tunnels: p.tunnels.map_values(|t: TunnelView| spec_tunnel(t)),
        ignored,
    }
}

fn tunnel(t: &TunnelInfo) -> (r: TunnelDTO)
    ensures
        r@ == spec_tunnel(t@),
{
    TunnelDTO {
        provider: String::from_str(t.provider.label()),
        public_url: crate::models::clone_opt_string(&t.public_url),
        target_port: t.target_port,
    }
}

fn project(p: &ProjectInfo) -> (r: ProjectDTO)
    ensures
        r@ == spec_project(p@),
{
    ProjectDTO {
        name: p.name.clone(),
        kind: String::from_str(p.kind.label()),
        path: p.path.clone(),
    }
}

/// The row of a port as the frontend receives it.
pub fn port_dto(p: &PortInfo, ignored: bool) -> (r: PortDTO)
    ensures
        r@ == spec_port_dto(p@, ignored),
{
    let mut tunnels: Vec<TunnelDTO> = Vec::new();
    let mut i: usize = 0;
    while i < p.tunnels.len()
        invariant
            0 <= i <= p.tunnels@.len(),
            tunnel_dto_views(tunnels@) == p@.tunnels.take(i as int).map_values(|t: TunnelView| spec_tunnel(t)),
        decreases p.tunnels@.len() - i,
    {
        let ghost before = tunnel_dto_views(tunnels@);
        let t = tunnel(&p.tunnels[i]);
        assert(p@.tunnels[i as int] == p.tunnels@[i as int]@);
        tunnels.push(t);
        assert(tunnel_dto_views(tunnels@) =~= before.push(t@));
        assert(tunnel_dto_views(tunnels@) =~= p@.tunnels.take(i as int + 1).map_values(
            |t: TunnelView| spec_tunnel(t),
        ));
        i = i + 1;
    }
    assert(p@.tunnels.take(p@.tunnels.len() as int) =~= p@.tunnels);
    let project = match &p.project {
        Some(pr) => Some(project(pr)),
        None => None,
    };
    let r = PortDTO {
        id: p.id(),
        port: p.port,
        pid: p.pid,
        command: p.command.clone(),
        display_name: p.display_name.clone(),
        project,
        tunnels,
        ignored,
    };
    assert(r@.tunnels =~= spec_port_dto(p@, ignored).tunnels);
    r
}

/// The answer to a scan: each port row, marked ignored when the store's
/// rules hide it, and the rules (process names and ports, in the store's
/// order).
pub fn scan_result(ports: &Vec<PortInfo>, store: &IgnoreStore) -> (r: ScanResult)
    ensures
        port_dto_views(r.ports@) == port_views(ports@).map_values(
            |p: PortView|
                spec_port_dto(
                    p,
                    spec_ignored(
                        store.rules.process_set(),
                        store.rules.port_set(),
                        p.port,
                        p.command,
                        p.display_name,
                    ),
                ),
        ),
        texts(r.rules.processes@) == store.rules.names(),
        r.rules.ports@ == store.rules.port_list(),
{
    let ghost want = port_views(ports@).map_values(
        |p: PortView|
            spec_port_dto(
                p,
                spec_ignored(
                    store.rules.process_set(),
                    store.rules.port_set(),
                    p.port,
                    p.command,
                    p.display_name,
                ),
            ),
    );
    let mut dtos: Vec<PortDTO> = Vec::new();
    let mut i: usize = 0;
    while i < ports.len()
        invariant
            want == port_views(ports@).map_values(
                |p: PortView|
                    spec_port_dto(
                        p,
                        spec_ignored(
                            store.rules.process_set(),
                            store.rules.port_set(),
                            p.port,
                            p.command,
                            p.display_name,
                        ),
                    ),
            ),
            0 <= i <= ports@.len(),
            port_dto_views(dtos@) == want.take(i as int),
        decreases ports@.len() - i,
    {
        let p = &ports[i];
        let ignored = store.is_ignored(p);
        let ghost before = port_dto_views(dtos@);
        let d = port_dto(p, ignored);
        dtos.push(d);
        assert(port_dto_views(dtos@) =~= before.push(d@));
        assert(port_views(ports@)[i as int] == p@);
        assert(want[i as int] == spec_port_dto(p@, ignored));
        assert(port_dto_views(dtos@) =~= want.take(i as int + 1));
        i = i + 1;
    }
    assert(want.take(want.len() as int) =~= want);
    let rule_names = store.rules.processes();
    let rule_ports = store.rules.ports();
    let mut processes: Vec<String> = Vec::new();
    let mut k: usize = 0;
    while k < rule_names.len()
        invariant
            0 <= k <= rule_names@.len(),
            texts(processes@) == texts(rule_names@).take(k as int),
        decreases rule_names@.len() - k,
    {
        let ghost before = texts(processes@);
        let n = rule_names[k].clone();
        processes.push(n);
        assert(texts(processes@) =~= before.push(n@));
        assert(texts(processes@) =~= texts(rule_names@).take(k as int + 1));
        k = k + 1;
    }
    assert(texts(rule_names@).take(rule_names@.len() as int) =~= texts(rule_names@));
    let mut port_list: Vec<u16> = Vec::new();
    let mut j: usize = 0;
    while j < rule_ports.len()
        invariant
            0 <= j <= rule_ports@.len(),
            port_list@ == rule_ports@.take(j as int),
        decreases rule_ports@.len() - j,
    {
        port_list.push(rule_ports[j]);
        assert(port_list@ =~= rule_ports@.take(j as int + 1));
        j = j + 1;
    }
    assert(rule_ports@.take(rule_ports@.len() as int) =~= rule_ports@);
    ScanResult { ports: dtos, rules: RulesDTO { processes, ports: port_list } }
}

} // verus!
