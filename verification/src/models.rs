//! Data types shared across the detection logic, each with a mathematical view
//! in which strings are `Seq<char>`.

use vstd::prelude::*;
use crate::text::{dec, dec_signed, push_dec, push_dec_signed};

verus! {

#[derive(Debug, Clone, Copy, PartialEq, Eq, Structural)]
pub enum ProjectKind {
    Node,
    Python,
    Go,
    Ruby,
    Rust,
    Unknown,
}

/// The badge text of a project kind.
pub open spec fn kind_label(k: ProjectKind) -> Seq<char> {
    match k {
        ProjectKind::Node => "node"@,
        ProjectKind::Python => "python"@,
        ProjectKind::Go => "go"@,
        ProjectKind::Ruby => "ruby"@,
        ProjectKind::Rust => "rust"@,
        ProjectKind::Unknown => "unknown"@,
    }
}

impl ProjectKind {
    /// Lowercase tag used as a badge label.
    pub fn label(self) -> (r: &'static str)
        ensures
            r@ == kind_label(self),
    {
        match self {
            ProjectKind::Node => "node",
            ProjectKind::Python => "python",
            ProjectKind::Go => "go",
            ProjectKind::Ruby => "ruby",
            ProjectKind::Rust => "rust",
            ProjectKind::Unknown => "unknown",
        }
    }
}

#[derive(Debug, Clone, Copy, PartialEq, Eq, Structural)]
pub enum TunnelProvider {
    Cloudflare,
    Ngrok,
    Tailscale,
    Localtunnel,
}

/// The display name of a tunnel provider.
pub open spec fn provider_label(p: TunnelProvider) -> Seq<char> {
    match p {
        TunnelProvider::Cloudflare => "cloudflare"@,
        TunnelProvider::Ngrok => "ngrok"@,
        TunnelProvider::Tailscale => "tailscale"@,
        TunnelProvider::Localtunnel => "localtunnel"@,
    }
}

impl TunnelProvider {
    pub fn label(self) -> (r: &'static str)
        ensures
            r@ == provider_label(self),
    {
        match self {
            TunnelProvider::Cloudflare => "cloudflare",
            TunnelProvider::Ngrok => "ngrok",
            TunnelProvider::Tailscale => "tailscale",
            TunnelProvider::Localtunnel => "localtunnel",
        }
    }
}

#[derive(Debug, PartialEq, Eq)]
pub struct ProjectInfo {
    pub path: String,
    pub name: String,
    pub kind: ProjectKind,
}

pub struct ProjectView {
    pub path: Seq<char>,
    pub name: Seq<char>,
    pub kind: ProjectKind,
}

impl View for ProjectInfo {
    type V = ProjectView;

    open spec fn view(&self) -> ProjectView {
        ProjectView { path: self.path@, name: self.name@, kind: self.kind }
    }
}

impl Clone for ProjectInfo {
    fn clone(&self) -> (r: Self)
        ensures
            r == *self,
    {
        ProjectInfo { path: self.path.clone(), name: self.name.clone(), kind: self.kind }
    }
}

#[derive(Debug, PartialEq, Eq)]
pub struct TunnelInfo {
    pub provider: TunnelProvider,
    pub public_url: Option<String>,
    pub target_port: u16,
}

pub struct TunnelView {
    pub provider: TunnelProvider,
    pub public_url: Option<Seq<char>>,
    pub target_port: u16,
}

pub open spec fn opt_view(s: Option<String>) -> Option<Seq<char>> {
    match s {
        Some(v) => Some(v@),
        None => None,
    }
}

impl View for TunnelInfo {
    type V = TunnelView;

    open spec fn view(&self) -> TunnelView {
        TunnelView {
            provider: self.provider,
            public_url: opt_view(self.public_url),
            target_port: self.target_port,
        }
    }
}

pub fn clone_opt_string(s: &Option<String>) -> (r: Option<String>)
    ensures
        r == *s,
{
    match s {
        Some(v) => Some(v.clone()),
        None => None,
    }
}

impl Clone for TunnelInfo {
    fn clone(&self) -> (r: Self)
        ensures
            r == *self,
    {
        TunnelInfo {
            provider: self.provider,
            public_url: clone_opt_string(&self.public_url),
            target_port: self.target_port,
        }
    }
}

/// The views of a sequence of tunnels.
pub open spec fn tunnel_views(s: Seq<TunnelInfo>) -> Seq<TunnelView> {
    s.map_values(|t: TunnelInfo| t@)
}

/// A copy of a list of tunnels.
pub fn clone_tunnels(v: &Vec<TunnelInfo>) -> (r: Vec<TunnelInfo>)
    ensures
        r@ == v@,
{
    let mut r: Vec<TunnelInfo> = Vec::new();
    let mut i: usize = 0;
    while i < v.len()
        invariant
            0 <= i <= v@.len(),
            r@ == v@.take(i as int),
        decreases v@.len() - i,
    {
        r.push(v[i].clone());
        assert(r@ =~= v@.take(i as int + 1));
        i = i + 1;
    }
    assert(v@.take(v@.len() as int) =~= v@);
    r
}

/// One LISTEN socket as parsed from `ss`, before enrichment.
#[derive(Debug, PartialEq, Eq)]
pub struct RawListen {
    pub pid: i32,
    pub command: String,
    pub port: u16,
}

pub struct ListenView {
    pub pid: i32,
    pub command: Seq<char>,
    pub port: u16,
}

impl View for RawListen {
    type V = ListenView;

    open spec fn view(&self) -> ListenView {
        ListenView { pid: self.pid, command: self.command@, port: self.port }
    }
}

impl Clone for RawListen {
    fn clone(&self) -> (r: Self)
        ensures
            r == *self,
    {
        RawListen { pid: self.pid, command: self.command.clone(), port: self.port }
    }
}

pub open spec fn listen_views(s: Seq<RawListen>) -> Seq<ListenView> {
    s.map_values(|l: RawListen| l@)
}

#[derive(Debug, PartialEq, Eq)]
pub struct PortInfo {
    pub port: u16,
    pub pid: i32,
    pub command: String,
    pub display_name: String,
    pub project: Option<ProjectInfo>,
    pub tunnels: Vec<TunnelInfo>,
}

pub struct PortView {
    pub port: u16,
    pub pid: i32,
    pub command: Seq<char>,
    pub display_name: Seq<char>,
    pub project: Option<ProjectView>,
    pub tunnels: Seq<TunnelView>,
}

pub open spec fn project_opt_view(p: Option<ProjectInfo>) -> Option<ProjectView> {
    match p {
        Some(v) => Some(v@),
        None => None,
    }
}

impl View for PortInfo {
    type V = PortView;

    open spec fn view(&self) -> PortView {
        PortView {
            port: self.port,
            pid: self.pid,
            command: self.command@,
            display_name: self.display_name@,
            project: project_opt_view(self.project),
            tunnels: tunnel_views(self.tunnels@),
        }
    }
}

pub open spec fn port_views(s: Seq<PortInfo>) -> Seq<PortView> {
    s.map_values(|p: PortInfo| p@)
}

impl Clone for PortInfo {
    fn clone(&self) -> (r: Self)
        ensures
            r@ == self@,
            r.port == self.port,
            r.pid == self.pid,
            r.command == self.command,
            r.display_name == self.display_name,
            r.project == self.project,
            r.tunnels@ == self.tunnels@,
    {
        let project = match &self.project {
            Some(p) => Some(p.clone()),
            None => None,
        };
        let tunnels = clone_tunnels(&self.tunnels);
        let r = PortInfo {
            port: self.port,
            pid: self.pid,
            command: self.command.clone(),
            display_name: self.display_name.clone(),
            project,
            tunnels,
        };
        assert(r.tunnels@ == self.tunnels@);
        r
    }
}

/// A copy of a list of port rows.
pub fn clone_ports(v: &Vec<PortInfo>) -> (r: Vec<PortInfo>)
    ensures
        port_views(r@) == port_views(v@),
{
    let mut r: Vec<PortInfo> = Vec::new();
    let mut i: usize = 0;
    while i < v.len()
        invariant
            0 <= i <= v@.len(),
            port_views(r@) == port_views(v@.take(i as int)),
        decreases v@.len() - i,
    {
        let ghost before = port_views(r@);
        let c = v[i].clone();
        r.push(c);
        assert(port_views(r@) =~= before.push(c@));
        assert(port_views(v@.take(i as int + 1)) =~= port_views(v@.take(i as int)).push(v@[i as int]@));
        i = i + 1;
    }
    assert(v@.take(v@.len() as int) =~= v@);
    r
}

/// The text `"{pid}-{port}"` identifying a port row.
pub open spec fn port_id(pid: i32, port: u16) -> Seq<char> {
    dec_signed(pid as int) + seq!['-'] + dec(port as nat)
}

impl PortInfo {
    pub fn id(&self) -> (r: String)
        ensures
            r@ == port_id(self.pid, self.port),
    {
        let mut s = String::new();
        push_dec_signed(&mut s, self.pid as i64);
        s.append("-");
        proof {
            reveal_strlit("-");
        }
        push_dec(&mut s, self.port as u64);
        assert(s@ =~= port_id(self.pid, self.port));
        s
    }
}

} // verus!
