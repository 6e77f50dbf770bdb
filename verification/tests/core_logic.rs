use porthole::ignore_rules::IgnoreRules;
use porthole::models::{PortInfo, ProjectInfo, ProjectKind, RawListen, TunnelInfo, TunnelProvider};
use porthole::ngrok_parser::parse;
use porthole::port_assembler::assemble;
use porthole::process_name_heuristic::display_name;
use std::collections::HashMap;

fn port(p: u16, command: &str, display_name: Option<&str>) -> PortInfo {
    PortInfo {
        port: p,
        pid: 1,
        command: command.into(),
        display_name: display_name.unwrap_or(command).into(),
        project: None,
        tunnels: vec![],
    }
}

fn rules(processes: &[&str], ports: &[u16]) -> IgnoreRules {
    IgnoreRules::new(
        processes.iter().map(|s| s.to_string()).collect(),
        ports.iter().copied().collect(),
    )
}

#[test]
fn ignores_by_port() {
    let r = rules(&[], &[7000]);
    assert!(r.is_ignored(&port(7000, "systemd-resolve", None)));
    assert!(!r.is_ignored(&port(3000, "node", None)));
}

#[test]
fn ignores_by_process_case_insensitive_on_command_or_display_name() {
    let r = rules(&["avahi-daemon"], &[]);
    assert!(r.is_ignored(&port(5353, "avahi-daemon", None)));
    assert!(r.is_ignored(&port(5353, "AVAHI-DAEMON", None)));
    let r2 = rules(&["vite"], &[]);
    assert!(r2.is_ignored(&port(5173, "node", Some("vite"))));
}

#[test]
fn not_ignored_when_no_match() {
    let r = rules(&["cupsd"], &[7000]);
    assert!(!r.is_ignored(&port(3000, "node", Some("vite"))));
}

#[test]
fn parses_tunnels() {
    let json = br#"
    {"tunnels":[
      {"public_url":"https://ab12.ngrok.io","config":{"addr":"http://localhost:3000"}},
      {"public_url":"tcp://1.tcp.ngrok.io:24000","config":{"addr":"localhost:5432"}}
    ]}"#;
    assert_eq!(
        parse(json),
        vec![
            TunnelInfo {
                provider: TunnelProvider::Ngrok,
                public_url: Some("https://ab12.ngrok.io".into()),
                target_port: 3000,
            },
            TunnelInfo {
                provider: TunnelProvider::Ngrok,
                public_url: Some("tcp://1.tcp.ngrok.io:24000".into()),
                target_port: 5432,
            },
        ]
    );
}

#[test]
fn parses_bare_port_addr() {
    let json = br#"{"tunnels":[{"public_url":"https://x.ngrok.io","config":{"addr":"3000"}}]}"#;
    assert_eq!(
        parse(json),
        vec![TunnelInfo {
            provider: TunnelProvider::Ngrok,
            public_url: Some("https://x.ngrok.io".into()),
            target_port: 3000,
        }]
    );
}

#[test]
fn handles_empty_and_bad_json() {
    assert_eq!(parse(br#"{"tunnels":[]}"#), vec![]);
    assert_eq!(parse(b"not json"), vec![]);
}

fn project(name: &str) -> ProjectInfo {
    ProjectInfo { path: format!("/p/{name}"), name: name.into(), kind: ProjectKind::Node }
}

#[test]
fn assembles_and_attaches_tunnels_by_port() {
    let listens = vec![
        RawListen { pid: 10, command: "node".into(), port: 3000 },
        RawListen { pid: 20, command: "redis-server".into(), port: 6379 },
    ];
    let mut projects = HashMap::new();
    projects.insert(10, project("roomify"));
    let mut names = HashMap::new();
    names.insert(10, "vite".to_string());
    names.insert(20, "redis-server".to_string());
    let tunnels = vec![TunnelInfo {
        provider: TunnelProvider::Ngrok,
        public_url: Some("https://a.ngrok.io".into()),
        target_port: 3000,
    }];

    let result = assemble(listens, &projects, &names, &tunnels);
    assert_eq!(result.len(), 2);
    let p3000 = result.iter().find(|p| p.port == 3000).unwrap();
    assert_eq!(p3000.display_name, "vite");
    assert_eq!(p3000.project.as_ref().unwrap().name, "roomify");
    assert_eq!(p3000.tunnels, tunnels);
    let p6379 = result.iter().find(|p| p.port == 6379).unwrap();
    assert!(p6379.project.is_none());
    assert!(p6379.tunnels.is_empty());
}

#[test]
fn sorts_projects_then_other_last() {
    let listens = vec![
        RawListen { pid: 20, command: "redis-server".into(), port: 6379 },
        RawListen { pid: 10, command: "node".into(), port: 3000 },
    ];
    let mut projects = HashMap::new();
    projects.insert(10, project("roomify"));
    let result = assemble(listens, &projects, &HashMap::new(), &[]);
    assert_eq!(result.iter().map(|p| p.port).collect::<Vec<_>>(), vec![3000, 6379]);
}

#[test]
fn detects_known_dev_tools() {
    assert_eq!(
        display_name("node", "node /home/x/app/node_modules/.bin/vite"),
        "vite"
    );
    assert_eq!(display_name("node", "next-server (v14.2.0)"), "next");
    assert_eq!(
        display_name("python3.12", "/usr/bin/python3.12 -m uvicorn main:app"),
        "uvicorn"
    );
}

#[test]
fn falls_back_to_command() {
    assert_eq!(display_name("redis-server", "redis-server *:6379"), "redis-server");
}
