use porthole::models::{PortInfo, ProjectInfo, ProjectKind, RawListen, TunnelInfo, TunnelProvider};
use porthole::project_resolver::DirProbe;
use porthole::scan_service::scan_tunnels;
use porthole::win::dto::{port_dto, scan_result};
use porthole::win::ignore_store::IgnoreStore;
use porthole::win::project_win::{candidates, looks_like_path, resolve};
use porthole::win::scan::{
    checked_trim_exe, cut_exe, is_localtunnel, listens_of, powershell, powershell_bin, proc_tunnels,
    procs_of, scan, trim_exe,
};

const DOC: &str = r#"{
  "conns": [
    {"LocalPort": 3000, "OwningProcess": 100},
    {"LocalPort": 3000, "OwningProcess": 100},
    {"LocalPort": 5173, "OwningProcess": 200},
    {"LocalPort": 445, "OwningProcess": 4},
    {"LocalPort": 8080},
    {"OwningProcess": 300}
  ],
  "procs": [
    {"ProcessId": 100, "Name": "node.exe",
     "CommandLine": "\"C:\\Program Files\\nodejs\\node.exe\" C:\\work\\roomify\\node_modules\\.bin\\vite",
     "ExecutablePath": "C:\\Program Files\\nodejs\\node.exe"},
    {"ProcessId": 200, "Name": "Python.EXE", "CommandLine": null, "ExecutablePath": null},
    {"ProcessId": 4, "Name": "System"},
    {"ProcessId": 300, "Name": "cloudflared.exe", "CommandLine": "cloudflared.exe tunnel --url http://localhost:3000"},
    {"ProcessId": 400, "Name": "node.exe", "CommandLine": "lt.cmd --port 5173"},
    {"Name": "no pid"}
  ]
}"#;

fn doc() -> serde_json::Value {
    serde_json::from_str(DOC).unwrap()
}

#[test]
fn trims_exe_in_any_case() {
    assert_eq!(trim_exe("node.exe"), "node");
    assert_eq!(trim_exe("Python.EXE"), "Python");
    assert_eq!(trim_exe("notepad"), "notepad");
    assert_eq!(trim_exe("x.exe.bak"), "x.exe.bak");
    assert_eq!(cut_exe("Node.Exe", "node.exe"), "Node");
    assert_eq!(checked_trim_exe("svchost.exe"), Some("svchost".to_string()));
}

#[test]
fn trim_exe_refuses_a_cut_inside_a_character() {
    // The Kelvin sign lower-cases to one byte, so the cut lands inside it.
    assert_eq!(checked_trim_exe("\u{212A}.exe"), None);
    // Five dotted capital Is grow by five bytes, past the end of the name.
    assert_eq!(checked_trim_exe("\u{130}\u{130}\u{130}\u{130}\u{130}.exe"), None);
}

#[test]
fn reads_processes_and_sockets() {
    let root = doc();
    let table = procs_of(&root);
    assert_eq!(table.order, vec![100, 200, 4, 300, 400]);
    assert_eq!(table.procs[&200].name, "Python.EXE");
    assert_eq!(table.procs[&200].cmdline, None);
    let listens = listens_of(&root, &table).unwrap();
    assert_eq!(
        listens,
        vec![
            RawListen { pid: 100, command: "node".into(), port: 3000 },
            RawListen { pid: 200, command: "Python".into(), port: 5173 },
            RawListen { pid: 4, command: "System".into(), port: 445 },
            RawListen { pid: 0, command: String::new(), port: 8080 },
        ]
    );
}

#[test]
fn later_process_entry_replaces_earlier() {
    let root: serde_json::Value = serde_json::from_str(
        r#"{"procs":[{"ProcessId":7,"Name":"a.exe"},{"ProcessId":8,"Name":"b"},{"ProcessId":7,"Name":"c.exe"}],
            "conns":[{"LocalPort":1,"OwningProcess":7}]}"#,
    )
    .unwrap();
    let table = procs_of(&root);
    assert_eq!(table.order, vec![7, 8]);
    assert_eq!(listens_of(&root, &table).unwrap()[0].command, "c");
}

#[test]
fn empty_document_has_nothing() {
    let root: serde_json::Value = serde_json::from_str("{}").unwrap();
    let table = procs_of(&root);
    assert!(table.order.is_empty());
    assert_eq!(listens_of(&root, &table).unwrap(), vec![]);
}

#[test]
fn unusable_process_name_stops_the_scan() {
    let root: serde_json::Value = serde_json::from_str(
        r#"{"procs":[{"ProcessId":7,"Name":"\u212a.exe"}],"conns":[{"LocalPort":1,"OwningProcess":7}]}"#,
    )
    .unwrap();
    let table = procs_of(&root);
    assert!(listens_of(&root, &table).is_none());
}

#[test]
fn windows_localtunnel_detection() {
    assert!(is_localtunnel("lt --port 3000"));
    assert!(is_localtunnel("lt.cmd --port 3000"));
    assert!(is_localtunnel("node C:\\npm\\lt --port 3000"));
    assert!(is_localtunnel("node /usr/bin/lt --port 3000"));
    assert!(!is_localtunnel("salt --port 3000"));
    assert!(!is_localtunnel("node lt.js --port 3000"));
}

#[test]
fn tunnels_of_processes_in_listing_order() {
    let table = procs_of(&doc());
    assert_eq!(
        proc_tunnels(&table),
        vec![
            TunnelInfo { provider: TunnelProvider::Cloudflare, public_url: None, target_port: 3000 },
            TunnelInfo { provider: TunnelProvider::Localtunnel, public_url: None, target_port: 5173 },
        ]
    );
}

#[test]
fn paths_worth_resolving() {
    assert!(looks_like_path("C:\\work"));
    assert!(looks_like_path("d:/work"));
    assert!(!looks_like_path("C:"));
    assert!(!looks_like_path("\\\\server\\share"));
    assert!(!looks_like_path("1:\\x"));
    let cl = "\"C:\\Program Files\\nodejs\\node.exe\" C:\\work\\roomify\\node_modules\\.bin\\vite";
    assert_eq!(
        candidates(Some(cl), Some("C:\\Program Files\\nodejs\\node.exe")),
        vec![
            "C:\\Program Files\\nodejs\\node.exe".to_string(),
            "C:\\work\\roomify\\node_modules\\.bin\\vite".to_string(),
            "C:\\work\\roomify\\node_modules\\.bin\\vite".to_string(),
            "C:\\Program Files\\nodejs\\node.exe".to_string(),
        ]
    );
    assert!(candidates(None, None).is_empty());
    assert!(candidates(Some("node server.js"), Some("node")).is_empty());
}

fn probe(path: &str, package: Option<&str>) -> DirProbe {
    DirProbe {
        path: path.into(),
        basename: path.rsplit('\\').next().unwrap_or("").into(),
        package_json: package.is_some(),
        package_name: package.map(|p| p.to_string()),
        go_mod: false,
        pyproject_toml: false,
        requirements_txt: false,
        gemfile: false,
        cargo_toml: false,
        git: false,
    }
}

#[test]
fn first_candidate_with_a_project_wins() {
    let node_exe = vec![probe("C:\\Program Files\\nodejs\\node.exe", None), probe("C:\\Program Files\\nodejs", None)];
    let vite = vec![
        probe("C:\\work\\roomify\\node_modules\\.bin\\vite", None),
        probe("C:\\work\\roomify\\node_modules\\.bin", None),
        probe("C:\\work\\roomify\\node_modules", None),
        probe("C:\\work\\roomify", Some("roomify")),
    ];
    let found = resolve(&vec![node_exe, vite]).unwrap();
    assert_eq!(found.name, "roomify");
    assert_eq!(found.path, "C:\\work\\roomify");
    assert_eq!(resolve(&vec![]), None);
}

fn roomify() -> ProjectInfo {
    ProjectInfo { path: "C:\\work\\roomify".into(), name: "roomify".into(), kind: ProjectKind::Node }
}

#[test]
fn assembles_windows_rows() {
    let root = doc();
    let table = procs_of(&root);
    let listens = listens_of(&root, &table).unwrap();
    let tunnels = scan_tunnels(None, proc_tunnels(&table), None, None);
    let rows = scan(listens, &table, &vec![(100, roomify())], &tunnels).unwrap();
    assert_eq!(
        rows,
        vec![
            PortInfo {
                port: 3000,
                pid: 100,
                command: "node".into(),
                display_name: "vite".into(),
                project: Some(roomify()),
                tunnels: vec![TunnelInfo { provider: TunnelProvider::Cloudflare, public_url: None, target_port: 3000 }],
            },
            PortInfo {
                port: 445,
                pid: 4,
                command: "System".into(),
                display_name: "System".into(),
                project: None,
                tunnels: vec![],
            },
            PortInfo {
                port: 5173,
                pid: 200,
                command: "Python".into(),
                display_name: "Python".into(),
                project: None,
                tunnels: vec![TunnelInfo { provider: TunnelProvider::Localtunnel, public_url: None, target_port: 5173 }],
            },
            PortInfo {
                port: 8080,
                pid: 0,
                command: String::new(),
                display_name: String::new(),
                project: None,
                tunnels: vec![],
            },
        ]
    );
}

#[test]
fn powershell_output_rules() {
    assert_eq!(powershell("  \r\n".into()), None);
    assert_eq!(powershell("{}".into()), Some("{}".into()));
    assert_eq!(powershell_bin(" \n".into(), false), None);
    assert_eq!(powershell_bin(" \n".into(), true), Some(" \n".into()));
    assert_eq!(powershell_bin("x".into(), false), Some("x".into()));
}

#[test]
fn port_rows_for_the_frontend() {
    let p = PortInfo {
        port: 3000,
        pid: 100,
        command: "node".into(),
        display_name: "vite".into(),
        project: Some(roomify()),
        tunnels: vec![TunnelInfo {
            provider: TunnelProvider::Ngrok,
            public_url: Some("https://a.ngrok.io".into()),
            target_port: 3000,
        }],
    };
    let d = port_dto(&p, true);
    assert_eq!(d.id, "100-3000");
    assert_eq!(d.port, 3000);
    assert_eq!(d.pid, 100);
    assert_eq!(d.command, "node");
    assert_eq!(d.display_name, "vite");
    let pr = d.project.unwrap();
    assert_eq!((pr.name.as_str(), pr.kind.as_str(), pr.path.as_str()), ("roomify", "node", "C:\\work\\roomify"));
    assert_eq!(d.tunnels.len(), 1);
    assert_eq!(d.tunnels[0].provider, "ngrok");
    assert_eq!(d.tunnels[0].public_url.as_deref(), Some("https://a.ngrok.io"));
    assert_eq!(d.tunnels[0].target_port, 3000);
    assert!(d.ignored);
}

#[test]
fn scan_answer_marks_ignored_rows_and_lists_rules() {
    let (mut store, must_save) = IgnoreStore::load("C:\\ignore.json".into(), None);
    assert!(must_save);
    store.ignore_port(8080);
    let ports = vec![
        PortInfo {
            port: 445,
            pid: 4,
            command: "System".into(),
            display_name: "System".into(),
            project: None,
            tunnels: vec![],
        },
        PortInfo {
            port: 3000,
            pid: 100,
            command: "node".into(),
            display_name: "vite".into(),
            project: None,
            tunnels: vec![],
        },
    ];
    let r = scan_result(&ports, &store);
    assert_eq!(r.ports.iter().map(|d| d.ignored).collect::<Vec<_>>(), vec![true, false]);
    assert_eq!(r.ports[0].id, "4-445");
    assert!(r.rules.processes.iter().any(|p| p == "svchost"));
    assert_eq!(r.rules.ports, vec![8080]);
    store.unignore_matching(445, "System", "System");
    assert!(!store.is_ignored(&ports[0]));
}

#[test]
fn action_commands() {
    let (prog, args) = porthole::win::actions::kill_command(1234);
    assert_eq!(prog, "taskkill");
    assert_eq!(args, vec!["/PID", "1234", "/T", "/F"]);
    let (prog, args) = porthole::win::actions::kill_command(-7);
    assert_eq!(prog, "taskkill");
    assert_eq!(args[1], "-7");
    let (prog, args) = porthole::win::actions::open_url_command("https://a.ngrok.io");
    assert_eq!(prog, "cmd");
    assert_eq!(args, vec!["/C", "start", "", "https://a.ngrok.io"]);
}

#[test]
fn powershell_document_parses_as_json_or_not_at_all() {
    let root = porthole::win::scan::parse_document(DOC).unwrap();
    assert_eq!(procs_of(&root).order.len(), 5);
    assert!(porthole::win::scan::parse_document("not json").is_none());
}
