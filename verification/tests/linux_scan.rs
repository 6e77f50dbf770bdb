use porthole::i18n::{lang_from_locale, Lang};
use porthole::ignore_rules::Persisted;
use porthole::ignore_store::IgnoreStore;
use porthole::models::{PortInfo, ProjectInfo, ProjectKind, RawListen, TunnelInfo, TunnelProvider};
use porthole::process_name_heuristic::display_name;
use porthole::scan_service::{
    full_command, is_localtunnel, listen_pids, proc_pids, scan, scan_proc_tunnels, scan_tunnels, PidProbe,
};
use porthole::proc_net::list_listens;
use porthole::updater::{appimage_url, check_outcome, check_releases, newer_outcome, Outcome, ReleaseCheck};

fn roomify() -> ProjectInfo {
    ProjectInfo { path: "/home/u/roomify".into(), name: "roomify".into(), kind: ProjectKind::Node }
}

fn ngrok(port: u16, url: &str) -> TunnelInfo {
    TunnelInfo { provider: TunnelProvider::Ngrok, public_url: Some(url.into()), target_port: port }
}

#[test]
fn joins_nul_separated_command_lines() {
    assert_eq!(full_command("node\0server.js\0\0"), Some("node server.js".to_string()));
    assert_eq!(full_command("\0\0"), None);
    assert_eq!(full_command(""), None);
    assert_eq!(full_command("  vite \0"), Some("vite".to_string()));
}

#[test]
fn linux_localtunnel_detection() {
    assert!(is_localtunnel("lt --port 8080"));
    assert!(is_localtunnel("node /usr/lib/node_modules/localtunnel/bin/lt --port 3000"));
    assert!(!is_localtunnel("salt --port 3000"));
    assert!(!is_localtunnel("node lt.js"));
}

#[test]
fn tunnels_of_running_processes() {
    let cmdlines = vec![
        "cloudflared\0tunnel\0--url\0http://localhost:3000\0".to_string(),
        "node\0/usr/bin/lt\0--port\08080\0--subdomain\0foo\0".to_string(),
        "bash\0".to_string(),
        String::new(),
    ];
    assert_eq!(
        scan_proc_tunnels(&cmdlines),
        vec![
            TunnelInfo { provider: TunnelProvider::Cloudflare, public_url: None, target_port: 3000 },
            TunnelInfo {
                provider: TunnelProvider::Localtunnel,
                public_url: Some("https://foo.loca.lt".into()),
                target_port: 8080,
            },
        ]
    );
}

#[test]
fn process_ids_from_proc_entries() {
    let entries: Vec<String> = ["1", "self", "42", "cpuinfo", "-3"].iter().map(|s| s.to_string()).collect();
    assert_eq!(proc_pids(&entries), vec![1, 42, -3]);
}

#[test]
fn distinct_positive_pids_of_sockets() {
    let listens = vec![
        RawListen { pid: 5, command: "a".into(), port: 1 },
        RawListen { pid: 0, command: String::new(), port: 2 },
        RawListen { pid: 5, command: "a".into(), port: 3 },
        RawListen { pid: 7, command: "b".into(), port: 4 },
    ];
    assert_eq!(listen_pids(&listens), vec![5, 7]);
}

#[test]
fn all_tunnels_in_source_order() {
    let ts = "https://machine.tail1234.ts.net (tailnet only)\n|-- / proxy http://127.0.0.1:5000";
    let yaml = "ingress:\n  - hostname: app.example.com\n    service: http://localhost:4000";
    let cf = TunnelInfo { provider: TunnelProvider::Cloudflare, public_url: None, target_port: 3000 };
    let all = scan_tunnels(
        Some(vec![ngrok(3000, "https://a.ngrok.io")]),
        vec![cf],
        Some(ts.to_string()),
        Some(yaml.to_string()),
    );
    assert_eq!(all.iter().map(|t| t.target_port).collect::<Vec<_>>(), vec![3000, 3000, 5000, 4000]);
    assert_eq!(all[2].provider, TunnelProvider::Tailscale);
    assert_eq!(all[3].public_url.as_deref(), Some("https://app.example.com"));
    assert!(scan_tunnels(None, vec![], None, None).is_empty());
}

#[test]
fn assembles_a_linux_scan() {
    let listens = vec![
        RawListen { pid: 20, command: "redis-server".into(), port: 6379 },
        RawListen { pid: 10, command: "node".into(), port: 3000 },
        RawListen { pid: 0, command: String::new(), port: 631 },
    ];
    let probes = vec![
        PidProbe { pid: 10, project: Some(roomify()), cmdline: Some("node\0/x/node_modules/.bin/vite\0".into()) },
        PidProbe { pid: 20, project: None, cmdline: Some("redis-server *:6379\0".into()) },
    ];
    let rows = scan(listens, &probes, &vec![ngrok(3000, "https://a.ngrok.io")]);
    assert_eq!(
        rows,
        vec![
            PortInfo {
                port: 3000,
                pid: 10,
                command: "node".into(),
                display_name: "vite".into(),
                project: Some(roomify()),
                tunnels: vec![ngrok(3000, "https://a.ngrok.io")],
            },
            PortInfo {
                port: 631,
                pid: 0,
                command: String::new(),
                display_name: String::new(),
                project: None,
                tunnels: vec![],
            },
            PortInfo {
                port: 6379,
                pid: 20,
                command: "redis-server".into(),
                display_name: "redis-server".into(),
                project: None,
                tunnels: vec![],
            },
        ]
    );
}

#[test]
fn heuristics_and_locales_ignore_case() {
    assert_eq!(display_name("node", "NODE /X/NODE_MODULES/.BIN/VITE"), "vite");
    assert_eq!(display_name("python", "python MANAGE.PY RUNSERVER"), "django");
    assert_eq!(lang_from_locale("VI_VN.UTF-8"), Lang::Vi);
    assert_eq!(lang_from_locale("ZH_TW"), Lang::Zh);
}

#[test]
fn store_seeds_defaults_once_and_saves_back() {
    let old = Persisted { processes: vec!["node".into()], ports: vec![3000], seed_version: 0 };
    let (store, must_save) = IgnoreStore::load("/tmp/i.json".into(), Some(old));
    assert!(must_save);
    assert!(store.rules.processes().iter().any(|p| p == "node"));
    assert!(store.rules.processes().iter().any(|p| p == "cupsd"));
    assert_eq!(store.rules.ports(), &vec![3000]);

    let current = Persisted { processes: vec!["node".into()], ports: vec![3000], seed_version: 1 };
    let (store, must_save) = IgnoreStore::load("/tmp/i.json".into(), Some(current));
    assert!(!must_save);
    assert_eq!(store.rules.processes(), &vec!["node".to_string()]);
    let saved = store.persisted();
    assert_eq!(saved.processes, vec!["node".to_string()]);
    assert_eq!(saved.ports, vec![3000]);
    assert_eq!(saved.seed_version, 1);
    let (again, must_save) = IgnoreStore::load("/tmp/i.json".into(), Some(saved));
    assert!(!must_save);
    assert_eq!(again.rules.processes(), store.rules.processes());
    assert_eq!(again.rules.ports(), store.rules.ports());
}

fn releases() -> serde_json::Value {
    serde_json::from_str(
        r#"[
          {"tag_name": "v1.0.2"},
          {"tag_name": "linux-v0.2.0", "assets": [
            {"name": "porthole.deb", "browser_download_url": "https://x/porthole.deb"},
            {"name": "Porthole-x86_64.AppImage", "browser_download_url": "https://x/P.AppImage"}
          ]},
          {"tag_name": "linux-v0.1.0"}
        ]"#,
    )
    .unwrap()
}

#[test]
fn finds_the_newest_linux_release() {
    let rel = releases();
    match check_releases(&rel, "0.1.0") {
        ReleaseCheck::Newer { version, index } => {
            assert_eq!(version, "0.2.0");
            assert_eq!(index, 1);
        }
        other => panic!("unexpected {other:?}"),
    }
    assert!(matches!(check_releases(&rel, "0.2.0"), ReleaseCheck::UpToDate));
    assert!(matches!(check_releases(&rel, "0.10.0"), ReleaseCheck::UpToDate));
    let none: serde_json::Value = serde_json::from_str(r#"[{"tag_name":"v1.0.0"}]"#).unwrap();
    assert!(matches!(check_releases(&none, "0.1.0"), ReleaseCheck::NotFound));
    let obj: serde_json::Value = serde_json::from_str(r#"{"message":"rate limited"}"#).unwrap();
    assert!(matches!(check_releases(&obj, "0.1.0"), ReleaseCheck::NotFound));
    let doubled: serde_json::Value = serde_json::from_str(r#"[{"tag_name":"linux-vlinux-v0.3.0"}]"#).unwrap();
    match check_releases(&doubled, "0.1.0") {
        ReleaseCheck::Newer { version, .. } => assert_eq!(version, "0.3.0"),
        other => panic!("unexpected {other:?}"),
    }
}

#[test]
fn picks_the_appimage_asset() {
    let rel = releases();
    assert_eq!(appimage_url(&rel[1]), Ok("https://x/P.AppImage".to_string()));
    assert_eq!(appimage_url(&rel[0]), Err("no AppImage asset in release".to_string()));
    let no_url: serde_json::Value =
        serde_json::from_str(r#"{"assets":[{"name":"P.AppImage"}]}"#).unwrap();
    assert_eq!(appimage_url(&no_url), Err("asset has no download url".to_string()));
}

#[test]
fn outcome_of_a_newer_release() {
    assert!(matches!(
        newer_outcome("0.2.0".into(), None),
        Outcome::Available { ref version, applied: false } if version == "0.2.0"
    ));
    assert!(matches!(
        newer_outcome("0.2.0".into(), Some(Ok(()))),
        Outcome::Available { ref version, applied: true } if version == "0.2.0"
    ));
    assert!(matches!(newer_outcome("0.2.0".into(), Some(Err("disk full".into()))), Outcome::Error(ref e) if e == "disk full"));
}

const TCP: &str = "  sl  local_address rem_address   st tx_queue rx_queue tr tm->when retrnsmt   uid  timeout inode
   0: 00000000:0BB8 00000000:0000 0A 00000000:00000000 00:00000000 00000000  1000        0 12345 1 0000000000000000 100 0 0 10 0
   1: 0100007F:18EB 00000000:0000 0A 00000000:00000000 00:00000000 00000000  1000        0 12346 1 0000000000000000 100 0 0 10 0
   2: 0100007F:0BB8 0100007F:D2F0 01 00000000:00000000 00:00000000 00000000  1000        0 12347 1 0000000000000000 20 4 30 10 -1
";
const TCP6: &str = "  sl  local_address                         remote_address                        st tx_queue rx_queue tr tm->when retrnsmt   uid  timeout inode
   0: 00000000000000000000000000000000:0BB8 00000000000000000000000000000000:0000 0A 00000000:00000000 00:00000000 00000000  1000        0 22345 1 0000000000000000 100 0 0 10 0
   1: 00000000000000000000000001000000:1F90 00000000000000000000000000000000:0000 0A 00000000:00000000 00:00000000 00000000  1000        0 22346 1 0000000000000000 100 0 0 10 0
";

fn bare(port: u16) -> RawListen {
    RawListen { pid: 0, command: String::new(), port }
}

#[test]
fn reads_listening_ports_from_kernel_tables() {
    assert_eq!(
        porthole::proc_net::parse_proc_net(TCP, TCP6),
        vec![bare(3000), bare(6379), bare(8080)]
    );
    assert_eq!(porthole::proc_net::parse_proc_net("", ""), vec![]);
    assert_eq!(porthole::proc_net::parse_proc_net("garbage\n  0: 00000000:XYZ 0 0A\n", ""), vec![]);
}

#[test]
fn falls_back_to_kernel_tables_only_without_ss() {
    let ss = "LISTEN 0 511 0.0.0.0:5173 0.0.0.0:* users:((\"node\",pid=42,fd=20))".to_string();
    assert_eq!(
        list_listens(Some(ss), Some(TCP.into()), None),
        vec![RawListen { pid: 42, command: "node".into(), port: 5173 }]
    );
    assert_eq!(list_listens(None, Some(TCP.into()), None), vec![bare(3000), bare(6379)]);
    assert_eq!(list_listens(None, None, Some(TCP6.into())), vec![bare(3000), bare(8080)]);
    assert_eq!(list_listens(None, None, None), vec![]);
}

#[test]
fn outcome_of_an_update_check() {
    assert!(matches!(check_outcome(ReleaseCheck::NotFound, None), Outcome::Error(ref e) if e == "no linux release found"));
    assert!(matches!(check_outcome(ReleaseCheck::UpToDate, None), Outcome::UpToDate));
    assert!(matches!(
        check_outcome(ReleaseCheck::Newer { version: "0.2.0".into(), index: 1 }, Some(Ok(()))),
        Outcome::Available { ref version, applied: true } if version == "0.2.0"
    ));
    assert!(matches!(
        check_outcome(ReleaseCheck::Newer { version: "0.2.0".into(), index: 1 }, None),
        Outcome::Available { applied: false, .. }
    ));
}
