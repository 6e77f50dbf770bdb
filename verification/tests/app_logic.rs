use porthole::host;
use porthole::i18n::{self, Lang};
use porthole::ignore_rules::IgnoreRules;
use porthole::ignore_store::IgnoreStore;
use porthole::ignored_tab::{port_entry, uncovered};
use porthole::models::{PortInfo, ProjectInfo, ProjectKind, TunnelInfo, TunnelProvider};
use porthole::port_row::{localhost_url, pill_detail, pill_link, port_label, provider_class};
use porthole::project_group::{card_title, kind_badge};
use porthole::project_resolver::{package_name, resolve, DirProbe};
use porthole::tray::icon_pixmap;
use porthole::updater::{is_newer, update_reaction, Outcome, UpdateReaction};
use porthole::window::{group, rebuild, PortsPage};

fn project(name: &str, kind: ProjectKind) -> Option<ProjectInfo> {
    Some(ProjectInfo { path: format!("/home/u/{name}"), name: name.into(), kind })
}

fn port(p: u16, command: &str, project: Option<ProjectInfo>, tunnels: Vec<TunnelInfo>) -> PortInfo {
    PortInfo {
        port: p,
        pid: p as i32,
        command: command.into(),
        display_name: command.into(),
        project,
        tunnels,
    }
}

fn tunnel(p: u16, url: Option<&str>) -> TunnelInfo {
    TunnelInfo {
        provider: TunnelProvider::Ngrok,
        public_url: url.map(|u| u.to_string()),
        target_port: p,
    }
}

fn rules(processes: &[&str], ports: &[u16]) -> IgnoreRules {
    IgnoreRules::new(
        processes.iter().map(|s| s.to_string()).collect(),
        ports.iter().copied().collect(),
    )
}

#[test]
fn compares_versions() {
    assert!(is_newer("0.2.0", "0.1.0"));
    assert!(is_newer("1.0.0", "0.9.9"));
    assert!(!is_newer("0.1.0", "0.1.0"));
    assert!(!is_newer("0.1.0", "0.2.0"));
    assert!(is_newer("0.1.1", "0.1.0"));
}

#[test]
fn version_comparison_pads_missing_parts_and_reads_bad_parts_as_zero() {
    assert!(!is_newer("1.0", "1.0.0"));
    assert!(is_newer("1.0.1", "1.0"));
    assert!(!is_newer("1.x", "1.0"));
    assert!(is_newer("1.10.0", "1.9.0"));
}

#[test]
fn groups_by_project_name_then_other_last() {
    let ports = vec![
        port(3000, "node", project("roomify", ProjectKind::Node), vec![]),
        port(5173, "go", project("alpha", ProjectKind::Go), vec![]),
        port(6379, "redis-server", None, vec![]),
        port(3001, "node", project("roomify", ProjectKind::Node), vec![]),
    ];
    let groups = group(&ports);
    assert_eq!(groups.len(), 3);
    assert_eq!(groups[0].0, "alpha");
    assert_eq!(groups[0].1, Some(ProjectKind::Go));
    assert_eq!(groups[0].2.iter().map(|p| p.port).collect::<Vec<_>>(), vec![5173]);
    assert_eq!(groups[1].0, "roomify");
    assert_eq!(groups[1].1, Some(ProjectKind::Node));
    assert_eq!(groups[1].2.iter().map(|p| p.port).collect::<Vec<_>>(), vec![3000, 3001]);
    assert_eq!(groups[2].0, "Other");
    assert_eq!(groups[2].1, None);
    assert_eq!(groups[2].2.iter().map(|p| p.port).collect::<Vec<_>>(), vec![6379]);
}

#[test]
fn groups_without_other_when_every_port_has_a_project() {
    let ports = vec![port(3000, "node", project("roomify", ProjectKind::Node), vec![])];
    let groups = group(&ports);
    assert_eq!(groups.len(), 1);
    assert_eq!(groups[0].0, "roomify");
    assert!(group(&[]).is_empty());
}

#[test]
fn rebuild_splits_visible_and_ignored_and_counts_tunnels() {
    let ports = vec![
        port(3000, "node", project("roomify", ProjectKind::Node), vec![tunnel(3000, None), tunnel(3000, None)]),
        port(6379, "redis-server", None, vec![tunnel(6379, None)]),
        port(631, "cupsd", None, vec![]),
    ];
    let r = rebuild(&ports, &rules(&["REDIS-SERVER"], &[631]), true);
    assert_eq!(r.visible_count, 1);
    assert_eq!(r.tunnel_count, 2);
    assert_eq!(r.ignored.iter().map(|p| p.port).collect::<Vec<_>>(), vec![6379, 631]);
    match r.page {
        PortsPage::Groups(gs) => {
            assert_eq!(gs.len(), 1);
            assert_eq!(gs[0].0, "roomify");
        }
        other => panic!("unexpected page {other:?}"),
    }
    assert_eq!(i18n::footer(Lang::En, r.visible_count, r.tunnel_count), "1 ports · 2 tunnels");
}

#[test]
fn rebuild_shows_loading_before_first_scan_and_empty_after() {
    let ports = vec![port(631, "cupsd", None, vec![])];
    let hide = rules(&[], &[631]);
    assert!(matches!(rebuild(&ports, &hide, false).page, PortsPage::Loading));
    assert!(matches!(rebuild(&ports, &hide, true).page, PortsPage::Empty));
    assert!(matches!(rebuild(&[], &hide, true).page, PortsPage::Empty));
}

#[test]
fn uncovered_rules_are_sorted_and_skip_running_ignored_ports() {
    let r = rules(&["cupsd", "avahi-daemon", "Xorg", "VITE"], &[9000, 631, 7000]);
    let mut ignored = port(631, "cupsd", None, vec![]);
    ignored.display_name = "vite".into();
    let (procs, ports) = uncovered(&r, &[ignored]);
    assert_eq!(procs, vec!["Xorg".to_string(), "avahi-daemon".to_string()]);
    assert_eq!(ports, vec![7000, 9000]);
}

#[test]
fn uncovered_with_nothing_running_lists_every_rule() {
    let r = rules(&["b", "a"], &[2, 1]);
    let (procs, ports) = uncovered(&r, &[]);
    assert_eq!(procs, vec!["a".to_string(), "b".to_string()]);
    assert_eq!(ports, vec![1, 2]);
}

#[test]
fn port_field_accepts_trimmed_port_numbers_only() {
    assert_eq!(port_entry(" 8080 "), Some(8080));
    assert_eq!(port_entry("+80"), Some(80));
    assert_eq!(port_entry("70000"), None);
    assert_eq!(port_entry("abc"), None);
    assert_eq!(port_entry(""), None);
}

#[test]
fn row_texts_and_pill_styles() {
    assert_eq!(provider_class(TunnelProvider::Ngrok), "tunnel-ngrok");
    assert_eq!(provider_class(TunnelProvider::Cloudflare), "tunnel-cloudflare");
    assert_eq!(provider_class(TunnelProvider::Tailscale), "tunnel-tailscale");
    assert_eq!(provider_class(TunnelProvider::Localtunnel), "tunnel-localtunnel");
    assert_eq!(port_label(3000), ":3000");
    assert_eq!(localhost_url(5173), "http://localhost:5173");
    let with_url = tunnel(3000, Some("https://a.ngrok.io"));
    let bare = tunnel(8080, None);
    assert_eq!(pill_detail(&with_url), "https://a.ngrok.io");
    assert_eq!(pill_detail(&bare), ":8080");
    assert_eq!(pill_link(&with_url), Some("https://a.ngrok.io".to_string()));
    assert_eq!(pill_link(&bare), None);
}

#[test]
fn card_titles_and_badges() {
    assert_eq!(card_title(Lang::Vi, "Other"), "Khác");
    assert_eq!(card_title(Lang::Zh, "Other"), "其他");
    assert_eq!(card_title(Lang::Vi, "roomify"), "roomify");
    assert_eq!(kind_badge(Some(ProjectKind::Node)), Some("node"));
    assert_eq!(kind_badge(Some(ProjectKind::Unknown)), None);
    assert_eq!(kind_badge(None), None);
}

#[test]
fn localized_texts_fill_in_arguments() {
    assert_eq!(i18n::lang_from_locale("vi_VN.UTF-8"), Lang::Vi);
    assert_eq!(i18n::lang_from_locale("zh_CN.UTF-8"), Lang::Zh);
    assert_eq!(i18n::lang_from_locale("de_DE.UTF-8"), Lang::En);
    assert_eq!(i18n::tr(Lang::Vi, "Quit"), "Thoát");
    assert_eq!(i18n::tr(Lang::En, "no such key"), "no such key");
    assert_eq!(i18n::ignore_port(Lang::En, 3000), "Ignore port 3000");
    assert_eq!(i18n::kill_pid(Lang::En, 42), "Kill PID 42?");
    assert_eq!(i18n::ignore_x(Lang::En, "node"), "Ignore node");
    assert_eq!(i18n::ignore_process(Lang::Vi, "node"), "Ẩn tiến trình node");
    assert_eq!(i18n::footer(Lang::Zh, 3, 0), "3 个端口 · 0 个隧道");
}

#[test]
fn update_reactions() {
    assert!(matches!(update_reaction(Lang::En, Outcome::UpToDate, true), UpdateReaction::Nothing));
    match update_reaction(Lang::En, Outcome::UpToDate, false) {
        UpdateReaction::Dialog(t) => assert_eq!(t, "You are on the latest version."),
        other => panic!("unexpected {other:?}"),
    }
    match update_reaction(Lang::En, Outcome::Available { version: "1.2.0".into(), applied: true }, true) {
        UpdateReaction::Dialog(t) => assert_eq!(t, "Porthole 1.2.0 downloaded. Restart to apply."),
        other => panic!("unexpected {other:?}"),
    }
    match update_reaction(Lang::En, Outcome::Available { version: "1.2.0".into(), applied: false }, false) {
        UpdateReaction::Dialog(t) => assert_eq!(t, "A new version is available. (v1.2.0)"),
        other => panic!("unexpected {other:?}"),
    }
    assert!(matches!(update_reaction(Lang::En, Outcome::Error("x".into()), true), UpdateReaction::Nothing));
    assert!(matches!(
        update_reaction(Lang::En, Outcome::Error("x".into()), false),
        UpdateReaction::OpenReleasesPage
    ));
}

#[test]
fn host_commands_escape_the_sandbox() {
    let args = vec!["-tlnpH".to_string()];
    let (prog, all) = host::command("ss", &args, true);
    assert_eq!(prog, "flatpak-spawn");
    assert_eq!(all, vec!["--host".to_string(), "ss".to_string(), "-tlnpH".to_string()]);
    let (prog, all) = host::command("ss", &args, false);
    assert_eq!(prog, "ss");
    assert_eq!(all, args);
}

#[test]
fn host_run_keeps_output_unless_empty_and_failed() {
    assert_eq!(host::run(String::new(), false), None);
    assert_eq!(host::run(String::new(), true), Some(String::new()));
    assert_eq!(host::run("x".into(), false), Some("x".into()));
    assert_eq!(
        host::listing_names("1\n 22 \nself\n"),
        vec!["1".to_string(), "22".to_string(), "self".to_string()]
    );
}

fn encode_png(w: u32, h: u32, color: png::ColorType, data: &[u8]) -> Vec<u8> {
    let mut out: Vec<u8> = Vec::new();
    {
        let mut enc = png::Encoder::new(&mut out, w, h);
        enc.set_color(color);
        enc.set_depth(png::BitDepth::Eight);
        let mut writer = enc.write_header().unwrap();
        writer.write_image_data(data).unwrap();
    }
    out
}

#[test]
fn tray_icon_is_argb() {
    let rgba = encode_png(2, 1, png::ColorType::Rgba, &[1, 2, 3, 4, 5, 6, 7, 8]);
    let icon = icon_pixmap(&rgba).unwrap();
    assert_eq!((icon.width, icon.height), (2, 1));
    assert_eq!(icon.data, vec![4, 1, 2, 3, 8, 5, 6, 7]);
    let rgb = encode_png(1, 1, png::ColorType::Rgb, &[9, 8, 7]);
    let icon = icon_pixmap(&rgb).unwrap();
    assert_eq!(icon.data, vec![255, 9, 8, 7]);
    let gray = encode_png(1, 1, png::ColorType::Grayscale, &[9]);
    assert!(icon_pixmap(&gray).is_none());
    assert!(icon_pixmap(b"not a png").is_none());
}

fn probe(path: &str) -> DirProbe {
    DirProbe {
        path: path.into(),
        basename: path.rsplit('/').next().unwrap_or("").into(),
        package_json: false,
        package_name: None,
        go_mod: false,
        pyproject_toml: false,
        requirements_txt: false,
        gemfile: false,
        cargo_toml: false,
        git: false,
    }
}

#[test]
fn reads_name_from_package_json() {
    let sub = probe("/tmp/root/src/server");
    let src = probe("/tmp/root/src");
    let mut root = probe("/tmp/root");
    root.package_json = true;
    root.package_name = package_name(br#"{"name":"roomify"}"#);
    let info = resolve(&[sub, src, root, probe("/tmp"), probe("/")]).unwrap();
    assert_eq!(info.name, "roomify");
    assert_eq!(info.kind, ProjectKind::Node);
    assert_eq!(info.path, "/tmp/root");
}

#[test]
fn git_root_fallback_uses_basename() {
    let mut root = probe("/tmp/proj");
    root.git = true;
    let info = resolve(&[root, probe("/tmp"), probe("/")]).unwrap();
    assert_eq!(info.name, "proj");
    assert_eq!(info.kind, ProjectKind::Unknown);
}

#[test]
fn returns_none_without_marker() {
    assert_eq!(resolve(&[probe("/tmp/x"), probe("/tmp"), probe("/")]), None);
    assert_eq!(resolve(&[]), None);
}

#[test]
fn marker_precedence_and_package_name_fallbacks() {
    let mut d = probe("/w/app");
    d.go_mod = true;
    d.cargo_toml = true;
    d.git = true;
    assert_eq!(resolve(&[d]).unwrap().kind, ProjectKind::Go);
    let mut n = probe("/w/web");
    n.package_json = true;
    n.package_name = package_name(br#"{"name":""}"#);
    let info = resolve(&[n]).unwrap();
    assert_eq!(info.name, "web");
    assert_eq!(package_name(b"not json"), None);
    assert_eq!(package_name(br#"{"version":"1"}"#), None);
}

#[test]
fn store_ignores_and_unignores() {
    let (mut store, must_save) = IgnoreStore::load("/tmp/ignore.json".into(), None);
    assert!(must_save);
    assert!(store.rules.processes().iter().any(|p| p == "systemd-resolved"));
    let p = port(5173, "node", None, vec![]);
    assert!(!store.rules.is_ignored(&p));
    assert!(store.ignore_process("node"));
    assert!(!store.ignore_process(""));
    assert!(store.rules.is_ignored(&p));
    store.unignore_matching(&p);
    assert!(!store.rules.is_ignored(&p));
    store.ignore_port(5173);
    assert!(store.rules.is_ignored(&p));
    store.unignore_port(5173);
    assert!(!store.rules.is_ignored(&p));
}
