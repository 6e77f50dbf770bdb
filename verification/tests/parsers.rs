use porthole::cloudflared_parser::{ingress_from_config_yaml, target_port_from_cmdline};
use porthole::localtunnel_parser::parse_from_cmdline;
use porthole::models::{RawListen, TunnelInfo, TunnelProvider};
use porthole::ss_parser::parse_listens;
use porthole::tailscale_parser;

#[test]
fn target_port_from_command_line() {
    assert_eq!(
        target_port_from_cmdline("cloudflared tunnel --url http://localhost:3000"),
        Some(3000)
    );
    assert_eq!(
        target_port_from_cmdline("cloudflared tunnel --url 127.0.0.1:8787 run"),
        Some(8787)
    );
    assert_eq!(target_port_from_cmdline("cloudflared tunnel run mytun"), None);
}

#[test]
fn ingress_from_config() {
    let yaml = "\
tunnel: abc-123
ingress:
  - hostname: app.example.com
    service: http://localhost:3000
  - hostname: api.example.com
    service: http://localhost:8080
  - service: http_status:404";
    assert_eq!(
        ingress_from_config_yaml(yaml),
        vec![
            TunnelInfo {
                provider: TunnelProvider::Cloudflare,
                public_url: Some("https://app.example.com".into()),
                target_port: 3000,
            },
            TunnelInfo {
                provider: TunnelProvider::Cloudflare,
                public_url: Some("https://api.example.com".into()),
                target_port: 8080,
            },
        ]
    );
}

#[test]
fn parses_port_and_subdomain() {
    assert_eq!(
        parse_from_cmdline("node lt --port 3000 --subdomain foo"),
        Some(TunnelInfo {
            provider: TunnelProvider::Localtunnel,
            public_url: Some("https://foo.loca.lt".into()),
            target_port: 3000,
        })
    );
}

#[test]
fn parses_port_only() {
    assert_eq!(
        parse_from_cmdline("lt --port 8080"),
        Some(TunnelInfo {
            provider: TunnelProvider::Localtunnel,
            public_url: None,
            target_port: 8080,
        })
    );
}

#[test]
fn returns_none_without_port() {
    assert_eq!(parse_from_cmdline("lt --help"), None);
}

#[test]
fn parses_multiple_processes_and_dedups_ipv4_ipv6() {
    let output = "\
LISTEN 0 511 0.0.0.0:3000 0.0.0.0:* users:((\"node\",pid=1234,fd=20))
LISTEN 0 511 [::]:3000 [::]:* users:((\"node\",pid=1234,fd=21))
LISTEN 0 511 127.0.0.1:6379 0.0.0.0:* users:((\"redis-ser\",pid=5678,fd=6))";
    assert_eq!(
        parse_listens(output),
        vec![
            RawListen { pid: 1234, command: "node".into(), port: 3000 },
            RawListen { pid: 5678, command: "redis-ser".into(), port: 6379 },
        ]
    );
}

#[test]
fn keeps_socket_without_process_as_bare_port() {
    let output = "LISTEN 0 128 127.0.0.1:631 0.0.0.0:*";
    assert_eq!(
        parse_listens(output),
        vec![RawListen { pid: 0, command: String::new(), port: 631 }]
    );
}

#[test]
fn ignores_malformed_and_empty_input() {
    assert_eq!(parse_listens(""), vec![]);
    assert_eq!(parse_listens("garbage\nESTAB 0 0 x y"), vec![]);
}

#[test]
fn parses_serve_status() {
    let output = "\
https://machine.tail1234.ts.net (tailnet only)
|-- / proxy http://127.0.0.1:3000

https://machine.tail1234.ts.net:8443 (Funnel on)
|-- / proxy http://127.0.0.1:8080";
    assert_eq!(
        tailscale_parser::parse(output),
        vec![
            TunnelInfo {
                provider: TunnelProvider::Tailscale,
                public_url: Some("https://machine.tail1234.ts.net".into()),
                target_port: 3000,
            },
            TunnelInfo {
                provider: TunnelProvider::Tailscale,
                public_url: Some("https://machine.tail1234.ts.net:8443".into()),
                target_port: 8080,
            },
        ]
    );
}

#[test]
fn handles_no_serve() {
    assert_eq!(tailscale_parser::parse("No serve config\n"), vec![]);
}
