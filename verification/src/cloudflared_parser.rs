//! Cloudflare Tunnel detection: the `--url` flag of a `cloudflared` command
//! line, and the ingress rules of a named tunnel's `config.yml`.

use vstd::prelude::*;
use crate::models::{TunnelInfo, TunnelProvider, TunnelView, tunnel_views};
use crate::text::{
    chars_of, first_index, leading_digits, leading_digits_from, lines, lines_of, parse_u16,
    parse_u16_chars, position_of, rfind, rfind_char, seqs, split_chars, split_on, starts_with,
    string_of, trim, trim_chars,
};

verus! {

/// The port in the digits after the last `':'` of `s` (`"http://localhost:3000"`).
pub open spec fn spec_port_from_url_like(s: Seq<char>) -> Option<u16> {
    match rfind(s, ':') {
        Some(c) => parse_u16(leading_digits(s.skip(c + 1))),
        None => None,
    }
}

/// The port of the token after the first `--url` token of a space-separated
/// command line.
pub open spec fn spec_target_port(cmd: Seq<char>) -> Option<u16> {
    let toks = split_on(cmd, ' ');
    match first_index(toks, "--url"@) {
        Some(i) => if i + 1 < toks.len() {
            spec_port_from_url_like(toks[i + 1])
        } else {
            None
        },
        None => None,
    }
}

/// Extract the target port from a `--url <addr>` flag, if present.
pub fn target_port_from_cmdline(cmd: &str) -> (r: Option<u16>)
    ensures
        r == spec_target_port(cmd@),
{
    let cv = chars_of(cmd);
    let toks = split_chars(cv.as_slice(), ' ');
    match position_of(&toks, "--url") {
        Some(i) => {
            if i < toks.len() - 1 {
                assert(seqs(toks@)[i + 1] == toks@[i + 1]@);
                port_from_url_like(toks[i + 1].as_slice())
            } else {
                None
            }
        },
        None => None,
    }
}

fn port_from_url_like(s: &[char]) -> (r: Option<u16>)
    ensures
        r == spec_port_from_url_like(s@),
{
    let n = s.len();
    let colon = rfind_char(s, ':')?;
    assert(colon < n);
    let tail = leading_digits_from(s, colon + 1);
    parse_u16_chars(tail.as_slice())
}

/// The trimmed text after `key` and a `':'`, when it is not empty.
pub open spec fn spec_value(line: Seq<char>, key: Seq<char>) -> Option<Seq<char>> {
    if key.is_prefix_of(line) && line.len() > key.len() && line[key.len() as int] == ':' {
        let v = trim(line.skip(key.len() as int + 1));
        if v.len() == 0 {
            None
        } else {
            Some(v)
        }
    } else {
        None
    }
}

/// The state after reading config lines: the host waiting for its service,
/// and the rules found so far.
pub open spec fn ingress_state(ls: Seq<Seq<char>>) -> (Option<Seq<char>>, Seq<TunnelView>)
    decreases ls.len(),
{
    if ls.len() == 0 {
        (None, Seq::empty())
    } else {
        ingress_step(ingress_state(ls.drop_last()), trim(ls.last()))
    }
}

/// One trimmed config line: a `hostname` sets the pending host, a `service`
/// with a port completes a rule for it; either way a `service` clears it.
pub open spec fn ingress_step(
    st: (Option<Seq<char>>, Seq<TunnelView>),
    line: Seq<char>,
) -> (Option<Seq<char>>, Seq<TunnelView>) {
    if line.len() == 0 {
        st
    } else if spec_value(line, "- hostname"@) is Some {
        (spec_value(line, "- hostname"@), st.1)
    } else if spec_value(line, "hostname"@) is Some {
        (spec_value(line, "hostname"@), st.1)
    } else if spec_value(line, "service"@) is Some {
        let service = spec_value(line, "service"@)->0;
        match (st.0, spec_port_from_url_like(service)) {
            (Some(host), Some(port)) => (
                None,
                st.1.push(
                    TunnelView {
                        provider: TunnelProvider::Cloudflare,
                        public_url: Some("https://"@ + host),
                        target_port: port,
                    },
                ),
            ),
            _ => (None, st.1),
        }
    } else {
        st
    }
}

/// The named-tunnel ingress rules of a `config.yml`.
pub open spec fn spec_ingress(yaml: Seq<char>) -> Seq<TunnelView> {
    ingress_state(lines(yaml)).1
}

/// Parse named-tunnel ingress rules (hostname -> localhost:port) from config.yml.
pub fn ingress_from_config_yaml(yaml: &str) -> (r: Vec<TunnelInfo>)
    ensures
        tunnel_views(r@) == spec_ingress(yaml@),
{
    let yv = chars_of(yaml);
    let ls = lines_of(yv.as_slice());
    let ghost lsv = seqs(ls@);
    let mut result: Vec<TunnelInfo> = Vec::new();
    let mut pending: Option<Vec<char>> = None;
    let mut k: usize = 0;
    assert(lsv.take(0) =~= Seq::<Seq<char>>::empty());
    while k < ls.len()
        invariant
            lsv == seqs(ls@),
            lsv == lines(yaml@),
            0 <= k <= lsv.len(),
            ingress_state(lsv.take(k as int)) == (
                match pending {
                    Some(h) => Some(h@),
                    None => None,
                },
                tunnel_views(result@),
            ),
        decreases lsv.len() - k,
    {
        let line = trim_chars(ls[k].as_slice());
        assert(lsv.take(k as int + 1).drop_last() =~= lsv.take(k as int));
        assert(lsv.take(k as int + 1).last() == ls@[k as int]@);
        let ghost before = tunnel_views(result@);
        if line.len() == 0 {
        } else {
            let host_value = match value(line.as_slice(), "- hostname") {
                Some(h) => Some(h),
                None => value(line.as_slice(), "hostname"),
            };
            match host_value {
                Some(host) => {
                    pending = Some(host);
                },
                None => {
                    match value(line.as_slice(), "service") {
                        Some(service) => {
                            let port = port_from_url_like(service.as_slice());
                            let p = pending;
                            pending = None;
                            match (p, port) {
                                (Some(host), Some(port)) => {
                                    let mut url = String::new();
                                    url.append("https://");
                                    let hs = string_of(host.as_slice());
                                    url.append(hs.as_str());
                                    let t = TunnelInfo {
                                        provider: TunnelProvider::Cloudflare,
                                        public_url: Some(url),
                                        target_port: port,
                                    };
                                    result.push(t);
                                    assert(tunnel_views(result@) =~= before.push(t@));
                                },
                                _ => {},
                            }
                        },
                        None => {},
                    }
                },
            }
        }
        k = k + 1;
    }
    assert(lsv.take(lsv.len() as int) =~= lsv);
    result
}

/// `line.strip_prefix(key)?.strip_prefix(':')?.trim()`, when not empty.
fn value(line: &[char], key: &str) -> (r: Option<Vec<char>>)
    ensures
        r matches Some(v) ==> spec_value(line@, key@) == Some(v@),
        r is None ==> spec_value(line@, key@) is None,
{
    let kv = chars_of(key);
    if !starts_with(line, kv.as_slice()) {
        return None;
    }
    let kl = kv.len();
    if line.len() <= kl || line[kl] != ':' {
        return None;
    }
    let rest = crate::text::slice_of(line, kl + 1, line.len());
    assert(rest@ =~= line@.skip(kl + 1));
    let v = trim_chars(rest.as_slice());
    if v.len() == 0 {
        None
    } else {
        Some(v)
    }
}

} // verus!
