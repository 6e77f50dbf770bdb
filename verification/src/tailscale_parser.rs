//! Parses `tailscale serve status` into tunnels: each `https://…` header line
//! names a public URL, and each following `proxy …:PORT` line maps it to a port.

use vstd::prelude::*;
use crate::models::{TunnelInfo, TunnelProvider, TunnelView, tunnel_views};
use crate::text::{
    chars_of, contains, contains_chars, find, find_chars, leading_digits, leading_digits_from,
    lines, lines_of, parse_u16, parse_u16_chars, rfind, rfind_char, seqs, slice_of, split_chars,
    split_on, starts_with, string_of, trim, trim_chars,
};

verus! {

/// The port in the digits after the last `':'` that follows the first `"proxy "`.
pub open spec fn spec_proxy_port(line: Seq<char>) -> Option<u16> {
    match find(line, "proxy "@) {
        Some(i) => {
            let target = line.skip(i + 6);
            match rfind(target, ':') {
                Some(c) => parse_u16(leading_digits(target.skip(c + 1))),
                None => None,
            }
        },
        None => None,
    }
}

/// The state after reading lines: the current host, and the tunnels found.
pub open spec fn serve_state(ls: Seq<Seq<char>>) -> (Option<Seq<char>>, Seq<TunnelView>)
    decreases ls.len(),
{
    if ls.len() == 0 {
        (None, Seq::empty())
    } else {
        serve_step(serve_state(ls.drop_last()), trim(ls.last()))
    }
}

/// One trimmed line: an `https://` line sets the host to its first
/// space-separated token; a line containing `"proxy "` with a port adds a
/// tunnel from the current host (if any) to that port.
pub open spec fn serve_step(st: (Option<Seq<char>>, Seq<TunnelView>), line: Seq<char>) -> (
    Option<Seq<char>>,
    Seq<TunnelView>,
) {
    if line.len() == 0 {
        st
    } else if "https://"@.is_prefix_of(line) {
        (Some(split_on(line, ' ')[0]), st.1)
    } else if contains(line, "proxy "@) {
        match (st.0, spec_proxy_port(line)) {
            (Some(host), Some(port)) => (
                st.0,
                st.1.push(
                    TunnelView {
                        provider: TunnelProvider::Tailscale,
                        public_url: Some(host),
                        target_port: port,
                    },
                ),
            ),
            _ => st,
        }
    } else {
        st
    }
}

pub open spec fn spec_parse(output: Seq<char>) -> Seq<TunnelView> {
    serve_state(lines(output)).1
}

pub fn parse(output: &str) -> (r: Vec<TunnelInfo>)
    ensures
        tunnel_views(r@) == spec_parse(output@),
{
    let ov = chars_of(output);
    let ls = lines_of(ov.as_slice());
    let ghost lsv = seqs(ls@);
    let mut result: Vec<TunnelInfo> = Vec::new();
    let mut current_host: Option<Vec<char>> = None;
    let https = chars_of("https://");
    let proxy = chars_of("proxy ");
    let mut k: usize = 0;
    assert(lsv.take(0) =~= Seq::<Seq<char>>::empty());
    while k < ls.len()
        invariant
            lsv == seqs(ls@),
            lsv == lines(output@),
            https@ == "https://"@,
            proxy@ == "proxy "@,
            0 <= k <= lsv.len(),
            serve_state(lsv.take(k as int)) == (
                match current_host {
                    Some(h) => Some(h@),
                    None => None,
                },
                tunnel_views(result@),
            ),
        decreases lsv.len() - k,
    {
        let line = trim_chars(ls[k].as_slice());
        assert(lsv.take(k as int + 1).drop_last() =~= lsv.take(k as int));
        assert(lsv.take(k as int + 1).last() == ls@[k as int]@);
        let ghost before = tunnel_views(result@);
        if line.len() == 0 {
        } else if starts_with(line.as_slice(), https.as_slice()) {
            let pieces = split_chars(line.as_slice(), ' ');
            proof {
                crate::text::lemma_split_on_nonempty(line@, ' ');
            }
            assert(seqs(pieces@)[0] == pieces@[0]@);
            current_host = Some(slice_of(pieces[0].as_slice(), 0, pieces[0].len()));
            assert(pieces@[0]@.subrange(0, pieces@[0]@.len() as int) =~= pieces@[0]@);
        } else if contains_chars(line.as_slice(), proxy.as_slice()) {
            match (&current_host, proxy_port(line.as_slice())) {
                (Some(host), Some(port)) => {
                    let t = TunnelInfo {
                        provider: TunnelProvider::Tailscale,
                        public_url: Some(string_of(host.as_slice())),
                        target_port: port,
                    };
                    result.push(t);
                    assert(tunnel_views(result@) =~= before.push(t@));
                },
                _ => {},
            }
        }
        k = k + 1;
    }
    assert(lsv.take(lsv.len() as int) =~= lsv);
    result
}

fn proxy_port(line: &[char]) -> (r: Option<u16>)
    ensures
        r == spec_proxy_port(line@),
{
    let pat = chars_of("proxy ");
    let n = line.len();
    let i = find_chars(line, pat.as_slice())?;
    proof {
        reveal_strlit("proxy ");
        crate::text::lemma_find_from_found(line@, pat@, 0);
    }
    assert(pat@.len() == 6);
    let target = slice_of(line, i + 6, n);
    assert(target@ =~= line@.skip(i + 6));
    let tn = target.len();
    let colon = rfind_char(target.as_slice(), ':')?;
    let tail = leading_digits_from(target.as_slice(), colon + 1);
    parse_u16_chars(tail.as_slice())
}

/// Only an `https://` header line changes the current host; any other line,
/// a proxy line included, keeps it, and no line drops a tunnel found before.
pub proof fn law_only_headers_change_host(st: (Option<Seq<char>>, Seq<TunnelView>), line: Seq<char>)
    ensures
        !"https://"@.is_prefix_of(line) ==> serve_step(st, line).0 == st.0,
        forall|t: TunnelView| st.1.contains(t) ==> serve_step(st, line).1.contains(t),
{
    assert forall|t: TunnelView| st.1.contains(t) implies serve_step(st, line).1.contains(t) by {
        let i = choose|i: int| 0 <= i < st.1.len() && st.1[i] == t;
        let r = serve_step(st, line).1;
        if r != st.1 {
            assert(r[i] == st.1[i]);
        }
    }
}

proof fn lemma_take_step(ls: Seq<Seq<char>>, n: int)
    requires
        0 < n <= ls.len(),
    ensures
        serve_state(ls.take(n)) == serve_step(serve_state(ls.take(n - 1)), trim(ls[n - 1])),
{
    assert(ls.take(n).drop_last() =~= ls.take(n - 1));
    assert(ls.take(n).last() == ls[n - 1]);
}

proof fn lemma_state_keeps(ls: Seq<Seq<char>>, n: int, t: TunnelView)
    requires
        0 <= n <= ls.len(),
        serve_state(ls.take(n)).1.contains(t),
    ensures
        serve_state(ls).1.contains(t),
    decreases ls.len() - n,
{
    if n < ls.len() {
        lemma_take_step(ls, n + 1);
        law_only_headers_change_host(serve_state(ls.take(n)), trim(ls[n]));
        lemma_state_keeps(ls, n + 1, t);
    } else {
        assert(ls.take(n) =~= ls);
    }
}

proof fn lemma_host_kept(ls: Seq<Seq<char>>, k: int, n: int)
    requires
        0 <= k < n <= ls.len(),
        "https://"@.is_prefix_of(trim(ls[k])),
        forall|j: int| k < j < n ==> !"https://"@.is_prefix_of(#[trigger] trim(ls[j])),
    ensures
        serve_state(ls.take(n)).0 == Some(split_on(trim(ls[k]), ' ')[0]),
    decreases n,
{
    lemma_take_step(ls, n);
    if n - 1 == k {
        assert(trim(ls[k]).len() > 0) by {
            reveal_strlit("https://");
        }
    } else {
        lemma_host_kept(ls, k, n - 1);
        law_only_headers_change_host(serve_state(ls.take(n - 1)), trim(ls[n - 1]));
    }
}

/// Every proxy line under an `https://HOST` header (with no other header
/// between them) maps HOST to its port: the mounts of one host each give a
/// tunnel.
pub proof fn law_proxy_lines_under_header(output: Seq<char>, k: int, m: int, port: u16)
    requires
        0 <= k < m < lines(output).len(),
        "https://"@.is_prefix_of(trim(lines(output)[k])),
        forall|j: int| k < j <= m ==> !"https://"@.is_prefix_of(#[trigger] trim(lines(output)[j])),
        spec_proxy_port(trim(lines(output)[m])) == Some(port),
    ensures
        spec_parse(output).contains(
            TunnelView {
                provider: TunnelProvider::Tailscale,
                public_url: Some(split_on(trim(lines(output)[k]), ' ')[0]),
                target_port: port,
            },
        ),
{
    let ls = lines(output);
    let host = split_on(trim(ls[k]), ' ')[0];
    let t = TunnelView { provider: TunnelProvider::Tailscale, public_url: Some(host), target_port: port };
    lemma_host_kept(ls, k, m);
    lemma_take_step(ls, m + 1);
    let line = trim(ls[m]);
    assert(find(line, "proxy "@) is Some);
    assert(contains(line, "proxy "@));
    reveal_strlit("proxy ");
    crate::text::lemma_find_from_found(line, "proxy "@, 0);
    assert(line.len() > 0);
    let st = serve_state(ls.take(m));
    assert(serve_state(ls.take(m + 1)).1 == st.1.push(t));
    assert(st.1.push(t)[st.1.len() as int] == t);
    lemma_state_keeps(ls, m + 1, t);
}

} // verus!
