//! localtunnel detection from an `lt --port N [--subdomain S]` command line.

use vstd::prelude::*;
use crate::models::{TunnelInfo, TunnelProvider, TunnelView};
use crate::text::{
    chars_of, first_index, index_from, parse_u16, parse_u16_chars, position_of, seqs, split_chars, split_on,
    string_of,
};

verus! {

/// The token after the first token equal to `name`.
pub open spec fn spec_flag(toks: Seq<Seq<char>>, name: Seq<char>) -> Option<Seq<char>> {
    match first_index(toks, name) {
        Some(i) => if i + 1 < toks.len() {
            Some(toks[i + 1])
        } else {
            None
        },
        None => None,
    }
}

/// The localtunnel described by a space-separated command line: the port of
/// `--port` (else `-p`), and `https://S.loca.lt` when `--subdomain S` is given.
pub open spec fn spec_parse_from_cmdline(cmd: Seq<char>) -> Option<TunnelView> {
    let toks = split_on(cmd, ' ');
    let port_str = if spec_flag(toks, "--port"@) is Some {
        spec_flag(toks, "--port"@)
    } else {
        spec_flag(toks, "-p"@)
    };
    match port_str {
        Some(p) => match parse_u16(p) {
            Some(port) => Some(
                TunnelView {
                    provider: TunnelProvider::Localtunnel,
                    public_url: match spec_flag(toks, "--subdomain"@) {
                        Some(s) => Some("https://"@ + s + ".loca.lt"@),
                        None => None,
                    },
                    target_port: port,
                },
            ),
            None => None,
        },
        None => None,
    }
}

fn flag(toks: &Vec<Vec<char>>, name: &str) -> (r: Option<Vec<char>>)
    ensures
        r matches Some(v) ==> spec_flag(seqs(toks@), name@) == Some(v@),
        r is None ==> spec_flag(seqs(toks@), name@) is None,
{
    match position_of(toks, name) {
        Some(i) => {
            if i < toks.len() - 1 {
                assert(seqs(toks@)[i + 1] == toks@[i + 1]@);
                Some(crate::text::slice_of(toks[i + 1].as_slice(), 0, toks[i + 1].len()))
            } else {
                None
            }
        },
        None => None,
    }
}

pub fn parse_from_cmdline(cmd: &str) -> (r: Option<TunnelInfo>)
    ensures
        r matches Some(t) ==> spec_parse_from_cmdline(cmd@) == Some(t@),
        r is None ==> spec_parse_from_cmdline(cmd@) is None,
{
    let cv = chars_of(cmd);
    let toks = split_chars(cv.as_slice(), ' ');
    let port_str = match flag(&toks, "--port") {
        Some(p) => Some(p),
        None => flag(&toks, "-p"),
    };
    let port_str = port_str?;
    let port = parse_u16_chars(port_str.as_slice())?;
    let url = match flag(&toks, "--subdomain") {
        Some(s) => {
            let mut u = String::new();
            u.append("https://");
            let ss = string_of(s.as_slice());
            u.append(ss.as_str());
            u.append(".loca.lt");
            Some(u)
        },
        None => None,
    };
    Some(TunnelInfo { provider: TunnelProvider::Localtunnel, public_url: url, target_port: port })
}

proof fn lemma_index_from_absent(s: Seq<Seq<char>>, x: Seq<char>, i: int)
    requires
        forall|j: int| 0 <= j < s.len() ==> s[j] != x,
    ensures
        index_from(s, x, i) is None,
    decreases s.len() - i,
{
    if 0 <= i < s.len() {
        lemma_index_from_absent(s, x, i + 1);
    }
}

proof fn lemma_index_from_first(s: Seq<Seq<char>>, x: Seq<char>, i: int, k: int)
    requires
        0 <= i <= k < s.len(),
        s[k] == x,
        forall|j: int| i <= j < k ==> s[j] != x,
    ensures
        index_from(s, x, i) == Some(k),
    decreases k - i,
{
    if i < k {
        lemma_index_from_first(s, x, i + 1, k);
    }
}

/// The port comes from `--port`, or, when the command line has no `--port`
/// token, from the token after the first `-p`: such a command line with a
/// valid port there is a localtunnel to that port.
pub proof fn law_short_port_flag(cmd: Seq<char>, k: int, port: u16)
    requires
        forall|j: int| 0 <= j < split_on(cmd, ' ').len() ==> split_on(cmd, ' ')[j] != "--port"@,
        0 <= k,
        k + 1 < split_on(cmd, ' ').len(),
        split_on(cmd, ' ')[k] == "-p"@,
        forall|j: int| 0 <= j < k ==> split_on(cmd, ' ')[j] != "-p"@,
        parse_u16(split_on(cmd, ' ')[k + 1]) == Some(port),
    ensures
        spec_parse_from_cmdline(cmd) matches Some(t) && t.provider == TunnelProvider::Localtunnel
            && t.target_port == port,
{
    let toks = split_on(cmd, ' ');
    lemma_index_from_absent(toks, "--port"@, 0);
    lemma_index_from_first(toks, "-p"@, 0, k);
}

/// When the command line has a `--port` token followed by a valid port, the
/// tunnel goes to that port, whatever `-p` says.
pub proof fn law_long_port_flag(cmd: Seq<char>, k: int, port: u16)
    requires
        0 <= k,
        k + 1 < split_on(cmd, ' ').len(),
        split_on(cmd, ' ')[k] == "--port"@,
        forall|j: int| 0 <= j < k ==> split_on(cmd, ' ')[j] != "--port"@,
        parse_u16(split_on(cmd, ' ')[k + 1]) == Some(port),
    ensures
        spec_parse_from_cmdline(cmd) matches Some(t) && t.provider == TunnelProvider::Localtunnel
            && t.target_port == port,
{
    lemma_index_from_first(split_on(cmd, ' '), "--port"@, 0, k);
}

/// A localtunnel's public URL is `https://S.loca.lt` for the token `S`
/// after the first `--subdomain`, and there is none without `--subdomain`.
pub proof fn law_subdomain_url(cmd: Seq<char>, k: int)
    requires
        spec_parse_from_cmdline(cmd) is Some,
        0 <= k,
        k + 1 < split_on(cmd, ' ').len(),
        split_on(cmd, ' ')[k] == "--subdomain"@,
        forall|j: int| 0 <= j < k ==> split_on(cmd, ' ')[j] != "--subdomain"@,
    ensures
        spec_parse_from_cmdline(cmd)->0.public_url == Some("https://"@ + split_on(cmd, ' ')[k + 1] + ".loca.lt"@),
{
    lemma_index_from_first(split_on(cmd, ' '), "--subdomain"@, 0, k);
}

/// Without a `--subdomain` token there is no public URL.
pub proof fn law_no_subdomain_no_url(cmd: Seq<char>)
    requires
        spec_parse_from_cmdline(cmd) is Some,
        forall|j: int| 0 <= j < split_on(cmd, ' ').len() ==> split_on(cmd, ' ')[j] != "--subdomain"@,
    ensures
        spec_parse_from_cmdline(cmd)->0.public_url is None,
{
    lemma_index_from_absent(split_on(cmd, ' '), "--subdomain"@, 0);
}

} // verus!
