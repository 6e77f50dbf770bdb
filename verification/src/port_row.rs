//! What a port row shows besides its widgets: the number label, the local
//! URL its buttons open and copy, and each tunnel pill's style, text and link.

use vstd::prelude::*;
use crate::models::{TunnelInfo, TunnelProvider, TunnelView};
use crate::text::{dec, push_dec};

verus! {

/// The style class of a tunnel pill.
pub open spec fn spec_provider_class(p: TunnelProvider) -> Seq<char> {
    match p {
        TunnelProvider::Cloudflare => "tunnel-cloudflare"@,
        TunnelProvider::Ngrok => "tunnel-ngrok"@,
        TunnelProvider::Tailscale => "tunnel-tailscale"@,
        TunnelProvider::Localtunnel => "tunnel-localtunnel"@,
    }
}

pub fn provider_class(p: TunnelProvider) -> (r: &'static str)
    ensures
        r@ == spec_provider_class(p),
{
    match p {
        TunnelProvider::Cloudflare => "tunnel-cloudflare",
        TunnelProvider::Ngrok => "tunnel-ngrok",
        TunnelProvider::Tailscale => "tunnel-tailscale",
        TunnelProvider::Localtunnel => "tunnel-localtunnel",
    }
}

/// `":{port}"`.
pub open spec fn spec_port_label(port: u16) -> Seq<char> {
    seq![':'] + dec(port as nat)
}

/// The label of a port number, as shown in rows and rules: `":{port}"`.
pub fn port_label(port: u16) -> (r: String)
    ensures
        r@ == spec_port_label(port),
{
    let mut s = String::from_str(":");
    proof {
        reveal_strlit(":");
    }
    push_dec(&mut s, port as u64);
    assert(s@ =~= spec_port_label(port));
    s
}

/// `"http://localhost:{port}"`.
pub open spec fn spec_localhost_url(port: u16) -> Seq<char> {
    "http://localhost:"@ + dec(port as nat)
}

/// The URL that "Open in browser" opens and "Copy URL" copies.
pub fn localhost_url(port: u16) -> (r: String)
    ensures
        r@ == spec_localhost_url(port),
{
    let mut s = String::from_str("http://localhost:");
    push_dec(&mut s, port as u64);
    s
}

/// The detail text of a tunnel pill: its public URL, else `":{port}"`.
pub open spec fn spec_pill_detail(t: TunnelView) -> Seq<char> {
    match t.public_url {
        Some(u) => u,
        None => spec_port_label(t.target_port),
    }
}

pub fn pill_detail(t: &TunnelInfo) -> (r: String)
    ensures
        r@ == spec_pill_detail(t@),
{
    match &t.public_url {
        Some(u) => u.clone(),
        None => port_label(t.target_port),
    }
}

/// The URL a tunnel pill opens when clicked: its public URL; a pill without
/// one is not a button.
pub fn pill_link(t: &TunnelInfo) -> (r: Option<String>)
    ensures
        match r {
            Some(u) => t@.public_url == Some(u@),
            None => t@.public_url is None,
        },
{
    crate::models::clone_opt_string(&t.public_url)
}

} // verus!
