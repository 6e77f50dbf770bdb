//! Parses the JSON body of the ngrok local API (`127.0.0.1:4040/api/tunnels`).

use vstd::prelude::*;
use crate::json::{
    JsonModel, as_array, as_str, get, json_array, json_contents, json_get, json_str, json_text,
    parse_json,
};
use crate::models::{TunnelInfo, TunnelProvider, TunnelView, tunnel_views};
use crate::ss_parser::spec_port_from_addr;
use crate::text::chars_of;

verus! {

/// One entry of `tunnels`: its `config.addr` gives the port (after the last
/// `':'`, or the whole text for a bare port), and `public_url` the URL.
pub open spec fn spec_tunnel(t: JsonModel) -> Option<TunnelView> {
    let addr = match json_get(t, "config"@) {
        Some(c) => match json_get(c, "addr"@) {
            Some(a) => json_str(a),
            None => None,
        },
        None => None,
    };
    match addr {
        Some(a) => match spec_port_from_addr(a) {
            Some(port) => Some(
                TunnelView {
                    provider: TunnelProvider::Ngrok,
                    public_url: match json_get(t, "public_url"@) {
                        Some(u) => json_str(u),
                        None => None,
                    },
                    target_port: port,
                },
            ),
            None => None,
        },
        None => None,
    }
}

/// The tunnels of the entries that have a usable address, in order.
pub open spec fn spec_tunnel_list(items: Seq<JsonModel>) -> Seq<TunnelView>
    decreases items.len(),
{
    if items.len() == 0 {
        Seq::empty()
    } else {
        let init = spec_tunnel_list(items.drop_last());
        match spec_tunnel(items.last()) {
            Some(t) => init.push(t),
            None => init,
        }
    }
}

/// The tunnels listed by a document: none unless it has a `tunnels` array.
pub open spec fn spec_tunnels_of(doc: JsonModel) -> Seq<TunnelView> {
    match json_get(doc, "tunnels"@) {
        Some(t) => match json_array(t) {
            Some(items) => spec_tunnel_list(items),
            None => Seq::empty(),
        },
        None => Seq::empty(),
    }
}

/// The tunnels in a response body; none when it is not JSON.
pub open spec fn spec_parse(data: Seq<u8>) -> Seq<TunnelView> {
    match json_text(data) {
        Some(doc) => spec_tunnels_of(doc),
        None => Seq::empty(),
    }
}

pub fn parse(data: &[u8]) -> (r: Vec<TunnelInfo>)
    ensures
        tunnel_views(r@) == spec_parse(data@),
{
    match parse_json(data) {
        Some(obj) => tunnels_from_json(&obj),
        None => Vec::new(),
    }
}

/// The tunnels listed by a parsed response document.
pub fn tunnels_from_json(obj: &serde_json::Value) -> (r: Vec<TunnelInfo>)
    ensures
        tunnel_views(r@) == spec_tunnels_of(json_contents(*obj)),
{
    let mut result: Vec<TunnelInfo> = Vec::new();
    let tunnels = match get(obj, "tunnels") {
        Some(t) => t,
        None => return result,
    };
    let items = match as_array(tunnels) {
        Some(a) => a,
        None => return result,
    };
    let ghost models = items@.map_values(|e: serde_json::Value| json_contents(e));
    let mut i: usize = 0;
    assert(models.take(0) =~= Seq::<JsonModel>::empty());
    while i < items.len()
        invariant
            models == items@.map_values(|e: serde_json::Value| json_contents(e)),
            0 <= i <= items@.len(),
            tunnel_views(result@) == spec_tunnel_list(models.take(i as int)),
        decreases items@.len() - i,
    {
        assert(models.take(i as int + 1).drop_last() =~= models.take(i as int));
        assert(models.take(i as int + 1).last() == json_contents(items@[i as int]));
        let ghost before = tunnel_views(result@);
        match tunnel(&items[i]) {
            Some(t) => {
                result.push(t);
                assert(tunnel_views(result@) =~= before.push(t@));
            },
            None => {},
        }
        i = i + 1;
    }
    assert(models.take(models.len() as int) =~= models);
    result
}

fn tunnel(t: &serde_json::Value) -> (r: Option<TunnelInfo>)
    ensures
        r matches Some(x) ==> spec_tunnel(json_contents(*t)) == Some(x@),
        r is None ==> spec_tunnel(json_contents(*t)) is None,
{
    let config = get(t, "config")?;
    let addr_v = get(config, "addr")?;
    let addr = as_str(addr_v)?;
    let av = chars_of(addr);
    let port = crate::ss_parser::port_from_addr(av.as_slice())?;
    let public_url = match get(t, "public_url") {
        Some(u) => match as_str(u) {
            Some(s) => Some(String::from_str(s)),
            None => None,
        },
        None => None,
    };
    Some(TunnelInfo { provider: TunnelProvider::Ngrok, public_url, target_port: port })
}

} // verus!
