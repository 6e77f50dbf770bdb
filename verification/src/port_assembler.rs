//! Joins parsed sockets with their projects, display names and tunnels, and
//! orders the result: named projects first (by name), then the ports with no
//! project, each group by port number.

use vstd::prelude::*;
use std::collections::HashMap;
use crate::models::{
    ListenView, ProjectView, listen_views, PortInfo, PortView, ProjectInfo, RawListen, TunnelInfo, TunnelView, port_views, tunnel_views,
};
use crate::text::{chars_lt, chars_of, chars_eq, text_lt};

verus! {

broadcast use vstd::std_specs::hash::group_hash_axioms;

/// The tunnels whose target is `port`, in order.
pub open spec fn tunnels_to(ts: Seq<TunnelView>, port: u16) -> Seq<TunnelView>
    decreases ts.len(),
{
    if ts.len() == 0 {
        Seq::empty()
    } else if ts.last().target_port == port {
        tunnels_to(ts.drop_last(), port).push(ts.last())
    } else {
        tunnels_to(ts.drop_last(), port)
    }
}

/// The row for one socket: its project and display name looked up by pid (the
/// command when no name is known), and the tunnels that target its port.
pub open spec fn spec_port(
    l: ListenView,
    projects: Map<i32, ProjectView>,
    names: Map<i32, Seq<char>>,
    tunnels: Seq<TunnelView>,
) -> PortView {
    PortView {
        port: l.port,
        pid: l.pid,
        command: l.command,
        display_name: if names.contains_key(l.pid) {
            names[l.pid]
        } else {
            l.command
        },
        project: if projects.contains_key(l.pid) {
            Some(projects[l.pid])
        } else {
            None
        },
        tunnels: tunnels_to(tunnels, l.port),
    }
}

/// The rank of a row: rows with a project come first.
pub open spec fn rank(p: PortView) -> int {
    if p.project is Some {
        0
    } else {
        1
    }
}

/// The sort order: rows with a project before rows without; project rows by
/// project name; rows of the same project, or without one, by port.
pub open spec fn row_lt(a: PortView, b: PortView) -> bool {
    if rank(a) != rank(b) {
        rank(a) < rank(b)
    } else if a.project is Some && a.project->0.name != b.project->0.name {
        text_lt(a.project->0.name, b.project->0.name)
    } else {
        a.port < b.port
    }
}

/// `rows` is ordered by `row_lt`.
pub open spec fn rows_sorted(rows: Seq<PortView>) -> bool {
    forall|i: int, j: int| 0 <= i < j < rows.len() ==> !row_lt(#[trigger] rows[j], #[trigger] rows[i])
}

/// `rows` is the stable sort of `input` by `row_lt`: ordered, and a
/// rearrangement of `input` in which rows that compare equal keep their order.
pub open spec fn stable_sort_of(rows: Seq<PortView>, input: Seq<PortView>) -> bool {
    &&& rows.len() == input.len()
    &&& rows_sorted(rows)
    &&& exists|perm: Seq<int>| is_stable_perm(rows, input, perm)
}

/// `perm[i]` is where `rows[i]` stood in `input`.
pub open spec fn is_stable_perm(rows: Seq<PortView>, input: Seq<PortView>, perm: Seq<int>) -> bool {
    &&& perm.len() == rows.len()
    &&& forall|i: int| 0 <= i < perm.len() ==> 0 <= #[trigger] perm[i] < input.len()
    &&& forall|i: int, j: int|
        0 <= i < j < perm.len() ==> #[trigger] perm[i] != #[trigger] perm[j]
    &&& forall|i: int| 0 <= i < rows.len() ==> #[trigger] rows[i] == input[perm[i]]
    &&& forall|i: int, j: int|
        0 <= i < j < rows.len() && !row_lt(#[trigger] rows[i], #[trigger] rows[j]) && !row_lt(
            rows[j],
            rows[i],
        ) ==> perm[i] < perm[j]
}

/// The rows of `listens`, in the order of `listens`.
pub open spec fn spec_rows(
    listens: Seq<ListenView>,
    projects: Map<i32, ProjectView>,
    names: Map<i32, Seq<char>>,
    tunnels: Seq<TunnelView>,
) -> Seq<PortView> {
    listens.map_values(|l: ListenView| spec_port(l, projects, names, tunnels))
}

/// The views of a pid-keyed map of projects.
pub open spec fn project_map(m: Map<i32, ProjectInfo>) -> Map<i32, ProjectView> {
    m.map_values(|p: ProjectInfo| p@)
}

/// The views of a pid-keyed map of names.
pub open spec fn name_map(m: Map<i32, String>) -> Map<i32, Seq<char>> {
    m.map_values(|s: String| s@)
}

/// `row_lt` is transitive.
pub proof fn lemma_row_lt_transitive(a: PortView, b: PortView, c: PortView)
    requires
        row_lt(a, b),
        row_lt(b, c),
    ensures
        row_lt(a, c),
{
    if rank(a) == rank(b) && rank(b) == rank(c) && a.project is Some {
        let x = a.project->0.name;
        let y = b.project->0.name;
        let z = c.project->0.name;
        if x != y && y != z {
            crate::text::lemma_text_lt_transitive(x, y, z);
            crate::text::lemma_text_lt_irreflexive(x);
        } else if x != y {
            crate::text::lemma_text_lt_irreflexive(x);
        } else if y != z {
            crate::text::lemma_text_lt_irreflexive(y);
        }
    }
}

/// `!row_lt` is transitive: `row_lt` orders rows totally up to ties.
pub proof fn lemma_row_le_transitive(a: PortView, b: PortView, c: PortView)
    requires
        !row_lt(b, a),
        !row_lt(c, b),
    ensures
        !row_lt(c, a),
{
    if row_lt(c, a) {
        lemma_row_lt_total(a, b);
        lemma_row_lt_total(b, c);
        if row_lt(a, b) {
            lemma_row_lt_transitive(c, a, b);
        }
    }
}

/// Two rows are tied or ordered one way or the other.
pub proof fn lemma_row_lt_total(a: PortView, b: PortView)
    ensures
        row_lt(a, b) || row_lt(b, a) || (rank(a) == rank(b) && a.port == b.port && (a.project is Some
            ==> a.project->0.name == b.project->0.name)),
{
    if rank(a) == rank(b) && a.project is Some && a.project->0.name != b.project->0.name {
        crate::text::lemma_text_lt_total(a.project->0.name, b.project->0.name);
    }
}

fn row_less(a: &PortInfo, b: &PortInfo) -> (r: bool)
    ensures
        r == row_lt(a@, b@),
{
    let ra: u8 = if a.project.is_some() {
        0
    } else {
        1
    };
    let rb: u8 = if b.project.is_some() {
        0
    } else {
        1
    };
    if ra != rb {
        return ra < rb;
    }
    match (&a.project, &b.project) {
        (Some(pa), Some(pb)) => {
            let na = chars_of(pa.name.as_str());
            let nb = chars_of(pb.name.as_str());
            if !chars_eq(na.as_slice(), nb.as_slice()) {
                return chars_lt(na.as_slice(), nb.as_slice());
            }
        },
        _ => {},
    }
    a.port < b.port
}

fn tunnels_for(tunnels: &[TunnelInfo], port: u16) -> (r: Vec<TunnelInfo>)
    ensures
        tunnel_views(r@) == tunnels_to(tunnel_views(tunnels@), port),
{
    let mut r: Vec<TunnelInfo> = Vec::new();
    let mut i: usize = 0;
    assert(tunnel_views(tunnels@).take(0) =~= Seq::<TunnelView>::empty());
    while i < tunnels.len()
        invariant
            0 <= i <= tunnels@.len(),
            tunnel_views(r@) == tunnels_to(tunnel_views(tunnels@).take(i as int), port),
        decreases tunnels@.len() - i,
    {
        let ghost tv = tunnel_views(tunnels@);
        assert(tv.take(i as int + 1).drop_last() =~= tv.take(i as int));
        assert(tv.take(i as int + 1).last() == tunnels@[i as int]@);
        if tunnels[i].target_port == port {
            let ghost before = tunnel_views(r@);
            let t = tunnels[i].clone();
            r.push(t);
            assert(tunnel_views(r@) =~= before.push(t@));
        }
        i = i + 1;
    }
    assert(tunnel_views(tunnels@).take(tunnels@.len() as int) =~= tunnel_views(tunnels@));
    r
}

fn make_row(
    listen: RawListen,
    projects: &HashMap<i32, ProjectInfo>,
    display_names: &HashMap<i32, String>,
    tunnels: &[TunnelInfo],
) -> (r: PortInfo)
    ensures
        r@ == spec_port(listen@, project_map(projects@), name_map(display_names@), tunnel_views(tunnels@)),
{
    let display_name = match display_names.get(&listen.pid) {
        Some(n) => n.clone(),
        None => listen.command.clone(),
    };
    let project = match projects.get(&listen.pid) {
        Some(p) => Some(p.clone()),
        None => None,
    };
    let ts = tunnels_for(tunnels, listen.port);
    PortInfo {
        port: listen.port,
        pid: listen.pid,
        command: listen.command,
        display_name,
        project,
        tunnels: ts,
    }
}

pub fn assemble(
    listens: Vec<RawListen>,
    projects: &HashMap<i32, ProjectInfo>,
    display_names: &HashMap<i32, String>,
    tunnels: &[TunnelInfo],
) -> (r: Vec<PortInfo>)
    ensures
        stable_sort_of(
            port_views(r@),
            spec_rows(
                listen_views(listens@),
                project_map(projects@),
                name_map(display_names@),
                tunnel_views(tunnels@),
            ),
        ),
{
    let ghost input = spec_rows(
        listen_views(listens@),
        project_map(projects@),
        name_map(display_names@),
        tunnel_views(tunnels@),
    );
    let mut rows: Vec<PortInfo> = Vec::new();
    let ghost mut perm: Seq<int> = Seq::empty();
    let mut i: usize = 0;
    let mut listens = listens;
    let ghost orig = listens@;
    // Take the sockets from the back so each can be moved out; insert each row
    // after every row that does not sort after it.
    let n = listens.len();
    let mut rev: Vec<RawListen> = Vec::new();
    while listens.len() > 0
        invariant
            rev@.len() + listens@.len() == n,
            n == orig.len(),
            listens@ == orig.take(listens@.len() as int),
            forall|k: int| 0 <= k < rev@.len() ==> #[trigger] rev@[k] == orig[n - 1 - k],
        decreases listens@.len(),
    {
        let l = listens.pop().unwrap();
        rev.push(l);
        assert(listens@ =~= orig.take(listens@.len() as int));
    }
    while rev.len() > 0
        invariant
            i + rev@.len() == n,
            n == orig.len(),
            input == spec_rows(
                listen_views(orig),
                project_map(projects@),
                name_map(display_names@),
                tunnel_views(tunnels@),
            ),
            forall|k: int| 0 <= k < rev@.len() ==> #[trigger] rev@[k] == orig[n - 1 - k],
            rows@.len() == i,
            rows_sorted(port_views(rows@)),
            is_stable_perm(port_views(rows@), input, perm),
            forall|k: int| 0 <= k < perm.len() ==> #[trigger] perm[k] < i,
        decreases rev@.len(),
    {
        let l = rev.pop().unwrap();
        assert(l == orig[i as int]);
        let row = make_row(l, projects, display_names, tunnels);
        assert(row@ == input[i as int]);
        let mut pos: usize = rows.len();
        while pos > 0 && row_less(&row, &rows[pos - 1])
            invariant
                0 <= pos <= rows@.len(),
                forall|k: int| pos <= k < rows@.len() ==> row_lt(row@, #[trigger] port_views(rows@)[k]),
            decreases pos,
        {
            pos = pos - 1;
        }
        let ghost old_rows = port_views(rows@);
        let ghost old_perm = perm;
        proof {
            if pos > 0 {
                assert(!row_lt(row@, old_rows[pos - 1]));
            }
        }
        rows.insert(pos, row);
        proof {
            perm = old_perm.insert(pos as int, i as int);
            let nr = port_views(rows@);
            assert(nr =~= old_rows.insert(pos as int, row@));
            assert forall|a: int, b: int| 0 <= a < b < nr.len() implies !row_lt(
                #[trigger] nr[b],
                #[trigger] nr[a],
            ) by {
                if a < pos && b == pos {
                    lemma_le_prefix(old_rows, row@, pos as int, a);
                } else if a == pos && b > pos {
                    assert(row_lt(row@, old_rows[b - 1]));
                    if row_lt(old_rows[b - 1], row@) {
                        lemma_row_lt_transitive(row@, old_rows[b - 1], row@);
                    }
                } else if a < pos && b > pos {
                    assert(!row_lt(old_rows[b - 1], old_rows[a]));
                } else if b < pos {
                    assert(!row_lt(old_rows[b], old_rows[a]));
                } else {
                    assert(!row_lt(old_rows[b - 1], old_rows[a - 1]));
                }
            }
            assert(is_stable_perm(nr, input, perm)) by {
                assert forall|a: int, b: int|
                    0 <= a < b < nr.len() && !row_lt(#[trigger] nr[a], #[trigger] nr[b]) && !row_lt(
                        nr[b],
                        nr[a],
                    ) implies perm[a] < perm[b] by {
                    if b == pos {
                        assert(perm[b] == i);
                        assert(perm[a] == old_perm[a]);
                    } else if a == pos {
                        assert(row_lt(row@, old_rows[b - 1]));
                    } else {
                        let a2 = if a < pos {
                            a
                        } else {
                            a - 1
                        };
                        let b2 = if b < pos {
                            b
                        } else {
                            b - 1
                        };
                        assert(nr[a] == old_rows[a2] && nr[b] == old_rows[b2]);
                        assert(perm[a] == old_perm[a2] && perm[b] == old_perm[b2]);
                    }
                }
                assert forall|a: int, b: int| 0 <= a < b < perm.len() implies #[trigger] perm[a]
                    != #[trigger] perm[b] by {
                    if a != pos as int && b != pos as int {
                        let a2 = if a < pos {
                            a
                        } else {
                            a - 1
                        };
                        let b2 = if b < pos {
                            b
                        } else {
                            b - 1
                        };
                        assert(perm[a] == old_perm[a2] && perm[b] == old_perm[b2]);
                    } else if a == pos as int {
                        let b2 = b - 1;
                        assert(perm[b] == old_perm[b2]);
                    } else {
                        assert(perm[a] == old_perm[a]);
                    }
                }
                assert forall|a: int| 0 <= a < nr.len() implies #[trigger] nr[a] == input[perm[a]] by {
                    if a < pos {
                        assert(perm[a] == old_perm[a]);
                    } else if a > pos {
                        assert(perm[a] == old_perm[a - 1]);
                    }
                }
            }
            assert forall|k: int| 0 <= k < perm.len() implies #[trigger] perm[k] < i + 1 by {
                if k < pos {
                    assert(perm[k] == old_perm[k]);
                } else if k > pos {
                    assert(perm[k] == old_perm[k - 1]);
                }
            }
        }
        i = i + 1;
    }
    assert(is_stable_perm(port_views(rows@), input, perm));
    rows
}

/// In an ordered list, every row with a project comes before every row
/// without one ("Other" is listed last).
pub proof fn law_projects_before_other(rows: Seq<PortView>, i: int, j: int)
    requires
        rows_sorted(rows),
        0 <= i < j < rows.len(),
        rows[i].project is None,
    ensures
        rows[j].project is None,
{
    assert(!row_lt(rows[j], rows[i]));
}

/// In an ordered list, the rows of one project, or the rows without a
/// project, are in port order.
pub proof fn law_same_group_by_port(rows: Seq<PortView>, i: int, j: int)
    requires
        rows_sorted(rows),
        0 <= i < j < rows.len(),
        rows[i].project is None <==> rows[j].project is None,
        rows[i].project is Some ==> rows[i].project->0.name == rows[j].project->0.name,
    ensures
        rows[i].port <= rows[j].port,
{
    assert(!row_lt(rows[j], rows[i]));
}

proof fn lemma_le_prefix(rows: Seq<PortView>, x: PortView, pos: int, a: int)
    requires
        rows_sorted(rows),
        0 <= a < pos <= rows.len(),
        !row_lt(x, rows[pos - 1]),
    ensures
        !row_lt(x, rows[a]),
{
    if a < pos - 1 {
        assert(!row_lt(rows[pos - 1], rows[a]));
        lemma_row_le_transitive(rows[a], rows[pos - 1], x);
    }
}

/// The tunnels of a row are exactly the tunnels that target its port: each
/// of them targets the port, and every tunnel that targets the port is
/// among them.
pub proof fn law_row_tunnels_target_port(
    l: ListenView,
    projects: Map<i32, ProjectView>,
    names: Map<i32, Seq<char>>,
    tunnels: Seq<TunnelView>,
)
    ensures
        forall|k: int|
            0 <= k < spec_port(l, projects, names, tunnels).tunnels.len() ==> (#[trigger] spec_port(
                l,
                projects,
                names,
                tunnels,
            ).tunnels[k]).target_port == l.port,
        forall|i: int|
            0 <= i < tunnels.len() && (#[trigger] tunnels[i]).target_port == l.port ==> spec_port(
                l,
                projects,
                names,
                tunnels,
            ).tunnels.contains(tunnels[i]),
{
    lemma_tunnels_to(tunnels, l.port);
}

proof fn lemma_tunnels_to(ts: Seq<TunnelView>, port: u16)
    ensures
        forall|k: int| 0 <= k < tunnels_to(ts, port).len() ==> (#[trigger] tunnels_to(ts, port)[k]).target_port == port,
        forall|i: int| 0 <= i < ts.len() && (#[trigger] ts[i]).target_port == port ==> tunnels_to(ts, port).contains(ts[i]),
    decreases ts.len(),
{
    if ts.len() > 0 {
        let init = ts.drop_last();
        lemma_tunnels_to(init, port);
        let t = tunnels_to(init, port);
        if ts.last().target_port == port {
            assert forall|k: int| 0 <= k < t.push(ts.last()).len() implies (#[trigger] t.push(ts.last())[k]).target_port == port by {
                if k < t.len() {
                    assert(t.push(ts.last())[k] == t[k]);
                }
            }
            assert forall|i: int| 0 <= i < ts.len() && (#[trigger] ts[i]).target_port == port implies t.push(ts.last()).contains(ts[i]) by {
                if i < ts.len() - 1 {
                    assert(init[i] == ts[i]);
                    let k = choose|k: int| 0 <= k < t.len() && t[k] == init[i];
                    assert(t.push(ts.last())[k] == ts[i]);
                } else {
                    assert(t.push(ts.last())[t.len() as int] == ts[i]);
                }
            }
        } else {
            assert forall|i: int| 0 <= i < ts.len() && (#[trigger] ts[i]).target_port == port implies t.contains(ts[i]) by {
                assert(i < ts.len() - 1);
                assert(init[i] == ts[i]);
            }
        }
    }
}

/// In an ordered list, the projects come in ascending order of name: of two
/// rows with projects of different names, the earlier one's name sorts first.
pub proof fn law_projects_by_name(rows: Seq<PortView>, i: int, j: int)
    requires
        rows_sorted(rows),
        0 <= i < j < rows.len(),
        rows[i].project is Some,
        rows[j].project is Some,
        rows[i].project->0.name != rows[j].project->0.name,
    ensures
        text_lt(rows[i].project->0.name, rows[j].project->0.name),
{
    assert(!row_lt(rows[j], rows[i]));
    crate::text::lemma_text_lt_total(rows[i].project->0.name, rows[j].project->0.name);
}

} // verus!
