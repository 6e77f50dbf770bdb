//! The logic behind the main window: which ports are shown and which are
//! hidden by the ignore rules, the footer counts, and the grouping of ports
//! into project cards (named projects by name, then "Other").

use vstd::prelude::*;
use crate::ignore_rules::{IgnoreRules, spec_ignored};
use crate::models::{PortInfo, PortView, ProjectKind, port_views};
use crate::text::{chars_eq, chars_lt, chars_of, text_lt};

verus! {

/// The ports named `n`: those whose project is called `n`, in order.
pub open spec fn ports_named(ps: Seq<PortView>, n: Seq<char>) -> Seq<PortView>
    decreases ps.len(),
{
    if ps.len() == 0 {
        Seq::empty()
    } else if ps.last().project is Some && ps.last().project->0.name == n {
        ports_named(ps.drop_last(), n).push(ps.last())
    } else {
        ports_named(ps.drop_last(), n)
    }
}

/// The ports with no project, in order.
pub open spec fn ports_without_project(ps: Seq<PortView>) -> Seq<PortView>
    decreases ps.len(),
{
    if ps.len() == 0 {
        Seq::empty()
    } else if ps.last().project is None {
        ports_without_project(ps.drop_last()).push(ps.last())
    } else {
        ports_without_project(ps.drop_last())
    }
}

/// A card: title, project kind (none for "Other"), ports.
pub type GroupView = (Seq<char>, Option<ProjectKind>, Seq<PortView>);

pub open spec fn group_views(gs: Seq<(String, Option<ProjectKind>, Vec<PortInfo>)>) -> Seq<GroupView> {
    gs.map_values(|g: (String, Option<ProjectKind>, Vec<PortInfo>)| (g.0@, g.1, port_views(g.2@)))
}

/// The card of project `n`: its ports, and the kind of the first of them.
pub open spec fn named_group(ps: Seq<PortView>, n: Seq<char>) -> GroupView {
    (n, Some(ports_named(ps, n)[0].project->0.kind), ports_named(ps, n))
}

/// Some port belongs to a project called `n`.
pub open spec fn has_project(ps: Seq<PortView>, n: Seq<char>) -> bool {
    exists|i: int| 0 <= i < ps.len() && (#[trigger] ps[i]).project is Some && ps[i].project->0.name == n
}

/// `gs` groups `ps`: one card per project name, in name order, each with the
/// ports of that project in order; then, if any port has no project, an
/// "Other" card with those ports.
pub open spec fn is_grouping(gs: Seq<GroupView>, ps: Seq<PortView>) -> bool {
    let other = ports_without_project(ps);
    let k = if other.len() > 0 {
        gs.len() - 1
    } else {
        gs.len() as int
    };
    &&& other.len() > 0 ==> gs.len() >= 1 && gs.last() == ("Other"@, None::<ProjectKind>, other)
    &&& forall|i: int| 0 <= i < k ==> has_project(ps, (#[trigger] gs[i]).0) && gs[i] == named_group(ps, gs[i].0)
    &&& forall|i: int, j: int| 0 <= i < j < k ==> text_lt((#[trigger] gs[i]).0, (#[trigger] gs[j]).0)
    &&& forall|n: Seq<char>| has_project(ps, n) ==> exists|i: int| 0 <= i < k && (#[trigger] gs[i]).0 == n
}

proof fn lemma_named_push(ps: Seq<PortView>, p: PortView, n: Seq<char>)
    ensures
        ports_named(ps.push(p), n) == if p.project is Some && p.project->0.name == n {
            ports_named(ps, n).push(p)
        } else {
            ports_named(ps, n)
        },
        ports_without_project(ps.push(p)) == if p.project is None {
            ports_without_project(ps).push(p)
        } else {
            ports_without_project(ps)
        },
{
    assert(ps.push(p).drop_last() =~= ps);
}

proof fn lemma_named_nonempty(ps: Seq<PortView>, n: Seq<char>)
    requires
        has_project(ps, n),
    ensures
        ports_named(ps, n).len() > 0,
    decreases ps.len(),
{
    let i = choose|i: int| 0 <= i < ps.len() && (#[trigger] ps[i]).project is Some && ps[i].project->0.name == n;
    if i < ps.len() - 1 {
        assert(ps.drop_last()[i] == ps[i]);
        lemma_named_nonempty(ps.drop_last(), n);
    }
}

proof fn lemma_named_empty(ps: Seq<PortView>, n: Seq<char>)
    requires
        !has_project(ps, n),
    ensures
        ports_named(ps, n).len() == 0,
    decreases ps.len(),
{
    if ps.len() > 0 {
        assert(!has_project(ps.drop_last(), n)) by {
            if has_project(ps.drop_last(), n) {
                let i = choose|i: int| 0 <= i < ps.drop_last().len() && (#[trigger] ps.drop_last()[i]).project is Some && ps.drop_last()[i].project->0.name == n;
                assert(ps[i] == ps.drop_last()[i]);
            }
        }
        lemma_named_empty(ps.drop_last(), n);
        assert(ps[ps.len() - 1] == ps.last());
    }
}

fn same_name(name: &String, m: &[char]) -> (r: bool)
    ensures
        r == (name@ == m@),
{
    let gv = chars_of(name.as_str());
    chars_eq(gv.as_slice(), m)
}

fn name_before(name: &String, m: &[char]) -> (r: bool)
    ensures
        r == text_lt(name@, m@),
{
    let gv = chars_of(name.as_str());
    chars_lt(gv.as_slice(), m)
}

/// Group ports by project (unprojected under "Other").
pub fn group(ports: &[PortInfo]) -> (r: Vec<(String, Option<ProjectKind>, Vec<PortInfo>)>)
    ensures
        is_grouping(group_views(r@), port_views(ports@)),
{
    let ghost all = port_views(ports@);
    let mut named: Vec<(String, ProjectKind, Vec<PortInfo>)> = Vec::new();
    let mut other: Vec<PortInfo> = Vec::new();
    let mut i: usize = 0;
    assert(all.take(0) =~= Seq::<PortView>::empty());
    while i < ports.len()
        invariant
            all == port_views(ports@),
            0 <= i <= all.len(),
            port_views(other@) == ports_without_project(all.take(i as int)),
            forall|g: int| 0 <= g < named@.len() ==> has_project(all.take(i as int), (#[trigger] named@[g]).0@)
                && named_group(all.take(i as int), named@[g].0@) == (named@[g].0@, Some(named@[g].1), port_views(named@[g].2@)),
            forall|a: int, b: int| 0 <= a < b < named@.len() ==> text_lt((#[trigger] named@[a]).0@, (#[trigger] named@[b]).0@),
            forall|n: Seq<char>| has_project(all.take(i as int), n) ==> exists|g: int| 0 <= g < named@.len() && (#[trigger] named@[g]).0@ == n,
        decreases all.len() - i,
    {
        let ghost pre = all.take(i as int);
        let ghost p = all[i as int];
        assert(all.take(i as int + 1) =~= pre.push(p));
        assert(p == ports@[i as int]@);
        proof {
            assert forall|n: Seq<char>| has_project(pre, n) implies has_project(pre.push(p), n) by {
                let j = choose|j: int| 0 <= j < pre.len() && (#[trigger] pre[j]).project is Some && pre[j].project->0.name == n;
                assert(pre.push(p)[j] == pre[j]);
            }
        }
        let port = &ports[i];
        match &port.project {
            None => {
                let ghost before = port_views(other@);
                other.push(port.clone());
                assert(port_views(other@) =~= before.push(p));
                proof {
                    lemma_named_push(pre, p, Seq::empty());
                    assert forall|g: int| 0 <= g < named@.len() implies named_group(pre.push(p), named@[g].0@) == named_group(pre, named@[g].0@) by {
                        lemma_named_push(pre, p, named@[g].0@);
                    }
                    assert forall|n: Seq<char>| has_project(pre.push(p), n) implies exists|g: int| 0 <= g < named@.len() && (#[trigger] named@[g]).0@ == n by {
                        let j = choose|j: int| 0 <= j < pre.push(p).len() && (#[trigger] pre.push(p)[j]).project is Some && pre.push(p)[j].project->0.name == n;
                        assert(j < pre.len());
                        assert(pre[j] == pre.push(p)[j]);
                        assert(has_project(pre, n));
                    }
                }
            },
            Some(project) => {
                proof {
                    lemma_named_push(pre, p, Seq::empty());
                }
                let nv = chars_of(project.name.as_str());
                let ghost m = nv@;
                assert(m == p.project->0.name);
                // Look for the card of this project.
                let mut g: usize = 0;
                while g < named.len() && !same_name(&named[g].0, nv.as_slice())
                    invariant
                        0 <= g <= named@.len(),
                        nv@ == m,
                        forall|h: int| 0 <= h < g ==> (#[trigger] named@[h]).0@ != m,
                    decreases named@.len() - g,
                {
                    g = g + 1;
                }
                if g < named.len() {
                    assert(named@[g as int].0@ == m);
                    let ghost old_named = named@;
                    let mut entry = named.remove(g);
                    let ghost old_ports = port_views(entry.2@);
                    entry.2.push(port.clone());
                    assert(port_views(entry.2@) =~= old_ports.push(p));
                    named.insert(g, entry);
                    proof {
                        assert(named@ =~= old_named.update(g as int, entry));
                        lemma_named_push(pre, p, m);
                        lemma_named_nonempty(pre, m);
                        assert(ports_named(pre, m).len() > 0);
                        assert(ports_named(pre.push(p), m)[0] == ports_named(pre, m)[0]);
                        assert forall|h: int| 0 <= h < named@.len() implies has_project(pre.push(p), (#[trigger] named@[h]).0@)
                            && named_group(pre.push(p), named@[h].0@) == (named@[h].0@, Some(named@[h].1), port_views(named@[h].2@)) by {
                            lemma_named_push(pre, p, named@[h].0@);
                            if h != g {
                                assert(named@[h] == old_named[h]);
                                if named@[h].0@ == m {
                                    if h < g {
                                        assert(text_lt(old_named[h].0@, old_named[g as int].0@));
                                    } else {
                                        assert(text_lt(old_named[g as int].0@, old_named[h].0@));
                                    }
                                    crate::text::lemma_text_lt_irreflexive(m);
                                }
                            }
                        }
                        assert forall|a: int, b: int| 0 <= a < b < named@.len() implies text_lt((#[trigger] named@[a]).0@, (#[trigger] named@[b]).0@) by {
                            assert(named@[a].0@ == old_named[a].0@);
                            assert(named@[b].0@ == old_named[b].0@);
                        }
                        assert forall|n: Seq<char>| has_project(pre.push(p), n) implies exists|h: int| 0 <= h < named@.len() && (#[trigger] named@[h]).0@ == n by {
                            if n == m {
                                assert(named@[g as int].0@ == n);
                            } else {
                                let j = choose|j: int| 0 <= j < pre.push(p).len() && (#[trigger] pre.push(p)[j]).project is Some && pre.push(p)[j].project->0.name == n;
                                assert(j < pre.len());
                                assert(pre[j] == pre.push(p)[j]);
                                assert(has_project(pre, n));
                                let h = choose|h: int| 0 <= h < old_named.len() && (#[trigger] old_named[h]).0@ == n;
                                assert(named@[h].0@ == n);
                            }
                        }
                    }
                } else {
                    // A new card, placed after every card whose name sorts before it.
                    let mut pos: usize = 0;
                    while pos < named.len() && name_before(&named[pos].0, nv.as_slice())
                        invariant
                            0 <= pos <= named@.len(),
                            nv@ == m,
                            forall|h: int| 0 <= h < pos ==> text_lt((#[trigger] named@[h]).0@, m),
                        decreases named@.len() - pos,
                    {
                        pos = pos + 1;
                    }
                    proof {
                        assert(!has_project(pre, m)) by {
                            if has_project(pre, m) {
                                let h = choose|h: int| 0 <= h < named@.len() && (#[trigger] named@[h]).0@ == m;
                            }
                        }
                        lemma_named_empty(pre, m);
                        lemma_named_push(pre, p, m);
                    }
                    let ghost old_named = named@;
                    let mut v: Vec<PortInfo> = Vec::new();
                    v.push(port.clone());
                    let entry = (project.name.clone(), project.kind, v);
                    assert(port_views(entry.2@) =~= seq![p]);
                    assert(ports_named(pre.push(p), m) =~= seq![p]);
                    named.insert(pos, entry);
                    proof {
                        assert(named@ =~= old_named.insert(pos as int, entry));
                        if pos < old_named.len() {
                            assert(!text_lt(old_named[pos as int].0@, m));
                            assert(old_named[pos as int].0@ != m);
                            crate::text::lemma_text_lt_total(old_named[pos as int].0@, m);
                        }
                        assert forall|h: int| 0 <= h < named@.len() implies has_project(pre.push(p), (#[trigger] named@[h]).0@)
                            && named_group(pre.push(p), named@[h].0@) == (named@[h].0@, Some(named@[h].1), port_views(named@[h].2@)) by {
                            if h == pos {
                                assert(pre.push(p)[pre.len() as int] == p);
                            } else {
                                let h2 = if h < pos { h } else { h - 1 };
                                assert(named@[h] == old_named[h2]);
                                lemma_named_push(pre, p, named@[h].0@);
                            }
                        }
                        assert forall|a: int, b: int| 0 <= a < b < named@.len() implies text_lt((#[trigger] named@[a]).0@, (#[trigger] named@[b]).0@) by {
                            let a2 = if a < pos { a } else { a - 1 };
                            let b2 = if b < pos { b } else { b - 1 };
                            if a == pos {
                                assert(text_lt(m, old_named[pos as int].0@));
                                if b2 > pos {
                                    crate::text::lemma_text_lt_transitive(m, old_named[pos as int].0@, old_named[b2].0@);
                                }
                            } else if b == pos {
                                assert(text_lt(old_named[a2].0@, m));
                            } else if a < pos && b > pos {
                                assert(text_lt(old_named[a2].0@, old_named[b2].0@));
                            } else {
                                assert(text_lt(old_named[a2].0@, old_named[b2].0@));
                            }
                        }
                        assert forall|n: Seq<char>| has_project(pre.push(p), n) implies exists|h: int| 0 <= h < named@.len() && (#[trigger] named@[h]).0@ == n by {
                            if n == m {
                                assert(named@[pos as int].0@ == n);
                            } else {
                                let j = choose|j: int| 0 <= j < pre.push(p).len() && (#[trigger] pre.push(p)[j]).project is Some && pre.push(p)[j].project->0.name == n;
                                assert(j < pre.len());
                                assert(pre[j] == pre.push(p)[j]);
                                assert(has_project(pre, n));
                                let h = choose|h: int| 0 <= h < old_named.len() && (#[trigger] old_named[h]).0@ == n;
                                if h < pos {
                                    assert(named@[h].0@ == n);
                                } else {
                                    assert(named@[h + 1].0@ == n);
                                }
                            }
                        }
                    }
                }
            },
        }
        i = i + 1;
    }
    assert(all.take(all.len() as int) =~= all);
    let mut groups: Vec<(String, Option<ProjectKind>, Vec<PortInfo>)> = Vec::new();
    let mut k: usize = 0;
    while k < named.len()
        invariant
            0 <= k <= named@.len(),
            groups@.len() == k,
            forall|g: int| 0 <= g < k ==> (#[trigger] group_views(groups@)[g]) == (named@[g].0@, Some(named@[g].1), port_views(named@[g].2@)),
        decreases named@.len() - k,
    {
        let e = &named[k];
        let pv = crate::models::clone_ports(&e.2);
        let ghost before = group_views(groups@);
        let item = (e.0.clone(), Some(e.1), pv);
        groups.push(item);
        assert(group_views(groups@) =~= before.push((named@[k as int].0@, Some(named@[k as int].1), port_views(named@[k as int].2@))));
        k = k + 1;
    }
    let ghost ov = port_views(other@);
    let ghost nv = group_views(groups@);
    if other.len() > 0 {
        let ghost before = group_views(groups@);
        groups.push((String::from_str("Other"), None, other));
        assert(group_views(groups@) =~= before.push(("Other"@, None::<ProjectKind>, ov)));
    }
    proof {
        let gs = group_views(groups@);
        let n = named@.len() as int;
        assert(forall|g: int| 0 <= g < n ==> #[trigger] gs[g] == nv[g]);
        assert forall|g: int| 0 <= g < n implies has_project(all, (#[trigger] gs[g]).0) && gs[g] == named_group(all, gs[g].0) by {
            assert(gs[g] == nv[g]);
            assert(nv[g] == (named@[g].0@, Some(named@[g].1), port_views(named@[g].2@)));
        }
        assert forall|a: int, b: int| 0 <= a < b < n implies text_lt((#[trigger] gs[a]).0, (#[trigger] gs[b]).0) by {
            assert(gs[a] == nv[a] && gs[b] == nv[b]);
            assert(text_lt(named@[a].0@, named@[b].0@));
        }
        assert forall|m: Seq<char>| has_project(all, m) implies exists|g: int| 0 <= g < n && (#[trigger] gs[g]).0 == m by {
            let h = choose|h: int| 0 <= h < named@.len() && (#[trigger] named@[h]).0@ == m;
            assert(gs[h] == nv[h]);
        }
    }
    groups
}

/// The port is hidden by rules with these process names and port numbers.
pub open spec fn hidden(procs: Set<Seq<char>>, ports: Set<u16>, p: PortView) -> bool {
    spec_ignored(procs, ports, p.port, p.command, p.display_name)
}

/// The ports the rules leave visible, in order.
pub open spec fn shown_ports(ps: Seq<PortView>, procs: Set<Seq<char>>, ports: Set<u16>) -> Seq<PortView>
    decreases ps.len(),
{
    if ps.len() == 0 {
        Seq::empty()
    } else if hidden(procs, ports, ps.last()) {
        shown_ports(ps.drop_last(), procs, ports)
    } else {
        shown_ports(ps.drop_last(), procs, ports).push(ps.last())
    }
}

/// The ports the rules hide, in order.
pub open spec fn hidden_ports(ps: Seq<PortView>, procs: Set<Seq<char>>, ports: Set<u16>) -> Seq<PortView>
    decreases ps.len(),
{
    if ps.len() == 0 {
        Seq::empty()
    } else if hidden(procs, ports, ps.last()) {
        hidden_ports(ps.drop_last(), procs, ports).push(ps.last())
    } else {
        hidden_ports(ps.drop_last(), procs, ports)
    }
}

/// The number of tunnels of the ports, all together.
pub open spec fn tunnel_total(ps: Seq<PortView>) -> nat
    decreases ps.len(),
{
    if ps.len() == 0 {
        0
    } else {
        tunnel_total(ps.drop_last()) + ps.last().tunnels.len()
    }
}

proof fn lemma_total_prefix(ps: Seq<PortView>, i: int)
    requires
        0 <= i <= ps.len(),
    ensures
        tunnel_total(ps.take(i)) <= tunnel_total(ps),
    decreases ps.len() - i,
{
    if i < ps.len() {
        assert(ps.take(i + 1).drop_last() =~= ps.take(i));
        lemma_total_prefix(ps, i + 1);
    } else {
        assert(ps.take(i) =~= ps);
    }
}

proof fn lemma_total_shown(ps: Seq<PortView>, procs: Set<Seq<char>>, ports: Set<u16>)
    ensures
        tunnel_total(shown_ports(ps, procs, ports)) <= tunnel_total(ps),
    decreases ps.len(),
{
    if ps.len() > 0 {
        lemma_total_shown(ps.drop_last(), procs, ports);
        let sh = shown_ports(ps.drop_last(), procs, ports);
        if !hidden(procs, ports, ps.last()) {
            assert(sh.push(ps.last()).drop_last() =~= sh);
        }
    }
}

/// What the ports tab shows.
#[derive(Debug)]
pub enum PortsPage {
    /// The visible ports, grouped into project cards.
    Groups(Vec<(String, Option<ProjectKind>, Vec<PortInfo>)>),
    /// Nothing visible and no scan finished yet: a spinner.
    Loading,
    /// Nothing visible after a scan: "No dev ports running".
    Empty,
}

/// What the window shows for the current ports and rules.
#[derive(Debug)]
pub struct Rebuilt {
    pub page: PortsPage,
    /// The ports the rules hide, for the "Ignored" tab.
    pub ignored: Vec<PortInfo>,
    /// The footer's counts: visible ports, and their tunnels.
    pub visible_count: usize,
    pub tunnel_count: usize,
}

/// Decides both tab pages and the footer counts: the ports the rules leave
/// visible are grouped into cards (or, when there are none, a spinner before
/// the first scan and an empty state after it); the hidden ones go to the
/// "Ignored" tab; the footer counts the visible ports and their tunnels.
pub fn rebuild(ports: &[PortInfo], rules: &IgnoreRules, did_scan: bool) -> (r: Rebuilt)
    requires
        tunnel_total(port_views(ports@)) <= usize::MAX,
    ensures
        ({
            let ps = port_views(ports@);
            let visible = shown_ports(ps, rules.process_set(), rules.port_set());
            &&& port_views(r.ignored@) == hidden_ports(ps, rules.process_set(), rules.port_set())
            &&& r.visible_count == visible.len()
            &&& r.tunnel_count == tunnel_total(visible)
            &&& match r.page {
                PortsPage::Groups(gs) => visible.len() > 0 && is_grouping(group_views(gs@), visible),
                PortsPage::Loading => visible.len() == 0 && !did_scan,
                PortsPage::Empty => visible.len() == 0 && did_scan,
            }
        }),
{
    let ghost ps = port_views(ports@);
    let ghost procs = rules.process_set();
    let ghost nums = rules.port_set();
    let mut visible: Vec<PortInfo> = Vec::new();
    let mut ignored: Vec<PortInfo> = Vec::new();
    let mut tunnels: usize = 0;
    let mut i: usize = 0;
    assert(ps.take(0) =~= Seq::<PortView>::empty());
    while i < ports.len()
        invariant
            ps == port_views(ports@),
            procs == rules.process_set(),
            nums == rules.port_set(),
            tunnel_total(ps) <= usize::MAX,
            0 <= i <= ps.len(),
            port_views(visible@) == shown_ports(ps.take(i as int), procs, nums),
            port_views(ignored@) == hidden_ports(ps.take(i as int), procs, nums),
            tunnels == tunnel_total(port_views(visible@)),
        decreases ps.len() - i,
    {
        let ghost pre = ps.take(i as int);
        assert(ps.take(i as int + 1).drop_last() =~= pre);
        assert(ps.take(i as int + 1).last() == ports@[i as int]@);
        let p = &ports[i];
        if rules.is_ignored(p) {
            let ghost before = port_views(ignored@);
            ignored.push(p.clone());
            assert(port_views(ignored@) =~= before.push(p@));
        } else {
            proof {
                lemma_total_shown(ps.take(i as int + 1), procs, nums);
                lemma_total_prefix(ps, i as int + 1);
            }
            let ghost before = port_views(visible@);
            assert(!hidden(procs, nums, p@));
            assert(shown_ports(ps.take(i as int + 1), procs, nums) == before.push(p@));
            assert(before.push(p@).drop_last() =~= before);
            assert(tunnel_total(before.push(p@)) == tunnels + p@.tunnels.len());
            assert(p@.tunnels.len() == p.tunnels@.len());
            tunnels = tunnels + p.tunnels.len();
            visible.push(p.clone());
            assert(port_views(visible@) =~= before.push(p@));
            assert(port_views(visible@).drop_last() =~= before);
        }
        i = i + 1;
    }
    assert(ps.take(ps.len() as int) =~= ps);
    let visible_count = visible.len();
    let page = if visible.len() > 0 {
        PortsPage::Groups(group(visible.as_slice()))
    } else if !did_scan {
        PortsPage::Loading
    } else {
        PortsPage::Empty
    };
    Rebuilt { page, ignored, visible_count, tunnel_count: tunnels }
}

proof fn lemma_port_in_its_group(ps: Seq<PortView>, i: int)
    requires
        0 <= i < ps.len(),
    ensures
        ps[i].project is Some ==> ports_named(ps, ps[i].project->0.name).contains(ps[i]),
        ps[i].project is None ==> ports_without_project(ps).contains(ps[i]),
    decreases ps.len(),
{
    let init = ps.drop_last();
    if i < ps.len() - 1 {
        lemma_port_in_its_group(init, i);
        assert(init[i] == ps[i]);
        match ps[i].project {
            Some(pr) => {
                let a = ports_named(init, pr.name);
                let k = choose|k: int| 0 <= k < a.len() && a[k] == ps[i];
                assert(a.push(ps.last())[k] == ps[i]);
            },
            None => {
                let a = ports_without_project(init);
                let k = choose|k: int| 0 <= k < a.len() && a[k] == ps[i];
                assert(a.push(ps.last())[k] == ps[i]);
            },
        }
    } else {
        match ps[i].project {
            Some(pr) => {
                let a = ports_named(init, pr.name);
                assert(a.push(ps.last())[a.len() as int] == ps[i]);
            },
            None => {
                let a = ports_without_project(init);
                assert(a.push(ps.last())[a.len() as int] == ps[i]);
            },
        }
    }
}

/// Every port is shown in a card: a port of a project in the card titled
/// with the project's name, a port without a project in the "Other" card,
/// which comes last.
pub proof fn law_each_port_in_a_card(gs: Seq<GroupView>, ps: Seq<PortView>, i: int)
    requires
        is_grouping(gs, ps),
        0 <= i < ps.len(),
    ensures
        ps[i].project is Some ==> exists|g: int|
            0 <= g < gs.len() && (#[trigger] gs[g]).0 == ps[i].project->0.name && gs[g].2.contains(ps[i]),
        ps[i].project is None ==> gs.len() > 0 && gs.last().0 == "Other"@ && gs.last().1 is None
            && gs.last().2.contains(ps[i]),
{
    lemma_port_in_its_group(ps, i);
    match ps[i].project {
        Some(pr) => {
            assert(has_project(ps, pr.name));
            let other = ports_without_project(ps);
            let k = if other.len() > 0 {
                gs.len() - 1
            } else {
                gs.len() as int
            };
            let g = choose|g: int| 0 <= g < k && (#[trigger] gs[g]).0 == pr.name;
            assert(gs[g] == named_group(ps, gs[g].0));
        },
        None => {
            assert(ports_without_project(ps).len() > 0);
        },
    }
}

/// The two tabs split the ports: every port is either visible or hidden by
/// the rules, never both, and the ignored tab holds exactly the hidden ones.
pub proof fn law_tabs_split_ports(ps: Seq<PortView>, procs: Set<Seq<char>>, ports: Set<u16>)
    ensures
        shown_ports(ps, procs, ports).len() + hidden_ports(ps, procs, ports).len() == ps.len(),
        forall|k: int|
            0 <= k < shown_ports(ps, procs, ports).len() ==> !hidden(procs, ports, #[trigger] shown_ports(ps, procs, ports)[k]),
        forall|k: int|
            0 <= k < hidden_ports(ps, procs, ports).len() ==> hidden(procs, ports, #[trigger] hidden_ports(ps, procs, ports)[k]),
    decreases ps.len(),
{
    if ps.len() > 0 {
        let init = ps.drop_last();
        law_tabs_split_ports(init, procs, ports);
        let sh = shown_ports(init, procs, ports);
        let hd = hidden_ports(init, procs, ports);
        if hidden(procs, ports, ps.last()) {
            assert forall|k: int| 0 <= k < hd.push(ps.last()).len() implies hidden(procs, ports, #[trigger] hd.push(ps.last())[k]) by {
                if k < hd.len() {
                    assert(hd.push(ps.last())[k] == hd[k]);
                }
            }
        } else {
            assert forall|k: int| 0 <= k < sh.push(ps.last()).len() implies !hidden(procs, ports, #[trigger] sh.push(ps.last())[k]) by {
                if k < sh.len() {
                    assert(sh.push(ps.last())[k] == sh[k]);
                }
            }
        }
    }
}

} // verus!
