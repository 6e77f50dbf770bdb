//! The logic behind the "Ignored" tab: which rules match no running ignored
//! port (listed, sorted, under "Rules (not running)"), and what the
//! "Ignore a port…" field accepts.

use vstd::prelude::*;
use crate::ignore_rules::{IgnoreRules, name_matches, texts};
use crate::models::{PortInfo, PortView, port_views};
use crate::text::{
    chars_eq_ignore_ascii_case, chars_lt, chars_of, lemma_text_lt_irreflexive,
    lemma_text_lt_transitive, parse_u16, parse_u16_chars, text_lt, trim, trim_chars,
};

verus! {

broadcast use vstd::seq_lib::to_multiset_insert, vstd::seq_lib::to_multiset_build;

/// Some running ignored port is matched by the process rule `name`.
pub open spec fn name_covered(name: Seq<char>, ignored: Seq<PortView>) -> bool {
    exists|i: int| 0 <= i < ignored.len() && name_matches(name, (#[trigger] ignored[i]).command, ignored[i].display_name)
}

/// Some running ignored port has this number.
pub open spec fn port_covered(port: u16, ignored: Seq<PortView>) -> bool {
    exists|i: int| 0 <= i < ignored.len() && (#[trigger] ignored[i]).port == port
}

/// The process rules that match no running ignored port, in rule order.
pub open spec fn uncovered_names(names: Seq<Seq<char>>, ignored: Seq<PortView>) -> Seq<Seq<char>>
    decreases names.len(),
{
    if names.len() == 0 {
        Seq::empty()
    } else if name_covered(names.last(), ignored) {
        uncovered_names(names.drop_last(), ignored)
    } else {
        uncovered_names(names.drop_last(), ignored).push(names.last())
    }
}

/// The port rules that match no running ignored port, in rule order.
pub open spec fn uncovered_ports(ports: Seq<u16>, ignored: Seq<PortView>) -> Seq<u16>
    decreases ports.len(),
{
    if ports.len() == 0 {
        Seq::empty()
    } else if port_covered(ports.last(), ignored) {
        uncovered_ports(ports.drop_last(), ignored)
    } else {
        uncovered_ports(ports.drop_last(), ignored).push(ports.last())
    }
}

/// Texts in ascending order.
pub open spec fn texts_sorted(s: Seq<Seq<char>>) -> bool {
    forall|i: int, j: int| 0 <= i < j < s.len() ==> !text_lt(#[trigger] s[j], #[trigger] s[i])
}

/// Numbers in ascending order.
pub open spec fn ports_sorted(s: Seq<u16>) -> bool {
    forall|i: int, j: int| 0 <= i < j < s.len() ==> #[trigger] s[i] <= #[trigger] s[j]
}

fn covered_name(name: &String, ignored: &[PortInfo]) -> (r: bool)
    ensures
        r == name_covered(name@, port_views(ignored@)),
{
    let nv = chars_of(name.as_str());
    let ghost iv = port_views(ignored@);
    let mut i: usize = 0;
    while i < ignored.len()
        invariant
            iv == port_views(ignored@),
            nv@ == name@,
            0 <= i <= iv.len(),
            forall|j: int| 0 <= j < i ==> !name_matches(name@, (#[trigger] iv[j]).command, iv[j].display_name),
        decreases iv.len() - i,
    {
        assert(iv[i as int] == ignored@[i as int]@);
        let cv = chars_of(ignored[i].command.as_str());
        let dv = chars_of(ignored[i].display_name.as_str());
        if chars_eq_ignore_ascii_case(nv.as_slice(), cv.as_slice()) || chars_eq_ignore_ascii_case(
            nv.as_slice(),
            dv.as_slice(),
        ) {
            return true;
        }
        i = i + 1;
    }
    false
}

fn covered_port(port: u16, ignored: &[PortInfo]) -> (r: bool)
    ensures
        r == port_covered(port, port_views(ignored@)),
{
    let ghost iv = port_views(ignored@);
    let mut i: usize = 0;
    while i < ignored.len()
        invariant
            iv == port_views(ignored@),
            0 <= i <= iv.len(),
            forall|j: int| 0 <= j < i ==> (#[trigger] iv[j]).port != port,
        decreases iv.len() - i,
    {
        assert(iv[i as int] == ignored@[i as int]@);
        if ignored[i].port == port {
            return true;
        }
        i = i + 1;
    }
    false
}

/// Puts `x` into the sorted `v`, after every text that does not sort after it.
fn insert_text(v: &mut Vec<String>, x: String)
    requires
        texts_sorted(texts(old(v)@)),
    ensures
        texts_sorted(texts(final(v)@)),
        texts(final(v)@).to_multiset() == texts(old(v)@).to_multiset().insert(x@),
{
    let ghost s = texts(v@);
    let xv = chars_of(x.as_str());
    let mut pos: usize = 0;
    while pos < v.len() && !text_before(&xv, &v[pos])
        invariant
            s == texts(v@),
            xv@ == x@,
            0 <= pos <= s.len(),
            forall|h: int| 0 <= h < pos ==> !text_lt(x@, #[trigger] s[h]),
        decreases s.len() - pos,
    {
        pos = pos + 1;
    }
    v.insert(pos, x);
    proof {
        let t = texts(v@);
        assert(t =~= s.insert(pos as int, x@));
        assert forall|i: int, j: int| 0 <= i < j < t.len() implies !text_lt(#[trigger] t[j], #[trigger] t[i]) by {
            if i < pos && j == pos {
            } else if i == pos && j > pos {
                let b = s[j - 1];
                assert(text_lt(x@, s[pos as int]));
                if text_lt(b, x@) {
                    lemma_text_lt_transitive(b, x@, s[pos as int]);
                    if j - 1 == pos {
                        lemma_text_lt_irreflexive(b);
                    }
                }
            } else {
                let i2 = if i < pos { i } else { i - 1 };
                let j2 = if j < pos { j } else { j - 1 };
                assert(t[i] == s[i2] && t[j] == s[j2]);
            }
        }
    }
}

fn text_before(a: &Vec<char>, b: &String) -> (r: bool)
    ensures
        r == text_lt(a@, b@),
{
    let bv = chars_of(b.as_str());
    chars_lt(a.as_slice(), bv.as_slice())
}

/// Puts `x` into the sorted `v`, after every number not greater than it.
fn insert_port(v: &mut Vec<u16>, x: u16)
    requires
        ports_sorted(old(v)@),
    ensures
        ports_sorted(final(v)@),
        final(v)@.to_multiset() == old(v)@.to_multiset().insert(x),
{
    let ghost s = v@;
    let mut pos: usize = 0;
    while pos < v.len() && v[pos] <= x
        invariant
            s == v@,
            0 <= pos <= s.len(),
            forall|h: int| 0 <= h < pos ==> #[trigger] s[h] <= x,
        decreases s.len() - pos,
    {
        pos = pos + 1;
    }
    v.insert(pos, x);
    proof {
        let t = v@;
        assert(t =~= s.insert(pos as int, x));
        assert forall|i: int, j: int| 0 <= i < j < t.len() implies #[trigger] t[i] <= #[trigger] t[j] by {
            let i2 = if i < pos { i } else { i - 1 };
            let j2 = if j < pos { j } else { j - 1 };
            if i == pos {
                assert(x < s[pos as int]);
                assert(s[pos as int] <= s[j2]);
            } else if j == pos {
                assert(s[i2] <= x);
            } else {
                assert(t[i] == s[i2] && t[j] == s[j2]);
            }
        }
    }
}

/// The rules with no currently running ignored port: the process names
/// that match none of `ignored` by command or display name (ignoring ASCII
/// case), sorted; and the port numbers none of `ignored` has, sorted.
pub fn uncovered(rules: &IgnoreRules, ignored: &[PortInfo]) -> (r: (Vec<String>, Vec<u16>))
    ensures
        texts_sorted(texts(r.0@)),
        texts(r.0@).to_multiset() == uncovered_names(rules.names(), port_views(ignored@)).to_multiset(),
        ports_sorted(r.1@),
        r.1@.to_multiset() == uncovered_ports(rules.port_list(), port_views(ignored@)).to_multiset(),
{
    let rule_names = rules.processes();
    let rule_ports = rules.ports();
    let ghost names = texts(rule_names@);
    let ghost iv = port_views(ignored@);
    let mut procs: Vec<String> = Vec::new();
    let mut i: usize = 0;
    assert(names.take(0) =~= Seq::<Seq<char>>::empty());
    assert(texts(procs@) =~= Seq::<Seq<char>>::empty());
    while i < rule_names.len()
        invariant
            names == texts(rule_names@),
            iv == port_views(ignored@),
            0 <= i <= names.len(),
            texts_sorted(texts(procs@)),
            texts(procs@).to_multiset() == uncovered_names(names.take(i as int), iv).to_multiset(),
        decreases names.len() - i,
    {
        assert(names.take(i as int + 1).drop_last() =~= names.take(i as int));
        assert(names.take(i as int + 1).last() == rule_names@[i as int]@);
        let name = &rule_names[i];
        if !covered_name(name, ignored) {
            insert_text(&mut procs, name.clone());
        }
        i = i + 1;
    }
    assert(names.take(names.len() as int) =~= names);
    let mut ports: Vec<u16> = Vec::new();
    let mut k: usize = 0;
    assert(rule_ports@.take(0) =~= Seq::<u16>::empty());
    assert(ports@ =~= Seq::<u16>::empty());
    while k < rule_ports.len()
        invariant
            iv == port_views(ignored@),
            0 <= k <= rule_ports@.len(),
            ports_sorted(ports@),
            ports@.to_multiset() == uncovered_ports(rule_ports@.take(k as int), iv).to_multiset(),
        decreases rule_ports@.len() - k,
    {
        assert(rule_ports@.take(k as int + 1).drop_last() =~= rule_ports@.take(k as int));
        assert(rule_ports@.take(k as int + 1).last() == rule_ports@[k as int]);
        let port = rule_ports[k];
        if !covered_port(port, ignored) {
            insert_port(&mut ports, port);
        }
        k = k + 1;
    }
    assert(rule_ports@.take(rule_ports@.len() as int) =~= rule_ports@);
    (procs, ports)
}

/// What the "Ignore a port…" field accepts: its text, trimmed, as a port
/// number (`str::parse::<u16>`).
pub fn port_entry(text: &str) -> (r: Option<u16>)
    ensures
        r == parse_u16(trim(text@)),
{
    let tv = chars_of(text);
    let t = trim_chars(tv.as_slice());
    parse_u16_chars(t.as_slice())
}

} // verus!
