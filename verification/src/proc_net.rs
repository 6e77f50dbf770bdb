//! The listening sockets when `ss` is not available: the kernel's own tables
//! `/proc/net/tcp` and `/proc/net/tcp6`. Each line after the header looks like
//! `  0: 00000000:0BB8 00000000:0000 0A 00000000:00000000 00:00000000 00000000  1000 0 12345 ...`:
//! the local address ends in the port as four hexadecimal digits, and state
//! `0A` is LISTEN. These tables name no process, so each socket is a bare port
//! (`pid = 0`, empty command), once per port.

use vstd::prelude::*;
use crate::models::{ListenView, RawListen, listen_views};
use crate::ss_parser::{has_key, parse_listens, spec_parse_listens};
use crate::text::{chars_of, eq_str, lines, lines_of, rfind, rfind_char, seqs, slice_of, words, words_of};

verus! {

/// A hexadecimal digit (either case).
pub open spec fn is_hex(c: char) -> bool {
    ('0' <= c && c <= '9') || ('A' <= c && c <= 'F') || ('a' <= c && c <= 'f')
}

/// The value of a hexadecimal digit.
pub open spec fn hex_digit(c: char) -> nat {
    if '0' <= c && c <= '9' {
        (c as nat - '0' as nat) as nat
    } else if 'A' <= c && c <= 'F' {
        (c as nat - 'A' as nat + 10) as nat
    } else {
        (c as nat - 'a' as nat + 10) as nat
    }
}

/// The value of a run of hexadecimal digits.
pub open spec fn hex_value(d: Seq<char>) -> nat
    decreases d.len(),
{
    if d.len() == 0 {
        0
    } else {
        hex_value(d.drop_last()) * 16 + hex_digit(d.last())
    }
}

/// `16` to the power `n`.
pub open spec fn pow16(n: nat) -> nat
    decreases n,
{
    if n == 0 {
        1
    } else {
        pow16((n - 1) as nat) * 16
    }
}

/// A port written as one to four hexadecimal digits.
pub open spec fn spec_hex_port(d: Seq<char>) -> Option<u16> {
    if 1 <= d.len() <= 4 && forall|i: int| 0 <= i < d.len() ==> is_hex(#[trigger] d[i]) {
        Some(hex_value(d) as u16)
    } else {
        None
    }
}

/// The port of a LISTEN line: the fourth field is `0A`, and the second (the
/// local address) ends, after its last `':'`, in the port.
pub open spec fn spec_table_line(line: Seq<char>) -> Option<u16> {
    let f = words(line);
    if f.len() >= 4 && f[3] == "0A"@ {
        match rfind(f[1], ':') {
            Some(c) => spec_hex_port(f[1].skip(c + 1)),
            None => None,
        }
    } else {
        None
    }
}

/// The listening ports of the table lines, each kept once, as bare sockets.
pub open spec fn table_listens(ls: Seq<Seq<char>>) -> Seq<ListenView>
    decreases ls.len(),
{
    if ls.len() == 0 {
        Seq::empty()
    } else {
        let st = table_listens(ls.drop_last());
        match spec_table_line(ls.last()) {
            Some(port) => if has_key(st, 0, port) {
                st
            } else {
                st.push(ListenView { pid: 0, command: Seq::empty(), port })
            },
            None => st,
        }
    }
}

/// The listening ports of `/proc/net/tcp` then `/proc/net/tcp6`.
pub open spec fn spec_proc_listens(tcp: Seq<char>, tcp6: Seq<char>) -> Seq<ListenView> {
    table_listens(lines(tcp) + lines(tcp6))
}

/// The text of a table that could be read, empty otherwise.
pub open spec fn text_or_empty(t: Option<String>) -> Seq<char> {
    match t {
        Some(s) => s@,
        None => Seq::empty(),
    }
}

/// The listening sockets of a scan: from `ss` output when `ss` gave any;
/// else, as the fallback, from the kernel's TCP tables.
pub open spec fn spec_list_listens(ss: Option<String>, tcp: Option<String>, tcp6: Option<String>) -> Seq<
    ListenView,
> {
    match ss {
        Some(out) => spec_parse_listens(out@),
        None => spec_proc_listens(text_or_empty(tcp), text_or_empty(tcp6)),
    }
}

fn hex_port(d: &[char]) -> (r: Option<u16>)
    ensures
        r == spec_hex_port(d@),
{
    if d.len() == 0 || d.len() > 4 {
        return None;
    }
    let mut v: u32 = 0;
    let mut i: usize = 0;
    assert(d@.take(0) =~= Seq::<char>::empty());
    while i < d.len()
        invariant
            1 <= d@.len() <= 4,
            0 <= i <= d@.len(),
            v == hex_value(d@.take(i as int)),
            v < pow16(i as nat),
            pow16(i as nat) <= 65536,
            forall|j: int| 0 <= j < i ==> is_hex(#[trigger] d@[j]),
        decreases d@.len() - i,
    {
        let c = d[i];
        let digit: u32 = if '0' <= c && c <= '9' {
            (c as u32) - ('0' as u32)
        } else if 'A' <= c && c <= 'F' {
            (c as u32) - ('A' as u32) + 10
        } else if 'a' <= c && c <= 'f' {
            (c as u32) - ('a' as u32) + 10
        } else {
            return None;
        };
        assert(d@.take(i as int + 1).drop_last() =~= d@.take(i as int));
        assert(d@.take(i as int + 1).last() == c);
        assert(digit == hex_digit(c));
        assert(pow16((i + 1) as nat) == pow16(i as nat) * 16);
        v = v * 16 + digit;
        proof {
            if i + 1 < 4 {
                reveal_with_fuel(pow16, 5);
            }
            assert(pow16(4) == 65536) by {
                reveal_with_fuel(pow16, 5);
            }
            lemma_pow16_mono((i + 1) as nat, 4);
        }
        i = i + 1;
    }
    assert(d@.take(d@.len() as int) =~= d@);
    Some(v as u16)
}

proof fn lemma_pow16_mono(a: nat, b: nat)
    requires
        a <= b,
    ensures
        pow16(a) <= pow16(b),
    decreases b,
{
    if a < b {
        lemma_pow16_mono(a, (b - 1) as nat);
    }
}

fn table_line(line: &[char]) -> (r: Option<u16>)
    ensures
        r == spec_table_line(line@),
{
    let fields = words_of(line);
    let ghost fv = seqs(fields@);
    if fields.len() < 4 {
        return None;
    }
    assert(fv[1] == fields@[1]@);
    assert(fv[3] == fields@[3]@);
    if !eq_str(fields[3].as_slice(), "0A") {
        return None;
    }
    let addr = fields[1].as_slice();
    match rfind_char(addr, ':') {
        Some(c) => {
            let tail = slice_of(addr, c + 1, addr.len());
            assert(tail@ =~= addr@.skip(c + 1));
            hex_port(tail.as_slice())
        },
        None => None,
    }
}

fn has_port(v: &Vec<RawListen>, port: u16) -> (r: bool)
    ensures
        r == has_key(listen_views(v@), 0, port),
{
    let mut i: usize = 0;
    while i < v.len()
        invariant
            0 <= i <= v@.len(),
            forall|j: int| 0 <= j < i ==> !(v@[j].pid == 0 && v@[j].port == port),
        decreases v@.len() - i,
    {
        if v[i].pid == 0 && v[i].port == port {
            assert(listen_views(v@)[i as int] == v@[i as int]@);
            return true;
        }
        i = i + 1;
    }
    assert forall|j: int|
        0 <= j < listen_views(v@).len() implies !(listen_views(v@)[j].pid == 0 && listen_views(
            v@,
        )[j].port == port) by {
        assert(listen_views(v@)[j] == v@[j]@);
    }
    false
}

/// Parses the kernel's TCP tables (`/proc/net/tcp`, then `/proc/net/tcp6`)
/// into the listening ports, each once, as sockets without a process.
pub fn parse_proc_net(tcp: &str, tcp6: &str) -> (r: Vec<RawListen>)
    ensures
        listen_views(r@) == spec_proc_listens(tcp@, tcp6@),
{
    let tv = chars_of(tcp);
    let tv6 = chars_of(tcp6);
    let mut ls = lines_of(tv.as_slice());
    let mut ls6 = lines_of(tv6.as_slice());
    let ghost first = seqs(ls@);
    let ghost second = seqs(ls6@);
    ls.append(&mut ls6);
    let ghost lsv = seqs(ls@);
    assert(lsv =~= first + second);
    let mut result: Vec<RawListen> = Vec::new();
    let mut k: usize = 0;
    assert(lsv.take(0) =~= Seq::<Seq<char>>::empty());
    assert(listen_views(result@) =~= Seq::<ListenView>::empty());
    while k < ls.len()
        invariant
            lsv == seqs(ls@),
            lsv == lines(tcp@) + lines(tcp6@),
            0 <= k <= lsv.len(),
            table_listens(lsv.take(k as int)) == listen_views(result@),
        decreases lsv.len() - k,
    {
        assert(lsv.take(k as int + 1).drop_last() =~= lsv.take(k as int));
        assert(lsv.take(k as int + 1).last() == ls@[k as int]@);
        let ghost before = listen_views(result@);
        match table_line(ls[k].as_slice()) {
            Some(port) => {
                if !has_port(&result, port) {
                    result.push(RawListen { pid: 0, command: String::new(), port });
                    assert(listen_views(result@) =~= before.push(
                        ListenView { pid: 0, command: Seq::empty(), port },
                    ));
                }
            },
            None => {},
        }
        k = k + 1;
    }
    assert(lsv.take(lsv.len() as int) =~= lsv);
    result
}

/// The listening sockets of a scan: parsed from the `ss` output when `ss`
/// gave any; otherwise, as the fallback, from the kernel's TCP tables (a
/// table that could not be read counts as empty).
pub fn list_listens(ss: Option<String>, tcp: Option<String>, tcp6: Option<String>) -> (r: Vec<RawListen>)
    ensures
        listen_views(r@) == spec_list_listens(ss, tcp, tcp6),
{
    match ss {
        Some(out) => parse_listens(out.as_str()),
        None => {
            let t = match &tcp {
                Some(s) => s.clone(),
                None => String::new(),
            };
            let t6 = match &tcp6 {
                Some(s) => s.clone(),
                None => String::new(),
            };
            parse_proc_net(t.as_str(), t6.as_str())
        },
    }
}

proof fn lemma_table_keeps_port(ls: Seq<Seq<char>>, i: int)
    requires
        0 <= i < ls.len(),
        spec_table_line(ls[i]) is Some,
    ensures
        has_key(table_listens(ls), 0, spec_table_line(ls[i])->0),
    decreases ls.len(),
{
    let init = ls.drop_last();
    let st = table_listens(init);
    if i < ls.len() - 1 {
        assert(init[i] == ls[i]);
        lemma_table_keeps_port(init, i);
        let port = spec_table_line(ls[i])->0;
        let j = choose|j: int| 0 <= j < st.len() && st[j].pid == 0 && st[j].port == port;
        match spec_table_line(ls.last()) {
            Some(p) => if !has_key(st, 0, p) {
                assert(st.push(ListenView { pid: 0, command: Seq::empty(), port: p })[j] == st[j]);
            },
            None => {},
        }
    } else {
        let p = spec_table_line(ls.last())->0;
        if !has_key(st, 0, p) {
            let s2 = st.push(ListenView { pid: 0, command: Seq::empty(), port: p });
            assert(s2[st.len() as int].port == p);
        }
    }
}

/// When `ss` gives nothing, every LISTEN entry of the kernel's TCP tables
/// shows up: its port is the port of some socket of the scan.
pub proof fn law_fallback_lists_every_listening_port(tcp: Seq<char>, tcp6: Seq<char>, i: int)
    requires
        0 <= i < (lines(tcp) + lines(tcp6)).len(),
        spec_table_line((lines(tcp) + lines(tcp6))[i]) is Some,
    ensures
        exists|j: int|
            0 <= j < spec_proc_listens(tcp, tcp6).len() && (#[trigger] spec_proc_listens(tcp, tcp6)[j]).port
                == spec_table_line((lines(tcp) + lines(tcp6))[i])->0,
{
    let ls = lines(tcp) + lines(tcp6);
    lemma_table_keeps_port(ls, i);
    let st = table_listens(ls);
    let j = choose|j: int| 0 <= j < st.len() && st[j].pid == 0 && st[j].port == spec_table_line(ls[i])->0;
    assert(spec_proc_listens(tcp, tcp6)[j].port == spec_table_line(ls[i])->0);
}

} // verus!
