//! Parses `ss --tcp --listening --numeric --processes --no-header` output into
//! unique LISTEN sockets.
//!
//! Each line looks like
//! `LISTEN 0 511 0.0.0.0:3000 0.0.0.0:* users:(("node",pid=1234,fd=20))`.
//! Sockets are de-duplicated on `(pid, port)` so the IPv4 and IPv6 bindings of
//! the same server collapse to one row. Lines without a process block still
//! yield a row (`pid = 0`, empty command) so the port stays visible.

use vstd::prelude::*;
use crate::models::{RawListen, ListenView, listen_views};
use crate::text::{
    all_digits, is_digit, rfind_before, chars_of, find, find_chars, leading_digits, leading_digits_from, lines, lines_of,
    parse_i32, parse_i32_chars, parse_u16, parse_u16_chars, rfind, rfind_char, seqs, slice_of,
    string_of, words, words_of,
};

verus! {

/// The port after the last `':'` of a local address (`*:6379`, `[::1]:3000`);
/// the whole text when there is no `':'`.
pub open spec fn spec_port_from_addr(addr: Seq<char>) -> Option<u16> {
    let tail = match rfind(addr, ':') {
        Some(c) => addr.skip(c + 1),
        None => addr,
    };
    parse_u16(tail)
}

/// `(pid, name)` from the first entry of `users:(("name",pid=N,fd=M),...)`:
/// the name runs from after the first `("` to the next `"`, and the pid is the
/// run of digits after the first `pid=`.
pub open spec fn spec_process_info(field: Seq<char>) -> Option<(i32, Seq<char>)> {
    match find(field, "(\""@) {
        Some(a) => {
            let name_start = a + 2;
            match find(field.skip(name_start), "\""@) {
                Some(b) => {
                    let name = field.subrange(name_start, name_start + b);
                    match find(field, "pid="@) {
                        Some(p) => match parse_i32(leading_digits(field.skip(p + 4))) {
                            Some(pid) => Some((pid, name)),
                            None => None,
                        },
                        None => None,
                    }
                },
                None => None,
            }
        },
        None => None,
    }
}

/// The socket a single line describes, if it is a LISTEN line with a port.
pub open spec fn spec_line_listen(line: Seq<char>) -> Option<ListenView> {
    let fields = words(line);
    if fields.len() >= 4 && fields[0] == "LISTEN"@ {
        match spec_port_from_addr(fields[3]) {
            Some(port) => {
                let info = if fields.len() > 5 {
                    spec_process_info(fields[5])
                } else {
                    None
                };
                let (pid, command) = match info {
                    Some(pc) => pc,
                    None => (0i32, Seq::<char>::empty()),
                };
                Some(ListenView { pid, command, port })
            },
            None => None,
        }
    } else {
        None
    }
}

/// Some socket in `s` has this `(pid, port)`.
pub open spec fn has_key(s: Seq<ListenView>, pid: i32, port: u16) -> bool {
    exists|j: int| 0 <= j < s.len() && s[j].pid == pid && s[j].port == port
}

/// The sockets of the first lines, each `(pid, port)` kept at its first line.
pub open spec fn listens_of_lines(ls: Seq<Seq<char>>) -> Seq<ListenView>
    decreases ls.len(),
{
    if ls.len() == 0 {
        Seq::empty()
    } else {
        let st = listens_of_lines(ls.drop_last());
        match spec_line_listen(ls.last()) {
            Some(v) => if has_key(st, v.pid, v.port) {
                st
            } else {
                st.push(v)
            },
            None => st,
        }
    }
}

pub open spec fn spec_parse_listens(output: Seq<char>) -> Seq<ListenView> {
    listens_of_lines(lines(output))
}

/// Parse `ss --tcp --listening --numeric --processes --no-header` output.
pub fn parse_listens(output: &str) -> (r: Vec<RawListen>)
    ensures
        listen_views(r@) == spec_parse_listens(output@),
{
    let ov = chars_of(output);
    let ls = lines_of(ov.as_slice());
    let ghost lsv = seqs(ls@);
    let mut result: Vec<RawListen> = Vec::new();
    let mut k: usize = 0;
    assert(lsv.take(0) =~= Seq::<Seq<char>>::empty());
    while k < ls.len()
        invariant
            lsv == seqs(ls@),
            lsv == lines(output@),
            0 <= k <= lsv.len(),
            listens_of_lines(lsv.take(k as int)) == listen_views(result@),
        decreases lsv.len() - k,
    {
        assert(lsv.take(k as int + 1).drop_last() =~= lsv.take(k as int));
        assert(lsv.take(k as int + 1).last() == ls@[k as int]@);
        let ghost before = listen_views(result@);
        match line_listen(ls[k].as_slice()) {
            Some(l) => {
                if !contains_key(&result, l.pid, l.port) {
                    let ghost lv = l@;
                    result.push(l);
                    assert(listen_views(result@) =~= before.push(lv));
                }
            },
            None => {},
        }
        k = k + 1;
    }
    assert(lsv.take(lsv.len() as int) =~= lsv);
    result
}

fn contains_key(v: &Vec<RawListen>, pid: i32, port: u16) -> (r: bool)
    ensures
        r == has_key(listen_views(v@), pid, port),
{
    let mut i: usize = 0;
    while i < v.len()
        invariant
            0 <= i <= v@.len(),
            forall|j: int| 0 <= j < i ==> !(v@[j].pid == pid && v@[j].port == port),
        decreases v@.len() - i,
    {
        if v[i].pid == pid && v[i].port == port {
            assert(listen_views(v@)[i as int].pid == pid);
            return true;
        }
        i = i + 1;
    }
    assert forall|j: int|
        0 <= j < listen_views(v@).len() implies !(listen_views(v@)[j].pid == pid && listen_views(
            v@,
        )[j].port == port) by {
        assert(listen_views(v@)[j] == v@[j]@);
    }
    false
}

fn line_listen(line: &[char]) -> (r: Option<RawListen>)
    ensures
        r matches Some(l) ==> spec_line_listen(line@) == Some(l@),
        r is None ==> spec_line_listen(line@) is None,
{
    let fields = words_of(line);
    let ghost fv = seqs(fields@);
    if fields.len() < 4 {
        return None;
    }
    assert(fv[0] == fields@[0]@);
    assert(fv[3] == fields@[3]@);
    if !crate::text::eq_str(fields[0].as_slice(), "LISTEN") {
        return None;
    }
    let port = port_from_addr(fields[3].as_slice())?;
    let info = if fields.len() > 5 {
        assert(fv[5] == fields@[5]@);
        process_info(fields[5].as_slice())
    } else {
        None
    };
    match info {
        Some((pid, name)) => Some(RawListen { pid, command: name, port }),
        None => Some(RawListen { pid: 0, command: String::new(), port }),
    }
}

pub(crate) fn port_from_addr(addr: &[char]) -> (r: Option<u16>)
    ensures
        r == spec_port_from_addr(addr@),
{
    let n = addr.len();
    match rfind_char(addr, ':') {
        Some(c) => {
            let tail = slice_of(addr, c + 1, n);
            assert(tail@ =~= addr@.skip(c + 1));
            parse_u16_chars(tail.as_slice())
        },
        None => parse_u16_chars(addr),
    }
}

fn process_info(field: &[char]) -> (r: Option<(i32, String)>)
    ensures
        r matches Some((pid, name)) ==> spec_process_info(field@) == Some((pid, name@)),
        r is None ==> spec_process_info(field@) is None,
{
    let n = field.len();
    let open_pat = chars_of("(\"");
    let quote = chars_of("\"");
    let pid_pat = chars_of("pid=");
    proof {
        reveal_strlit("(\"");
        reveal_strlit("\"");
        reveal_strlit("pid=");
        crate::text::lemma_find_from_found(field@, open_pat@, 0);
        crate::text::lemma_find_from_found(field@, pid_pat@, 0);
    }
    assert(open_pat@.len() == 2);
    assert(pid_pat@.len() == 4);
    let a = find_chars(field, open_pat.as_slice())?;
    let name_start = a + 2;
    let rest = slice_of(field, name_start, n);
    assert(rest@ =~= field@.skip(name_start as int));
    let b = find_chars(rest.as_slice(), quote.as_slice())?;
    proof {
        crate::text::lemma_find_from_found(rest@, quote@, 0);
    }
    let name = string_of(slice_of(field, name_start, name_start + b).as_slice());
    let p = find_chars(field, pid_pat.as_slice())?;
    let digits = leading_digits_from(field, p + 4);
    let pid = parse_i32_chars(digits.as_slice())?;
    Some((pid, name))
}

/// No two sockets of a parse share a pid and a port: the IPv4 and IPv6
/// bindings of one server are one row.
pub proof fn law_listens_unique(output: Seq<char>)
    ensures
        forall|i: int, j: int|
            0 <= i < j < spec_parse_listens(output).len() ==> !((#[trigger] spec_parse_listens(output)[i]).pid
                == (#[trigger] spec_parse_listens(output)[j]).pid && spec_parse_listens(output)[i].port
                == spec_parse_listens(output)[j].port),
{
    lemma_lines_unique(lines(output));
}

proof fn lemma_lines_unique(ls: Seq<Seq<char>>)
    ensures
        forall|i: int, j: int|
            0 <= i < j < listens_of_lines(ls).len() ==> !((#[trigger] listens_of_lines(ls)[i]).pid
                == (#[trigger] listens_of_lines(ls)[j]).pid && listens_of_lines(ls)[i].port
                == listens_of_lines(ls)[j].port),
    decreases ls.len(),
{
    if ls.len() > 0 {
        lemma_lines_unique(ls.drop_last());
        let st = listens_of_lines(ls.drop_last());
        match spec_line_listen(ls.last()) {
            Some(v) => {
                if !has_key(st, v.pid, v.port) {
                    let s2 = st.push(v);
                    assert forall|i: int, j: int| 0 <= i < j < s2.len() implies !((#[trigger] s2[i]).pid == (#[trigger] s2[j]).pid
                        && s2[i].port == s2[j].port) by {
                        if j == st.len() {
                            assert(s2[i] == st[i]);
                            assert(s2[j] == v);
                        } else {
                            assert(s2[i] == st[i] && s2[j] == st[j]);
                        }
                    }
                }
            },
            None => {},
        }
    }
}

proof fn lemma_last_colon(h: Seq<char>, d: Seq<char>, j: int)
    requires
        all_digits(d),
        h.len() < j <= h.len() + 1 + d.len(),
    ensures
        rfind_before(h + seq![':'] + d, ':', j) == Some(h.len() as int),
    decreases j,
{
    let s = h + seq![':'] + d;
    if j - 1 == h.len() {
        assert(s[j - 1] == ':');
    } else {
        let m = j - 1 - h.len() - 1;
        assert(s[j - 1] == d[m]);
        assert(is_digit(d[m]));
        lemma_last_colon(h, d, j - 1);
    }
}

/// The port of an address is the number after its last `':'`, whatever the
/// host before it holds (`[::1]:5173` gives 5173, `*:6379` gives 6379).
pub proof fn law_port_after_last_colon(h: Seq<char>, d: Seq<char>)
    requires
        all_digits(d),
    ensures
        spec_port_from_addr(h + seq![':'] + d) == parse_u16(d),
{
    let s = h + seq![':'] + d;
    lemma_last_colon(h, d, s.len() as int);
    assert(s.skip(h.len() as int + 1) =~= d);
}

proof fn lemma_lines_keep(ls: Seq<Seq<char>>, i: int)
    requires
        0 <= i < ls.len(),
        spec_line_listen(ls[i]) is Some,
    ensures
        has_key(listens_of_lines(ls), spec_line_listen(ls[i])->0.pid, spec_line_listen(ls[i])->0.port),
    decreases ls.len(),
{
    let init = ls.drop_last();
    let st = listens_of_lines(init);
    let v = spec_line_listen(ls[i])->0;
    if i < ls.len() - 1 {
        assert(init[i] == ls[i]);
        lemma_lines_keep(init, i);
        let j = choose|j: int| 0 <= j < st.len() && st[j].pid == v.pid && st[j].port == v.port;
        match spec_line_listen(ls.last()) {
            Some(w) => if !has_key(st, w.pid, w.port) {
                assert(st.push(w)[j] == st[j]);
            },
            None => {},
        }
    } else {
        if !has_key(st, v.pid, v.port) {
            assert(st.push(v)[st.len() as int] == v);
        }
    }
}

/// Every LISTEN line whose local address is `<host>:<digits>` with a port
/// that fits `u16` gives a socket on that port, whether the host is an IPv4
/// address, `*`, or a bracketed IPv6 address full of colons.
pub proof fn law_every_listening_port_kept(output: Seq<char>, k: int, h: Seq<char>, d: Seq<char>, port: u16)
    requires
        0 <= k < lines(output).len(),
        words(lines(output)[k]).len() >= 4,
        words(lines(output)[k])[0] == "LISTEN"@,
        words(lines(output)[k])[3] == h + seq![':'] + d,
        all_digits(d),
        parse_u16(d) == Some(port),
    ensures
        exists|j: int| 0 <= j < spec_parse_listens(output).len() && (#[trigger] spec_parse_listens(output)[j]).port == port,
{
    let ls = lines(output);
    law_port_after_last_colon(h, d);
    assert(spec_line_listen(ls[k]) is Some);
    assert(spec_line_listen(ls[k])->0.port == port);
    lemma_lines_keep(ls, k);
    let v = spec_line_listen(ls[k])->0;
    let st = listens_of_lines(ls);
    let j = choose|j: int| 0 <= j < st.len() && st[j].pid == v.pid && st[j].port == v.port;
    assert(spec_parse_listens(output)[j].port == port);
}

} // verus!
