//! Running commands and reading `/proc` on the host. Inside a Flatpak sandbox
//! the application has its own PID namespace, so every scan command is
//! forwarded to the host through `flatpak-spawn --host`; the application
//! detects the sandbox and performs the I/O. Here are the decisions: the
//! command line to run, and what a finished command gives back.

use vstd::prelude::*;
use crate::text::{chars_of, lines, lines_of, seqs, string_of, trim, trim_chars};

verus! {

/// Texts of strings.
pub open spec fn string_texts(v: Seq<String>) -> Seq<Seq<char>> {
    v.map_values(|s: String| s@)
}

/// The program and arguments that run `program args...` on the host: through
/// `flatpak-spawn --host` inside the sandbox, directly outside it.
pub open spec fn spec_command(program: Seq<char>, args: Seq<Seq<char>>, in_flatpak: bool) -> (
    Seq<char>,
    Seq<Seq<char>>,
) {
    if in_flatpak {
        ("flatpak-spawn"@, seq!["--host"@, program] + args)
    } else {
        (program, args)
    }
}

pub fn command(program: &str, args: &Vec<String>, in_flatpak: bool) -> (r: (String, Vec<String>))
    ensures
        (r.0@, string_texts(r.1@)) == spec_command(program@, string_texts(args@), in_flatpak),
{
    let mut rest: Vec<String> = Vec::new();
    let mut i: usize = 0;
    while i < args.len()
        invariant
            0 <= i <= args@.len(),
            string_texts(rest@) == string_texts(args@).take(i as int),
        decreases args@.len() - i,
    {
        let ghost before = string_texts(rest@);
        let a = args[i].clone();
        rest.push(a);
        assert(string_texts(rest@) =~= before.push(a@));
        assert(string_texts(args@).take(i as int + 1) =~= string_texts(args@).take(i as int).push(args@[i as int]@));
        i = i + 1;
    }
    assert(string_texts(args@).take(args@.len() as int) =~= string_texts(args@));
    if in_flatpak {
        let mut all: Vec<String> = Vec::new();
        all.push(String::from_str("--host"));
        all.push(String::from_str(program));
        let ghost head = string_texts(all@);
        assert(head =~= seq!["--host"@, program@]);
        all.append(&mut rest);
        assert(string_texts(all@) =~= head + string_texts(args@));
        (String::from_str("flatpak-spawn"), all)
    } else {
        (String::from_str(program), rest)
    }
}

/// What a finished command gives back: its output, unless that is empty and
/// the command failed (a non-zero exit is tolerated as long as there is
/// output).
pub fn run(stdout: String, success: bool) -> (r: Option<String>)
    ensures
        match r {
            Some(s) => s@ == stdout@ && (stdout@.len() > 0 || success),
            None => stdout@.len() == 0 && !success,
        },
{
    if stdout.as_str().is_empty() && !success {
        None
    } else {
        Some(stdout)
    }
}

/// The entries of a directory listing printed one per line (`ls -1`), each
/// trimmed.
pub fn listing_names(out: &str) -> (r: Vec<String>)
    ensures
        string_texts(r@) == lines(out@).map_values(|l: Seq<char>| trim(l)),
{
    let ov = chars_of(out);
    let ls = lines_of(ov.as_slice());
    let ghost lv = seqs(ls@);
    let mut names: Vec<String> = Vec::new();
    let mut i: usize = 0;
    while i < ls.len()
        invariant
            lv == seqs(ls@),
            lv == lines(out@),
            0 <= i <= lv.len(),
            string_texts(names@) == lv.take(i as int).map_values(|l: Seq<char>| trim(l)),
        decreases lv.len() - i,
    {
        assert(lv[i as int] == ls@[i as int]@);
        let t = trim_chars(ls[i].as_slice());
        let n = string_of(t.as_slice());
        let ghost before = string_texts(names@);
        names.push(n);
        assert(string_texts(names@) =~= before.push(trim(lv[i as int])));
        assert(lv.take(i as int + 1).map_values(|l: Seq<char>| trim(l)) =~= lv.take(i as int).map_values(
            |l: Seq<char>| trim(l),
        ).push(trim(lv[i as int])));
        i = i + 1;
    }
    assert(lv.take(lv.len() as int) =~= lv);
    names
}

} // verus!
