//! Project resolution on Windows. Another process's working directory cannot
//! be read cheaply there, so paths are mined from its command line and its
//! executable path; each candidate is then resolved like a working directory,
//! by walking its parents for a project marker.

use vstd::prelude::*;
use vstd::utf8::encode_utf8;
use crate::models::{ProjectInfo, ProjectView, project_opt_view};
use crate::project_resolver::{DirProbe, resolve as resolve_chain, spec_resolve};
use crate::text::{chars_of, seqs, split_chars, split_on, string_of, trim, trim_chars, words, words_of};

verus! {

/// An ASCII letter, as a byte.
pub open spec fn is_ascii_letter(b: u8) -> bool {
    (65 <= b && b <= 90) || (97 <= b && b <= 122)
}

/// A drive-letter absolute path like `C:\...` or `D:/...`, judged on the
/// UTF-8 bytes of the text.
pub open spec fn spec_looks_like_path(s: Seq<char>) -> bool {
    let b = encode_utf8(s);
    &&& b.len() >= 3
    &&& is_ascii_letter(b[0])
    &&& b[1] == 58
    &&& (b[2] == 92 || b[2] == 47)
}

/// A drive-letter absolute path like `C:\...` or `D:/...`.
pub fn looks_like_path(s: &str) -> (r: bool)
    ensures
        r == spec_looks_like_path(s@),
{
    let b = s.as_bytes();
    b.len() >= 3 && ((65 <= b[0] && b[0] <= 90) || (97 <= b[0] && b[0] <= 122)) && b[1] == 58
        && (b[2] == 92 || b[2] == 47)
}

/// The members of `ps` that look like paths, in order.
pub open spec fn paths_in(ps: Seq<Seq<char>>) -> Seq<Seq<char>>
    decreases ps.len(),
{
    if ps.len() == 0 {
        Seq::empty()
    } else if spec_looks_like_path(ps.last()) {
        paths_in(ps.drop_last()).push(ps.last())
    } else {
        paths_in(ps.drop_last())
    }
}

/// Each text trimmed.
pub open spec fn trimmed(ps: Seq<Seq<char>>) -> Seq<Seq<char>> {
    ps.map_values(|p: Seq<char>| trim(p))
}

/// The paths worth resolving for a process: the quoted pieces of its command
/// line that look like paths (trimmed), then its space-separated arguments
/// that do, then its executable path if it does.
pub open spec fn spec_candidates(cmdline: Option<Seq<char>>, exepath: Option<Seq<char>>) -> Seq<
    Seq<char>,
> {
    (match cmdline {
        Some(cl) => paths_in(trimmed(split_on(cl, '"'))) + paths_in(words(cl)),
        None => Seq::empty(),
    }) + (match exepath {
        Some(ep) => if spec_looks_like_path(ep) {
            seq![ep]
        } else {
            Seq::empty()
        },
        None => Seq::empty(),
    })
}

/// Texts of strings.
pub open spec fn string_texts(v: Seq<String>) -> Seq<Seq<char>> {
    v.map_values(|s: String| s@)
}

proof fn lemma_paths_in_push(ps: Seq<Seq<char>>, p: Seq<char>)
    ensures
        paths_in(ps.push(p)) == if spec_looks_like_path(p) {
            paths_in(ps).push(p)
        } else {
            paths_in(ps)
        },
{
    assert(ps.push(p).drop_last() =~= ps);
}

/// Appends to `out` the members of `parts` that look like paths, trimming
/// each first when `trim_each` is set.
fn push_paths(out: &mut Vec<String>, parts: &Vec<Vec<char>>, trim_each: bool)
    ensures
        string_texts(final(out)@) == string_texts(old(out)@) + paths_in(
            if trim_each {
                trimmed(seqs(parts@))
            } else {
                seqs(parts@)
            },
        ),
{
    let ghost ps = if trim_each {
        trimmed(seqs(parts@))
    } else {
        seqs(parts@)
    };
    let ghost start = string_texts(out@);
    let mut i: usize = 0;
    assert(ps.take(0) =~= Seq::<Seq<char>>::empty());
    while i < parts.len()
        invariant
            ps == (if trim_each {
                trimmed(seqs(parts@))
            } else {
                seqs(parts@)
            }),
            ps.len() == parts@.len(),
            0 <= i <= parts@.len(),
            string_texts(out@) == start + paths_in(ps.take(i as int)),
        decreases parts@.len() - i,
    {
        let piece = if trim_each {
            trim_chars(parts[i].as_slice())
        } else {
            slice_all(parts[i].as_slice())
        };
        assert(piece@ == ps[i as int]);
        let text = string_of(piece.as_slice());
        assert(ps.take(i as int + 1) =~= ps.take(i as int).push(ps[i as int]));
        proof {
            lemma_paths_in_push(ps.take(i as int), ps[i as int]);
        }
        let ghost before = string_texts(out@);
        if looks_like_path(text.as_str()) {
            out.push(text);
            assert(string_texts(out@) =~= before.push(ps[i as int]));
        }
        i = i + 1;
    }
    assert(ps.take(ps.len() as int) =~= ps);
}

fn slice_all(s: &[char]) -> (r: Vec<char>)
    ensures
        r@ == s@,
{
    let mut r: Vec<char> = Vec::new();
    let mut i: usize = 0;
    while i < s.len()
        invariant
            0 <= i <= s@.len(),
            r@ == s@.take(i as int),
        decreases s@.len() - i,
    {
        r.push(s[i]);
        assert(r@ =~= s@.take(i as int + 1));
        i = i + 1;
    }
    assert(s@.take(s@.len() as int) =~= s@);
    r
}

/// The paths to try, in order, for a process with this command line and
/// executable path.
pub fn candidates(cmdline: Option<&str>, exepath: Option<&str>) -> (r: Vec<String>)
    ensures
        string_texts(r@) == spec_candidates(
            match cmdline {
                Some(c) => Some(c@),
                None => None,
            },
            match exepath {
                Some(e) => Some(e@),
                None => None,
            },
        ),
{
    let mut out: Vec<String> = Vec::new();
    assert(string_texts(out@) =~= Seq::<Seq<char>>::empty());
    match cmdline {
        Some(cl) => {
            let cv = chars_of(cl);
            let quoted = split_chars(cv.as_slice(), '"');
            push_paths(&mut out, &quoted, true);
            let ws = words_of(cv.as_slice());
            push_paths(&mut out, &ws, false);
        },
        None => {},
    }
    let ghost mid = string_texts(out@);
    match exepath {
        Some(ep) => {
            if looks_like_path(ep) {
                out.push(String::from_str(ep));
                assert(string_texts(out@) =~= mid.push(ep@));
            }
        },
        None => {},
    }
    proof {
        let cl = match cmdline {
            Some(c) => Some(c@),
            None => None,
        };
        let ep = match exepath {
            Some(e) => Some(e@),
            None => None,
        };
        assert(string_texts(out@) =~= spec_candidates(cl, ep));
    }
    out
}

/// The project of the first candidate that resolves to one.
pub open spec fn spec_first_resolved(chains: Seq<Seq<DirProbe>>) -> Option<ProjectView>
    decreases chains.len(),
{
    if chains.len() == 0 {
        None
    } else {
        match spec_resolve(chains[0]) {
            Some(v) => Some(v),
            None => spec_first_resolved(chains.drop_first()),
        }
    }
}

/// The probe chains' contents.
pub open spec fn chain_views(chains: Seq<Vec<DirProbe>>) -> Seq<Seq<DirProbe>> {
    chains.map_values(|c: Vec<DirProbe>| c@)
}

/// Resolves a process's project from the walks of its candidate paths (in the
/// order of `candidates`, each walk its directory then its ancestors): the
/// first candidate that finds a project marker wins. A candidate whose leaf
/// does not exist still walks its parents, so `...\node_modules\.bin\vite`
/// finds the `package.json` above it.
pub fn resolve(chains: &Vec<Vec<DirProbe>>) -> (r: Option<ProjectInfo>)
    ensures
        project_opt_view(r) == spec_first_resolved(chain_views(chains@)),
{
    let ghost cs = chain_views(chains@);
    let mut i: usize = 0;
    assert(cs.skip(0) =~= cs);
    while i < chains.len()
        invariant
            cs == chain_views(chains@),
            0 <= i <= cs.len(),
            spec_first_resolved(cs) == spec_first_resolved(cs.skip(i as int)),
        decreases cs.len() - i,
    {
        assert(cs.skip(i as int)[0] == chains@[i as int]@);
        assert(cs.skip(i as int).drop_first() =~= cs.skip(i as int + 1));
        match resolve_chain(chains[i].as_slice()) {
            Some(info) => {
                return Some(info);
            },
            None => {},
        }
        i = i + 1;
    }
    assert(cs.skip(i as int) =~= Seq::<Seq<DirProbe>>::empty());
    None
}

} // verus!
