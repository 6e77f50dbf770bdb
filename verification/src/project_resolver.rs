//! Resolves the project that owns a working directory by walking up from it,
//! looking for a project marker in each directory. The walk touches the file
//! system, which the application does; here are the decisions: what a
//! directory's markers make of it, and which directory of the walk owns it.

use vstd::prelude::*;
use crate::json::{as_str, get, json_get, json_str, json_text, parse_json};
use crate::models::{ProjectInfo, ProjectKind, ProjectView, project_opt_view};

verus! {

/// What the application found in one directory.
pub struct DirProbe {
    /// The directory, as text.
    pub path: String,
    /// Its last component (empty when it has none).
    pub basename: String,
    pub package_json: bool,
    /// The `name` read from `package.json`, when it has a non-empty one.
    pub package_name: Option<String>,
    pub go_mod: bool,
    pub pyproject_toml: bool,
    pub requirements_txt: bool,
    pub gemfile: bool,
    pub cargo_toml: bool,
    pub git: bool,
}

/// The project a directory is the root of, by the first marker present in the
/// order `package.json` (named from it, else by the directory), `go.mod`,
/// `pyproject.toml`/`requirements.txt`, `Gemfile`, `Cargo.toml`, `.git`.
pub open spec fn spec_marker(p: DirProbe) -> Option<ProjectView> {
    let kind = if p.package_json {
        Some(ProjectKind::Node)
    } else if p.go_mod {
        Some(ProjectKind::Go)
    } else if p.pyproject_toml || p.requirements_txt {
        Some(ProjectKind::Python)
    } else if p.gemfile {
        Some(ProjectKind::Ruby)
    } else if p.cargo_toml {
        Some(ProjectKind::Rust)
    } else if p.git {
        Some(ProjectKind::Unknown)
    } else {
        None
    };
    match kind {
        Some(k) => Some(
            ProjectView {
                path: p.path@,
                name: if p.package_json && p.package_name is Some {
                    p.package_name->0@
                } else {
                    p.basename@
                },
                kind: k,
            },
        ),
        None => None,
    }
}

pub fn marker(probe: &DirProbe) -> (r: Option<ProjectInfo>)
    ensures
        match r {
            Some(info) => spec_marker(*probe) == Some(info@),
            None => spec_marker(*probe) is None,
        },
{
    let kind = if probe.package_json {
        ProjectKind::Node
    } else if probe.go_mod {
        ProjectKind::Go
    } else if probe.pyproject_toml || probe.requirements_txt {
        ProjectKind::Python
    } else if probe.gemfile {
        ProjectKind::Ruby
    } else if probe.cargo_toml {
        ProjectKind::Rust
    } else if probe.git {
        ProjectKind::Unknown
    } else {
        return None;
    };
    let name = match (&probe.package_name, probe.package_json) {
        (Some(n), true) => n.clone(),
        _ => probe.basename.clone(),
    };
    Some(ProjectInfo { path: probe.path.clone(), name, kind })
}

/// The `name` of a `package.json` document, when it is a non-empty string.
pub open spec fn spec_package_name(data: Seq<u8>) -> Option<Seq<char>> {
    match json_text(data) {
        Some(doc) => match json_get(doc, "name"@) {
            Some(n) => match json_str(n) {
                Some(s) => if s.len() == 0 {
                    None
                } else {
                    Some(s)
                },
                None => None,
            },
            None => None,
        },
        None => None,
    }
}

/// The project name in the contents of a `package.json`.
pub fn package_name(data: &[u8]) -> (r: Option<String>)
    ensures
        match r {
            Some(s) => spec_package_name(data@) == Some(s@),
            None => spec_package_name(data@) is None,
        },
{
    let obj = parse_json(data)?;
    let n = get(&obj, "name")?;
    let s = as_str(n)?;
    if s.is_empty() {
        None
    } else {
        Some(String::from_str(s))
    }
}

/// The project of the first directory along `chain` that has a marker.
pub open spec fn spec_resolve(chain: Seq<DirProbe>) -> Option<ProjectView>
    decreases chain.len(),
{
    if chain.len() == 0 {
        None
    } else {
        match spec_marker(chain[0]) {
            Some(v) => Some(v),
            None => spec_resolve(chain.drop_first()),
        }
    }
}

/// Resolves the project of a working directory from the probes of the
/// directory and each of its ancestors, nearest first: the first one with a
/// marker is the project root.
pub fn resolve(chain: &[DirProbe]) -> (r: Option<ProjectInfo>)
    ensures
        project_opt_view(r) == spec_resolve(chain@),
{
    let mut i: usize = 0;
    assert(chain@.skip(0) =~= chain@);
    while i < chain.len()
        invariant
            0 <= i <= chain@.len(),
            spec_resolve(chain@) == spec_resolve(chain@.skip(i as int)),
        decreases chain@.len() - i,
    {
        assert(chain@.skip(i as int)[0] == chain@[i as int]);
        assert(chain@.skip(i as int).drop_first() =~= chain@.skip(i as int + 1));
        match marker(&chain[i]) {
            Some(info) => {
                return Some(info);
            },
            None => {},
        }
        i = i + 1;
    }
    assert(chain@.skip(i as int) =~= Seq::<DirProbe>::empty());
    None
}

/// The walk finds the nearest project root: when directory `k` of the chain
/// has a marker and none before it has, the project is directory `k`'s; when
/// no directory has a marker, there is none.
pub proof fn law_nearest_marker_wins(chain: Seq<DirProbe>, k: int)
    requires
        0 <= k <= chain.len(),
        forall|j: int| 0 <= j < k ==> spec_marker(#[trigger] chain[j]) is None,
    ensures
        k < chain.len() && spec_marker(chain[k]) is Some ==> spec_resolve(chain) == spec_marker(chain[k]),
        k == chain.len() ==> spec_resolve(chain) is None,
    decreases k,
{
    if k > 0 {
        assert forall|j: int| 0 <= j < k - 1 implies spec_marker(#[trigger] chain.drop_first()[j]) is None by {
            assert(chain.drop_first()[j] == chain[j + 1]);
        }
        assert(chain.drop_first().len() == chain.len() - 1);
        law_nearest_marker_wins(chain.drop_first(), k - 1);
        if k < chain.len() {
            assert(chain.drop_first()[k - 1] == chain[k]);
        }
    }
}

/// What each marker makes of a directory, in order of precedence:
/// `package.json` a Node project, else `go.mod` a Go project, else
/// `pyproject.toml` or `requirements.txt` a Python project, else `Gemfile` a
/// Ruby project, else `Cargo.toml` a Rust project, else `.git` a project of
/// unknown kind; the project's path is the directory's, and its name the
/// `name` of `package.json` for a Node project that has one, else the
/// directory's basename. A walk whose first
/// directory is such a root resolves to it.
pub proof fn law_marker_kinds(p: DirProbe, rest: Seq<DirProbe>)
    ensures
        p.package_json ==> (spec_marker(p) matches Some(v) && v.kind == ProjectKind::Node && v.path == p.path@),
        p.package_json && p.package_name is Some ==> (spec_marker(p) matches Some(v) && v.name == p.package_name->0@),
        p.package_json && p.package_name is None ==> (spec_marker(p) matches Some(v) && v.name == p.basename@),
        !p.package_json && p.go_mod ==> (spec_marker(p) matches Some(v) && v.kind == ProjectKind::Go && v.name
            == p.basename@),
        !p.package_json && !p.go_mod && (p.pyproject_toml || p.requirements_txt) ==> (spec_marker(p) matches Some(v)
            && v.kind == ProjectKind::Python && v.name == p.basename@ && v.path == p.path@),
        !p.package_json && !p.go_mod && !p.pyproject_toml && !p.requirements_txt && p.gemfile ==> (spec_marker(p) matches Some(v) && v.kind == ProjectKind::Ruby),
        !p.package_json && !p.go_mod && !p.pyproject_toml && !p.requirements_txt && !p.gemfile && p.cargo_toml
            ==> (spec_marker(p) matches Some(v) && v.kind == ProjectKind::Rust),
        !p.package_json && !p.go_mod && !p.pyproject_toml && !p.requirements_txt && !p.gemfile && !p.cargo_toml
            && p.git ==> (spec_marker(p) matches Some(v) && v.kind == ProjectKind::Unknown),
        !p.package_json && !p.go_mod && !p.pyproject_toml && !p.requirements_txt && !p.gemfile && !p.cargo_toml
            && !p.git ==> spec_marker(p) is None,
        spec_marker(p) is Some ==> spec_resolve(seq![p] + rest) == spec_marker(p),
{
    let chain = seq![p] + rest;
    assert(chain[0] == p);
}

} // verus!
