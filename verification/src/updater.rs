//! The decisions of the in-app update check: which GitHub release is the
//! newest Linux one, whether it is newer than the running version, and which
//! asset is its AppImage. Fetching, downloading and swapping the binary belong
//! to the application.

use vstd::prelude::*;
use crate::json::{
    JsonModel, as_array, as_str, get, json_array, json_contents, json_get, json_str,
};
use crate::i18n::{Lang, spec_tr, tr};
use crate::text::{
    chars_of, ends_with, parse_u32, parse_u32_chars, seqs, slice_of, split_chars, split_on,
    starts_with, string_of,
};

verus! {

#[derive(Debug)]
pub enum Outcome {
    UpToDate,
    /// A newer version exists; `applied` is true when an AppImage was swapped in.
    Available { version: String, applied: bool },
    Error(String),
}

/// The numeric value of one dotted part; `0` when it does not parse as `u32`.
pub open spec fn part_value(p: Seq<char>) -> nat {
    match parse_u32(p) {
        Some(v) => v as nat,
        None => 0,
    }
}

/// The parts of a dotted version, as numbers.
pub open spec fn version_parts(s: Seq<char>) -> Seq<nat> {
    split_on(s, '.').map_values(|p: Seq<char>| part_value(p))
}

/// Part `i` of a version, `0` past its end.
pub open spec fn part_at(v: Seq<nat>, i: int) -> nat {
    if 0 <= i < v.len() {
        v[i]
    } else {
        0
    }
}

/// Compares parts from index `i` on: the first differing part decides.
pub open spec fn newer_from(va: Seq<nat>, vb: Seq<nat>, i: int) -> bool
    decreases (if va.len() > vb.len() {
        va.len()
    } else {
        vb.len()
    }) - i,
{
    if i < 0 || (i >= va.len() && i >= vb.len()) {
        false
    } else if part_at(va, i) != part_at(vb, i) {
        part_at(va, i) > part_at(vb, i)
    } else {
        newer_from(va, vb, i + 1)
    }
}

/// `a > b` for dotted numeric versions.
pub open spec fn spec_is_newer(a: Seq<char>, b: Seq<char>) -> bool {
    newer_from(version_parts(a), version_parts(b), 0)
}

fn parts(s: &str) -> (r: Vec<u32>)
    ensures
        r@.map_values(|x: u32| x as nat) == version_parts(s@),
{
    let sv = chars_of(s);
    let pieces = split_chars(sv.as_slice(), '.');
    let ghost pv = seqs(pieces@);
    let mut r: Vec<u32> = Vec::new();
    let mut i: usize = 0;
    while i < pieces.len()
        invariant
            pv == seqs(pieces@),
            pv == split_on(s@, '.'),
            0 <= i <= pieces@.len(),
            r@.map_values(|x: u32| x as nat) == pv.take(i as int).map_values(|p: Seq<char>| part_value(p)),
        decreases pieces@.len() - i,
    {
        let v = match parse_u32_chars(pieces[i].as_slice()) {
            Some(v) => v,
            None => 0,
        };
        assert(pv[i as int] == pieces@[i as int]@);
        let ghost before = r@.map_values(|x: u32| x as nat);
        r.push(v);
        assert(r@.map_values(|x: u32| x as nat) =~= before.push(v as nat));
        assert(pv.take(i as int + 1).map_values(|p: Seq<char>| part_value(p)) =~= pv.take(i as int).map_values(|p: Seq<char>| part_value(p)).push(part_value(pv[i as int])));
        i = i + 1;
    }
    assert(pv.take(pv.len() as int) =~= pv);
    r
}

/// Compare dotted numeric versions. `a > b` -> true.
pub fn is_newer(a: &str, b: &str) -> (r: bool)
    ensures
        r == spec_is_newer(a@, b@),
{
    let va = parts(a);
    let vb = parts(b);
    let ghost sa = va@.map_values(|x: u32| x as nat);
    let ghost sb = vb@.map_values(|x: u32| x as nat);
    let n = if va.len() > vb.len() {
        va.len()
    } else {
        vb.len()
    };
    let mut i: usize = 0;
    while i < n
        invariant
            sa == va@.map_values(|x: u32| x as nat),
            sb == vb@.map_values(|x: u32| x as nat),
            sa == version_parts(a@),
            sb == version_parts(b@),
            n == (if sa.len() > sb.len() {
                sa.len()
            } else {
                sb.len()
            }),
            0 <= i <= n,
            newer_from(sa, sb, 0) == newer_from(sa, sb, i as int),
        decreases n - i,
    {
        let x: u32 = if i < va.len() {
            va[i]
        } else {
            0
        };
        let y: u32 = if i < vb.len() {
            vb[i]
        } else {
            0
        };
        assert(x as nat == part_at(sa, i as int));
        assert(y as nat == part_at(sb, i as int));
        if x != y {
            assert(newer_from(sa, sb, i as int) == (x > y));
            return x > y;
        }
        i = i + 1;
    }
    false
}

/// No version is newer than itself.
pub proof fn law_is_newer_irreflexive(a: Seq<char>)
    ensures
        !spec_is_newer(a, a),
{
    lemma_newer_from_irreflexive(version_parts(a), 0);
}

proof fn lemma_newer_from_irreflexive(v: Seq<nat>, i: int)
    ensures
        !newer_from(v, v, i),
    decreases v.len() - i,
{
    if i >= 0 && i < v.len() {
        lemma_newer_from_irreflexive(v, i + 1);
    }
}

/// Of two versions, at most one is newer than the other.
pub proof fn law_is_newer_asymmetric(a: Seq<char>, b: Seq<char>)
    ensures
        !(spec_is_newer(a, b) && spec_is_newer(b, a)),
{
    lemma_newer_from_asymmetric(version_parts(a), version_parts(b), 0);
}

proof fn lemma_newer_from_asymmetric(va: Seq<nat>, vb: Seq<nat>, i: int)
    ensures
        !(newer_from(va, vb, i) && newer_from(vb, va, i)),
    decreases (if va.len() > vb.len() {
        va.len()
    } else {
        vb.len()
    }) - i,
{
    if i >= 0 && !(i >= va.len() && i >= vb.len()) && part_at(va, i) == part_at(vb, i) {
        lemma_newer_from_asymmetric(va, vb, i + 1);
    }
}

/// A version newer than a second, which is newer than a third, is newer
/// than the third.
pub proof fn law_is_newer_transitive(a: Seq<char>, b: Seq<char>, c: Seq<char>)
    requires
        spec_is_newer(a, b),
        spec_is_newer(b, c),
    ensures
        spec_is_newer(a, c),
{
    lemma_newer_from_transitive(version_parts(a), version_parts(b), version_parts(c), 0);
}

proof fn lemma_newer_past_end(va: Seq<nat>, vb: Seq<nat>, i: int)
    requires
        i >= va.len(),
    ensures
        !newer_from(va, vb, i),
    decreases (if va.len() > vb.len() {
        va.len()
    } else {
        vb.len()
    }) - i,
{
    if i >= 0 && !(i >= va.len() && i >= vb.len()) && part_at(va, i) == part_at(vb, i) {
        lemma_newer_past_end(va, vb, i + 1);
    }
}

proof fn lemma_newer_from_transitive(va: Seq<nat>, vb: Seq<nat>, vc: Seq<nat>, i: int)
    requires
        newer_from(va, vb, i),
        newer_from(vb, vc, i),
    ensures
        newer_from(va, vc, i),
    decreases va.len() + vb.len() + vc.len() - i,
{
    let x = part_at(va, i);
    let y = part_at(vb, i);
    let z = part_at(vc, i);
    if x == y && y == z {
        lemma_newer_from_transitive(va, vb, vc, i + 1);
        if i >= va.len() {
            lemma_newer_past_end(va, vb, i + 1);
        }
    }
}

/// `str::trim_start_matches(p)`: `p` removed from the front as often as it occurs there.
pub open spec fn strip_all_prefix(s: Seq<char>, p: Seq<char>) -> Seq<char>
    decreases s.len(),
{
    if p.len() > 0 && p.is_prefix_of(s) {
        strip_all_prefix(s.skip(p.len() as int), p)
    } else {
        s
    }
}

fn trim_start_matches(s: &[char], p: &[char]) -> (r: Vec<char>)
    ensures
        r@ == strip_all_prefix(s@, p@),
{
    let n = s.len();
    let mut cur = slice_of(s, 0, n);
    assert(cur@ =~= s@);
    if p.len() == 0 {
        return cur;
    }
    while starts_with(cur.as_slice(), p)
        invariant
            p@.len() > 0,
            strip_all_prefix(cur@, p@) == strip_all_prefix(s@, p@),
        decreases cur@.len(),
    {
        let next = slice_of(cur.as_slice(), p.len(), cur.len());
        assert(next@ =~= cur@.skip(p@.len() as int));
        cur = next;
    }
    cur
}

/// The `tag_name` of a release, when it is a string.
pub open spec fn release_tag(r: JsonModel) -> Option<Seq<char>> {
    match json_get(r, "tag_name"@) {
        Some(t) => json_str(t),
        None => None,
    }
}

/// A Linux release: its tag starts with `linux-v`.
pub open spec fn is_linux_release(r: JsonModel) -> bool {
    release_tag(r) matches Some(t) && "linux-v"@.is_prefix_of(t)
}

/// What the newest Linux release means for the running version.
#[derive(Debug)]
pub enum ReleaseCheck {
    /// No Linux release in the list.
    NotFound,
    UpToDate,
    /// `releases[index]` carries a newer `version`.
    Newer { version: String, index: usize },
}

/// The index of the first Linux release from `i` on.
pub open spec fn first_linux_from(items: Seq<JsonModel>, i: int) -> Option<int>
    decreases items.len() - i,
{
    if i < 0 || i >= items.len() {
        None
    } else if is_linux_release(items[i]) {
        Some(i)
    } else {
        first_linux_from(items, i + 1)
    }
}

/// The verdict on a releases list (newest first): the first Linux release,
/// its version being its tag with `linux-v` stripped, newer or not than
/// `current`.
pub open spec fn spec_check_releases(releases: JsonModel, current: Seq<char>) -> (
    Option<(int, Seq<char>)>,
    bool,
) {
    match json_array(releases) {
        Some(items) => match first_linux_from(items, 0) {
            Some(i) => {
                let version = strip_all_prefix(release_tag(items[i])->0, "linux-v"@);
                (Some((i, version)), spec_is_newer(version, current))
            },
            None => (None, false),
        },
        None => (None, false),
    }
}

/// Finds the newest Linux release in a GitHub releases list and compares its
/// version with `current`.
pub fn check_releases(releases: &serde_json::Value, current: &str) -> (r: ReleaseCheck)
    ensures
        match r {
            ReleaseCheck::NotFound => spec_check_releases(json_contents(*releases), current@).0 is None,
            ReleaseCheck::UpToDate => spec_check_releases(json_contents(*releases), current@).0 is Some
                && !spec_check_releases(json_contents(*releases), current@).1,
            ReleaseCheck::Newer { version, index } => spec_check_releases(
                json_contents(*releases),
                current@,
            ).0 == Some((index as int, version@)) && spec_check_releases(
                json_contents(*releases),
                current@,
            ).1,
        },
{
    let arr = match as_array(releases) {
        Some(a) => a,
        None => return ReleaseCheck::NotFound,
    };
    let ghost models = arr@.map_values(|e: serde_json::Value| json_contents(e));
    let prefix = chars_of("linux-v");
    let mut i: usize = 0;
    while i < arr.len()
        invariant
            models == arr@.map_values(|e: serde_json::Value| json_contents(e)),
            json_array(json_contents(*releases)) == Some(models),
            prefix@ == "linux-v"@,
            0 <= i <= arr@.len(),
            first_linux_from(models, 0) == first_linux_from(models, i as int),
        decreases arr@.len() - i,
    {
        assert(models[i as int] == json_contents(arr@[i as int]));
        match tag_of(&arr[i]) {
            Some(tag) => {
                let tv = chars_of(tag);
                if starts_with(tv.as_slice(), prefix.as_slice()) {
                    let latest = trim_start_matches(tv.as_slice(), prefix.as_slice());
                    let version = string_of(latest.as_slice());
                    if is_newer(version.as_str(), current) {
                        return ReleaseCheck::Newer { version, index: i };
                    } else {
                        return ReleaseCheck::UpToDate;
                    }
                }
            },
            None => {},
        }
        i = i + 1;
    }
    ReleaseCheck::NotFound
}

fn tag_of(r: &serde_json::Value) -> (t: Option<&str>)
    ensures
        t matches Some(s) ==> release_tag(json_contents(*r)) == Some(s@),
        t is None ==> release_tag(json_contents(*r)) is None,
{
    let v = get(r, "tag_name")?;
    as_str(v)
}

/// The `name` of an asset, when it is a string.
pub open spec fn asset_name(a: JsonModel) -> Option<Seq<char>> {
    match json_get(a, "name"@) {
        Some(n) => json_str(n),
        None => None,
    }
}

pub open spec fn is_appimage_asset(a: JsonModel) -> bool {
    asset_name(a) matches Some(n) && ".AppImage"@.is_suffix_of(n)
}

pub open spec fn first_appimage_from(items: Seq<JsonModel>, i: int) -> Option<int>
    decreases items.len() - i,
{
    if i < 0 || i >= items.len() {
        None
    } else if is_appimage_asset(items[i]) {
        Some(i)
    } else {
        first_appimage_from(items, i + 1)
    }
}

/// The first asset of a release whose name ends in `.AppImage`.
pub open spec fn spec_appimage_asset(release: JsonModel) -> Option<JsonModel> {
    match json_get(release, "assets"@) {
        Some(a) => match json_array(a) {
            Some(items) => match first_appimage_from(items, 0) {
                Some(i) => Some(items[i]),
                None => None,
            },
            None => None,
        },
        None => None,
    }
}

/// The download URL of a release's first `.AppImage` asset, or why there is none.
pub open spec fn spec_appimage_url(release: JsonModel) -> Result<Seq<char>, Seq<char>> {
    match spec_appimage_asset(release) {
        None => Err("no AppImage asset in release"@),
        Some(a) => match json_get(a, "browser_download_url"@) {
            Some(u) => match json_str(u) {
                Some(url) => Ok(url),
                None => Err("asset has no download url"@),
            },
            None => Err("asset has no download url"@),
        },
    }
}

fn appimage_asset<'a>(release: &'a serde_json::Value) -> (r: Option<&'a serde_json::Value>)
    ensures
        r matches Some(a) ==> spec_appimage_asset(json_contents(*release)) == Some(json_contents(*a)),
        r is None ==> spec_appimage_asset(json_contents(*release)) is None,
{
    let assets = get(release, "assets")?;
    let arr = as_array(assets)?;
    let ghost models = arr@.map_values(|e: serde_json::Value| json_contents(e));
    let suffix = chars_of(".AppImage");
    let mut i: usize = 0;
    while i < arr.len()
        invariant
            models == arr@.map_values(|e: serde_json::Value| json_contents(e)),
            json_get(json_contents(*release), "assets"@) == Some(json_contents(*assets)),
            json_array(json_contents(*assets)) == Some(models),
            suffix@ == ".AppImage"@,
            0 <= i <= arr@.len(),
            first_appimage_from(models, 0) == first_appimage_from(models, i as int),
        decreases arr@.len() - i,
    {
        assert(models[i as int] == json_contents(arr@[i as int]));
        let name = match get(&arr[i], "name") {
            Some(n) => as_str(n),
            None => None,
        };
        match name {
            Some(n) => {
                let nv = chars_of(n);
                if ends_with(nv.as_slice(), suffix.as_slice()) {
                    return Some(&arr[i]);
                }
            },
            None => {},
        }
        i = i + 1;
    }
    None
}

/// Where to download the AppImage of a release from.
pub fn appimage_url(release: &serde_json::Value) -> (r: Result<String, String>)
    ensures
        match r {
            Ok(u) => spec_appimage_url(json_contents(*release)) == Ok::<Seq<char>, Seq<char>>(u@),
            Err(e) => spec_appimage_url(json_contents(*release)) == Err::<Seq<char>, Seq<char>>(e@),
        },
{
    let asset = match appimage_asset(release) {
        Some(a) => a,
        None => return Err(String::from_str("no AppImage asset in release")),
    };
    let url = match get(asset, "browser_download_url") {
        Some(u) => as_str(u),
        None => None,
    };
    match url {
        Some(u) => Ok(String::from_str(u)),
        None => Err(String::from_str("asset has no download url")),
    }
}

/// The outcome once a newer `version` was found: with an AppImage to replace
/// (`download` is the result of downloading it), `Available` and applied, or
/// the download's error; without one, `Available` and not applied.
pub fn newer_outcome(version: String, download: Option<Result<(), String>>) -> (r: Outcome)
    ensures
        match download {
            None => r == Outcome::Available { version, applied: false },
            Some(Ok(())) => r == Outcome::Available { version, applied: true },
            Some(Err(e)) => r == Outcome::Error(e),
        },
{
    match download {
        None => Outcome::Available { version, applied: false },
        Some(Ok(())) => Outcome::Available { version, applied: true },
        Some(Err(e)) => Outcome::Error(e),
    }
}

/// The outcome of an update check, given the verdict on the releases list
/// and, for a newer release, the result of downloading it (`None` when the
/// application does not replace itself): no Linux release is an error; the
/// newest one not newer is up to date; a newer one is as `newer_outcome`
/// says.
pub fn check_outcome(check: ReleaseCheck, download: Option<Result<(), String>>) -> (r: Outcome)
    ensures
        match check {
            ReleaseCheck::NotFound => r matches Outcome::Error(e) && e@ == "no linux release found"@,
            ReleaseCheck::UpToDate => r == Outcome::UpToDate,
            ReleaseCheck::Newer { version, index: _ } => match download {
                None => r == Outcome::Available { version, applied: false },
                Some(Ok(())) => r == Outcome::Available { version, applied: true },
                Some(Err(e)) => r == Outcome::Error(e),
            },
        },
{
    match check {
        ReleaseCheck::NotFound => Outcome::Error(String::from_str("no linux release found")),
        ReleaseCheck::UpToDate => Outcome::UpToDate,
        ReleaseCheck::Newer { version, index: _ } => newer_outcome(version, download),
    }
}

/// What the application does with the outcome of an update check.
#[derive(Debug)]
pub enum UpdateReaction {
    /// Nothing to show.
    Nothing,
    /// A dialog with this text.
    Dialog(String),
    /// Open the releases page in the browser.
    OpenReleasesPage,
}

/// The text of the dialog for a downloaded update.
pub open spec fn downloaded_text(version: Seq<char>) -> Seq<char> {
    "Porthole "@ + version + " downloaded. Restart to apply."@
}

/// The text of the dialog for an available update.
pub open spec fn available_text(lang: Lang, version: Seq<char>) -> Seq<char> {
    spec_tr(lang, "Update available"@) + " (v"@ + version + ")"@
}

/// Reacts to the outcome of an update check; `silent` is the background
/// check at launch, which stays quiet unless an update is found. Up to date:
/// a dialog saying so, or nothing when silent. An update downloaded and
/// swapped in: a dialog asking for a restart. An update available: a dialog
/// naming the version. An error: the releases page is opened, or nothing
/// when silent.
pub fn update_reaction(lang: Lang, outcome: Outcome, silent: bool) -> (r: UpdateReaction)
    ensures
        match outcome {
            Outcome::UpToDate => if silent {
                r is Nothing
            } else {
                r matches UpdateReaction::Dialog(t) && t@ == spec_tr(lang, "Up to date"@)
            },
            Outcome::Available { version, applied } => if applied {
                r matches UpdateReaction::Dialog(t) && t@ == downloaded_text(version@)
            } else {
                r matches UpdateReaction::Dialog(t) && t@ == available_text(lang, version@)
            },
            Outcome::Error(_) => if silent {
                r is Nothing
            } else {
                r is OpenReleasesPage
            },
        },
{
    match outcome {
        Outcome::UpToDate => {
            if silent {
                UpdateReaction::Nothing
            } else {
                UpdateReaction::Dialog(String::from_str(tr(lang, "Up to date")))
            }
        },
        Outcome::Available { version, applied } => {
            if applied {
                let mut t = String::from_str("Porthole ");
                t.append(version.as_str());
                t.append(" downloaded. Restart to apply.");
                proof {
                    reveal_strlit("Porthole ");
                    reveal_strlit(" downloaded. Restart to apply.");
                }
                assert(t@ =~= downloaded_text(version@));
                UpdateReaction::Dialog(t)
            } else {
                let mut t = String::from_str(tr(lang, "Update available"));
                t.append(" (v");
                t.append(version.as_str());
                t.append(")");
                assert(t@ =~= available_text(lang, version@));
                UpdateReaction::Dialog(t)
            }
        },
        Outcome::Error(_) => {
            if silent {
                UpdateReaction::Nothing
            } else {
                UpdateReaction::OpenReleasesPage
            }
        },
    }
}

} // verus!
