//! Character-level text helpers with specifications. The views of `&str` and
//! `String` are `Seq<char>`; every helper here states its result over them, so
//! the parsers built on top can be specified the way the standard library
//! documents `split`, `lines`, `trim`, `split_whitespace` and `parse`.

use vstd::prelude::*;

verus! {

// ---------------------------------------------------------------------------
// Character classes
// ---------------------------------------------------------------------------

/// Unicode `White_Space`, the property behind `char::is_whitespace`.
pub open spec fn is_ws(c: char) -> bool {
    ||| c == '\t'
    ||| c == '\n'
    ||| c == '\u{0B}'
    ||| c == '\u{0C}'
    ||| c == '\r'
    ||| c == ' '
    ||| c == '\u{85}'
    ||| c == '\u{A0}'
    ||| c == '\u{1680}'
    ||| ('\u{2000}' <= c && c <= '\u{200A}')
    ||| c == '\u{2028}'
    ||| c == '\u{2029}'
    ||| c == '\u{202F}'
    ||| c == '\u{205F}'
    ||| c == '\u{3000}'
}

pub fn is_whitespace(c: char) -> (r: bool)
    ensures
        r == is_ws(c),
{
    c == '\t' || c == '\n' || c == '\u{0B}' || c == '\u{0C}' || c == '\r' || c == ' '
        || c == '\u{85}' || c == '\u{A0}' || c == '\u{1680}' || ('\u{2000}' <= c && c
        <= '\u{200A}') || c == '\u{2028}' || c == '\u{2029}' || c == '\u{202F}' || c
        == '\u{205F}' || c == '\u{3000}'
}

pub open spec fn is_digit(c: char) -> bool {
    '0' <= c && c <= '9'
}

pub open spec fn digit_value(c: char) -> nat {
    (c as int - '0' as int) as nat
}

/// ASCII lower-casing of one character; every other character is unchanged.
pub open spec fn ascii_lower(c: char) -> char {
    if 'A' <= c && c <= 'Z' {
        ((c as int) + 32) as char
    } else {
        c
    }
}

/// `str::eq_ignore_ascii_case`: equal once ASCII letters are folded.
pub open spec fn eq_ignore_ascii_case(a: Seq<char>, b: Seq<char>) -> bool {
    &&& a.len() == b.len()
    &&& forall|i: int| 0 <= i < a.len() ==> ascii_lower(#[trigger] a[i]) == ascii_lower(b[i])
}

// ---------------------------------------------------------------------------
// Copying between `&str`, `String` and `Vec<char>`
// ---------------------------------------------------------------------------

/// Copies the characters of `s` into a vector.
pub fn chars_of(s: &str) -> (r: Vec<char>)
    ensures
        r@ == s@,
{
    let mut r: Vec<char> = Vec::new();
    for c in it: s.chars()
        invariant
            r@ == it.seq().take(it.index() as int),
    {
        r.push(c);
    }
    r
}

/// Collects characters into a `String` (`FromIterator<&char> for String`).
#[verifier::external_body]
pub(crate) fn string_of(s: &[char]) -> (r: String)
    ensures
        r@ == s@,
{
    s.iter().collect()
}

/// The characters `s[lo..hi]`, copied.
pub fn slice_of(s: &[char], lo: usize, hi: usize) -> (r: Vec<char>)
    requires
        lo <= hi <= s@.len(),
    ensures
        r@ == s@.subrange(lo as int, hi as int),
{
    let mut r: Vec<char> = Vec::new();
    let mut i = lo;
    while i < hi
        invariant
            lo <= i <= hi <= s@.len(),
            r@ == s@.subrange(lo as int, i as int),
        decreases hi - i,
    {
        r.push(s[i]);
        i = i + 1;
    }
    r
}

/// Equality of two character slices.
pub fn chars_eq(a: &[char], b: &[char]) -> (r: bool)
    ensures
        r == (a@ == b@),
{
    if a.len() != b.len() {
        return false;
    }
    let mut i: usize = 0;
    while i < a.len()
        invariant
            a@.len() == b@.len(),
            0 <= i <= a@.len(),
            forall|j: int| 0 <= j < i ==> a@[j] == b@[j],
        decreases a@.len() - i,
    {
        if a[i] != b[i] {
            return false;
        }
        i = i + 1;
    }
    assert(a@ =~= b@);
    true
}

/// Equality of a character slice with a `&str`.
pub fn eq_str(a: &[char], b: &str) -> (r: bool)
    ensures
        r == (a@ == b@),
{
    let bv = chars_of(b);
    chars_eq(a, bv.as_slice())
}

/// `str::eq_ignore_ascii_case` on character slices.
pub fn chars_eq_ignore_ascii_case(a: &[char], b: &[char]) -> (r: bool)
    ensures
        r == eq_ignore_ascii_case(a@, b@),
{
    if a.len() != b.len() {
        return false;
    }
    let mut i: usize = 0;
    while i < a.len()
        invariant
            a@.len() == b@.len(),
            0 <= i <= a@.len(),
            forall|j: int| 0 <= j < i ==> ascii_lower(#[trigger] a@[j]) == ascii_lower(b@[j]),
        decreases a@.len() - i,
    {
        if lower_char(a[i]) != lower_char(b[i]) {
            return false;
        }
        i = i + 1;
    }
    true
}

pub fn lower_char(c: char) -> (r: char)
    ensures
        r == ascii_lower(c),
{
    if 'A' <= c && c <= 'Z' {
        let u = c as u32 + 32;
        assert(u == (c as int) + 32);
        assert('a' as u32 <= u <= 'z' as u32);
        char_from_ascii(u)
    } else {
        c
    }
}

fn char_from_ascii(u: u32) -> (r: char)
    requires
        u < 128,
    ensures
        r as int == u as int,
{
    let b = u as u8;
    b as char
}


/// The character sequences held by a vector of character vectors.
pub open spec fn seqs(v: Seq<Vec<char>>) -> Seq<Seq<char>> {
    v.map_values(|x: Vec<char>| x@)
}

// ---------------------------------------------------------------------------
// Trimming
// ---------------------------------------------------------------------------

/// `str::trim_start`: drops leading white space.
pub open spec fn trim_start(s: Seq<char>) -> Seq<char>
    decreases s.len(),
{
    if s.len() > 0 && is_ws(s[0]) {
        trim_start(s.drop_first())
    } else {
        s
    }
}

/// `str::trim_end`: drops trailing white space.
pub open spec fn trim_end(s: Seq<char>) -> Seq<char>
    decreases s.len(),
{
    if s.len() > 0 && is_ws(s.last()) {
        trim_end(s.drop_last())
    } else {
        s
    }
}

/// `str::trim`.
pub open spec fn trim(s: Seq<char>) -> Seq<char> {
    trim_end(trim_start(s))
}

proof fn lemma_trim_start_step(s: Seq<char>, i: int)
    requires
        0 <= i < s.len(),
        is_ws(s[i]),
    ensures
        trim_start(s.subrange(i, s.len() as int)) == trim_start(s.subrange(i + 1, s.len() as int)),
{
    assert(s.subrange(i, s.len() as int).drop_first() =~= s.subrange(i + 1, s.len() as int));
}

proof fn lemma_trim_end_step(s: Seq<char>, lo: int, j: int)
    requires
        0 <= lo < j <= s.len(),
        is_ws(s[j - 1]),
    ensures
        trim_end(s.subrange(lo, j)) == trim_end(s.subrange(lo, j - 1)),
{
    assert(s.subrange(lo, j).drop_last() =~= s.subrange(lo, j - 1));
}

/// Bounds `(lo, hi)` such that `s[lo..hi]` is `trim(s)`.
pub fn trim_bounds(s: &[char]) -> (r: (usize, usize))
    ensures
        r.0 <= r.1 <= s@.len(),
        s@.subrange(r.0 as int, r.1 as int) == trim(s@),
{
    let n = s.len();
    let mut lo: usize = 0;
    assert(s@.subrange(0, n as int) =~= s@);
    while lo < n && is_whitespace(s[lo])
        invariant
            n == s@.len(),
            0 <= lo <= n,
            trim_start(s@) == trim_start(s@.subrange(lo as int, n as int)),
        decreases n - lo,
    {
        proof {
            lemma_trim_start_step(s@, lo as int);
        }
        lo = lo + 1;
    }
    let ghost start = s@.subrange(lo as int, n as int);
    assert(trim_start(s@) == start);
    let mut hi: usize = n;
    while hi > lo && is_whitespace(s[hi - 1])
        invariant
            n == s@.len(),
            0 <= lo <= hi <= n,
            trim_end(start) == trim_end(s@.subrange(lo as int, hi as int)),
        decreases hi - lo,
    {
        proof {
            lemma_trim_end_step(s@, lo as int, hi as int);
        }
        hi = hi - 1;
    }
    (lo, hi)
}

/// `str::trim`, copied into a vector.
pub fn trim_chars(s: &[char]) -> (r: Vec<char>)
    ensures
        r@ == trim(s@),
{
    let (lo, hi) = trim_bounds(s);
    slice_of(s, lo, hi)
}

// ---------------------------------------------------------------------------
// Splitting
// ---------------------------------------------------------------------------

/// `str::split(sep)` for a single-character separator: the pieces between
/// separators, empty pieces included; the empty string gives one empty piece.
pub open spec fn split_on(s: Seq<char>, sep: char) -> Seq<Seq<char>>
    decreases s.len(),
{
    if s.len() == 0 {
        seq![Seq::<char>::empty()]
    } else {
        let init = split_on(s.drop_last(), sep);
        if s.last() == sep {
            init.push(Seq::<char>::empty())
        } else {
            init.update(init.len() - 1, init.last().push(s.last()))
        }
    }
}

pub proof fn lemma_split_on_nonempty(s: Seq<char>, sep: char)
    ensures
        split_on(s, sep).len() >= 1,
    decreases s.len(),
{
    if s.len() > 0 {
        lemma_split_on_nonempty(s.drop_last(), sep);
    }
}

/// `str::split(sep).collect()` for a single-character separator.
pub fn split_chars(s: &[char], sep: char) -> (r: Vec<Vec<char>>)
    ensures
        seqs(r@) == split_on(s@, sep),
{
    let mut done: Vec<Vec<char>> = Vec::new();
    let mut cur: Vec<char> = Vec::new();
    let n = s.len();
    let mut i: usize = 0;
    assert(s@.take(0) =~= Seq::<char>::empty());
    while i < n
        invariant
            n == s@.len(),
            0 <= i <= n,
            seqs(done@).push(cur@) == split_on(s@.take(i as int), sep),
        decreases n - i,
    {
        let c = s[i];
        let ghost old_done = seqs(done@);
        let ghost old_cur = cur@;
        assert(s@.take(i as int + 1).drop_last() =~= s@.take(i as int));
        assert(s@.take(i as int + 1).last() == c);
        if c == sep {
            let finished = cur;
            done.push(finished);
            cur = Vec::new();
            assert(seqs(done@) =~= old_done.push(old_cur));
            assert(seqs(done@).push(cur@) =~= old_done.push(old_cur).push(
                Seq::<char>::empty(),
            ));
        } else {
            cur.push(c);
            assert(seqs(done@).push(cur@) =~= old_done.push(old_cur).update(
                old_done.len() as int,
                old_cur.push(c),
            ));
        }
        i = i + 1;
    }
    assert(s@.take(n as int) =~= s@);
    let ghost before = seqs(done@);
    done.push(cur);
    assert(seqs(done@) =~= before.push(cur@));
    done
}

/// Splits on any white space (the pieces of `split(char::is_whitespace)`).
pub open spec fn split_ws(s: Seq<char>) -> Seq<Seq<char>>
    decreases s.len(),
{
    if s.len() == 0 {
        seq![Seq::<char>::empty()]
    } else {
        let init = split_ws(s.drop_last());
        if is_ws(s.last()) {
            init.push(Seq::<char>::empty())
        } else {
            init.update(init.len() - 1, init.last().push(s.last()))
        }
    }
}

/// The non-empty members of `ps`, in order.
pub open spec fn non_empty(ps: Seq<Seq<char>>) -> Seq<Seq<char>>
    decreases ps.len(),
{
    if ps.len() == 0 {
        Seq::empty()
    } else if ps.last().len() > 0 {
        non_empty(ps.drop_last()).push(ps.last())
    } else {
        non_empty(ps.drop_last())
    }
}

/// `str::split_whitespace`.
pub open spec fn words(s: Seq<char>) -> Seq<Seq<char>> {
    non_empty(split_ws(s))
}

proof fn lemma_non_empty_push(ps: Seq<Seq<char>>, p: Seq<char>)
    ensures
        non_empty(ps.push(p)) == if p.len() > 0 {
            non_empty(ps).push(p)
        } else {
            non_empty(ps)
        },
{
    assert(ps.push(p).drop_last() =~= ps);
}

/// `str::split_whitespace().collect()`.
pub fn words_of(s: &[char]) -> (r: Vec<Vec<char>>)
    ensures
        seqs(r@) == words(s@),
{
    let mut out: Vec<Vec<char>> = Vec::new();
    let ghost mut done: Seq<Seq<char>> = Seq::empty();
    let mut cur: Vec<char> = Vec::new();
    let n = s.len();
    let mut i: usize = 0;
    assert(s@.take(0) =~= Seq::<char>::empty());
    while i < n
        invariant
            n == s@.len(),
            0 <= i <= n,
            done.push(cur@) == split_ws(s@.take(i as int)),
            seqs(out@) == non_empty(done),
        decreases n - i,
    {
        let c = s[i];
        let ghost old_done = done;
        let ghost old_cur = cur@;
        assert(s@.take(i as int + 1).drop_last() =~= s@.take(i as int));
        assert(s@.take(i as int + 1).last() == c);
        if is_whitespace(c) {
            proof {
                lemma_non_empty_push(old_done, old_cur);
                done = old_done.push(old_cur);
            }
            if cur.len() > 0 {
                let ghost before = seqs(out@);
                let finished = cur;
                out.push(finished);
                assert(seqs(out@) =~= before.push(old_cur));
            }
            cur = Vec::new();
            assert(done.push(cur@) =~= old_done.push(old_cur).push(Seq::<char>::empty()));
        } else {
            cur.push(c);
            assert(done.push(cur@) =~= old_done.push(old_cur).update(
                old_done.len() as int,
                old_cur.push(c),
            ));
        }
        i = i + 1;
    }
    assert(s@.take(n as int) =~= s@);
    proof {
        lemma_non_empty_push(done, cur@);
    }
    if cur.len() > 0 {
        let ghost before = seqs(out@);
        let c2 = cur;
        out.push(c2);
        assert(seqs(out@) =~= before.push(c2@));
    }
    out
}

/// Drops one trailing `'\r'`, if present.
pub open spec fn strip_cr(s: Seq<char>) -> Seq<char> {
    if s.len() > 0 && s.last() == '\r' {
        s.drop_last()
    } else {
        s
    }
}

/// `str::lines`: pieces ended by `'\n'` lose a trailing `'\r'`; a final piece
/// without a line ending is kept as it is, unless it is empty.
pub open spec fn lines(s: Seq<char>) -> Seq<Seq<char>> {
    let ps = split_on(s, '\n');
    let body = ps.drop_last().map_values(|p: Seq<char>| strip_cr(p));
    if ps.last().len() > 0 {
        body.push(ps.last())
    } else {
        body
    }
}

/// `str::lines().collect()`.
pub fn lines_of(s: &[char]) -> (r: Vec<Vec<char>>)
    ensures
        seqs(r@) == lines(s@),
{
    let ps = split_chars(s, '\n');
    proof {
        lemma_split_on_nonempty(s@, '\n');
    }
    let ghost pv = seqs(ps@);
    let m = ps.len() - 1;
    let mut out: Vec<Vec<char>> = Vec::new();
    let mut k: usize = 0;
    while k < m
        invariant
            pv == seqs(ps@),
            pv == split_on(s@, '\n'),
            m + 1 == pv.len(),
            0 <= k <= m,
            seqs(out@) == pv.take(k as int).map_values(|p: Seq<char>| strip_cr(p)),
        decreases m - k,
    {
        let p = &ps[k];
        let plen = p.len();
        let piece = if plen > 0 && p[plen - 1] == '\r' {
            slice_of(p.as_slice(), 0, plen - 1)
        } else {
            slice_of(p.as_slice(), 0, plen)
        };
        assert(p@ == pv[k as int]);
        assert(piece@ == strip_cr(pv[k as int]));
        let ghost before = seqs(out@);
        out.push(piece);
        assert(seqs(out@) =~= before.push(strip_cr(pv[k as int])));
        assert(pv.take(k as int + 1).map_values(|p: Seq<char>| strip_cr(p)) =~= pv.take(
            k as int,
        ).map_values(|p: Seq<char>| strip_cr(p)).push(strip_cr(pv[k as int])));
        k = k + 1;
    }
    assert(pv.take(m as int) =~= pv.drop_last());
    let last = &ps[m];
    assert(last@ == pv[m as int]);
    assert(pv.last() == pv[m as int]);
    if last.len() > 0 {
        let ghost before = seqs(out@);
        let l = slice_of(last.as_slice(), 0, last.len());
        assert(l@ =~= last@);
        out.push(l);
        assert(seqs(out@) =~= before.push(pv.last()));
    }
    out
}


// ---------------------------------------------------------------------------
// Searching
// ---------------------------------------------------------------------------

/// `pat` occurs in `s` starting at index `i`.
pub open spec fn occurs_at(s: Seq<char>, pat: Seq<char>, i: int) -> bool {
    &&& 0 <= i
    &&& i + pat.len() <= s.len()
    &&& s.subrange(i, i + pat.len()) == pat
}

/// The first index `>= i` at which `pat` occurs.
pub open spec fn find_from(s: Seq<char>, pat: Seq<char>, i: int) -> Option<int>
    decreases s.len() + 1 - i,
{
    if i < 0 || i + pat.len() > s.len() {
        None
    } else if occurs_at(s, pat, i) {
        Some(i)
    } else {
        find_from(s, pat, i + 1)
    }
}

/// `str::find(pat)`: the first index at which `pat` occurs.
pub open spec fn find(s: Seq<char>, pat: Seq<char>) -> Option<int> {
    find_from(s, pat, 0)
}

/// `str::contains(pat)`.
pub open spec fn contains(s: Seq<char>, pat: Seq<char>) -> bool {
    find(s, pat) is Some
}

/// The last index `< j` holding `c`.
pub open spec fn rfind_before(s: Seq<char>, c: char, j: int) -> Option<int>
    decreases j,
{
    if j <= 0 {
        None
    } else if s[j - 1] == c {
        Some(j - 1)
    } else {
        rfind_before(s, c, j - 1)
    }
}

/// `str::rfind(c)`: the last index holding `c`.
pub open spec fn rfind(s: Seq<char>, c: char) -> Option<int> {
    rfind_before(s, c, s.len() as int)
}

pub proof fn lemma_find_from_found(s: Seq<char>, pat: Seq<char>, i: int)
    requires
        0 <= i,
    ensures
        find_from(s, pat, i) matches Some(k) ==> {
            &&& i <= k
            &&& occurs_at(s, pat, k)
            &&& forall|j: int| i <= j < k ==> !occurs_at(s, pat, j)
        },
        find_from(s, pat, i) is None ==> forall|j: int| i <= j ==> !occurs_at(s, pat, j),
    decreases s.len() + 1 - i,
{
    if i + pat.len() > s.len() {
    } else if occurs_at(s, pat, i) {
    } else {
        lemma_find_from_found(s, pat, i + 1);
    }
}

pub proof fn lemma_rfind_before(s: Seq<char>, c: char, j: int)
    requires
        j <= s.len(),
    ensures
        rfind_before(s, c, j) matches Some(k) ==> {
            &&& 0 <= k < j
            &&& s[k] == c
            &&& forall|m: int| k < m < j ==> s[m] != c
        },
        rfind_before(s, c, j) is None ==> forall|m: int| 0 <= m < j ==> s[m] != c,
    decreases j,
{
    if j > 0 && s[j - 1] != c {
        lemma_rfind_before(s, c, j - 1);
    }
}

/// Whether `pat` occurs in `s` at index `i` (checked in bounds).
pub fn matches_at(s: &[char], pat: &[char], i: usize) -> (r: bool)
    ensures
        r == occurs_at(s@, pat@, i as int),
{
    let n = s.len();
    if i > n || pat.len() > n - i {
        return false;
    }
    let mut k: usize = 0;
    while k < pat.len()
        invariant
            n == s@.len(),
            i + pat@.len() <= n,
            0 <= k <= pat@.len(),
            forall|m: int| 0 <= m < k ==> s@[i + m] == pat@[m],
        decreases pat@.len() - k,
    {
        if s[i + k] != pat[k] {
            assert(s@.subrange(i as int, i + pat@.len())[k as int] != pat@[k as int]);
            return false;
        }
        k = k + 1;
    }
    assert(s@.subrange(i as int, i + pat@.len()) =~= pat@);
    true
}

/// `str::find(pat)` on characters.
pub fn find_chars(s: &[char], pat: &[char]) -> (r: Option<usize>)
    ensures
        r matches Some(k) ==> find(s@, pat@) == Some(k as int),
        r is None ==> find(s@, pat@) is None,
{
    if pat.len() > s.len() {
        return None;
    }
    let last = s.len() - pat.len();
    let mut i: usize = 0;
    while i < last
        invariant
            last + pat@.len() == s@.len(),
            0 <= i <= last,
            find(s@, pat@) == find_from(s@, pat@, i as int),
        decreases last - i,
    {
        if matches_at(s, pat, i) {
            return Some(i);
        }
        i = i + 1;
    }
    if matches_at(s, pat, last) {
        Some(last)
    } else {
        assert(find_from(s@, pat@, last as int + 1) is None);
        None
    }
}

/// `str::rfind(c)` on characters.
pub fn rfind_char(s: &[char], c: char) -> (r: Option<usize>)
    ensures
        match r {
            Some(k) => rfind(s@, c) == Some(k as int) && k < s@.len(),
            None => rfind(s@, c) is None,
        },
{
    let mut j: usize = s.len();
    while j > 0
        invariant
            0 <= j <= s@.len(),
            rfind(s@, c) == rfind_before(s@, c, j as int),
        decreases j,
    {
        if s[j - 1] == c {
            return Some(j - 1);
        }
        j = j - 1;
    }
    None
}

/// `str::starts_with(pat)`.
pub fn starts_with(s: &[char], pat: &[char]) -> (r: bool)
    ensures
        r == pat@.is_prefix_of(s@),
{
    let r = matches_at(s, pat, 0);
    proof {
        if r {
            assert(s@.subrange(0, pat@.len() as int) == pat@);
        }
        if pat@.is_prefix_of(s@) {
            assert(s@.subrange(0, pat@.len() as int) =~= s@.take(pat@.len() as int));
        }
    }
    r
}

/// `str::ends_with(pat)`.
pub fn ends_with(s: &[char], pat: &[char]) -> (r: bool)
    ensures
        r == pat@.is_suffix_of(s@),
{
    if pat.len() > s.len() {
        return false;
    }
    let at = s.len() - pat.len();
    let r = matches_at(s, pat, at);
    proof {
        assert(s@.subrange(at as int, s@.len() as int) =~= s@.skip(at as int));
    }
    r
}

/// `str::contains(pat)` on characters.
pub fn contains_chars(s: &[char], pat: &[char]) -> (r: bool)
    ensures
        r == contains(s@, pat@),
{
    find_chars(s, pat).is_some()
}

// ---------------------------------------------------------------------------
// Numbers
// ---------------------------------------------------------------------------

pub open spec fn all_digits(d: Seq<char>) -> bool {
    forall|i: int| 0 <= i < d.len() ==> is_digit(#[trigger] d[i])
}

/// The value of a run of decimal digits.
pub open spec fn digits_value(d: Seq<char>) -> nat
    decreases d.len(),
{
    if d.len() == 0 {
        0
    } else {
        digits_value(d.drop_last()) * 10 + digit_value(d.last())
    }
}

/// `FromStr` for an unsigned integer type whose largest value is `max`: an
/// optional `'+'`, then one or more decimal digits, whose value is at most `max`.
pub open spec fn parse_unsigned(s: Seq<char>, max: nat) -> Option<nat> {
    let d = if s.len() > 0 && s[0] == '+' {
        s.drop_first()
    } else {
        s
    };
    if d.len() > 0 && all_digits(d) && digits_value(d) <= max {
        Some(digits_value(d))
    } else {
        None
    }
}

/// `str::parse::<u16>()`.
pub open spec fn parse_u16(s: Seq<char>) -> Option<u16> {
    match parse_unsigned(s, 0xffff) {
        Some(v) => Some(v as u16),
        None => None,
    }
}

/// `str::parse::<u32>()`.
pub open spec fn parse_u32(s: Seq<char>) -> Option<u32> {
    match parse_unsigned(s, 0xffff_ffff) {
        Some(v) => Some(v as u32),
        None => None,
    }
}

/// `str::parse::<i32>()`: an optional sign, then one or more decimal digits,
/// whose value fits in `i32`.
pub open spec fn parse_i32(s: Seq<char>) -> Option<i32> {
    if s.len() > 0 && s[0] == '-' {
        let d = s.drop_first();
        if d.len() > 0 && all_digits(d) && digits_value(d) <= 0x8000_0000 {
            Some((0 - digits_value(d)) as i32)
        } else {
            None
        }
    } else {
        match parse_unsigned(s, 0x7fff_ffff) {
            Some(v) => Some(v as i32),
            None => None,
        }
    }
}

proof fn lemma_digits_value_step(d: Seq<char>, i: int)
    requires
        0 <= i < d.len(),
    ensures
        digits_value(d.take(i + 1)) == digits_value(d.take(i)) * 10 + digit_value(d[i]),
{
    assert(d.take(i + 1).drop_last() =~= d.take(i));
}

proof fn lemma_digits_value_mono(d: Seq<char>, i: int)
    requires
        0 <= i <= d.len(),
    ensures
        digits_value(d.take(i)) <= digits_value(d),
    decreases d.len() - i,
{
    if i < d.len() {
        lemma_digits_value_mono(d, i + 1);
        lemma_digits_value_step(d, i);
    } else {
        assert(d.take(i) =~= d);
    }
}

/// Parses `s` as an optional `'+'` and decimal digits with value at most `max`.
fn parse_unsigned_exec(s: &[char], max: u64) -> (r: Option<u64>)
    requires
        max < 0x1_0000_0000,
    ensures
        r matches Some(v) ==> parse_unsigned(s@, max as nat) == Some(v as nat),
        r is None ==> parse_unsigned(s@, max as nat) is None,
{
    let n = s.len();
    let start: usize = if n > 0 && s[0] == '+' {
        1
    } else {
        0
    };
    let ghost d = if s@.len() > 0 && s@[0] == '+' {
        s@.drop_first()
    } else {
        s@
    };
    assert(d =~= s@.subrange(start as int, n as int));
    if start >= n {
        assert(d.len() == 0);
        return None;
    }
    let mut acc: u64 = 0;
    let mut i: usize = start;
    assert(d.take(0) =~= Seq::<char>::empty());
    while i < n
        invariant
            start <= i <= n,
            n == s@.len(),
            d == s@.subrange(start as int, n as int),
            d == (if s@.len() > 0 && s@[0] == '+' {
                s@.drop_first()
            } else {
                s@
            }),
            d.len() > 0,
            max < 0x1_0000_0000,
            acc <= max,
            acc == digits_value(d.take(i - start)),
            all_digits(d.take(i - start)),
        decreases n - i,
    {
        let c = s[i];
        if !('0' <= c && c <= '9') {
            assert(!is_digit(d[i - start]));
            assert(!all_digits(d));
            return None;
        }
        proof {
            lemma_digits_value_step(d, i - start);
            assert(d.take(i - start + 1) =~= d.take(i - start).push(c));
        }
        let dv = (c as u32 - '0' as u32) as u64;
        acc = acc * 10 + dv;
        i = i + 1;
        if acc > max {
            proof {
                lemma_digits_value_mono(d, i - start);
            }
            return None;
        }
    }
    assert(d.take(n - start) =~= d);
    Some(acc)
}

/// `str::parse::<u16>()` on characters.
pub fn parse_u16_chars(s: &[char]) -> (r: Option<u16>)
    ensures
        r == parse_u16(s@),
{
    match parse_unsigned_exec(s, 0xffff) {
        Some(v) => Some(v as u16),
        None => None,
    }
}

/// `str::parse::<u32>()` on characters.
pub fn parse_u32_chars(s: &[char]) -> (r: Option<u32>)
    ensures
        r == parse_u32(s@),
{
    match parse_unsigned_exec(s, 0xffff_ffff) {
        Some(v) => Some(v as u32),
        None => None,
    }
}

/// `str::parse::<i32>()` on characters.
pub fn parse_i32_chars(s: &[char]) -> (r: Option<i32>)
    ensures
        r == parse_i32(s@),
{
    let n = s.len();
    if n > 0 && s[0] == '-' {
        let rest = slice_of(s, 1, n);
        assert(rest@ =~= s@.drop_first());
        if rest.len() == 0 {
            return None;
        }
        match parse_unsigned_exec(rest.as_slice(), 0x8000_0000) {
            Some(v) => {
                if rest[0] == '+' {
                    return None;
                }
                let r = (0 - (v as i64)) as i32;
                Some(r)
            },
            None => {
                None
            },
        }
    } else {
        match parse_unsigned_exec(s, 0x7fff_ffff) {
            Some(v) => Some(v as i32),
            None => None,
        }
    }
}

/// The longest prefix of decimal digits (`chars().take_while(is_ascii_digit)`).
pub open spec fn leading_digits(s: Seq<char>) -> Seq<char>
    decreases s.len(),
{
    if s.len() > 0 && is_digit(s[0]) {
        seq![s[0]] + leading_digits(s.drop_first())
    } else {
        Seq::empty()
    }
}

proof fn lemma_leading_digits_step(s: Seq<char>, i: int)
    requires
        0 <= i < s.len(),
        is_digit(s[i]),
    ensures
        s.take(i) + leading_digits(s.skip(i)) == s.take(i + 1) + leading_digits(s.skip(i + 1)),
{
    assert(s.skip(i).drop_first() =~= s.skip(i + 1));
    assert(s.take(i + 1) =~= s.take(i) + seq![s[i]]);
}

/// `chars().take_while(char::is_ascii_digit)` on `s[from..]`.
pub fn leading_digits_from(s: &[char], from: usize) -> (r: Vec<char>)
    requires
        from <= s@.len(),
    ensures
        r@ == leading_digits(s@.skip(from as int)),
{
    let n = s.len();
    let mut i: usize = from;
    let ghost t = s@.skip(from as int);
    assert(t.take(0) =~= Seq::<char>::empty());
    assert(t.skip(0) =~= t);
    while i < n && '0' <= s[i] && s[i] <= '9'
        invariant
            from <= i <= n,
            n == s@.len(),
            t == s@.skip(from as int),
            t.take(i - from) + leading_digits(t.skip(i - from)) == leading_digits(t),
        decreases n - i,
    {
        proof {
            lemma_leading_digits_step(t, i - from);
        }
        i = i + 1;
    }
    assert(!(t.skip(i - from).len() > 0 && is_digit(t.skip(i - from)[0])));
    assert(t.take(i - from) + Seq::<char>::empty() =~= t.take(i - from));
    let r = slice_of(s, from, i);
    assert(r@ =~= t.take(i - from));
    r
}

/// Decimal digits of `n`, most significant first.
pub open spec fn dec(n: nat) -> Seq<char>
    decreases n,
{
    if n < 10 {
        seq![digit_char(n)]
    } else {
        dec(n / 10).push(digit_char(n % 10))
    }
}

pub open spec fn digit_char(d: nat) -> char {
    (('0' as int) + d) as char
}

/// Decimal text of a signed integer (`i32::to_string`).
pub open spec fn dec_signed(n: int) -> Seq<char> {
    if n < 0 {
        seq!['-'] + dec((0 - n) as nat)
    } else {
        dec(n as nat)
    }
}

fn digit_str(d: u64) -> (r: &'static str)
    requires
        d < 10,
    ensures
        r@ == seq![digit_char(d as nat)],
{
    proof {
        reveal_strlit("0");
        reveal_strlit("1");
        reveal_strlit("2");
        reveal_strlit("3");
        reveal_strlit("4");
        reveal_strlit("5");
        reveal_strlit("6");
        reveal_strlit("7");
        reveal_strlit("8");
        reveal_strlit("9");
    }
    if d == 0 {
        "0"
    } else if d == 1 {
        "1"
    } else if d == 2 {
        "2"
    } else if d == 3 {
        "3"
    } else if d == 4 {
        "4"
    } else if d == 5 {
        "5"
    } else if d == 6 {
        "6"
    } else if d == 7 {
        "7"
    } else if d == 8 {
        "8"
    } else {
        "9"
    }
}

/// Appends the decimal text of `n` to `out`.
pub fn push_dec(out: &mut String, n: u64)
    ensures
        final(out)@ == old(out)@ + dec(n as nat),
    decreases n,
{
    if n < 10 {
        out.append(digit_str(n));
    } else {
        push_dec(out, n / 10);
        out.append(digit_str(n % 10));
        assert(dec(n as nat) == dec((n / 10) as nat).push(digit_char((n % 10) as nat)));
        assert(old(out)@ + dec((n / 10) as nat) + seq![digit_char((n % 10) as nat)] =~= old(
            out,
        )@ + dec(n as nat));
    }
}

/// Appends the decimal text of a signed `n` to `out`.
pub fn push_dec_signed(out: &mut String, n: i64)
    requires
        n > i64::MIN,
    ensures
        final(out)@ == old(out)@ + dec_signed(n as int),
{
    if n < 0 {
        out.append("-");
        proof {
            reveal_strlit("-");
        }
        let m = (0 - n) as u64;
        push_dec(out, m);
        assert(old(out)@ + seq!['-'] + dec(m as nat) =~= old(out)@ + dec_signed(n as int));
    } else {
        push_dec(out, n as u64);
    }
}


// ---------------------------------------------------------------------------
// Token lists
// ---------------------------------------------------------------------------

/// The first index `>= i` of `x` in `s`.
pub open spec fn index_from<A>(s: Seq<A>, x: A, i: int) -> Option<int>
    decreases s.len() - i,
{
    if i < 0 || i >= s.len() {
        None
    } else if s[i] == x {
        Some(i)
    } else {
        index_from(s, x, i + 1)
    }
}

/// `iter().position(|t| t == x)`: the first index of `x` in `s`.
pub open spec fn first_index<A>(s: Seq<A>, x: A) -> Option<int> {
    index_from(s, x, 0)
}

/// The first index of a token equal to `t`.
pub fn position_of(toks: &Vec<Vec<char>>, t: &str) -> (r: Option<usize>)
    ensures
        r matches Some(i) ==> first_index(seqs(toks@), t@) == Some(i as int) && i < toks@.len(),
        r is None ==> first_index(seqs(toks@), t@) is None,
{
    let tv = chars_of(t);
    let mut i: usize = 0;
    while i < toks.len()
        invariant
            0 <= i <= toks@.len(),
            tv@ == t@,
            first_index(seqs(toks@), t@) == index_from(seqs(toks@), t@, i as int),
        decreases toks@.len() - i,
    {
        assert(seqs(toks@)[i as int] == toks@[i as int]@);
        if chars_eq(toks[i].as_slice(), tv.as_slice()) {
            return Some(i);
        }
        i = i + 1;
    }
    None
}

/// `str::to_lowercase`, whose result is named by `lowercase`.
pub uninterp spec fn lowercase(s: Seq<char>) -> Seq<char>;

/// Calls `str::to_lowercase`. Full Unicode lower-casing is a function of the
/// text alone; the contract names its result and claims nothing more of it.
#[verifier::external_body]
pub(crate) fn to_lowercase(s: &str) -> (r: String)
    ensures
        r@ == lowercase(s@),
{
    s.to_lowercase()
}


// ---------------------------------------------------------------------------
// Text order
// ---------------------------------------------------------------------------

/// Lexicographic order of texts by code point, which is the byte order of
/// their UTF-8 encodings (the order of `String` and `str`).
pub open spec fn text_lt(a: Seq<char>, b: Seq<char>) -> bool
    decreases a.len(),
{
    if a.len() == 0 {
        b.len() > 0
    } else if b.len() == 0 {
        false
    } else if a[0] != b[0] {
        a[0] < b[0]
    } else {
        text_lt(a.drop_first(), b.drop_first())
    }
}

pub proof fn lemma_text_lt_irreflexive(a: Seq<char>)
    ensures
        !text_lt(a, a),
    decreases a.len(),
{
    if a.len() > 0 {
        lemma_text_lt_irreflexive(a.drop_first());
    }
}

pub proof fn lemma_text_lt_transitive(a: Seq<char>, b: Seq<char>, c: Seq<char>)
    requires
        text_lt(a, b),
        text_lt(b, c),
    ensures
        text_lt(a, c),
    decreases a.len(),
{
    if a.len() > 0 && b.len() > 0 && c.len() > 0 && a[0] == b[0] && b[0] == c[0] {
        lemma_text_lt_transitive(a.drop_first(), b.drop_first(), c.drop_first());
    }
}

pub proof fn lemma_text_lt_total(a: Seq<char>, b: Seq<char>)
    requires
        a != b,
    ensures
        text_lt(a, b) || text_lt(b, a),
    decreases a.len(),
{
    if a.len() > 0 && b.len() > 0 && a[0] == b[0] {
        if a.drop_first() == b.drop_first() {
            assert(a =~= seq![a[0]] + a.drop_first());
            assert(b =~= seq![b[0]] + b.drop_first());
        }
        lemma_text_lt_total(a.drop_first(), b.drop_first());
    } else if a.len() == 0 && b.len() == 0 {
        assert(a =~= b);
    }
}

proof fn lemma_text_lt_step(a: Seq<char>, b: Seq<char>, i: int)
    requires
        0 <= i <= a.len(),
        i <= b.len(),
        a.take(i) == b.take(i),
    ensures
        text_lt(a, b) == text_lt(a.skip(i), b.skip(i)),
    decreases i,
{
    if i > 0 {
        assert(a.take(i - 1) =~= a.take(i).take(i - 1));
        assert(b.take(i - 1) =~= b.take(i).take(i - 1));
        lemma_text_lt_step(a, b, i - 1);
        assert(a.take(i)[i - 1] == a[i - 1]);
        assert(b.take(i)[i - 1] == b[i - 1]);
        assert(a[i - 1] == b[i - 1]);
        assert(a.skip(i - 1).drop_first() =~= a.skip(i));
        assert(b.skip(i - 1).drop_first() =~= b.skip(i));
        assert(a.skip(i - 1).len() > 0 && b.skip(i - 1).len() > 0);
        assert(a.skip(i - 1)[0] == b.skip(i - 1)[0]);
    } else {
        assert(a.skip(0) =~= a);
        assert(b.skip(0) =~= b);
    }
}

/// `a < b` for texts.
pub fn chars_lt(a: &[char], b: &[char]) -> (r: bool)
    ensures
        r == text_lt(a@, b@),
{
    let mut i: usize = 0;
    assert(a@.take(0) =~= b@.take(0));
    while i < a.len() && i < b.len() && a[i] == b[i]
        invariant
            0 <= i <= a@.len(),
            i <= b@.len(),
            a@.take(i as int) == b@.take(i as int),
        decreases a@.len() - i,
    {
        assert(a@.take(i as int + 1) =~= a@.take(i as int).push(a@[i as int]));
        assert(b@.take(i as int + 1) =~= b@.take(i as int).push(b@[i as int]));
        i = i + 1;
    }
    proof {
        lemma_text_lt_step(a@, b@, i as int);
    }
    if i == a.len() {
        i < b.len()
    } else if i == b.len() {
        false
    } else {
        a[i] < b[i]
    }
}

} // verus!
