//! Splitting a pattern into fragments, and matching file names against them.

use vstd::prelude::*;
use vstd::string::*;

use crate::text::chars_of;

verus! {

/// The wildcard character of a pattern.
pub const WILDCARD: char = '*';

/// `[cur]` when `cur` is non-empty, else nothing: an empty fragment is dropped.
pub open spec fn nonempty(cur: Seq<char>) -> Seq<Seq<char>> {
    if cur.len() > 0 {
        seq![cur]
    } else {
        Seq::empty()
    }
}

/// The fragments of `p`, given that `cur` was read since the last wildcard.
pub open spec fn fragments_from(p: Seq<char>, cur: Seq<char>) -> Seq<Seq<char>>
    decreases p.len(),
{
    if p.len() == 0 {
        nonempty(cur)
    } else if p[0] == WILDCARD {
        nonempty(cur) + fragments_from(p.drop_first(), Seq::empty())
    } else {
        fragments_from(p.drop_first(), cur.push(p[0]))
    }
}

/// The pattern `p` split on the wildcard, with empty pieces dropped.
pub open spec fn fragments(p: Seq<char>) -> Seq<Seq<char>> {
    fragments_from(p, Seq::empty())
}

/// The views of a list of character vectors.
pub open spec fn views(v: Seq<Vec<char>>) -> Seq<Seq<char>> {
    v.map_values(|x: Vec<char>| x@)
}

/// Splits `p` on the wildcard and drops the empty pieces.
pub fn split_fragments(p: &Vec<char>) -> (r: Vec<Vec<char>>)
    ensures
        views(r@) == fragments(p@),
        forall|k: int| 0 <= k < r@.len() ==> (#[trigger] r@[k])@.len() > 0,
{
    let mut r: Vec<Vec<char>> = Vec::new();
    let mut cur: Vec<char> = Vec::new();
    let mut i: usize = 0;
    assert(p@.skip(0) =~= p@);
    assert(views(r@) + fragments(p@) =~= fragments(p@));
    while i < p.len()
        invariant
            i <= p@.len(),
            views(r@) + fragments_from(p@.skip(i as int), cur@) == fragments(p@),
            forall|k: int| 0 <= k < r@.len() ==> (#[trigger] r@[k])@.len() > 0,
        decreases p@.len() - i,
    {
        let ghost rest = p@.skip(i as int);
        let ghost old_r = r@;
        let ghost old_cur = cur@;
        assert(rest.drop_first() =~= p@.skip(i + 1));
        let c = p[i];
        if c == WILDCARD {
            if cur.len() > 0 {
                r.push(cur);
            }
            assert(views(r@) =~= views(old_r) + nonempty(old_cur));
            cur = Vec::new();
            assert(views(r@) + fragments_from(p@.skip(i + 1), cur@) =~= views(old_r)
                + fragments_from(rest, old_cur));
        } else {
            cur.push(c);
        }
        i = i + 1;
    }
    let ghost old_r = r@;
    assert(p@.skip(i as int) =~= Seq::<char>::empty());
    if cur.len() > 0 {
        r.push(cur);
    }
    assert(views(r@) =~= views(old_r) + fragments_from(p@.skip(i as int), cur@));
    r
}

/// `f` occurs in `s` starting at offset `i`.
pub open spec fn occurs_at(s: Seq<char>, f: Seq<char>, i: int) -> bool {
    0 <= i && i + f.len() <= s.len() && s.subrange(i, i + f.len()) == f
}

/// The leftmost offset at or after `lo` at which `f` occurs in `s`.
pub open spec fn find_from(s: Seq<char>, f: Seq<char>, lo: int) -> Option<int>
    decreases s.len() - lo,
{
    if lo < 0 || lo + f.len() > s.len() {
        None
    } else if occurs_at(s, f, lo) {
        Some(lo)
    } else if lo < s.len() {
        find_from(s, f, lo + 1)
    } else {
        None
    }
}

/// Greedy matching of the fragments `fs` against `s`: each fragment is found
/// at its leftmost occurrence at or after `lo`, and the text from `start` up
/// to that occurrence is captured. The next fragment must then begin strictly
/// after the end of this one, and its capture starts at that end.
pub open spec fn match_from(s: Seq<char>, fs: Seq<Seq<char>>, start: int, lo: int) -> Option<
    Seq<Seq<char>>,
>
    decreases fs.len(),
{
    if fs.len() == 0 {
        Some(Seq::empty())
    } else {
        match find_from(s, fs[0], lo) {
            None => None,
            Some(j) => {
                let e = j + fs[0].len();
                match match_from(s, fs.drop_first(), e, e + 1) {
                    None => None,
                    Some(rest) => Some(seq![s.subrange(start, j)] + rest),
                }
            },
        }
    }
}

/// The captures of file name `s` under pattern `p`, or `None` when it does not match.
pub open spec fn captures(p: Seq<char>, s: Seq<char>) -> Option<Seq<Seq<char>>> {
    match_from(s, fragments(p), 0, 0)
}

/// `pre` put in front of a match result.
pub open spec fn prepend(pre: Seq<Seq<char>>, r: Option<Seq<Seq<char>>>) -> Option<
    Seq<Seq<char>>,
> {
    match r {
        None => None,
        Some(rest) => Some(pre + rest),
    }
}

/// The views of a list of strings.
pub open spec fn string_views(v: Seq<String>) -> Seq<Seq<char>> {
    v.map_values(|x: String| x@)
}

/// The view of an optional list of strings.
pub open spec fn opt_string_views(r: Option<Vec<String>>) -> Option<Seq<Seq<char>>> {
    match r {
        None => None,
        Some(v) => Some(string_views(v@)),
    }
}

/// Whether `f` occurs in `s` at offset `i`.
pub(crate) fn occurs(s: &Vec<char>, f: &Vec<char>, i: usize) -> (b: bool)
    requires
        i + f@.len() <= s@.len(),
    ensures
        b == occurs_at(s@, f@, i as int),
{
    let n = s.len();
    let mut k: usize = 0;
    while k < f.len()
        invariant
            n == s@.len(),
            i + f@.len() <= s@.len(),
            k <= f@.len(),
            forall|m: int| 0 <= m < k ==> s@[i + m] == f@[m],
        decreases f@.len() - k,
    {
        if s[i + k] != f[k] {
            assert(s@.subrange(i as int, i + f@.len())[k as int] != f@[k as int]);
            return false;
        }
        k = k + 1;
    }
    assert(s@.subrange(i as int, i + f@.len()) =~= f@);
    true
}

/// The leftmost offset at or after `lo` at which the non-empty `f` occurs in `s`.
fn find(s: &Vec<char>, f: &Vec<char>, lo: usize) -> (r: Option<usize>)
    requires
        f@.len() > 0,
    ensures
        match r {
            Some(j) => find_from(s@, f@, lo as int) == Some(j as int),
            None => find_from(s@, f@, lo as int) is None,
        },
{
    let mut i: usize = lo;
    while i <= s.len() && f.len() <= s.len() - i
        invariant
            f@.len() > 0,
            lo <= i,
            find_from(s@, f@, lo as int) == find_from(s@, f@, i as int),
        decreases s@.len() + 1 - i,
    {
        if occurs(s, f, i) {
            return Some(i);
        }
        i = i + 1;
    }
    None
}

/// `find_from` gives the leftmost occurrence at or after `lo`, or none at all.
pub proof fn lemma_find_from_leftmost(s: Seq<char>, f: Seq<char>, lo: int)
    requires
        0 <= lo,
    ensures
        match find_from(s, f, lo) {
            Some(j) => lo <= j && occurs_at(s, f, j) && forall|k: int|
                lo <= k < j ==> !occurs_at(s, f, k),
            None => forall|k: int| lo <= k ==> !occurs_at(s, f, k),
        },
    decreases s.len() - lo,
{
    if lo + f.len() > s.len() {
    } else if occurs_at(s, f, lo) {
    } else if lo < s.len() {
        lemma_find_from_leftmost(s, f, lo + 1);
    } else {
        assert(s.subrange(lo, lo + f.len()) =~= f);
    }
}

/// Matches `file_name` against `pattern`: `Some` with one capture per
/// fragment of the pattern, in order, or `None` when some fragment has no
/// occurrence where the greedy scan looks for it.
pub fn match_captures(pattern: &str, file_name: &str) -> (r: Option<Vec<String>>)
    ensures
        opt_string_views(r) == captures(pattern@, file_name@),
{
    let p = chars_of(pattern);
    let s = chars_of(file_name);
    let fs = split_fragments(&p);
    let ghost fsv = views(fs@);
    let mut caps: Vec<String> = Vec::new();
    let mut start: usize = 0;
    let mut lo: usize = 0;
    let ghost mut spec_lo: int = 0;
    let n = s.len();
    let mut k: usize = 0;
    assert(fsv.skip(0) =~= fsv);
    assert(string_views(caps@) =~= Seq::<Seq<char>>::empty());
    assert(prepend(Seq::empty(), captures(p@, s@)) =~= captures(p@, s@)) by {
        match captures(p@, s@) {
            None => {},
            Some(c) => { assert(Seq::<Seq<char>>::empty() + c =~= c); },
        }
    }
    while k < fs.len()
        invariant
            s@ == file_name@,
            n == s@.len(),
            fsv == views(fs@),
            fsv == fragments(pattern@),
            forall|m: int| 0 <= m < fs@.len() ==> (#[trigger] fs@[m])@.len() > 0,
            k <= fs@.len(),
            start <= lo <= s@.len(),
            spec_lo == lo || (lo == s@.len() && spec_lo == s@.len() + 1),
            captures(pattern@, file_name@) == prepend(
                string_views(caps@),
                match_from(s@, fsv.skip(k as int), start as int, spec_lo),
            ),
        decreases fs@.len() - k,
    {
        let f = &fs[k];
        let ghost rest = fsv.skip(k as int);
        assert(rest[0] == f@);
        assert(rest.drop_first() =~= fsv.skip(k + 1));
        match find(&s, f, lo) {
            None => {
                assert(find_from(s@, f@, spec_lo) is None);
                return None;
            },
            Some(j) => {
                proof {
                    lemma_find_from_leftmost(s@, f@, lo as int);
                }
                assert(spec_lo == lo);
                let cap = String::from_str(file_name.substring_char(start, j));
                let ghost old_caps = string_views(caps@);
                let ghost cap_v = cap@;
                let e = j + f.len();
                caps.push(cap);
                assert(string_views(caps@) =~= old_caps + seq![cap_v]);
                let ghost tail = match_from(s@, fsv.skip(k + 1), e as int, e + 1);
                assert(prepend(old_caps, prepend(seq![cap_v], tail)) == prepend(
                    old_caps + seq![cap_v],
                    tail,
                )) by {
                    match tail {
                        None => {},
                        Some(t) => { assert(old_caps + (seq![cap_v] + t) =~= old_caps + seq![cap_v] + t); },
                    }
                }
                start = e;
                lo = if e < s.len() { e + 1 } else { e };
                proof {
                    spec_lo = e + 1;
                }
            },
        }
        k = k + 1;
    }
    assert(fsv.skip(k as int) =~= Seq::<Seq<char>>::empty());
    assert(string_views(caps@) + Seq::<Seq<char>>::empty() =~= string_views(caps@));
    Some(caps)
}

/// A pattern made of wildcards alone, the empty one included, has no
/// fragments.
pub proof fn lemma_only_wildcards_no_fragments(p: Seq<char>, cur: Seq<char>)
    requires
        cur.len() == 0,
        forall|i: int| 0 <= i < p.len() ==> p[i] == WILDCARD,
    ensures
        fragments_from(p, cur) == Seq::<Seq<char>>::empty(),
    decreases p.len(),
{
    if p.len() > 0 {
        lemma_only_wildcards_no_fragments(p.drop_first(), Seq::empty());
        assert(nonempty(cur) =~= Seq::<Seq<char>>::empty());
        assert(fragments_from(p, cur) =~= Seq::<Seq<char>>::empty());
    }
}

/// A pattern made of wildcards alone (the empty pattern too) matches every
/// file name, with no capture.
pub proof fn lemma_only_wildcards_match_all(pattern: Seq<char>, file_name: Seq<char>)
    requires
        forall|i: int| 0 <= i < pattern.len() ==> pattern[i] == WILDCARD,
    ensures
        fragments(pattern).len() == 0,
        captures(pattern, file_name) == Some(Seq::<Seq<char>>::empty()),
{
    lemma_only_wildcards_no_fragments(pattern, Seq::empty());
}

/// A successful match has exactly one capture per fragment of the pattern.
pub proof fn lemma_capture_count(pattern: Seq<char>, file_name: Seq<char>)
    ensures
        match captures(pattern, file_name) {
            Some(c) => c.len() == fragments(pattern).len(),
            None => true,
        },
{
    lemma_match_from_count(file_name, fragments(pattern), 0, 0);
}

/// `match_from` yields one capture per fragment when it succeeds.
pub proof fn lemma_match_from_count(s: Seq<char>, fs: Seq<Seq<char>>, start: int, lo: int)
    ensures
        match match_from(s, fs, start, lo) {
            Some(c) => c.len() == fs.len(),
            None => true,
        },
    decreases fs.len(),
{
    if fs.len() > 0 {
        match find_from(s, fs[0], lo) {
            None => {},
            Some(j) => {
                let e = j + fs[0].len();
                lemma_match_from_count(s, fs.drop_first(), e, e + 1);
            },
        }
    }
}

} // verus!
