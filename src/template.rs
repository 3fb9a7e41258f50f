//! Filling the `$n` tokens of a template with captures.

use vstd::prelude::*;
use vstd::string::*;

use crate::pattern::{occurs, occurs_at, string_views};
use crate::text::chars_of;

verus! {

/// The ten decimal digits, in order.
pub open spec fn digits() -> Seq<char> {
    seq!['0', '1', '2', '3', '4', '5', '6', '7', '8', '9']
}

/// The decimal notation of `n`, without leading zeros.
pub open spec fn decimal(n: nat) -> Seq<char>
    decreases n,
{
    if n < 10 {
        seq![digits()[n as int]]
    } else {
        decimal(n / 10).push(digits()[(n % 10) as int])
    }
}

/// The placeholder token `$n` for the capture with ordinal `n`.
pub open spec fn token(n: nat) -> Seq<char> {
    seq!['$'] + decimal(n)
}

/// `s` with every occurrence of the non-empty `pat` replaced by `rep`, the
/// occurrences taken left to right without overlap.
pub open spec fn replace_all(s: Seq<char>, pat: Seq<char>, rep: Seq<char>) -> Seq<char>
    decreases s.len(),
{
    if pat.len() == 0 || s.len() < pat.len() {
        s
    } else if s.subrange(0, pat.len() as int) == pat {
        rep + replace_all(s.skip(pat.len() as int), pat, rep)
    } else {
        seq![s[0]] + replace_all(s.drop_first(), pat, rep)
    }
}

/// The template `t` after the captures `caps` were substituted for `$1`,
/// `$2`, ... in ascending order, one whole-string replacement each.
pub open spec fn build(t: Seq<char>, caps: Seq<Seq<char>>) -> Seq<char>
    decreases caps.len(),
{
    if caps.len() == 0 {
        t
    } else {
        replace_all(build(t, caps.drop_last()), token(caps.len()), caps.last())
    }
}

/// The digit `d` as a one-character string.
fn digit_str(d: usize) -> (r: &'static str)
    requires
        d < 10,
    ensures
        r@ == seq![digits()[d as int]],
{
    let ds = "0123456789";
    proof {
        reveal_strlit("0123456789");
    }
    let r = ds.substring_char(d, d + 1);
    assert(r@ =~= seq![digits()[d as int]]);
    r
}

/// The decimal notation of `n`.
fn decimal_string(n: usize) -> (r: String)
    ensures
        r@ == decimal(n as nat),
    decreases n,
{
    if n < 10 {
        String::from_str(digit_str(n))
    } else {
        let mut r = decimal_string(n / 10);
        r.append(digit_str(n % 10));
        r
    }
}

/// The token `$n`.
fn token_chars(n: usize) -> (r: Vec<char>)
    ensures
        r@ == token(n as nat),
{
    let mut t = String::from_str("$");
    proof {
        reveal_strlit("$");
    }
    t.append(decimal_string(n).as_str());
    assert(t@ =~= token(n as nat));
    chars_of(t.as_str())
}

/// `s` with every occurrence of the non-empty `pat` replaced by `rep`.
fn replace_all_str(s: &str, pat: &Vec<char>, rep: &str) -> (r: String)
    requires
        pat@.len() > 0,
    ensures
        r@ == replace_all(s@, pat@, rep@),
{
    let sv = chars_of(s);
    let n = sv.len();
    let mut out = String::new();
    let mut i: usize = 0;
    assert(sv@.skip(0) =~= sv@);
    assert(out@ + replace_all(sv@, pat@, rep@) =~= replace_all(sv@, pat@, rep@));
    while i < n
        invariant
            n == sv@.len(),
            sv@ == s@,
            pat@.len() > 0,
            i <= n,
            out@ + replace_all(sv@.skip(i as int), pat@, rep@) == replace_all(sv@, pat@, rep@),
        decreases n - i,
    {
        let ghost rest = sv@.skip(i as int);
        let ghost old_out = out@;
        if pat.len() <= n - i && occurs(&sv, pat, i) {
            assert(rest.subrange(0, pat@.len() as int) =~= sv@.subrange(i as int, i + pat@.len()));
            assert(rest.skip(pat@.len() as int) =~= sv@.skip(i + pat@.len()));
            out.append(rep);
            i = i + pat.len();
            assert(out@ + replace_all(sv@.skip(i as int), pat@, rep@) =~= old_out + replace_all(rest, pat@, rep@));
        } else {
            if pat.len() <= n - i {
                assert(rest.subrange(0, pat@.len() as int) =~= sv@.subrange(i as int, i + pat@.len()));
            }
            assert(rest.drop_first() =~= sv@.skip(i + 1));
            out.append(s.substring_char(i, i + 1));
            assert(sv@.subrange(i as int, i + 1) =~= seq![rest[0]]);
            if pat.len() > n - i {
                assert(rest =~= seq![rest[0]] + rest.drop_first());
            }
            i = i + 1;
            assert(out@ + replace_all(sv@.skip(i as int), pat@, rep@) =~= old_out + replace_all(rest, pat@, rep@));
        }
    }
    assert(sv@.skip(i as int) =~= Seq::<char>::empty());
    assert(out@ + Seq::<char>::empty() =~= out@);
    out
}

/// Fills `template` with `captures`: for each ordinal `i` from 1 up, every
/// `$i` in the text so far is replaced by capture `i`. A token whose ordinal
/// exceeds the number of captures stays as it is.
pub fn build_name(template: &str, captures: &Vec<String>) -> (r: String)
    ensures
        r@ == build(template@, string_views(captures@)),
{
    let ghost cs = string_views(captures@);
    let mut cur = String::from_str(template);
    let mut i: usize = 0;
    assert(cs.subrange(0, 0) =~= Seq::<Seq<char>>::empty());
    while i < captures.len()
        invariant
            cs == string_views(captures@),
            i <= captures@.len(),
            cur@ == build(template@, cs.subrange(0, i as int)),
        decreases captures@.len() - i,
    {
        let tok = token_chars(i + 1);
        let next = replace_all_str(cur.as_str(), &tok, captures[i].as_str());
        assert(cs.subrange(0, i + 1).drop_last() =~= cs.subrange(0, i as int));
        cur = next;
        i = i + 1;
    }
    assert(cs.subrange(0, i as int) =~= cs);
    cur
}

} // verus!
