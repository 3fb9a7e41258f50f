//! The new name of a file under a rename rule.

use vstd::prelude::*;

use crate::pattern::{captures, match_captures};
use crate::template::{build, build_name};

verus! {

/// The new name of the file `name` under the rule `from` -> `to`, or `None`
/// when `name` does not match `from`.
pub open spec fn new_name(from: Seq<char>, to: Seq<char>, name: Seq<char>) -> Option<Seq<char>> {
    match captures(from, name) {
        None => None,
        Some(c) => Some(build(to, c)),
    }
}

/// The view of an optional string.
pub open spec fn opt_view(r: Option<String>) -> Option<Seq<char>> {
    match r {
        None => None,
        Some(s) => Some(s@),
    }
}

/// The new name of `file_name` under the rule `from` -> `to`: the captures of
/// `file_name` under `from` filled into `to`, or `None` when it does not match.
pub fn get_new_name(from: &str, to: &str, file_name: &str) -> (r: Option<String>)
    ensures
        opt_view(r) == new_name(from@, to@, file_name@),
{
    let caps = match_captures(from, file_name);
    match caps {
        None => None,
        Some(c) => Some(build_name(to, &c)),
    }
}

/// The new name of each file of `names` under the rule `from` -> `to`, in
/// order: `None` for each one that is left as it is. The files renamed are
/// those with `Some`.
pub fn plan_renames(from: &str, to: &str, names: &Vec<String>) -> (r: Vec<Option<String>>)
    ensures
        r@.len() == names@.len(),
        forall|i: int|
            0 <= i < names@.len() ==> opt_view(#[trigger] r@[i]) == new_name(
                from@,
                to@,
                names@[i]@,
            ),
{
    let mut r: Vec<Option<String>> = Vec::new();
    let mut i: usize = 0;
    while i < names.len()
        invariant
            i <= names@.len(),
            r@.len() == i,
            forall|k: int|
                0 <= k < i ==> opt_view(#[trigger] r@[k]) == new_name(from@, to@, names@[k]@),
        decreases names@.len() - i,
    {
        r.push(get_new_name(from, to, names[i].as_str()));
        i = i + 1;
    }
    r
}

} // verus!
