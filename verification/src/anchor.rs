//! Anchor search: find a line index by substring containment, under the
//! first-match or the last-match tie-break policy.

use crate::errors::CannotFindInFile;
use crate::text::{contains_str, has_substr, seq_views};
use vstd::prelude::*;

verus! {

/// `i` is the smallest index whose line contains `key`.
pub open spec fn is_first_containing(ls: Seq<Seq<char>>, key: Seq<char>, i: int) -> bool {
    &&& 0 <= i < ls.len()
    &&& has_substr(ls[i], key)
    &&& forall|j: int| 0 <= j < i ==> !has_substr(ls[j], key)
}

/// `i` is the largest index whose line contains `key`.
pub open spec fn is_last_containing(ls: Seq<Seq<char>>, key: Seq<char>, i: int) -> bool {
    &&& 0 <= i < ls.len()
    &&& has_substr(ls[i], key)
    &&& forall|j: int| i < j < ls.len() ==> !has_substr(ls[j], key)
}

/// Returns the smallest index of a line containing `key`; fails with
/// `CannotFindInFile` exactly when no line contains it.
pub fn locate_first(lines: &Vec<String>, key: &str) -> (r: Result<usize, CannotFindInFile>)
    ensures
        match r {
            Ok(i) => is_first_containing(seq_views(lines@), key@, i as int),
            Err(e) => e.token@ == key@ && forall|j: int|
                0 <= j < lines@.len() ==> !has_substr(seq_views(lines@)[j], key@),
        },
{
    let mut i: usize = 0;
    while i < lines.len()
        invariant
            i <= lines@.len(),
            forall|j: int| 0 <= j < i ==> !has_substr(seq_views(lines@)[j], key@),
        decreases lines@.len() - i,
    {
        if contains_str(lines[i].as_str(), key) {
            return Ok(i);
        }
        i += 1;
    }
    Err(CannotFindInFile { token: key.to_owned() })
}

/// Returns the largest index of a line containing `key`; fails with
/// `CannotFindInFile` exactly when no line contains it.
pub fn locate_last(lines: &Vec<String>, key: &str) -> (r: Result<usize, CannotFindInFile>)
    ensures
        match r {
            Ok(i) => is_last_containing(seq_views(lines@), key@, i as int),
            Err(e) => e.token@ == key@ && forall|j: int|
                0 <= j < lines@.len() ==> !has_substr(seq_views(lines@)[j], key@),
        },
{
    let mut found: Option<usize> = None;
    let mut i: usize = 0;
    while i < lines.len()
        invariant
            i <= lines@.len(),
            match found {
                Some(p) => p < i && has_substr(seq_views(lines@)[p as int], key@) && forall|j: int|
                    p < j < i ==> !has_substr(seq_views(lines@)[j], key@),
                None => forall|j: int| 0 <= j < i ==> !has_substr(seq_views(lines@)[j], key@),
            },
        decreases lines@.len() - i,
    {
        if contains_str(lines[i].as_str(), key) {
            found = Some(i);
        }
        i += 1;
    }
    match found {
        Some(p) => Ok(p),
        None => Err(CannotFindInFile { token: key.to_owned() }),
    }
}

/// Returns the index of the last line containing `after`: the insertion
/// anchor for relocations.
pub fn position(contents: &Vec<String>, after: &str) -> (r: Result<usize, CannotFindInFile>)
    ensures
        match r {
            Ok(i) => is_last_containing(seq_views(contents@), after@, i as int),
            Err(e) => e.token@ == after@ && forall|j: int|
                0 <= j < contents@.len() ==> !has_substr(seq_views(contents@)[j], after@),
        },
{
    locate_last(contents, after)
}

} // verus!
