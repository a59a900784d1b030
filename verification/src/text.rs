//! Small executable helpers over characters and strings, each tied to the
//! spec model.

use vstd::prelude::*;
use vstd::string::StrSliceExecFns;

use crate::model::ci_eq;

verus! {

/// Case-insensitive character comparison, the executable twin of `ci_eq`.
pub fn ci_eq_exec(a: char, b: char) -> (r: bool)
    ensures
        r == ci_eq(a, b),
{
    if a == b {
        true
    } else {
        let au = a as u32;
        let bu = b as u32;
        (65 <= au && au <= 90 && bu == au + 32) || (65 <= bu && bu <= 90 && au == bu + 32)
    }
}

/// The characters of a string as a vector, in order.
pub fn chars_of(s: &str) -> (v: Vec<char>)
    ensures
        v@ == s@,
{
    let len = s.unicode_len();
    let mut v: Vec<char> = Vec::new();
    let mut i: usize = 0;
    while i < len
        invariant
            len == s@.len(),
            i <= len,
            v@ == s@.take(i as int),
        decreases len - i,
    {
        v.push(s.get_char(i));
        i = i + 1;
        proof {
            assert(v@ =~= s@.take(i as int));
        }
    }
    proof {
        assert(s@.take(len as int) =~= s@);
    }
    v
}

/// Whether two character vectors hold the same sequence.
pub fn seq_eq_exec(a: &Vec<char>, b: &Vec<char>) -> (r: bool)
    ensures
        r == (a@ == b@),
{
    if a.len() != b.len() {
        proof {
            assert(a@ != b@);
        }
        return false;
    }
    let mut i: usize = 0;
    while i < a.len()
        invariant
            a@.len() == b@.len(),
            i <= a@.len(),
            forall|t: int| 0 <= t < i ==> a@[t] == b@[t],
        decreases a@.len() - i,
    {
        if a[i] != b[i] {
            return false;
        }
        i = i + 1;
    }
    proof {
        assert(a@ =~= b@);
    }
    true
}

} // verus!
