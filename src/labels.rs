//! Finding a class by name in a label list, one label per line.
use vstd::prelude::*;
use crate::text::{chars_of, line_views, lines, split_lines, trim, trim_bounds};

verus! {

/// Whether `k` is the first index of `ls` whose line, trimmed, is `name`.
pub open spec fn is_first_match(ls: Seq<Seq<char>>, name: Seq<char>, k: int) -> bool {
    &&& 0 <= k < ls.len()
    &&& trim(ls[k]) == name
    &&& forall|j: int| 0 <= j < k ==> trim(#[trigger] ls[j]) != name
}

/// Whether no line of `ls`, trimmed, is `name`.
pub open spec fn no_match(ls: Seq<Seq<char>>, name: Seq<char>) -> bool {
    forall|j: int| 0 <= j < ls.len() ==> trim(#[trigger] ls[j]) != name
}

/// Whether the line `l`, trimmed, is `name`.
pub fn trimmed_equals(l: &Vec<char>, name: &Vec<char>) -> (r: bool)
    ensures
        r == (trim(l@) == name@),
{
    let (a, b) = trim_bounds(l);
    let n = name.len();
    if b - a != n {
        return false;
    }
    let mut k: usize = 0;
    while k < n
        invariant
            k <= n == name@.len() == b - a,
            a <= b <= l@.len(),
            l@.subrange(a as int, b as int) == trim(l@),
            forall|j: int| 0 <= j < k ==> l@[a + j] == name@[j],
        decreases n - k,
    {
        if l[a + k] != name[k] {
            assert(trim(l@)[k as int] != name@[k as int]);
            return false;
        }
        k = k + 1;
    }
    assert(trim(l@) =~= name@);
    true
}

/// The index of the first line of `labels` that, trimmed, is `name`; `None`
/// when there is none.
pub fn find_class(labels: &Vec<char>, name: &Vec<char>) -> (r: Option<usize>)
    ensures
        match r {
            Some(k) => is_first_match(lines(labels@), name@, k as int),
            None => no_match(lines(labels@), name@),
        },
{
    let ls = split_lines(labels);
    let ghost v = line_views(ls@);
    let n = ls.len();
    let mut i: usize = 0;
    while i < n
        invariant
            i <= n == ls@.len() == v.len(),
            v == lines(labels@),
            v == line_views(ls@),
            forall|j: int| 0 <= j < i ==> trim(#[trigger] v[j]) != name@,
        decreases n - i,
    {
        if trimmed_equals(&ls[i], name) {
            return Some(i);
        }
        i = i + 1;
    }
    None
}

/// The index of the first line of `labels` that, trimmed, is `name`; `None`
/// when there is none.
pub fn class_id(labels: &str, name: &str) -> (r: Option<usize>)
    ensures
        match r {
            Some(k) => is_first_match(lines(labels@), name@, k as int),
            None => no_match(lines(labels@), name@),
        },
{
    let ls = chars_of(labels);
    let nm = chars_of(name);
    find_class(&ls, &nm)
}

} // verus!
