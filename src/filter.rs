//! The class filter: drops the all-classes section of a configuration and
//! appends a permissive section for the target class followed by a
//! restrictive all-classes section.
use vstd::prelude::*;
use vstd::string::*;
use crate::text::{
    chars_of, decimal, join, line_views, lines, push_decimal, push_str, split_lines, string_of, trim,
    trim_bounds,
};

verus! {

/// The header line of the section whose settings apply to every class.
pub open spec fn all_classes_header() -> Seq<char> {
    "[class-attrs-all]"@
}

/// A line that, trimmed, is exactly the all-classes header.
pub open spec fn is_all_classes_line(l: Seq<char>) -> bool {
    trim(l) == all_classes_header()
}

/// A line that, trimmed, starts with `'['`: it opens a section.
pub open spec fn is_section_line(l: Seq<char>) -> bool {
    trim(l).len() > 0 && trim(l)[0] == '['
}

/// One line of the scan. The state holds the lines kept so far and whether
/// the scan is inside an all-classes section.
pub open spec fn scan_step(st: (Seq<Seq<char>>, bool), l: Seq<char>) -> (Seq<Seq<char>>, bool) {
    if is_all_classes_line(l) {
        (st.0, true)
    } else if st.1 && is_section_line(l) {
        (st.0.push(l), false)
    } else if st.1 {
        st
    } else {
        (st.0.push(l), false)
    }
}

/// The scan state after the lines `ls`, starting from `st`.
pub open spec fn scan_from(st: (Seq<Seq<char>>, bool), ls: Seq<Seq<char>>) -> (
    Seq<Seq<char>>,
    bool,
)
    decreases ls.len(),
{
    if ls.len() == 0 {
        st
    } else {
        scan_step(scan_from(st, ls.drop_last()), ls.last())
    }
}

/// The lines of `ls` that lie outside every all-classes section, in order.
pub open spec fn kept_lines(ls: Seq<Seq<char>>) -> Seq<Seq<char>> {
    scan_from((Seq::empty(), false), ls).0
}

/// A blank line, then the section for class `target` with a permissive
/// threshold.
pub open spec fn class_section(target: int) -> Seq<char> {
    "\n[class-attrs-"@ + decimal(target) + "]\npre-cluster-threshold=0.25\n"@
}

/// A blank line, then an all-classes section with the maximal threshold.
pub open spec fn restrictive_section() -> Seq<char> {
    "\n[class-attrs-all]\npre-cluster-threshold=1.0\n"@
}

/// The filtered configuration for the text `s` and the class `target`.
pub open spec fn filtered(s: Seq<char>, target: int) -> Seq<char> {
    join(kept_lines(lines(s))) + class_section(target) + restrictive_section()
}

/// Whether the line `l` is, trimmed, the all-classes header.
pub fn is_all_classes_header(l: &Vec<char>) -> (r: bool)
    ensures
        r == is_all_classes_line(l@),
{
    let (a, b) = trim_bounds(l);
    let h = "[class-attrs-all]";
    let n = h.unicode_len();
    if b - a != n {
        return false;
    }
    let mut k: usize = 0;
    while k < n
        invariant
            k <= n == h@.len() == b - a,
            a <= b <= l@.len(),
            l@.subrange(a as int, b as int) == trim(l@),
            h@ == all_classes_header(),
            forall|j: int| 0 <= j < k ==> l@[a + j] == h@[j],
        decreases n - k,
    {
        if l[a + k] != h.get_char(k) {
            assert(trim(l@)[k as int] != all_classes_header()[k as int]);
            return false;
        }
        k = k + 1;
    }
    assert(trim(l@) =~= all_classes_header());
    true
}

/// Whether the line `l` opens a section: trimmed, it starts with `'['`.
pub fn opens_section(l: &Vec<char>) -> (r: bool)
    ensures
        r == is_section_line(l@),
{
    let (a, b) = trim_bounds(l);
    a < b && l[a] == '['
}

/// The lines of `ls` that lie outside every all-classes section: an
/// all-classes header and the lines after it are dropped up to the next line
/// that opens a section, which is kept.
pub fn keep_lines(ls: &Vec<Vec<char>>) -> (r: Vec<Vec<char>>)
    ensures
        line_views(r@) == kept_lines(line_views(ls@)),
{
    let n = ls.len();
    let ghost v = line_views(ls@);
    let mut out: Vec<Vec<char>> = Vec::new();
    let mut inside = false;
    let mut i: usize = 0;
    while i < n
        invariant
            i <= n == ls@.len() == v.len(),
            v == line_views(ls@),
            (line_views(out@), inside) == scan_from((Seq::empty(), false), v.subrange(0, i as int)),
        decreases n - i,
    {
        proof {
            assert(v.subrange(0, i + 1).drop_last() =~= v.subrange(0, i as int));
        }
        let l = &ls[i];
        if is_all_classes_header(l) {
            inside = true;
        } else if inside && opens_section(l) {
            let c = l.clone();
            assert(c@ =~= l@);
            let ghost before = line_views(out@);
            out.push(c);
            assert(line_views(out@) =~= before.push(l@));
            inside = false;
        } else if !inside {
            let c = l.clone();
            assert(c@ =~= l@);
            let ghost before = line_views(out@);
            out.push(c);
            assert(line_views(out@) =~= before.push(l@));
        }
        i = i + 1;
    }
    assert(v.subrange(0, n as int) =~= v);
    out
}

/// Appends each line of `ls`, followed by `'\n'`, to `out`.
pub fn push_lines(out: &mut Vec<char>, ls: &Vec<Vec<char>>)
    ensures
        final(out)@ == old(out)@ + join(line_views(ls@)),
{
    let n = ls.len();
    let ghost v = line_views(ls@);
    let mut i: usize = 0;
    while i < n
        invariant
            i <= n == ls@.len() == v.len(),
            v == line_views(ls@),
            out@ == old(out)@ + join(v.subrange(0, i as int)),
        decreases n - i,
    {
        let l = &ls[i];
        let m = l.len();
        let mut j: usize = 0;
        let ghost start = out@;
        while j < m
            invariant
                j <= m == l@.len(),
                out@ == start + l@.subrange(0, j as int),
            decreases m - j,
        {
            out.push(l[j]);
            j = j + 1;
            assert(l@.subrange(0, j as int) =~= l@.subrange(0, j - 1).push(l@[j - 1]));
        }
        out.push('\n');
        proof {
            let w = v.subrange(0, i + 1);
            assert(w.drop_last() =~= v.subrange(0, i as int));
            assert(w.last() == l@);
            assert(l@.subrange(0, m as int) =~= l@);
            assert(out@ =~= old(out)@ + join(w));
        }
        i = i + 1;
    }
    assert(v.subrange(0, n as int) =~= v);
}

/// The filtered configuration, as characters, for the text `text` and the
/// class `target`.
pub fn filter_chars(text: &Vec<char>, target: i32) -> (r: Vec<char>)
    ensures
        r@ == filtered(text@, target as int),
{
    let ls = split_lines(text);
    let kept = keep_lines(&ls);
    let mut out: Vec<char> = Vec::new();
    push_lines(&mut out, &kept);
    push_str(&mut out, "\n[class-attrs-");
    push_decimal(&mut out, target);
    push_str(&mut out, "]\npre-cluster-threshold=0.25\n");
    push_str(&mut out, "\n[class-attrs-all]\npre-cluster-threshold=1.0\n");
    assert(out@ =~= filtered(text@, target as int));
    out
}

/// The filtered configuration for the configuration text `text`: every line
/// outside the all-classes section, in order, each ended by `'\n'`; then a
/// blank line and a section for class `target` with threshold 0.25; then a
/// blank line and an all-classes section with threshold 1.0.
pub fn filter_config(text: &str, target_class_id: i32) -> (r: String)
    ensures
        r@ == filtered(text@, target_class_id as int),
{
    let cs = chars_of(text);
    let out = filter_chars(&cs, target_class_id);
    string_of(&out)
}

} // verus!
