//! Properties of the class filter, proved over its model.
use vstd::prelude::*;
use crate::text::{decimal, digit, digits, join, lines, split_from, strip_cr, trim, trim_start, is_space};
use crate::filter::{
    all_classes_header, class_section, filtered, is_all_classes_line, is_section_line, kept_lines,
    restrictive_section, scan_from, scan_step,
};

verus! {

/// Splitting `a + b` is splitting `a`, then going on with `b`.
pub proof fn lemma_split_concat(
    st: (Seq<Seq<char>>, Seq<char>),
    a: Seq<char>,
    b: Seq<char>,
)
    ensures
        split_from(st, a + b) == split_from(split_from(st, a), b),
    decreases b.len(),
{
    if b.len() == 0 {
        assert(a + b =~= a);
    } else {
        assert((a + b).drop_last() =~= a + b.drop_last());
        lemma_split_concat(st, a, b.drop_last());
    }
}

/// Scanning `a + b` is scanning `a`, then going on with `b`.
pub proof fn lemma_scan_concat(st: (Seq<Seq<char>>, bool), a: Seq<Seq<char>>, b: Seq<Seq<char>>)
    ensures
        scan_from(st, a + b) == scan_from(scan_from(st, a), b),
    decreases b.len(),
{
    if b.len() == 0 {
        assert(a + b =~= a);
    } else {
        assert((a + b).drop_last() =~= a + b.drop_last());
        lemma_scan_concat(st, a, b.drop_last());
    }
}

/// Scanning one line is one step of the scan.
pub proof fn lemma_scan_one(st: (Seq<Seq<char>>, bool), l: Seq<char>)
    ensures
        scan_from(st, seq![l]) == scan_step(st, l),
{
    assert(seq![l].drop_last() =~= Seq::<Seq<char>>::empty());
    assert(scan_from(st, Seq::<Seq<char>>::empty()) == st);
    assert(seq![l].last() == l);
}

/// Outside an all-classes section, lines with no all-classes header are all
/// kept.
pub proof fn lemma_scan_plain(st: (Seq<Seq<char>>, bool), a: Seq<Seq<char>>)
    requires
        !st.1,
        forall|k: int| 0 <= k < a.len() ==> !is_all_classes_line(#[trigger] a[k]),
    ensures
        scan_from(st, a) == (st.0 + a, false),
    decreases a.len(),
{
    if a.len() == 0 {
        assert(st.0 + a =~= st.0);
    } else {
        lemma_scan_plain(st, a.drop_last());
        assert(!is_all_classes_line(a[a.len() - 1]));
        assert((st.0 + a.drop_last()).push(a.last()) =~= st.0 + a);
    }
}

/// An all-classes header line opens a section.
pub proof fn lemma_header_opens_section(l: Seq<char>)
    requires
        is_all_classes_line(l),
    ensures
        is_section_line(l),
{
    reveal_strlit("[class-attrs-all]");
}

/// Inside an all-classes section, lines that open no section are all
/// dropped.
pub proof fn lemma_scan_inside(st: (Seq<Seq<char>>, bool), b: Seq<Seq<char>>)
    requires
        st.1,
        forall|k: int| 0 <= k < b.len() ==> !is_section_line(#[trigger] b[k]),
    ensures
        scan_from(st, b) == st,
    decreases b.len(),
{
    if b.len() > 0 {
        lemma_scan_inside(st, b.drop_last());
        assert(!is_section_line(b[b.len() - 1]));
        if is_all_classes_line(b.last()) {
            lemma_header_opens_section(b.last());
        }
    }
}

/// The scan only ever appends to the lines kept so far.
pub proof fn lemma_scan_extends(st: (Seq<Seq<char>>, bool), b: Seq<Seq<char>>)
    ensures
        scan_from(st, b).0.len() >= st.0.len(),
        scan_from(st, b).0.subrange(0, st.0.len() as int) == st.0,
    decreases b.len(),
{
    if b.len() == 0 {
        assert(st.0.subrange(0, st.0.len() as int) =~= st.0);
    } else {
        lemma_scan_extends(st, b.drop_last());
        let p = scan_from(st, b.drop_last()).0;
        assert(p.push(b.last()).subrange(0, st.0.len() as int) =~= p.subrange(
            0,
            st.0.len() as int,
        ));
    }
}

/// Each line followed by `'\n'`, for `a + b`, is that text for `a` and then
/// for `b`.
pub proof fn lemma_join_concat(a: Seq<Seq<char>>, b: Seq<Seq<char>>)
    ensures
        join(a + b) == join(a) + join(b),
    decreases b.len(),
{
    if b.len() == 0 {
        assert(a + b =~= a);
        assert(join(a) + join(b) =~= join(a));
    } else {
        assert((a + b).drop_last() =~= a + b.drop_last());
        lemma_join_concat(a, b.drop_last());
        assert(join(a + b) =~= join(a) + join(b));
    }
}

/// With no `'\r'` in `p`, the finished lines, each followed by `'\n'`, and
/// then the line being read give back `p`.
pub proof fn lemma_split_rejoin(p: Seq<char>)
    requires
        forall|k: int| 0 <= k < p.len() ==> p[k] != '\r',
    ensures
        join(split_from((Seq::empty(), Seq::empty()), p).0) + split_from(
            (Seq::empty(), Seq::empty()),
            p,
        ).1 == p,
    decreases p.len(),
{
    let st0 = (Seq::<Seq<char>>::empty(), Seq::<char>::empty());
    if p.len() == 0 {
        assert(join(Seq::<Seq<char>>::empty()) + Seq::<char>::empty() =~= p);
    } else {
        let q = p.drop_last();
        lemma_split_rejoin(q);
        let st = split_from(st0, q);
        if p.last() == '\n' {
            if st.1.len() > 0 {
                assert(q[q.len() - 1] == st.1.last()) by {
                    assert((join(st.0) + st.1)[q.len() - 1] == st.1[st.1.len() - 1]);
                }
            }
            assert(strip_cr(st.1) == st.1);
            let ls = st.0.push(st.1);
            assert(ls.drop_last() =~= st.0);
            assert(join(ls) + Seq::<char>::empty() =~= p);
        } else {
            assert(q.push(p.last()) =~= p);
            assert(join(st.0) + st.1.push(p.last()) =~= (join(st.0) + st.1).push(p.last()));
        }
    }
}

/// A text with no `'\r'` that is empty or ends with `'\n'` is its lines, each
/// followed by `'\n'`.
pub proof fn lemma_lines_rejoin(s: Seq<char>)
    requires
        forall|k: int| 0 <= k < s.len() ==> s[k] != '\r',
        s.len() == 0 || s.last() == '\n',
    ensures
        join(lines(s)) == s,
{
    lemma_split_rejoin(s);
    let st = split_from((Seq::empty(), Seq::empty()), s);
    if s.len() > 0 {
        assert(s.drop_last() + seq![s.last()] =~= s);
        assert(st.1.len() == 0);
    }
    assert(join(st.0) + st.1 =~= join(st.0));
}

/// A configuration with no all-classes section comes out with every line
/// kept, in order, and the two new sections after them; a text with no
/// `'\r'` that is empty or ends with a line feed comes out unchanged, with the
/// two sections appended.
pub proof fn lemma_pass_through(s: Seq<char>, target: int)
    requires
        forall|k: int| 0 <= k < lines(s).len() ==> !is_all_classes_line(#[trigger] lines(s)[k]),
    ensures
        kept_lines(lines(s)) == lines(s),
        filtered(s, target) == join(lines(s)) + class_section(target) + restrictive_section(),
        (forall|k: int| 0 <= k < s.len() ==> s[k] != '\r') && (s.len() == 0 || s.last() == '\n')
            ==> filtered(s, target) == s + class_section(target) + restrictive_section(),
{
    lemma_scan_plain((Seq::empty(), false), lines(s));
    assert(Seq::<Seq<char>>::empty() + lines(s) =~= lines(s));
    if (forall|k: int| 0 <= k < s.len() ==> s[k] != '\r') && (s.len() == 0 || s.last() == '\n') {
        lemma_lines_rejoin(s);
    }
}

/// A configuration made of lines `before`, an all-classes header `h`, lines
/// `body` that open no section, and lines `after` that start with a section
/// header (or are none) comes out as `before` and `after`, in order, with the
/// two new sections after them.
pub proof fn lemma_single_section_removal(
    s: Seq<char>,
    target: int,
    before: Seq<Seq<char>>,
    h: Seq<char>,
    body: Seq<Seq<char>>,
    after: Seq<Seq<char>>,
)
    requires
        lines(s) == before + seq![h] + body + after,
        is_all_classes_line(h),
        forall|k: int| 0 <= k < before.len() ==> !is_all_classes_line(#[trigger] before[k]),
        forall|k: int| 0 <= k < body.len() ==> !is_section_line(#[trigger] body[k]),
        after.len() == 0 || is_section_line(after[0]),
        forall|k: int| 0 <= k < after.len() ==> !is_all_classes_line(#[trigger] after[k]),
    ensures
        kept_lines(lines(s)) == before + after,
        filtered(s, target) == join(before + after) + class_section(target)
            + restrictive_section(),
{
    let st0 = (Seq::<Seq<char>>::empty(), false);
    lemma_scan_concat(st0, before + seq![h] + body, after);
    lemma_scan_concat(st0, before + seq![h], body);
    lemma_scan_concat(st0, before, seq![h]);
    lemma_scan_plain(st0, before);
    assert(Seq::<Seq<char>>::empty() + before =~= before);
    lemma_scan_one((before, false), h);
    assert(scan_from(st0, before + seq![h]) == (before, true));
    lemma_scan_inside((before, true), body);
    if after.len() == 0 {
        assert(before + after =~= before);
        assert(scan_from((before, true), after) == (before, true));
    } else {
        let first = seq![after[0]];
        let rest = after.drop_first();
        assert(first + rest =~= after);
        lemma_scan_concat((before, true), first, rest);
        lemma_scan_one((before, true), after[0]);
        assert(!is_all_classes_line(after[0]));
        assert(scan_from((before, true), first) == (before.push(after[0]), false));
        lemma_scan_plain((before.push(after[0]), false), rest);
        assert(before.push(after[0]) + rest =~= before + after);
    }
}

/// A line that opens a section after an all-classes header, with only lines
/// that open no section between them, is kept: it stands in the output at
/// the position after the lines kept before that header.
pub proof fn lemma_boundary_kept(ls: Seq<Seq<char>>, j: int, i: int)
    requires
        0 <= j < i < ls.len(),
        is_all_classes_line(ls[j]),
        forall|k: int| j < k < i ==> !is_section_line(#[trigger] ls[k]),
        is_section_line(ls[i]),
        !is_all_classes_line(ls[i]),
    ensures
        kept_lines(ls).len() > kept_lines(ls.subrange(0, j)).len(),
        kept_lines(ls)[kept_lines(ls.subrange(0, j)).len() as int] == ls[i],
{
    let st0 = (Seq::<Seq<char>>::empty(), false);
    let pre = ls.subrange(0, j);
    let hdr = seq![ls[j]];
    let body = ls.subrange(j + 1, i);
    let last = seq![ls[i]];
    let rest = ls.subrange(i + 1, ls.len() as int);
    assert(pre + hdr + body + last + rest =~= ls);
    let st1 = scan_from(st0, pre);
    let kp = st1.0;
    lemma_scan_concat(st0, pre + hdr + body + last, rest);
    lemma_scan_concat(st0, pre + hdr + body, last);
    lemma_scan_concat(st0, pre + hdr, body);
    lemma_scan_concat(st0, pre, hdr);
    lemma_scan_one(st1, ls[j]);
    assert(scan_from(st0, pre + hdr) == (kp, true));
    assert forall|k: int| 0 <= k < body.len() implies !is_section_line(#[trigger] body[k]) by {
        assert(body[k] == ls[j + 1 + k]);
    }
    lemma_scan_inside((kp, true), body);
    lemma_scan_one((kp, true), ls[i]);
    let st2 = scan_from(st0, pre + hdr + body + last);
    assert(st2 == (kp.push(ls[i]), false));
    lemma_scan_extends(st2, rest);
    assert(kept_lines(ls) == scan_from(st2, rest).0);
    assert(kept_lines(ls).subrange(0, st2.0.len() as int)[kp.len() as int] == ls[i]);
}

/// In the output the section for the target class comes just before the
/// closing all-classes section, which ends the text.
pub proof fn lemma_threshold_order(s: Seq<char>, target: int)
    ensures
        ({
            let out = filtered(s, target);
            let c = class_section(target);
            let a = restrictive_section();
            &&& out.len() >= c.len() + a.len()
            &&& out.subrange(out.len() - a.len() - c.len(), out.len() - a.len()) == c
            &&& out.subrange(out.len() - a.len(), out.len() as int) == a
        }),
{
    let out = filtered(s, target);
    let c = class_section(target);
    let a = restrictive_section();
    let p = join(kept_lines(lines(s)));
    assert(out.subrange(out.len() - a.len() - c.len(), out.len() - a.len()) =~= c);
    assert(out.subrange(out.len() - a.len(), out.len() as int) =~= a);
}

/// A line with no line feed in it.
pub open spec fn no_lf(l: Seq<char>) -> bool {
    forall|k: int| 0 <= k < l.len() ==> l[k] != '\n'
}

/// A line whose last character is a carriage return.
pub open spec fn ends_cr(l: Seq<char>) -> bool {
    l.len() > 0 && l.last() == '\r'
}

/// A decimal numeral is made of `'-'` and the digits `'0'` to `'9'`, and is
/// not empty.
pub proof fn lemma_decimal_chars(n: int)
    ensures
        decimal(n).len() > 0,
        forall|k: int|
            0 <= k < decimal(n).len() ==> #[trigger] decimal(n)[k] == '-' || (48 <= decimal(n)[k] as u32
                <= 57),
{
    lemma_digits_chars(if n < 0 { -n } else { n } as nat);
    if n < 0 {
        let d = digits((-n) as nat);
        assert forall|k: int| 0 <= k < decimal(n).len() implies #[trigger] decimal(n)[k] == '-' || (
        48 <= decimal(n)[k] as u32 <= 57) by {
            if k > 0 {
                assert(decimal(n)[k] == d[k - 1]);
            }
        }
    }
}

/// The decimal numeral of a natural number is made of the digits `'0'` to
/// `'9'`, and is not empty.
pub proof fn lemma_digits_chars(n: nat)
    ensures
        digits(n).len() > 0,
        forall|k: int| 0 <= k < digits(n).len() ==> 48 <= #[trigger] digits(n)[k] as u32 <= 57,
    decreases n,
{
    assert(digit(n % 10) as u32 == n % 10 + 48);
    if n >= 10 {
        lemma_digits_chars(n / 10);
    }
}

/// Reading characters that hold no line feed extends the line being read.
pub proof fn lemma_split_plain(st: (Seq<Seq<char>>, Seq<char>), l: Seq<char>)
    requires
        no_lf(l),
    ensures
        split_from(st, l) == (st.0, st.1 + l),
    decreases l.len(),
{
    if l.len() == 0 {
        assert(st.1 + l =~= st.1);
    } else {
        lemma_split_plain(st, l.drop_last());
        assert(l[l.len() - 1] != '\n');
        assert((st.1 + l.drop_last()).push(l.last()) =~= st.1 + l);
    }
}

/// Lines with no line feed and no final carriage return, each followed by
/// `'\n'`, split back into those lines.
pub proof fn lemma_lines_of_join(m: Seq<Seq<char>>)
    requires
        forall|i: int| 0 <= i < m.len() ==> no_lf(#[trigger] m[i]) && !ends_cr(m[i]),
    ensures
        split_from((Seq::empty(), Seq::empty()), join(m)) == (m, Seq::<char>::empty()),
        lines(join(m)) == m,
    decreases m.len(),
{
    let st0 = (Seq::<Seq<char>>::empty(), Seq::<char>::empty());
    if m.len() == 0 {
        assert(join(m) =~= Seq::<char>::empty());
        assert(m =~= Seq::<Seq<char>>::empty());
    } else {
        let m0 = m.drop_last();
        let l = m.last();
        assert(no_lf(m[m.len() - 1]) && !ends_cr(m[m.len() - 1]));
        lemma_lines_of_join(m0);
        lemma_split_concat(st0, join(m0) + l, seq!['\n']);
        lemma_split_concat(st0, join(m0), l);
        lemma_split_plain((m0, Seq::empty()), l);
        assert(Seq::<char>::empty() + l =~= l);
        assert(seq!['\n'].drop_last() =~= Seq::<char>::empty());
        assert(split_from((m0, l), Seq::<char>::empty()) == (m0, l));
        assert(m0.push(l) =~= m);
    }
}

/// No line of a text holds a line feed.
pub proof fn lemma_lines_no_lf(s: Seq<char>)
    ensures
        forall|i: int| 0 <= i < lines(s).len() ==> no_lf(#[trigger] lines(s)[i]),
{
    lemma_split_no_lf(s);
}

/// While splitting, neither the finished lines nor the line being read hold
/// a line feed.
pub proof fn lemma_split_no_lf(s: Seq<char>)
    ensures
        forall|i: int|
            0 <= i < split_from((Seq::empty(), Seq::empty()), s).0.len() ==> no_lf(
                #[trigger] split_from((Seq::empty(), Seq::empty()), s).0[i],
            ),
        no_lf(split_from((Seq::empty(), Seq::empty()), s).1),
    decreases s.len(),
{
    if s.len() > 0 {
        lemma_split_no_lf(s.drop_last());
        let st = split_from((Seq::empty(), Seq::empty()), s.drop_last());
        if s.last() == '\n' {
            let c = strip_cr(st.1);
            assert(no_lf(c)) by {
                if st.1.len() > 0 && st.1.last() == '\r' {
                    assert forall|k: int| 0 <= k < c.len() implies c[k] != '\n' by {
                        assert(c[k] == st.1[k]);
                    }
                }
            }
            assert forall|i: int| 0 <= i < st.0.push(c).len() implies no_lf(
                #[trigger] st.0.push(c)[i],
            ) by {
                if i < st.0.len() {
                    assert(st.0.push(c)[i] == st.0[i]);
                }
            }
            assert(no_lf(Seq::<char>::empty()));
        } else {
            let c = st.1.push(s.last());
            assert forall|k: int| 0 <= k < c.len() implies c[k] != '\n' by {
                if k < st.1.len() {
                    assert(c[k] == st.1[k]);
                }
            }
        }
    }
}

/// The scan keeps only lines it was given and never an all-classes header.
pub proof fn lemma_scan_keeps_no_lf(st: (Seq<Seq<char>>, bool), ls: Seq<Seq<char>>)
    requires
        forall|i: int| 0 <= i < st.0.len() ==> no_lf(#[trigger] st.0[i]) && !is_all_classes_line(st.0[i]),
        forall|i: int| 0 <= i < ls.len() ==> no_lf(#[trigger] ls[i]),
    ensures
        forall|i: int|
            0 <= i < scan_from(st, ls).0.len() ==> no_lf(#[trigger] scan_from(st, ls).0[i])
                && !is_all_classes_line(scan_from(st, ls).0[i]),
    decreases ls.len(),
{
    if ls.len() > 0 {
        lemma_scan_keeps_no_lf(st, ls.drop_last());
        let p = scan_from(st, ls.drop_last()).0;
        let l = ls.last();
        assert(no_lf(ls[ls.len() - 1]));
        assert forall|i: int| 0 <= i < p.push(l).len() && !is_all_classes_line(l) implies no_lf(
            #[trigger] p.push(l)[i],
        ) && !is_all_classes_line(p.push(l)[i]) by {
            if i < p.len() {
                assert(p.push(l)[i] == p[i]);
            }
        }
    }
}

/// A line that neither starts nor ends with white space is its own trimmed
/// form.
pub proof fn lemma_trim_plain(l: Seq<char>)
    requires
        l.len() > 0,
        !is_space(l[0]),
        !is_space(l.last()),
    ensures
        trim(l) == l,
{
    assert(trim_start(l) == l);
}

/// Filtering a filtered configuration again with the same class keeps the
/// first filter's section for that class, with its threshold of 0.25, drops
/// its closing all-classes section, and appends the same two sections once
/// more: no threshold changes. This holds where no kept line of the original
/// ends with a carriage return (a last line `"a\r"` with no line feed comes
/// back from the first filter as `"a\r\n"`, which the second reads as `"a"`).
pub proof fn lemma_refilter(s: Seq<char>, target: int)
    requires
        forall|k: int|
            0 <= k < kept_lines(lines(s)).len() ==> !ends_cr(#[trigger] kept_lines(lines(s))[k]),
    ensures
        filtered(filtered(s, target), target) == join(kept_lines(lines(s))) + class_section(target)
            + seq!['\n'] + class_section(target) + restrictive_section(),
{
    let kk = kept_lines(lines(s));
    let e = Seq::<char>::empty();
    let d = decimal(target);
    let t1 = "[class-attrs-"@ + d + "]"@;
    let t2 = "pre-cluster-threshold=0.25"@;
    let t4 = "[class-attrs-all]"@;
    let t5 = "pre-cluster-threshold=1.0"@;
    let a = seq![e, t1, t2, e];
    let b = seq![t4, t5];
    reveal_strlit("[class-attrs-");
    reveal_strlit("]");
    reveal_strlit("pre-cluster-threshold=0.25");
    reveal_strlit("[class-attrs-all]");
    reveal_strlit("pre-cluster-threshold=1.0");
    reveal_strlit("\n[class-attrs-");
    reveal_strlit("]\npre-cluster-threshold=0.25\n");
    reveal_strlit("\n[class-attrs-all]\npre-cluster-threshold=1.0\n");
    lemma_decimal_chars(target);
    // The appended text is the lines `a` and then `b`.
    let nl = seq!['\n'];
    assert(a.drop_last() =~= seq![e, t1, t2]);
    assert(seq![e, t1, t2].drop_last() =~= seq![e, t1]);
    assert(seq![e, t1].drop_last() =~= seq![e]);
    assert(seq![e].drop_last() =~= Seq::<Seq<char>>::empty());
    assert(join(seq![e]) =~= e + nl) by {
        assert(join(Seq::<Seq<char>>::empty()) =~= e);
    }
    assert(join(seq![e, t1]) == join(seq![e]) + t1 + nl);
    assert(join(seq![e, t1, t2]) == join(seq![e, t1]) + t2 + nl);
    assert(join(a) == join(seq![e, t1, t2]) + e + nl);
    assert(join(a) =~= e + nl + t1 + nl + t2 + nl + e + nl);
    assert(join(a) =~= class_section(target) + nl);
    assert(b.drop_last() =~= seq![t4]);
    assert(seq![t4].drop_last() =~= Seq::<Seq<char>>::empty());
    assert(join(seq![t4]) =~= t4 + nl) by {
        assert(join(Seq::<Seq<char>>::empty()) =~= e);
    }
    assert(join(b) == join(seq![t4]) + t5 + nl);
    assert(join(b) =~= t4 + nl + t5 + nl);
    assert(nl + join(b) =~= restrictive_section());
    lemma_join_concat(kk, a);
    lemma_join_concat(kk + a, b);
    let o1 = filtered(s, target);
    assert(o1 =~= join(kk + a + b));
    // Its lines are the kept lines, then `a`, then `b`.
    lemma_lines_no_lf(s);
    lemma_scan_keeps_no_lf((Seq::empty(), false), lines(s));
    assert(no_lf(t1)) by {
        assert forall|k: int| 0 <= k < t1.len() implies t1[k] != '\n' by {
            if 13 <= k < 13 + d.len() {
                assert(t1[k] == d[k - 13]);
            }
        }
    }
    let m = kk + a + b;
    assert forall|i: int| 0 <= i < m.len() implies no_lf(#[trigger] m[i]) && !ends_cr(m[i]) by {
        if i < kk.len() {
            assert(m[i] == kk[i]);
        } else if i < kk.len() + 4 {
            assert(m[i] == a[i - kk.len()]);
        } else {
            assert(m[i] == b[i - kk.len() - 4]);
        }
    }
    lemma_lines_of_join(m);
    // The second scan keeps the kept lines and `a`, and drops `b`.
    let st0 = (Seq::<Seq<char>>::empty(), false);
    lemma_scan_concat(st0, kk + a, b);
    lemma_scan_concat(st0, kk, a);
    lemma_scan_plain(st0, kk);
    assert(Seq::<Seq<char>>::empty() + kk =~= kk);
    lemma_trim_plain(t1);
    lemma_trim_plain(t2);
    lemma_trim_plain(t4);
    lemma_trim_plain(t5);
    assert(trim(e) == e);
    assert(t1[13] == d[0]);
    assert(t1 != all_classes_header()) by {
        if t1.len() == all_classes_header().len() {
            assert(t1[13] != all_classes_header()[13]);
        }
    }
    assert(t2[0] != all_classes_header()[0]);
    assert forall|k: int| 0 <= k < a.len() implies !is_all_classes_line(#[trigger] a[k]) by {
        if k == 1 {
            assert(a[k] == t1);
        } else if k == 2 {
            assert(a[k] == t2);
        } else {
            assert(a[k] == e);
        }
    }
    lemma_scan_plain((kk, false), a);
    assert(b =~= seq![t4] + seq![t5]);
    lemma_scan_concat((kk + a, false), seq![t4], seq![t5]);
    lemma_scan_one((kk + a, false), t4);
    assert(is_all_classes_line(t4));
    lemma_scan_one((kk + a, true), t5);
    assert(!is_section_line(t5));
    assert(kept_lines(lines(o1)) == kk + a);
    lemma_join_concat(kk, a);
    assert(filtered(o1, target) =~= join(kk) + class_section(target) + nl + class_section(target)
        + restrictive_section());
}

} // verus!
