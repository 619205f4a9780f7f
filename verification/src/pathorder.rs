//! The order of paths: component by component, as a sorted map keeps them.

use vstd::prelude::*;
use vstd::string::*;

use crate::paths::{components, path_parts, same_parts};
use crate::text::{chars_of, same_text, texts};

verus! {

/// The root comes first, then `.`, then `..`, then names.
pub open spec fn part_rank(part: Seq<char>) -> int {
    if part == "/"@ {
        0
    } else if part == "."@ {
        1
    } else if part == ".."@ {
        2
    } else {
        3
    }
}

/// Whether the text `a` comes before `b`, in the order of their characters.
pub open spec fn chars_before(a: Seq<char>, b: Seq<char>) -> bool
    decreases a.len(),
{
    if b.len() == 0 {
        false
    } else if a.len() == 0 {
        true
    } else if a[0] != b[0] {
        a[0] < b[0]
    } else {
        chars_before(a.drop_first(), b.drop_first())
    }
}

pub open spec fn part_before(a: Seq<char>, b: Seq<char>) -> bool {
    part_rank(a) < part_rank(b) || (part_rank(a) == 3 && part_rank(b) == 3 && chars_before(a, b))
}

pub open spec fn parts_before(a: Seq<Seq<char>>, b: Seq<Seq<char>>) -> bool
    decreases a.len(),
{
    if b.len() == 0 {
        false
    } else if a.len() == 0 {
        true
    } else if a[0] != b[0] {
        part_before(a[0], b[0])
    } else {
        parts_before(a.drop_first(), b.drop_first())
    }
}

/// Whether the path `a` comes before the path `b`.
pub open spec fn path_before(a: Seq<char>, b: Seq<char>) -> bool {
    parts_before(path_parts(a), path_parts(b))
}

proof fn lemma_chars_transitive(a: Seq<char>, b: Seq<char>, c: Seq<char>)
    requires
        chars_before(a, b),
        chars_before(b, c),
    ensures
        chars_before(a, c),
    decreases a.len(),
{
    if a.len() > 0 && a[0] == b[0] && b[0] == c[0] {
        lemma_chars_transitive(a.drop_first(), b.drop_first(), c.drop_first());
    }
}

proof fn lemma_chars_total(a: Seq<char>, b: Seq<char>)
    ensures
        a == b || chars_before(a, b) || chars_before(b, a),
        a == b ==> !chars_before(a, b),
    decreases a.len(),
{
    if a.len() > 0 && b.len() > 0 && a[0] == b[0] {
        lemma_chars_total(a.drop_first(), b.drop_first());
        if a.drop_first() == b.drop_first() {
            assert(a =~= seq![a[0]] + a.drop_first());
            assert(b =~= seq![b[0]] + b.drop_first());
        }
    } else if a.len() == 0 && b.len() == 0 {
        assert(a =~= b);
    }
}

proof fn lemma_parts_transitive(a: Seq<Seq<char>>, b: Seq<Seq<char>>, c: Seq<Seq<char>>)
    requires
        parts_before(a, b),
        parts_before(b, c),
    ensures
        parts_before(a, c),
    decreases a.len(),
{
    if a.len() > 0 {
        if a[0] == b[0] && b[0] == c[0] {
            lemma_parts_transitive(a.drop_first(), b.drop_first(), c.drop_first());
        } else if a[0] != b[0] && b[0] != c[0] {
            if part_rank(a[0]) == 3 && part_rank(b[0]) == 3 && part_rank(c[0]) == 3 {
                lemma_chars_transitive(a[0], b[0], c[0]);
                lemma_chars_total(a[0], c[0]);
            }
        }
    }
}

proof fn lemma_parts_total(a: Seq<Seq<char>>, b: Seq<Seq<char>>)
    ensures
        a == b || parts_before(a, b) || parts_before(b, a),
        a == b ==> !parts_before(a, b),
    decreases a.len(),
{
    if a.len() > 0 && b.len() > 0 {
        if a[0] == b[0] {
            lemma_parts_total(a.drop_first(), b.drop_first());
            if a.drop_first() == b.drop_first() {
                assert(a =~= seq![a[0]] + a.drop_first());
                assert(b =~= seq![b[0]] + b.drop_first());
            }
        } else {
            lemma_chars_total(a[0], b[0]);
        }
    } else if a.len() == 0 && b.len() == 0 {
        assert(a =~= b);
    }
}

/// Paths are ordered: of two paths with different components one comes before the other,
/// and never both or one before itself; what comes before a path comes before all that
/// come behind it.
pub proof fn law_paths_are_ordered(a: Seq<char>, b: Seq<char>, c: Seq<char>)
    ensures
        same_parts(a, b) || path_before(a, b) || path_before(b, a),
        same_parts(a, b) ==> !path_before(a, b),
        !(path_before(a, b) && path_before(b, a)),
        path_before(a, b) && path_before(b, c) ==> path_before(a, c),
{
    let (pa, pb, pc) = (path_parts(a), path_parts(b), path_parts(c));
    lemma_parts_total(pa, pb);
    lemma_parts_total(pa, pa);
    if path_before(a, b) && path_before(b, a) {
        lemma_parts_transitive(pa, pb, pa);
    }
    if path_before(a, b) && path_before(b, c) {
        lemma_parts_transitive(pa, pb, pc);
    }
}

fn rank(part: &str) -> (r: u8)
    ensures
        r == part_rank(part@),
{
    if same_text(part, "/") {
        0
    } else if same_text(part, ".") {
        1
    } else if same_text(part, "..") {
        2
    } else {
        3
    }
}

fn smaller(a: char, b: char) -> (r: bool)
    ensures
        r == (a < b),
{
    let m: u32 = a as u32;
    let n: u32 = b as u32;
    m < n
}

fn text_before(a: &str, b: &str) -> (r: bool)
    ensures
        r == chars_before(a@, b@),
{
    let x = chars_of(a);
    let y = chars_of(b);
    let mut i: usize = 0;
    assert(x@.skip(0) =~= x@);
    assert(y@.skip(0) =~= y@);
    while i < x.len() && i < y.len()
        invariant
            x@ == a@,
            y@ == b@,
            i <= x@.len(),
            i <= y@.len(),
            chars_before(x@, y@) == chars_before(x@.skip(i as int), y@.skip(i as int)),
        decreases x@.len() - i,
    {
        assert(x@.skip(i as int).drop_first() =~= x@.skip(i + 1));
        assert(y@.skip(i as int).drop_first() =~= y@.skip(i + 1));
        if x[i] != y[i] {
            return smaller(x[i], y[i]);
        }
        i = i + 1;
    }
    i < y.len()
}

/// Whether `a` comes before `b`.
pub fn comes_before(a: &str, b: &str) -> (r: bool)
    ensures
        r == path_before(a@, b@),
{
    let x = components(a);
    let y = components(b);
    let ghost p = texts(x@);
    let ghost q = texts(y@);
    let mut i: usize = 0;
    assert(p.skip(0) =~= p);
    assert(q.skip(0) =~= q);
    while i < x.len() && i < y.len()
        invariant
            p == texts(x@),
            q == texts(y@),
            p == path_parts(a@),
            q == path_parts(b@),
            i <= x@.len(),
            i <= y@.len(),
            parts_before(p, q) == parts_before(p.skip(i as int), q.skip(i as int)),
        decreases x@.len() - i,
    {
        assert(p.skip(i as int).drop_first() =~= p.skip(i + 1));
        assert(q.skip(i as int).drop_first() =~= q.skip(i + 1));
        assert(p[i as int] == x@[i as int]@);
        assert(q[i as int] == y@[i as int]@);
        if !same_text(x[i].as_str(), y[i].as_str()) {
            assert(p.skip(i as int)[0] == p[i as int]);
            assert(q.skip(i as int)[0] == q[i as int]);
            let m: u8 = rank(x[i].as_str());
            let n: u8 = rank(y[i].as_str());
            return m < n || (m == 3 && n == 3 && text_before(x[i].as_str(), y[i].as_str()));
        }
        i = i + 1;
    }
    i < y.len()
}

} // verus!
