//! Paths as text: components, parents, joins.

use vstd::prelude::*;
use vstd::string::*;

use crate::text::{begins, chars_of, pieces, same_text, split_text, starts_with, texts};

verus! {

pub open spec fn is_absolute_path(s: Seq<char>) -> bool {
    s.len() > 0 && s[0] == '/'
}

/// The components among the first `n` of `ps`, the pieces of a path between its slashes.
/// Empty pieces are none, nor is a `.` but at the start.
pub open spec fn named_parts(ps: Seq<Seq<char>>, n: nat) -> Seq<Seq<char>>
    decreases n,
{
    if n == 0 {
        Seq::empty()
    } else {
        let before = named_parts(ps, (n - 1) as nat);
        let p = ps[n - 1];
        if p == ""@ || (p == "."@ && n > 1) {
            before
        } else {
            before.push(p)
        }
    }
}

/// The components of a path; `/` stands for the root.
pub open spec fn path_parts(s: Seq<char>) -> Seq<Seq<char>> {
    let named = named_parts(pieces(s, '/'), pieces(s, '/').len());
    if is_absolute_path(s) {
        seq!["/"@] + named
    } else {
        named
    }
}

/// Whether two paths have the same components.
pub open spec fn same_parts(a: Seq<char>, b: Seq<char>) -> bool {
    path_parts(a) == path_parts(b)
}

/// `rel` under `base`; an absolute `rel` stands for itself.
pub open spec fn joined_path(base: Seq<char>, rel: Seq<char>) -> Seq<char> {
    if is_absolute_path(rel) || base.len() == 0 {
        rel
    } else if base.last() == '/' {
        base + rel
    } else {
        base + "/"@ + rel
    }
}

/// The last component, unless it is the root, `.` or `..`.
pub open spec fn last_name(s: Seq<char>) -> Option<Seq<char>> {
    let parts = path_parts(s);
    if parts.len() == 0 || parts.last() == "/"@ || parts.last() == "."@ || parts.last() == ".."@ {
        None
    } else {
        Some(parts.last())
    }
}

/// The length of the shortest beginning of `s`, from `n` characters on, that has the
/// components `parts`.
pub open spec fn shortest_with(s: Seq<char>, parts: Seq<Seq<char>>, n: nat) -> nat
    decreases s.len() - n,
{
    if n >= s.len() || path_parts(s.take(n as int)) == parts {
        n
    } else {
        shortest_with(s, parts, n + 1)
    }
}

/// The path without its last component; nothing for the root and for the empty path.
pub open spec fn parent_of(s: Seq<char>) -> Option<Seq<char>> {
    let parts = path_parts(s);
    if parts.len() == 0 || parts.last() == "/"@ {
        None
    } else {
        Some(s.take(shortest_with(s, parts.drop_last(), 0) as int))
    }
}

/// Whether the last component is a name that ends in `.gz`.
pub open spec fn has_gz_extension(s: Seq<char>) -> bool {
    last_name(s) matches Some(name) && name.len() > 3 && name.skip(name.len() - 3) == ".gz"@
}

/// Whether the path is relative and made of names alone, without `.` and `..`.
pub open spec fn plain_path(s: Seq<char>) -> bool {
    &&& !is_absolute_path(s)
    &&& forall|i: int|
        0 <= i < path_parts(s).len() ==> #[trigger] path_parts(s)[i] != "."@ && path_parts(s)[i]
            != ".."@
}

pub fn is_absolute(s: &str) -> (r: bool)
    ensures
        r == is_absolute_path(s@),
{
    proof {
        reveal_strlit("/");
        assert(begins(s@, "/"@) == is_absolute_path(s@)) by {
            if s@.len() > 0 {
                assert(s@.take(1)[0] == s@[0]);
                assert(s@[0] == '/' ==> s@.take(1) =~= "/"@);
            }
        }
    }
    starts_with(s, "/")
}

/// The components of a path, in order.
pub fn components(s: &str) -> (out: Vec<String>)
    ensures
        texts(out@) == path_parts(s@),
{
    let ps = split_text(s, '/');
    let mut out: Vec<String> = Vec::new();
    let root = is_absolute(s);
    if root {
        out.push("/".to_string());
    }
    let ghost start = if root {
        seq!["/"@]
    } else {
        Seq::empty()
    };
    let ghost all = pieces(s@, '/');
    let mut i: usize = 0;
    assert(texts(out@) =~= start + named_parts(all, 0));
    while i < ps.len()
        invariant
            i <= ps@.len(),
            all == texts(ps@),
            texts(out@) == start + named_parts(all, i as nat),
        decreases ps@.len() - i,
    {
        assert(all[i as int] == ps@[i as int]@);
        let empty = same_text(ps[i].as_str(), "");
        let dot = same_text(ps[i].as_str(), ".");
        let ghost before = out@;
        if !(empty || (dot && i > 0)) {
            out.push(ps[i].clone());
            assert(texts(out@) =~= texts(before).push(all[i as int]));
            assert(named_parts(all, (i + 1) as nat) == named_parts(all, i as nat).push(
                all[i as int],
            ));
        } else {
            assert(named_parts(all, (i + 1) as nat) == named_parts(all, i as nat));
        }
        i = i + 1;
        assert(texts(out@) =~= start + named_parts(all, i as nat));
    }
    assert(texts(out@) =~= path_parts(s@));
    out
}

pub fn join(base: &str, rel: &str) -> (out: String)
    ensures
        out@ == joined_path(base@, rel@),
{
    if is_absolute(rel) {
        return rel.to_string();
    }
    let chars = chars_of(base);
    if chars.len() == 0 {
        return rel.to_string();
    }
    let mut out = base.to_string();
    if chars[chars.len() - 1] != '/' {
        out.append("/");
    }
    out.append(rel);
    out
}

pub fn file_name(s: &str) -> (r: Option<String>)
    ensures
        r is Some <==> last_name(s@) is Some,
        r matches Some(name) ==> last_name(s@) == Some(name@),
{
    let parts = components(s);
    if parts.len() == 0 {
        return None;
    }
    let last = parts[parts.len() - 1].clone();
    assert(last@ == path_parts(s@).last());
    if same_text(last.as_str(), "/") || same_text(last.as_str(), ".") || same_text(
        last.as_str(),
        "..",
    ) {
        return None;
    }
    Some(last)
}

/// Whether the two lists hold the same texts.
pub fn same_texts(a: &Vec<String>, b: &Vec<String>) -> (r: bool)
    ensures
        r == (texts(a@) == texts(b@)),
{
    if a.len() != b.len() {
        assert(texts(a@).len() != texts(b@).len());
        return false;
    }
    let mut i: usize = 0;
    while i < a.len()
        invariant
            i <= a@.len(),
            a@.len() == b@.len(),
            forall|j: int| 0 <= j < i ==> texts(a@)[j] == texts(b@)[j],
        decreases a@.len() - i,
    {
        if !same_text(a[i].as_str(), b[i].as_str()) {
            assert(texts(a@)[i as int] != texts(b@)[i as int]);
            return false;
        }
        i = i + 1;
    }
    assert(texts(a@) =~= texts(b@));
    true
}

pub fn same_path(a: &str, b: &str) -> (r: bool)
    ensures
        r == same_parts(a@, b@),
{
    let pa = components(a);
    let pb = components(b);
    same_texts(&pa, &pb)
}

pub fn parent(s: &str) -> (r: Option<String>)
    ensures
        r is Some <==> parent_of(s@) is Some,
        r matches Some(p) ==> parent_of(s@) == Some(p@),
{
    let mut parts = components(s);
    if parts.len() == 0 {
        return None;
    }
    let last = parts.pop().unwrap();
    assert(last@ == path_parts(s@).last());
    assert(texts(parts@) =~= path_parts(s@).drop_last());
    if same_text(last.as_str(), "/") {
        return None;
    }
    let chars = chars_of(s);
    let ghost goal = path_parts(s@).drop_last();
    let mut n: usize = 0;
    let mut start = String::new();
    assert(start@ =~= s@.take(0));
    while n < chars.len()
        invariant
            n <= chars@.len(),
            chars@ == s@,
            start@ == s@.take(n as int),
            texts(parts@) == goal,
            goal == path_parts(s@).drop_last(),
            shortest_with(s@, goal, 0) == shortest_with(s@, goal, n as nat),
            parent_of(s@) == Some(s@.take(shortest_with(s@, goal, 0) as int)),
        decreases chars@.len() - n,
    {
        let found = components(start.as_str());
        if same_texts(&found, &parts) {
            return Some(start);
        }
        start.push(chars[n]);
        n = n + 1;
        assert(start@ =~= s@.take(n as int));
    }
    Some(start)
}

pub fn has_gz(s: &str) -> (r: bool)
    ensures
        r == has_gz_extension(s@),
{
    match file_name(s) {
        None => false,
        Some(name) => {
            let chars = chars_of(name.as_str());
            let n: usize = chars.len();
            proof {
                reveal_strlit(".gz");
                let name = last_name(s@)->0;
                if name.len() > 3 {
                    let tail = name.skip(name.len() - 3);
                    assert(tail[0] == name[name.len() - 3]);
                    assert(tail[1] == name[name.len() - 2]);
                    assert(tail[2] == name[name.len() - 1]);
                    assert(tail[0] == '.' && tail[1] == 'g' && tail[2] == 'z' ==> tail =~= ".gz"@);
                }
            }
            n > 3 && chars[n - 3] == '.' && chars[n - 2] == 'g' && chars[n - 1] == 'z'
        },
    }
}

pub fn is_plain(s: &str) -> (r: bool)
    ensures
        r == plain_path(s@),
{
    if is_absolute(s) {
        return false;
    }
    let parts = components(s);
    let mut i: usize = 0;
    while i < parts.len()
        invariant
            i <= parts@.len(),
            texts(parts@) == path_parts(s@),
            forall|j: int|
                0 <= j < i ==> #[trigger] path_parts(s@)[j] != "."@ && path_parts(s@)[j] != ".."@,
        decreases parts@.len() - i,
    {
        assert(path_parts(s@)[i as int] == parts@[i as int]@);
        if same_text(parts[i].as_str(), ".") || same_text(parts[i].as_str(), "..") {
            return false;
        }
        i = i + 1;
    }
    true
}

/// The path under `base` of a file that a report names, given the report's run and the
/// file's path in it. Neither may lead out of `base`.
pub fn join_report_path(base: &str, run: &str, rel: &str) -> (r: Result<String, String>)
    ensures
        r is Ok <==> plain_path(run@) && plain_path(rel@),
        r matches Ok(path) ==> path@ == joined_path(joined_path(base@, run@), rel@),
        r matches Err(e) ==> e@ == if !plain_path(run@) {
            "unsafe run path in report: "@ + run@
        } else {
            "unsafe relative file path in report: "@ + rel@
        },
{
    if !is_plain(run) {
        return Err("unsafe run path in report: ".to_string().concat(run));
    }
    if !is_plain(rel) {
        return Err("unsafe relative file path in report: ".to_string().concat(rel));
    }
    let under = join(base, run);
    Ok(join(under.as_str(), rel))
}

/// A path that `join_report_path` gives begins with the base that it was given.
pub proof fn law_report_path_stays_under_base(base: Seq<char>, run: Seq<char>, rel: Seq<char>)
    requires
        base.len() > 0,
        plain_path(run),
        plain_path(rel),
    ensures
        begins(joined_path(joined_path(base, run), rel), base),
{
    reveal_strlit("/");
    let under = joined_path(base, run);
    assert(under.take(base.len() as int) =~= base);
    let path = joined_path(under, rel);
    assert(path.take(base.len() as int) =~= under.take(base.len() as int));
}

} // verus!
