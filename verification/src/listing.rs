//! The listing of a directory: its names in order, one on a line.

use vstd::prelude::*;
use vstd::string::*;
use vstd::utf8::*;

use crate::codec::write_all;
use crate::text::{begins, join_texts, joined, starts_with, texts};

verus! {

/// A name in a directory: its text, and whether the text is the name itself. A name that
/// is no text is shown with stand-ins.
pub struct DirName {
    pub text: String,
    pub exact: bool,
}

/// Whether the name is one that a network filesystem leaves of a deleted file.
pub open spec fn is_tombstone(name: DirName) -> bool {
    name.exact && begins(name.text@, ".nfs"@)
}

pub fn is_ignored_dir_entry(name: &DirName) -> (r: bool)
    ensures
        r == is_tombstone(*name),
{
    name.exact && starts_with(name.text.as_str(), ".nfs")
}

/// The texts of the names that count.
pub open spec fn listed_names(names: Seq<DirName>) -> Seq<Seq<char>>
    decreases names.len(),
{
    if names.len() == 0 {
        Seq::empty()
    } else {
        let before = listed_names(names.drop_last());
        if is_tombstone(names.last()) {
            before
        } else {
            before.push(names.last().text@)
        }
    }
}

/// Whether `a` comes before `b` or is `b`, in the order of their bytes.
pub open spec fn bytes_in_order(a: Seq<u8>, b: Seq<u8>) -> bool
    decreases a.len(),
{
    if a.len() == 0 {
        true
    } else if b.len() == 0 {
        false
    } else if a[0] != b[0] {
        a[0] < b[0]
    } else {
        bytes_in_order(a.drop_first(), b.drop_first())
    }
}

pub open spec fn texts_in_order(a: Seq<char>, b: Seq<char>) -> bool {
    bytes_in_order(encode_utf8(a), encode_utf8(b))
}

/// `s` with `t` put in before the first text that comes after it.
pub open spec fn inserted(s: Seq<Seq<char>>, t: Seq<char>) -> Seq<Seq<char>>
    decreases s.len(),
{
    if s.len() == 0 {
        seq![t]
    } else if texts_in_order(s.last(), t) {
        s.push(t)
    } else {
        inserted(s.drop_last(), t).push(s.last())
    }
}

/// The texts in order.
pub open spec fn in_order(s: Seq<Seq<char>>) -> Seq<Seq<char>>
    decreases s.len(),
{
    if s.len() == 0 {
        Seq::empty()
    } else {
        inserted(in_order(s.drop_last()), s.last())
    }
}

/// The bytes of the listing.
pub open spec fn listing_bytes(names: Seq<DirName>) -> Seq<u8> {
    encode_utf8(joined(in_order(listed_names(names)), "\n"@))
}

pub open spec fn all_in_order(s: Seq<Seq<char>>) -> bool {
    forall|i: int, j: int| 0 <= i < j < s.len() ==> texts_in_order(#[trigger] s[i], #[trigger] s[j])
}

proof fn lemma_order_total(a: Seq<u8>, b: Seq<u8>)
    ensures
        bytes_in_order(a, b) || bytes_in_order(b, a),
    decreases a.len(),
{
    if a.len() > 0 && b.len() > 0 && a[0] == b[0] {
        lemma_order_total(a.drop_first(), b.drop_first());
    }
}

proof fn lemma_order_transitive(a: Seq<u8>, b: Seq<u8>, c: Seq<u8>)
    requires
        bytes_in_order(a, b),
        bytes_in_order(b, c),
    ensures
        bytes_in_order(a, c),
    decreases a.len(),
{
    if a.len() > 0 && b.len() > 0 && c.len() > 0 && a[0] == b[0] && b[0] == c[0] {
        lemma_order_transitive(a.drop_first(), b.drop_first(), c.drop_first());
    }
}

proof fn lemma_inserted(s: Seq<Seq<char>>, t: Seq<char>)
    requires
        all_in_order(s),
    ensures
        all_in_order(inserted(s, t)),
        inserted(s, t).to_multiset() == s.to_multiset().insert(t),
    decreases s.len(),
{
    broadcast use vstd::seq_lib::group_to_multiset_ensures;

    if s.len() == 0 {
        assert(s.push(t) =~= seq![t]);
        assert(s.to_multiset() =~= vstd::multiset::Multiset::empty());
    } else if texts_in_order(s.last(), t) {
        let out = s.push(t);
        assert forall|i: int, j: int| 0 <= i < j < out.len() implies texts_in_order(
            #[trigger] out[i],
            #[trigger] out[j],
        ) by {
            if j == s.len() && i < s.len() - 1 {
                assert(texts_in_order(s[i], s[s.len() - 1]));
                lemma_order_transitive(encode_utf8(s[i]), encode_utf8(s.last()), encode_utf8(t));
            }
        }
    } else {
        let less = s.drop_last();
        lemma_inserted(less, t);
        let front = inserted(less, t);
        let out = front.push(s.last());
        lemma_order_total(encode_utf8(s.last()), encode_utf8(t));
        assert(less.push(s.last()) =~= s);
        assert forall|i: int, j: int| 0 <= i < j < out.len() implies texts_in_order(
            #[trigger] out[i],
            #[trigger] out[j],
        ) by {
            if j == front.len() {
                assert(front.to_multiset().count(front[i]) > 0) by {
                    assert(front.contains(front[i]));
                }
                if front[i] != t {
                    assert(less.to_multiset().count(front[i]) > 0);
                    assert(less.contains(front[i]));
                    let k = choose|k: int| 0 <= k < less.len() && less[k] == front[i];
                    assert(texts_in_order(s[k], s[s.len() - 1]));
                }
            }
        }
        assert(out.to_multiset() =~= s.to_multiset().insert(t));
    }
}

/// A listing holds the names that count, each as often as the directory does, in the order
/// of their bytes.
pub proof fn law_listing_is_in_order(s: Seq<Seq<char>>)
    ensures
        all_in_order(in_order(s)),
        in_order(s).to_multiset() == s.to_multiset(),
    decreases s.len(),
{
    broadcast use vstd::seq_lib::group_to_multiset_ensures;

    if s.len() > 0 {
        law_listing_is_in_order(s.drop_last());
        lemma_inserted(in_order(s.drop_last()), s.last());
        assert(s.drop_last().push(s.last()) =~= s);
    }
}

fn bytes_at_most(a: &[u8], b: &[u8]) -> (r: bool)
    ensures
        r == bytes_in_order(a@, b@),
{
    let mut i: usize = 0;
    assert(a@.skip(0) =~= a@);
    assert(b@.skip(0) =~= b@);
    while i < a.len()
        invariant
            i <= a@.len(),
            i <= b@.len(),
            bytes_in_order(a@, b@) == bytes_in_order(a@.skip(i as int), b@.skip(i as int)),
        decreases a@.len() - i,
    {
        if i == b.len() {
            return false;
        }
        if a[i] != b[i] {
            return a[i] < b[i];
        }
        assert(a@.skip(i as int).drop_first() =~= a@.skip(i as int + 1));
        assert(b@.skip(i as int).drop_first() =~= b@.skip(i as int + 1));
        i = i + 1;
    }
    true
}

fn text_at_most(a: &str, b: &str) -> (r: bool)
    ensures
        r == texts_in_order(a@, b@),
{
    bytes_at_most(a.as_bytes(), b.as_bytes())
}

/// Puts `t` in before the first text that comes after it.
pub fn insert_text(s: &mut Vec<String>, t: String)
    ensures
        texts(final(s)@) == inserted(texts(old(s)@), t@),
{
    let mut at: usize = s.len();
    let ghost all = texts(s@);
    assert(all.take(at as int) =~= all);
    assert(all.skip(at as int) =~= Seq::empty());
    assert(inserted(all, t@) =~= inserted(all.take(at as int), t@) + all.skip(at as int));
    while at > 0 && !text_at_most(s[at - 1].as_str(), t.as_str())
        invariant
            at <= s@.len(),
            all == texts(s@),
            s@ == old(s)@,
            inserted(all, t@) == inserted(all.take(at as int), t@) + all.skip(at as int),
        decreases at,
    {
        proof {
            let head = all.take(at as int);
            assert(head.last() == s@[at as int - 1]@);
            assert(head.drop_last() =~= all.take(at as int - 1));
            assert(inserted(head, t@) + all.skip(at as int) =~= inserted(
                all.take(at as int - 1),
                t@,
            ) + all.skip(at as int - 1));
        }
        at = at - 1;
    }
    proof {
        let head = all.take(at as int);
        if at > 0 {
            assert(head.last() == s@[at as int - 1]@);
        }
        assert(inserted(head, t@) =~= head.push(t@));
    }
    let ghost text = t@;
    s.insert(at, t);
    assert(texts(s@) =~= all.take(at as int).push(text) + all.skip(at as int));
}

/// The listing of a directory that holds `names`.
pub fn read_dir_listing(names: &Vec<DirName>) -> (out: Vec<u8>)
    ensures
        out@ == listing_bytes(names@),
{
    let mut sorted: Vec<String> = Vec::new();
    let mut i: usize = 0;
    assert(texts(sorted@) =~= in_order(listed_names(names@.take(0))));
    while i < names.len()
        invariant
            i <= names@.len(),
            texts(sorted@) == in_order(listed_names(names@.take(i as int))),
        decreases names@.len() - i,
    {
        proof {
            assert(names@.take(i as int + 1).drop_last() =~= names@.take(i as int));
            let before = listed_names(names@.take(i as int));
            let text = names@[i as int].text@;
            assert(before.push(text).drop_last() =~= before);
            assert(before.push(text).last() == text);
        }
        if !is_ignored_dir_entry(&names[i]) {
            insert_text(&mut sorted, names[i].text.clone());
        }
        i = i + 1;
    }
    assert(names@.take(i as int) =~= names@);
    let listing = join_texts(&sorted, "\n");
    let mut out: Vec<u8> = Vec::new();
    write_all(&mut out, listing.as_str().as_bytes());
    assert(out@ =~= listing_bytes(names@));
    out
}

} // verus!
