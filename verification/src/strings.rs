//! Text cut into lines, words and fields.

use vstd::prelude::*;
use vstd::string::*;

use crate::cli::opt_text;
use crate::text::{chars_of, pieces, split_text, texts};

verus! {

/// Whether a character is white space.
pub open spec fn is_white(c: char) -> bool {
    let n = c as int;
    ||| 0x9 <= n <= 0xd
    ||| n == 0x20
    ||| n == 0x85
    ||| n == 0xa0
    ||| n == 0x1680
    ||| 0x2000 <= n <= 0x200a
    ||| n == 0x2028
    ||| n == 0x2029
    ||| n == 0x202f
    ||| n == 0x205f
    ||| n == 0x3000
}

pub fn white(c: char) -> (r: bool)
    ensures
        r == is_white(c),
{
    let n: u32 = c as u32;
    (0x9 <= n && n <= 0xd) || n == 0x20 || n == 0x85 || n == 0xa0 || n == 0x1680 || (0x2000 <= n
        && n <= 0x200a) || n == 0x2028 || n == 0x2029 || n == 0x202f || n == 0x205f || n == 0x3000
}

/// Whether a character is a control character.
pub open spec fn is_control(c: char) -> bool {
    c as int <= 0x1f || 0x7f <= c as int <= 0x9f
}

pub fn control(c: char) -> (r: bool)
    ensures
        r == is_control(c),
{
    let n: u32 = c as u32;
    n <= 0x1f || (0x7f <= n && n <= 0x9f)
}

/// `s` without the white space at its start.
pub open spec fn without_lead(s: Seq<char>) -> Seq<char>
    decreases s.len(),
{
    if s.len() == 0 || !is_white(s[0]) {
        s
    } else {
        without_lead(s.drop_first())
    }
}

/// `s` without the white space at its end.
pub open spec fn without_trail(s: Seq<char>) -> Seq<char>
    decreases s.len(),
{
    if s.len() == 0 || !is_white(s.last()) {
        s
    } else {
        without_trail(s.drop_last())
    }
}

/// `s` without the white space at both ends.
pub open spec fn trimmed(s: Seq<char>) -> Seq<char> {
    without_trail(without_lead(s))
}

pub fn trim(s: &str) -> (out: String)
    ensures
        out@ == trimmed(s@),
{
    let chars = chars_of(s);
    let total: usize = chars.len();
    let mut start: usize = 0;
    assert(chars@.skip(0) =~= chars@);
    while start < total && white(chars[start])
        invariant
            total == chars@.len(),
            start <= total,
            without_lead(chars@) == without_lead(chars@.skip(start as int)),
        decreases total - start,
    {
        assert(chars@.skip(start as int).drop_first() =~= chars@.skip(start as int + 1));
        start = start + 1;
    }
    let ghost rest = chars@.skip(start as int);
    assert(without_lead(chars@) == rest);
    let mut end: usize = total;
    assert(rest.take(end - start) =~= rest);
    while end > start && white(chars[end - 1])
        invariant
            total == chars@.len(),
            start <= end <= total,
            rest == chars@.skip(start as int),
            without_trail(rest) == without_trail(rest.take(end - start)),
        decreases end,
    {
        assert(rest.take(end - start).last() == chars@[end - 1]);
        assert(rest.take(end - start).drop_last() =~= rest.take(end - start - 1));
        end = end - 1;
    }
    let mut out = String::new();
    let mut i: usize = start;
    assert(out@ =~= rest.take(0));
    while i < end
        invariant
            start <= i <= end <= chars@.len(),
            rest == chars@.skip(start as int),
            out@ == rest.take(i - start),
        decreases end - i,
    {
        out.push(chars[i]);
        assert(out@ =~= rest.take(i - start + 1));
        i = i + 1;
    }
    proof {
        if end > start {
            assert(rest.take(end - start).last() == chars@[end - 1]);
        }
    }
    out
}

/// The first place from `i` on at which `word` stands in `s`.
pub open spec fn place_of(s: Seq<char>, word: Seq<char>, i: nat) -> Option<nat>
    decreases s.len() + 1 - i,
{
    if i + word.len() > s.len() {
        None
    } else if s.subrange(i as int, (i + word.len()) as int) == word {
        Some(i)
    } else {
        place_of(s, word, i + 1)
    }
}

/// Where a word is found, it stands.
pub proof fn lemma_place(s: Seq<char>, word: Seq<char>, i: nat)
    ensures
        place_of(s, word, i) matches Some(p) ==> i <= p && p + word.len() <= s.len()
            && s.subrange(p as int, (p + word.len()) as int) == word,
    decreases s.len() + 1 - i,
{
    if i + word.len() <= s.len() && s.subrange(i as int, (i + word.len()) as int) != word {
        lemma_place(s, word, i + 1);
    }
}

fn word_at(chars: &Vec<char>, word: &Vec<char>, i: usize) -> (r: bool)
    requires
        i + word@.len() <= chars@.len(),
    ensures
        r == (chars@.subrange(i as int, i + word@.len()) == word@),
{
    let total: usize = word.len();
    let size: usize = chars.len();
    let mut k: usize = 0;
    while k < total
        invariant
            total == word@.len(),
            size == chars@.len(),
            k <= total,
            i + total <= size,
            forall|j: int| 0 <= j < k ==> chars@[i + j] == #[trigger] word@[j],
        decreases total - k,
    {
        if chars[i + k] != word[k] {
            assert(chars@.subrange(i as int, i + word@.len())[k as int] != word@[k as int]);
            return false;
        }
        k = k + 1;
    }
    assert(chars@.subrange(i as int, i + word@.len()) =~= word@);
    true
}

fn find(chars: &Vec<char>, word: &Vec<char>, from: usize) -> (r: Option<usize>)
    requires
        from <= chars@.len(),
    ensures
        r is Some == place_of(chars@, word@, from as nat) is Some,
        r matches Some(p) ==> p == place_of(chars@, word@, from as nat)->0 && from <= p && p
            + word@.len() <= chars@.len(),
{
    let total: usize = chars.len();
    let len: usize = word.len();
    let mut i: usize = from;
    while i < total && len <= total - i
        invariant
            total == chars@.len(),
            len == word@.len(),
            from <= i <= total,
            place_of(chars@, word@, from as nat) == place_of(chars@, word@, i as nat),
        decreases total - i,
    {
        if word_at(chars, word, i) {
            return Some(i);
        }
        i = i + 1;
    }
    if i == total && len == 0 {
        assert(chars@.subrange(i as int, i as int) =~= word@);
        return Some(i);
    }
    None
}

/// The text made of the characters from `from` to `to`.
pub fn text_part(chars: &Vec<char>, from: usize, to: usize) -> (s: String)
    requires
        from <= to <= chars@.len(),
    ensures
        s@ == chars@.subrange(from as int, to as int),
{
    let mut s = String::new();
    let mut i: usize = from;
    assert(s@ =~= chars@.subrange(from as int, from as int));
    while i < to
        invariant
            from <= i <= to <= chars@.len(),
            s@ == chars@.subrange(from as int, i as int),
        decreases to - i,
    {
        s.push(chars[i]);
        i = i + 1;
        assert(s@ =~= chars@.subrange(from as int, i as int));
    }
    s
}

/// `s` cut at the first `word` in it: what stands before and what stands behind.
pub open spec fn cut_at(s: Seq<char>, word: Seq<char>) -> Option<(Seq<char>, Seq<char>)> {
    match place_of(s, word, 0) {
        Some(p) => Some((s.take(p as int), s.skip((p + word.len()) as int))),
        None => None,
    }
}

pub open spec fn pair_view(r: Option<(String, String)>) -> Option<(Seq<char>, Seq<char>)> {
    match r {
        Some((a, b)) => Some((a@, b@)),
        None => None,
    }
}

pub fn split_once(s: &str, word: &str) -> (r: Option<(String, String)>)
    ensures
        pair_view(r) == cut_at(s@, word@),
{
    let chars = chars_of(s);
    let sought = chars_of(word);
    match find(&chars, &sought, 0) {
        Some(p) => {
            let total: usize = chars.len();
            let before = text_part(&chars, 0, p);
            let after = text_part(&chars, p + sought.len(), total);
            assert(before@ =~= s@.take(p as int));
            assert(after@ =~= s@.skip(p + word@.len()));
            Some((before, after))
        },
        None => None,
    }
}

/// What stands between the first and the second `word` in `s`, or between the first and
/// the end.
pub open spec fn second_piece(s: Seq<char>, word: Seq<char>) -> Option<Seq<char>> {
    match cut_at(s, word) {
        None => None,
        Some((_, rest)) => match cut_at(rest, word) {
            None => Some(rest),
            Some((between, _)) => Some(between),
        },
    }
}

pub fn second_part(s: &str, word: &str) -> (r: Option<String>)
    ensures
        opt_text(r) == second_piece(s@, word@),
{
    match split_once(s, word) {
        None => None,
        Some((_, rest)) => match split_once(rest.as_str(), word) {
            None => Some(rest),
            Some((between, _)) => Some(between),
        },
    }
}

/// A line without the carriage return at its end.
pub open spec fn without_return(line: Seq<char>) -> Seq<char> {
    if line.len() > 0 && line.last() == '\r' {
        line.drop_last()
    } else {
        line
    }
}

/// The lines of a text. A line ends with a line feed, or a carriage return and a line feed;
/// what stands behind the last one is a line unless it is empty.
pub open spec fn lines_of(s: Seq<char>) -> Seq<Seq<char>> {
    let ps = pieces(s, '\n');
    let ended = ps.drop_last().map_values(|line: Seq<char>| without_return(line));
    if ps.last().len() > 0 {
        ended.push(ps.last())
    } else {
        ended
    }
}

pub fn lines(s: &str) -> (out: Vec<String>)
    ensures
        texts(out@) == lines_of(s@),
{
    let parts = split_text(s, '\n');
    let total: usize = parts.len();
    let ghost ps = texts(parts@);
    let ghost ended = ps.drop_last().map_values(|line: Seq<char>| without_return(line));
    let mut out: Vec<String> = Vec::new();
    let mut i: usize = 0;
    assert(texts(out@) =~= ended.take(0));
    while i + 1 < total
        invariant
            total == parts@.len(),
            total >= 1,
            ps == texts(parts@),
            ended == ps.drop_last().map_values(|line: Seq<char>| without_return(line)),
            i < total,
            texts(out@) == ended.take(i as int),
        decreases total - i,
    {
        let chars = chars_of(parts[i].as_str());
        let len: usize = chars.len();
        let line = if len > 0 && chars[len - 1] == '\r' {
            text_part(&chars, 0, len - 1)
        } else {
            parts[i].clone()
        };
        assert(line@ =~= without_return(ps[i as int]));
        let ghost before = texts(out@);
        out.push(line);
        assert(texts(out@) =~= before.push(line@));
        assert(ended.take(i + 1) =~= ended.take(i as int).push(ended[i as int]));
        i = i + 1;
    }
    assert(ended.take(i as int) =~= ended);
    if parts[i].as_str().unicode_len() > 0 {
        let ghost before = texts(out@);
        out.push(parts[i].clone());
        assert(texts(out@) =~= before.push(ps.last()));
    }
    out
}

/// Whether a character separates the words of a request.
pub open spec fn is_ascii_white(c: char) -> bool {
    c == ' ' || c == '\t' || c == '\n' || c == '\r' || c as int == 0xc
}

fn ascii_white(c: char) -> (r: bool)
    ensures
        r == is_ascii_white(c),
{
    let n: u32 = c as u32;
    n == 0x20 || n == 0x9 || n == 0xa || n == 0xd || n == 0xc
}

/// The words of `s` that have ended, and the one that has not.
pub open spec fn word_scan(s: Seq<char>) -> (Seq<Seq<char>>, Seq<char>)
    decreases s.len(),
{
    if s.len() == 0 {
        (Seq::empty(), Seq::empty())
    } else {
        let (done, word) = word_scan(s.drop_last());
        if !is_ascii_white(s.last()) {
            (done, word.push(s.last()))
        } else if word.len() > 0 {
            (done.push(word), Seq::empty())
        } else {
            (done, word)
        }
    }
}

/// The words of `s`: what white space separates.
pub open spec fn words_of(s: Seq<char>) -> Seq<Seq<char>> {
    let (done, word) = word_scan(s);
    if word.len() > 0 {
        done.push(word)
    } else {
        done
    }
}

pub fn words(s: &str) -> (out: Vec<String>)
    ensures
        texts(out@) == words_of(s@),
{
    let chars = chars_of(s);
    let total: usize = chars.len();
    let mut out: Vec<String> = Vec::new();
    let mut word = String::new();
    let mut i: usize = 0;
    assert(texts(out@) =~= Seq::empty());
    assert(word@ =~= Seq::empty());
    while i < total
        invariant
            total == chars@.len(),
            i <= total,
            (texts(out@), word@) == word_scan(chars@.take(i as int)),
        decreases total - i,
    {
        let c = chars[i];
        assert(chars@.take(i + 1).drop_last() =~= chars@.take(i as int));
        assert(chars@.take(i + 1).last() == c);
        if !ascii_white(c) {
            word.push(c);
        } else if word.as_str().unicode_len() > 0 {
            let ghost before = texts(out@);
            let ghost w = word@;
            out.push(word);
            assert(texts(out@) =~= before.push(w));
            word = String::new();
            assert(word@ =~= Seq::empty());
        }
        i = i + 1;
        proof {
            let (done, left) = word_scan(chars@.take(i as int));
            assert(texts(out@) =~= done);
            assert(word@ =~= left);
        }
    }
    assert(chars@.take(i as int) =~= chars@);
    if word.as_str().unicode_len() > 0 {
        let ghost before = texts(out@);
        let ghost w = word@;
        out.push(word);
        assert(texts(out@) =~= before.push(w));
    }
    out
}

} // verus!
