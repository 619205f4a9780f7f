//! How texts, words, lines and paths are taken apart and put together.

use vstd::prelude::*;

use crate::expected::below;
use crate::http_laws::{all_digits, decimal, has_char, stands_at};
use crate::listing::bytes_in_order;
use crate::pathorder::{chars_before, parts_before};
use crate::paths::{
    has_gz_extension, joined_path, last_name, named_parts, parent_of, path_parts, plain_path,
    shortest_with,
};
use crate::strings::{
    cut_at, is_ascii_white, is_control, is_white, lines_of, place_of, trimmed, without_lead,
    without_trail, word_scan, words_of,
};
use crate::text::{
    ascii_lower, dec, dec_int, hex, joined, lemma_dec_digits, pad_left, pad_right, pieces,
};

verus! {

/// A text without the separator is one piece.
pub proof fn law_one_piece(s: Seq<char>, sep: char)
    requires
        !has_char(s, sep),
    ensures
        pieces(s, sep) == seq![s],
    decreases s.len(),
{
    if s.len() > 0 {
        let less = s.drop_last();
        assert forall|i: int| 0 <= i < less.len() implies less[i] != sep by {
            assert(less[i] == s[i]);
        }
        law_one_piece(less, sep);
        assert(s[s.len() - 1] == s.last());
        assert(less.push(s.last()) =~= s);
        assert(pieces(s, sep) =~= seq![s]);
    } else {
        assert(s =~= Seq::empty());
    }
}

pub(crate) proof fn lemma_some_piece(s: Seq<char>, sep: char)
    ensures
        pieces(s, sep).len() >= 1,
    decreases s.len(),
{
    if s.len() > 0 {
        lemma_some_piece(s.drop_last(), sep);
    }
}

/// The pieces of two texts with the separator between them are those of the one and those of
/// the other.
pub proof fn law_pieces_of_both(a: Seq<char>, sep: char, b: Seq<char>)
    ensures
        pieces(a + seq![sep] + b, sep) == pieces(a, sep) + pieces(b, sep),
    decreases b.len(),
{
    let s = a + seq![sep] + b;
    lemma_some_piece(a, sep);
    lemma_some_piece(b, sep);
    if b.len() == 0 {
        assert(s.drop_last() =~= a);
        assert(pieces(s, sep) =~= pieces(a, sep) + pieces(b, sep));
    } else {
        let less = b.drop_last();
        law_pieces_of_both(a, sep, less);
        lemma_some_piece(less, sep);
        assert(s.drop_last() =~= a + seq![sep] + less);
        assert(s.last() == b.last());
        let before = pieces(a, sep) + pieces(less, sep);
        assert(before.last() == pieces(less, sep).last());
        assert(before.drop_last() =~= pieces(a, sep) + pieces(less, sep).drop_last());
        assert(pieces(s, sep) =~= pieces(a, sep) + pieces(b, sep));
    }
}

/// Texts that were joined are split back, where none of them has the separator.
pub proof fn law_joined_is_split_back(parts: Seq<Seq<char>>, sep: char)
    requires
        parts.len() > 0,
        forall|i: int| 0 <= i < parts.len() ==> !has_char(#[trigger] parts[i], sep),
    ensures
        pieces(joined(parts, seq![sep]), sep) == parts,
    decreases parts.len(),
{
    if parts.len() == 1 {
        law_one_piece(parts[0], sep);
        assert(parts =~= seq![parts[0]]);
    } else {
        let less = parts.drop_last();
        assert forall|i: int| 0 <= i < less.len() implies !has_char(#[trigger] less[i], sep) by {
            assert(less[i] == parts[i]);
        }
        law_joined_is_split_back(less, sep);
        assert(parts[parts.len() - 1] == parts.last());
        law_one_piece(parts.last(), sep);
        law_pieces_of_both(joined(less, seq![sep]), sep, parts.last());
        assert(less + seq![parts.last()] =~= parts);
    }
}

/// A word is found at the first place at which it stands, and not found where it stands
/// nowhere.
pub proof fn law_words_are_found(s: Seq<char>, word: Seq<char>, i: nat)
    ensures
        match place_of(s, word, i) {
            Some(p) => i <= p && stands_at(s, word, p as int) && forall|k: int|
                i <= k < p ==> !#[trigger] stands_at(s, word, k),
            None => forall|k: int| i <= k ==> !#[trigger] stands_at(s, word, k),
        },
    decreases s.len() + 1 - i,
{
    if i + word.len() <= s.len() {
        if s.subrange(i as int, (i + word.len()) as int) == word {
            assert(stands_at(s, word, i as int));
        } else {
            law_words_are_found(s, word, i + 1);
            assert(!stands_at(s, word, i as int));
        }
    }
}

/// A text is cut at the first word in it: what stands before, the word and what stands behind
/// make the text.
pub proof fn law_texts_are_cut_at_the_first_word(s: Seq<char>, word: Seq<char>)
    ensures
        match cut_at(s, word) {
            Some((before, behind)) => {
                &&& s == before + word + behind
                &&& forall|k: int| 0 <= k < before.len() ==> !#[trigger] stands_at(s, word, k)
            },
            None => forall|k: int| 0 <= k ==> !#[trigger] stands_at(s, word, k),
        },
{
    law_words_are_found(s, word, 0);
    if let Some((before, behind)) = cut_at(s, word) {
        assert(s =~= before + word + behind);
    }
}

/// White space at the ends goes, and nothing else: what is left neither begins nor ends with
/// any.
pub proof fn law_trimmed_has_no_white_ends(s: Seq<char>)
    ensures
        exists|i: int, j: int|
            0 <= i <= j <= s.len() && trimmed(s) == #[trigger] s.subrange(i, j) && (forall|k: int|
                0 <= k < i || j <= k < s.len() ==> is_white(#[trigger] s[k])),
        trimmed(s).len() > 0 ==> !is_white(trimmed(s)[0]) && !is_white(trimmed(s).last()),
{
    lemma_without_lead(s);
    let i = choose|i: int|
        0 <= i <= s.len() && without_lead(s) == #[trigger] s.skip(i) && (forall|k: int|
            0 <= k < i ==> is_white(#[trigger] s[k]));
    let rest = s.skip(i);
    lemma_without_trail(rest);
    let j = choose|j: int|
        0 <= j <= rest.len() && without_trail(rest) == #[trigger] rest.take(j) && (forall|k: int|
            j <= k < rest.len() ==> is_white(#[trigger] rest[k]));
    assert(rest.take(j) =~= s.subrange(i, i + j));
    assert forall|k: int| 0 <= k < i || i + j <= k < s.len() implies is_white(#[trigger] s[k]) by {
        if k >= i + j {
            assert(rest[k - i] == s[k]);
        }
    }
}

proof fn lemma_without_lead(s: Seq<char>)
    ensures
        exists|i: int|
            0 <= i <= s.len() && without_lead(s) == #[trigger] s.skip(i) && (forall|k: int|
                0 <= k < i ==> is_white(#[trigger] s[k])),
        without_lead(s).len() > 0 ==> !is_white(without_lead(s)[0]),
    decreases s.len(),
{
    if s.len() == 0 || !is_white(s[0]) {
        assert(s.skip(0) =~= s);
    } else {
        let less = s.drop_first();
        lemma_without_lead(less);
        let i = choose|i: int|
            0 <= i <= less.len() && without_lead(less) == #[trigger] less.skip(i) && (forall|
                k: int,
            | 0 <= k < i ==> is_white(#[trigger] less[k]));
        assert(less.skip(i) =~= s.skip(i + 1));
        assert forall|k: int| 0 <= k < i + 1 implies is_white(#[trigger] s[k]) by {
            if k > 0 {
                assert(less[k - 1] == s[k]);
            }
        }
    }
}

proof fn lemma_without_trail(s: Seq<char>)
    ensures
        exists|j: int|
            0 <= j <= s.len() && without_trail(s) == #[trigger] s.take(j) && (forall|k: int|
                j <= k < s.len() ==> is_white(#[trigger] s[k])),
        without_trail(s).len() > 0 ==> !is_white(without_trail(s).last()),
    decreases s.len(),
{
    if s.len() == 0 || !is_white(s.last()) {
        assert(s.take(s.len() as int) =~= s);
    } else {
        let less = s.drop_last();
        lemma_without_trail(less);
        let j = choose|j: int|
            0 <= j <= less.len() && without_trail(less) == #[trigger] less.take(j) && (forall|
                k: int,
            | j <= k < less.len() ==> is_white(#[trigger] less[k]));
        assert(less.take(j) =~= s.take(j));
        assert forall|k: int| j <= k < s.len() implies is_white(#[trigger] s[k]) by {
            if k < s.len() - 1 {
                assert(less[k] == s[k]);
            }
        }
    }
}

/// A text without white space is one word, and an empty one none.
pub proof fn law_one_word(s: Seq<char>)
    requires
        forall|i: int| 0 <= i < s.len() ==> !is_ascii_white(#[trigger] s[i]),
    ensures
        words_of(s) == if s.len() > 0 {
            seq![s]
        } else {
            Seq::empty()
        },
{
    lemma_one_word(s);
    if s.len() > 0 {
        assert(words_of(s) =~= seq![s]);
    }
}

proof fn lemma_one_word(s: Seq<char>)
    requires
        forall|i: int| 0 <= i < s.len() ==> !is_ascii_white(#[trigger] s[i]),
    ensures
        word_scan(s) == (Seq::<Seq<char>>::empty(), s),
    decreases s.len(),
{
    if s.len() > 0 {
        let less = s.drop_last();
        assert forall|i: int| 0 <= i < less.len() implies !is_ascii_white(#[trigger] less[i]) by {
            assert(less[i] == s[i]);
        }
        lemma_one_word(less);
        assert(s[s.len() - 1] == s.last());
        assert(less.push(s.last()) =~= s);
    } else {
        assert(s =~= Seq::empty());
    }
}

/// The words of two texts with white space between them are those of the one and those of the
/// other.
pub proof fn law_words_of_both(a: Seq<char>, c: char, b: Seq<char>)
    requires
        c == ' ' || c == '\t' || c == '\n' || c == '\r',
    ensures
        words_of(a + seq![c] + b) == words_of(a) + words_of(b),
{
    lemma_word_scan(a, c, b);
    assert(words_of(a + seq![c] + b) =~= words_of(a) + words_of(b));
}

proof fn lemma_word_scan(a: Seq<char>, c: char, b: Seq<char>)
    requires
        is_ascii_white(c),
    ensures
        word_scan(a + seq![c] + b).0 == words_of(a) + word_scan(b).0,
        word_scan(a + seq![c] + b).1 == word_scan(b).1,
    decreases b.len(),
{
    let s = a + seq![c] + b;
    if b.len() == 0 {
        assert(s.drop_last() =~= a);
        assert(s.last() == c);
        assert(word_scan(s).0 =~= words_of(a) + word_scan(b).0);
    } else {
        let less = b.drop_last();
        lemma_word_scan(a, c, less);
        assert(s.drop_last() =~= a + seq![c] + less);
        assert(s.last() == b.last());
        assert(word_scan(s).0 =~= words_of(a) + word_scan(b).0);
    }
}

/// A line ends at its line feed, and a carriage return before that is not part of it.
pub proof fn law_lines_end_at_their_line_feed(line: Seq<char>, rest: Seq<char>)
    requires
        !has_char(line, '\n'),
        line.len() == 0 || line.last() != '\r',
    ensures
        lines_of(line + seq!['\n'] + rest) == seq![line] + lines_of(rest),
        lines_of(line + seq!['\r', '\n'] + rest) == seq![line] + lines_of(rest),
        lines_of(line) == if line.len() > 0 {
            seq![line]
        } else {
            Seq::empty()
        },
{
    lemma_some_piece(rest, '\n');
    law_one_piece(line, '\n');
    law_pieces_of_both(line, '\n', rest);
    let one = seq![line];
    let ps = pieces(rest, '\n');
    let f = |l: Seq<char>| crate::strings::without_return(l);
    assert((one + ps).last() == ps.last());
    assert((one + ps).drop_last() =~= one + ps.drop_last());
    assert((one + ps.drop_last()).map_values(f) =~= one + ps.drop_last().map_values(f));
    assert(lines_of(line + seq!['\n'] + rest) =~= one + lines_of(rest));
    let ended = line.push('\r');
    assert forall|i: int| 0 <= i < ended.len() implies ended[i] != '\n' by {
        if i < line.len() {
            assert(ended[i] == line[i]);
        }
    }
    law_one_piece(ended, '\n');
    law_pieces_of_both(ended, '\n', rest);
    assert(line + seq!['\r', '\n'] + rest =~= ended + seq!['\n'] + rest);
    let other = seq![ended];
    assert((other + ps).last() == ps.last());
    assert((other + ps).drop_last() =~= other + ps.drop_last());
    assert(ended.drop_last() =~= line);
    assert((other + ps.drop_last()).map_values(f) =~= one + ps.drop_last().map_values(f));
    assert(lines_of(ended + seq!['\n'] + rest) =~= one + lines_of(rest));
    assert(one.drop_last().map_values(f) =~= Seq::empty());
    if line.len() > 0 {
        assert(lines_of(line) =~= one);
    } else {
        assert(lines_of(line) =~= Seq::empty());
    }
}

/// The decimal digits of a number make that number, without zeros in front.
pub proof fn law_digits_make_the_number(n: nat)
    ensures
        all_digits(dec(n)),
        decimal(dec(n)) == n,
        n > 0 ==> dec(n)[0] != '0',
    decreases n,
{
    lemma_dec_digits(n);
    if n >= 10 {
        law_digits_make_the_number(n / 10);
        lemma_dec_digits(n / 10);
        assert(dec(n).drop_last() =~= dec(n / 10));
        assert(dec(n)[0] == dec(n / 10)[0]);
    } else {
        assert(decimal(dec(n).drop_last()) == 0);
    }
}

/// A negative number has a minus sign before the digits of its absolute value.
pub proof fn law_negative_numbers_have_a_sign(n: int)
    ensures
        n < 0 ==> dec_int(n)[0] == '-' && decimal(dec_int(n).skip(1)) == -n,
        n >= 0 ==> decimal(dec_int(n)) == n && dec_int(n)[0] != '-',
{
    if n < 0 {
        law_digits_make_the_number((-n) as nat);
        assert(dec_int(n).skip(1) =~= dec((-n) as nat));
    } else {
        law_digits_make_the_number(n as nat);
        lemma_dec_digits(n as nat);
    }
}

/// The value of a digit from `0` to `9` or from `a` to `f`.
pub open spec fn sixteenth(c: char) -> int {
    if '0' <= c <= '9' {
        c as int - '0' as int
    } else {
        c as int - 'a' as int + 10
    }
}

/// The number that hexadecimal digits make.
pub open spec fn hexadecimal(s: Seq<char>) -> int
    decreases s.len(),
{
    if s.len() == 0 {
        0
    } else {
        16 * hexadecimal(s.drop_last()) + sixteenth(s.last())
    }
}

/// The hexadecimal digits of a number make that number, without zeros in front.
pub proof fn law_hex_digits_make_the_number(n: nat)
    ensures
        hexadecimal(hex(n)) == n,
        hex(n).len() > 0,
        n > 0 ==> hex(n)[0] != '0',
        forall|i: int|
            0 <= i < hex(n).len() ==> '0' <= #[trigger] hex(n)[i] <= '9' || 'a' <= hex(n)[i] <= 'f',
    decreases n,
{
    if n >= 16 {
        law_hex_digits_make_the_number(n / 16);
        assert(hex(n).drop_last() =~= hex(n / 16));
        assert(hex(n)[0] == hex(n / 16)[0]);
    } else {
        assert(hexadecimal(hex(n).drop_last()) == 0);
    }
}

/// A padded text has at least the width, is not cut, and has only the filler beside the text.
pub proof fn law_padded_texts(s: Seq<char>, width: nat, c: char, i: int)
    ensures
        pad_left(s, width, c).len() == if s.len() > width {
            s.len()
        } else {
            width
        },
        pad_left(s, width, c).skip(pad_left(s, width, c).len() - s.len()) == s,
        0 <= i < pad_left(s, width, c).len() - s.len() ==> pad_left(s, width, c)[i] == c,
        pad_right(s, width).len() == if s.len() > width {
            s.len()
        } else {
            width
        },
        pad_right(s, width).take(s.len() as int) == s,
        s.len() <= i < pad_right(s, width).len() ==> pad_right(s, width)[i] == ' ',
{
    assert(pad_left(s, width, c).skip(pad_left(s, width, c).len() - s.len()) =~= s);
    assert(pad_right(s, width).take(s.len() as int) =~= s);
}

/// Lower case changes the letters from `A` to `Z` and nothing else.
pub proof fn law_lower_case(s: Seq<char>, i: int)
    requires
        0 <= i < s.len(),
    ensures
        ascii_lower(s).len() == s.len(),
        'A' <= s[i] <= 'Z' ==> ascii_lower(s)[i] as int == s[i] as int - 'A' as int + 'a' as int,
        !('A' <= s[i] <= 'Z') ==> ascii_lower(s)[i] == s[i],
{
}

/// A text comes before another just where the first character that differs is smaller, or where
/// it ends and the other goes on.
pub proof fn law_texts_are_ordered_by_their_first_difference(a: Seq<char>, b: Seq<char>, k: int)
    requires
        0 <= k <= a.len(),
        k <= b.len(),
        forall|i: int| 0 <= i < k ==> a[i] == b[i],
        k < a.len() && k < b.len() ==> a[k] != b[k],
    ensures
        chars_before(a, b) <==> k < b.len() && (k == a.len() || a[k] < b[k]),
    decreases k,
{
    if k > 0 {
        assert(a[0] == b[0]);
        let x = a.drop_first();
        let y = b.drop_first();
        assert forall|i: int| 0 <= i < k - 1 implies x[i] == y[i] by {
            assert(a[i + 1] == b[i + 1]);
        }
        law_texts_are_ordered_by_their_first_difference(x, y, k - 1);
    }
}

/// Bytes are in order just where the first one that differs is smaller, or where they end
/// first.
pub proof fn law_bytes_are_ordered_by_their_first_difference(a: Seq<u8>, b: Seq<u8>, k: int)
    requires
        0 <= k <= a.len(),
        k <= b.len(),
        forall|i: int| 0 <= i < k ==> a[i] == b[i],
        k < a.len() && k < b.len() ==> a[k] != b[k],
    ensures
        bytes_in_order(a, b) <==> k == a.len() || (k < b.len() && a[k] < b[k]),
    decreases k,
{
    if k > 0 {
        assert(a[0] == b[0]);
        let x = a.drop_first();
        let y = b.drop_first();
        assert forall|i: int| 0 <= i < k - 1 implies x[i] == y[i] by {
            assert(a[i + 1] == b[i + 1]);
        }
        law_bytes_are_ordered_by_their_first_difference(x, y, k - 1);
    }
}

/// Paths are ordered by the first component that differs: the root before all, then `.`, then
/// `..`, then names in the order of their characters. A path comes before those below it.
pub proof fn law_paths_are_ordered_by_their_components(
    a: Seq<Seq<char>>,
    b: Seq<Seq<char>>,
    k: int,
)
    requires
        0 <= k <= a.len(),
        k <= b.len(),
        forall|i: int| 0 <= i < k ==> a[i] == b[i],
        k < a.len() && k < b.len() ==> a[k] != b[k],
    ensures
        k == b.len() ==> !parts_before(a, b),
        k == a.len() && k < b.len() ==> parts_before(a, b),
        k < a.len() && k < b.len() && a[k] == "/"@ ==> parts_before(a, b),
        k < a.len() && k < b.len() && b[k] == "/"@ ==> !parts_before(a, b),
        k < a.len() && k < b.len() && a[k] == "."@ && b[k] != "/"@ ==> parts_before(a, b),
        k < a.len() && k < b.len() && a[k] == ".."@ && b[k] != "/"@ && b[k] != "."@
            ==> parts_before(a, b),
        k < a.len() && k < b.len() && a[k] != "/"@ && a[k] != "."@ && a[k] != ".."@ && b[k] != "/"@
            && b[k] != "."@ && b[k] != ".."@ ==> parts_before(a, b) == chars_before(a[k], b[k]),
    decreases k,
{
    reveal_strlit("/");
    reveal_strlit(".");
    reveal_strlit("..");
    assert("/"@[0] != "."@[0]);
    assert("/"@.len() != ".."@.len());
    assert("."@.len() != ".."@.len());
    if k > 0 {
        assert(a[0] == b[0]);
        let x = a.drop_first();
        let y = b.drop_first();
        assert forall|i: int| 0 <= i < k - 1 implies x[i] == y[i] by {
            assert(a[i + 1] == b[i + 1]);
        }
        law_paths_are_ordered_by_their_components(x, y, k - 1);
    }
}

pub(crate) proof fn lemma_named_prefix(ps: Seq<Seq<char>>, qs: Seq<Seq<char>>, n: nat)
    requires
        n <= ps.len(),
        n <= qs.len(),
        forall|i: int| 0 <= i < n ==> ps[i] == qs[i],
    ensures
        named_parts(ps, n) == named_parts(qs, n),
    decreases n,
{
    if n > 0 {
        lemma_named_prefix(ps, qs, (n - 1) as nat);
    }
}

proof fn lemma_named_of_both(ps: Seq<Seq<char>>, qs: Seq<Seq<char>>, n: nat)
    requires
        ps.len() >= 1,
        n <= qs.len(),
        n > 0 ==> qs[0] != "."@,
    ensures
        named_parts(ps + qs, ps.len() + n) == named_parts(ps, ps.len()) + named_parts(qs, n),
    decreases n,
{
    let both = ps + qs;
    if n == 0 {
        lemma_named_prefix(both, ps, ps.len());
        assert(named_parts(ps, ps.len()) + named_parts(qs, n) =~= named_parts(ps, ps.len()));
    } else {
        lemma_named_of_both(ps, qs, (n - 1) as nat);
        assert(both[ps.len() + n - 1] == qs[n - 1]);
        assert(named_parts(both, ps.len() + n) =~= named_parts(ps, ps.len()) + named_parts(qs, n));
    }
}

/// A path under a directory has the components of the directory and then its own.
pub proof fn law_joined_paths_have_both_components(base: Seq<char>, rel: Seq<char>)
    requires
        base.len() > 0,
        rel.len() > 0,
        rel[0] != '/',
        pieces(rel, '/')[0] != "."@,
    ensures
        path_parts(joined_path(base, rel)) == path_parts(base) + path_parts(rel),
{
    reveal_strlit("/");
    assert("/"@ =~= seq!['/']);
    let qs = pieces(rel, '/');
    lemma_some_piece(rel, '/');
    if base.last() == '/' {
        let less = base.drop_last();
        assert(base =~= less + seq!['/'] + Seq::empty());
        assert(base + rel =~= less + seq!['/'] + rel);
        law_pieces_of_both(less, '/', Seq::empty());
        law_pieces_of_both(less, '/', rel);
        lemma_some_piece(less, '/');
        let ps = pieces(less, '/');
        lemma_named_of_both(ps, qs, qs.len());
        let empty = Seq::<char>::empty();
        assert(pieces(empty, '/') =~= seq![empty]);
        reveal_strlit(".");
        reveal_strlit("");
        assert(""@ =~= empty);
        assert(empty != "."@) by {
            assert(empty.len() != "."@.len());
        }
        lemma_named_of_both(ps, seq![empty], 1);
        assert(named_parts(seq![empty], 1) =~= Seq::empty()) by {
            assert(named_parts(seq![empty], 0) =~= Seq::empty());
        }
        assert(pieces(base, '/').len() == ps.len() + 1);
        assert(path_parts(joined_path(base, rel)) =~= path_parts(base) + path_parts(rel));
    } else {
        law_pieces_of_both(base, '/', rel);
        lemma_some_piece(base, '/');
        lemma_named_of_both(pieces(base, '/'), qs, qs.len());
        assert(path_parts(joined_path(base, rel)) =~= path_parts(base) + path_parts(rel));
    }
}

/// An absolute path stands for itself under every directory, and a relative one in no directory
/// too.
pub proof fn law_absolute_paths_stand_for_themselves(base: Seq<char>, rel: Seq<char>)
    ensures
        rel.len() > 0 && rel[0] == '/' ==> joined_path(base, rel) == rel,
        base.len() == 0 ==> joined_path(base, rel) == rel,
{
}

/// The name of a file in a directory is the last component of its path.
pub proof fn law_name_of_a_file(dir: Seq<char>, name: Seq<char>)
    requires
        !has_char(name, '/'),
        name.len() > 0,
        name != "."@,
        name != ".."@,
    ensures
        last_name(dir + seq!['/'] + name) == Some(name),
        last_name(name) == Some(name),
{
    reveal_strlit("/");
    reveal_strlit("");
    law_one_piece(name, '/');
    law_pieces_of_both(dir, '/', name);
    lemma_some_piece(dir, '/');
    if name == "/"@ {
        assert(name[0] == '/');
    }
    assert(pieces(name, '/').len() == 1);
    assert(path_parts(name).last() == name) by {
        assert(named_parts(seq![name], 1) =~= seq![name]) by {
            assert(named_parts(seq![name], 0) =~= Seq::empty());
        }
    }
    let all = pieces(dir + seq!['/'] + name, '/');
    assert(all.len() >= 2);
    assert(all[all.len() - 1] == name);
    assert(named_parts(all, all.len()).last() == name);
}

proof fn lemma_part_by_part(s: Seq<char>)
    requires
        path_parts(s).len() > 0,
        path_parts(s).last() != "/"@,
    ensures
        exists|n: int|
            0 <= n < s.len() && #[trigger] path_parts(s.take(n)) == path_parts(s).drop_last(),
    decreases s.len(),
{
    reveal_strlit("");
    reveal_strlit(".");
    reveal_strlit("/");
    if s.len() == 0 {
        assert(pieces(s, '/') =~= seq![Seq::<char>::empty()]);
        assert(named_parts(pieces(s, '/'), 1) =~= Seq::empty()) by {
            assert(named_parts(pieces(s, '/'), 0) =~= Seq::empty());
            assert(Seq::<char>::empty() =~= ""@);
        }
    } else {
        let t = s.drop_last();
        let ps = pieces(t, '/');
        let qs = pieces(s, '/');
        lemma_some_piece(t, '/');
        let m = ps.len();
        assert(t =~= s.take(s.len() - 1));
        let root = if crate::paths::is_absolute_path(s) {
            seq!["/"@]
        } else {
            Seq::empty()
        };
        if s.last() == '/' {
            assert(qs[m as int] =~= ""@);
            lemma_named_prefix(qs, ps, m);
            assert(named_parts(qs, qs.len()) == named_parts(ps, m));
            if t.len() > 0 {
                assert(path_parts(s) =~= path_parts(t));
                lemma_part_by_part(t);
                let n = choose|n: int|
                    0 <= n < t.len() && #[trigger] path_parts(t.take(n)) == path_parts(
                        t,
                    ).drop_last();
                assert(t.take(n) =~= s.take(n));
            } else {
                assert(ps =~= seq![Seq::<char>::empty()]);
                assert(named_parts(ps, 1) =~= Seq::empty()) by {
                    assert(named_parts(ps, 0) =~= Seq::empty());
                    assert(Seq::<char>::empty() =~= ""@);
                }
                assert(path_parts(s) =~= seq!["/"@]);
                assert(path_parts(s).last() == "/"@);
            }
        } else {
            let old = ps.last();
            let new = qs.last();
            assert(qs.len() == m);
            assert(new == old.push(s.last()));
            assert(new.len() > 0);
            assert(new != ""@);
            lemma_named_prefix(qs, ps, (m - 1) as nat);
            let before = named_parts(ps, (m - 1) as nat);
            assert(t.len() == 0 ==> !crate::paths::is_absolute_path(s));
            assert(crate::paths::is_absolute_path(t) == crate::paths::is_absolute_path(s));
            if new == "."@ && m > 1 {
                assert(old.len() == 0);
                assert(old =~= ""@);
                assert(path_parts(s) =~= path_parts(t));
                assert(t.len() > 0) by {
                    if t.len() == 0 {
                        assert(ps.len() == 1);
                    }
                }
                lemma_part_by_part(t);
                let n = choose|n: int|
                    0 <= n < t.len() && #[trigger] path_parts(t.take(n)) == path_parts(
                        t,
                    ).drop_last();
                assert(t.take(n) =~= s.take(n));
            } else if old == ""@ || (old == "."@ && m > 1) {
                assert(named_parts(ps, m) == before);
                assert(named_parts(qs, m) == before.push(new));
                assert(path_parts(s).drop_last() =~= path_parts(t));
                assert(path_parts(s.take(s.len() - 1)) == path_parts(s).drop_last());
            } else {
                assert(named_parts(ps, m) == before.push(old));
                assert(named_parts(qs, m) == before.push(new));
                assert(path_parts(t).drop_last() =~= path_parts(s).drop_last());
                assert(path_parts(t).last() == old);
                lemma_no_slash(t, '/');
                if old == "/"@ {
                    assert(old[0] == '/');
                }
                lemma_part_by_part(t);
                let n = choose|n: int|
                    0 <= n < t.len() && #[trigger] path_parts(t.take(n)) == path_parts(
                        t,
                    ).drop_last();
                assert(t.take(n) =~= s.take(n));
            }
        }
    }
}

proof fn lemma_no_slash(s: Seq<char>, sep: char)
    ensures
        forall|i: int| 0 <= i < pieces(s, sep).len() ==> !has_char(#[trigger] pieces(s, sep)[i], sep),
        pieces(s, sep).len() >= 1,
    decreases s.len(),
{
    if s.len() > 0 {
        lemma_no_slash(s.drop_last(), sep);
        let before = pieces(s.drop_last(), sep);
        let all = pieces(s, sep);
        assert forall|i: int| 0 <= i < all.len() implies !has_char(#[trigger] all[i], sep) by {
            if s.last() == sep {
                if i < before.len() {
                    assert(all[i] == before[i]);
                }
            } else if i < before.len() - 1 {
                assert(all[i] == before[i]);
            } else {
                let old = before[before.len() - 1];
                assert(all[i] == old.push(s.last()));
                assert forall|k: int| 0 <= k < all[i].len() implies all[i][k] != sep by {
                    if k < old.len() {
                        assert(old[k] == all[i][k]);
                    }
                }
            }
        }
    }
}

proof fn lemma_shortest(s: Seq<char>, parts: Seq<Seq<char>>, n: nat, m: int)
    requires
        n <= m <= s.len(),
        path_parts(s.take(m)) == parts,
    ensures
        n <= shortest_with(s, parts, n) <= m,
        path_parts(s.take(shortest_with(s, parts, n) as int)) == parts,
        forall|k: int|
            n <= k < shortest_with(s, parts, n) ==> #[trigger] path_parts(s.take(k)) != parts,
    decreases s.len() - n,
{
    if n < s.len() && path_parts(s.take(n as int)) != parts {
        assert(n != m);
        lemma_shortest(s, parts, n + 1, m);
    } else if n >= s.len() {
        assert(n == m);
    }
}

/// The parent of a path is its shortest beginning that has all its components but the last.
/// Only the root and the empty path have none.
pub proof fn law_parents_lack_the_last_component(s: Seq<char>)
    ensures
        match parent_of(s) {
            Some(dir) => {
                &&& path_parts(s).len() > 0
                &&& path_parts(dir) == path_parts(s).drop_last()
                &&& dir.len() < s.len()
                &&& dir == s.take(dir.len() as int)
                &&& forall|k: int|
                    0 <= k < dir.len() ==> #[trigger] path_parts(s.take(k)) != path_parts(
                        s,
                    ).drop_last()
            },
            None => path_parts(s).len() == 0 || path_parts(s).last() == "/"@,
        },
{
    if path_parts(s).len() > 0 && path_parts(s).last() != "/"@ {
        lemma_part_by_part(s);
        let n = choose|n: int|
            0 <= n < s.len() && #[trigger] path_parts(s.take(n)) == path_parts(s).drop_last();
        lemma_shortest(s, path_parts(s).drop_last(), 0, n);
    }
}

proof fn lemma_named(ps: Seq<Seq<char>>, n: nat, part: Seq<char>)
    requires
        n <= ps.len(),
    ensures
        named_parts(ps, n).contains(part) <==> exists|i: int|
            0 <= i < n && #[trigger] ps[i] == part && part != ""@ && (part == "."@ ==> i == 0),
    decreases n,
{
    let all = named_parts(ps, n);
    if n > 0 {
        lemma_named(ps, (n - 1) as nat, part);
        let before = named_parts(ps, (n - 1) as nat);
        let p = ps[n - 1];
        if p == ""@ || (p == "."@ && n > 1) {
            assert(all == before);
        } else {
            assert(all == before.push(p));
            if before.contains(part) {
                let i = choose|i: int| 0 <= i < before.len() && before[i] == part;
                assert(all[i] == part);
            }
            if part == p {
                assert(all[before.len() as int] == part);
            }
            if all.contains(part) {
                let i = choose|i: int| 0 <= i < all.len() && all[i] == part;
                if i < before.len() {
                    assert(before[i] == part);
                }
            }
        }
    }
}

/// A path is plain just where it is relative, goes up nowhere and does not begin with `.`.
pub proof fn law_plain_paths(s: Seq<char>)
    ensures
        plain_path(s) <==> {
            &&& s.len() == 0 || s[0] != '/'
            &&& pieces(s, '/')[0] != "."@
            &&& !pieces(s, '/').contains(".."@)
        },
{
    reveal_strlit("");
    reveal_strlit(".");
    reveal_strlit("..");
    assert("."@.len() != ""@.len());
    assert(".."@.len() != ""@.len());
    assert(".."@.len() != "."@.len());
    let ps = pieces(s, '/');
    lemma_some_piece(s, '/');
    lemma_named(ps, ps.len(), "."@);
    lemma_named(ps, ps.len(), ".."@);
    if !crate::paths::is_absolute_path(s) {
        let parts = path_parts(s);
        assert(parts == named_parts(ps, ps.len()));
        if parts.contains("."@) {
            let i = choose|i: int| 0 <= i < parts.len() && parts[i] == "."@;
            assert(path_parts(s)[i] == "."@);
        }
        if parts.contains(".."@) {
            let i = choose|i: int| 0 <= i < parts.len() && parts[i] == ".."@;
            assert(path_parts(s)[i] == ".."@);
        }
        if ps.contains(".."@) {
            let i = choose|i: int| 0 <= i < ps.len() && ps[i] == ".."@;
            assert(ps[i] == ".."@);
        }
        if !plain_path(s) {
            let i = choose|i: int|
                0 <= i < path_parts(s).len() && !(#[trigger] path_parts(s)[i] != "."@
                    && path_parts(s)[i] != ".."@);
            assert(parts[i] == "."@ || parts[i] == ".."@);
        }
    }
}

/// A file is taken for a compressed one just by the last letters of its name.
pub proof fn law_compressed_names(dir: Seq<char>, name: Seq<char>)
    requires
        !has_char(name, '/'),
        name.len() > 0,
        name != "."@,
        name != ".."@,
    ensures
        has_gz_extension(dir + seq!['/'] + name) <==> name.len() > 3 && name[name.len() - 3] == '.'
            && name[name.len() - 2] == 'g' && name[name.len() - 1] == 'z',
        has_gz_extension(name) <==> has_gz_extension(dir + seq!['/'] + name),
{
    law_name_of_a_file(dir, name);
    reveal_strlit(".gz");
    if name.len() > 3 {
        let end = name.skip(name.len() - 3);
        if end == ".gz"@ {
            assert(end[0] == '.' && end[1] == 'g' && end[2] == 'z');
        } else if name[name.len() - 3] == '.' && name[name.len() - 2] == 'g' && name[name.len() - 1]
            == 'z' {
            assert(end =~= ".gz"@);
        }
    }
}

/// How much the components of a path are, all together.
spec fn weight(parts: Seq<Seq<char>>) -> nat
    decreases parts.len(),
{
    if parts.len() == 0 {
        0
    } else {
        weight(parts.drop_last()) + parts.last().len() + 1
    }
}

/// Whether a path ends in a component: dropping any of its end drops some of that.
spec fn ends_in_a_name(s: Seq<char>) -> bool {
    s.len() > 0 && pieces(s, '/').last().len() > 0 && pieces(s, '/').last() != "."@
}

proof fn lemma_weight_grows(s: Seq<char>)
    requires
        s.len() > 0,
    ensures
        weight(path_parts(s.drop_last())) <= weight(path_parts(s)),
        ends_in_a_name(s) ==> weight(path_parts(s.drop_last())) < weight(path_parts(s)),
{
    reveal_strlit("");
    reveal_strlit(".");
    reveal_strlit("/");
    let t = s.drop_last();
    let ps = pieces(t, '/');
    let qs = pieces(s, '/');
    lemma_some_piece(t, '/');
    let m = ps.len();
    if s.last() == '/' {
        assert(qs[m as int] =~= ""@);
        lemma_named_prefix(qs, ps, m);
        assert(named_parts(qs, qs.len()) == named_parts(ps, m));
        if t.len() > 0 {
            assert(path_parts(s) =~= path_parts(t));
        } else {
            assert(ps =~= seq![Seq::<char>::empty()]);
            assert(named_parts(ps, 1) =~= Seq::empty()) by {
                assert(named_parts(ps, 0) =~= Seq::empty());
                assert(Seq::<char>::empty() =~= ""@);
            }
            assert(path_parts(t) =~= Seq::empty());
        }
    } else {
        let old = ps.last();
        let new = qs.last();
        assert(qs.len() == m);
        assert(new == old.push(s.last()));
        lemma_named_prefix(qs, ps, (m - 1) as nat);
        let before = named_parts(ps, (m - 1) as nat);
        assert(crate::paths::is_absolute_path(t) == crate::paths::is_absolute_path(s));
        if new == "."@ && m > 1 {
            assert(old.len() == 0);
            assert(old =~= ""@);
            assert(path_parts(s) =~= path_parts(t));
        } else if old == ""@ || (old == "."@ && m > 1) {
            assert(named_parts(ps, m) == before);
            assert(named_parts(qs, m) == before.push(new));
            assert(path_parts(s).drop_last() =~= path_parts(t));
        } else {
            assert(named_parts(ps, m) == before.push(old));
            assert(named_parts(qs, m) == before.push(new));
            assert(path_parts(t).drop_last() =~= path_parts(s).drop_last());
            assert(path_parts(t).last() == old);
            assert(path_parts(s).last() == new);
        }
    }
}

proof fn lemma_shorter_is_lighter(s: Seq<char>, k: int)
    requires
        0 <= k <= s.len(),
    ensures
        weight(path_parts(s.take(k))) <= weight(path_parts(s)),
        k < s.len() && ends_in_a_name(s) ==> path_parts(s.take(k)) != path_parts(s),
    decreases s.len(),
{
    if k < s.len() {
        lemma_weight_grows(s);
        lemma_shorter_is_lighter(s.drop_last(), k);
        assert(s.drop_last().take(k) =~= s.take(k));
    } else {
        assert(s.take(k) =~= s);
    }
}

proof fn lemma_no_shorter(s: Seq<char>, whole: Seq<char>, n: nat)
    requires
        ends_in_a_name(s),
        n <= s.len() <= whole.len(),
        whole.take(s.len() as int) == s,
    ensures
        shortest_with(whole, path_parts(s), n) == s.len(),
    decreases s.len() - n,
{
    if n < s.len() {
        lemma_shorter_is_lighter(s, n as int);
        assert(s.take(n as int) =~= whole.take(n as int));
        lemma_no_shorter(s, whole, n + 1);
    } else if n < whole.len() {
        assert(whole.take(n as int) == s);
    }
}

/// What a file is called below a directory is what stands behind the directory in its path.
pub proof fn law_files_below_a_directory(root: Seq<char>, first: Seq<char>, more: Seq<char>)
    requires
        root.len() > 0,
        root.last() != '/',
        !has_char(first, '/'),
        first.len() > 0,
        first != "."@,
        more.len() > 0,
        more[0] != '/',
        pieces(more, '/')[0] != "."@,
        pieces(more, '/').last().len() > 0,
        pieces(more, '/').last() != "."@,
    ensures
        below(root, root + seq!['/'] + first) == first,
        below(root, root + seq!['/'] + first + seq!['/'] + more) == first + seq!['/'] + more,
        below(root, root).len() == 0,
{
    reveal_strlit("/");
    assert("/"@ =~= seq!['/']);
    let p = path_parts(root);
    let short = root + seq!['/'] + first;
    let long = short + seq!['/'] + more;
    crate::case_laws::lemma_last_part(root, first);
    assert(short.last() == first.last());
    assert(first[first.len() - 1] == first.last());
    law_joined_paths_have_both_components(short, more);
    assert(joined_path(short, more) =~= long);
    law_one_piece(first, '/');
    law_pieces_of_both(root, '/', first);
    law_pieces_of_both(short, '/', more);
    lemma_some_piece(root, '/');
    lemma_some_piece(more, '/');
    assert(pieces(short, '/').last() == first);
    assert(pieces(long, '/').last() == pieces(more, '/').last());
    assert(path_parts(short).take(p.len() as int) =~= p);
    assert(path_parts(short).take(p.len() as int + 1) =~= path_parts(short));
    assert(short.take(short.len() as int) =~= short);
    lemma_no_shorter(short, short, 0);
    assert(short.skip(short.len() - first.len()) =~= first);
    assert(first.take(first.len() as int) =~= first);
    lemma_no_shorter(first, first, 0);
    assert(path_parts(long).take(p.len() as int) =~= p);
    assert(path_parts(long).take(p.len() as int + 1) =~= path_parts(short));
    assert(long.take(short.len() as int) =~= short);
    lemma_no_shorter(short, long, 0);
    let rest = first + seq!['/'] + more;
    assert(long.skip(short.len() - first.len()) =~= rest);
    law_pieces_of_both(first, '/', more);
    assert(pieces(rest, '/').last() == pieces(more, '/').last());
    assert(rest.take(rest.len() as int) =~= rest);
    lemma_no_shorter(rest, rest, 0);
    assert(p.take(p.len() as int) =~= p);
}

/// The root is only the first component of a path.
pub(crate) proof fn lemma_root_is_alone(s: Seq<char>)
    requires
        path_parts(s).len() > 0,
        path_parts(s).last() == "/"@,
    ensures
        path_parts(s).len() == 1,
{
    reveal_strlit("/");
    let ps = pieces(s, '/');
    lemma_no_slash(s, '/');
    lemma_named(ps, ps.len(), "/"@);
    let named = named_parts(ps, ps.len());
    if named.len() > 0 {
        assert(path_parts(s).last() == named.last());
        assert(named[named.len() - 1] == "/"@);
        assert(named.contains("/"@));
        let i = choose|i: int| 0 <= i < ps.len() && #[trigger] ps[i] == "/"@;
        assert(ps[i][0] == '/');
    }
}

/// White space in a request line is the blank, the tab, the two ends of a line and the form
/// feed; elsewhere it is these, the vertical tab and what is no letter, digit or mark of its own
/// in other scripts. Control characters are those below the blank and from the delete on to the
/// last of the second row.
pub proof fn law_white_space(c: char)
    ensures
        is_ascii_white(c) <==> c as int == 32 || c as int == 9 || c as int == 10 || c as int == 13
            || c as int == 12,
        c as int <= 127 ==> (is_white(c) <==> is_ascii_white(c) || c as int == 11),
        c as int <= 255 ==> (is_control(c) <==> (c as int) < 32 || 127 <= c as int <= 159),
        c as int > 255 ==> !is_control(c),
{
}

} // verus!
