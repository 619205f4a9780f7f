//! Text: numbers in decimal and hexadecimal, padding, comparison and search.

use vstd::prelude::*;
use vstd::string::*;
use vstd::utf8::*;

verus! {

/// `String::push` appends one character to the string.
pub assume_specification[ String::push ](s: &mut String, c: char)
    ensures
        final(s)@ == old(s)@.push(c),
;

/// The character of one decimal or hexadecimal digit, in lower case.
pub open spec fn digit_char(d: int) -> char {
    if d < 10 {
        (48 + d) as char
    } else {
        (87 + d) as char
    }
}

/// The decimal digits of `n`, without leading zeros.
pub open spec fn dec(n: nat) -> Seq<char>
    decreases n,
{
    if n < 10 {
        seq![digit_char(n as int)]
    } else {
        dec(n / 10).push(digit_char((n % 10) as int))
    }
}

/// The decimal digits of `n`, behind a `-` where `n` is negative.
pub open spec fn dec_int(n: int) -> Seq<char> {
    if n < 0 {
        seq!['-'] + dec((-n) as nat)
    } else {
        dec(n as nat)
    }
}

/// The hexadecimal digits of `n`, without leading zeros.
pub open spec fn hex(n: nat) -> Seq<char>
    decreases n,
{
    if n < 16 {
        seq![digit_char(n as int)]
    } else {
        hex(n / 16).push(digit_char((n % 16) as int))
    }
}

/// `count` times the character `c`.
pub open spec fn repeated(c: char, count: nat) -> Seq<char> {
    Seq::new(count, |i: int| c)
}

/// `s` behind as many `c` as bring it to at least `width` characters.
pub open spec fn pad_left(s: Seq<char>, width: nat, c: char) -> Seq<char> {
    if s.len() >= width {
        s
    } else {
        repeated(c, (width - s.len()) as nat) + s
    }
}

/// The word for a truth value.
pub open spec fn bool_text(b: bool) -> Seq<char> {
    if b {
        "true"@
    } else {
        "false"@
    }
}

pub fn digit(d: u8) -> (c: char)
    requires
        d < 16,
    ensures
        c == digit_char(d as int),
{
    if d < 10 {
        (48 + d) as char
    } else {
        (87 + d) as char
    }
}

/// Appends the decimal digits of `n`.
pub fn push_dec(out: &mut String, n: u64)
    ensures
        final(out)@ == old(out)@ + dec(n as nat),
    decreases n,
{
    if n >= 10 {
        push_dec(out, n / 10);
    }
    out.push(digit((n % 10) as u8));
    assert(out@ =~= old(out)@ + dec(n as nat));
}

/// Appends the decimal digits of the number after `n`.
pub fn push_dec_next(out: &mut String, n: u64)
    ensures
        final(out)@ == old(out)@ + dec((n + 1) as nat),
{
    if n < u64::MAX {
        push_dec(out, n + 1);
    } else {
        push_dec(out, n / 10);
        out.push(digit((n % 10 + 1) as u8));
        assert(out@ =~= old(out)@ + dec((n + 1) as nat));
    }
}

/// Appends `n` in decimal, with its sign where it is negative.
pub fn push_dec_int(out: &mut String, n: i64)
    ensures
        final(out)@ == old(out)@ + dec_int(n as int),
{
    if n < 0 {
        out.push('-');
        if n == i64::MIN {
            push_dec(out, 9223372036854775808u64);
        } else {
            push_dec(out, (-n) as u64);
        }
        assert(out@ =~= old(out)@ + dec_int(n as int));
    } else {
        push_dec(out, n as u64);
    }
}

/// Appends the hexadecimal digits of `n`.
pub fn push_hex(out: &mut String, n: u64)
    ensures
        final(out)@ == old(out)@ + hex(n as nat),
    decreases n,
{
    if n >= 16 {
        push_hex(out, n / 16);
    }
    out.push(digit((n % 16) as u8));
    assert(out@ =~= old(out)@ + hex(n as nat));
}

pub fn dec_text(n: u64) -> (s: String)
    ensures
        s@ == dec(n as nat),
{
    let mut s = String::new();
    push_dec(&mut s, n);
    assert(s@ =~= dec(n as nat));
    s
}

pub fn hex_text(n: u64) -> (s: String)
    ensures
        s@ == hex(n as nat),
{
    let mut s = String::new();
    push_hex(&mut s, n);
    assert(s@ =~= hex(n as nat));
    s
}

/// Appends `s` behind as many `c` as bring it to `width` characters.
pub fn push_padded(out: &mut String, s: &str, width: usize, c: char)
    ensures
        final(out)@ == old(out)@ + pad_left(s@, width as nat, c),
{
    let len: usize = s.unicode_len();
    let mut done: usize = len;
    while done < width
        invariant
            len == s@.len(),
            len <= done,
            done <= width || done == len,
            out@ == old(out)@ + repeated(c, (done - len) as nat),
        decreases width - done,
    {
        out.push(c);
        done = done + 1;
        assert(out@ =~= old(out)@ + repeated(c, (done - len) as nat));
    }
    out.append(s);
    assert(out@ =~= old(out)@ + pad_left(s@, width as nat, c));
}

/// Appends `n` in decimal, with leading zeros up to `width` digits.
pub fn push_dec_padded(out: &mut String, n: u64, width: usize)
    ensures
        final(out)@ == old(out)@ + pad_left(dec(n as nat), width as nat, '0'),
{
    let digits = dec_text(n);
    push_padded(out, digits.as_str(), width, '0');
}

/// Appends `n` in hexadecimal, with leading zeros up to `width` digits.
pub fn push_hex_padded(out: &mut String, n: u64, width: usize)
    ensures
        final(out)@ == old(out)@ + pad_left(hex(n as nat), width as nat, '0'),
{
    let digits = hex_text(n);
    push_padded(out, digits.as_str(), width, '0');
}

pub fn bool_str(b: bool) -> (s: &'static str)
    ensures
        s@ == bool_text(b),
{
    if b {
        "true"
    } else {
        "false"
    }
}

/// Whether two slices of bytes hold the same bytes.
pub fn same_bytes(a: &[u8], b: &[u8]) -> (r: bool)
    ensures
        r == (a@ == b@),
{
    if a.len() != b.len() {
        return false;
    }
    let mut i: usize = 0;
    while i < a.len()
        invariant
            i <= a@.len(),
            a@.len() == b@.len(),
            forall|j: int| 0 <= j < i ==> a@[j] == b@[j],
        decreases a@.len() - i,
    {
        if a[i] != b[i] {
            return false;
        }
        i = i + 1;
    }
    assert(a@ =~= b@);
    true
}

/// Whether two strings hold the same characters.
pub fn same_text(a: &str, b: &str) -> (r: bool)
    ensures
        r == (a@ == b@),
{
    proof {
        encode_utf8_decode_utf8(a@);
        encode_utf8_decode_utf8(b@);
    }
    same_bytes(a.as_bytes(), b.as_bytes())
}

/// The characters of a string, in order.
pub fn chars_of(s: &str) -> (out: Vec<char>)
    ensures
        out@ == s@,
{
    let mut out: Vec<char> = Vec::new();
    for c in it: s.chars()
        invariant
            it.seq() == s@,
            out@ == s@.take(it.index() as int),
    {
        out.push(c);
        assert(out@ =~= s@.take(it.index() as int + 1));
    }
    assert(out@ =~= s@);
    out
}

/// The string made of `chars`.
pub fn string_of(chars: &[char]) -> (s: String)
    ensures
        s@ == chars@,
{
    let mut s = String::new();
    let mut i: usize = 0;
    while i < chars.len()
        invariant
            i <= chars@.len(),
            s@ == chars@.take(i as int),
        decreases chars@.len() - i,
    {
        s.push(chars[i]);
        i = i + 1;
        assert(s@ =~= chars@.take(i as int));
    }
    assert(s@ =~= chars@);
    s
}


/// The pieces of `s` between the occurrences of `sep`; one more than those.
pub open spec fn pieces(s: Seq<char>, sep: char) -> Seq<Seq<char>>
    decreases s.len(),
{
    if s.len() == 0 {
        seq![Seq::empty()]
    } else {
        let before = pieces(s.drop_last(), sep);
        if s.last() == sep {
            before.push(Seq::empty())
        } else {
            before.drop_last().push(before.last().push(s.last()))
        }
    }
}

/// The views of a list of strings.
pub open spec fn texts(v: Seq<String>) -> Seq<Seq<char>> {
    v.map_values(|s: String| s@)
}

pub fn split_text(s: &str, sep: char) -> (out: Vec<String>)
    ensures
        texts(out@) == pieces(s@, sep),
        out@.len() >= 1,
{
    let chars = chars_of(s);
    let mut out: Vec<String> = Vec::new();
    let mut last = String::new();
    let mut i: usize = 0;
    assert(texts(out@).push(last@) =~= seq![Seq::<char>::empty()]);
    while i < chars.len()
        invariant
            i <= chars@.len(),
            texts(out@).push(last@) == pieces(chars@.take(i as int), sep),
        decreases chars@.len() - i,
    {
        let ghost before = pieces(chars@.take(i as int), sep);
        assert(chars@.take(i as int + 1).drop_last() =~= chars@.take(i as int));
        assert(before.last() == last@);
        assert(before.drop_last() =~= texts(out@));
        if chars[i] == sep {
            out.push(last);
            last = String::new();
        } else {
            last.push(chars[i]);
        }
        i = i + 1;
        assert(texts(out@).push(last@) =~= pieces(chars@.take(i as int), sep));
    }
    assert(chars@.take(i as int) =~= chars@);
    out.push(last);
    assert(texts(out@) =~= pieces(s@, sep));
    out
}

/// Whether `s` begins with `prefix`.
pub open spec fn begins(s: Seq<char>, prefix: Seq<char>) -> bool {
    s.len() >= prefix.len() && s.take(prefix.len() as int) == prefix
}

pub fn starts_with(s: &str, prefix: &str) -> (r: bool)
    ensures
        r == begins(s@, prefix@),
{
    let a = chars_of(s);
    let b = chars_of(prefix);
    if a.len() < b.len() {
        return false;
    }
    let mut i: usize = 0;
    while i < b.len()
        invariant
            a@ == s@,
            b@ == prefix@,
            i <= b@.len() <= a@.len(),
            forall|j: int| 0 <= j < i ==> a@[j] == b@[j],
        decreases b@.len() - i,
    {
        if a[i] != b[i] {
            assert(a@.take(b@.len() as int)[i as int] != b@[i as int]);
            return false;
        }
        i = i + 1;
    }
    assert(a@.take(b@.len() as int) =~= b@);
    true
}

/// The texts one after the other, with `sep` between them.
pub open spec fn joined(parts: Seq<Seq<char>>, sep: Seq<char>) -> Seq<char>
    decreases parts.len(),
{
    if parts.len() == 0 {
        Seq::empty()
    } else if parts.len() == 1 {
        parts[0]
    } else {
        joined(parts.drop_last(), sep) + sep + parts.last()
    }
}

pub fn join_texts(parts: &Vec<String>, sep: &str) -> (out: String)
    ensures
        out@ == joined(texts(parts@), sep@),
{
    let mut out = String::new();
    let mut i: usize = 0;
    assert(texts(parts@.take(0)) =~= Seq::empty());
    while i < parts.len()
        invariant
            i <= parts@.len(),
            out@ == joined(texts(parts@.take(i as int)), sep@),
        decreases parts@.len() - i,
    {
        let ghost upto = texts(parts@.take(i as int + 1));
        assert(upto.drop_last() =~= texts(parts@.take(i as int)));
        assert(upto.last() == parts@[i as int]@);
        if i > 0 {
            out.append(sep);
        }
        out.append(parts[i].as_str());
        i = i + 1;
        assert(out@ =~= joined(upto, sep@));
    }
    assert(parts@.take(i as int) =~= parts@);
    out
}

/// Whether `word` stands somewhere in `s`.
pub open spec fn has_word(s: Seq<char>, word: Seq<char>) -> bool {
    exists|i: int| 0 <= i <= s.len() - word.len() && #[trigger] s.subrange(i, i + word.len()) == word
}

/// Whether `word` stands in `s` from the character `at` on.
fn word_stands_at(s: &Vec<char>, word: &Vec<char>, at: usize) -> (r: bool)
    requires
        at <= s@.len() - word@.len(),
    ensures
        r == (s@.subrange(at as int, at + word@.len()) == word@),
{
    let mut j: usize = 0;
    while j < word.len()
        invariant
            j <= word@.len(),
            at <= s@.len() - word@.len(),
            forall|k: int| 0 <= k < j ==> s@[at + k] == word@[k],
        decreases word@.len() - j,
    {
        let total: usize = s.len();
        assert(at + j < total);
        if s[at + j] != word[j] {
            assert(s@.subrange(at as int, at + word@.len())[j as int] == s@[at + j]);
            return false;
        }
        j = j + 1;
    }
    assert(s@.subrange(at as int, at + word@.len()) =~= word@);
    true
}

pub fn contains_text(s: &str, word: &str) -> (r: bool)
    ensures
        r == has_word(s@, word@),
{
    let a = chars_of(s);
    let b = chars_of(word);
    if a.len() < b.len() {
        return false;
    }
    let last: usize = a.len() - b.len();
    let mut i: usize = 0;
    loop
        invariant
            a@ == s@,
            b@ == word@,
            i <= last,
            last == a@.len() - b@.len(),
            forall|k: int| 0 <= k < i ==> #[trigger] s@.subrange(k, k + word@.len()) != word@,
        decreases last - i,
    {
        if word_stands_at(&a, &b, i) {
            return true;
        }
        if i == last {
            return false;
        }
        i = i + 1;
    }
}

/// `c` in lower case where it is an ASCII letter.
pub open spec fn lower_char(c: char) -> char {
    if 'A' <= c && c <= 'Z' {
        (c as u32 + 32) as char
    } else {
        c
    }
}

pub open spec fn ascii_lower(s: Seq<char>) -> Seq<char> {
    s.map_values(|c: char| lower_char(c))
}

fn lower_of(c: char) -> (r: char)
    ensures
        r == lower_char(c),
{
    if 'A' <= c && c <= 'Z' {
        ((c as u8) + 32) as char
    } else {
        c
    }
}

pub fn lower_ascii(s: &str) -> (out: String)
    ensures
        out@ == ascii_lower(s@),
{
    let chars = chars_of(s);
    let mut out = String::new();
    let mut i: usize = 0;
    while i < chars.len()
        invariant
            i <= chars@.len(),
            out@ == ascii_lower(chars@.take(i as int)),
        decreases chars@.len() - i,
    {
        out.push(lower_of(chars[i]));
        i = i + 1;
        assert(out@ =~= ascii_lower(chars@.take(i as int)));
    }
    assert(chars@.take(i as int) =~= chars@);
    out
}


/// `s` followed by as many spaces as bring it to at least `width` characters.
pub open spec fn pad_right(s: Seq<char>, width: nat) -> Seq<char> {
    if s.len() >= width {
        s
    } else {
        s + repeated(' ', (width - s.len()) as nat)
    }
}

pub fn push_padded_right(out: &mut String, s: &str, width: usize)
    ensures
        final(out)@ == old(out)@ + pad_right(s@, width as nat),
{
    let len: usize = s.unicode_len();
    out.append(s);
    let ghost start = out@;
    let mut done: usize = len;
    assert(out@ =~= start + repeated(' ', 0));
    while done < width
        invariant
            len == s@.len(),
            len <= done,
            done <= width || done == len,
            out@ == start + repeated(' ', (done - len) as nat),
        decreases width - done,
    {
        out.push(' ');
        done = done + 1;
        assert(out@ =~= start + repeated(' ', (done - len) as nat));
    }
    assert(out@ =~= old(out)@ + pad_right(s@, width as nat));
}

/// `n` in hexadecimal behind `0x`.
pub open spec fn hex_0x(n: nat) -> Seq<char> {
    "0x"@ + hex(n)
}

/// Appends `n` in hexadecimal behind `0x`, with spaces in front up to `width` characters.
pub fn push_hex_0x(out: &mut String, n: u64, width: usize)
    ensures
        final(out)@ == old(out)@ + pad_left(hex_0x(n as nat), width as nat, ' '),
{
    let mut s = "0x".to_string();
    push_hex(&mut s, n);
    push_padded(out, s.as_str(), width, ' ');
}

/// Appends `n` in decimal, with spaces in front up to `width` characters.
pub fn push_dec_wide(out: &mut String, n: u64, width: usize)
    ensures
        final(out)@ == old(out)@ + pad_left(dec(n as nat), width as nat, ' '),
{
    let s = dec_text(n);
    push_padded(out, s.as_str(), width, ' ');
}

/// Every number has digits, and nothing else stands among them.
pub proof fn lemma_dec_digits(n: nat)
    ensures
        dec(n).len() >= 1,
        forall|i: int| 0 <= i < dec(n).len() ==> '0' <= #[trigger] dec(n)[i] <= '9',
    decreases n,
{
    if n >= 10 {
        lemma_dec_digits(n / 10);
    }
}

/// Different numbers have different digits.
pub proof fn lemma_dec_injective(n: nat, m: nat)
    requires
        dec(n) == dec(m),
    ensures
        n == m,
    decreases n,
{
    lemma_dec_digits(n / 10);
    lemma_dec_digits(m / 10);
    assert(dec(n).last() == dec(m).last());
    assert(dec(n).last() == digit_char((n % 10) as int));
    assert(dec(m).last() == digit_char((m % 10) as int));
    if n >= 10 && m >= 10 {
        assert(dec(n / 10) =~= dec(n).drop_last());
        assert(dec(m / 10) =~= dec(m).drop_last());
        lemma_dec_injective(n / 10, m / 10);
    } else if n >= 10 {
        assert(dec(n).len() >= 2);
    } else if m >= 10 {
        assert(dec(m).len() >= 2);
    }
}

} // verus!
