//! Manifests are read as they were written.

use vstd::prelude::*;
use vstd::string::*;

use crate::expected::{below, hash_of, hash_on, hashes_of, manifest_lines};
use crate::http_laws::{law_decimal_numbers_are_read, shows};
use crate::manifest::{entry_in, lines_verdict, EntryView, FoundFile};
use crate::numbers::{digit_value, digits_from, law_numbers_read_back, number_of, NumberError};
use crate::paths::joined_path;
use crate::strings::{lines_of, without_return};
use crate::text::{dec, digit_char, hex, lemma_dec_digits, pad_left, pieces, repeated};
use crate::world::{FileView, RunErrorView};

verus! {

proof fn lemma_pieces_some(s: Seq<char>, sep: char)
    ensures
        pieces(s, sep).len() >= 1,
    decreases s.len(),
{
    if s.len() > 0 {
        lemma_pieces_some(s.drop_last(), sep);
    }
}

/// Text without a separator makes the last piece longer.
proof fn lemma_pieces_plain(a: Seq<char>, plain: Seq<char>, sep: char)
    requires
        forall|i: int| 0 <= i < plain.len() ==> #[trigger] plain[i] != sep,
    ensures
        pieces(a + plain, sep) == pieces(a, sep).drop_last().push(pieces(a, sep).last() + plain),
    decreases plain.len(),
{
    lemma_pieces_some(a, sep);
    let before = pieces(a, sep);
    if plain.len() == 0 {
        assert(a + plain =~= a);
        assert(before.last() + plain =~= before.last());
        assert(before =~= before.drop_last().push(before.last()));
    } else {
        let less = plain.drop_last();
        assert forall|i: int| 0 <= i < less.len() implies #[trigger] less[i] != sep by {
            assert(less[i] == plain[i]);
        }
        lemma_pieces_plain(a, less, sep);
        assert((a + plain).drop_last() =~= a + less);
        assert((a + plain).last() == plain[plain.len() - 1]);
        let one = pieces(a + less, sep);
        assert(one.last() == before.last() + less);
        assert((before.last() + less).push(plain.last()) =~= before.last() + plain);
        assert(one.drop_last() =~= before.drop_last());
    }
}

proof fn lemma_pieces_cut(a: Seq<char>, sep: char)
    ensures
        pieces(a.push(sep), sep) == pieces(a, sep).push(Seq::empty()),
{
    assert(a.push(sep).drop_last() =~= a);
}

proof fn lemma_hex_digits(n: nat)
    ensures
        hex(n).len() >= 1,
        forall|i: int|
            0 <= i < hex(n).len() ==> ('0' <= #[trigger] hex(n)[i] <= '9' || 'a' <= hex(n)[i]
                <= 'f'),
        digit_value(hex(n).last()) == Some(n % 16),
    decreases n,
{
    let d = (n % 16) as int;
    let c = digit_char(d);
    assert(c as int == if d < 10 {
        48 + d
    } else {
        87 + d
    });
    assert(hex(n).last() == c);
    if n >= 16 {
        lemma_hex_digits(n / 16);
        assert(hex(n).drop_last() =~= hex(n / 16));
        assert forall|i: int| 0 <= i < hex(n).len() implies ('0' <= #[trigger] hex(n)[i] <= '9'
            || 'a' <= hex(n)[i] <= 'f') by {
            if i < hex(n).len() - 1 {
                assert(hex(n)[i] == hex(n / 16)[i]);
            }
        }
    }
}

/// What stands behind the digits of `n` is read on from `n`.
proof fn lemma_hex_from(n: nat, s: Seq<char>, start: nat, max: nat)
    requires
        n <= max,
        start + hex(n).len() <= s.len(),
        s.subrange(start as int, (start + hex(n).len()) as int) == hex(n),
    ensures
        digits_from(s, start, 0, 16, max) == digits_from(s, start + hex(n).len(), n, 16, max),
    decreases n,
{
    let digits = hex(n);
    let len = digits.len();
    lemma_hex_digits(n);
    assert(s.subrange(start as int, (start + len) as int)[len - 1] == s[start + len - 1]);
    assert(digit_value(s[start + len - 1]) == Some(n % 16));
    if n >= 16 {
        let front = hex(n / 16);
        assert(front =~= digits.drop_last());
        assert(s.subrange(start as int, (start + front.len()) as int) =~= s.subrange(
            start as int,
            (start + len) as int,
        ).drop_last());
        lemma_hex_from(n / 16, s, start, max);
        assert((n / 16) * 16 + n % 16 == n);
        assert(digits_from(s, (start + len - 1) as nat, n / 16, 16, max) == digits_from(
            s,
            start + len,
            n,
            16,
            max,
        ));
    }
}

proof fn lemma_zeros(s: Seq<char>, k: nat, max: nat)
    requires
        k <= s.len(),
        forall|i: int| 0 <= i < k ==> #[trigger] s[i] == '0',
    ensures
        digits_from(s, 0, 0, 16, max) == digits_from(s, k, 0, 16, max),
    decreases k,
{
    if k > 0 {
        lemma_zeros(s, (k - 1) as nat, max);
        assert(s[k - 1] == '0');
        assert(digit_value('0') == Some(0nat));
        assert(digits_from(s, (k - 1) as nat, 0, 16, max) == digits_from(s, k, 0, 16, max));
    }
}

/// A hash in sixteen digits is read back.
proof fn lemma_hash_reads_back(h: u64)
    ensures
        number_of(pad_left(hex(h as nat), 16, '0'), 16, u64::MAX as nat) == Ok::<nat, NumberError>(
            h as nat,
        ),
        forall|i: int|
            0 <= i < pad_left(hex(h as nat), 16, '0').len() ==> #[trigger] pad_left(
                hex(h as nat),
                16,
                '0',
            )[i] != '\t' && pad_left(hex(h as nat), 16, '0')[i] != '\n' && pad_left(
                hex(h as nat),
                16,
                '0',
            )[i] != '\r',
        pad_left(hex(h as nat), 16, '0').len() >= 1,
{
    let digits = hex(h as nat);
    let s = pad_left(digits, 16, '0');
    lemma_hex_digits(h as nat);
    let k: nat = if digits.len() >= 16 {
        0
    } else {
        (16 - digits.len()) as nat
    };
    if digits.len() < 16 {
        assert(s =~= repeated('0', k) + digits);
    } else {
        assert(s =~= repeated('0', 0) + digits);
    }
    assert(s.subrange(k as int, (k + digits.len()) as int) =~= digits);
    lemma_zeros(s, k, u64::MAX as nat);
    lemma_hex_from(h as nat, s, k, u64::MAX as nat);
    assert(s[0] != '+');
    assert forall|i: int| 0 <= i < s.len() implies #[trigger] s[i] != '\t' && s[i] != '\n' && s[i]
        != '\r' by {
        if i >= k {
            assert(s[i] == digits[i - k]);
        }
    }
}

/// A line of a manifest without its end.
pub open spec fn manifest_row(path: Seq<char>, len: nat, hash: u64) -> Seq<char> {
    path + "\t"@ + dec(len) + "\t"@ + pad_left(hex(hash as nat), 16, '0')
}

/// Whether a path can stand in a manifest.
pub open spec fn plain_name(path: Seq<char>) -> bool {
    forall|i: int|
        0 <= i < path.len() ==> #[trigger] path[i] != '\t' && path[i] != '\n' && path[i] != '\r'
}

/// A line of a manifest is read back.
pub proof fn law_manifest_line_reads_back(
    root: Seq<char>,
    lineno: nat,
    path: Seq<char>,
    len: nat,
    hash: u64,
)
    requires
        plain_name(path),
        len <= usize::MAX,
    ensures
        entry_in(root, lineno, manifest_row(path, len, hash)) == Ok::<EntryView, RunErrorView>(
            EntryView { path: joined_path(root, path), len, hash: hash as nat },
        ),
{
    reveal_strlit("\t");
    let hash_text = pad_left(hex(hash as nat), 16, '0');
    let none = Seq::<char>::empty();
    lemma_hash_reads_back(hash);
    lemma_dec_digits(len);
    law_numbers_read_back(len, usize::MAX as nat);
    let two = path + "\t"@ + dec(len);
    let row = manifest_row(path, len, hash);
    assert(pieces(none, '\t') == seq![none]);
    lemma_pieces_plain(none, path, '\t');
    assert(none + path =~= path);
    assert(pieces(path, '\t') =~= seq![path]);
    lemma_pieces_cut(path, '\t');
    assert(path + "\t"@ =~= path.push('\t'));
    assert(pieces(path + "\t"@, '\t') =~= seq![path, none]);
    lemma_pieces_plain(path + "\t"@, dec(len), '\t');
    assert(none + dec(len) =~= dec(len));
    assert(pieces(two, '\t') =~= seq![path, dec(len)]);
    lemma_pieces_cut(two, '\t');
    assert(two + "\t"@ =~= two.push('\t'));
    assert(pieces(two + "\t"@, '\t') =~= seq![path, dec(len), none]);
    lemma_pieces_plain(two + "\t"@, hash_text, '\t');
    assert(none + hash_text =~= hash_text);
    assert(row =~= two + "\t"@ + hash_text);
    assert(pieces(row, '\t') =~= seq![path, dec(len), hash_text]);
}

proof fn lemma_row_plain(path: Seq<char>, len: nat, hash: u64)
    requires
        plain_name(path),
    ensures
        forall|i: int|
            0 <= i < manifest_row(path, len, hash).len() ==> #[trigger] manifest_row(
                path,
                len,
                hash,
            )[i] != '\n',
        manifest_row(path, len, hash).len() > 0,
        manifest_row(path, len, hash).last() != '\r',
{
    reveal_strlit("\t");
    lemma_hash_reads_back(hash);
    lemma_dec_digits(len);
    let row = manifest_row(path, len, hash);
    let hash_text = pad_left(hex(hash as nat), 16, '0');
    assert(row.last() == hash_text[hash_text.len() - 1]);
    let p = path.len();
    let d = dec(len).len();
    assert forall|i: int| 0 <= i < row.len() implies #[trigger] row[i] != '\n' by {
        if i < p {
            assert(row[i] == path[i]);
        } else if i == p {
            assert(row[i] == '\t');
        } else if i < p + 1 + d {
            assert(row[i] == dec(len)[i - p - 1]);
        } else if i == p + 1 + d {
            assert(row[i] == '\t');
        } else {
            assert(row[i] == hash_text[i - p - d - 2]);
        }
    }
}

/// The rows of a manifest.
pub open spec fn rows(root: Seq<char>, files: Seq<FileView>, hashes: Seq<u64>, n: nat) -> Seq<
    Seq<char>,
> {
    Seq::new(
        n,
        |i: int| manifest_row(below(root, files[i].path), files[i].data.len(), hashes[i]),
    )
}

proof fn lemma_manifest_pieces(
    root: Seq<char>,
    files: Seq<FileView>,
    hashes: Seq<u64>,
    n: nat,
)
    requires
        n <= files.len(),
        forall|i: int| 0 <= i < files.len() ==> plain_name(below(root, (#[trigger] files[i]).path)),
    ensures
        pieces(manifest_lines(root, files, hashes, n), '\n') == rows(root, files, hashes, n).push(
            Seq::empty(),
        ),
    decreases n,
{
    let none = Seq::<char>::empty();
    let text = manifest_lines(root, files, hashes, n);
    if n == 0 {
        assert(pieces(none, '\n') == seq![none]);
        assert(rows(root, files, hashes, 0).push(none) =~= seq![none]);
    } else {
        reveal_strlit("\n");
        let m = (n - 1) as nat;
        lemma_manifest_pieces(root, files, hashes, m);
        let before = manifest_lines(root, files, hashes, m);
        let f = files[n - 1];
        assert(plain_name(below(root, f.path)));
        let row = manifest_row(below(root, f.path), f.data.len(), hashes[n - 1]);
        lemma_row_plain(below(root, f.path), f.data.len(), hashes[n - 1]);
        assert(text =~= (before + row).push('\n'));
        lemma_pieces_plain(before, row, '\n');
        lemma_pieces_cut(before + row, '\n');
        assert(none + row =~= row);
        let old_rows = rows(root, files, hashes, m);
        assert(old_rows.push(none).drop_last() =~= old_rows);
        assert(old_rows.push(row) =~= rows(root, files, hashes, n));
    }
}

proof fn lemma_manifest_rows(root: Seq<char>, files: Seq<FileView>, hashes: Seq<u64>)
    requires
        forall|i: int| 0 <= i < files.len() ==> plain_name(below(root, (#[trigger] files[i]).path)),
    ensures
        lines_of(manifest_lines(root, files, hashes, files.len())) == rows(
            root,
            files,
            hashes,
            files.len(),
        ),
{
    let n = files.len();
    let text = manifest_lines(root, files, hashes, n);
    assert forall|i: int| 0 <= i < files.len() implies plain_name(
        below(root, (#[trigger] files[i]).path),
    ) by {
    }
    lemma_manifest_pieces(root, files, hashes, n);
    let all = rows(root, files, hashes, n);
    let ps = pieces(text, '\n');
    assert(ps.drop_last() =~= all);
    let ended = ps.drop_last().map_values(|line: Seq<char>| without_return(line));
    assert(ended =~= all) by {
        assert forall|i: int| 0 <= i < n implies ended[i] == all[i] by {
            assert(plain_name(below(root, files[i].path)));
            lemma_row_plain(below(root, files[i].path), files[i].data.len(), hashes[i]);
        }
    }
    assert(lines_of(text) == all);
}

proof fn lemma_manifest_passes(
    root: Seq<char>,
    files: Seq<FileView>,
    hashes: Seq<u64>,
    found: Seq<FoundFile>,
)
    requires
        found.len() == files.len(),
        forall|i: int|
            0 <= i < files.len() ==> plain_name(below(root, (#[trigger] files[i]).path))
                && files[i].data.len() <= usize::MAX && (found[i] matches Ok((len, hash)) && len
                == files[i].data.len() && hash == hashes[i]),
    ensures
        lines_of(manifest_lines(root, files, hashes, files.len())).len() == files.len(),
        lines_verdict(
            root,
            lines_of(manifest_lines(root, files, hashes, files.len())),
            found,
            0,
        ) is Ok,
{
    lemma_manifest_rows(root, files, hashes);
    lemma_lines_pass(root, files, hashes, found, 0);
}

/// A manifest verifies the files that it was made of: on machines of one byte order, a
/// manifest in which each file stands with the hash of its bytes accepts files that hold the
/// same bytes.
pub proof fn law_manifest_verifies(
    root: Seq<char>,
    files: Seq<FileView>,
    hashes: Seq<u64>,
    contents: Seq<Seq<u8>>,
    found: Seq<FoundFile>,
    big: bool,
)
    requires
        hashes.len() == files.len(),
        contents.len() == files.len(),
        found.len() == files.len(),
        forall|i: int|
            #![trigger files[i]]
            0 <= i < files.len() ==> {
                &&& plain_name(below(root, files[i].path))
                &&& files[i].data.len() <= usize::MAX
                &&& hashes[i] == hash_on(files[i].data, big)
                &&& contents[i] == files[i].data
                &&& found[i] matches Ok((len, hash)) && len == contents[i].len() && hash == hash_on(
                    contents[i],
                    big,
                )
            },
    ensures
        hashes_of(files, hashes),
        lines_of(manifest_lines(root, files, hashes, files.len())).len() == files.len(),
        lines_verdict(
            root,
            lines_of(manifest_lines(root, files, hashes, files.len())),
            found,
            0,
        ) is Ok,
{
    assert forall|k: int| 0 <= k < files.len() implies hash_of(
        files[k].data,
        #[trigger] hashes[k],
    ) by {
        assert(hashes[k] == hash_on(files[k].data, big));
    }
    lemma_manifest_passes(root, files, hashes, found);
}

/// A file that changed is found out: where a file holds bytes of another length or of another
/// hash than the manifest says, the manifest is not accepted.
pub proof fn law_changed_file_is_found(
    root: Seq<char>,
    files: Seq<FileView>,
    hashes: Seq<u64>,
    found: Seq<FoundFile>,
    i: int,
)
    requires
        0 <= i < files.len(),
        hashes.len() == files.len(),
        found.len() == files.len(),
        forall|k: int|
            0 <= k < files.len() ==> plain_name(below(root, (#[trigger] files[k]).path))
                && files[k].data.len() <= usize::MAX,
        found[i] matches Ok((len, hash)) && (len != files[i].data.len() || hash != hashes[i]),
    ensures
        lines_verdict(
            root,
            lines_of(manifest_lines(root, files, hashes, files.len())),
            found,
            0,
        ) is Err,
{
    lemma_manifest_rows(root, files, hashes);
    lemma_changed_line(root, files, hashes, found, 0, i);
}

proof fn lemma_changed_line(
    root: Seq<char>,
    files: Seq<FileView>,
    hashes: Seq<u64>,
    found: Seq<FoundFile>,
    from: nat,
    i: int,
)
    requires
        from <= i < files.len(),
        found.len() == files.len(),
        forall|k: int|
            0 <= k < files.len() ==> plain_name(below(root, (#[trigger] files[k]).path))
                && files[k].data.len() <= usize::MAX,
        found[i] matches Ok((len, hash)) && (len != files[i].data.len() || hash != hashes[i]),
    ensures
        lines_verdict(root, rows(root, files, hashes, files.len()), found, from) is Err,
    decreases i - from,
{
    let f = files[from as int];
    assert(plain_name(below(root, f.path)));
    law_manifest_line_reads_back(
        root,
        from,
        below(root, f.path),
        f.data.len(),
        hashes[from as int],
    );
    if from < i {
        lemma_changed_line(root, files, hashes, found, from + 1, i);
    }
}

proof fn lemma_lines_pass(
    root: Seq<char>,
    files: Seq<FileView>,
    hashes: Seq<u64>,
    found: Seq<FoundFile>,
    i: nat,
)
    requires
        i <= files.len(),
        found.len() == files.len(),
        forall|i: int|
            0 <= i < files.len() ==> plain_name(below(root, (#[trigger] files[i]).path))
                && files[i].data.len() <= usize::MAX && (found[i] matches Ok((len, hash)) && len
                == files[i].data.len() && hash == hashes[i]),
    ensures
        lines_verdict(root, rows(root, files, hashes, files.len()), found, i) is Ok,
    decreases files.len() - i,
{
    if i < files.len() {
        let f = files[i as int];
        assert(plain_name(below(root, f.path)));
        law_manifest_line_reads_back(
            root,
            i,
            below(root, f.path),
            f.data.len(),
            hashes[i as int],
        );
        lemma_lines_pass(root, files, hashes, found, i + 1);
    }
}

/// A manifest passes just where each of its lines can be read and names a file that was found
/// with the length and the hash that the line gives.
pub proof fn law_manifests_pass_when_every_line_does(
    root: Seq<char>,
    all: Seq<Seq<char>>,
    found: Seq<FoundFile>,
    i: nat,
)
    requires
        found.len() == all.len(),
        i <= all.len(),
    ensures
        lines_verdict(root, all, found, i) is Ok <==> forall|k: int|
            i <= k < all.len() ==> line_passes(root, k as nat, #[trigger] all[k], found[k]),
    decreases all.len() - i,
{
    if i < all.len() {
        law_manifests_pass_when_every_line_does(root, all, found, i + 1);
        if !line_passes(root, i, all[i as int], found[i as int]) {
            assert(!line_passes(root, i as int as nat, all[i as int], found[i as int]));
        }
    }
}

/// Whether the line can be read, and the file that it names was found as it says.
pub open spec fn line_passes(
    root: Seq<char>,
    lineno: nat,
    line: Seq<char>,
    found: FoundFile,
) -> bool {
    &&& entry_in(root, lineno, line) is Ok
    &&& found is Ok
    &&& found->Ok_0.0 == entry_in(root, lineno, line)->Ok_0.len
    &&& found->Ok_0.1 == entry_in(root, lineno, line)->Ok_0.hash
}

/// A line is read just where it has three fields with tabs between them, of which the second
/// shows a length; the file is the one of the first field under the root.
pub proof fn law_lines_have_three_fields(root: Seq<char>, lineno: nat, line: Seq<char>, n: int)
    ensures
        entry_in(root, lineno, line) matches Ok(entry) ==> {
            &&& pieces(line, '\t').len() == 3
            &&& shows(pieces(line, '\t')[1], entry.len as int)
            &&& entry.path == joined_path(root, pieces(line, '\t')[0])
        },
        pieces(line, '\t').len() != 3 ==> entry_in(root, lineno, line) is Err,
        shows(pieces(line, '\t')[1], n) && n > usize::MAX ==> entry_in(root, lineno, line) is Err,
{
    if pieces(line, '\t').len() == 3 {
        law_decimal_numbers_are_read(pieces(line, '\t')[1], usize::MAX as nat);
        if let Ok(m) = number_of(pieces(line, '\t')[1], 10, usize::MAX as nat) {
            if shows(pieces(line, '\t')[1], n) {
                crate::http_laws::lemma_shows_one(pieces(line, '\t')[1], n, m as int);
            }
        }
    }
}

} // verus!
