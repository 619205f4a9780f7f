//! What the files under a root ought to hold.

use vstd::prelude::*;
use vstd::string::*;

use crate::fsx_report::{byte_text, push_byte};
use crate::pathorder::{law_paths_are_ordered, path_before};
use crate::paths::same_parts;
use crate::text::{dec, push_dec, texts};

verus! {

/// A failed run: what kind of failure, what happened, and the commands before it.
#[derive(Debug)]
pub struct RunError {
    pub category: &'static str,
    pub message: String,
    pub report: String,
}

/// A failure by its texts.
#[verifier::ext_equal]
pub struct RunErrorView {
    pub category: Seq<char>,
    pub message: Seq<char>,
    pub report: Seq<char>,
}

impl View for RunError {
    type V = RunErrorView;

    open spec fn view(&self) -> RunErrorView {
        RunErrorView {
            category: self.category@,
            message: self.message@,
            report: self.report@,
        }
    }
}

/// A failure that has no report yet.
pub open spec fn failed(category: Seq<char>, message: Seq<char>) -> RunErrorView {
    RunErrorView { category, message, report: ""@ }
}

pub open spec fn run_view(r: Result<(), RunError>) -> Result<(), RunErrorView> {
    match r {
        Ok(_) => Ok(()),
        Err(e) => Err(e@),
    }
}

impl RunError {
    pub fn new(category: &'static str, message: String) -> (e: Self)
        ensures
            e@ == failed(category@, message@),
    {
        RunError { category, message, report: "".to_string() }
    }

    pub fn with_report(self, report: String) -> (e: Self)
        ensures
            e@ == (RunErrorView { report: report@, ..self@ }),
    {
        RunError { category: self.category, message: self.message, report }
    }

    /// The failure as one text, the report behind it where there is one.
    pub fn text(&self) -> (s: String)
        ensures
            s@ == if self.report@.len() == 0 {
                self.category@ + ": "@ + self.message@
            } else {
                self.category@ + ": "@ + self.message@ + "\n"@ + self.report@
            },
    {
        let s = self.category.to_string().concat(": ").concat(self.message.as_str());
        if self.report.as_str().unicode_len() == 0 {
            s
        } else {
            s.concat("\n").concat(self.report.as_str())
        }
    }
}

/// The first place from `i` on at which the bytes differ.
pub open spec fn first_difference(a: Seq<u8>, b: Seq<u8>, i: nat) -> nat
    decreases a.len() - i,
{
    if i >= a.len() || a[i as int] != b[i as int] {
        i
    } else {
        first_difference(a, b, i + 1)
    }
}

/// The verdict on what the file at `path` holds.
pub open spec fn bytes_verdict(path: Seq<char>, expected: Seq<u8>, actual: Seq<u8>) -> Result<
    (),
    RunErrorView,
> {
    if expected.len() != actual.len() {
        Err(
            failed(
                "wrong-size"@,
                path + " expected "@ + dec(expected.len()) + " bytes, got "@ + dec(actual.len())
                    + " bytes"@,
            ),
        )
    } else if expected != actual {
        let offset = first_difference(expected, actual, 0);
        Err(
            failed(
                "wrong-bytes"@,
                path + " mismatch at offset "@ + dec(offset) + ": expected "@ + byte_text(
                    expected[offset as int],
                ) + ", got "@ + byte_text(actual[offset as int]),
            ),
        )
    } else {
        Ok(())
    }
}

/// Compares what the file at `path` ought to hold with what it holds.
pub fn compare_bytes(path: &str, expected: &[u8], actual: &[u8]) -> (r: Result<(), RunError>)
    ensures
        run_view(r) == bytes_verdict(path@, expected@, actual@),
{
    let total: usize = expected.len();
    let found: usize = actual.len();
    if total != found {
        let mut s = path.to_string();
        s.append(" expected ");
        push_dec(&mut s, total as u64);
        s.append(" bytes, got ");
        push_dec(&mut s, found as u64);
        s.append(" bytes");
        return Err(RunError::new("wrong-size", s));
    }
    let mut i: usize = 0;
    while i < total && expected[i] == actual[i]
        invariant
            total == expected@.len(),
            total == actual@.len(),
            i <= total,
            forall|j: int| 0 <= j < i ==> expected@[j] == actual@[j],
            first_difference(expected@, actual@, 0) == first_difference(
                expected@,
                actual@,
                i as nat,
            ),
        decreases total - i,
    {
        i = i + 1;
    }
    if i == total {
        assert(expected@ =~= actual@);
        return Ok(());
    }
    let mut s = path.to_string();
    s.append(" mismatch at offset ");
    push_dec(&mut s, i as u64);
    s.append(": expected ");
    push_byte(&mut s, expected[i]);
    s.append(", got ");
    push_byte(&mut s, actual[i]);
    Err(RunError::new("wrong-bytes", s))
}

/// Bytes are accepted if and only if they are the expected ones.
pub proof fn law_equal_bytes_pass(path: Seq<char>, expected: Seq<u8>, actual: Seq<u8>)
    ensures
        bytes_verdict(path, expected, actual) is Ok <==> expected == actual,
{
}

/// An entry of a walk through a directory.
pub struct FoundEntry {
    pub path: String,
    pub is_dir: bool,
    pub is_file: bool,
}

/// The paths of the files among the entries.
pub open spec fn files_among(entries: Seq<FoundEntry>) -> Seq<Seq<char>>
    decreases entries.len(),
{
    if entries.len() == 0 {
        Seq::empty()
    } else {
        let before = files_among(entries.drop_last());
        let e = entries.last();
        if !e.is_dir && e.is_file {
            before.push(e.path@)
        } else {
            before
        }
    }
}

/// The files that a walk through a directory came by; none where there is no directory.
pub fn collect_files(walk: Option<&Vec<FoundEntry>>) -> (out: Vec<String>)
    ensures
        texts(out@) == match walk {
            Some(entries) => files_among(entries@),
            None => Seq::empty(),
        },
{
    let mut out: Vec<String> = Vec::new();
    assert(texts(out@) =~= Seq::empty());
    if let Some(entries) = walk {
        let total: usize = entries.len();
        let mut i: usize = 0;
        assert(entries@.take(0) =~= Seq::empty());
        while i < total
            invariant
                total == entries@.len(),
                i <= total,
                texts(out@) == files_among(entries@.take(i as int)),
            decreases total - i,
        {
            assert(entries@.take(i + 1).drop_last() =~= entries@.take(i as int));
            let e = &entries[i];
            if !e.is_dir && e.is_file {
                let ghost before = texts(out@);
                out.push(e.path.clone());
                assert(texts(out@) =~= before.push(e.path@));
            }
            i = i + 1;
        }
        assert(entries@.take(i as int) =~= entries@);
    }
    out
}

#[derive(Clone, Copy, Debug, PartialEq, Eq, Structural)]
pub struct OpenFlags {
    pub read: bool,
    pub write: bool,
    pub append: bool,
    pub truncate: bool,
    pub create: bool,
    pub create_new: bool,
}

impl OpenFlags {
    pub fn read_only() -> (f: Self)
        ensures
            f == (OpenFlags {
                read: true,
                write: false,
                append: false,
                truncate: false,
                create: false,
                create_new: false,
            }),
    {
        OpenFlags {
            read: true,
            write: false,
            append: false,
            truncate: false,
            create: false,
            create_new: false,
        }
    }

    pub fn read_write_create() -> (f: Self)
        ensures
            f == (OpenFlags {
                read: true,
                write: true,
                append: false,
                truncate: false,
                create: true,
                create_new: false,
            }),
    {
        OpenFlags {
            read: true,
            write: true,
            append: false,
            truncate: false,
            create: true,
            create_new: false,
        }
    }

    pub fn read_write_truncate() -> (f: Self)
        ensures
            f == (OpenFlags {
                read: true,
                write: true,
                append: false,
                truncate: true,
                create: true,
                create_new: false,
            }),
    {
        OpenFlags {
            read: true,
            write: true,
            append: false,
            truncate: true,
            create: true,
            create_new: false,
        }
    }

    pub fn append_create() -> (f: Self)
        ensures
            f == (OpenFlags {
                read: true,
                write: false,
                append: true,
                truncate: false,
                create: true,
                create_new: false,
            }),
    {
        OpenFlags {
            read: true,
            write: false,
            append: true,
            truncate: false,
            create: true,
            create_new: false,
        }
    }
}

/// A file of the world.
pub struct WorldFile {
    pub path: String,
    pub data: Vec<u8>,
}

#[verifier::ext_equal]
pub struct FileView {
    pub path: Seq<char>,
    pub data: Seq<u8>,
}

impl View for WorldFile {
    type V = FileView;

    open spec fn view(&self) -> FileView {
        FileView { path: self.path@, data: self.data@ }
    }
}

pub open spec fn file_views(files: Seq<WorldFile>) -> Seq<FileView> {
    files.map_values(|f: WorldFile| f@)
}

/// Whether the files are in the order of their paths, no path twice.
pub open spec fn sorted(files: Seq<FileView>) -> bool {
    forall|i: int, j: int|
        0 <= i < j < files.len() ==> path_before(#[trigger] files[i].path, #[trigger] files[j].path)
}

/// What the file at `path` holds, where there is one.
pub open spec fn lookup(files: Seq<FileView>, path: Seq<char>) -> Option<Seq<u8>>
    decreases files.len(),
{
    if files.len() == 0 {
        None
    } else if same_parts(files[0].path, path) {
        Some(files[0].data)
    } else {
        lookup(files.drop_first(), path)
    }
}

/// What the file at `path` holds; nothing where there is none.
pub open spec fn contents(files: Seq<FileView>, path: Seq<char>) -> Seq<u8> {
    match lookup(files, path) {
        Some(data) => data,
        None => Seq::empty(),
    }
}

/// The files once the one at `path` holds `data`, in its place in the order.
pub open spec fn put(files: Seq<FileView>, path: Seq<char>, data: Seq<u8>) -> Seq<FileView>
    decreases files.len(),
{
    if files.len() == 0 {
        seq![FileView { path, data }]
    } else if same_parts(files[0].path, path) {
        seq![FileView { path: files[0].path, data }] + files.drop_first()
    } else if path_before(path, files[0].path) {
        seq![FileView { path, data }] + files
    } else {
        seq![files[0]] + put(files.drop_first(), path, data)
    }
}

/// The files without the one at `path`.
pub open spec fn without(files: Seq<FileView>, path: Seq<char>) -> Seq<FileView>
    decreases files.len(),
{
    if files.len() == 0 {
        files
    } else if same_parts(files[0].path, path) {
        files.drop_first()
    } else {
        seq![files[0]] + without(files.drop_first(), path)
    }
}

proof fn lemma_put_path(files: Seq<FileView>, path: Seq<char>, data: Seq<u8>, i: int)
    requires
        0 <= i < put(files, path, data).len(),
    ensures
        put(files, path, data)[i].path == path || exists|j: int|
            0 <= j < files.len() && put(files, path, data)[i].path == files[j].path,
    decreases files.len(),
{
    if files.len() == 0 {
    } else if same_parts(files[0].path, path) {
        if i == 0 {
            assert(put(files, path, data)[0].path == files[0].path);
        } else {
            assert(put(files, path, data)[i] == files[i]);
        }
    } else if path_before(path, files[0].path) {
        if i > 0 {
            assert(put(files, path, data)[i] == files[i - 1]);
        }
    } else if i == 0 {
        assert(put(files, path, data)[0] == files[0]);
    } else {
        let rest = files.drop_first();
        lemma_put_path(rest, path, data, i - 1);
        assert(put(files, path, data)[i] == put(rest, path, data)[i - 1]);
        if put(rest, path, data)[i - 1].path != path {
            let j = choose|j: int|
                0 <= j < rest.len() && put(rest, path, data)[i - 1].path == rest[j].path;
            assert(files[j + 1] == rest[j]);
        }
    }
}

/// Putting a file in keeps the order.
pub proof fn lemma_put_sorted(files: Seq<FileView>, path: Seq<char>, data: Seq<u8>)
    requires
        sorted(files),
    ensures
        sorted(put(files, path, data)),
    decreases files.len(),
{
    let after = put(files, path, data);
    if files.len() > 0 {
        let rest = files.drop_first();
        assert(sorted(rest)) by {
            assert forall|i: int, j: int| 0 <= i < j < rest.len() implies path_before(
                #[trigger] rest[i].path,
                #[trigger] rest[j].path,
            ) by {
                assert(rest[i] == files[i + 1]);
                assert(rest[j] == files[j + 1]);
            }
        }
        lemma_put_sorted(rest, path, data);
        law_paths_are_ordered(files[0].path, path, path);
        assert forall|i: int, j: int| 0 <= i < j < after.len() implies path_before(
            #[trigger] after[i].path,
            #[trigger] after[j].path,
        ) by {
            if same_parts(files[0].path, path) {
                assert(after[i].path == files[i].path);
                assert(after[j].path == files[j].path);
            } else if path_before(path, files[0].path) {
                assert(after[j] == files[j - 1]);
                if i == 0 {
                    law_paths_are_ordered(path, files[0].path, files[j - 1].path);
                } else {
                    assert(after[i] == files[i - 1]);
                }
            } else {
                assert(after[j] == put(rest, path, data)[j - 1]);
                if i == 0 {
                    lemma_put_path(rest, path, data, j - 1);
                    if after[j].path != path {
                        let k = choose|k: int|
                            0 <= k < rest.len() && put(rest, path, data)[j - 1].path
                                == rest[k].path;
                        assert(rest[k] == files[k + 1]);
                    }
                } else {
                    assert(after[i] == put(rest, path, data)[i - 1]);
                }
            }
        }
    }
}

proof fn lemma_without_from(files: Seq<FileView>, path: Seq<char>, i: int)
    requires
        0 <= i < without(files, path).len(),
    ensures
        exists|j: int| i <= j < files.len() && #[trigger] files[j] == without(files, path)[i],
    decreases files.len(),
{
    if files.len() > 0 {
        if same_parts(files[0].path, path) {
            assert(files[i + 1] == without(files, path)[i]);
        } else if i == 0 {
            assert(files[0] == without(files, path)[0]);
        } else {
            let rest = files.drop_first();
            lemma_without_from(rest, path, i - 1);
            let j = choose|j: int|
                i - 1 <= j < rest.len() && #[trigger] rest[j] == without(rest, path)[i - 1];
            assert(files[j + 1] == without(files, path)[i]);
        }
    }
}

/// Taking a file out keeps the order.
pub proof fn lemma_without_sorted(files: Seq<FileView>, path: Seq<char>)
    requires
        sorted(files),
    ensures
        sorted(without(files, path)),
    decreases files.len(),
{
    if files.len() > 0 {
        let rest = files.drop_first();
        assert(sorted(rest)) by {
            assert forall|i: int, j: int| 0 <= i < j < rest.len() implies path_before(
                #[trigger] rest[i].path,
                #[trigger] rest[j].path,
            ) by {
                assert(rest[i] == files[i + 1]);
                assert(rest[j] == files[j + 1]);
            }
        }
        lemma_without_sorted(rest, path);
        if !same_parts(files[0].path, path) {
            let after = without(files, path);
            assert forall|i: int, j: int| 0 <= i < j < after.len() implies path_before(
                #[trigger] after[i].path,
                #[trigger] after[j].path,
            ) by {
                assert(after[j] == without(rest, path)[j - 1]);
                if i == 0 {
                    lemma_without_from(rest, path, j - 1);
                    let k = choose|k: int|
                        j - 1 <= k < rest.len() && #[trigger] rest[k] == without(rest, path)[j - 1];
                    assert(rest[k] == files[k + 1]);
                } else {
                    assert(after[i] == without(rest, path)[i - 1]);
                }
            }
        }
    }
}

/// What was put in a file is found there, and nowhere else.
pub proof fn law_put_is_found(
    files: Seq<FileView>,
    path: Seq<char>,
    data: Seq<u8>,
    other: Seq<char>,
)
    ensures
        lookup(put(files, path, data), other) == if same_parts(path, other) {
            Some(data)
        } else {
            lookup(files, other)
        },
    decreases files.len(),
{
    let after = put(files, path, data);
    if files.len() == 0 {
        assert(after.drop_first() =~= files);
    } else if same_parts(files[0].path, path) {
        assert(after.drop_first() =~= files.drop_first());
    } else if path_before(path, files[0].path) {
        assert(after.drop_first() =~= files);
    } else {
        law_put_is_found(files.drop_first(), path, data, other);
        assert(after.drop_first() =~= put(files.drop_first(), path, data));
    }
}

proof fn lemma_absent(files: Seq<FileView>, path: Seq<char>)
    requires
        forall|i: int| 0 <= i < files.len() ==> !same_parts(#[trigger] files[i].path, path),
    ensures
        lookup(files, path) is None,
    decreases files.len(),
{
    if files.len() > 0 {
        let rest = files.drop_first();
        assert forall|i: int| 0 <= i < rest.len() implies !same_parts(
            #[trigger] rest[i].path,
            path,
        ) by {
            assert(rest[i] == files[i + 1]);
        }
        lemma_absent(rest, path);
    }
}

/// A file that was taken out is gone; the others are as before.
pub proof fn law_unlinked_is_gone(files: Seq<FileView>, path: Seq<char>, other: Seq<char>)
    requires
        sorted(files),
    ensures
        lookup(without(files, path), other) == if same_parts(path, other) {
            None
        } else {
            lookup(files, other)
        },
    decreases files.len(),
{
    if files.len() > 0 {
        let rest = files.drop_first();
        assert(sorted(rest)) by {
            assert forall|i: int, j: int| 0 <= i < j < rest.len() implies path_before(
                #[trigger] rest[i].path,
                #[trigger] rest[j].path,
            ) by {
                assert(rest[i] == files[i + 1]);
                assert(rest[j] == files[j + 1]);
            }
        }
        if same_parts(files[0].path, path) {
            assert forall|i: int| 0 <= i < rest.len() implies !same_parts(
                #[trigger] rest[i].path,
                path,
            ) by {
                assert(rest[i] == files[i + 1]);
                law_paths_are_ordered(files[0].path, files[i + 1].path, path);
            }
            lemma_absent(rest, path);
            if same_parts(path, other) {
                lemma_same_key(rest, path, other);
            }
        } else {
            law_unlinked_is_gone(rest, path, other);
            assert(without(files, path).drop_first() =~= without(rest, path));
        }
    }
}

proof fn lemma_same_key(files: Seq<FileView>, a: Seq<char>, b: Seq<char>)
    requires
        same_parts(a, b),
    ensures
        lookup(files, a) == lookup(files, b),
    decreases files.len(),
{
    if files.len() > 0 {
        lemma_same_key(files.drop_first(), a, b);
    }
}

/// A renamed file holds at its new place what it held at the old one, where nothing is left.
pub proof fn law_rename_moves(files: Seq<FileView>, from: Seq<char>, to: Seq<char>)
    requires
        sorted(files),
        !same_parts(from, to),
        lookup(files, from) is Some,
    ensures
        ({
            let after = put(without(files, from), to, contents(files, from));
            lookup(after, to) == lookup(files, from) && lookup(after, from) is None
        }),
{
    let left = without(files, from);
    law_put_is_found(left, to, contents(files, from), to);
    law_put_is_found(left, to, contents(files, from), from);
    law_unlinked_is_gone(files, from, from);
}

/// Where a handle is, and what it is open on.
pub struct HandleMeta {
    pub worker: usize,
    pub handle: u64,
    pub path: String,
    pub pos: u64,
}

#[verifier::ext_equal]
pub struct HandleView {
    pub path: Seq<char>,
    pub pos: u64,
}

/// The handle of a worker, as far as it is open.
pub open spec fn handle_of(handles: Seq<HandleMeta>, worker: usize, handle: u64) -> Option<
    HandleView,
>
    decreases handles.len(),
{
    if handles.len() == 0 {
        None
    } else {
        let h = handles.last();
        if h.worker == worker && h.handle == handle {
            Some(HandleView { path: h.path@, pos: h.pos })
        } else {
            handle_of(handles.drop_last(), worker, handle)
        }
    }
}

pub open spec fn handle_map(handles: Seq<HandleMeta>) -> Map<(usize, u64), HandleView> {
    Map::new(
        |k: (usize, u64)| handle_of(handles, k.0, k.1) is Some,
        |k: (usize, u64)| handle_of(handles, k.0, k.1)->0,
    )
}

} // verus!
