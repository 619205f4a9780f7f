//! Where the files of a case stand, and what the fixtures hold.

use vstd::prelude::*;
use vstd::string::*;
use vstd::utf8::*;

use crate::cli::Cli;
use crate::codec::{le_bytes, write_all, write_u64};
use crate::hash::{fnv, stable_hash};
use crate::ops::{FileId, FILES};
use crate::paths::{file_name, join, joined_path, last_name, parent, parent_of};
use crate::selection::THEORY_TRIAL_1_FIXTURE_COUNT;
use crate::text::{dec, hex, pad_left, push_dec, push_hex_padded, same_bytes, texts};

verus! {

pub open spec fn fixture_name_text(index: nat) -> Seq<char> {
    "file"@ + dec(index)
}

pub fn theory_trial_1_fixture_name(index: usize) -> (name: String)
    ensures
        name@ == fixture_name_text(index as nat),
{
    let mut name = "file".to_string();
    push_dec(&mut name, index as u64);
    name
}

/// The line of which a fixture is made.
pub open spec fn fixture_header(name: Seq<char>) -> Seq<char> {
    "FSX_THEORY_TRIAL_1_FIXTURE name="@ + name + " hash="@ + pad_left(
        hex(fnv(encode_utf8(name)) as nat),
        16,
        '0',
    ) + "\n"@
}

/// The line, followed by the bytes of the name's hash.
pub open spec fn fixture_block(name: Seq<char>) -> Seq<u8> {
    encode_utf8(fixture_header(name)) + le_bytes(fnv(encode_utf8(name)) as nat, 8)
}

/// How long a fixture is: from one byte to a thousand and twenty-four.
pub open spec fn fixture_len(name: Seq<char>) -> nat {
    ((fnv(encode_utf8(name)) as usize) as nat % 1024) + 1
}

/// The contents of a fixture: its block, over and over.
pub open spec fn fixture_contents(name: Seq<char>) -> Seq<u8> {
    Seq::new(
        fixture_len(name),
        |i: int| fixture_block(name)[i % (fixture_block(name).len() as int)],
    )
}

proof fn lemma_le_len(n: nat, count: nat)
    ensures
        le_bytes(n, count).len() == count,
    decreases count,
{
    if count > 0 {
        lemma_le_len(n / 256, (count - 1) as nat);
    }
}

pub fn theory_trial_1_fixture_bytes(name: &str) -> (out: Vec<u8>)
    ensures
        out@ == fixture_contents(name@),
        1 <= out@.len() <= 1024,
{
    let hash: u64 = stable_hash(name.as_bytes());
    let len: usize = (hash as usize) % 1024 + 1;
    let mut header = "FSX_THEORY_TRIAL_1_FIXTURE name=".to_string();
    header.append(name);
    header.append(" hash=");
    push_hex_padded(&mut header, hash, 16);
    header.append("\n");
    let mut block: Vec<u8> = Vec::new();
    write_all(&mut block, header.as_str().as_bytes());
    write_u64(&mut block, hash);
    proof {
        lemma_le_len(hash as nat, 8);
        assert(block@ =~= fixture_block(name@));
    }
    let size: usize = block.len();
    let mut out: Vec<u8> = Vec::new();
    while out.len() < len
        invariant
            out@.len() <= len,
            size == block@.len(),
            size > 0,
            block@ == fixture_block(name@),
            len == fixture_len(name@),
            out@ == fixture_contents(name@).take(out@.len() as int),
        decreases len - out@.len(),
    {
        let at: usize = out.len();
        out.push(block[at % size]);
        assert(out@ =~= fixture_contents(name@).take(out@.len() as int));
    }
    assert(out@ =~= fixture_contents(name@));
    out
}

/// Whether a fixture of which `existing` is what it holds, if it is there, must be written.
pub open spec fn needs_writing(existing: Option<Seq<u8>>, name: Seq<char>) -> bool {
    existing != Some(fixture_contents(name))
}

pub open spec fn held(existing: Option<Vec<u8>>) -> Option<Seq<u8>> {
    match existing {
        Some(bytes) => Some(bytes@),
        None => None,
    }
}

/// Whether a fixture that holds `existing` must be written.
pub fn fixture_needs_writing(existing: &Option<Vec<u8>>, name: &str) -> (r: bool)
    ensures
        r == needs_writing(held(*existing), name@),
{
    let expected = theory_trial_1_fixture_bytes(name);
    match existing {
        Some(bytes) => !same_bytes(bytes.as_slice(), expected.as_slice()),
        None => true,
    }
}

/// The directory of the fixtures: the one asked for, else the first of the usual ones that
/// exists.
pub fn theory_trial_1_fixture_root(cli: &Cli, package_exists: bool, local_exists: bool) -> (root:
    String)
    ensures
        root@ == match cli@.oracle_fixtures {
            Some(root) => root,
            None => if package_exists {
                "/oracle/theory-trial-1-fixtures"@
            } else if local_exists {
                "package-assets/theory-trial-1-fixtures"@
            } else {
                "oracle-cache/theory-trial-1-fixtures"@
            },
        },
{
    match &cli.oracle_fixtures {
        Some(root) => root.clone(),
        None => if package_exists {
            "/oracle/theory-trial-1-fixtures".to_string()
        } else if local_exists {
            "package-assets/theory-trial-1-fixtures".to_string()
        } else {
            "oracle-cache/theory-trial-1-fixtures".to_string()
        },
    }
}

/// The bytes of a machine word, lowest first.
pub open spec fn word_bytes(n: usize) -> Seq<u8> {
    le_bytes(n as nat, (usize::BITS / 8) as nat)
}

fn bytes_of_word(n: usize) -> (out: Vec<u8>)
    ensures
        out@ == word_bytes(n),
{
    let mut out: Vec<u8> = Vec::new();
    let mut left: usize = n;
    let mut count: u32 = usize::BITS / 8;
    assert(out@ + le_bytes(left as nat, count as nat) =~= word_bytes(n));
    while count > 0
        invariant
            out@ + le_bytes(left as nat, count as nat) == word_bytes(n),
        decreases count,
    {
        let ghost before = out@;
        out.push((left % 256) as u8);
        proof {
            assert(le_bytes(left as nat, count as nat) == seq![(left % 256) as u8] + le_bytes(
                (left / 256) as nat,
                (count - 1) as nat,
            ));
            assert(out@ + le_bytes((left / 256) as nat, (count - 1) as nat) =~= before + (
            seq![(left % 256) as u8] + le_bytes((left / 256) as nat, (count - 1) as nat)));
        }
        left = left / 256;
        count = count - 1;
    }
    assert(out@ =~= word_bytes(n));
    out
}

/// The number of the file that a fixture of a run is.
pub open spec fn fixture_number(fixture_id: usize, fixture: FileId) -> nat {
    if fixture is Fixture1 {
        fixture_id as nat
    } else {
        (((fnv(word_bytes(fixture_id)) ^ 0x4653_5832u64) as usize) as nat
            % THEORY_TRIAL_1_FIXTURE_COUNT as nat) + 1
    }
}

pub fn fixture_index(fixture_id: usize, fixture: FileId) -> (index: usize)
    requires
        fixture is Fixture1 || fixture is Fixture2,
    ensures
        index == fixture_number(fixture_id, fixture),
{
    match fixture {
        FileId::Fixture1 => fixture_id,
        _ => {
            let word = bytes_of_word(fixture_id);
            let hash: u64 = stable_hash(word.as_slice()) ^ 0x4653_5832u64;
            (hash as usize) % THEORY_TRIAL_1_FIXTURE_COUNT + 1
        },
    }
}

/// The path of a fixture.
pub open spec fn fixture_place(root: Seq<char>, fixture_id: usize, fixture: FileId) -> Seq<char> {
    joined_path(root, fixture_name_text(fixture_number(fixture_id, fixture)))
}

pub fn fixture_path(root: &str, fixture_id: usize, fixture: FileId) -> (path: String)
    requires
        fixture is Fixture1 || fixture is Fixture2,
    ensures
        path@ == fixture_place(root@, fixture_id, fixture),
{
    let name = theory_trial_1_fixture_name(fixture_index(fixture_id, fixture));
    join(root, name.as_str())
}

pub open spec fn name_or(name: Option<Seq<char>>, other: Seq<char>) -> Seq<char> {
    match name {
        Some(name) => name,
        None => other,
    }
}

/// The path of a case's file under `/tmp`, made of the names of its run and its case.
pub open spec fn tmp_place(case_root: Seq<char>) -> Seq<char> {
    let run = match parent_of(case_root) {
        Some(parent) => last_name(parent),
        None => None,
    };
    "/tmp/fsx-oracle-"@ + name_or(run, "run-unknown"@) + "-"@ + name_or(
        last_name(case_root),
        "case-unknown"@,
    ) + "-C"@
}

pub fn tmp_file_path(case_root: &str) -> (path: String)
    ensures
        path@ == tmp_place(case_root@),
{
    let case_name = match file_name(case_root) {
        Some(name) => name,
        None => "case-unknown".to_string(),
    };
    let run_name = match parent(case_root) {
        Some(p) => match file_name(p.as_str()) {
            Some(name) => name,
            None => "run-unknown".to_string(),
        },
        None => "run-unknown".to_string(),
    };
    "/tmp/fsx-oracle-".to_string().concat(run_name.as_str()).concat("-").concat(
        case_name.as_str(),
    ).concat("-C")
}

impl FileId {
    /// The path of the file in the case at `root`.
    pub open spec fn place(self, root: Seq<char>) -> Seq<char> {
        if self is C {
            tmp_place(root)
        } else {
            joined_path(root, self.name_text())
        }
    }

    /// The path of the file, fixtures included.
    pub open spec fn resolved_place(
        self,
        root: Seq<char>,
        fixture_root: Seq<char>,
        fixture_id: usize,
    ) -> Seq<char> {
        if self is Fixture1 || self is Fixture2 {
            fixture_place(fixture_root, fixture_id, self)
        } else {
            self.place(root)
        }
    }

    pub fn path(self, root: &str) -> (path: String)
        requires
            self is A || self is B || self is C,
        ensures
            path@ == self.place(root@),
    {
        match self {
            FileId::C => tmp_file_path(root),
            _ => join(root, self.name()),
        }
    }

    pub fn resolved_path(self, root: &str, fixture_root: &str, fixture_id: usize) -> (path: String)
        ensures
            path@ == self.resolved_place(root@, fixture_root@, fixture_id),
    {
        match self {
            FileId::A | FileId::B | FileId::C => self.path(root),
            FileId::Fixture1 | FileId::Fixture2 => fixture_path(fixture_root, fixture_id, self),
        }
    }
}

/// The paths of a case's files that are removed before and after it: those that are neither
/// recorded nor fixtures.
pub open spec fn removed_places(case_root: Seq<char>, n: nat) -> Seq<Seq<char>>
    decreases n,
{
    if n == 0 {
        Seq::empty()
    } else {
        let before = removed_places(case_root, (n - 1) as nat);
        if FILES@[n - 1] is C {
            before.push(FILES@[n - 1].place(case_root))
        } else {
            before
        }
    }
}

pub fn tmp_files(case_root: &str) -> (paths: Vec<String>)
    ensures
        texts(paths@) == removed_places(case_root@, FILES@.len()),
{
    let mut paths: Vec<String> = Vec::new();
    let mut i: usize = 0;
    assert(texts(paths@) =~= Seq::empty());
    while i < 3
        invariant
            i <= 3,
            FILES@.len() == 3,
            texts(paths@) == removed_places(case_root@, i as nat),
        decreases 3 - i,
    {
        let file = FILES[i];
        let ghost before = texts(paths@);
        if !file.snapshotted() && !file.is_fixture() {
            let path = file.path(case_root);
            paths.push(path);
            assert(texts(paths@) =~= before.push(path@));
        }
        i = i + 1;
    }
    paths
}

/// What a directory holds under a name.
pub open spec fn file_in(dir: Map<Seq<char>, Seq<u8>>, name: Seq<char>) -> Option<Seq<u8>> {
    if dir.dom().contains(name) {
        Some(dir[name])
    } else {
        None
    }
}

/// A directory, by names, once the first `n` fixtures were prepared in it, one after the
/// other, each written where it must be; with the numbers of those that were written.
pub open spec fn prepared(dir: Map<Seq<char>, Seq<u8>>, n: nat) -> (
    Map<Seq<char>, Seq<u8>>,
    Seq<nat>,
)
    decreases n,
{
    if n == 0 {
        (dir, Seq::empty())
    } else {
        let (before, wrote) = prepared(dir, (n - 1) as nat);
        let name = fixture_name_text(n);
        if needs_writing(file_in(before, name), name) {
            (before.insert(name, fixture_contents(name)), wrote.push(n))
        } else {
            (before, wrote)
        }
    }
}

/// After preparing, every fixture holds its contents, whatever the directory held before.
pub proof fn law_fixtures_are_prepared(dir: Map<Seq<char>, Seq<u8>>, n: nat, index: nat)
    requires
        1 <= index <= n,
    ensures
        file_in(prepared(dir, n).0, fixture_name_text(index)) == Some(
            fixture_contents(fixture_name_text(index)),
        ),
    decreases n,
{
    if index < n {
        law_fixtures_are_prepared(dir, (n - 1) as nat, index);
    }
}

/// Preparing leaves every file alone that is not one of the fixtures.
pub proof fn law_other_files_are_kept(dir: Map<Seq<char>, Seq<u8>>, n: nat, name: Seq<char>)
    requires
        forall|index: nat| 1 <= index <= n ==> name != #[trigger] fixture_name_text(index),
    ensures
        file_in(prepared(dir, n).0, name) == file_in(dir, name),
    decreases n,
{
    if n > 0 {
        assert(name != fixture_name_text(n));
        law_other_files_are_kept(dir, (n - 1) as nat, name);
    }
}

/// Preparing a second time writes nothing.
pub proof fn law_prepared_again_writes_nothing(dir: Map<Seq<char>, Seq<u8>>, n: nat)
    ensures
        prepared(prepared(dir, n).0, n) == (prepared(dir, n).0, Seq::<nat>::empty()),
{
    lemma_nothing_to_write(dir, n, n);
}

proof fn lemma_nothing_to_write(dir: Map<Seq<char>, Seq<u8>>, n: nat, k: nat)
    requires
        k <= n,
    ensures
        prepared(prepared(dir, n).0, k) == (prepared(dir, n).0, Seq::<nat>::empty()),
    decreases k,
{
    if k > 0 {
        lemma_nothing_to_write(dir, n, (k - 1) as nat);
        law_fixtures_are_prepared(dir, n, k);
    }
}

/// The fixtures of a run whose number is one of the fixtures' are files that preparing makes.
pub proof fn law_fixtures_of_a_run_exist(
    dir: Map<Seq<char>, Seq<u8>>,
    root: Seq<char>,
    fixture_id: usize,
    fixture: FileId,
)
    requires
        fixture is Fixture1 || fixture is Fixture2,
        1 <= fixture_id <= THEORY_TRIAL_1_FIXTURE_COUNT,
    ensures
        ({
            let name = fixture_name_text(fixture_number(fixture_id, fixture));
            &&& 1 <= fixture_number(fixture_id, fixture) <= THEORY_TRIAL_1_FIXTURE_COUNT
            &&& fixture_place(root, fixture_id, fixture) == joined_path(root, name)
            &&& file_in(prepared(dir, THEORY_TRIAL_1_FIXTURE_COUNT as nat).0, name) == Some(
                fixture_contents(name),
            )
        }),
{
    law_fixtures_are_prepared(
        dir,
        THEORY_TRIAL_1_FIXTURE_COUNT as nat,
        fixture_number(fixture_id, fixture),
    );
}

} // verus!
