//! Verifying one report against another, and the files of a run against a report.

use std::collections::BTreeSet;
use vstd::prelude::*;
use vstd::string::*;

use crate::compare::{
    can_compare, case_ids, comparable, differences, differs_at, find_mismatches, first_mismatches,
    report_case_ids, verdict_text, MAX_REPORT_MISMATCHES,
};
use crate::hash::{fnv, stable_hash};
use crate::known::known_difference;
use crate::ops::FileId;
use crate::paths::{parent, parent_of};
use crate::reader::{read_report, report_of, rest_of_report, OracleReport, ReportReader};
use crate::report::{
    record_views, same_record, snapshot_views, ComparableRecord, FileSnapshot, RecordView,
    SnapshotView,
};
use crate::text::{dec, hex, join_texts, joined, pad_left, push_dec, push_hex_padded, texts};

verus! {

/// The records of the cases `ids` among `records`, and whether the last case is one of
/// them. Ends are always kept.
pub open spec fn picked(ids: Set<u64>, records: Seq<RecordView>) -> (Seq<RecordView>, bool)
    decreases records.len(),
{
    if records.len() == 0 {
        (Seq::empty(), false)
    } else {
        let (before, in_case) = picked(ids, records.drop_last());
        let last = records.last();
        match last {
            RecordView::Case { case_id, .. } => if ids.contains(case_id) {
                (before.push(last), true)
            } else {
                (before, false)
            },
            RecordView::Result { .. } => if in_case {
                (before.push(last), in_case)
            } else {
                (before, in_case)
            },
            RecordView::Snapshot { case_id, .. } => if ids.contains(case_id) {
                (before.push(last), in_case)
            } else {
                (before, in_case)
            },
            RecordView::End { .. } => (before.push(last), in_case),
        }
    }
}

/// How many of the cases that start in `records` are among `ids`.
pub open spec fn cases_found(ids: Set<u64>, records: Seq<RecordView>) -> nat
    decreases records.len(),
{
    if records.len() == 0 {
        0
    } else {
        cases_found(ids, records.drop_last()) + match records.last() {
            RecordView::Case { case_id, .. } => if ids.contains(case_id) {
                1nat
            } else {
                0nat
            },
            _ => 0nat,
        }
    }
}

/// Picks the records of certain cases as they are read.
pub struct CaseFilter {
    pub ids: BTreeSet<u64>,
    pub include_current_case: bool,
    pub current_case: usize,
    pub found_cases: usize,
    pub selected: Vec<ComparableRecord>,
}

impl CaseFilter {
    /// Whether the filter was shown `seen` so far.
    pub open spec fn has_seen(&self, seen: Seq<RecordView>) -> bool {
        &&& (record_views(self.selected@), self.include_current_case) == picked(self.ids@, seen)
        &&& self.found_cases == cases_found(self.ids@, seen)
        &&& self.found_cases <= self.selected@.len()
    }

    pub fn new(ids: BTreeSet<u64>) -> (f: Self)
        ensures
            f.ids@ == ids@,
            f.current_case == 0,
            f.has_seen(Seq::empty()),
    {
        let f = CaseFilter {
            ids,
            include_current_case: false,
            current_case: 0,
            found_cases: 0,
            selected: Vec::new(),
        };
        assert(record_views(f.selected@) =~= Seq::empty());
        f
    }

    /// Shows the filter the next record.
    pub fn show(&mut self, record: ComparableRecord)
        requires
            exists|seen: Seq<RecordView>| old(self).has_seen(seen),
        ensures
            final(self).ids@ == old(self).ids@,
            final(self).current_case == (match record@ {
                RecordView::Case { case_id, .. } => case_id as usize,
                _ => old(self).current_case,
            }),
            forall|seen: Seq<RecordView>|
                old(self).has_seen(seen) ==> #[trigger] final(self).has_seen(seen.push(record@)),
    {
        let ghost before = record_views(self.selected@);
        let ghost start = *self;
        let keep = match &record {
            ComparableRecord::Case { case_id, .. } => {
                self.current_case = *case_id as usize;
                self.include_current_case = self.ids.contains(case_id);
                self.include_current_case
            },
            ComparableRecord::Result { .. } => self.include_current_case,
            ComparableRecord::Snapshot { case_id, .. } => self.ids.contains(case_id),
            ComparableRecord::End { .. } => true,
        };
        let counts = match &record {
            ComparableRecord::Case { .. } => keep,
            _ => false,
        };
        let ghost view = record@;
        if keep {
            self.selected.push(record);
            assert(record_views(self.selected@) =~= before.push(view));
        }
        if counts {
            let total: usize = self.selected.len();
            assert(self.found_cases < total);
            self.found_cases = self.found_cases + 1;
        }
        proof {
            assert forall|seen: Seq<RecordView>| start.has_seen(seen) implies #[trigger] self.has_seen(
                seen.push(view),
            ) by {
                assert(seen.push(view).drop_last() =~= seen);
            }
        }
    }
}

/// The chain length of a report and the records of the cases `ids` in it.
pub open spec fn filtered_report(path: Seq<char>, file: Seq<u8>, ids: Set<u64>) -> Result<
    (usize, Seq<RecordView>),
    Seq<char>,
> {
    match report_of(path, file) {
        Err(e) => Err(e),
        Ok((chain_len, run, records, snapshots)) => Ok((chain_len, picked(ids, records).0)),
    }
}

pub fn read_report_records_for_case_ids(path: &str, file: Vec<u8>, case_ids: BTreeSet<u64>) -> (r: Result<
    (usize, Vec<ComparableRecord>),
    String,
>)
    ensures
        match r {
            Ok((chain_len, records)) => filtered_report(path@, file@, case_ids@) == Ok::<
                (usize, Seq<RecordView>),
                Seq<char>,
            >((chain_len, record_views(records@))),
            Err(e) => filtered_report(path@, file@, case_ids@) == Err::<
                (usize, Seq<RecordView>),
                Seq<char>,
            >(e@),
        },
{
    let mut reader = ReportReader::open(path, file)?;
    let chain_len: usize = reader.chain_len;
    let ghost start = reader@;
    let ghost ids = case_ids@;
    let mut filter = CaseFilter::new(case_ids);
    let ghost mut seen: Seq<RecordView> = Seq::empty();
    proof {
        if let Ok((rs, ss)) = rest_of_report(path@, reader@) {
            assert(seen + rs =~= rs);
        }
    }
    loop
        invariant
            reader.wf(),
            reader.path@ == path@,
            ids == case_ids@,
            filter.ids@ == ids,
            filter.has_seen(seen),
            filtered_report(path@, file@, ids) == match rest_of_report(path@, start) {
                Err(e) => Err(e),
                Ok((rs, ss)) => Ok((chain_len, picked(ids, rs).0)),
            },
            match rest_of_report(path@, reader@) {
                Err(e) => rest_of_report(path@, start) == Err::<
                    (Seq<RecordView>, Seq<SnapshotView>),
                    Seq<char>,
                >(e),
                Ok((rs, ss)) => rest_of_report(path@, start) matches Ok((all, _)) && all == seen
                    + rs,
            },
        decreases reader@.input.rest.len(),
    {
        let next = reader.read_record()?;
        match next {
            None => {
                assert(seen + Seq::<RecordView>::empty() =~= seen);
                return Ok((chain_len, filter.selected));
            },
            Some((record, _)) => {
                proof {
                    if let Ok((rs, ss)) = rest_of_report(path@, reader@) {
                        assert(seen + (seq![record@] + rs) =~= seen.push(record@) + rs);
                    }
                    seen = seen.push(record@);
                }
                filter.show(record);
            },
        }
    }
}

/// What two reports are found to be: the same, or how they differ. Records that name a
/// worker or a slot that does not exist cannot be judged.
pub open spec fn records_verdict(
    expected_chain_len: nat,
    expected: Seq<RecordView>,
    actual_chain_len: nat,
    actual: Seq<RecordView>,
) -> Result<(), Seq<char>> {
    if expected_chain_len != actual_chain_len {
        Err(
            "oracle chain length mismatch: expected "@ + dec(expected_chain_len) + ", actual "@
                + dec(actual_chain_len),
        )
    } else if expected.len() != actual.len() {
        Err(
            "oracle record count mismatch: expected "@ + dec(expected.len()) + ", actual "@ + dec(
                actual.len(),
            ),
        )
    } else if !comparable(expected, actual, MAX_REPORT_MISMATCHES as nat) {
        Err("oracle report names a worker or slot that does not exist"@)
    } else {
        let shown = first_mismatches(expected, actual, MAX_REPORT_MISMATCHES as nat);
        if shown.len() == 0 {
            Ok(())
        } else {
            Err(
                "oracle found "@ + dec(shown.len()) + " mismatch(es), showing up to "@ + dec(
                    MAX_REPORT_MISMATCHES as nat,
                ) + "\n\n"@ + joined(shown, "\n\n"@),
            )
        }
    }
}

/// The records of an expected report against those of an actual one.
pub fn compare_records(
    expected_chain_len: usize,
    expected: &[ComparableRecord],
    actual_chain_len: usize,
    actual: &[ComparableRecord],
) -> (r: Result<(), String>)
    ensures
        verdict_text(r) == records_verdict(
            expected_chain_len as nat,
            record_views(expected@),
            actual_chain_len as nat,
            record_views(actual@),
        ),
{
    if expected_chain_len != actual_chain_len {
        let mut e = "oracle chain length mismatch: expected ".to_string();
        push_dec(&mut e, expected_chain_len as u64);
        e.append(", actual ");
        push_dec(&mut e, actual_chain_len as u64);
        return Err(e);
    }
    if expected.len() != actual.len() {
        let mut e = "oracle record count mismatch: expected ".to_string();
        push_dec(&mut e, expected.len() as u64);
        e.append(", actual ");
        push_dec(&mut e, actual.len() as u64);
        return Err(e);
    }
    if !can_compare(expected, actual, MAX_REPORT_MISMATCHES) {
        return Err("oracle report names a worker or slot that does not exist".to_string());
    }
    let shown = find_mismatches(expected, actual, MAX_REPORT_MISMATCHES);
    assert(texts(shown@).len() == shown@.len());
    if shown.len() == 0 {
        return Ok(());
    }
    let mut e = "oracle found ".to_string();
    push_dec(&mut e, shown.len() as u64);
    e.append(" mismatch(es), showing up to ");
    push_dec(&mut e, MAX_REPORT_MISMATCHES as u64);
    e.append("\n\n");
    let list = join_texts(&shown, "\n\n");
    e.append(list.as_str());
    Err(e)
}

/// What comparing the two files of reports finds. Of the expected report only the cases
/// count that the actual one has.
pub open spec fn reports_verdict(
    expected_path: Seq<char>,
    expected: Seq<u8>,
    actual_path: Seq<char>,
    actual: Seq<u8>,
) -> Result<(), Seq<char>> {
    match report_of(actual_path, actual) {
        Err(e) => Err(e),
        Ok((actual_len, run, actual_records, snapshots)) => match filtered_report(
            expected_path,
            expected,
            case_ids(actual_records),
        ) {
            Err(e) => Err(e),
            Ok((expected_len, expected_records)) => records_verdict(
                expected_len as nat,
                expected_records,
                actual_len as nat,
                actual_records,
            ),
        },
    }
}

pub fn compare_reports(
    expected_path: &str,
    expected: Vec<u8>,
    actual_path: &str,
    actual: Vec<u8>,
) -> (r: Result<(), String>)
    ensures
        verdict_text(r) == reports_verdict(expected_path@, expected@, actual_path@, actual@),
{
    let actual_report = match read_report(actual_path, actual) {
        Ok(report) => report,
        Err(e) => {
            return Err(e);
        },
    };
    let ids = report_case_ids(actual_report.records.as_slice());
    match read_report_records_for_case_ids(expected_path, expected, ids) {
        Err(e) => Err(e),
        Ok((chain_len, records)) => compare_records(
            chain_len,
            records.as_slice(),
            actual_report.chain_len,
            actual_report.records.as_slice(),
        ),
    }
}

/// Whether `snapshots` hold one of the file `file` in the case `case_id`.
pub open spec fn has_snapshot(snapshots: Seq<SnapshotView>, case_id: usize, file: FileId) -> bool {
    exists|j: int|
        0 <= j < snapshots.len() && (#[trigger] snapshots[j]).case_id == case_id
            && snapshots[j].file == file
}

/// Whether the file is one whose contents every case records.
pub open spec fn is_snapshotted(file: FileId) -> bool {
    file is A || file is B
}

/// The places of the native snapshots, of files that every case records, for which the
/// other report has one of the same case and file.
pub open spec fn shared_snapshots(
    native: Seq<SnapshotView>,
    wasix: Seq<SnapshotView>,
    n: nat,
) -> Seq<int>
    decreases n,
{
    if n == 0 {
        Seq::empty()
    } else {
        let before = shared_snapshots(native, wasix, (n - 1) as nat);
        let s = native[n - 1];
        if is_snapshotted(s.file) && has_snapshot(wasix, s.case_id, s.file) {
            before.push(n - 1)
        } else {
            before
        }
    }
}

pub open spec fn snapshotted_count(snapshots: Seq<SnapshotView>) -> nat
    decreases snapshots.len(),
{
    if snapshots.len() == 0 {
        0
    } else {
        snapshotted_count(snapshots.drop_last()) + if is_snapshotted(snapshots.last().file) {
            1nat
        } else {
            0nat
        }
    }
}

/// The snapshots of the native report that the files of the other run are held to.
pub fn external_snapshots(native: &OracleReport, wasix: &OracleReport) -> (r: Result<
    Vec<usize>,
    String,
>)
    ensures
        ({
            let n = snapshot_views(native.snapshots@);
            let w = snapshot_views(wasix.snapshots@);
            let shared = shared_snapshots(n, w, n.len());
            match r {
                Ok(places) => shared.len() == snapshotted_count(w) && places@.map_values(
                    |i: usize| i as int,
                ) == shared,
                Err(e) => shared.len() != snapshotted_count(w) && e@
                    == "report snapshot count mismatch for requested shard: native="@ + dec(
                    shared.len(),
                ) + ", wasix="@ + dec(snapshotted_count(w)),
            }
        }),
{
    let ghost n = snapshot_views(native.snapshots@);
    let ghost w = snapshot_views(wasix.snapshots@);
    let mut in_a: BTreeSet<usize> = BTreeSet::new();
    let mut in_b: BTreeSet<usize> = BTreeSet::new();
    let mut count: usize = 0;
    let mut i: usize = 0;
    while i < wasix.snapshots.len()
        invariant
            i <= wasix.snapshots@.len(),
            w == snapshot_views(wasix.snapshots@),
            count <= i,
            count == snapshotted_count(w.take(i as int)),
            forall|id: usize| #[trigger] in_a@.contains(id) == has_snapshot(
                w.take(i as int),
                id,
                FileId::A,
            ),
            forall|id: usize| #[trigger] in_b@.contains(id) == has_snapshot(
                w.take(i as int),
                id,
                FileId::B,
            ),
        decreases wasix.snapshots@.len() - i,
    {
        let snapshot = &wasix.snapshots[i];
        proof {
            assert(w.take(i as int + 1).drop_last() =~= w.take(i as int));
            assert(w[i as int] == wasix.snapshots@[i as int]@);
            lemma_one_more_snapshot(w, i as int, FileId::A);
            lemma_one_more_snapshot(w, i as int, FileId::B);
        }
        if snapshot.file.snapshotted() {
            count = count + 1;
            if snapshot.file == FileId::A {
                in_a.insert(snapshot.case_id);
            } else {
                in_b.insert(snapshot.case_id);
            }
        }
        i = i + 1;
    }
    assert(w.take(i as int) =~= w);
    let mut places: Vec<usize> = Vec::new();
    let mut k: usize = 0;
    assert(places@.map_values(|i: usize| i as int) =~= shared_snapshots(n, w, 0));
    while k < native.snapshots.len()
        invariant
            k <= native.snapshots@.len(),
            n == snapshot_views(native.snapshots@),
            forall|id: usize| #[trigger] in_a@.contains(id) == has_snapshot(w, id, FileId::A),
            forall|id: usize| #[trigger] in_b@.contains(id) == has_snapshot(w, id, FileId::B),
            places@.map_values(|i: usize| i as int) == shared_snapshots(n, w, k as nat),
        decreases native.snapshots@.len() - k,
    {
        let ghost before = places@.map_values(|i: usize| i as int);
        let snapshot = &native.snapshots[k];
        assert(n[k as int] == native.snapshots@[k as int]@);
        if snapshot.file.snapshotted() {
            let shared = if snapshot.file == FileId::A {
                in_a.contains(&snapshot.case_id)
            } else {
                in_b.contains(&snapshot.case_id)
            };
            if shared {
                places.push(k);
                assert(places@.map_values(|i: usize| i as int) =~= before.push(k as int));
            }
        }
        k = k + 1;
    }
    assert(places@.len() == places@.map_values(|i: usize| i as int).len());
    if places.len() != count {
        let mut e = "report snapshot count mismatch for requested shard: native=".to_string();
        push_dec(&mut e, places.len() as u64);
        e.append(", wasix=");
        push_dec(&mut e, count as u64);
        return Err(e);
    }
    Ok(places)
}

proof fn lemma_one_more_snapshot(s: Seq<SnapshotView>, i: int, file: FileId)
    requires
        0 <= i < s.len(),
    ensures
        forall|id: usize| #[trigger] has_snapshot(s.take(i + 1), id, file) == (has_snapshot(
            s.take(i),
            id,
            file,
        ) || (s[i].case_id == id && s[i].file == file)),
{
    assert forall|id: usize| #[trigger] has_snapshot(s.take(i + 1), id, file) == (has_snapshot(
        s.take(i),
        id,
        file,
    ) || (s[i].case_id == id && s[i].file == file)) by {
        if has_snapshot(s.take(i), id, file) {
            let j = choose|j: int|
                0 <= j < s.take(i).len() && (#[trigger] s.take(i)[j]).case_id == id && s.take(
                    i,
                )[j].file == file;
            assert(s.take(i + 1)[j] == s.take(i)[j]);
        }
        if s[i].case_id == id && s[i].file == file {
            assert(s.take(i + 1)[i] == s[i]);
        }
        if has_snapshot(s.take(i + 1), id, file) {
            let j = choose|j: int|
                0 <= j < s.take(i + 1).len() && (#[trigger] s.take(i + 1)[j]).case_id == id
                    && s.take(i + 1)[j].file == file;
            if j < i {
                assert(s.take(i)[j] == s.take(i + 1)[j]);
            }
        }
    }
}

/// The directory in which a report stands.
pub fn external_base(report: &str) -> (r: Result<String, String>)
    ensures
        match r {
            Ok(base) => parent_of(report@) == Some(base@),
            Err(e) => parent_of(report@) is None && e@
                == "cannot infer external file root from report path "@ + report@,
        },
{
    match parent(report) {
        Some(base) => Ok(base),
        None => Err(
            "cannot infer external file root from report path ".to_string().concat(report),
        ),
    }
}

/// What a host says of a file: whether it exists, and what reading it gave.
pub struct HostFile {
    pub exists: bool,
    pub data: Result<Vec<u8>, String>,
}

/// The beginning of what is said of a snapshot.
pub open spec fn snapshot_subject(s: SnapshotView) -> Seq<char> {
    "case "@ + dec(s.case_id as nat) + " file "@ + s.file.name_text()
}

/// What a host's file is found to be against the snapshot that is expected of it.
pub open spec fn snapshot_verdict(
    expected: SnapshotView,
    host_path: Seq<char>,
    exists: bool,
    data: Result<Seq<u8>, Seq<char>>,
) -> Result<(), Seq<char>> {
    if !expected.exists {
        if exists {
            Err(
                snapshot_subject(expected) + " expected absent, but host file exists at "@
                    + host_path,
            )
        } else {
            Ok(())
        }
    } else {
        match data {
            Err(e) => Err(
                snapshot_subject(expected) + " expected present, failed to read "@ + host_path
                    + ": "@ + e,
            ),
            Ok(bytes) => if bytes.len() != expected.len {
                Err(
                    snapshot_subject(expected) + " external len mismatch at "@ + host_path
                        + ": expected "@ + dec(expected.len as nat) + ", actual "@ + dec(
                        bytes.len(),
                    ),
                )
            } else if fnv(bytes) != expected.hash {
                Err(
                    snapshot_subject(expected) + " external hash mismatch at "@ + host_path
                        + ": expected "@ + pad_left(hex(expected.hash as nat), 16, '0')
                        + ", actual "@ + pad_left(hex(fnv(bytes) as nat), 16, '0'),
                )
            } else {
                Ok(())
            },
        }
    }
}

fn subject_of(s: &FileSnapshot) -> (text: String)
    ensures
        text@ == snapshot_subject(s@),
{
    let mut text = "case ".to_string();
    push_dec(&mut text, s.case_id as u64);
    text.append(" file ");
    text.concat(s.file.name())
}

pub fn verify_snapshot_file(expected: &FileSnapshot, host_path: &str, host: &HostFile) -> (r: Result<
    (),
    String,
>)
    ensures
        verdict_text(r) == snapshot_verdict(
            expected@,
            host_path@,
            host.exists,
            match host.data {
                Ok(bytes) => Ok(bytes@),
                Err(e) => Err(e@),
            },
        ),
{
    let mut e = subject_of(expected);
    if !expected.exists {
        if host.exists {
            e.append(" expected absent, but host file exists at ");
            e.append(host_path);
            return Err(e);
        }
        return Ok(());
    }
    match &host.data {
        Err(text) => {
            e.append(" expected present, failed to read ");
            e.append(host_path);
            e.append(": ");
            e.append(text.as_str());
            Err(e)
        },
        Ok(data) => {
            let len: u64 = data.len() as u64;
            let hash: u64 = stable_hash(data.as_slice());
            if len != expected.len {
                e.append(" external len mismatch at ");
                e.append(host_path);
                e.append(": expected ");
                push_dec(&mut e, expected.len);
                e.append(", actual ");
                push_dec(&mut e, len);
                return Err(e);
            }
            if hash != expected.hash {
                e.append(" external hash mismatch at ");
                e.append(host_path);
                e.append(": expected ");
                push_hex_padded(&mut e, expected.hash, 16);
                e.append(", actual ");
                push_hex_padded(&mut e, hash, 16);
                return Err(e);
            }
            Ok(())
        },
    }
}

pub(crate) proof fn lemma_same_has_no_differences(records: Seq<RecordView>, n: nat)
    requires
        n <= records.len(),
    ensures
        differences(records, records, n).len() == 0,
    decreases n,
{
    if n > 0 {
        lemma_same_has_no_differences(records, (n - 1) as nat);
        assert(same_record(records[n - 1], records[n - 1]));
    }
}

proof fn lemma_no_differences(expected: Seq<RecordView>, actual: Seq<RecordView>, n: nat, i: int)
    requires
        differences(expected, actual, n).len() == 0,
        0 <= i < n,
    ensures
        !differs_at(expected, actual, i),
    decreases n,
{
    if i < n - 1 {
        lemma_no_differences(expected, actual, (n - 1) as nat, i);
    }
}

/// A comparison that finds nothing leaves nothing out: the chain lengths and the numbers of
/// records are equal, and every record is the expected one or differs from it in the known
/// way.
pub proof fn law_nothing_found_means_agreement(
    expected_chain_len: nat,
    expected: Seq<RecordView>,
    actual_chain_len: nat,
    actual: Seq<RecordView>,
    i: int,
)
    requires
        records_verdict(expected_chain_len, expected, actual_chain_len, actual) is Ok,
        0 <= i < expected.len(),
    ensures
        expected_chain_len == actual_chain_len,
        expected.len() == actual.len(),
        same_record(expected[i], actual[i]) || known_difference(
            expected,
            i,
            expected[i],
            actual[i],
        ),
{
    let places = differences(expected, actual, expected.len());
    assert(first_mismatches(expected, actual, MAX_REPORT_MISMATCHES as nat).len() == 0);
    assert(places.len() == 0);
    lemma_no_differences(expected, actual, expected.len(), i);
}

/// Records agree with themselves.
pub proof fn law_records_agree_with_themselves(chain_len: nat, records: Seq<RecordView>)
    ensures
        records_verdict(chain_len, records, chain_len, records) == Ok::<(), Seq<char>>(()),
{
    lemma_same_has_no_differences(records, records.len());
    assert forall|i: int| 0 <= i < records.len() implies same_record(
        #[trigger] records[i],
        records[i],
    ) by {}
    assert(comparable(records, records, MAX_REPORT_MISMATCHES as nat));
}

proof fn lemma_picked_cases(ids: Set<u64>, records: Seq<RecordView>, id: u64)
    ensures
        case_ids(picked(ids, records).0).contains(id) == (ids.contains(id) && case_ids(
            records,
        ).contains(id)),
    decreases records.len(),
{
    if records.len() > 0 {
        lemma_picked_cases(ids, records.drop_last(), id);
        let before = picked(ids, records.drop_last()).0;
        let last = records.last();
        assert(before.push(last).drop_last() =~= before);
    }
}

proof fn lemma_picked_again(ids: Set<u64>, all: Seq<RecordView>, n: int)
    requires
        0 <= n <= all.len(),
        forall|i: int|
            0 <= i < all.len() ==> (#[trigger] all[i] matches RecordView::Snapshot {
                case_id,
                ..
            } ==> case_ids(all).contains(case_id)),
    ensures
        picked(case_ids(picked(ids, all).0), all.take(n)) == picked(ids, all.take(n)),
    decreases n,
{
    if n > 0 {
        lemma_picked_again(ids, all, n - 1);
        assert(all.take(n).drop_last() =~= all.take(n - 1));
        let last = all[n - 1];
        assert(all.take(n).last() == last);
        match last {
            RecordView::Case { case_id, .. } => {
                lemma_picked_cases(ids, all, case_id);
                lemma_case_is_listed(all, n - 1);
            },
            RecordView::Snapshot { case_id, .. } => {
                lemma_picked_cases(ids, all, case_id);
            },
            _ => {},
        }
    }
}

pub(crate) proof fn lemma_case_is_listed(records: Seq<RecordView>, i: int)
    requires
        0 <= i < records.len(),
        records[i] is Case,
    ensures
        case_ids(records).contains(records[i]->Case_case_id),
    decreases records.len(),
{
    if i < records.len() - 1 {
        lemma_case_is_listed(records.drop_last(), i);
        assert(records.drop_last()[i] == records[i]);
    }
}

/// A shard of a report agrees with the whole of it: where an actual report holds just the
/// records of some cases of the expected one, the comparison finds nothing.
pub proof fn law_shard_agrees_with_full_report(
    expected_path: Seq<char>,
    expected: Seq<u8>,
    actual_path: Seq<char>,
    actual: Seq<u8>,
    ids: Set<u64>,
)
    requires
        report_of(expected_path, expected) is Ok,
        report_of(actual_path, actual) is Ok,
        ({
            let (expected_len, _, expected_records, _) = report_of(expected_path, expected)->Ok_0;
            let (actual_len, _, actual_records, _) = report_of(actual_path, actual)->Ok_0;
            &&& actual_len == expected_len
            &&& actual_records == picked(ids, expected_records).0
            &&& forall|i: int|
                0 <= i < expected_records.len() ==> (
                #[trigger] expected_records[i] matches RecordView::Snapshot { case_id, .. }
                    ==> case_ids(expected_records).contains(case_id))
        }),
    ensures
        reports_verdict(expected_path, expected, actual_path, actual) == Ok::<(), Seq<char>>(()),
{
    let (expected_len, _, all, _) = report_of(expected_path, expected)->Ok_0;
    let (actual_len, _, shard, _) = report_of(actual_path, actual)->Ok_0;
    lemma_picked_again(ids, all, all.len() as int);
    assert(all.take(all.len() as int) =~= all);
    law_records_agree_with_themselves(actual_len as nat, shard);
}

} // verus!
