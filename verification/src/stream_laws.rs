//! Samples that are run while the expected report is read.

use vstd::prelude::*;
use vstd::utf8::*;

use crate::codec::Input;
use crate::compare::comparable;
use crate::reader::{next_record, opened, parse_header, ReaderView};
use crate::report::{
    end_bytes, entry_bytes, entry_record, header_bytes, report_input, same_record, Entry,
    RecordView, SnapshotView,
};
use crate::report_laws::{
    entries_bytes, entries_fit, entries_records, law_entry_round_trip, lemma_end_read,
    lemma_fit_anywhere, lemma_header_read, moved,
};
use crate::run_laws::{
    case_run, fixture_in_run, ids_up_to, law_cases_do_not_depend_on_their_place,
    law_shard_of_a_run_passes, lemma_all_are_selected, lemma_among, lemma_suite_case_fits,
    run_cases, same_fixtures, selected_among, Host, Place,
};
use crate::sample::{judged, scan_step, scan_verdict, ScanStepView, ScanView};
use crate::selection::THEORY_TRIAL_1_FIXTURE_COUNT;
use crate::suite::suite;
use crate::text::dec;
use crate::verify::{lemma_same_has_no_differences, reports_verdict};
use crate::writer_laws::{
    lemma_case_fits, lemma_case_records, lemma_records_of_both, moved_on, reports,
    snapshot_entries, step_entries, told, RecordedCase,
};

verus! {

/// A sample of `total` cases: the cases, and how many they are.
pub struct Sample {
    pub ids: Set<usize>,
    pub total: usize,
    pub target: usize,
}

/// The cases that are run while the report at `path` is read from `v` on, each of them on the
/// host as soon as it is come upon, until the report ends; or what stops that. Every record
/// takes some of the bytes that are left.
pub open spec fn streamed(
    host: Host,
    place: Place,
    sample: Sample,
    path: Seq<char>,
    v: ScanView,
) -> Result<Seq<RecordedCase>, Seq<char>>
    decreases v.reader.input.rest.len(),
{
    match scan_step(sample.ids, sample.total, path, v) {
        Err(e) => Err(e),
        Ok((step, next)) => if next.reader.input.rest.len() >= v.reader.input.rest.len() {
            Err("nothing was read"@)
        } else {
            match step {
                ScanStepView::Passed | ScanStepView::Skipped => streamed(
                    host,
                    place,
                    sample,
                    path,
                    next,
                ),
                ScanStepView::Run { case_id, mask, fixture_id, chain, .. } => {
                    let case = case_run(host, place, case_id, fixture_id as usize, chain, mask);
                    match streamed(
                        host,
                        place,
                        sample,
                        path,
                        ScanView { actual: Some(case.records()), ..next },
                    ) {
                        Ok(later) => Ok(seq![case] + later),
                        Err(e) => Err(e),
                    }
                },
                ScanStepView::Ended { .. } => if next.count == sample.target {
                    Ok(Seq::empty())
                } else {
                    Err(
                        "sampled "@ + dec(next.count) + " cases but expected "@ + dec(
                            sample.target as nat,
                        ),
                    )
                },
            }
        },
    }
}

/// A scan of the report at `path` before its first record.
pub open spec fn first_scan(path: Seq<char>, file: Seq<u8>, len: usize) -> ScanView {
    ScanView {
        reader: opened(parse_header(report_input(file), path).1, len),
        expected: Seq::empty(),
        actual: None,
        selected: None,
        count: 0,
        current: 0,
    }
}

/// The cases of a run of the cases `ids` behind the first `k` of the suite.
spec fn cases_from(host: Host, place: Place, len: nat, ids: Set<usize>, k: nat) -> Seq<RecordedCase>
    decreases suite(len).len() - k,
{
    if k >= suite(len).len() {
        Seq::empty()
    } else {
        let later = cases_from(host, place, len, ids, k + 1);
        if ids.contains((k + 1) as usize) {
            seq![case_of(host, place, len, ids, k + 1)] + later
        } else {
            later
        }
    }
}

/// Case `k` of a run of the cases `ids`.
spec fn case_of(host: Host, place: Place, len: nat, ids: Set<usize>, k: nat) -> RecordedCase {
    let (chain, mask) = suite(len)[k - 1];
    case_run(host, place, k as usize, fixture_in_run(len, ids, k), chain, mask as usize)
}

proof fn lemma_cases_from(host: Host, place: Place, len: nat, ids: Set<usize>, k: nat)
    requires
        k <= suite(len).len(),
    ensures
        run_cases(host, place, len, ids, k) + cases_from(host, place, len, ids, k) == run_cases(
            host,
            place,
            len,
            ids,
            suite(len).len(),
        ),
    decreases suite(len).len() - k,
{
    let before = run_cases(host, place, len, ids, k);
    let later = cases_from(host, place, len, ids, k);
    if k == suite(len).len() {
        assert(before + later =~= before);
    } else {
        lemma_cases_from(host, place, len, ids, k + 1);
        let next = run_cases(host, place, len, ids, k + 1);
        assert(before + later =~= next + cases_from(host, place, len, ids, k + 1));
    }
}

proof fn lemma_told_front(c: RecordedCase, later: Seq<RecordedCase>)
    ensures
        told(seq![c] + later) == c.entries() + told(later),
    decreases later.len(),
{
    let all = seq![c] + later;
    if later.len() == 0 {
        assert(all.drop_last() =~= Seq::empty());
        assert(told(all.drop_last()) =~= Seq::empty());
        assert(all.last() == c);
        assert(told(all) =~= c.entries() + told(later));
    } else {
        lemma_told_front(c, later.drop_last());
        assert(all.drop_last() =~= seq![c] + later.drop_last());
        assert(all.last() == later.last());
        assert(told(all) =~= c.entries() + told(later));
    }
}

proof fn lemma_moved_anywhere(v: ReaderView, input: Input, entries: Seq<Entry>)
    ensures
        moved_on(ReaderView { input, ..v }, entries) == (ReaderView {
            input,
            ..moved_on(v, entries)
        }),
    decreases entries.len(),
{
    if entries.len() > 0 {
        let w = ReaderView { input, ..v };
        let next = moved(v, entries[0], v.input);
        assert((ReaderView { input, ..next }) =~= moved(w, entries[0], input));
        lemma_moved_anywhere(next, input, entries.drop_first());
    }
}

proof fn lemma_entry_has_bytes(entry: Entry)
    ensures
        entry is Step ==> entry_bytes(entry).len() == 0,
        entry !is Step ==> entry_bytes(entry).len() > 0,
{
}

/// The scan behind the entries of a case, other than its first.
spec fn scanned(v: ScanView, entries: Seq<Entry>, tail: Seq<u8>) -> ScanView {
    ScanView {
        reader: ReaderView { input: v.reader.input.at(tail), ..moved_on(v.reader, entries) },
        expected: if v.selected is Some {
            v.expected + entries_records(entries)
        } else {
            v.expected
        },
        ..v
    }
}

proof fn lemma_scan_entries(
    host: Host,
    place: Place,
    sample: Sample,
    path: Seq<char>,
    v: ScanView,
    entries: Seq<Entry>,
    tail: Seq<u8>,
)
    requires
        entries_fit(v.reader, entries),
        forall|i: int| 0 <= i < entries.len() ==> (#[trigger] entries[i]) !is Case,
        v.reader.input.rest == entries_bytes(entries) + tail,
    ensures
        streamed(host, place, sample, path, v) == streamed(
            host,
            place,
            sample,
            path,
            scanned(v, entries, tail),
        ),
    decreases entries.len(),
{
    if entries.len() == 0 {
        assert(v.reader.input.rest =~= tail);
        assert(v.expected + entries_records(entries) =~= v.expected);
        assert(scanned(v, entries, tail) =~= v);
    } else {
        let entry = entries[0];
        let rest = entries.drop_first();
        let more = entries_bytes(rest) + tail;
        assert(v.reader.input.rest =~= entry_bytes(entry) + more);
        lemma_entry_has_bytes(entry);
        assert forall|i: int| 0 <= i < rest.len() implies (#[trigger] rest[i]) !is Case by {
            assert(rest[i] == entries[i + 1]);
        }
        let input = v.reader.input.at(more);
        let here = moved(v.reader, entry, v.reader.input);
        let after = moved(v.reader, entry, input);
        assert((ReaderView { input, ..here }) =~= after);
        lemma_fit_anywhere(here, input, rest);
        lemma_moved_anywhere(here, input, rest);
        let next = ScanView {
            reader: after,
            expected: if v.selected is Some && entry !is Step {
                v.expected.push(entry_record(entry)->0)
            } else {
                v.expected
            },
            ..v
        };
        if entry is Step {
            assert(more =~= v.reader.input.rest);
            assert(next =~= v);
        } else {
            law_entry_round_trip(path, v.reader, entry, more);
            assert(scan_step(sample.ids, sample.total, path, v) == Ok::<
                (ScanStepView, ScanView),
                Seq<char>,
            >((ScanStepView::Passed, next)));
        }
        lemma_scan_entries(host, place, sample, path, next, rest, tail);
        assert(scanned(next, rest, tail) =~= scanned(v, entries, tail));
    }
}

/// Whether a scan stands between two cases, with nothing wrong so far.
spec fn ready(v: ScanView, len: usize) -> bool {
    &&& v.reader.chain_len == len
    &&& scan_verdict(v) is Ok
    &&& v.selected is None ==> v.expected == Seq::<RecordView>::empty()
}

proof fn lemma_agreeing_case(v: ScanView)
    requires
        v.actual == Some(v.expected),
    ensures
        scan_verdict(v) is Ok,
{
    let records = v.expected;
    lemma_same_has_no_differences(records, records.len());
    assert forall|i: int| 0 <= i < records.len() implies same_record(
        #[trigger] records[i],
        records[i],
    ) by {}
    assert(comparable(records, records, 1));
}

/// The entries of a case behind its first.
spec fn later_entries(c: RecordedCase) -> Seq<Entry> {
    c.entries().drop_first()
}

proof fn lemma_later_entries(c: RecordedCase)
    ensures
        forall|i: int| 0 <= i < later_entries(c).len() ==> (#[trigger] later_entries(c)[i]) !is Case,
{
    let later = later_entries(c);
    let done = step_entries(c.steps(), c.results, c.results.len());
    let files = snapshot_entries(c.snapshots);
    assert(later =~= done + files);
    lemma_steps_are_no_cases(c, c.results.len());
    assert forall|i: int| 0 <= i < later.len() implies (#[trigger] later[i]) !is Case by {
        if i < done.len() {
            assert(later[i] == done[i]);
        } else {
            assert(later[i] == files[i - done.len()]);
        }
    }
}

proof fn lemma_steps_are_no_cases(c: RecordedCase, k: nat)
    ensures
        forall|i: int|
            0 <= i < step_entries(c.steps(), c.results, k).len() ==> (
            #[trigger] step_entries(c.steps(), c.results, k)[i]) !is Case,
    decreases k,
{
    if k > 0 {
        lemma_steps_are_no_cases(c, (k - 1) as nat);
    }
}

/// The reader behind the first record of a case.
spec fn case_begun(reader: ReaderView, c: RecordedCase, tail: Seq<u8>) -> ReaderView {
    moved(reader, c.entries()[0], reader.input.at(entries_bytes(later_entries(c)) + tail))
}

proof fn lemma_case_begins(path: Seq<char>, v: ReaderView, c: RecordedCase, tail: Seq<u8>)
    requires
        c.fits(v.chain_len),
        v.input.rest == entries_bytes(c.entries()) + tail,
    ensures
        ({
            let record = RecordView::Case { case_id: c.case_id as u64, mask: c.mask as u64 };
            let after = case_begun(v, c, tail);
            let later = later_entries(c);
            &&& next_record(path, v) == Ok::<
                Option<(RecordView, Option<SnapshotView>, ReaderView)>,
                Seq<char>,
            >(Some((record, None, after)))
            &&& after.input.rest.len() < v.input.rest.len()
            &&& after.input.rest == entries_bytes(later) + tail
            &&& after.chain == c.chain
            &&& entries_fit(after, later)
            &&& forall|i: int| 0 <= i < later.len() ==> (#[trigger] later[i]) !is Case
            &&& moved_on(after, later).chain_len == v.chain_len
            &&& c.records() == seq![record] + entries_records(later)
        }),
{
    let first = c.entries()[0];
    let later = later_entries(c);
    let more = entries_bytes(later) + tail;
    lemma_case_fits(v, c);
    lemma_later_entries(c);
    lemma_case_records(c);
    lemma_entry_has_bytes(first);
    assert(first == Entry::Case { case_id: c.case_id, mask: c.mask, chain: c.chain });
    assert(v.input.rest =~= entry_bytes(first) + more);
    law_entry_round_trip(path, v, first, more);
    let input = v.input.at(more);
    let here = moved(v, first, v.input);
    assert((ReaderView { input, ..here }) =~= case_begun(v, c, tail));
    lemma_fit_anywhere(here, input, later);
    lemma_moved_anywhere(here, input, later);
}

/// Reading a case of the sample: it is run, and what is expected of it is what it did.
proof fn lemma_run_case(
    host: Host,
    place: Place,
    sample: Sample,
    path: Seq<char>,
    v: ScanView,
    c: RecordedCase,
    tail: Seq<u8>,
    mine: RecordedCase,
) -> (after: ScanView)
    requires
        ready(v, v.reader.chain_len),
        c.fits(v.reader.chain_len),
        v.reader.input.rest == entries_bytes(c.entries()) + tail,
        sample.ids.contains(c.case_id),
        mine == case_run(
            host,
            place,
            c.case_id,
            (if sample.total <= THEORY_TRIAL_1_FIXTURE_COUNT {
                c.case_id as nat
            } else {
                v.count + 1
            }) as usize,
            c.chain,
            c.mask,
        ),
        mine.records() == c.records(),
    ensures
        ready(after, v.reader.chain_len),
        after.reader.input == v.reader.input.at(tail),
        after.count == v.count + 1,
        streamed(host, place, sample, path, v) == match streamed(
            host,
            place,
            sample,
            path,
            after,
        ) {
            Ok(cases) => Ok(seq![mine] + cases),
            Err(e) => Err(e),
        },
{
    let later = later_entries(c);
    let id = c.case_id;
    lemma_case_begins(path, v.reader, c, tail);
    assert((id as u64) as usize == id);
    assert((c.mask as u64) as usize == c.mask);
    let record = RecordView::Case { case_id: id as u64, mask: c.mask as u64 };
    let begun = ScanView {
        reader: case_begun(v.reader, c, tail),
        current: id,
        selected: Some(id as u64),
        expected: judged(v).expected.push(record),
        actual: Some(mine.records()),
        count: v.count + 1,
    };
    lemma_scan_entries(host, place, sample, path, begun, later, tail);
    let after = scanned(begun, later, tail);
    assert(after.expected =~= c.records());
    lemma_agreeing_case(after);
    assert(after.reader.input =~= v.reader.input.at(tail));
    after
}

/// Reading a case that is not in the sample.
proof fn lemma_skip_case(
    host: Host,
    place: Place,
    sample: Sample,
    path: Seq<char>,
    v: ScanView,
    c: RecordedCase,
    tail: Seq<u8>,
) -> (after: ScanView)
    requires
        ready(v, v.reader.chain_len),
        c.fits(v.reader.chain_len),
        v.reader.input.rest == entries_bytes(c.entries()) + tail,
        !sample.ids.contains(c.case_id),
    ensures
        ready(after, v.reader.chain_len),
        after.reader.input == v.reader.input.at(tail),
        after.count == v.count,
        streamed(host, place, sample, path, v) == streamed(host, place, sample, path, after),
{
    let later = later_entries(c);
    lemma_case_begins(path, v.reader, c, tail);
    assert((c.case_id as u64) as usize == c.case_id);
    let begun = ScanView {
        reader: case_begun(v.reader, c, tail),
        current: c.case_id,
        ..judged(v)
    };
    lemma_scan_entries(host, place, sample, path, begun, later, tail);
    let after = scanned(begun, later, tail);
    assert(after.reader.input =~= v.reader.input.at(tail));
    after
}

/// Reading the cases behind the first `k`.
proof fn lemma_stream(
    host: Host,
    whole: Place,
    part: Place,
    sample: Sample,
    path: Seq<char>,
    len: usize,
    v: ScanView,
    k: nat,
)
    requires
        host.wf(),
        k <= suite(len as nat).len() == sample.total,
        same_fixtures(len as nat, sample.ids),
        sample.target == selected_among(sample.ids, sample.total as nat),
        ready(v, len),
        v.count == selected_among(sample.ids, k),
        v.reader.input.rest == entries_bytes(
            told(cases_from(host, whole, len as nat, Set::full(), k)),
        ) + end_bytes(sample.total as nat),
    ensures
        streamed(host, part, sample, path, v) == Ok::<Seq<RecordedCase>, Seq<char>>(
            cases_from(host, part, len as nat, sample.ids, k),
        ),
    decreases sample.total - k,
{
    let total = sample.total;
    let ids = sample.ids;
    let all = Set::<usize>::full();
    if k == total {
        assert(v.reader.input.rest =~= end_bytes(total as nat));
        lemma_end_read(path, v.reader, total as u64);
        assert((total as u64) as usize == total);
        assert(end_bytes(total as nat).len() > 0);
    } else {
        let c = case_of(host, whole, len as nat, all, k + 1);
        let rest = cases_from(host, whole, len as nat, all, k + 1);
        let tail = entries_bytes(told(rest)) + end_bytes(total as nat);
        let id = (k + 1) as usize;
        let (chain, mask) = suite(len as nat)[k as int];
        assert(cases_from(host, whole, len as nat, all, k) == seq![c] + rest);
        lemma_told_front(c, rest);
        lemma_records_of_both(c.entries(), told(rest));
        assert(v.reader.input.rest =~= entries_bytes(c.entries()) + tail);
        lemma_all_are_selected(k + 1);
        let fixture_id = fixture_in_run(len as nat, all, k + 1);
        lemma_suite_case_fits(host, whole, len, k + 1, fixture_id);
        let number: nat = if total <= THEORY_TRIAL_1_FIXTURE_COUNT {
            id as nat
        } else {
            v.count + 1
        };
        let mine = case_run(host, part, id, number as usize, chain, mask as usize);
        if ids.contains(id) {
            assert(selected_among(ids, k + 1) == v.count + 1);
            assert(number as usize == fixture_in_run(len as nat, ids, k + 1));
            assert(number as usize == fixture_id) by {
                if total > THEORY_TRIAL_1_FIXTURE_COUNT {
                    assert(selected_among(ids, k + 1) == k + 1);
                }
            }
            law_cases_do_not_depend_on_their_place(
                host,
                whole,
                part,
                id,
                fixture_id,
                chain,
                mask as usize,
            );
            let after = lemma_run_case(host, part, sample, path, v, c, tail, mine);
            lemma_stream(host, whole, part, sample, path, len, after, k + 1);
        } else {
            let after = lemma_skip_case(host, part, sample, path, v, c, tail);
            lemma_stream(host, whole, part, sample, path, len, after, k + 1);
        }
    }
}

/// A sample that is run while the report of all cases is read passes: on the host on which
/// that report was made, reading it stops at nothing, the cases of the sample are run one
/// after the other, and comparing their report with the one that was read finds nothing.
pub proof fn law_streamed_sample_passes(
    host: Host,
    whole: Place,
    part: Place,
    len: usize,
    sample: Sample,
    expected_path: Seq<char>,
    expected: Seq<u8>,
    expected_name: Seq<char>,
    actual_path: Seq<char>,
    actual: Seq<u8>,
    actual_name: Seq<char>,
)
    requires
        host.wf(),
        sample.total == suite(len as nat).len(),
        sample.ids.finite(),
        sample.target == sample.ids.len(),
        forall|id: usize| #[trigger] sample.ids.contains(id) ==> 1 <= id <= sample.total,
        same_fixtures(len as nat, sample.ids),
        encode_utf8(expected_name).len() <= u32::MAX,
        encode_utf8(actual_name).len() <= u32::MAX,
        reports(
            expected,
            expected_name,
            len,
            run_cases(host, whole, len as nat, Set::full(), sample.total as nat),
            sample.total as nat,
        ),
        streamed(
            host,
            part,
            sample,
            expected_path,
            first_scan(expected_path, expected, len),
        ) matches Ok(cases) ==> reports(actual, actual_name, len, cases, sample.total as nat),
    ensures
        streamed(
            host,
            part,
            sample,
            expected_path,
            first_scan(expected_path, expected, len),
        ) == Ok::<Seq<RecordedCase>, Seq<char>>(
            run_cases(host, part, len as nat, sample.ids, sample.total as nat),
        ),
        reports_verdict(expected_path, expected, actual_path, actual) == Ok::<(), Seq<char>>(()),
{
    let total = sample.total as nat;
    let all = Set::<usize>::full();
    let cases = run_cases(host, whole, len as nat, all, total);
    let tail = entries_bytes(told(cases)) + end_bytes(total);
    let input = report_input(expected);
    assert(input.rest =~= header_bytes(len as nat, expected_name) + tail);
    lemma_header_read(expected_path, input, len, expected_name, tail);
    lemma_cases_from(host, whole, len as nat, all, 0);
    lemma_cases_from(host, part, len as nat, sample.ids, 0);
    assert(Seq::<RecordedCase>::empty() + cases_from(host, whole, len as nat, all, 0)
        =~= cases_from(host, whole, len as nat, all, 0));
    assert(Seq::<RecordedCase>::empty() + cases_from(host, part, len as nat, sample.ids, 0)
        =~= cases_from(host, part, len as nat, sample.ids, 0));
    lemma_among(sample.ids, total);
    assert(sample.ids.intersect(ids_up_to(total)) =~= sample.ids);
    let v = first_scan(expected_path, expected, len);
    lemma_stream(host, whole, part, sample, expected_path, len, v, 0);
    law_shard_of_a_run_passes(
        host,
        whole,
        part,
        len,
        sample.ids,
        expected_path,
        expected,
        expected_name,
        actual_path,
        actual,
        actual_name,
    );
}

} // verus!
