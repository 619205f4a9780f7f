//! Laws of reports: what a run told the sinks is what is read back from the file.

use vstd::prelude::*;
use vstd::utf8::*;

use crate::codec::{le_bytes, op_bytes, result_bytes, sized_bytes, var_bytes, Input};
use crate::codec_laws::{
    law_op_round_trip, law_result_round_trip, law_string_round_trip, law_u32_round_trip,
    law_u64_round_trip, law_var_u64_round_trip, lemma_first_byte,
};
use crate::compare::case_ids;
use crate::gzip::gz_decoded;
use crate::ops::{Op, WORKERS};
use crate::reader::{
    next_record, opened, parse_chain, parse_header, report_of, rest_of_report, ReaderView,
};
use crate::report::{
    case_name_text, chain_bytes, end_bytes, entry_bytes, entry_record, header_bytes, is_gzip, report_input,
    report_magic, Entry, RecordView, SnapshotView, REPORT_VERSION,
};
use crate::schedule::{steps_of, ScheduledStep};
use crate::verify::{
    law_shard_agrees_with_full_report, lemma_case_is_listed, picked, reports_verdict,
};

verus! {

/// The forms of the entries, one after the other.
pub open spec fn entries_bytes(entries: Seq<Entry>) -> Seq<u8>
    decreases entries.len(),
{
    if entries.len() == 0 {
        Seq::empty()
    } else {
        entry_bytes(entries[0]) + entries_bytes(entries.drop_first())
    }
}

/// The records that the entries make.
pub open spec fn entries_records(entries: Seq<Entry>) -> Seq<RecordView>
    decreases entries.len(),
{
    if entries.len() == 0 {
        Seq::empty()
    } else {
        match entry_record(entries[0]) {
            Some(record) => seq![record] + entries_records(entries.drop_first()),
            None => entries_records(entries.drop_first()),
        }
    }
}

/// The snapshots among the entries.
pub open spec fn entries_snapshots(entries: Seq<Entry>) -> Seq<SnapshotView>
    decreases entries.len(),
{
    if entries.len() == 0 {
        Seq::empty()
    } else {
        match entries[0] {
            Entry::Snapshot { snapshot } => seq![snapshot] + entries_snapshots(entries.drop_first()),
            _ => entries_snapshots(entries.drop_first()),
        }
    }
}

/// Whether a run that stands where `v` does can tell `entry`: a case has a chain of the
/// report's length, results come in the order of the steps, and a snapshot is of the
/// current case.
pub open spec fn entry_fits(v: ReaderView, entry: Entry) -> bool {
    match entry {
        Entry::Case { chain, .. } => {
            &&& chain.len() == v.chain_len
            &&& forall|i: int| 0 <= i < chain.len() ==> (#[trigger] chain[i]).slots_fit()
        },
        Entry::Step { .. } => true,
        Entry::Result { step, worker, op, result } => {
            &&& v.idx < v.steps.len()
            &&& step == v.idx + 1
            &&& v.steps[v.idx as int] == (ScheduledStep { worker, op })
            &&& result.reportable()
            &&& result.data.len() <= usize::MAX
        },
        Entry::Snapshot { snapshot } => {
            &&& snapshot.case_id as u64 == v.case_id
            &&& snapshot.rel == v.name + "/"@ + snapshot.file.name_text()
            &&& !snapshot.exists ==> snapshot.len == 0 && snapshot.hash == 0
        },
    }
}

/// Where the run stands after `entry`, with `input` left.
pub open spec fn moved(v: ReaderView, entry: Entry, input: Input) -> ReaderView {
    match entry {
        Entry::Case { case_id, mask, chain } => ReaderView {
            input,
            chain_len: v.chain_len,
            case_id: case_id as u64,
            name: case_name_text(case_id as nat),
            chain,
            steps: steps_of(WORKERS as nat, chain, mask as nat),
            idx: 0,
        },
        Entry::Step { .. } => ReaderView { input, ..v },
        Entry::Result { .. } => ReaderView { input, idx: v.idx + 1, ..v },
        Entry::Snapshot { .. } => ReaderView { input, ..v },
    }
}

/// Whether a run can tell the entries in this order.
pub open spec fn entries_fit(v: ReaderView, entries: Seq<Entry>) -> bool
    decreases entries.len(),
{
    entries.len() == 0 || (entry_fits(v, entries[0]) && entries_fit(
        moved(v, entries[0], v.input),
        entries.drop_first(),
    ))
}

proof fn lemma_chain_round_trip(chain: Seq<Op>, input: Input, tail: Seq<u8>)
    requires
        forall|i: int| 0 <= i < chain.len() ==> (#[trigger] chain[i]).slots_fit(),
        input.rest == chain_bytes(chain) + tail,
    ensures
        parse_chain(input, chain.len()) == (Ok::<Seq<Op>, Seq<char>>(chain), input.at(tail)),
    decreases chain.len(),
{
    if chain.len() == 0 {
        assert(input.rest =~= tail);
        assert(chain =~= Seq::empty());
    } else {
        let less = chain.drop_last();
        let more = op_bytes(chain.last()) + tail;
        assert(input.rest =~= chain_bytes(less) + more);
        assert forall|i: int| 0 <= i < less.len() implies (#[trigger] less[i]).slots_fit() by {
            assert(less[i] == chain[i]);
        }
        lemma_chain_round_trip(less, input, more);
        assert(chain.last() == chain[chain.len() - 1]);
        law_op_round_trip(chain.last(), input.at(more), tail);
        assert(less.push(chain.last()) =~= chain);
    }
}

/// An entry other than a step, once written, is the next record read.
#[verifier::rlimit(60)]
pub proof fn law_entry_round_trip(path: Seq<char>, v: ReaderView, entry: Entry, tail: Seq<u8>)
    requires
        entry !is Step,
        entry_fits(v, entry),
        v.input.rest == entry_bytes(entry) + tail,
    ensures
        next_record(path, v) == Ok::<
            Option<(RecordView, Option<SnapshotView>, ReaderView)>,
            Seq<char>,
        >(
            Some(
                (
                    entry_record(entry)->0,
                    match entry {
                        Entry::Snapshot { snapshot } => Some(snapshot),
                        _ => None,
                    },
                    moved(v, entry, v.input.at(tail)),
                ),
            ),
        ),
{
    reveal(next_record);
    let all = entry_bytes(entry);
    let more = all.skip(1) + tail;
    assert(v.input.rest[0] == all[0]);
    assert(v.input.rest.skip(1) =~= more);
    let i0 = v.input.at(more);
    let v1 = ReaderView { input: i0, ..v };
    match entry {
        Entry::Case { case_id, mask, chain } => {
            let m1 = var_bytes(mask as nat) + chain_bytes(chain) + tail;
            assert(more =~= var_bytes(case_id as nat) + m1);
            law_var_u64_round_trip(case_id as u64, i0, m1);
            let m2 = chain_bytes(chain) + tail;
            assert(m1 =~= var_bytes(mask as nat) + m2);
            law_var_u64_round_trip(mask as u64, i0.at(m1), m2);
            lemma_chain_round_trip(chain, i0.at(m2), tail);
            assert((mask as u64) as usize == mask);
        },
        Entry::Step { .. } => {},
        Entry::Result { step, worker, op, result } => {
            assert(more =~= result_bytes(result) + tail);
            law_result_round_trip(result, i0, tail);
            assert((ReaderView { input: i0.at(tail), idx: v1.idx + 1, ..v1 }) =~= moved(
                v,
                entry,
                v.input.at(tail),
            ));
        },
        Entry::Snapshot { snapshot } => {
            let flag = if snapshot.exists {
                1u8
            } else {
                0u8
            };
            let m2 = all.skip(3) + tail;
            let m1 = seq![flag] + m2;
            assert(more =~= seq![snapshot.file.tag_value()] + m1);
            lemma_first_byte(i0, snapshot.file.tag_value(), m1);
            lemma_first_byte(i0.at(m1), flag, m2);
            if snapshot.exists {
                let m3 = le_bytes(snapshot.hash as nat, 8) + tail;
                assert(m2 =~= var_bytes(snapshot.len as nat) + m3);
                law_var_u64_round_trip(snapshot.len, i0.at(m2), m3);
                law_u64_round_trip(snapshot.hash, i0.at(m3), tail);
            } else {
                assert(m2 =~= tail);
            }
            assert(snapshot.case_id == v.case_id as usize);
            assert((ReaderView { input: i0.at(tail), ..v1 }) =~= moved(v, entry, v.input.at(tail)));
        },
    }
}

pub(crate) proof fn lemma_fit_anywhere(v: ReaderView, input: Input, entries: Seq<Entry>)
    requires
        entries_fit(v, entries),
    ensures
        entries_fit(ReaderView { input, ..v }, entries),
    decreases entries.len(),
{
    if entries.len() > 0 {
        let w = ReaderView { input, ..v };
        let next = moved(v, entries[0], v.input);
        assert((ReaderView { input, ..next }) =~= moved(w, entries[0], input));
        lemma_fit_anywhere(next, input, entries.drop_first());
    }
}

proof fn lemma_entries_read(path: Seq<char>, v: ReaderView, entries: Seq<Entry>, cases: u64)
    requires
        entries_fit(v, entries),
        v.input == (Input { rest: entries_bytes(entries) + end_bytes(cases as nat), fault: None }),
    ensures
        rest_of_report(path, v) == Ok::<(Seq<RecordView>, Seq<SnapshotView>), Seq<char>>(
            (entries_records(entries).push(RecordView::End { cases }), entries_snapshots(entries)),
        ),
    decreases entries.len(),
{
    if entries.len() == 0 {
        assert(v.input.rest =~= end_bytes(cases as nat));
        lemma_end_read(path, v, cases);
        let after = ReaderView { input: v.input.at(Seq::empty()), ..v };
        assert(next_record(path, after) == Ok::<
            Option<(RecordView, Option<SnapshotView>, ReaderView)>,
            Seq<char>,
        >(None)) by {
            reveal(next_record);
        }
        assert(rest_of_report(path, after) == Ok::<
            (Seq<RecordView>, Seq<SnapshotView>),
            Seq<char>,
        >((Seq::empty(), Seq::empty())));
        assert(seq![RecordView::End { cases }] + Seq::<RecordView>::empty() =~= entries_records(
            entries,
        ).push(RecordView::End { cases }));
    } else {
        let entry = entries[0];
        let rest = entries.drop_first();
        let tail = entries_bytes(rest) + end_bytes(cases as nat);
        assert(v.input.rest =~= entry_bytes(entry) + tail);
        let after = moved(v, entry, v.input.at(tail));
        lemma_fit_anywhere(moved(v, entry, v.input), v.input.at(tail), rest);
        assert((ReaderView { input: v.input.at(tail), ..moved(v, entry, v.input) }) =~= after);
        lemma_entries_read(path, after, rest, cases);
        if entry is Step {
            assert(tail =~= v.input.rest);
            assert(after =~= v);
        } else {
            law_entry_round_trip(path, v, entry, tail);
            assert(seq![entry_record(entry)->0] + entries_records(rest).push(
                RecordView::End { cases },
            ) =~= entries_records(entries).push(RecordView::End { cases }));
        }
    }
}

pub(crate) proof fn lemma_header_read(
    path: Seq<char>,
    input: Input,
    chain_len: usize,
    run: Seq<char>,
    tail: Seq<u8>,
)
    requires
        encode_utf8(run).len() <= u32::MAX,
        input.rest == header_bytes(chain_len as nat, run) + tail,
    ensures
        parse_header(input, path) == (
            Ok::<(usize, Seq<char>), Seq<char>>((chain_len, run)),
            input.at(tail),
        ),
{
    let m3 = sized_bytes(encode_utf8(run)) + tail;
    let m2 = le_bytes(chain_len as nat, 8) + m3;
    let m1 = le_bytes(REPORT_VERSION as nat, 4) + m2;
    assert(input.rest =~= report_magic() + m1);
    assert(input.rest.take(8) =~= report_magic());
    assert(input.rest.skip(8) =~= m1);
    law_u32_round_trip(REPORT_VERSION, input.at(m1), m2);
    law_u64_round_trip(chain_len as u64, input.at(m2), m3);
    assert((chain_len as u64) as usize == chain_len);
    law_string_round_trip(run, input.at(m3), tail);
}

pub(crate) proof fn lemma_end_read(path: Seq<char>, v: ReaderView, cases: u64)
    requires
        v.input.rest == end_bytes(cases as nat),
    ensures
        next_record(path, v) == Ok::<
            Option<(RecordView, Option<SnapshotView>, ReaderView)>,
            Seq<char>,
        >(
            Some(
                (
                    RecordView::End { cases },
                    None,
                    ReaderView { input: v.input.at(Seq::empty()), ..v },
                ),
            ),
        ),
{
    reveal(next_record);
    let more = var_bytes(cases as nat);
    assert(v.input.rest.skip(1) =~= more);
    let i0 = v.input.at(more);
    assert(more =~= var_bytes(cases as nat) + Seq::<u8>::empty());
    law_var_u64_round_trip(cases, i0, Seq::empty());
}

/// A report that was written in full, entry by entry and ended, is read back: its header,
/// the records that its entries make, and the snapshots among them.
pub proof fn law_report_round_trip(
    path: Seq<char>,
    file: Seq<u8>,
    chain_len: usize,
    run: Seq<char>,
    entries: Seq<Entry>,
    cases: u64,
)
    requires
        encode_utf8(run).len() <= u32::MAX,
        entries_fit(opened(Input { rest: Seq::empty(), fault: None }, chain_len), entries),
        report_input(file) == (Input {
            rest: header_bytes(chain_len as nat, run) + entries_bytes(entries) + end_bytes(
                cases as nat,
            ),
            fault: None,
        }),
    ensures
        report_of(path, file) == Ok::<
            (usize, Seq<char>, Seq<RecordView>, Seq<SnapshotView>),
            Seq<char>,
        >(
            (
                chain_len,
                run,
                entries_records(entries).push(RecordView::End { cases }),
                entries_snapshots(entries),
            ),
        ),
{
    let input = report_input(file);
    let tail = entries_bytes(entries) + end_bytes(cases as nat);
    assert(input.rest =~= header_bytes(chain_len as nat, run) + tail);
    lemma_header_read(path, input, chain_len, run, tail);
    let start = opened(Input { rest: Seq::empty(), fault: None }, chain_len);
    lemma_fit_anywhere(start, input.at(tail), entries);
    assert((ReaderView { input: input.at(tail), ..start }) =~= opened(input.at(tail), chain_len));
    lemma_entries_read(path, opened(input.at(tail), chain_len), entries, cases);
}

/// The file of a report gives the reader the bytes that the writer gathered, whether it
/// is compressed or not.
pub proof fn law_file_holds_report(bytes: Seq<u8>, file: Seq<u8>, chain_len: nat, run: Seq<char>)
    requires
        bytes.len() >= header_bytes(chain_len, run).len(),
        bytes.take(header_bytes(chain_len, run).len() as int) == header_bytes(chain_len, run),
        file == bytes || (is_gzip(file) && gz_decoded(file) == (bytes, None::<Seq<char>>)),
    ensures
        report_input(file) == (Input { rest: bytes, fault: None }),
{
    if file == bytes {
        let header = header_bytes(chain_len, run);
        assert(header[0] == 70);
        assert(bytes.take(header.len() as int)[0] == bytes[0]);
    }
}

/// Whether `file` holds the report of a run whose entries are `entries`: it was written entry
/// by entry, beginning with a case, and ended.
pub open spec fn holds_report(
    file: Seq<u8>,
    chain_len: usize,
    run: Seq<char>,
    entries: Seq<Entry>,
    cases: u64,
) -> bool {
    &&& encode_utf8(run).len() <= u32::MAX
    &&& entries_fit(opened(Input { rest: Seq::empty(), fault: None }, chain_len), entries)
    &&& entries.len() > 0 ==> entries[0] is Case
    &&& report_input(file) == (Input {
        rest: header_bytes(chain_len as nat, run) + entries_bytes(entries) + end_bytes(
            cases as nat,
        ),
        fault: None,
    })
}

/// Whether record `i`, if it is a snapshot, is of the case `start` or of one of `records`.
spec fn of_some_case(records: Seq<RecordView>, start: u64, i: int) -> bool {
    records[i] matches RecordView::Snapshot { case_id, .. } ==> case_id == start || exists|k: int|
        0 <= k < records.len() && (#[trigger] records[k] matches RecordView::Case {
            case_id: case,
            ..
        } && case == case_id)
}

proof fn lemma_snapshots_have_cases(v: ReaderView, entries: Seq<Entry>, i: int)
    requires
        entries_fit(v, entries),
        0 <= i < entries_records(entries).len(),
    ensures
        of_some_case(entries_records(entries), v.case_id, i),
    decreases entries.len(),
{
    let records = entries_records(entries);
    let rest = entries.drop_first();
    let next = moved(v, entries[0], v.input);
    match entry_record(entries[0]) {
        None => {
            lemma_snapshots_have_cases(next, rest, i);
        },
        Some(first) => {
            assert(records =~= seq![first] + entries_records(rest));
            if i > 0 {
                lemma_snapshots_have_cases(next, rest, i - 1);
                let later = entries_records(rest);
                assert(records[i] == later[i - 1]);
                if let RecordView::Snapshot { case_id, .. } = records[i] {
                    if case_id == next.case_id {
                        if entries[0] is Case {
                            assert(records[0] == first);
                        }
                    } else {
                        let k = choose|k: int|
                            0 <= k < later.len() && (#[trigger] later[k] matches RecordView::Case {
                                case_id: case,
                                ..
                            } && case == case_id);
                        assert(records[k + 1] == later[k]);
                    }
                }
            }
        },
    }
}

/// A run that does what the expected one did passes: where one file holds the report of the
/// expected run, and another that of a run of all or some of its cases, in which every
/// operation returned and every file held the same, comparing the two finds nothing.
pub proof fn law_faithful_runs_pass(
    expected_path: Seq<char>,
    expected: Seq<u8>,
    expected_run: Seq<char>,
    expected_entries: Seq<Entry>,
    actual_path: Seq<char>,
    actual: Seq<u8>,
    actual_run: Seq<char>,
    actual_entries: Seq<Entry>,
    chain_len: usize,
    cases: u64,
    ids: Set<u64>,
)
    requires
        holds_report(expected, chain_len, expected_run, expected_entries, cases),
        holds_report(actual, chain_len, actual_run, actual_entries, cases),
        entries_records(actual_entries) == picked(ids, entries_records(expected_entries)).0,
    ensures
        reports_verdict(expected_path, expected, actual_path, actual) == Ok::<(), Seq<char>>(()),
{
    law_report_round_trip(
        expected_path,
        expected,
        chain_len,
        expected_run,
        expected_entries,
        cases,
    );
    law_report_round_trip(actual_path, actual, chain_len, actual_run, actual_entries, cases);
    let records = entries_records(expected_entries);
    let all = records.push(RecordView::End { cases });
    assert(all.drop_last() =~= records);
    assert forall|i: int| 0 <= i < all.len() implies (
    #[trigger] all[i] matches RecordView::Snapshot { case_id, .. } ==> case_ids(all).contains(
        case_id,
    )) by {
        if let RecordView::Snapshot { case_id, .. } = all[i] {
            assert(all[i] == records[i]);
            let start = opened(Input { rest: Seq::empty(), fault: None }, chain_len);
            let rest = expected_entries.drop_first();
            let later = entries_records(rest);
            let first = entry_record(expected_entries[0])->0;
            assert(records =~= seq![first] + later);
            lemma_snapshots_have_cases(moved(start, expected_entries[0], start.input), rest, i - 1);
            assert(records[i] == later[i - 1]);
            if case_id == expected_entries[0]->Case_case_id as u64 {
                assert(all[0] == first);
                lemma_case_is_listed(all, 0);
            } else {
                let k = choose|k: int|
                    0 <= k < later.len() && (#[trigger] later[k] matches RecordView::Case {
                        case_id: case,
                        ..
                    } && case == case_id);
                assert(all[k + 1] == later[k]);
                lemma_case_is_listed(all, k + 1);
            }
        }
    }
    law_shard_agrees_with_full_report(expected_path, expected, actual_path, actual, ids);
}

} // verus!
