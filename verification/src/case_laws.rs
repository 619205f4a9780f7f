//! Where the files of a case lie, what its fixtures hold, and which operations there are.

use vstd::arithmetic::power::pow;
use vstd::prelude::*;
use vstd::utf8::*;

use crate::clock::{
    day_number, days_before_month, days_before_year, is_date, is_leap_year, month_length,
    timestamp_text,
};
use crate::fixtures::{
    fixture_contents, fixture_header, fixture_name_text, fixture_number, needs_writing,
    removed_places, tmp_place, word_bytes,
};
use crate::hash::fnv;
use crate::http_laws::has_char;
use crate::ops::{FileId, Op, OpSpec, OpenMode};
use crate::paths::{parent_of, path_parts};
use crate::sample::kept_count;
use crate::schedule::{chain_mutates, expansion, steps_of, worker_at};
use crate::suite::{suite, PlannedCase, SuiteRun};
use crate::text::{dec, lemma_dec_injective};

verus! {

/// A fixture holds from one byte to a thousand and twenty-four, and begins with a line that
/// names it, as far as it goes.
pub proof fn law_fixtures_name_themselves(name: Seq<char>, i: int)
    ensures
        1 <= fixture_contents(name).len() <= 1024,
        fixture_contents(name).len() == (fnv(encode_utf8(name)) as usize) as int % 1024 + 1,
        0 <= i < fixture_contents(name).len() && i < encode_utf8(fixture_header(name)).len()
            ==> fixture_contents(name)[i] == encode_utf8(fixture_header(name))[i],
        fixture_header(name).len() > 32 + name.len(),
        fixture_header(name).subrange(32, 32 + name.len() as int) == name,
        fixture_header(name).last() == '\n',
{
    reveal_strlit("FSX_THEORY_TRIAL_1_FIXTURE name=");
    reveal_strlit(" hash=");
    reveal_strlit("\n");
    assert(fixture_header(name).subrange(32, 32 + name.len() as int) =~= name);
    let block = crate::fixtures::fixture_block(name);
    if 0 <= i < encode_utf8(fixture_header(name)).len() {
        vstd::arithmetic::div_mod::lemma_small_mod(i as nat, block.len());
    }
}

/// Fixtures have names of their own.
pub proof fn law_fixtures_have_own_names(a: nat, b: nat)
    requires
        fixture_name_text(a) == fixture_name_text(b),
    ensures
        a == b,
{
    reveal_strlit("file");
    assert(dec(a) =~= fixture_name_text(a).skip(4));
    assert(dec(b) =~= fixture_name_text(b).skip(4));
    lemma_dec_injective(a, b);
}

/// A fixture is written just where it is missing or holds anything else than its contents.
pub proof fn law_fixtures_are_written_where_wrong(existing: Option<Seq<u8>>, name: Seq<char>)
    ensures
        !needs_writing(existing, name) <==> (existing matches Some(bytes) && bytes
            == fixture_contents(name)),
{
}

/// The first fixture of a run is the one of its number, and the second one of the pool.
pub proof fn law_fixtures_come_from_the_pool(id: usize)
    ensures
        fixture_number(id, FileId::Fixture1) == id,
        1 <= fixture_number(id, FileId::Fixture2) <= 20_000,
{
}

/// The file of a case under `/tmp` is named by its run and its case.
pub proof fn law_tmp_files_are_named_by_their_case(dir: Seq<char>, run: Seq<char>, case: Seq<char>)
    requires
        !has_char(run, '/'),
        run.len() > 0,
        run != "."@,
        run != ".."@,
        !has_char(case, '/'),
        case.len() > 0,
        case != "."@,
        case != ".."@,
    ensures
        tmp_place(dir + seq!['/'] + run + seq!['/'] + case) == "/tmp/fsx-oracle-"@ + run + "-"@
            + case + "-C"@,
{
    let up = dir + seq!['/'] + run;
    let root = up + seq!['/'] + case;
    crate::text_laws::law_name_of_a_file(up, case);
    crate::text_laws::law_name_of_a_file(dir, run);
    crate::text_laws::law_parents_lack_the_last_component(root);
    lemma_last_part(up, case);
    let parent = parent_of(root)->0;
    assert(path_parts(parent) == path_parts(up));
}

pub(crate) proof fn lemma_last_part(dir: Seq<char>, name: Seq<char>)
    requires
        !has_char(name, '/'),
        name.len() > 0,
        name != "."@,
        dir.len() > 0,
    ensures
        path_parts(dir + seq!['/'] + name) == path_parts(dir).push(name),
        name != "/"@,
{
    reveal_strlit("/");
    reveal_strlit("");
    if name == "/"@ {
        assert(name[0] == '/');
    }
    let s = dir + seq!['/'] + name;
    crate::text_laws::law_one_piece(name, '/');
    crate::text_laws::law_pieces_of_both(dir, '/', name);
    let ps = crate::text::pieces(dir, '/');
    let all = crate::text::pieces(s, '/');
    crate::text_laws::lemma_some_piece(dir, '/');
    assert(all.len() == ps.len() + 1);
    assert(all[ps.len() as int] == name);
    crate::text_laws::lemma_named_prefix(all, ps, ps.len());
    assert(path_parts(s) =~= path_parts(dir).push(name));
}

/// The kind of an operation.
pub open spec fn kind_of(op: Op) -> OpSpec {
    match op {
        Op::Open { mode, .. } => OpSpec::Open(mode),
        Op::Close { .. } => OpSpec::Close,
        Op::Write { payload, .. } => OpSpec::Write(payload),
        Op::Read { size, .. } => OpSpec::Read(size),
        Op::Seek { target, .. } => OpSpec::Seek(target),
        Op::Fstat { .. } => OpSpec::Fstat,
        Op::Stat { .. } => OpSpec::Stat,
        Op::ReadDir => OpSpec::ReadDir,
        Op::WriteStderr => OpSpec::WriteStderr,
        Op::Dup { .. } => OpSpec::Dup,
        Op::Delete { .. } => OpSpec::Delete,
    }
}

/// Whether a worker may be given the operation: it has two slots, the file under `/tmp` is left
/// alone, and the second fixture is only opened to be read.
pub open spec fn can_be_done(op: Op) -> bool {
    match op {
        Op::Open { slot, file, mode } => slot < 2 && file !is C && (file is Fixture2
            ==> mode is ReadOnlyExisting),
        Op::Close { slot } => slot < 2,
        Op::Write { slot, .. } => slot < 2,
        Op::Read { slot, .. } => slot < 2,
        Op::Seek { slot, .. } => slot < 2,
        Op::Fstat { slot } => slot < 2,
        Op::Stat { file } => file is A || file is B || file is Fixture1,
        Op::Delete { file } => file is A || file is B || file is Fixture1,
        Op::Dup { src_slot, dst_slot } => src_slot < 2 && dst_slot < 2,
        Op::ReadDir | Op::WriteStderr => true,
    }
}

/// A kind of operation stands for every operation of the kind, on each slot and file; and for
/// each once, but for files that are opened only to be read.
pub proof fn law_kinds_stand_for_their_operations(spec: OpSpec, op: Op)
    ensures
        expansion(spec).contains(op) <==> kind_of(op) == spec && can_be_done(op),
        spec != OpSpec::Open(OpenMode::ReadOnlyExisting) ==> expansion(spec).no_duplicates(),
{
    let all = expansion(spec);
    lemma_expanded(spec);
    if kind_of(op) == spec && can_be_done(op) {
        let f: int = match op.file_of() {
            Some(FileId::A) => 0,
            Some(FileId::B) => 1,
            Some(FileId::Fixture1) => 2,
            Some(FileId::Fixture2) => 4,
            _ => 0,
        };
        let i: int = match op {
            Op::Open { slot, mode, .. } => slot * (if mode is ReadOnlyExisting {
                5int
            } else {
                3
            }) + f,
            Op::Dup { src_slot, dst_slot } => 2 * src_slot + dst_slot,
            Op::Stat { .. } | Op::Delete { .. } => f,
            Op::ReadDir | Op::WriteStderr => 0,
            _ => op.slot_of()->0 as int,
        };
        assert(all[i] == op);
    }
}

proof fn lemma_expanded(spec: OpSpec)
    ensures
        ({
            let all = expansion(spec);
            &&& forall|i: int| 0 <= i < all.len() ==> kind_of(#[trigger] all[i]) == spec
                && can_be_done(all[i])
            &&& spec != OpSpec::Open(OpenMode::ReadOnlyExisting) ==> all.no_duplicates()
        }),
{
    let all = expansion(spec);
    let files = crate::ops::FILES@ + crate::ops::FIXTURE_FILES@;
    assert(files.len() == 5);
    assert(files[0] is A && files[1] is B && files[2] is Fixture1 && files[3] is Fixture1
        && files[4] is Fixture2);
    match spec {
        OpSpec::Open(OpenMode::ReadOnlyExisting) => {
            assert(all.len() == 10);
        },
        OpSpec::Open(_) => {
            assert(all.len() == 6);
        },
        _ => {},
    }
}

/// The worker of a step is a digit of the mask, in the base of the workers: the second step has
/// the lowest. The first step is always the first worker's.
pub proof fn law_masks_name_workers(workers: nat, mask: nat, i: nat)
    requires
        workers > 0,
    ensures
        worker_at(workers, mask, 0) == 0,
        worker_at(workers, mask, i + 1) == (mask as int / pow(workers as int, i)) % workers as int,
    decreases i,
{
    if i == 0 {
        vstd::arithmetic::power::lemma_pow0(workers as int);
        assert(mask as int / 1 == mask);
    } else {
        let w = workers as int;
        law_masks_name_workers(workers, mask / workers, (i - 1) as nat);
        vstd::arithmetic::power::lemma_pow_positive(w, (i - 1) as nat);
        vstd::arithmetic::div_mod::lemma_div_denominator(mask as int, w, pow(w, (i - 1) as nat));
        vstd::arithmetic::power::lemma_pow_adds(w, 1, (i - 1) as nat);
        vstd::arithmetic::power::lemma_pow1(w);
        assert(pow(w, i) == w * pow(w, (i - 1) as nat));
    }
}

/// A scheduled chain keeps its operations and their order.
pub proof fn law_schedules_keep_the_chain(workers: nat, chain: Seq<Op>, mask: nat, i: int)
    requires
        0 <= i < chain.len(),
    ensures
        steps_of(workers, chain, mask).len() == chain.len(),
        steps_of(workers, chain, mask)[i].op == chain[i],
        steps_of(workers, chain, mask)[0].worker == 0,
{
}

/// A chain changes something just where one of its operations may: it opens a file to write,
/// writes, duplicates or deletes.
pub proof fn law_changing_chains(chain: Seq<Op>)
    ensures
        chain_mutates(chain) <==> exists|i: int|
            0 <= i < chain.len() && match #[trigger] chain[i] {
                Op::Open { mode, .. } => mode !is ReadOnlyExisting,
                Op::Write { .. } | Op::Dup { .. } | Op::Delete { .. } => true,
                _ => false,
            },
{
    if chain_mutates(chain) {
        let i = choose|i: int| 0 <= i < chain.len() && (#[trigger] chain[i]).mutates();
        assert(chain[i].mutates());
    }
    if exists|i: int|
        0 <= i < chain.len() && match #[trigger] chain[i] {
            Op::Open { mode, .. } => mode !is ReadOnlyExisting,
            Op::Write { .. } | Op::Dup { .. } | Op::Delete { .. } => true,
            _ => false,
        } {
        let i = choose|i: int|
            0 <= i < chain.len() && match #[trigger] chain[i] {
                Op::Open { mode, .. } => mode !is ReadOnlyExisting,
                Op::Write { .. } | Op::Dup { .. } | Op::Delete { .. } => true,
                _ => false,
            };
        assert(chain[i].mutates());
    }
}

/// A number of cases that is kept is that of the suite.
pub proof fn law_kept_counts_are_right(len: usize)
    ensures
        kept_count(len) matches Some(n) ==> suite(len as nat).len() == n,
        kept_count(len) is Some <==> 1 <= len <= 5,
{
    crate::count_laws::law_known_counts();
}

/// A day after another has the next number: within a month, from a month to the next, and from
/// a year to the next. The first of January 1970 is day zero.
pub proof fn law_days_follow_one_another(y: int, m: int, d: int)
    requires
        is_date(y, m, d),
    ensures
        day_number(1970, 1, 1) == 0,
        d < month_length(y, m) ==> day_number(y, m, d + 1) == day_number(y, m, d) + 1,
        m < 12 ==> day_number(y, m + 1, 1) == day_number(y, m, month_length(y, m)) + 1,
        day_number(y + 1, 1, 1) == day_number(y, 12, 31) + 1,
{
    reveal_with_fuel(days_before_month, 13);
    let a = days_before_year(y);
    let b = days_before_year(y + 1);
    assert(b - a == 365 + if is_leap_year(y) {
        1int
    } else {
        0
    });
}

/// Months have their days: in February there are twenty-nine in a year that is a multiple of
/// four, unless it is one of a hundred and not of four hundred.
pub proof fn law_months_have_their_days(y: int, m: int)
    requires
        1 <= m <= 12,
    ensures
        m == 4 || m == 6 || m == 9 || m == 11 ==> month_length(y, m) == 30,
        m == 1 || m == 3 || m == 5 || m == 7 || m == 8 || m == 10 || m == 12 ==> month_length(y, m)
            == 31,
        month_length(y, 2) == 28 || month_length(y, 2) == 29,
        y % 4 != 0 ==> month_length(y, 2) == 28,
        y % 100 == 0 && y % 400 != 0 ==> month_length(y, 2) == 28,
        y % 400 == 0 ==> month_length(y, 2) == 29,
        y % 4 == 0 && y % 100 != 0 ==> month_length(y, 2) == 29,
{
}

/// Two digits of a number below a hundred.
pub open spec fn two_digits(n: int) -> Seq<char> {
    seq![(48 + n / 10) as char, (48 + n % 10) as char]
}

/// The text of a time shows the date, the hour, the minute and the second.
pub proof fn law_times_are_shown(y: int, m: int, d: int, h: int, min: int, s: int)
    requires
        1000 <= y <= 9999,
        1 <= m <= 12,
        1 <= d <= 31,
        0 <= h < 24,
        0 <= min < 60,
        0 <= s < 60,
    ensures
        timestamp_text(y, m, d, 3600 * h + 60 * min + s) == two_digits(y / 100) + two_digits(
            y % 100,
        ) + seq!['-'] + two_digits(m) + seq!['-'] + two_digits(d) + seq![' '] + two_digits(h)
            + seq![':'] + two_digits(min) + seq![':'] + two_digits(s),
{
    reveal_strlit("-");
    reveal_strlit(" ");
    reveal_strlit(":");
    let t = 3600 * h + 60 * min + s;
    assert(t / 3600 == h && (t % 3600) / 60 == min && t % 60 == s);
    lemma_two_digits(m);
    lemma_two_digits(d);
    lemma_two_digits(h);
    lemma_two_digits(min);
    lemma_two_digits(s);
    lemma_four_digits(y);
    assert("-"@ =~= seq!['-']);
    assert(" "@ =~= seq![' ']);
    assert(":"@ =~= seq![':']);
    assert(timestamp_text(y, m, d, t) =~= two_digits(y / 100) + two_digits(y % 100) + seq!['-']
        + two_digits(m) + seq!['-'] + two_digits(d) + seq![' '] + two_digits(h) + seq![':']
        + two_digits(min) + seq![':'] + two_digits(s));
}

proof fn lemma_two_digits(n: int)
    requires
        0 <= n < 100,
    ensures
        crate::clock::padded_int(n, 2) == two_digits(n),
{
    reveal_with_fuel(dec, 3);
    assert(crate::clock::padded_int(n, 2) =~= two_digits(n));
}

proof fn lemma_four_digits(n: int)
    requires
        1000 <= n <= 9999,
    ensures
        crate::clock::padded_int(n, 4) == two_digits(n / 100) + two_digits(n % 100),
{
    reveal_with_fuel(dec, 5);
    let a = dec(n as nat);
    assert(a.len() == 4);
    assert(crate::clock::padded_int(n, 4) =~= two_digits(n / 100) + two_digits(n % 100));
}

/// No file that a case records and no fixture is removed before and after it; and as the file
/// under `/tmp` is none that the operations name, nothing is.
pub proof fn law_recorded_files_are_not_removed(root: Seq<char>, n: nat)
    requires
        n <= 3,
    ensures
        removed_places(root, n).len() == 0,
    decreases n,
{
    if n > 0 {
        law_recorded_files_are_not_removed(root, (n - 1) as nat);
        let f = crate::ops::FILES@;
        assert(f[0] is A && f[1] is B && f[2] is Fixture1);
    }
}

/// The second fixture of a run is that which the hash of its number names, combined with the
/// four letters `FSX2`, counted round in the pool.
pub proof fn law_second_fixtures_are_spread(id: usize)
    ensures
        ({
            let letters = ((('F' as int * 256 + 'S' as int) * 256 + 'X' as int) * 256
                + '2' as int) as u64;
            let spread = fnv(word_bytes(id)) ^ letters;
            fixture_number(id, FileId::Fixture2) == (spread as usize) as int % 20_000 + 1
        }),
{
}

/// A case that a walk gives out is one that is selected, the next of them, with the chain, the
/// schedule and the fixtures of its own: those of its number where there are as many fixtures
/// as cases, and else those of its place among the selected.
pub proof fn law_given_cases_are_the_next_selected(
    run: SuiteRun,
    case: PlannedCase,
    after: SuiteRun,
    id: int,
)
    requires
        run.gave(Some(case), after),
    ensures
        run.selected().cases().contains(case.case_id),
        run.passed() < case.case_id <= suite(run.chain_len() as nat).len(),
        run.passed() < id < case.case_id ==> !run.selected().cases().contains(id as usize),
        after.passed() == case.case_id,
        after.given() == run.given() + 1,
        suite(run.chain_len() as nat)[case.case_id - 1] == (case.chain@, case.mask as nat),
        case.steps@.len() == case.chain@.len(),
        forall|i: int| 0 <= i < case.chain@.len() ==> (#[trigger] case.steps@[i]).op
            == case.chain@[i],
        suite(run.chain_len() as nat).len() <= 20_000 ==> case.fixture_id == case.case_id,
        suite(run.chain_len() as nat).len() > 20_000 ==> case.fixture_id == after.given(),
{
    if run.passed() < id < case.case_id {
        let k = id - 1;
        assert(!run.selected().cases().contains((k + 1) as usize));
    }
}

} // verus!
