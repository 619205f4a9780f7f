//! Chains of operations, their distribution over workers, and the normal form
//! that keeps one representative of each renaming class.

use vstd::arithmetic::power::*;
use vstd::prelude::*;
use vstd::string::*;

use crate::ops::{
    catalog, op_catalog, FileId, Op, OpSpec, OpenMode, WritePayload, FILES, FIXTURE_FILES,
};
use crate::text::{dec, push_dec};

verus! {

/// The files over which a kind of operation that takes a slot is expanded.
pub open spec fn spec_files(spec: OpSpec) -> Seq<FileId> {
    match spec {
        OpSpec::Open(OpenMode::ReadOnlyExisting) => FILES@ + FIXTURE_FILES@,
        OpSpec::Open(_) | OpSpec::Delete | OpSpec::Stat => FILES@,
        _ => Seq::empty(),
    }
}

/// The operation of the kind `spec` on `slot` and, where it takes one, `file`.
pub open spec fn expanded(spec: OpSpec, slot: usize, file: Option<FileId>) -> Op {
    match spec {
        OpSpec::Open(mode) => Op::Open { slot, file: file->0, mode },
        OpSpec::Close => Op::Close { slot },
        OpSpec::Write(payload) => Op::Write { slot, payload },
        OpSpec::Read(size) => Op::Read { slot, size },
        OpSpec::WriteStderr => Op::WriteStderr,
        OpSpec::Dup => Op::Dup { src_slot: slot, dst_slot: slot },
        OpSpec::Delete => Op::Delete { file: file->0 },
        OpSpec::Seek(target) => Op::Seek { slot, target },
        OpSpec::Fstat => Op::Fstat { slot },
        OpSpec::Stat => Op::Stat { file: file->0 },
        OpSpec::ReadDir => Op::ReadDir,
    }
}

/// The operation of the kind `spec` on `slot`, once for each of `files`.
pub open spec fn over_files(spec: OpSpec, slot: usize, files: Seq<FileId>) -> Seq<Op> {
    files.map_values(|file: FileId| expanded(spec, slot, Some(file)))
}

/// All operations of the kind `spec`, slots first, then files.
pub open spec fn expansion(spec: OpSpec) -> Seq<Op> {
    if spec is Dup {
        seq![
            Op::Dup { src_slot: 0, dst_slot: 0 },
            Op::Dup { src_slot: 0, dst_slot: 1 },
            Op::Dup { src_slot: 1, dst_slot: 0 },
            Op::Dup { src_slot: 1, dst_slot: 1 },
        ]
    } else if spec.takes_file() && !spec.takes_fd() {
        over_files(spec, 0, FILES@)
    } else if !spec.takes_fd() {
        seq![expanded(spec, 0, None)]
    } else if spec.takes_file() {
        over_files(spec, 0, spec_files(spec)) + over_files(spec, 1, spec_files(spec))
    } else {
        seq![expanded(spec, 0, None), expanded(spec, 1, None)]
    }
}

/// The expansions of `specs`, one after the other.
pub open spec fn expansions(specs: Seq<OpSpec>) -> Seq<Op>
    decreases specs.len(),
{
    if specs.len() == 0 {
        Seq::empty()
    } else {
        expansions(specs.drop_last()) + expansion(specs.last())
    }
}

pub fn expand_op(spec: OpSpec, slot: usize, file: Option<FileId>) -> (op: Op)
    requires
        spec !is Dup,
        spec.takes_file() ==> file is Some,
    ensures
        op == expanded(spec, slot, file),
{
    match spec {
        OpSpec::Open(mode) => Op::Open { slot, file: file.unwrap(), mode },
        OpSpec::Close => Op::Close { slot },
        OpSpec::Write(payload) => Op::Write { slot, payload },
        OpSpec::Read(size) => Op::Read { slot, size },
        OpSpec::WriteStderr => Op::WriteStderr,
        OpSpec::Dup => Op::Dup { src_slot: slot, dst_slot: slot },
        OpSpec::Delete => Op::Delete { file: file.unwrap() },
        OpSpec::Seek(target) => Op::Seek { slot, target },
        OpSpec::Fstat => Op::Fstat { slot },
        OpSpec::Stat => Op::Stat { file: file.unwrap() },
        OpSpec::ReadDir => Op::ReadDir,
    }
}

pub fn files_for_spec(spec: OpSpec) -> (files: Vec<FileId>)
    ensures
        files@ == spec_files(spec),
{
    let mut files: Vec<FileId> = Vec::new();
    match spec {
        OpSpec::Open(OpenMode::ReadOnlyExisting) => {
            push_files(&mut files, &FILES);
            push_files(&mut files, &FIXTURE_FILES);
        },
        OpSpec::Open(OpenMode::ReadWriteCreate)
        | OpSpec::Open(OpenMode::AppendCreate)
        | OpSpec::Open(OpenMode::ReadWriteTruncate)
        | OpSpec::Open(OpenMode::ReadWriteCreateNew)
        | OpSpec::Delete
        | OpSpec::Stat => {
            push_files(&mut files, &FILES);
        },
        OpSpec::Close
        | OpSpec::Write(_)
        | OpSpec::Read(_)
        | OpSpec::Seek(_)
        | OpSpec::Fstat
        | OpSpec::ReadDir
        | OpSpec::WriteStderr
        | OpSpec::Dup => {},
    }
    assert(files@ =~= spec_files(spec));
    files
}

fn push_files(files: &mut Vec<FileId>, more: &[FileId])
    ensures
        final(files)@ == old(files)@ + more@,
{
    let mut i: usize = 0;
    while i < more.len()
        invariant
            i <= more@.len(),
            files@ == old(files)@ + more@.take(i as int),
        decreases more@.len() - i,
    {
        files.push(more[i]);
        i = i + 1;
        assert(files@ =~= old(files)@ + more@.take(i as int));
    }
    assert(more@.take(i as int) =~= more@);
}

fn push_over_files(ops: &mut Vec<Op>, spec: OpSpec, slot: usize, files: &[FileId])
    requires
        spec !is Dup,
    ensures
        final(ops)@ == old(ops)@ + over_files(spec, slot, files@),
{
    let mut i: usize = 0;
    while i < files.len()
        invariant
            spec !is Dup,
            i <= files@.len(),
            ops@ == old(ops)@ + over_files(spec, slot, files@).take(i as int),
        decreases files@.len() - i,
    {
        ops.push(expand_op(spec, slot, Some(files[i])));
        i = i + 1;
        assert(ops@ =~= old(ops)@ + over_files(spec, slot, files@).take(i as int));
    }
    assert(over_files(spec, slot, files@).take(i as int) =~= over_files(spec, slot, files@));
}

fn push_expansion(ops: &mut Vec<Op>, spec: OpSpec)
    ensures
        final(ops)@ == old(ops)@ + expansion(spec),
{
    if spec == OpSpec::Dup {
        ops.push(Op::Dup { src_slot: 0, dst_slot: 0 });
        ops.push(Op::Dup { src_slot: 0, dst_slot: 1 });
        ops.push(Op::Dup { src_slot: 1, dst_slot: 0 });
        ops.push(Op::Dup { src_slot: 1, dst_slot: 1 });
    } else if spec.needs_file() && !spec.needs_fd() {
        push_over_files(ops, spec, 0, &FILES);
    } else if !spec.needs_fd() {
        ops.push(expand_op(spec, 0, None));
    } else if spec.needs_file() {
        let files = files_for_spec(spec);
        push_over_files(ops, spec, 0, files.as_slice());
        push_over_files(ops, spec, 1, files.as_slice());
    } else {
        ops.push(expand_op(spec, 0, None));
        ops.push(expand_op(spec, 1, None));
    }
    assert(ops@ =~= old(ops)@ + expansion(spec));
}

/// The operations of the catalog, each with its slots and files.
pub fn concrete_ops() -> (ops: Vec<Op>)
    ensures
        ops@ == expansions(catalog()),
        ops@.len() == 18,
{
    let specs = op_catalog();
    let mut ops: Vec<Op> = Vec::new();
    let mut i: usize = 0;
    while i < specs.len()
        invariant
            i <= specs@.len(),
            ops@ == expansions(specs@.take(i as int)),
        decreases specs@.len() - i,
    {
        push_expansion(&mut ops, specs[i]);
        i = i + 1;
        assert(specs@.take(i as int).drop_last() =~= specs@.take(i as int - 1));
    }
    assert(specs@.take(i as int) =~= specs@);
    proof {
        lemma_catalog_expansion();
    }
    ops
}

/// The catalog expands to eighteen operations, whose slots exist.
pub proof fn lemma_catalog_expansion()
    ensures
        expansions(catalog()).len() == 18,
        forall|i: int| 0 <= i < 18 ==> (#[trigger] expansions(catalog())[i]).slots_exist(),
{
    reveal_with_fuel(expansions, 6);
    let c = catalog();
    assert(c.drop_last() =~= seq![c[0], c[1], c[2], c[3]]);
    assert(c.drop_last().drop_last() =~= seq![c[0], c[1], c[2]]);
    assert(c.drop_last().drop_last().drop_last() =~= seq![c[0], c[1]]);
    assert(c.drop_last().drop_last().drop_last().drop_last() =~= seq![c[0]]);
    assert(c.drop_last().drop_last().drop_last().drop_last().drop_last() =~= Seq::empty());
    assert(FILES@.len() == 3);
    assert(expansions(c) =~= expansion(c[0]) + expansion(c[1]) + expansion(c[2]) + expansion(c[3])
        + expansion(c[4]));
    assert forall|i: int| 0 <= i < 18 implies (#[trigger] expansions(c)[i]).slots_exist() by {
        let e = expansions(c);
        assert(e[i] == expansion(c[0]).index(i) || i >= 2);
    }
}

/// The bytes that a write puts into a file: `A` from the first slot, else `B`.
pub fn write_payload(slot: usize, payload: WritePayload) -> (bytes: Vec<u8>)
    ensures
        bytes@ == Seq::new(payload.size(), |i: int| if slot == 0 { 65u8 } else { 66u8 }),
{
    let byte: u8 = if slot == 0 { 65 } else { 66 };
    let bytes = vec![byte; payload.len()];
    assert(bytes@ =~= Seq::new(payload.size(), |i: int| if slot == 0 { 65u8 } else { 66u8 }));
    bytes
}

/// What walks over chains: it is shown one chain after the other, and answers
/// whether it wants the next.
pub trait ChainVisitor: Sized {
    /// Whether showing `chain` to `self` may give `answer` and leave `after`.
    spec fn shown(self, chain: Seq<Op>, answer: Result<bool, String>, after: Self) -> bool;

    fn visit(&mut self, chain: &[Op]) -> (answer: Result<bool, String>)
        ensures
            old(self).shown(chain@, answer, *final(self)),
    ;
}

/// The chains of length `len` that start with `prefix`, in the order of `templates`
/// at the first place where they differ.
pub open spec fn chains_from(templates: Seq<Op>, prefix: Seq<Op>, len: nat) -> Seq<Seq<Op>>
    decreases len - prefix.len(), templates.len() + 1,
{
    if prefix.len() >= len {
        seq![prefix]
    } else {
        chains_after(templates, prefix, len, templates.len())
    }
}

/// Of the chains that start with `prefix`, those that go on with one of the first
/// `count` templates.
pub open spec fn chains_after(templates: Seq<Op>, prefix: Seq<Op>, len: nat, count: nat) -> Seq<
    Seq<Op>,
>
    decreases len - prefix.len(), count,
    when prefix.len() < len && count <= templates.len()
{
    if count == 0 {
        Seq::empty()
    } else {
        chains_after(templates, prefix, len, (count - 1) as nat) + chains_from(
            templates,
            prefix.push(templates[count - 1]),
            len,
        )
    }
}

/// Whether showing `chains` to `start` in order, up to the first answer other than
/// yes, may end in `outcome` and `end`.
pub open spec fn walked<V: ChainVisitor>(
    start: V,
    chains: Seq<Seq<Op>>,
    outcome: Result<bool, String>,
    end: V,
) -> bool
    decreases chains.len(),
{
    if chains.len() == 0 {
        outcome == Ok::<bool, String>(true) && end == start
    } else {
        exists|answer: Result<bool, String>, next: V|
            {
                &&& #[trigger] start.shown(chains[0], answer, next)
                &&& if answer == Ok::<bool, String>(true) {
                    walked(next, chains.drop_first(), outcome, end)
                } else {
                    outcome == answer && end == next
                }
            }
    }
}

/// A walk that was answered yes to the end goes on over the chains that follow.
proof fn lemma_walk_on<V: ChainVisitor>(
    start: V,
    first: Seq<Seq<Op>>,
    middle: V,
    more: Seq<Seq<Op>>,
    outcome: Result<bool, String>,
    end: V,
)
    requires
        walked(start, first, Ok(true), middle),
        walked(middle, more, outcome, end),
    ensures
        walked(start, first + more, outcome, end),
    decreases first.len(),
{
    if first.len() == 0 {
        assert(first + more =~= more);
    } else {
        let (answer, next) = choose|answer: Result<bool, String>, next: V|
            {
                &&& #[trigger] start.shown(first[0], answer, next)
                &&& if answer == Ok::<bool, String>(true) {
                    walked(next, first.drop_first(), Ok(true), middle)
                } else {
                    Ok::<bool, String>(true) == answer && middle == next
                }
            };
        lemma_walk_on(next, first.drop_first(), middle, more, outcome, end);
        assert((first + more).drop_first() =~= first.drop_first() + more);
        assert((first + more)[0] == first[0]);
        assert(start.shown((first + more)[0], answer, next));
    }
}

/// A walk that stopped would have stopped the same way before more chains.
proof fn lemma_walk_stopped<V: ChainVisitor>(
    start: V,
    first: Seq<Seq<Op>>,
    more: Seq<Seq<Op>>,
    outcome: Result<bool, String>,
    end: V,
)
    requires
        walked(start, first, outcome, end),
        outcome != Ok::<bool, String>(true),
    ensures
        walked(start, first + more, outcome, end),
    decreases first.len(),
{
    if first.len() > 0 {
        let (answer, next) = choose|answer: Result<bool, String>, next: V|
            {
                &&& #[trigger] start.shown(first[0], answer, next)
                &&& if answer == Ok::<bool, String>(true) {
                    walked(next, first.drop_first(), outcome, end)
                } else {
                    outcome == answer && end == next
                }
            };
        if answer == Ok::<bool, String>(true) {
            lemma_walk_stopped(next, first.drop_first(), more, outcome, end);
        }
        assert((first + more).drop_first() =~= first.drop_first() + more);
        assert((first + more)[0] == first[0]);
        assert(start.shown((first + more)[0], answer, next));
    }
}

pub struct ChainGenerator {
    pub templates: Vec<Op>,
}

impl ChainGenerator {
    pub fn new() -> (g: Self)
        ensures
            g.templates@ == expansions(catalog()),
            g.templates@.len() == 18,
    {
        ChainGenerator { templates: concrete_ops() }
    }

    /// Shows every chain of length `len` to the visitor, until it wants no more.
    pub fn for_each<V: ChainVisitor>(&self, len: usize, visitor: &mut V) -> (r: Result<(), String>)
        ensures
            exists|outcome: Result<bool, String>|
                {
                    &&& #[trigger] walked(
                        *old(visitor),
                        chains_from(self.templates@, Seq::empty(), len as nat),
                        outcome,
                        *final(visitor),
                    )
                    &&& r == match outcome {
                        Ok(_) => Ok::<(), String>(()),
                        Err(e) => Err(e),
                    }
                },
    {
        let mut current: Vec<Op> = Vec::new();
        assert(current@ =~= Seq::empty());
        let outcome = self.visit_chains(len, &mut current, visitor);
        match outcome {
            Ok(_) => Ok(()),
            Err(e) => Err(e),
        }
    }

    /// The number of chains of length `len`.
    pub fn chain_count(&self, len: usize) -> (r: Result<usize, String>)
        ensures
            r is Ok <==> pow(self.templates@.len() as int, (len as u32) as nat) <= usize::MAX,
            r matches Ok(n) ==> n == pow(self.templates@.len() as int, (len as u32) as nat),
            r matches Err(e) ==> e@ == "oracle chain count overflows usize for length "@ + dec(
                len as nat,
            ),
    {
        let exponent: u32 = len as u32;
        let base: usize = self.templates.len();
        let mut count: usize = 1;
        let mut done: u32 = 0;
        proof {
            lemma_pow0(base as int);
        }
        while done < exponent
            invariant
                base == self.templates@.len(),
                exponent == len as u32,
                done <= exponent,
                count == pow(base as int, done as nat),
            decreases exponent - done,
        {
            proof {
                lemma_pow_step(base as int, done as nat);
                lemma_pow_reaches(base as int, (done + 1) as nat, exponent as nat);
            }
            match count.checked_mul(base) {
                Some(next) => {
                    count = next;
                },
                None => {
                    let mut e = "oracle chain count overflows usize for length ".to_string();
                    push_dec(&mut e, len as u64);
                    return Err(e);
                },
            }
            done = done + 1;
        }
        Ok(count)
    }

    /// Shows the visitor the chains of length `len` that start with `current`.
    pub fn visit_chains<V: ChainVisitor>(
        &self,
        len: usize,
        current: &mut Vec<Op>,
        visitor: &mut V,
    ) -> (r: Result<bool, String>)
        requires
            old(current)@.len() <= len,
        ensures
            walked(
                *old(visitor),
                chains_from(self.templates@, old(current)@, len as nat),
                r,
                *final(visitor),
            ),
            r is Ok ==> final(current)@ == old(current)@,
        decreases len - old(current)@.len(),
    {
        let ghost prefix = current@;
        let ghost templates = self.templates@;
        if current.len() == len {
            let ghost start = *visitor;
            let answer = visitor.visit(current.as_slice());
            proof {
                assert(chains_from(templates, prefix, len as nat) =~= seq![prefix]);
                let chains = seq![prefix];
                assert(start.shown(chains[0], answer, *visitor));
                assert(chains.drop_first() =~= Seq::empty());
                assert(walked(*visitor, chains.drop_first(), Ok(true), *visitor));
            }
            return answer;
        }
        let ghost start = *visitor;
        let mut i: usize = 0;
        while i < self.templates.len()
            invariant
                templates == self.templates@,
                i <= templates.len(),
                prefix.len() < len,
                current@ == prefix,
                prefix == old(current)@,
                start == *old(visitor),
                walked(
                    start,
                    chains_after(templates, prefix, len as nat, i as nat),
                    Ok(true),
                    *visitor,
                ),
            decreases templates.len() - i,
        {
            let op = self.templates[i];
            current.push(op);
            let ghost middle = *visitor;
            let ghost done = chains_after(templates, prefix, len as nat, i as nat);
            let ghost more = chains_from(templates, current@, len as nat);
            let should_continue = self.visit_chains(len, current, visitor);
            proof {
                assert(chains_after(templates, prefix, len as nat, (i + 1) as nat) =~= done + more);
                lemma_walk_on(start, done, middle, more, should_continue, *visitor);
            }
            match should_continue {
                Err(e) => {
                    proof {
                        lemma_rest_of_chains(templates, prefix, len as nat, (i + 1) as nat);
                        lemma_walk_stopped(
                            start,
                            done + more,
                            rest_of_chains(templates, prefix, len as nat, (i + 1) as nat),
                            should_continue,
                            *visitor,
                        );
                    }
                    return Err(e);
                },
                Ok(go_on) => {
                    current.pop();
                    assert(current@ =~= prefix);
                    if !go_on {
                        proof {
                            lemma_rest_of_chains(templates, prefix, len as nat, (i + 1) as nat);
                            lemma_walk_stopped(
                                start,
                                done + more,
                                rest_of_chains(templates, prefix, len as nat, (i + 1) as nat),
                                should_continue,
                                *visitor,
                            );
                        }
                        return Ok(false);
                    }
                },
            }
            i = i + 1;
        }
        Ok(true)
    }
}

/// Of the chains that start with `prefix`, those that go on with a template from
/// `count` on.
spec fn rest_of_chains(templates: Seq<Op>, prefix: Seq<Op>, len: nat, count: nat) -> Seq<Seq<Op>> {
    let all = chains_from(templates, prefix, len);
    all.skip(chains_after(templates, prefix, len, count).len() as int)
}

proof fn lemma_rest_of_chains(templates: Seq<Op>, prefix: Seq<Op>, len: nat, count: nat)
    requires
        prefix.len() < len,
        count <= templates.len(),
    ensures
        chains_from(templates, prefix, len) == chains_after(templates, prefix, len, count)
            + rest_of_chains(templates, prefix, len, count),
{
    lemma_chains_after_grow(templates, prefix, len, count, templates.len());
    let all = chains_from(templates, prefix, len);
    let first = chains_after(templates, prefix, len, count);
    assert(all =~= first + all.skip(first.len() as int));
}

proof fn lemma_chains_after_grow(
    templates: Seq<Op>,
    prefix: Seq<Op>,
    len: nat,
    low: nat,
    high: nat,
)
    requires
        prefix.len() < len,
        low <= high <= templates.len(),
    ensures
        chains_after(templates, prefix, len, low).len() <= chains_after(
            templates,
            prefix,
            len,
            high,
        ).len(),
        chains_after(templates, prefix, len, high).take(
            chains_after(templates, prefix, len, low).len() as int,
        ) == chains_after(templates, prefix, len, low),
    decreases high - low,
{
    let first = chains_after(templates, prefix, len, low);
    if low < high {
        lemma_chains_after_grow(templates, prefix, len, low, (high - 1) as nat);
        let before = chains_after(templates, prefix, len, (high - 1) as nat);
        let all = chains_after(templates, prefix, len, high);
        assert(all.take(first.len() as int) =~= before.take(first.len() as int));
    } else {
        assert(first.take(first.len() as int) =~= first);
    }
}

pub proof fn lemma_pow_step(base: int, k: nat)
    ensures
        pow(base, k + 1) == base * pow(base, k),
        pow(base, k + 1) == pow(base, k) * base,
{
    reveal(pow);
    assert(base * pow(base, k) == pow(base, k) * base) by (nonlinear_arith);
}

/// A power past the machine's limit stays past it.
pub proof fn lemma_pow_reaches(base: int, low: nat, high: nat)
    requires
        base >= 0,
        low <= high,
    ensures
        base >= 1 ==> pow(base, low) <= pow(base, high),
        base == 0 && low > 0 ==> pow(base, low) == 0,
        pow(base, low) >= 0,
    decreases high - low,
{
    if low < high {
        lemma_pow_reaches(base, low, (high - 1) as nat);
        lemma_pow_step(base, (high - 1) as nat);
        let p = pow(base, (high - 1) as nat);
        assert(base >= 1 && p >= 0 ==> base * p >= p) by (nonlinear_arith);
        if base >= 1 {
            lemma_pow_positive(base, (high - 1) as nat);
        }
    } else {
        if base >= 1 {
            lemma_pow_positive(base, low);
        } else if low > 0 {
            lemma_pow_step(base, (low - 1) as nat);
            let p = pow(base, (low - 1) as nat);
            assert(base == 0 ==> base * p == 0) by (nonlinear_arith);
        } else {
            lemma_pow0(base);
        }
    }
}


/// One operation of a case and the worker that runs it.
#[derive(Clone, Copy, Debug, PartialEq, Eq, Structural)]
pub struct ScheduledStep {
    pub worker: usize,
    pub op: Op,
}

pub struct Scheduler {
    pub worker_count: usize,
}

/// The worker of the step at `idx`: the first worker first, then the digits of `mask`
/// in base `worker_count`, lowest first.
pub open spec fn worker_at(worker_count: nat, mask: nat, idx: nat) -> nat
    decreases idx,
{
    if idx == 0 {
        0
    } else if idx == 1 {
        mask % worker_count
    } else {
        worker_at(worker_count, mask / worker_count, (idx - 1) as nat)
    }
}

impl Scheduler {
    pub fn new(worker_count: usize) -> (s: Self)
        ensures
            s.worker_count == worker_count,
    {
        Scheduler { worker_count }
    }

    pub open spec fn counted(&self, chain_len: usize) -> int {
        if chain_len == 0 {
            1
        } else {
            pow(self.worker_count as int, ((chain_len - 1) as u32) as nat)
        }
    }

    /// How many ways there are to distribute a chain.
    pub fn schedule_count(&self, chain_len: usize) -> (n: usize)
        requires
            self.counted(chain_len) <= usize::MAX,
        ensures
            n == self.counted(chain_len),
    {
        if chain_len == 0 {
            1
        } else {
            let exponent: u32 = (chain_len - 1) as u32;
            let mut count: usize = 1;
            let mut done: u32 = 0;
            proof {
                lemma_pow0(self.worker_count as int);
            }
            while done < exponent
                invariant
                    pow(self.worker_count as int, exponent as nat) <= usize::MAX,
                    done <= exponent,
                    count == pow(self.worker_count as int, done as nat),
                decreases exponent - done,
            {
                proof {
                    lemma_pow_step(self.worker_count as int, done as nat);
                    lemma_pow_reaches(
                        self.worker_count as int,
                        (done + 1) as nat,
                        exponent as nat,
                    );
                }
                count = count * self.worker_count;
                done = done + 1;
            }
            count
        }
    }

    /// The workers of a chain's steps, in order.
    pub fn workers(&self, chain_len: usize, mask: usize) -> (w: Vec<usize>)
        requires
            chain_len >= 2 ==> self.worker_count > 0,
        ensures
            w@.len() == chain_len,
            forall|i: int|
                0 <= i < chain_len ==> #[trigger] w@[i] == worker_at(
                    self.worker_count as nat,
                    mask as nat,
                    i as nat,
                ),
    {
        let mut remaining: usize = mask;
        let mut w: Vec<usize> = Vec::new();
        let mut idx: usize = 0;
        while idx < chain_len
            invariant
                chain_len >= 2 ==> self.worker_count > 0,
                idx <= chain_len,
                w@.len() == idx,
                idx == 0 ==> remaining == mask,
                forall|i: int|
                    0 <= i < idx ==> #[trigger] w@[i] == worker_at(
                        self.worker_count as nat,
                        mask as nat,
                        i as nat,
                    ),
                idx >= 1 ==> forall|k: nat|
                    k >= 1 ==> #[trigger] worker_at(
                        self.worker_count as nat,
                        remaining as nat,
                        k,
                    ) == worker_at(self.worker_count as nat, mask as nat, (k + idx - 1) as nat),
            decreases chain_len - idx,
        {
            if idx == 0 {
                w.push(0);
            } else {
                let ghost before = remaining;
                let ghost count = self.worker_count as nat;
                let worker: usize = remaining % self.worker_count;
                remaining = remaining / self.worker_count;
                w.push(worker);
                proof {
                    assert(worker_at(count, before as nat, 1) == worker_at(
                        count,
                        mask as nat,
                        idx as nat,
                    ));
                    assert forall|k: nat| k >= 1 implies #[trigger] worker_at(
                        count,
                        remaining as nat,
                        k,
                    ) == worker_at(count, mask as nat, (k + idx) as nat) by {
                        assert(worker_at(count, before as nat, k + 1) == worker_at(
                            count,
                            mask as nat,
                            (k + 1 + idx - 1) as nat,
                        ));
                    }
                }
            }
            idx = idx + 1;
        }
        w
    }
}

/// A chain whose operations are given to the workers that `mask` names.
pub open spec fn steps_of(worker_count: nat, chain: Seq<Op>, mask: nat) -> Seq<ScheduledStep> {
    Seq::new(
        chain.len(),
        |i: int|
            ScheduledStep { worker: worker_at(worker_count, mask, i as nat) as usize, op: chain[i] },
    )
}

pub fn scheduled_steps(chain: &[Op], scheduler: &Scheduler, mask: usize) -> (steps: Vec<
    ScheduledStep,
>)
    requires
        chain@.len() >= 2 ==> scheduler.worker_count > 0,
    ensures
        steps@ == steps_of(scheduler.worker_count as nat, chain@, mask as nat),
{
    let workers = scheduler.workers(chain.len(), mask);
    let mut steps: Vec<ScheduledStep> = Vec::new();
    let mut i: usize = 0;
    while i < chain.len()
        invariant
            i <= chain@.len(),
            workers@.len() == chain@.len(),
            forall|j: int|
                0 <= j < chain@.len() ==> #[trigger] workers@[j] == worker_at(
                    scheduler.worker_count as nat,
                    mask as nat,
                    j as nat,
                ),
            steps@ == steps_of(scheduler.worker_count as nat, chain@, mask as nat).take(i as int),
        decreases chain@.len() - i,
    {
        steps.push(ScheduledStep { worker: workers[i], op: chain[i] });
        i = i + 1;
        assert(steps@ =~= steps_of(scheduler.worker_count as nat, chain@, mask as nat).take(
            i as int,
        ));
    }
    assert(steps@ =~= steps_of(scheduler.worker_count as nat, chain@, mask as nat));
    steps
}

/// A step goes to one of the workers, and the first step to the first worker.
pub proof fn law_workers_in_range(worker_count: nat, mask: nat, idx: nat)
    requires
        worker_count > 0,
    ensures
        worker_at(worker_count, mask, idx) < worker_count,
        idx == 0 ==> worker_at(worker_count, mask, idx) == 0,
    decreases idx,
{
    if idx > 1 {
        law_workers_in_range(worker_count, mask / worker_count, (idx - 1) as nat);
    }
}

/// Two masks below the number of schedules distribute a chain in the same way only
/// where they are equal.
pub proof fn law_schedules_differ(worker_count: nat, chain_len: nat, a: nat, b: nat)
    requires
        worker_count > 0,
        chain_len > 0,
        a < pow(worker_count as int, (chain_len - 1) as nat),
        b < pow(worker_count as int, (chain_len - 1) as nat),
        forall|i: nat|
            i < chain_len ==> #[trigger] worker_at(worker_count, a, i) == worker_at(
                worker_count,
                b,
                i,
            ),
    ensures
        a == b,
    decreases chain_len,
{
    let w = worker_count as int;
    if chain_len == 1 {
        lemma_pow0(w);
    } else {
        assert(worker_at(worker_count, a, 1) == worker_at(worker_count, b, 1));
        lemma_pow_step(w, (chain_len - 2) as nat);
        let p = pow(w, (chain_len - 2) as nat);
        lemma_pow_positive(w, (chain_len - 2) as nat);
        assert(a / worker_count < p) by (nonlinear_arith)
            requires
                a < w * p,
                w == worker_count,
                w > 0,
        ;
        assert(b / worker_count < p) by (nonlinear_arith)
            requires
                b < w * p,
                w == worker_count,
                w > 0,
        ;
        assert forall|i: nat| i < chain_len - 1 implies #[trigger] worker_at(
            worker_count,
            a / worker_count,
            i,
        ) == worker_at(worker_count, b / worker_count, i) by {
            if i > 0 {
                assert(worker_at(worker_count, a, i + 1) == worker_at(worker_count, b, i + 1));
            }
        }
        law_schedules_differ(
            worker_count,
            (chain_len - 1) as nat,
            a / worker_count,
            b / worker_count,
        );
        assert(a == (a / worker_count) * worker_count + a % worker_count) by (nonlinear_arith)
            requires
                worker_count > 0,
        ;
        assert(b == (b / worker_count) * worker_count + b % worker_count) by (nonlinear_arith)
            requires
                worker_count > 0,
        ;
    }
}

/// Chains count only where some operation of them mutates.
pub const REQUIRE_MUTATION: bool = true;

pub open spec fn chain_mutates(chain: Seq<Op>) -> bool {
    exists|i: int| 0 <= i < chain.len() && (#[trigger] chain[i]).mutates()
}

pub fn chain_is_enabled(chain: &[Op]) -> (r: bool)
    ensures
        r == (!REQUIRE_MUTATION || chain_mutates(chain@)),
{
    if !REQUIRE_MUTATION {
        return true;
    }
    let mut i: usize = 0;
    while i < chain.len()
        invariant
            i <= chain@.len(),
            forall|j: int| 0 <= j < i ==> !(#[trigger] chain@[j]).mutates(),
        decreases chain@.len() - i,
    {
        if chain[i].is_mutation() {
            return true;
        }
        i = i + 1;
    }
    false
}


/// The chain with the number `i`: its digits in the base of the templates, the last
/// operation being the lowest digit.
pub open spec fn chain_at(templates: Seq<Op>, len: nat, i: nat) -> Seq<Op>
    decreases len,
{
    if len == 0 {
        Seq::empty()
    } else {
        chain_at(templates, (len - 1) as nat, i / templates.len()).push(
            templates[(i % templates.len()) as int],
        )
    }
}

proof fn lemma_first_digit(templates: Seq<Op>, len: nat, t: nat, j: nat)
    requires
        len > 0,
        t < templates.len(),
        j < pow(templates.len() as int, (len - 1) as nat),
    ensures
        chain_at(templates, len, (t * pow(templates.len() as int, (len - 1) as nat) + j) as nat)
            == seq![templates[t as int]] + chain_at(templates, (len - 1) as nat, j),
    decreases len,
{
    let n = templates.len();
    if len == 1 {
        lemma_pow0(n as int);
        assert(t * 1 == t);
        assert(t as int / n as int == 0) by (nonlinear_arith)
            requires
                t < n,
        ;
        assert(t as int % n as int == t) by (nonlinear_arith)
            requires
                t < n,
        ;
        assert(chain_at(templates, 1, t) =~= seq![templates[t as int]] + chain_at(templates, 0, j));
    } else {
        let p = pow(n as int, (len - 2) as nat);
        lemma_pow_step(n as int, (len - 2) as nat);
        lemma_pow_positive(n as int, (len - 2) as nat);
        let i = (t * (p * n) + j) as nat;
        assert(i as int == (t * p) * n + j) by (nonlinear_arith)
            requires
                i == t * (p * n) + j,
        ;
        assert(i as int / n as int == t * p + j as int / n as int && i as int % n as int == j as int
            % n as int) by {
            vstd::arithmetic::div_mod::lemma_div_multiples_vanish_fancy(t * p, j as int % n as int, n as int);
            vstd::arithmetic::div_mod::lemma_fundamental_div_mod(j as int, n as int);
            vstd::arithmetic::div_mod::lemma_mod_bound(j as int, n as int);
            let q = j as int / n as int;
            let r = j as int % n as int;
            assert(i as int == n * (t * p + q) + r) by (nonlinear_arith)
                requires
                    i == (t * p) * n + j,
                    j == n * q + r,
            ;
            vstd::arithmetic::div_mod::lemma_fundamental_div_mod_converse(
                i as int,
                n as int,
                t * p + q,
                r,
            );
        }
        assert((j as int / n as int) < p) by (nonlinear_arith)
            requires
                j < p * n,
                n > 0,
        ;
        assert(0 <= t * p) by (nonlinear_arith)
            requires
                t >= 0,
                p > 0,
        ;
        lemma_first_digit(templates, (len - 1) as nat, t, j / n);
        let head = seq![templates[t as int]] + chain_at(templates, (len - 2) as nat, j / n);
        assert(head.push(templates[(j % n) as int]) =~= seq![templates[t as int]] + chain_at(
            templates,
            (len - 1) as nat,
            j,
        ));
    }
}

/// Every chain is shown once, in the order of its number: the list of chains that start
/// with `prefix` has one for each way to go on.
pub proof fn law_chains_in_order(templates: Seq<Op>, prefix: Seq<Op>, len: nat)
    requires
        prefix.len() <= len,
    ensures
        chains_from(templates, prefix, len).len() == pow(
            templates.len() as int,
            (len - prefix.len()) as nat,
        ),
        forall|i: int|
            0 <= i < chains_from(templates, prefix, len).len() ==> #[trigger] chains_from(
                templates,
                prefix,
                len,
            )[i] == prefix + chain_at(templates, (len - prefix.len()) as nat, i as nat),
    decreases len - prefix.len(), templates.len() + 1,
{
    if prefix.len() == len {
        lemma_pow0(templates.len() as int);
        assert(prefix + Seq::<Op>::empty() =~= prefix);
    } else {
        lemma_chains_after_in_order(templates, prefix, len, templates.len());
        lemma_pow_step(templates.len() as int, (len - prefix.len() - 1) as nat);
    }
}

proof fn lemma_chains_after_in_order(templates: Seq<Op>, prefix: Seq<Op>, len: nat, count: nat)
    requires
        prefix.len() < len,
        count <= templates.len(),
    ensures
        chains_after(templates, prefix, len, count).len() == count * pow(
            templates.len() as int,
            (len - prefix.len() - 1) as nat,
        ),
        forall|i: int|
            0 <= i < chains_after(templates, prefix, len, count).len()
                ==> #[trigger] chains_after(templates, prefix, len, count)[i] == prefix + chain_at(
                templates,
                (len - prefix.len()) as nat,
                i as nat,
            ),
    decreases len - prefix.len(), count,
{
    let p = pow(templates.len() as int, (len - prefix.len() - 1) as nat);
    if count > 0 {
        let t = (count - 1) as nat;
        lemma_chains_after_in_order(templates, prefix, len, t);
        let before = chains_after(templates, prefix, len, t);
        let next = prefix.push(templates[t as int]);
        law_chains_in_order(templates, next, len);
        let block = chains_from(templates, next, len);
        let all = chains_after(templates, prefix, len, count);
        assert(t * p + p == count * p) by (nonlinear_arith)
            requires
                t == count - 1,
        ;
        assert forall|i: int| 0 <= i < all.len() implies #[trigger] all[i] == prefix + chain_at(
            templates,
            (len - prefix.len()) as nat,
            i as nat,
        ) by {
            if i < before.len() {
                assert(all[i] == before[i]);
            } else {
                let j = (i - before.len()) as nat;
                assert(all[i] == block[j as int]);
                lemma_first_digit(templates, (len - prefix.len()) as nat, t, j);
                assert(next + chain_at(templates, (len - prefix.len() - 1) as nat, j) =~= prefix + (
                seq![templates[t as int]] + chain_at(
                    templates,
                    (len - prefix.len() - 1) as nat,
                    j,
                )));
            }
        }
    } else {
        assert(0 * p == 0);
    }
}

impl ChainGenerator {
    /// The chain with the number `index`.
    pub fn chain(&self, len: usize, index: usize) -> (chain: Vec<Op>)
        requires
            self.templates@.len() > 0,
        ensures
            chain@ == chain_at(self.templates@, len as nat, index as nat),
        decreases len,
    {
        if len == 0 {
            let chain: Vec<Op> = Vec::new();
            assert(chain@ =~= Seq::empty());
            chain
        } else {
            let n: usize = self.templates.len();
            let mut chain = self.chain(len - 1, index / n);
            chain.push(self.templates[index % n]);
            chain
        }
    }

    /// All chains of length `len`, in the order in which they are shown.
    pub fn chains(&self, len: usize) -> (out: Vec<Vec<Op>>)
        ensures
            chain_views(out@) == chains_from(self.templates@, Seq::empty(), len as nat),
    {
        let mut list = ChainList { chains: Vec::new() };
        let ghost start = list;
        let outcome = self.for_each(len, &mut list);
        proof {
            let chains = chains_from(self.templates@, Seq::empty(), len as nat);
            let o = choose|o: Result<bool, String>| #[trigger] walked(start, chains, o, list);
            lemma_list_gathers(start, chains, o, list);
            assert(chain_views(start.chains@) + chains =~= chains);
        }
        list.chains
    }
}

pub open spec fn chain_views(chains: Seq<Vec<Op>>) -> Seq<Seq<Op>> {
    chains.map_values(|c: Vec<Op>| c@)
}

/// A visitor that keeps what it is shown.
pub struct ChainList {
    pub chains: Vec<Vec<Op>>,
}

impl ChainVisitor for ChainList {
    open spec fn shown(self, chain: Seq<Op>, answer: Result<bool, String>, after: Self) -> bool {
        &&& answer == Ok::<bool, String>(true)
        &&& chain_views(after.chains@) == chain_views(self.chains@).push(chain)
    }

    fn visit(&mut self, chain: &[Op]) -> (answer: Result<bool, String>) {
        let ghost before = chain_views(self.chains@);
        let mut copy: Vec<Op> = Vec::new();
        let mut i: usize = 0;
        while i < chain.len()
            invariant
                i <= chain@.len(),
                copy@ == chain@.take(i as int),
            decreases chain@.len() - i,
        {
            copy.push(chain[i]);
            i = i + 1;
            assert(copy@ =~= chain@.take(i as int));
        }
        assert(copy@ =~= chain@);
        self.chains.push(copy);
        assert(chain_views(self.chains@) =~= before.push(chain@));
        Ok(true)
    }
}

proof fn lemma_list_gathers(
    start: ChainList,
    chains: Seq<Seq<Op>>,
    outcome: Result<bool, String>,
    end: ChainList,
)
    requires
        walked(start, chains, outcome, end),
    ensures
        chain_views(end.chains@) == chain_views(start.chains@) + chains,
    decreases chains.len(),
{
    if chains.len() == 0 {
        assert(chain_views(start.chains@) + chains =~= chain_views(start.chains@));
    } else {
        let (answer, next) = choose|answer: Result<bool, String>, next: ChainList|
            {
                &&& #[trigger] start.shown(chains[0], answer, next)
                &&& if answer == Ok::<bool, String>(true) {
                    walked(next, chains.drop_first(), outcome, end)
                } else {
                    outcome == answer && end == next
                }
            };
        lemma_list_gathers(next, chains.drop_first(), outcome, end);
        assert(chain_views(start.chains@).push(chains[0]) + chains.drop_first() =~= chain_views(
            start.chains@,
        ) + chains);
    }
}

} // verus!
