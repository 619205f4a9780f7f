//! The decisions of an oracle run around its cases: where it works, what it compares with,
//! and what it says of itself.

use vstd::prelude::*;
use vstd::string::*;

use crate::cli::{copy_opt, opt_text, Cli};
use crate::codec::by_text;
use crate::paths::{file_name, join, joined_path, last_name};
use crate::selection::{selection_drawn, OracleSelection, OracleShard};
use crate::text::{dec, pad_left, push_dec, push_dec_padded, same_text};

verus! {

/// The directory that an oracle run works under.
pub fn oracle_root(cli: &Cli) -> (r: Result<String, String>)
    ensures
        match r {
            Ok(root) => cli@.fname == Some(root@),
            Err(e) => cli@.fname is None && e@ == "oracle root is required"@,
        },
{
    match &cli.fname {
        Some(root) => Ok(root.clone()),
        None => Err("oracle root is required".to_string()),
    }
}

/// What is to be done with the root of a run.
#[derive(Clone, Copy, Debug, PartialEq, Eq, Structural)]
pub enum RootAction {
    Use,
    Create,
}

/// Whether a run there would be spread over a directory that others use.
pub open spec fn is_broad_root(root: Seq<char>) -> bool {
    root == "/"@ || root == "/tmp"@ || root == "/data"@ || root == "/volume"@
}

/// Whether a run may work at `root`, given whether something stands there and whether that
/// is a directory.
pub fn prepare_root(root: &str, exists: bool, is_dir: bool) -> (r: Result<RootAction, String>)
    ensures
        match r {
            Ok(RootAction::Use) => !is_broad_root(root@) && exists && is_dir,
            Ok(RootAction::Create) => !is_broad_root(root@) && !exists,
            Err(e) => if is_broad_root(root@) {
                e@ == "refusing to use broad oracle root "@ + root@ + "; pass a child directory"@
            } else {
                exists && !is_dir && e@ == "oracle root "@ + root@ + " is not a directory"@
            },
        },
{
    if same_text(root, "/") || same_text(root, "/tmp") || same_text(root, "/data") || same_text(
        root,
        "/volume",
    ) {
        return Err(
            "refusing to use broad oracle root ".to_string().concat(root).concat(
                "; pass a child directory",
            ),
        );
    }
    if exists {
        if !is_dir {
            return Err(
                "oracle root ".to_string().concat(root).concat(" is not a directory"),
            );
        }
        Ok(RootAction::Use)
    } else {
        Ok(RootAction::Create)
    }
}

/// Run directories that are tried at most.
pub const MAX_RUN_ROOTS: usize = 1_000_000;

/// The directory of the run with the number `idx`.
pub open spec fn run_root_text(root: Seq<char>, idx: nat) -> Seq<char> {
    joined_path(root, "run-"@ + pad_left(dec(idx), 6, '0'))
}

/// The directory to try as the `idx`th one.
pub fn run_root_candidate(root: &str, idx: usize) -> (r: Result<String, String>)
    ensures
        match r {
            Ok(path) => 1 <= idx <= MAX_RUN_ROOTS && path@ == run_root_text(root@, idx as nat),
            Err(e) => !(1 <= idx <= MAX_RUN_ROOTS) && e@
                == "failed to allocate a fresh run directory under "@ + root@,
        },
{
    if idx == 0 || idx > MAX_RUN_ROOTS {
        return Err("failed to allocate a fresh run directory under ".to_string().concat(root));
    }
    let mut name = "run-".to_string();
    push_dec_padded(&mut name, idx as u64, 6);
    Ok(join(root, name.as_str()))
}

/// The name of a run: that of its directory.
pub fn run_name(root: &str) -> (r: Result<String, String>)
    ensures
        match r {
            Ok(name) => last_name(root@) == Some(name@),
            Err(e) => last_name(root@) is None && e@ == "invalid oracle run root "@ + root@,
        },
{
    match file_name(root) {
        Some(name) => Ok(name),
        None => Err("invalid oracle run root ".to_string().concat(root)),
    }
}

/// What an oracle run is to do.
pub struct OraclePlan {
    pub len: usize,
    pub output: String,
    pub selection: OracleSelection,
    pub expected: Option<String>,
    /// Whether the run says at its end where the report is.
    pub announces: bool,
}

/// The length of the chains that the options ask for; two where they do not say.
pub open spec fn asked_length(cli: Cli) -> usize {
    match cli.numops {
        Some(n) => n as usize,
        None => 2,
    }
}

/// Where the report goes; under the root where the options do not say.
pub open spec fn asked_output(cli: Cli, root: Seq<char>) -> Seq<char> {
    match cli@.oracle_output {
        Some(output) => output,
        None => joined_path(root, "oracle-report.bin"@),
    }
}

/// Whether `plan` says of everything but the selection what the options ask for.
pub open spec fn plan_follows(plan: OraclePlan, cli: Cli, root: Seq<char>) -> bool {
    &&& plan.len == asked_length(cli)
    &&& plan.output@ == asked_output(cli, root)
    &&& opt_text(plan.expected) == cli@.oracle_expected
    &&& plan.announces == (cli@.oracle_expected is None && cli@.oracle_output is None)
}

fn plan_of(cli: &Cli, root: &str, selection: OracleSelection) -> (plan: OraclePlan)
    ensures
        plan.selection == selection,
        plan_follows(plan, *cli, root@),
{
    let len: usize = match cli.numops {
        Some(n) => n as usize,
        None => 2,
    };
    let output = match &cli.oracle_output {
        Some(output) => output.clone(),
        None => join(root, "oracle-report.bin"),
    };
    OraclePlan {
        len,
        output,
        selection,
        expected: copy_opt(&cli.oracle_expected),
        announces: cli.oracle_expected.is_none() && cli.oracle_output.is_none(),
    }
}

/// Whether `r` is the plan of a run at `root` of the cases that are selected, or what is wrong
/// with the options.
pub open spec fn planned(
    r: Result<OraclePlan, String>,
    cli: Cli,
    root: Seq<char>,
    selected: Result<OracleSelection, Seq<char>>,
) -> bool {
    if asked_length(cli) == 0 {
        r matches Err(e) && e@ == "oracle sequence length must be greater than zero"@
    } else {
        match selected {
            Ok(selection) => r matches Ok(plan) && plan.selection == selection && plan_follows(
                plan,
                cli,
                root,
            ),
            Err(text) => r matches Err(e) && e@ == text,
        }
    }
}

fn no_length(cli: &Cli) -> (r: bool)
    ensures
        r == (asked_length(*cli) == 0),
{
    match cli.numops {
        Some(n) => n as usize == 0,
        None => false,
    }
}

/// The plan of a run at `root`, where `drawn` came of drawing the seed of a sample that is
/// asked for without one.
pub fn oracle_plan_with_drawn(cli: &Cli, root: &str, drawn: Result<u64, String>) -> (r: Result<
    OraclePlan,
    String,
>)
    ensures
        planned(r, *cli, root@, selection_drawn(*cli, by_text(drawn))),
{
    if no_length(cli) {
        return Err("oracle sequence length must be greater than zero".to_string());
    }
    match OracleSelection::from_cli_with_drawn(cli, drawn) {
        Ok(selection) => Ok(plan_of(cli, root, selection)),
        Err(e) => Err(e),
    }
}

/// The plan of a run at `root`. A sample without a seed gets one by chance, or none can be
/// drawn, which is an error.
pub fn oracle_plan(cli: &Cli, root: &str) -> (r: Result<OraclePlan, String>)
    ensures
        exists|drawn: Result<u64, Seq<char>>|
            planned(r, *cli, root@, #[trigger] selection_drawn(*cli, drawn)),
{
    if no_length(cli) {
        let r = Err("oracle sequence length must be greater than zero".to_string());
        assert(planned(r, *cli, root@, selection_drawn(*cli, Ok(0))));
        return r;
    }
    match OracleSelection::from_cli(cli) {
        Ok(selection) => Ok(plan_of(cli, root, selection)),
        Err(e) => Err(e),
    }
}

/// Something that a run says of itself.
pub struct OracleStatus {
    pub phase: String,
    pub message: String,
    pub expected: Option<String>,
    pub actual: Option<String>,
}

#[verifier::ext_equal]
pub struct StatusView {
    pub phase: Seq<char>,
    pub message: Seq<char>,
    pub expected: Option<Seq<char>>,
    pub actual: Option<Seq<char>>,
}

impl View for OracleStatus {
    type V = StatusView;

    open spec fn view(&self) -> StatusView {
        StatusView {
            phase: self.phase@,
            message: self.message@,
            expected: opt_text(self.expected),
            actual: opt_text(self.actual),
        }
    }
}

/// Said of a sample before it starts.
pub fn sampling_status(count: usize, seed: u64, output: &str) -> (s: OracleStatus)
    ensures
        s@ == (StatusView {
            phase: "sampling"@,
            message: "sample seed="@ + dec(seed as nat) + " count="@ + dec(count as nat),
            expected: None,
            actual: Some(output@),
        }),
{
    let mut message = "sample seed=".to_string();
    push_dec(&mut message, seed);
    message.append(" count=");
    push_dec(&mut message, count as u64);
    OracleStatus {
        phase: "sampling".to_string(),
        message,
        expected: None,
        actual: Some(output.to_string()),
    }
}

/// Said before a comparison: while the sample is run where `streamed`, else after the run.
pub fn verifying_status(streamed: bool, expected: &str, output: &str) -> (s: OracleStatus)
    ensures
        s@ == (StatusView {
            phase: "verifying"@,
            message: if streamed {
                "streaming sampled oracle from "@ + expected@ + " into "@ + output@
            } else {
                "verifying "@ + output@ + " against "@ + expected@
            },
            expected: Some(expected@),
            actual: Some(output@),
        }),
{
    let message = if streamed {
        "streaming sampled oracle from ".to_string().concat(expected).concat(" into ").concat(
            output,
        )
    } else {
        "verifying ".to_string().concat(output).concat(" against ").concat(expected)
    };
    OracleStatus {
        phase: "verifying".to_string(),
        message,
        expected: Some(expected.to_string()),
        actual: Some(output.to_string()),
    }
}

/// Said after a comparison that found nothing.
pub fn verified_status(streamed: bool, expected: &str, output: &str) -> (s: OracleStatus)
    ensures
        s@ == (StatusView {
            phase: "verified"@,
            message: if streamed {
                "sampled oracle verified against "@ + expected@
            } else {
                "verified against "@ + expected@
            },
            expected: Some(expected@),
            actual: Some(output@),
        }),
{
    let message = if streamed {
        "sampled oracle verified against ".to_string().concat(expected)
    } else {
        "verified against ".to_string().concat(expected)
    };
    OracleStatus {
        phase: "verified".to_string(),
        message,
        expected: Some(expected.to_string()),
        actual: Some(output.to_string()),
    }
}

/// A line of progress while chains are counted.
pub fn counting_line(line: &str) -> (s: String)
    ensures
        s@ == "counting chains "@ + line@,
{
    "counting chains ".to_string().concat(line)
}

/// A line of progress while an expected report is scanned for a sample.
pub fn sample_scan_line(line: &str, selected_count: usize, target_count: usize) -> (s: String)
    ensures
        s@ == "sample scan "@ + line@ + " selected="@ + dec(selected_count as nat) + " target="@
            + dec(target_count as nat),
{
    let mut s = "sample scan ".to_string().concat(line).concat(" selected=");
    push_dec(&mut s, selected_count as u64);
    s.append(" target=");
    push_dec(&mut s, target_count as u64);
    s
}

/// A line of progress while an expected report is read for a comparison.
pub fn verify_line(line: &str, found_cases: usize, wanted_cases: usize) -> (s: String)
    ensures
        s@ == "verify "@ + line@ + " selected="@ + dec(found_cases as nat) + "/"@ + dec(
            wanted_cases as nat,
        ),
{
    let mut s = "verify ".to_string().concat(line).concat(" selected=");
    push_dec(&mut s, found_cases as u64);
    s.append("/");
    push_dec(&mut s, wanted_cases as u64);
    s
}

/// One part of an oracle run.
pub enum Phase {
    /// Say this.
    Say { status: OracleStatus },
    /// Run the sample while the expected report is scanned, comparing as it goes.
    Stream { count: usize, seed: u64, expected: String },
    /// Run the selected cases of the suite.
    Suite,
    /// Compare the report with the expected one.
    Compare { expected: String },
    /// Print this line.
    Announce { line: String },
}

pub enum PhaseView {
    Say { status: StatusView },
    Stream { count: usize, seed: u64, expected: Seq<char> },
    Suite,
    Compare { expected: Seq<char> },
    Announce { line: Seq<char> },
}

impl View for Phase {
    type V = PhaseView;

    open spec fn view(&self) -> PhaseView {
        match *self {
            Phase::Say { status } => PhaseView::Say { status: status@ },
            Phase::Stream { count, seed, expected } => PhaseView::Stream {
                count,
                seed,
                expected: expected@,
            },
            Phase::Suite => PhaseView::Suite,
            Phase::Compare { expected } => PhaseView::Compare { expected: expected@ },
            Phase::Announce { line } => PhaseView::Announce { line: line@ },
        }
    }
}

pub open spec fn phase_views(phases: Seq<Phase>) -> Seq<PhaseView> {
    phases.map_values(|p: Phase| p@)
}

pub open spec fn said(
    phase: Seq<char>,
    message: Seq<char>,
    expected: Option<Seq<char>>,
    actual: Seq<char>,
) -> PhaseView {
    PhaseView::Say { status: StatusView { phase, message, expected, actual: Some(actual) } }
}

/// The parts of a run that comes to its end, in order.
pub open spec fn phases_of(plan: OraclePlan) -> Seq<PhaseView> {
    let output = plan.output@;
    match (plan.selection, opt_text(plan.expected)) {
        (OracleSelection::Sample { count, seed }, Some(expected)) => seq![
            said(
                "sampling"@,
                "sample seed="@ + dec(seed as nat) + " count="@ + dec(count as nat),
                None,
                output,
            ),
            said(
                "verifying"@,
                "streaming sampled oracle from "@ + expected + " into "@ + output,
                Some(expected),
                output,
            ),
            PhaseView::Stream { count, seed, expected },
            said(
                "verified"@,
                "sampled oracle verified against "@ + expected,
                Some(expected),
                output,
            ),
        ],
        (OracleSelection::Sample { count, seed }, None) => seq![
            said(
                "sampling"@,
                "sample seed="@ + dec(seed as nat) + " count="@ + dec(count as nat),
                None,
                output,
            ),
            PhaseView::Suite,
        ] + announcement(plan),
        (OracleSelection::Exhaustive(_), Some(expected)) => seq![
            PhaseView::Suite,
            said(
                "verifying"@,
                "verifying "@ + output + " against "@ + expected,
                Some(expected),
                output,
            ),
            PhaseView::Compare { expected },
            said("verified"@, "verified against "@ + expected, Some(expected), output),
        ],
        (OracleSelection::Exhaustive(_), None) => seq![PhaseView::Suite] + announcement(plan),
    }
}

pub open spec fn announcement(plan: OraclePlan) -> Seq<PhaseView> {
    if plan.announces {
        seq![PhaseView::Announce { line: "oracle report written to "@ + plan.output@ }]
    } else {
        Seq::empty()
    }
}

/// The parts of a run, in order. Where one fails the run ends with its error.
pub fn run_phases(plan: &OraclePlan) -> (phases: Vec<Phase>)
    ensures
        phase_views(phases@) == phases_of(*plan),
{
    let mut phases: Vec<Phase> = Vec::new();
    if let OracleSelection::Sample { count, seed } = plan.selection {
        phases.push(
            Phase::Say { status: sampling_status(count, seed, plan.output.as_str()) },
        );
        if let Some(expected) = &plan.expected {
            phases.push(
                Phase::Say {
                    status: verifying_status(true, expected.as_str(), plan.output.as_str()),
                },
            );
            phases.push(Phase::Stream { count, seed, expected: expected.clone() });
            phases.push(
                Phase::Say {
                    status: verified_status(true, expected.as_str(), plan.output.as_str()),
                },
            );
            assert(phase_views(phases@) =~= phases_of(*plan));
            return phases;
        }
    }
    phases.push(Phase::Suite);
    match &plan.expected {
        Some(expected) => {
            phases.push(
                Phase::Say {
                    status: verifying_status(false, expected.as_str(), plan.output.as_str()),
                },
            );
            phases.push(Phase::Compare { expected: expected.clone() });
            phases.push(
                Phase::Say {
                    status: verified_status(false, expected.as_str(), plan.output.as_str()),
                },
            );
        },
        None => {
            if plan.announces {
                let line = "oracle report written to ".to_string().concat(plan.output.as_str());
                phases.push(Phase::Announce { line });
            }
        },
    }
    assert(phase_views(phases@) =~= phases_of(*plan));
    phases
}

} // verus!
