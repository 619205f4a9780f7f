//! The options of a run, as plain values.

use vstd::prelude::*;
use vstd::string::*;

use crate::numbers::{number_of, parse_number};
use crate::text::{pieces, split_text, texts};

verus! {

pub struct Cli {
    /// Beginning operation number, at least one.
    pub opnum: u64,
    /// Config file path.
    pub config: Option<String>,
    /// Byte range to monitor.
    pub monitor: Option<(u64, u64)>,
    /// Total number of operations, or the length of oracle chains.
    pub numops: Option<u64>,
    /// Directory for artifacts.
    pub artifacts_dir: Option<String>,
    /// Seed of the random generator.
    pub seed: Option<u64>,
    /// Worker threads, at least one.
    pub threads: Option<usize>,
    /// Whether to serve HTTP, and on which port.
    pub server: Option<Option<u16>>,
    /// Whether to run the coordinated scenarios.
    pub orchestrated: bool,
    /// Whether to run the oracle.
    pub oracle: bool,
    /// Directory into which to generate fixtures.
    pub oracle_prepare_fixtures: Option<String>,
    /// Directory of the fixtures.
    pub oracle_fixtures: Option<String>,
    /// Path of the oracle's report.
    pub oracle_output: Option<String>,
    /// Path of the report to compare with.
    pub oracle_expected: Option<String>,
    /// First case to run, counted from one.
    pub oracle_case_start: Option<usize>,
    /// Number of cases to run.
    pub oracle_case_count: Option<usize>,
    /// Number of cases to sample.
    pub oracle_sample_count: Option<usize>,
    /// Two reports whose files are to be verified.
    pub oracle_verify_files: Option<Vec<String>>,
    /// Whether to print the catalog.
    pub oracle_catalog: bool,
    /// Whether to print the catalog's key.
    pub oracle_catalog_key: bool,
    /// Whether to print the catalog's operations.
    pub oracle_catalog_syscalls: bool,
    /// Coordinated scenario.
    pub scenario: String,
    /// Files of a scenario, at least one.
    pub files: usize,
    /// Handles of each worker, at least one.
    pub handles: usize,
    /// Commands released together, at least one.
    pub parallelism: usize,
    /// Steps between fresh verifications, at least one.
    pub verify_every: Option<u64>,
    /// Path of the manifest.
    pub manifest: Option<String>,
    /// The file or directory to work on.
    pub fname: Option<String>,
    /// Step on which to inject an error.
    pub inject: Option<u64>,
}

/// The options, with every text by its characters.
#[verifier::ext_equal]
pub struct CliView {
    pub opnum: u64,
    pub config: Option<Seq<char>>,
    pub monitor: Option<(u64, u64)>,
    pub numops: Option<u64>,
    pub artifacts_dir: Option<Seq<char>>,
    pub seed: Option<u64>,
    pub threads: Option<usize>,
    pub server: Option<Option<u16>>,
    pub orchestrated: bool,
    pub oracle: bool,
    pub oracle_prepare_fixtures: Option<Seq<char>>,
    pub oracle_fixtures: Option<Seq<char>>,
    pub oracle_output: Option<Seq<char>>,
    pub oracle_expected: Option<Seq<char>>,
    pub oracle_case_start: Option<usize>,
    pub oracle_case_count: Option<usize>,
    pub oracle_sample_count: Option<usize>,
    pub oracle_verify_files: Option<Seq<Seq<char>>>,
    pub oracle_catalog: bool,
    pub oracle_catalog_key: bool,
    pub oracle_catalog_syscalls: bool,
    pub scenario: Seq<char>,
    pub files: usize,
    pub handles: usize,
    pub parallelism: usize,
    pub verify_every: Option<u64>,
    pub manifest: Option<Seq<char>>,
    pub fname: Option<Seq<char>>,
    pub inject: Option<u64>,
}

/// An optional text by its characters.
pub open spec fn opt_text(s: Option<String>) -> Option<Seq<char>> {
    match s {
        Some(s) => Some(s@),
        None => None,
    }
}

pub fn copy_opt(s: &Option<String>) -> (r: Option<String>)
    ensures
        opt_text(r) == opt_text(*s),
{
    match s {
        Some(s) => Some(s.clone()),
        None => None,
    }
}

fn copy_texts(v: &Vec<String>) -> (r: Vec<String>)
    ensures
        texts(r@) == texts(v@),
{
    let mut r: Vec<String> = Vec::new();
    let mut i: usize = 0;
    while i < v.len()
        invariant
            i <= v@.len(),
            texts(r@) =~= texts(v@).take(i as int),
        decreases v@.len() - i,
    {
        let ghost before = texts(r@);
        r.push(v[i].clone());
        assert(texts(r@) =~= before.push(v@[i as int]@));
        assert(texts(v@).take(i as int + 1) =~= texts(v@).take(i as int).push(v@[i as int]@));
        i = i + 1;
    }
    assert(texts(r@) =~= texts(v@));
    r
}

impl View for Cli {
    type V = CliView;

    open spec fn view(&self) -> CliView {
        CliView {
            opnum: self.opnum,
            config: opt_text(self.config),
            monitor: self.monitor,
            numops: self.numops,
            artifacts_dir: opt_text(self.artifacts_dir),
            seed: self.seed,
            threads: self.threads,
            server: self.server,
            orchestrated: self.orchestrated,
            oracle: self.oracle,
            oracle_prepare_fixtures: opt_text(self.oracle_prepare_fixtures),
            oracle_fixtures: opt_text(self.oracle_fixtures),
            oracle_output: opt_text(self.oracle_output),
            oracle_expected: opt_text(self.oracle_expected),
            oracle_case_start: self.oracle_case_start,
            oracle_case_count: self.oracle_case_count,
            oracle_sample_count: self.oracle_sample_count,
            oracle_verify_files: match self.oracle_verify_files {
                Some(v) => Some(texts(v@)),
                None => None,
            },
            oracle_catalog: self.oracle_catalog,
            oracle_catalog_key: self.oracle_catalog_key,
            oracle_catalog_syscalls: self.oracle_catalog_syscalls,
            scenario: self.scenario@,
            files: self.files,
            handles: self.handles,
            parallelism: self.parallelism,
            verify_every: self.verify_every,
            manifest: opt_text(self.manifest),
            fname: opt_text(self.fname),
            inject: self.inject,
        }
    }
}

impl Clone for Cli {
    fn clone(&self) -> (r: Self)
        ensures
            r@ == self@,
    {
        let oracle_verify_files = match &self.oracle_verify_files {
            Some(v) => Some(copy_texts(v)),
            None => None,
        };
        let r = Cli {
            opnum: self.opnum,
            config: copy_opt(&self.config),
            monitor: self.monitor,
            numops: self.numops,
            artifacts_dir: copy_opt(&self.artifacts_dir),
            seed: self.seed,
            threads: self.threads,
            server: self.server,
            orchestrated: self.orchestrated,
            oracle: self.oracle,
            oracle_prepare_fixtures: copy_opt(&self.oracle_prepare_fixtures),
            oracle_fixtures: copy_opt(&self.oracle_fixtures),
            oracle_output: copy_opt(&self.oracle_output),
            oracle_expected: copy_opt(&self.oracle_expected),
            oracle_case_start: self.oracle_case_start,
            oracle_case_count: self.oracle_case_count,
            oracle_sample_count: self.oracle_sample_count,
            oracle_verify_files,
            oracle_catalog: self.oracle_catalog,
            oracle_catalog_key: self.oracle_catalog_key,
            oracle_catalog_syscalls: self.oracle_catalog_syscalls,
            scenario: self.scenario.clone(),
            files: self.files,
            handles: self.handles,
            parallelism: self.parallelism,
            verify_every: self.verify_every,
            manifest: copy_opt(&self.manifest),
            fname: copy_opt(&self.fname),
            inject: self.inject,
        };
        assert(r@ =~= self@);
        r
    }
}

/// The byte range that a text like `FROM:TO` names, or what is wrong with it.
pub open spec fn monitor_of(s: Seq<char>) -> Result<(u64, u64), Seq<char>> {
    let fields = pieces(s, ':');
    if fields.len() != 2 {
        Err("-m argument must contain exactly one ':'"@)
    } else {
        match (
            number_of(fields[0], 10, u64::MAX as nat),
            number_of(fields[1], 10, u64::MAX as nat),
        ) {
            (Ok(start), Ok(end)) => Ok((start as u64, end as u64)),
            _ => Err("-m arguments must be numeric"@),
        }
    }
}

pub fn parse_monitor(s: &str) -> (r: Result<(u64, u64), String>)
    ensures
        (match r {
            Ok(range) => Ok::<(u64, u64), Seq<char>>(range),
            Err(e) => Err(e@),
        }) == monitor_of(s@),
{
    let fields = split_text(s, ':');
    if fields.len() != 2 {
        return Err("-m argument must contain exactly one ':'".to_string());
    }
    assert(texts(fields@)[0] == fields@[0]@);
    assert(texts(fields@)[1] == fields@[1]@);
    let start = parse_number(fields[0].as_str(), 10, u64::MAX);
    let end = parse_number(fields[1].as_str(), 10, u64::MAX);
    match (start, end) {
        (Ok(start), Ok(end)) => Ok((start, end)),
        _ => Err("-m arguments must be numeric".to_string()),
    }
}

} // verus!
