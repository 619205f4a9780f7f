//! A run of one exerciser per worker, each in a directory of its own.

use vstd::prelude::*;
use vstd::string::*;

use crate::cli::{Cli, CliView};
use crate::paths::{file_name, is_absolute_path, join, joined_path, last_name, parent, parent_of};
use crate::text::{dec, lemma_dec_digits, lemma_dec_injective, push_dec, texts};

verus! {

/// The number of workers: the one asked for, or else as many as the machine runs at once.
pub fn worker_count(cli: &Cli, available: Option<usize>) -> (n: usize)
    ensures
        n == match cli.threads {
            Some(n) => n,
            None => match available {
                Some(n) => n,
                None => 1,
            },
        },
{
    match cli.threads {
        Some(n) => n,
        None => match available {
            Some(n) => n,
            None => 1,
        },
    }
}

/// The name of a worker's directory.
pub open spec fn thread_name(thread_num: usize) -> Seq<char> {
    "thread-"@ + dec(thread_num as nat)
}

/// The directory that holds the workers' directories.
pub open spec fn base_dir(fname: Seq<char>) -> Seq<char> {
    match parent_of(fname) {
        Some(dir) => if dir.len() > 0 {
            dir
        } else {
            "."@
        },
        None => "."@,
    }
}

/// The directory of a worker.
pub open spec fn thread_dir(fname: Seq<char>, thread_num: usize) -> Seq<char> {
    joined_path(base_dir(fname), thread_name(thread_num))
}

/// The options of a worker.
pub open spec fn thread_cli(cli: CliView, thread_num: usize) -> CliView {
    let fname = cli.fname->0;
    CliView {
        fname: Some(
            joined_path(
                thread_dir(fname, thread_num),
                match last_name(fname) {
                    Some(name) => name,
                    None => "fsxfile"@,
                },
            ),
        ),
        seed: match cli.seed {
            Some(seed) => Some(((seed + thread_num - 1) % 0x1_0000_0000_0000_0000) as u64),
            None => None,
        },
        artifacts_dir: match cli.artifacts_dir {
            Some(dir) => Some(joined_path(dir, thread_name(thread_num))),
            None => None,
        },
        ..cli
    }
}

/// The directories that a worker needs.
pub open spec fn thread_dirs(cli: CliView, thread_num: usize) -> Seq<Seq<char>> {
    let own = seq![thread_dir(cli.fname->0, thread_num)];
    match cli.artifacts_dir {
        Some(dir) => own.push(joined_path(dir, thread_name(thread_num))),
        None => own,
    }
}

/// What a worker works on: its options, and the directories to make before.
pub struct ThreadTarget {
    pub cli: Cli,
    pub dirs: Vec<String>,
}

pub open spec fn target_view(r: Result<ThreadTarget, String>) -> Result<
    (CliView, Seq<Seq<char>>),
    Seq<char>,
> {
    match r {
        Ok(target) => Ok((target.cli@, texts(target.dirs@))),
        Err(e) => Err(e@),
    }
}

/// The target of the worker `thread_num`, counted from one.
pub fn thread_target(cli: &Cli, thread_num: usize) -> (r: Result<ThreadTarget, String>)
    requires
        thread_num >= 1,
    ensures
        target_view(r) == if cli@.fname is Some {
            Ok((thread_cli(cli@, thread_num), thread_dirs(cli@, thread_num)))
        } else {
            Err("file name is required"@)
        },
{
    let fname = match &cli.fname {
        Some(fname) => fname.clone(),
        None => {
            return Err("file name is required".to_string());
        },
    };
    let mut dir_name = "thread-".to_string();
    push_dec(&mut dir_name, thread_num as u64);
    let base = match parent(fname.as_str()) {
        Some(dir) => if dir.as_str().unicode_len() > 0 {
            dir
        } else {
            ".".to_string()
        },
        None => ".".to_string(),
    };
    let name = match file_name(fname.as_str()) {
        Some(name) => name,
        None => "fsxfile".to_string(),
    };
    let dir = join(base.as_str(), dir_name.as_str());
    let mut out = cli.clone();
    out.fname = Some(join(dir.as_str(), name.as_str()));
    if let Some(seed) = cli.seed {
        out.seed = Some(seed.wrapping_add(thread_num as u64 - 1));
    }
    let mut dirs: Vec<String> = Vec::new();
    dirs.push(dir);
    if let Some(artifacts) = &cli.artifacts_dir {
        let artifacts_dir = join(artifacts.as_str(), dir_name.as_str());
        dirs.push(artifacts_dir.clone());
        out.artifacts_dir = Some(artifacts_dir);
    }
    assert(texts(dirs@) =~= thread_dirs(cli@, thread_num));
    assert(out@ =~= thread_cli(cli@, thread_num));
    Ok(ThreadTarget { cli: out, dirs })
}

/// The text of a panic, where it has one.
pub fn panic_message(message: Option<String>) -> (s: String)
    ensures
        s@ == match message {
            Some(message) => message@,
            None => "unknown panic"@,
        },
{
    match message {
        Some(message) => message,
        None => "unknown panic".to_string(),
    }
}

/// How a worker came to its end.
pub enum WorkerEnd {
    Finished,
    Failed(String),
    Panicked(Option<String>),
}

/// What a worker that did not finish says.
pub open spec fn complaint(end: WorkerEnd) -> Option<Seq<char>> {
    match end {
        WorkerEnd::Finished => None,
        WorkerEnd::Failed(text) => Some(text@),
        WorkerEnd::Panicked(Some(text)) => Some(text@),
        WorkerEnd::Panicked(None) => Some("unknown panic"@),
    }
}

/// The first complaint among the workers from `i` on, with the worker's name where there
/// are several.
pub open spec fn run_verdict(ends: Seq<WorkerEnd>, i: nat) -> Result<(), Seq<char>>
    decreases ends.len() - i,
{
    if i >= ends.len() {
        Ok(())
    } else {
        match complaint(ends[i as int]) {
            None => run_verdict(ends, i + 1),
            Some(text) => if ends.len() == 1 {
                Err(text)
            } else {
                Err("thread-"@ + dec(i + 1) + " failed: "@ + text)
            },
        }
    }
}

/// The outcome of a run from the ends of its workers, in order.
pub fn run_workers(ends: &Vec<WorkerEnd>) -> (r: Result<(), String>)
    ensures
        crate::compare::verdict_text(r) == run_verdict(ends@, 0),
{
    let total: usize = ends.len();
    let mut i: usize = 0;
    while i < total
        invariant
            total == ends@.len(),
            i <= total,
            run_verdict(ends@, 0) == run_verdict(ends@, i as nat),
        decreases total - i,
    {
        let text = match &ends[i] {
            WorkerEnd::Finished => None,
            WorkerEnd::Failed(text) => Some(text.clone()),
            WorkerEnd::Panicked(Some(text)) => Some(panic_message(Some(text.clone()))),
            WorkerEnd::Panicked(None) => Some(panic_message(None)),
        };
        if let Some(text) = text {
            if total == 1 {
                return Err(text);
            }
            let mut s = "thread-".to_string();
            push_dec(&mut s, i as u64 + 1);
            s.append(" failed: ");
            s.append(text.as_str());
            return Err(s);
        }
        i = i + 1;
    }
    Ok(())
}

/// What is said of a worker whose directories could not be made or that could not start.
pub fn start_failure(prepared: bool, thread_num: usize, error: &str) -> (s: String)
    ensures
        s@ == (if prepared {
            "failed to spawn thread-"@
        } else {
            "failed to prepare thread-"@
        }) + dec(thread_num as nat) + ": "@ + error@,
{
    let mut s = if prepared {
        "failed to spawn thread-".to_string()
    } else {
        "failed to prepare thread-".to_string()
    };
    push_dec(&mut s, thread_num as u64);
    s.append(": ");
    s.concat(error)
}

/// Workers are isolated: no path under the directory of one is under that of another.
pub proof fn law_workers_are_isolated(
    fname: Seq<char>,
    n: usize,
    m: usize,
    below_n: Seq<char>,
    below_m: Seq<char>,
)
    requires
        n != m,
    ensures
        thread_dir(fname, n) + "/"@ + below_n != thread_dir(fname, m) + "/"@ + below_m,
{
    reveal_strlit("thread-");
    reveal_strlit("/");
    let base = base_dir(fname);
    let (a, b) = (dec(n as nat), dec(m as nat));
    lemma_dec_digits(n as nat);
    lemma_dec_digits(m as nat);
    let left = thread_dir(fname, n) + "/"@ + below_n;
    let right = thread_dir(fname, m) + "/"@ + below_m;
    assert(!is_absolute_path(thread_name(n)));
    assert(!is_absolute_path(thread_name(m)));
    let front = if base.len() == 0 {
        "thread-"@
    } else if base.last() == '/' {
        base + "thread-"@
    } else {
        base + "/"@ + "thread-"@
    };
    assert(left =~= front + a + "/"@ + below_n);
    assert(right =~= front + b + "/"@ + below_m);
    if left == right {
        if a.len() < b.len() {
            assert(left[front.len() + a.len() as int] == '/');
            assert(right[front.len() + a.len() as int] == b[a.len() as int]);
        } else if b.len() < a.len() {
            assert(right[front.len() + b.len() as int] == '/');
            assert(left[front.len() + b.len() as int] == a[b.len() as int]);
        } else {
            assert forall|i: int| 0 <= i < a.len() implies a[i] == b[i] by {
                assert(left[front.len() + i] == a[i]);
                assert(right[front.len() + i] == b[i]);
            }
            assert(a =~= b);
            lemma_dec_injective(n as nat, m as nat);
        }
    }
}

/// Workers of a run with a seed have seeds of their own.
pub proof fn law_workers_have_own_seeds(cli: CliView, n: usize, m: usize)
    requires
        cli.fname is Some,
        cli.seed is Some,
        n >= 1,
        m >= 1,
        n != m,
    ensures
        thread_cli(cli, n).seed != thread_cli(cli, m).seed,
{
}

} // verus!
