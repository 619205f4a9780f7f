//! Manifests: what files held when a run ended, for a later look at them.

use vstd::prelude::*;
use vstd::string::*;

use crate::coordinator::{broad_root, prepare_run_root};
use crate::expected::{hash_of, stable_hash};
use crate::numbers::{lemma_within, number_of, parse_number};
use crate::paths::{join, joined_path};
use crate::scenario::RunConfig;
use crate::strings::{lines, lines_of};
use crate::text::{dec, pieces, push_dec, same_text, split_text, texts};
use crate::world::{failed, run_view, RunError, RunErrorView};

verus! {

/// What a line of a manifest says of a file.
pub struct ManifestEntry {
    pub path: String,
    pub len: usize,
    pub hash: u64,
}

#[verifier::ext_equal]
pub struct EntryView {
    pub path: Seq<char>,
    pub len: nat,
    pub hash: nat,
}

impl View for ManifestEntry {
    type V = EntryView;

    open spec fn view(&self) -> EntryView {
        EntryView { path: self.path@, len: self.len as nat, hash: self.hash as nat }
    }
}

pub open spec fn wrong_manifest(message: Seq<char>) -> RunErrorView {
    failed("wrong-bytes"@, message)
}

/// The entry in line `lineno` of a manifest, counted from zero.
pub open spec fn entry_in(root: Seq<char>, lineno: nat, line: Seq<char>) -> Result<
    EntryView,
    RunErrorView,
> {
    let parts = pieces(line, '\t');
    if parts.len() != 3 {
        Err(wrong_manifest("invalid manifest line "@ + dec(lineno + 1)))
    } else {
        match number_of(parts[1], 10, usize::MAX as nat) {
            Err(e) => Err(wrong_manifest("invalid manifest length: "@ + e.message())),
            Ok(len) => match number_of(parts[2], 16, u64::MAX as nat) {
                Err(e) => Err(wrong_manifest("invalid manifest hash: "@ + e.message())),
                Ok(hash) => Ok(EntryView { path: joined_path(root, parts[0]), len, hash }),
            },
        }
    }
}

pub open spec fn entry_view(r: Result<ManifestEntry, RunError>) -> Result<EntryView, RunErrorView> {
    match r {
        Ok(entry) => Ok(entry@),
        Err(e) => Err(e@),
    }
}

pub fn parse_manifest_line(root: &str, lineno: usize, line: &str) -> (r: Result<
    ManifestEntry,
    RunError,
>)
    requires
        lineno < usize::MAX,
    ensures
        entry_view(r) == entry_in(root@, lineno as nat, line@),
{
    let parts = split_text(line, '\t');
    if parts.len() != 3 {
        let mut s = "invalid manifest line ".to_string();
        push_dec(&mut s, lineno as u64 + 1);
        return Err(RunError::new("wrong-bytes", s));
    }
    proof {
        assert(texts(parts@)[0] == parts@[0]@);
        assert(texts(parts@)[1] == parts@[1]@);
        assert(texts(parts@)[2] == parts@[2]@);
    }
    let len: u64 = match parse_number(parts[1].as_str(), 10, usize::MAX as u64) {
        Ok(len) => len,
        Err(e) => {
            let s = "invalid manifest length: ".to_string().concat(e.text());
            return Err(RunError::new("wrong-bytes", s));
        },
    };
    let hash: u64 = match parse_number(parts[2].as_str(), 16, u64::MAX) {
        Ok(hash) => hash,
        Err(e) => {
            let s = "invalid manifest hash: ".to_string().concat(e.text());
            return Err(RunError::new("wrong-bytes", s));
        },
    };
    proof {
        lemma_within(parts@[1]@, 10, usize::MAX as nat);
    }
    Ok(ManifestEntry { path: join(root, parts[0].as_str()), len: len as usize, hash })
}

/// How long a file is and what its bytes hash to, or why it could not be read.
pub type FoundFile = Result<(usize, u64), String>;

/// The verdict on a file that a manifest names.
pub open spec fn entry_verdict(entry: EntryView, found: FoundFile) -> Result<(), RunErrorView> {
    match found {
        Err(e) => Err(failed("missing-file"@, "failed to read "@ + entry.path + ": "@ + e@)),
        Ok((len, hash)) => if len != entry.len || hash != entry.hash {
            Err(wrong_manifest("manifest mismatch for "@ + entry.path))
        } else {
            Ok(())
        },
    }
}

pub fn check_entry(entry: &ManifestEntry, found: &FoundFile) -> (r: Result<(), RunError>)
    ensures
        run_view(r) == entry_verdict(entry@, *found),
{
    match found {
        Err(e) => {
            let s = "failed to read ".to_string().concat(entry.path.as_str()).concat(": ").concat(
                e.as_str(),
            );
            Err(RunError::new("missing-file", s))
        },
        Ok((len, hash)) => if *len != entry.len || *hash != entry.hash {
            let s = "manifest mismatch for ".to_string().concat(entry.path.as_str());
            Err(RunError::new("wrong-bytes", s))
        } else {
            Ok(())
        },
    }
}

/// The length of a file's bytes and their hash.
pub fn found_file(data: &[u8]) -> (r: (usize, u64))
    ensures
        r.0 == data@.len(),
        hash_of(data@, r.1),
{
    (data.len(), stable_hash(data))
}

/// The verdict on the lines of a manifest from `i` on, each with what was found of its file.
pub open spec fn lines_verdict(
    root: Seq<char>,
    all: Seq<Seq<char>>,
    found: Seq<FoundFile>,
    i: nat,
) -> Result<(), RunErrorView>
    decreases all.len() - i,
{
    if i >= all.len() {
        Ok(())
    } else {
        match entry_in(root, i, all[i as int]) {
            Err(e) => Err(e),
            Ok(entry) => match entry_verdict(entry, found[i as int]) {
                Err(e) => Err(e),
                Ok(_) => lines_verdict(root, all, found, i + 1),
            },
        }
    }
}

/// Judges files by their manifest. There is one file found for each line; where a line is
/// wrong, it does not matter which.
pub fn verify_manifest(root: &str, text: &str, found: &Vec<FoundFile>) -> (r: Result<(), RunError>)
    requires
        found@.len() == lines_of(text@).len(),
    ensures
        run_view(r) == lines_verdict(root@, lines_of(text@), found@, 0),
{
    let all = lines(text);
    let ghost views = texts(all@);
    let total: usize = all.len();
    let mut i: usize = 0;
    while i < total
        invariant
            total == all@.len(),
            views == texts(all@),
            views == lines_of(text@),
            total == found@.len(),
            i <= total,
            lines_verdict(root@, views, found@, 0) == lines_verdict(root@, views, found@, i as nat),
        decreases total - i,
    {
        assert(views[i as int] == all@[i as int]@);
        let entry = match parse_manifest_line(root, i, all[i].as_str()) {
            Ok(entry) => entry,
            Err(e) => {
                return Err(e);
            },
        };
        if let Err(e) = check_entry(&entry, &found[i]) {
            return Err(e);
        }
        i = i + 1;
    }
    Ok(())
}

/// The manifest that a verification reads.
pub fn manifest_to_verify(cfg: &RunConfig) -> (r: Result<String, RunError>)
    ensures
        match r {
            Ok(path) => cfg.manifest matches Some(m) && m@ == path@,
            Err(e) => cfg.manifest is None && e@ == failed(
                "missing-file"@,
                "verify-manifest requires --manifest"@,
            ),
        },
{
    match &cfg.manifest {
        Some(path) => Ok(path.clone()),
        None => Err(
            RunError::new("missing-file", "verify-manifest requires --manifest".to_string()),
        ),
    }
}

/// What a run does first.
pub enum RunStart {
    /// It checks the files that an earlier run left against this manifest, and is over.
    VerifyManifest { manifest: String },
    /// It clears its root for a scenario.
    Clear,
}

/// How a run starts. Only a scenario clears the root: a manifest is verified on the files as
/// they were left.
pub fn run_start(cfg: &RunConfig) -> (r: Result<RunStart, RunError>)
    ensures
        match r {
            Ok(RunStart::VerifyManifest { manifest }) => {
                &&& cfg.scenario@ == "verify-manifest"@
                &&& cfg.manifest matches Some(m) && m@ == manifest@
            },
            Ok(RunStart::Clear) => cfg.scenario@ != "verify-manifest"@ && !broad_root(cfg.root@),
            Err(e) => if cfg.scenario@ == "verify-manifest"@ {
                &&& cfg.manifest is None
                &&& e@ == failed("missing-file"@, "verify-manifest requires --manifest"@)
            } else {
                &&& broad_root(cfg.root@)
                &&& e@ == failed(
                    "syscall-error"@,
                    "refusing to clean broad run root "@ + cfg.root@
                        + "; pass a child directory instead"@,
                )
            },
        },
{
    if same_text(cfg.scenario.as_str(), "verify-manifest") {
        match manifest_to_verify(cfg) {
            Ok(manifest) => Ok(RunStart::VerifyManifest { manifest }),
            Err(e) => Err(e),
        }
    } else {
        match prepare_run_root(cfg.root.as_str()) {
            Ok(()) => Ok(RunStart::Clear),
            Err(e) => Err(e),
        }
    }
}

} // verus!
