//! The catalog's texts: its signature, its key and its report.

use vstd::prelude::*;
use vstd::string::*;
use vstd::utf8::*;

use crate::hash::{fnv, stable_hash};
use crate::ops::{
    catalog, op_catalog, FileId, Op, OpSpec, FD_SLOTS, FILES, SNAPSHOT_FILES, STDERR_MARKER_LEN, WORKERS,
};
use crate::report::REPORT_VERSION;
use crate::schedule::{concrete_ops, expansions, REQUIRE_MUTATION};
use crate::text::{
    bool_str, bool_text, dec, hex, join_texts, joined, pad_left, push_dec, push_hex_padded, texts,
};

verus! {

pub const NORMALIZATION_VERSION: u32 = 4;

pub const ERROR_NORMALIZATION_VERSION: u32 = 1;

/// The name of a file, with its tag.
pub open spec fn tagged_name(file: FileId) -> Seq<char> {
    file.name_text() + ":"@ + dec(file.tag_value() as nat)
}

pub open spec fn tagged_names(files: Seq<FileId>) -> Seq<Seq<char>> {
    files.map_values(|f: FileId| tagged_name(f))
}

pub open spec fn plain_names(files: Seq<FileId>) -> Seq<Seq<char>> {
    files.map_values(|f: FileId| f.name_text())
}

pub open spec fn spec_names(specs: Seq<OpSpec>) -> Seq<Seq<char>> {
    specs.map_values(|s: OpSpec| s.name_text())
}

/// Each text behind `front` and before a line feed, one after the other.
pub open spec fn line_block(front: Seq<char>, lines: Seq<Seq<char>>) -> Seq<char>
    decreases lines.len(),
{
    if lines.len() == 0 {
        Seq::empty()
    } else {
        line_block(front, lines.drop_last()) + front + lines.last() + "\n"@
    }
}

pub open spec fn op_texts(ops: Seq<Op>) -> Seq<Seq<char>> {
    ops.map_values(|op: Op| op.text())
}

/// The lines with which the signature and the report both begin.
pub open spec fn settings_text() -> Seq<char> {
    "report_version="@ + dec(REPORT_VERSION as nat) + "\nworkers="@ + dec(WORKERS as nat)
        + "\nfd_slots="@ + dec(FD_SLOTS as nat) + "\nrequire_mutation="@ + bool_text(
        REQUIRE_MUTATION,
    ) + "\nnormalization_version="@ + dec(NORMALIZATION_VERSION as nat)
        + "\nerror_normalization_version="@ + dec(ERROR_NORMALIZATION_VERSION as nat) + "\n"@
}

/// What reports must agree on to be comparable.
pub open spec fn signature_text() -> Seq<char> {
    settings_text() + "stderr_marker_len="@ + dec(STDERR_MARKER_LEN as nat) + "\nfiles="@ + joined(
        tagged_names(FILES@),
        ","@,
    ) + "\nsnapshots="@ + joined(tagged_names(SNAPSHOT_FILES@), ","@) + "\nop_catalog:\n"@
        + line_block(Seq::empty(), spec_names(catalog())) + "concrete_ops:\n"@ + line_block(
        Seq::empty(),
        op_texts(expansions(catalog())),
    )
}

/// The hash of the signature, in sixteen hexadecimal digits.
pub open spec fn key_text() -> Seq<char> {
    pad_left(hex(fnv(encode_utf8(signature_text())) as nat), 16, '0')
}

pub open spec fn syscalls_text() -> Seq<char> {
    joined(spec_names(catalog()), ", "@)
}

pub open spec fn report_text() -> Seq<char> {
    "oracle_catalog_key="@ + key_text() + "\n"@ + settings_text() + "files="@ + joined(
        plain_names(FILES@),
        ","@,
    ) + "\nsnapshots="@ + joined(plain_names(SNAPSHOT_FILES@), ","@) + "\nop_catalog:\n"@
        + line_block("- "@, spec_names(catalog())) + "syscalls="@ + syscalls_text()
        + "\nconcrete_ops="@ + dec(expansions(catalog()).len()) + "\n"@
}

fn push_settings(out: &mut String)
    ensures
        final(out)@ == old(out)@ + settings_text(),
{
    let ghost before = out@;
    out.append("report_version=");
    push_dec(out, REPORT_VERSION as u64);
    out.append("\nworkers=");
    push_dec(out, WORKERS as u64);
    out.append("\nfd_slots=");
    push_dec(out, FD_SLOTS as u64);
    out.append("\nrequire_mutation=");
    out.append(bool_str(REQUIRE_MUTATION));
    out.append("\nnormalization_version=");
    push_dec(out, NORMALIZATION_VERSION as u64);
    out.append("\nerror_normalization_version=");
    push_dec(out, ERROR_NORMALIZATION_VERSION as u64);
    out.append("\n");
    assert(out@ =~= before + settings_text());
}

fn names_of(files: &[FileId], tagged: bool) -> (names: Vec<String>)
    ensures
        texts(names@) == if tagged {
            tagged_names(files@)
        } else {
            plain_names(files@)
        },
{
    let mut names: Vec<String> = Vec::new();
    let mut i: usize = 0;
    while i < files.len()
        invariant
            i <= files@.len(),
            names@.len() == i,
            forall|j: int|
                0 <= j < i ==> (#[trigger] names@[j])@ == if tagged {
                    tagged_name(files@[j])
                } else {
                    files@[j].name_text()
                },
        decreases files@.len() - i,
    {
        let mut name = files[i].name().to_string();
        if tagged {
            name.append(":");
            push_dec(&mut name, files[i].tag() as u64);
        }
        names.push(name);
        i = i + 1;
    }
    if tagged {
        assert(texts(names@) =~= tagged_names(files@));
    } else {
        assert(texts(names@) =~= plain_names(files@));
    }
    names
}

fn names_of_specs(specs: &[OpSpec]) -> (names: Vec<String>)
    ensures
        texts(names@) == spec_names(specs@),
{
    let mut names: Vec<String> = Vec::new();
    let mut i: usize = 0;
    while i < specs.len()
        invariant
            i <= specs@.len(),
            names@.len() == i,
            forall|j: int| 0 <= j < i ==> (#[trigger] names@[j])@ == specs@[j].name_text(),
        decreases specs@.len() - i,
    {
        names.push(specs[i].name());
        i = i + 1;
    }
    assert(texts(names@) =~= spec_names(specs@));
    names
}

fn texts_of_ops(ops: &[Op]) -> (out: Vec<String>)
    ensures
        texts(out@) == op_texts(ops@),
{
    let mut out: Vec<String> = Vec::new();
    let mut i: usize = 0;
    while i < ops.len()
        invariant
            i <= ops@.len(),
            out@.len() == i,
            forall|j: int| 0 <= j < i ==> (#[trigger] out@[j])@ == ops@[j].text(),
        decreases ops@.len() - i,
    {
        out.push(ops[i].pseudocode());
        i = i + 1;
    }
    assert(texts(out@) =~= op_texts(ops@));
    out
}

fn push_line_block(out: &mut String, front: &str, lines: &Vec<String>)
    ensures
        final(out)@ == old(out)@ + line_block(front@, texts(lines@)),
{
    let mut i: usize = 0;
    assert(texts(lines@).take(0) =~= Seq::empty());
    assert(out@ =~= old(out)@ + Seq::empty());
    while i < lines.len()
        invariant
            i <= lines@.len(),
            out@ == old(out)@ + line_block(front@, texts(lines@).take(i as int)),
        decreases lines@.len() - i,
    {
        assert(texts(lines@).take(i as int + 1).drop_last() =~= texts(lines@).take(i as int));
        out.append(front);
        out.append(lines[i].as_str());
        out.append("\n");
        i = i + 1;
        assert(out@ =~= old(out)@ + line_block(front@, texts(lines@).take(i as int)));
    }
    assert(texts(lines@).take(i as int) =~= texts(lines@));
}

pub fn catalog_signature() -> (sig: String)
    ensures
        sig@ == signature_text(),
{
    let mut sig = String::new();
    push_settings(&mut sig);
    assert(sig@ =~= settings_text());
    sig.append("stderr_marker_len=");
    push_dec(&mut sig, STDERR_MARKER_LEN as u64);
    sig.append("\nfiles=");
    let files = names_of(&FILES, true);
    sig.append(join_texts(&files, ",").as_str());
    sig.append("\nsnapshots=");
    let snapshots = names_of(&SNAPSHOT_FILES, true);
    sig.append(join_texts(&snapshots, ",").as_str());
    sig.append("\nop_catalog:\n");
    let specs = op_catalog();
    let names = names_of_specs(specs.as_slice());
    let nothing = String::new();
    assert(nothing@ =~= Seq::empty());
    push_line_block(&mut sig, nothing.as_str(), &names);
    sig.append("concrete_ops:\n");
    let ops = concrete_ops();
    let lines = texts_of_ops(ops.as_slice());
    push_line_block(&mut sig, nothing.as_str(), &lines);
    sig
}

pub fn catalog_key() -> (key: String)
    ensures
        key@ == key_text(),
{
    let sig = catalog_signature();
    let mut key = String::new();
    push_hex_padded(&mut key, stable_hash(sig.as_str().as_bytes()), 16);
    assert(key@ =~= key_text());
    key
}

pub fn catalog_syscalls() -> (text: String)
    ensures
        text@ == syscalls_text(),
{
    let specs = op_catalog();
    let names = names_of_specs(specs.as_slice());
    join_texts(&names, ", ")
}

pub fn catalog_report() -> (out: String)
    ensures
        out@ == report_text(),
{
    let mut out = "oracle_catalog_key=".to_string();
    out.append(catalog_key().as_str());
    out.append("\n");
    push_settings(&mut out);
    out.append("files=");
    let files = names_of(&FILES, false);
    out.append(join_texts(&files, ",").as_str());
    out.append("\nsnapshots=");
    let snapshots = names_of(&SNAPSHOT_FILES, false);
    out.append(join_texts(&snapshots, ",").as_str());
    out.append("\nop_catalog:\n");
    let specs = op_catalog();
    let names = names_of_specs(specs.as_slice());
    push_line_block(&mut out, "- ", &names);
    out.append("syscalls=");
    out.append(catalog_syscalls().as_str());
    out.append("\nconcrete_ops=");
    push_dec(&mut out, concrete_ops().len() as u64);
    out.append("\n");
    out
}

} // verus!
