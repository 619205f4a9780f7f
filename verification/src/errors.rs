//! Failures of a host, and the kinds to which reports reduce them.

use vstd::prelude::*;
use vstd::string::*;

use crate::result::OracleErr;
use crate::text::{ascii_lower, contains_text, has_word, lower_ascii};

verus! {

/// The kinds of a host's failures that are told apart.
#[derive(Clone, Copy, Debug, PartialEq, Eq, Structural)]
pub enum FailureKind {
    NotFound,
    PermissionDenied,
    AlreadyExists,
    InvalidInput,
    InvalidData,
    UnexpectedEof,
    WriteZero,
    Interrupted,
    Unsupported,
    Other,
}

/// What a host reports of a failure: its kind, its text and its number, if it has one.
pub struct IoFailure {
    pub kind: FailureKind,
    pub message: String,
    pub errno: Option<i32>,
}

/// Whether the text names a bad descriptor, in any case of its letters.
pub open spec fn names_bad_fd(message: Seq<char>) -> bool {
    has_word(ascii_lower(message), "bad file descriptor"@) || has_word(
        ascii_lower(message),
        "badf"@,
    )
}

/// Whether the number is that of a bad descriptor: nine, and eight too where `wasm` numbers
/// hold.
pub open spec fn numbers_bad_fd(errno: Option<i32>, wasm: bool) -> bool {
    errno == Some(9i32) || (wasm && errno == Some(8i32))
}

/// The kind that a report gives to a failure.
pub open spec fn error_kind(e: IoFailure, wasm: bool) -> OracleErr {
    if names_bad_fd(e.message@) || numbers_bad_fd(e.errno, wasm) {
        OracleErr::BadFd
    } else {
        match e.kind {
            FailureKind::NotFound => OracleErr::NotFound,
            FailureKind::PermissionDenied => OracleErr::PermissionDenied,
            FailureKind::AlreadyExists => OracleErr::AlreadyExists,
            FailureKind::InvalidInput => OracleErr::InvalidInput,
            FailureKind::InvalidData => OracleErr::InvalidData,
            FailureKind::UnexpectedEof => OracleErr::UnexpectedEof,
            FailureKind::WriteZero => OracleErr::WriteZero,
            FailureKind::Interrupted => OracleErr::Interrupted,
            FailureKind::Unsupported => OracleErr::Unsupported,
            FailureKind::Other => OracleErr::Other,
        }
    }
}

pub fn error_name_is_bad_fd(name: &str) -> (r: bool)
    ensures
        r == names_bad_fd(name@),
{
    let name = lower_ascii(name);
    contains_text(name.as_str(), "bad file descriptor") || contains_text(name.as_str(), "badf")
}

pub fn bad_fd_errno(errno: Option<i32>, wasm: bool) -> (r: bool)
    ensures
        r == numbers_bad_fd(errno, wasm),
{
    match errno {
        Some(9) => true,
        Some(8) => wasm,
        _ => false,
    }
}

pub fn is_bad_fd_error(e: &IoFailure, wasm: bool) -> (r: bool)
    ensures
        r == (names_bad_fd(e.message@) || numbers_bad_fd(e.errno, wasm)),
{
    error_name_is_bad_fd(e.message.as_str()) || bad_fd_errno(e.errno, wasm)
}

pub fn errcode(e: &IoFailure, wasm: bool) -> (err: OracleErr)
    ensures
        err == error_kind(*e, wasm),
        err !is NoErr,
{
    if is_bad_fd_error(e, wasm) {
        return OracleErr::BadFd;
    }
    match e.kind {
        FailureKind::NotFound => OracleErr::NotFound,
        FailureKind::PermissionDenied => OracleErr::PermissionDenied,
        FailureKind::AlreadyExists => OracleErr::AlreadyExists,
        FailureKind::InvalidInput => OracleErr::InvalidInput,
        FailureKind::InvalidData => OracleErr::InvalidData,
        FailureKind::UnexpectedEof => OracleErr::UnexpectedEof,
        FailureKind::WriteZero => OracleErr::WriteZero,
        FailureKind::Interrupted => OracleErr::Interrupted,
        FailureKind::Unsupported => OracleErr::Unsupported,
        FailureKind::Other => OracleErr::Other,
    }
}

} // verus!
