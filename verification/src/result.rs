//! What an operation returned.

use vstd::prelude::*;
use vstd::string::*;

use crate::ops::tag_error;
use crate::text::dec;

verus! {

/// The kinds of failure that a report tells apart.
#[derive(Clone, Copy, Debug, PartialEq, Eq, Structural)]
pub enum OracleErr {
    NoErr,
    NotFound,
    PermissionDenied,
    AlreadyExists,
    InvalidInput,
    InvalidData,
    UnexpectedEof,
    WriteZero,
    Interrupted,
    Unsupported,
    BadFd,
    Other,
}

impl OracleErr {
    pub open spec fn tag_value(self) -> u8 {
        match self {
            OracleErr::NoErr => 0,
            OracleErr::NotFound => 1,
            OracleErr::PermissionDenied => 2,
            OracleErr::AlreadyExists => 3,
            OracleErr::InvalidInput => 4,
            OracleErr::InvalidData => 5,
            OracleErr::UnexpectedEof => 6,
            OracleErr::WriteZero => 7,
            OracleErr::Interrupted => 8,
            OracleErr::Unsupported => 9,
            OracleErr::BadFd => 10,
            OracleErr::Other => 255,
        }
    }

    /// The failure whose tag is `tag`.
    pub open spec fn of_tag(tag: u8) -> Option<OracleErr> {
        if tag <= 10 || tag == 255 {
            Some(choose|err: OracleErr| #[trigger] err.tag_value() == tag)
        } else {
            None
        }
    }

    pub open spec fn name_text(self) -> Seq<char> {
        match self {
            OracleErr::NoErr => "None"@,
            OracleErr::NotFound => "NotFound"@,
            OracleErr::PermissionDenied => "PermissionDenied"@,
            OracleErr::AlreadyExists => "AlreadyExists"@,
            OracleErr::InvalidInput => "InvalidInput"@,
            OracleErr::InvalidData => "InvalidData"@,
            OracleErr::UnexpectedEof => "UnexpectedEof"@,
            OracleErr::WriteZero => "WriteZero"@,
            OracleErr::Interrupted => "Interrupted"@,
            OracleErr::Unsupported => "Unsupported"@,
            OracleErr::BadFd => "BadFd"@,
            OracleErr::Other => "Other"@,
        }
    }

    pub fn tag(self) -> (t: u8)
        ensures
            t == self.tag_value(),
            OracleErr::of_tag(t) == Some(self),
    {
        let t: u8 = match self {
            OracleErr::NoErr => 0,
            OracleErr::NotFound => 1,
            OracleErr::PermissionDenied => 2,
            OracleErr::AlreadyExists => 3,
            OracleErr::InvalidInput => 4,
            OracleErr::InvalidData => 5,
            OracleErr::UnexpectedEof => 6,
            OracleErr::WriteZero => 7,
            OracleErr::Interrupted => 8,
            OracleErr::Unsupported => 9,
            OracleErr::BadFd => 10,
            OracleErr::Other => 255,
        };
        proof {
            lemma_error_tags(self);
        }
        t
    }

    pub fn from_tag(tag: u8) -> (r: Result<Self, String>)
        ensures
            r is Ok <==> tag <= 10 || tag == 255,
            r matches Ok(err) ==> err.tag_value() == tag && OracleErr::of_tag(tag) == Some(err),
            r matches Err(e) ==> e@ == "invalid oracle error tag "@ + dec(tag as nat),
    {
        let err = match tag {
            0 => OracleErr::NoErr,
            1 => OracleErr::NotFound,
            2 => OracleErr::PermissionDenied,
            3 => OracleErr::AlreadyExists,
            4 => OracleErr::InvalidInput,
            5 => OracleErr::InvalidData,
            6 => OracleErr::UnexpectedEof,
            7 => OracleErr::WriteZero,
            8 => OracleErr::Interrupted,
            9 => OracleErr::Unsupported,
            10 => OracleErr::BadFd,
            255 => OracleErr::Other,
            _ => {
                return Err(tag_error("invalid oracle error tag ", tag));
            },
        };
        proof {
            lemma_error_tags(err);
        }
        Ok(err)
    }

    pub fn name(self) -> (s: &'static str)
        ensures
            s@ == self.name_text(),
    {
        match self {
            OracleErr::NoErr => "None",
            OracleErr::NotFound => "NotFound",
            OracleErr::PermissionDenied => "PermissionDenied",
            OracleErr::AlreadyExists => "AlreadyExists",
            OracleErr::InvalidInput => "InvalidInput",
            OracleErr::InvalidData => "InvalidData",
            OracleErr::UnexpectedEof => "UnexpectedEof",
            OracleErr::WriteZero => "WriteZero",
            OracleErr::Interrupted => "Interrupted",
            OracleErr::Unsupported => "Unsupported",
            OracleErr::BadFd => "BadFd",
            OracleErr::Other => "Other",
        }
    }
}

/// A failure is the one of its tag.
pub proof fn lemma_error_tags(err: OracleErr)
    ensures
        OracleErr::of_tag(err.tag_value()) == Some(err),
{
    let found = choose|e: OracleErr| #[trigger] e.tag_value() == err.tag_value();
    assert(found.tag_value() == err.tag_value());
}

/// What an operation returned: a number, a kind of failure, and bytes that it read.
#[derive(Debug, PartialEq, Eq)]
pub struct OpResult {
    pub rc: i64,
    pub err: OracleErr,
    pub data: Vec<u8>,
}

#[verifier::ext_equal]
pub struct OpResultView {
    pub rc: i64,
    pub err: OracleErr,
    pub data: Seq<u8>,
}

impl OpResultView {
    pub open spec fn of_ok(rc: i64) -> Self {
        OpResultView { rc, err: OracleErr::NoErr, data: Seq::empty() }
    }

    pub open spec fn of_err(err: OracleErr) -> Self {
        OpResultView { rc: (-1) as i64, err, data: Seq::empty() }
    }

    /// Whether a report can hold the result without loss: failures return -1 and no
    /// bytes, and an operation that read bytes returns how many.
    pub open spec fn reportable(self) -> bool {
        &&& self.err !is NoErr ==> self == OpResultView::of_err(self.err)
        &&& self.data.len() > 0 ==> self.rc == self.data.len()
    }
}

impl View for OpResult {
    type V = OpResultView;

    open spec fn view(&self) -> OpResultView {
        OpResultView { rc: self.rc, err: self.err, data: self.data@ }
    }
}

impl Clone for OpResult {
    fn clone(&self) -> (r: Self)
        ensures
            r@ == self@,
    {
        let data = self.data.clone();
        assert(data@ =~= self.data@);
        OpResult { rc: self.rc, err: self.err, data }
    }
}

impl OpResult {
    pub fn ok(rc: i64) -> (r: Self)
        ensures
            r@ == OpResultView::of_ok(rc),
    {
        let r = OpResult { rc, err: OracleErr::NoErr, data: Vec::new() };
        assert(r@ =~= OpResultView::of_ok(rc));
        r
    }

    pub fn ok_data(rc: i64, data: Vec<u8>) -> (r: Self)
        ensures
            r@ == (OpResultView { rc, err: OracleErr::NoErr, data: data@ }),
    {
        OpResult { rc, err: OracleErr::NoErr, data }
    }

    pub fn err(err: OracleErr) -> (r: Self)
        ensures
            r@ == OpResultView::of_err(err),
    {
        let r = OpResult { rc: -1, err, data: Vec::new() };
        assert(r@ =~= OpResultView::of_err(err));
        r
    }
}

} // verus!
