//! Numeric replies: a reply code with its parameters, split into the success
//! and the error category by a fixed code range.

use vstd::prelude::*;

use crate::messages::{CmdM, Command};
use crate::numbers::{dec_str, dec_string};
use crate::tokens::clone_strings;

verus! {

/// A numeric reply whose code classifies as a success.
#[derive(Debug, PartialEq, Eq)]
pub enum Reply {
    Raw(u16, Vec<String>),
}

/// A numeric reply whose code lies in the error range.
#[derive(Debug, PartialEq, Eq)]
pub enum ErrorReply {
    Raw(u16, Vec<String>),
}

/// Mathematical model of a numeric reply: its code and its parameters.
#[verifier::ext_equal]
pub ghost struct ReplyM {
    pub code: u16,
    pub params: Seq<Seq<char>>,
}

impl View for Reply {
    type V = ReplyM;

    open spec fn view(&self) -> ReplyM {
        match self {
            Reply::Raw(code, params) => ReplyM { code: *code, params: params.deep_view() },
        }
    }
}

impl View for ErrorReply {
    type V = ReplyM;

    open spec fn view(&self) -> ReplyM {
        match self {
            ErrorReply::Raw(code, params) => ReplyM { code: *code, params: params.deep_view() },
        }
    }
}

impl Clone for Reply {
    /// Keeps the code and every parameter.
    fn clone(&self) -> (r: Self)
        ensures
            r@ == self@,
    {
        match self {
            Reply::Raw(code, params) => Reply::Raw(*code, clone_strings(params)),
        }
    }
}

impl Clone for ErrorReply {
    /// Keeps the code and every parameter.
    fn clone(&self) -> (r: Self)
        ensures
            r@ == self@,
    {
        match self {
            ErrorReply::Raw(code, params) => ErrorReply::Raw(*code, clone_strings(params)),
        }
    }
}

impl Reply {
    /// The fallback form of this reply: its code in decimal, then its parameters.
    pub fn raw_command(self) -> (r: Command)
        ensures
            r@ == CmdM::Raw(dec_str(self@.code as nat), self@.params),
    {
        match self {
            Reply::Raw(code, params) => Command::Raw(dec_string(code), params),
        }
    }
}

impl ErrorReply {
    /// The fallback form of this reply: its code in decimal, then its parameters.
    pub fn raw_command(self) -> (r: Command)
        ensures
            r@ == CmdM::Raw(dec_str(self@.code as nat), self@.params),
    {
        match self {
            ErrorReply::Raw(code, params) => Command::Raw(dec_string(code), params),
        }
    }
}

/// The category a numeric reply code falls in.
#[derive(Debug, PartialEq, Eq, Clone, Copy, Structural)]
pub enum ReplyKind {
    Success,
    Error,
}

/// The error category holds exactly the codes of the range [400, 700).
pub open spec fn spec_classify(code: u16) -> ReplyKind {
    if 400 <= code < 700 {
        ReplyKind::Error
    } else {
        ReplyKind::Success
    }
}

/// Classifies a numeric reply code; the boundary is exact at 400 and at 700.
pub fn classify(code: u16) -> (r: ReplyKind)
    ensures
        r == spec_classify(code),
{
    if 400 <= code && code < 700 {
        ReplyKind::Error
    } else {
        ReplyKind::Success
    }
}

} // verus!
