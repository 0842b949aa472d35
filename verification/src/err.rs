//! Error kinds shared by all capability and endpoint operations.
//!
//! The extended-command protocol of the TCU carries an error code in a
//! 5-bit register field, so every kind has a stable numeric value with an
//! exact round trip through that encoding.

use vstd::prelude::*;

verus! {

/// The error taxonomy of the capability core.
#[derive(Clone, Copy, Debug, PartialEq, Eq, Structural)]
pub enum Code {
    /// No error; the register protocol encodes success as zero.
    Success,
    /// Selector range occupied, quota exhausted, or no free endpoint run.
    NoSpace,
    /// Revoke blocked by outstanding quota or resident activities.
    NotRevocable,
    /// Malformed selector, range or flags.
    InvArgs,
    /// Side-call target already torn down.
    ActivityGone,
    /// Operation unsupported on this build configuration.
    NotSup,
    /// Endpoint invalidation refused because credits are outstanding.
    NoCredits,
    /// Remote register access without the tile's key context loaded.
    NoPerm,
    /// A reply arrived for an event nobody waits on, or none arrived.
    RecvGone,
    /// A hardware extended command reported a code outside this taxonomy.
    Unknown,
}

impl Code {
    /// The 5-bit value stored in the extended-command register.
    pub open spec fn spec_val(self) -> u64 {
        match self {
            Code::Success => 0,
            Code::NoSpace => 1,
            Code::NotRevocable => 2,
            Code::InvArgs => 3,
            Code::ActivityGone => 4,
            Code::NotSup => 5,
            Code::NoCredits => 6,
            Code::NoPerm => 7,
            Code::RecvGone => 8,
            Code::Unknown => 31,
        }
    }

    /// Encodes the kind as its register value.
    pub fn val(self) -> (v: u64)
        ensures
            v == self.spec_val(),
            v < 32,
    {
        match self {
            Code::Success => 0,
            Code::NoSpace => 1,
            Code::NotRevocable => 2,
            Code::InvArgs => 3,
            Code::ActivityGone => 4,
            Code::NotSup => 5,
            Code::NoCredits => 6,
            Code::NoPerm => 7,
            Code::RecvGone => 8,
            Code::Unknown => 31,
        }
    }

    /// The kind a 5-bit register value decodes to.
    pub open spec fn spec_from_val(v: u64) -> Code {
        if v == 0 {
            Code::Success
        } else if v == 1 {
            Code::NoSpace
        } else if v == 2 {
            Code::NotRevocable
        } else if v == 3 {
            Code::InvArgs
        } else if v == 4 {
            Code::ActivityGone
        } else if v == 5 {
            Code::NotSup
        } else if v == 6 {
            Code::NoCredits
        } else if v == 7 {
            Code::NoPerm
        } else if v == 8 {
            Code::RecvGone
        } else {
            Code::Unknown
        }
    }

    /// Decodes a 5-bit register value into the kind it stands for.
    pub fn from_val(v: u64) -> (c: Code)
        ensures
            c == Code::spec_from_val(v),
    {
        if v == 0 {
            Code::Success
        } else if v == 1 {
            Code::NoSpace
        } else if v == 2 {
            Code::NotRevocable
        } else if v == 3 {
            Code::InvArgs
        } else if v == 4 {
            Code::ActivityGone
        } else if v == 5 {
            Code::NotSup
        } else if v == 6 {
            Code::NoCredits
        } else if v == 7 {
            Code::NoPerm
        } else if v == 8 {
            Code::RecvGone
        } else {
            Code::Unknown
        }
    }

}

/// Every kind that decodes from a value also encodes back to it, so the
/// register protocol never garbles an error that this taxonomy names.
pub proof fn lemma_code_round_trip(c: Code)
    ensures
        Code::spec_from_val(c.spec_val()) == c,
{
}

/// An error returned by a capability or endpoint operation.
#[derive(Clone, Copy, Debug, PartialEq, Eq, Structural)]
pub struct Error {
    pub code: Code,
}

impl Error {
    /// Wraps an error kind.
    pub fn new(code: Code) -> (e: Error)
        ensures
            e.code == code,
    {
        Error { code }
    }

    /// The kind of this error.
    pub fn code(self) -> (c: Code)
        ensures
            c == self.code,
    {
        self.code
    }

    /// The kind, for use in contracts.
    pub open spec fn spec_code(self) -> Code {
        self.code
    }
}

} // verus!
