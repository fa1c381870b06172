//! The exit codes of the tool.
//!
//! Integrations decide by them whether to fall back to an uploader of their own:
//! codes 1 and 2 say that the tool never got a fair chance to run, codes from 10
//! on tell of a failure that would meet the fallback just the same.
use vstd::prelude::*;

verus! {

#[derive(Debug, Clone, Copy, PartialEq, Eq, Structural)]
pub enum ExitCode {
    Success,
    Unexpected,
    Usage,
    InputNotFound,
    InputInvalid,
    ConfigInvalid,
    AppTokenRejected,
    UploadServer,
    UploadTransport,
    /// A build gate failed on purpose: the build should fail, and no fallback
    /// should run.
    SizeCheckFailed,
}

impl ExitCode {
    /// The number of a code.
    pub open spec fn number(self) -> i32 {
        match self {
            ExitCode::Success => 0,
            ExitCode::Unexpected => 1,
            ExitCode::Usage => 2,
            ExitCode::InputNotFound => 10,
            ExitCode::InputInvalid => 11,
            ExitCode::ConfigInvalid => 20,
            ExitCode::AppTokenRejected => 21,
            ExitCode::UploadServer => 30,
            ExitCode::UploadTransport => 31,
            ExitCode::SizeCheckFailed => 40,
        }
    }

    /// The number of a code.
    pub fn as_i32(self) -> (r: i32)
        ensures
            r == self.number(),
    {
        match self {
            ExitCode::Success => 0,
            ExitCode::Unexpected => 1,
            ExitCode::Usage => 2,
            ExitCode::InputNotFound => 10,
            ExitCode::InputInvalid => 11,
            ExitCode::ConfigInvalid => 20,
            ExitCode::AppTokenRejected => 21,
            ExitCode::UploadServer => 30,
            ExitCode::UploadTransport => 31,
            ExitCode::SizeCheckFailed => 40,
        }
    }

    /// Whether an integration should fall back to an uploader of its own.
    pub fn should_fallback(self) -> (r: bool)
        ensures
            r == (self.number() == 1 || self.number() == 2),
    {
        match self {
            ExitCode::Unexpected => true,
            ExitCode::Usage => true,
            _ => false,
        }
    }
}

/// Different codes have different numbers, and only success has zero.
pub proof fn law_numbers_tell_codes_apart(a: ExitCode, b: ExitCode)
    ensures
        a.number() == b.number() <==> a == b,
        a.number() == 0 <==> a == ExitCode::Success,
        a.number() >= 0,
{
}

/// The number of each code, as integrations know them.
pub proof fn law_the_numbers_of_the_codes(c: ExitCode)
    ensures
        c == ExitCode::Success <==> c.number() == 0,
        c == ExitCode::Unexpected <==> c.number() == 1,
        c == ExitCode::Usage <==> c.number() == 2,
        c == ExitCode::InputNotFound <==> c.number() == 10,
        c == ExitCode::InputInvalid <==> c.number() == 11,
        c == ExitCode::ConfigInvalid <==> c.number() == 20,
        c == ExitCode::AppTokenRejected <==> c.number() == 21,
        c == ExitCode::UploadServer <==> c.number() == 30,
        c == ExitCode::UploadTransport <==> c.number() == 31,
        c == ExitCode::SizeCheckFailed <==> c.number() == 40,
{
}

} // verus!
