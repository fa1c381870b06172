//! The failures of the tool that have an exit code of their own.
use crate::exit_code::ExitCode;
use crate::numeral::{dec_u64, decimal};
use crate::text::{cat2, cat4, has_prefix, has_suffix, law_prefixes_and_suffixes, opt_str, str_eq};
use vstd::prelude::*;
use vstd::string::*;

verus! {

#[derive(Debug, Clone, PartialEq, Eq)]
pub enum Error {
    /// The input is not there, or holds nothing of the kind that was asked for.
    InputNotFound(String),
    /// The input is there but has the wrong shape.
    InputInvalid(String),
    /// The configuration is wrong.
    ConfigInvalid(String),
    /// The server does not know the app token.
    AppTokenRejected,
    /// The server refused the upload.
    UploadServer { status: u16, message: String },
    /// The upload did not get through.
    UploadTransport(String),
    /// Reading or writing failed.
    Io(String),
    /// The HTTP client failed.
    Http(String),
    /// A build gate failed on purpose; the message is shown as it is.
    SizeCheckFailed(String),
}

/// A failure, as text and numbers.
pub enum Failure {
    InputNotFound(Seq<char>),
    InputInvalid(Seq<char>),
    ConfigInvalid(Seq<char>),
    AppTokenRejected,
    UploadServer { status: u16, message: Seq<char> },
    UploadTransport(Seq<char>),
    Io(Seq<char>),
    Http(Seq<char>),
    SizeCheckFailed(Seq<char>),
}

impl View for Error {
    type V = Failure;

    open spec fn view(&self) -> Failure {
        match self {
            Error::InputNotFound(m) => Failure::InputNotFound(m@),
            Error::InputInvalid(m) => Failure::InputInvalid(m@),
            Error::ConfigInvalid(m) => Failure::ConfigInvalid(m@),
            Error::AppTokenRejected => Failure::AppTokenRejected,
            Error::UploadServer { status, message } => Failure::UploadServer {
                status: *status,
                message: message@,
            },
            Error::UploadTransport(m) => Failure::UploadTransport(m@),
            Error::Io(m) => Failure::Io(m@),
            Error::Http(m) => Failure::Http(m@),
            Error::SizeCheckFailed(m) => Failure::SizeCheckFailed(m@),
        }
    }
}

/// The failure of a result, where it is one.
pub open spec fn failure<T>(r: core::result::Result<T, Error>) -> Option<Failure> {
    match r {
        Ok(_) => None,
        Err(e) => Some(e@),
    }
}

impl Failure {
    /// The exit code of a failure.
    pub open spec fn code(self) -> ExitCode {
        match self {
            Failure::InputNotFound(_) => ExitCode::InputNotFound,
            Failure::Io(_) => ExitCode::InputNotFound,
            Failure::InputInvalid(_) => ExitCode::InputInvalid,
            Failure::ConfigInvalid(_) => ExitCode::ConfigInvalid,
            Failure::AppTokenRejected => ExitCode::AppTokenRejected,
            Failure::UploadServer { .. } => ExitCode::UploadServer,
            Failure::UploadTransport(_) => ExitCode::UploadTransport,
            Failure::Http(_) => ExitCode::UploadTransport,
            Failure::SizeCheckFailed(_) => ExitCode::SizeCheckFailed,
        }
    }

    /// What is shown of a failure.
    pub open spec fn text(self) -> Seq<char> {
        match self {
            Failure::InputNotFound(m) => "input not found: "@ + m,
            Failure::InputInvalid(m) => "input invalid: "@ + m,
            Failure::ConfigInvalid(m) => "configuration error: "@ + m,
            Failure::AppTokenRejected =>
                "app token rejected by server (ApplicationNotFoundError) — verify BUGSEE_APP_TOKEN matches the project"@,
            Failure::UploadServer { status, message } =>
                "upload failed: server responded with status "@ + decimal(status as nat) + " — "@
                + message,
            Failure::UploadTransport(m) => "upload failed: "@ + m,
            Failure::Io(m) => "I/O error: "@ + m,
            Failure::Http(m) => "HTTP error: "@ + m,
            Failure::SizeCheckFailed(m) => m,
        }
    }
}

impl Error {
    /// The exit code of an error.
    pub fn exit_code(&self) -> (r: ExitCode)
        ensures
            r == self@.code(),
    {
        match self {
            Error::InputNotFound(_) => ExitCode::InputNotFound,
            Error::Io(_) => ExitCode::InputNotFound,
            Error::InputInvalid(_) => ExitCode::InputInvalid,
            Error::ConfigInvalid(_) => ExitCode::ConfigInvalid,
            Error::AppTokenRejected => ExitCode::AppTokenRejected,
            Error::UploadServer { .. } => ExitCode::UploadServer,
            Error::UploadTransport(_) => ExitCode::UploadTransport,
            Error::Http(_) => ExitCode::UploadTransport,
            Error::SizeCheckFailed(_) => ExitCode::SizeCheckFailed,
        }
    }

    /// What is shown of an error.
    pub fn message(&self) -> (r: String)
        ensures
            r@ == self@.text(),
    {
        match self {
            Error::InputNotFound(m) => cat2("input not found: ", m.as_str()),
            Error::InputInvalid(m) => cat2("input invalid: ", m.as_str()),
            Error::ConfigInvalid(m) => cat2("configuration error: ", m.as_str()),
            Error::AppTokenRejected =>
                "app token rejected by server (ApplicationNotFoundError) — verify BUGSEE_APP_TOKEN matches the project".to_owned(),
            Error::UploadServer { status, message } => {
                let n = dec_u64(*status as u64);
                cat4(
                    "upload failed: server responded with status ",
                    n.as_str(),
                    " — ",
                    message.as_str(),
                )
            },
            Error::UploadTransport(m) => cat2("upload failed: ", m.as_str()),
            Error::Io(m) => cat2("I/O error: ", m.as_str()),
            Error::Http(m) => cat2("HTTP error: ", m.as_str()),
            Error::SizeCheckFailed(m) => m.clone(),
        }
    }
}

/// The input is not there.
pub fn input_not_found(msg: &str) -> (r: Error)
    ensures
        r@ == Failure::InputNotFound(msg@),
{
    Error::InputNotFound(msg.to_owned())
}

/// The input has the wrong shape.
pub fn input_invalid(msg: &str) -> (r: Error)
    ensures
        r@ == Failure::InputInvalid(msg@),
{
    Error::InputInvalid(msg.to_owned())
}

/// The configuration is wrong.
pub fn config_invalid(msg: &str) -> (r: Error)
    ensures
        r@ == Failure::ConfigInvalid(msg@),
{
    Error::ConfigInvalid(msg.to_owned())
}

/// The type of error by which the server says that it does not know an app token.
pub const UNKNOWN_APP: &'static str = "ApplicationNotFoundError";

/// What a refusal of the server means: the type of error in its reply tells whether the app
/// token is unknown, whatever the status is.
pub fn server_error(status: u16, error_type: &Option<String>, message: &str) -> (r: Error)
    ensures
        r@ == if opt_str(*error_type) == Some(UNKNOWN_APP@) {
            Failure::AppTokenRejected
        } else {
            Failure::UploadServer { status, message: message@ }
        },
{
    match error_type {
        Some(t) => if str_eq(t.as_str(), UNKNOWN_APP) {
            return Error::AppTokenRejected;
        },
        None => {},
    }
    Error::UploadServer { status, message: message.to_owned() }
}

/// The exit code of a failed run: that of its error, or `Unexpected` where it is
/// none of these.
pub fn classify(err: Option<&Error>) -> (r: ExitCode)
    ensures
        r == match err {
            Some(e) => e@.code(),
            None => ExitCode::Unexpected,
        },
{
    match err {
        Some(e) => e.exit_code(),
        None => ExitCode::Unexpected,
    }
}

/// None of the errors makes an integration fall back, and none reads as success.
pub proof fn law_errors_never_fall_back(f: Failure)
    ensures
        f.code().number() >= 10,
{
}

/// How each failure exits: a missing input and an I/O error with 10, a malformed input with
/// 11, a wrong configuration with 20, an unknown token with 21, a refusal of the server with
/// 30, a broken transport with 31, and a size check with 40.
pub proof fn law_failures_have_their_exit_codes(m: Seq<char>, status: u16)
    ensures
        Failure::InputNotFound(m).code().number() == 10,
        Failure::Io(m).code().number() == 10,
        Failure::InputInvalid(m).code().number() == 11,
        Failure::ConfigInvalid(m).code().number() == 20,
        Failure::AppTokenRejected.code().number() == 21,
        (Failure::UploadServer { status, message: m }).code().number() == 30,
        Failure::UploadTransport(m).code().number() == 31,
        Failure::Http(m).code().number() == 31,
        Failure::SizeCheckFailed(m).code().number() == 40,
{
}

/// What is shown of a failure ends with its own message, and of a size check it is the
/// message alone.
pub proof fn law_failures_show_their_message(m: Seq<char>, status: u16)
    ensures
        has_suffix(Failure::InputNotFound(m).text(), m),
        has_suffix(Failure::InputInvalid(m).text(), m),
        has_suffix(Failure::ConfigInvalid(m).text(), m),
        has_suffix((Failure::UploadServer { status, message: m }).text(), m),
        has_suffix(Failure::UploadTransport(m).text(), m),
        has_suffix(Failure::Io(m).text(), m),
        has_suffix(Failure::Http(m).text(), m),
        Failure::SizeCheckFailed(m).text() == m,
        has_prefix(Failure::InputNotFound(m).text(), "input not found: "@),
        has_prefix(Failure::InputInvalid(m).text(), "input invalid: "@),
        has_prefix(Failure::ConfigInvalid(m).text(), "configuration error: "@),
{
    law_prefixes_and_suffixes("input not found: "@, m);
    law_prefixes_and_suffixes("input invalid: "@, m);
    law_prefixes_and_suffixes("configuration error: "@, m);
    law_prefixes_and_suffixes("upload failed: "@, m);
    law_prefixes_and_suffixes("I/O error: "@, m);
    law_prefixes_and_suffixes("HTTP error: "@, m);
    law_prefixes_and_suffixes(
        "upload failed: server responded with status "@ + decimal(status as nat) + " — "@,
        m,
    );
}

} // verus!
