//! The error every operation returns, with the stable code the frontend
//! switches on and the human-readable message.

use vstd::prelude::*;
use vstd::string::*;

use crate::text::string_of;

verus! {

#[derive(Debug, Clone, PartialEq, Eq)]
pub enum AppError {
    NeedsElevation,
    CoreNotInstalled,
    CoreStartFailed(String),
    Parse(String),
    Network(String),
    Unsupported(String),
    /// Panel gates the real server list behind a device id we did not send.
    HwidRequired,
    /// Panel accepted the device id but the account has no free device slot.
    DeviceLimit,
    NotFound(String),
    /// An I/O failure, carried as its message.
    Io(String),
    Internal(String),
}

/// `AppError` with its text payloads as character sequences.
pub enum ErrorView {
    NeedsElevation,
    CoreNotInstalled,
    CoreStartFailed(Seq<char>),
    Parse(Seq<char>),
    Network(Seq<char>),
    Unsupported(Seq<char>),
    HwidRequired,
    DeviceLimit,
    NotFound(Seq<char>),
    Io(Seq<char>),
    Internal(Seq<char>),
}

impl View for AppError {
    type V = ErrorView;

    open spec fn view(&self) -> ErrorView {
        match self {
            AppError::NeedsElevation => ErrorView::NeedsElevation,
            AppError::CoreNotInstalled => ErrorView::CoreNotInstalled,
            AppError::CoreStartFailed(s) => ErrorView::CoreStartFailed(s@),
            AppError::Parse(s) => ErrorView::Parse(s@),
            AppError::Network(s) => ErrorView::Network(s@),
            AppError::Unsupported(s) => ErrorView::Unsupported(s@),
            AppError::HwidRequired => ErrorView::HwidRequired,
            AppError::DeviceLimit => ErrorView::DeviceLimit,
            AppError::NotFound(s) => ErrorView::NotFound(s@),
            AppError::Io(s) => ErrorView::Io(s@),
            AppError::Internal(s) => ErrorView::Internal(s@),
        }
    }
}

pub type AppResult<T> = Result<T, AppError>;

/// The code each variant is reported under.
pub open spec fn error_code(e: ErrorView) -> &'static str {
    match e {
        ErrorView::NeedsElevation => "NEEDS_ELEVATION",
        ErrorView::CoreNotInstalled => "CORE_NOT_INSTALLED",
        ErrorView::CoreStartFailed(_) => "CORE_START_FAILED",
        ErrorView::Parse(_) => "PARSE_ERROR",
        ErrorView::Network(_) => "NETWORK_ERROR",
        ErrorView::Unsupported(_) => "UNSUPPORTED_FORMAT",
        ErrorView::HwidRequired => "HWID_REQUIRED",
        ErrorView::DeviceLimit => "DEVICE_LIMIT",
        ErrorView::NotFound(_) => "NOT_FOUND",
        ErrorView::Io(_) => "IO_ERROR",
        ErrorView::Internal(_) => "INTERNAL",
    }
}

/// The message each variant is shown with.
pub open spec fn error_message(e: ErrorView) -> Seq<char> {
    match e {
        ErrorView::NeedsElevation => "TUN mode requires administrator rights"@,
        ErrorView::CoreNotInstalled => "sing-box core is not installed"@,
        ErrorView::CoreStartFailed(s) => "sing-box failed to start: "@ + s,
        ErrorView::Parse(s) => "failed to parse link: "@ + s,
        ErrorView::Network(s) => "network error: "@ + s,
        ErrorView::Unsupported(s) => "unsupported format: "@ + s,
        ErrorView::HwidRequired => "this subscription requires a device id (enable \"Send device ID\" in Settings)"@,
        ErrorView::DeviceLimit => "subscription device limit reached: unlink a device in the provider's panel"@,
        ErrorView::NotFound(s) => "not found: "@ + s,
        ErrorView::Io(s) => "io error: "@ + s,
        ErrorView::Internal(s) => s,
    }
}

impl AppError {
    pub fn code(&self) -> (r: &'static str)
        ensures
            r == error_code(self@),
    {
        match self {
            AppError::NeedsElevation => "NEEDS_ELEVATION",
            AppError::CoreNotInstalled => "CORE_NOT_INSTALLED",
            AppError::CoreStartFailed(_) => "CORE_START_FAILED",
            AppError::Parse(_) => "PARSE_ERROR",
            AppError::Network(_) => "NETWORK_ERROR",
            AppError::Unsupported(_) => "UNSUPPORTED_FORMAT",
            AppError::HwidRequired => "HWID_REQUIRED",
            AppError::DeviceLimit => "DEVICE_LIMIT",
            AppError::NotFound(_) => "NOT_FOUND",
            AppError::Io(_) => "IO_ERROR",
            AppError::Internal(_) => "INTERNAL",
        }
    }

    /// The human-readable message.
    pub fn to_string(&self) -> (r: String)
        ensures
            r@ == error_message(self@),
    {
        let (prefix, detail): (&str, Option<&String>) = match self {
            AppError::NeedsElevation => ("TUN mode requires administrator rights", None),
            AppError::CoreNotInstalled => ("sing-box core is not installed", None),
            AppError::CoreStartFailed(s) => ("sing-box failed to start: ", Some(s)),
            AppError::Parse(s) => ("failed to parse link: ", Some(s)),
            AppError::Network(s) => ("network error: ", Some(s)),
            AppError::Unsupported(s) => ("unsupported format: ", Some(s)),
            AppError::HwidRequired => (
                "this subscription requires a device id (enable \"Send device ID\" in Settings)",
                None,
            ),
            AppError::DeviceLimit => (
                "subscription device limit reached: unlink a device in the provider's panel",
                None,
            ),
            AppError::NotFound(s) => ("not found: ", Some(s)),
            AppError::Io(s) => ("io error: ", Some(s)),
            AppError::Internal(s) => ("", Some(s)),
        };
        let mut out = String::from_str(prefix);
        match detail {
            Some(d) => {
                out.append(d.as_str());
            },
            None => {},
        }
        proof {
            reveal_strlit("");
            assert(""@ + error_message(self@) =~= error_message(self@));
        }
        out
    }
}

/// `Parse(detail)` built from characters.
pub fn parse_error(detail: &[char]) -> (e: AppError)
    ensures
        e@ == ErrorView::Parse(detail@),
{
    AppError::Parse(string_of(detail))
}

/// `Unsupported(detail)` built from characters.
pub fn unsupported_error(detail: &[char]) -> (e: AppError)
    ensures
        e@ == ErrorView::Unsupported(detail@),
{
    AppError::Unsupported(string_of(detail))
}

} // verus!
