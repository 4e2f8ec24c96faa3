//! The error that every operation reports: an exit code and a message.

use vstd::prelude::*;
use vstd::string::*;

verus! {

/// An exit code and a message.
///
/// The codes: 2 for a wrong command line or configuration, 3 for a failed
/// connection, 4 for a reply of the server that refuses a request, 5 for a
/// failed file operation.
#[derive(Debug)]
pub struct AppError {
    pub code: i32,
    pub msg: String,
}

/// The result of an operation that can fail.
pub type Res<T> = Result<T, AppError>;

/// Whether `e` is the error with this code and this message.
pub open spec fn is_error(e: AppError, code: int, msg: Seq<char>) -> bool {
    e.code == code && e.msg@ == msg
}

/// Whether `r` is the failure with this code and this message.
pub open spec fn failed<T>(r: Res<T>, code: int, msg: Seq<char>) -> bool {
    r is Err && is_error(r->Err_0, code, msg)
}

impl AppError {
    pub fn new(code: i32, msg: String) -> (e: AppError)
        ensures
            is_error(e, code as int, msg@),
    {
        AppError { code, msg }
    }

    /// What is shown of the error: its message.
    pub fn to_text(&self) -> (s: String)
        ensures
            s@ == self.msg@,
    {
        self.msg.clone()
    }

    /// The error of a file operation.
    pub fn from_io(detail: &str) -> (e: AppError)
        ensures
            is_error(e, 5, "IO 错误: "@ + detail@),
    {
        AppError::new(5, "IO 错误: ".to_string().concat(detail))
    }

    /// The error of a request: `refused` if the server answered it with an
    /// error status, else the connection failed.
    pub fn from_network(refused: bool, detail: &str) -> (e: AppError)
        ensures
            is_error(
                e,
                if refused {
                    4
                } else {
                    3
                },
                "网络错误: "@ + detail@,
            ),
    {
        let code: i32 = if refused {
            4
        } else {
            3
        };
        AppError::new(code, "网络错误: ".to_string().concat(detail))
    }

    /// The error of setting up a secure connection.
    pub fn from_tls(detail: &str) -> (e: AppError)
        ensures
            is_error(e, 3, "TLS 错误: "@ + detail@),
    {
        AppError::new(3, "TLS 错误: ".to_string().concat(detail))
    }
}

/// The failure with this code and this message.
pub fn fail<T>(code: i32, msg: String) -> (r: Res<T>)
    ensures
        failed(r, code as int, msg@),
{
    Err(AppError::new(code, msg))
}

/// The exit codes: 5 for a failed file operation, 4 for a request that the
/// server refused, and 3 for a failed connection, secure or not. The detail is
/// part of the message, and the message is what is shown.
pub proof fn law_exit_codes(
    detail: &str,
    io: AppError,
    refused: AppError,
    broken: AppError,
    tls: AppError,
    shown: String,
)
    requires
        call_ensures(AppError::from_io, (detail,), io),
        call_ensures(AppError::from_network, (true, detail), refused),
        call_ensures(AppError::from_network, (false, detail), broken),
        call_ensures(AppError::from_tls, (detail,), tls),
        call_ensures(AppError::to_text, (&io,), shown),
    ensures
        io.code == 5 && refused.code == 4 && broken.code == 3 && tls.code == 3,
        io.msg@ == "IO 错误: "@ + detail@,
        refused.msg@ == "网络错误: "@ + detail@,
        broken.msg@ == "网络错误: "@ + detail@,
        tls.msg@ == "TLS 错误: "@ + detail@,
        shown@ == io.msg@,
{
}

/// A failure has the code and the message that it is made with.
pub proof fn law_failure(code: i32, msg: String, e: AppError, r: Res<()>)
    requires
        call_ensures(AppError::new, (code, msg), e),
        call_ensures(fail::<()>, (code, msg), r),
    ensures
        e.code == code && e.msg@ == msg@,
        r is Err && r->Err_0.code == code && r->Err_0.msg@ == msg@,
{
}

} // verus!
