//! Status codes: five classes, each carrying a numeric code, and the reason
//! phrase that belongs to a (class, code) pair.

use vstd::prelude::*;

verus! {

/// A status code together with the class it was issued under.
#[derive(Clone, Copy, Debug, PartialEq, Eq, Structural)]
pub enum HTTPStatusCode {
    Info(usize),
    Success(usize),
    Redirect(usize),
    ClientError(usize),
    ServerError(usize),
}

/// The phrase used for every (class, code) pair without a canonical phrase.
pub open spec fn unknown_reason() -> Seq<char> {
    "Unknown Error"@
}

impl HTTPStatusCode {
    /// The numeric code, whatever the class.
    pub open spec fn spec_code(self) -> nat {
        match self {
            HTTPStatusCode::Info(c) => c as nat,
            HTTPStatusCode::Success(c) => c as nat,
            HTTPStatusCode::Redirect(c) => c as nat,
            HTTPStatusCode::ClientError(c) => c as nat,
            HTTPStatusCode::ServerError(c) => c as nat,
        }
    }

    /// The canonical reason phrase of a (class, code) pair. A code that is
    /// known under one class has no phrase under another.
    pub open spec fn reason(self) -> Seq<char> {
        match self {
            HTTPStatusCode::Info(c) => if c == 100 {
                "Continue"@
            } else {
                unknown_reason()
            },
            HTTPStatusCode::Success(c) => if c == 200 {
                "Success"@
            } else {
                unknown_reason()
            },
            HTTPStatusCode::Redirect(_) => unknown_reason(),
            HTTPStatusCode::ClientError(c) => if c == 400 {
                "Bad Request"@
            } else if c == 401 {
                "Unauthorized"@
            } else if c == 402 {
                "Payment Required"@
            } else if c == 403 {
                "Forbidden"@
            } else if c == 404 {
                "Not Found"@
            } else if c == 413 {
                "Payload Too Large"@
            } else {
                unknown_reason()
            },
            HTTPStatusCode::ServerError(c) => if c == 500 {
                "Internal Server Error"@
            } else {
                unknown_reason()
            },
        }
    }

    /// Returns the numeric code.
    pub fn code(&self) -> (c: usize)
        ensures
            c as nat == self.spec_code(),
    {
        match self {
            HTTPStatusCode::Info(code) => *code,
            HTTPStatusCode::Success(code) => *code,
            HTTPStatusCode::Redirect(code) => *code,
            HTTPStatusCode::ClientError(code) => *code,
            HTTPStatusCode::ServerError(code) => *code,
        }
    }

    /// Returns the reason phrase: the canonical one where the pair has one,
    /// `"Unknown Error"` otherwise.
    pub fn message(&self) -> (m: &'static str)
        ensures
            m@ == self.reason(),
    {
        match self {
            HTTPStatusCode::Info(100) => "Continue",
            HTTPStatusCode::Success(200) => "Success",
            HTTPStatusCode::ClientError(400) => "Bad Request",
            HTTPStatusCode::ClientError(401) => "Unauthorized",
            HTTPStatusCode::ClientError(402) => "Payment Required",
            HTTPStatusCode::ClientError(403) => "Forbidden",
            HTTPStatusCode::ClientError(404) => "Not Found",
            HTTPStatusCode::ClientError(413) => "Payload Too Large",
            HTTPStatusCode::ServerError(500) => "Internal Server Error",
            _ => "Unknown Error",
        }
    }
}

} // verus!
