//! The failure taxonomy, its total mapping to HTTP statuses, and the
//! failure page shown to clients. The page names only the status and a
//! generic message; an I/O cause is never disclosed.

use crate::escape::{html_escape, spec_escaped};
use vstd::prelude::*;

verus! {

/// Outcome kinds for a failed resolution or read: the entity is absent,
/// it resolved outside the trusted root (or became unreadable), or an
/// unexpected I/O condition occurred. The `IoFailure` cause is kept for
/// logging only and never shown to a client.
#[derive(Debug)]
pub enum ResolutionFailure {
    NotFound,
    Forbidden,
    IoFailure(String),
}

/// The HTTP statuses this library ever produces.
#[derive(Clone, Copy, PartialEq, Eq, Structural)]
pub enum HttpStatus {
    Success,
    NotFound,
    Forbidden,
    ServerError,
}

impl HttpStatus {
    /// The numeric status code of each variant.
    pub open spec fn spec_code(self) -> u16 {
        match self {
            HttpStatus::Success => 200,
            HttpStatus::NotFound => 404,
            HttpStatus::Forbidden => 403,
            HttpStatus::ServerError => 500,
        }
    }

    pub fn code(&self) -> (r: u16)
        ensures
            r == self.spec_code(),
    {
        match self {
            HttpStatus::Success => 200,
            HttpStatus::NotFound => 404,
            HttpStatus::Forbidden => 403,
            HttpStatus::ServerError => 500,
        }
    }

    /// The decimal form of each status code.
    pub open spec fn spec_code_str(self) -> Seq<char> {
        match self {
            HttpStatus::Success => "200"@,
            HttpStatus::NotFound => "404"@,
            HttpStatus::Forbidden => "403"@,
            HttpStatus::ServerError => "500"@,
        }
    }

    pub fn code_str(&self) -> (r: &str)
        ensures
            r@ == self.spec_code_str(),
    {
        match self {
            HttpStatus::Success => "200",
            HttpStatus::NotFound => "404",
            HttpStatus::Forbidden => "403",
            HttpStatus::ServerError => "500",
        }
    }
}

/// The status owed to each failure kind: absent entities map to 404,
/// containment violations to 403, and unexpected I/O conditions to 500.
pub open spec fn spec_status_for(f: ResolutionFailure) -> HttpStatus {
    match f {
        ResolutionFailure::NotFound => HttpStatus::NotFound,
        ResolutionFailure::Forbidden => HttpStatus::Forbidden,
        ResolutionFailure::IoFailure(_) => HttpStatus::ServerError,
    }
}

/// Maps a failure to its HTTP status. The mapping is total and fixed.
pub fn status_for(f: &ResolutionFailure) -> (r: HttpStatus)
    ensures
        r == spec_status_for(*f),
{
    match f {
        ResolutionFailure::NotFound => HttpStatus::NotFound,
        ResolutionFailure::Forbidden => HttpStatus::Forbidden,
        ResolutionFailure::IoFailure(_) => HttpStatus::ServerError,
    }
}

/// The generic message shown for each failure kind. An I/O cause is for
/// logging only and never appears here.
pub open spec fn spec_failure_message(f: ResolutionFailure) -> Seq<char> {
    match f {
        ResolutionFailure::NotFound => "Not Found"@,
        ResolutionFailure::Forbidden => "Forbidden"@,
        ResolutionFailure::IoFailure(_) => "Internal Server Error"@,
    }
}

/// The failure page: the status code and message in the title, and the
/// same line escaped in the heading.
pub open spec fn spec_error_page(status: HttpStatus, msg: Seq<char>) -> Seq<char> {
    r#"<!DOCTYPE html><meta charset="utf-8">
<title>"#@
        + status.spec_code_str() + " "@ + msg + r#"</title>
<body style="background:#0b0d12;color:#e5e7eb;font-family:ui-sans-serif,system-ui">
<div style="max-width:700px;margin:5rem auto">
<h1 style="margin-bottom:0.5rem">"#@
        + spec_escaped(status.spec_code_str() + " "@ + msg) + r#"</h1>
<p style="opacity:0.8">The server couldn't complete your request.</p>
<a href="javascript:history.back()" style="color:#a7f3d0">Go back</a>
</div>
</body>"#@
}

/// Renders the failure page for a status and a generic message.
pub fn error_page(status: HttpStatus, msg: &str) -> (r: String)
    ensures
        r@ == spec_error_page(status, msg@),
{
    let mut line = String::new();
    line.append(status.code_str());
    line.append(" ");
    line.append(msg);
    let escaped_line = html_escape(line.as_str());
    let mut out = String::new();
    out.append(
        r#"<!DOCTYPE html><meta charset="utf-8">
<title>"#,
    );
    out.append(line.as_str());
    out.append(
        r#"</title>
<body style="background:#0b0d12;color:#e5e7eb;font-family:ui-sans-serif,system-ui">
<div style="max-width:700px;margin:5rem auto">
<h1 style="margin-bottom:0.5rem">"#,
    );
    out.append(escaped_line.as_str());
    out.append(
        r#"</h1>
<p style="opacity:0.8">The server couldn't complete your request.</p>
<a href="javascript:history.back()" style="color:#a7f3d0">Go back</a>
</div>
</body>"#,
    );
    proof {
        assert(out@ =~= spec_error_page(status, msg@));
    }
    out
}

/// Turns a failure into its HTTP status and failure page. The mapping is
/// total and fixed: absent entities give 404, containment violations 403,
/// unexpected I/O conditions 500, and the page never carries the cause.
pub fn present(f: &ResolutionFailure) -> (r: (HttpStatus, String))
    ensures
        r.0 == spec_status_for(*f),
        r.1@ == spec_error_page(spec_status_for(*f), spec_failure_message(*f)),
{
    let status = status_for(f);
    match f {
        ResolutionFailure::NotFound => (status, error_page(status, "Not Found")),
        ResolutionFailure::Forbidden => (status, error_page(status, "Forbidden")),
        ResolutionFailure::IoFailure(_) => (status, error_page(status, "Internal Server Error")),
    }
}

} // verus!
