//! The error taxonomy: every failure the broker and the header policy
//! can report, with its message text.

use vstd::prelude::*;

verus! {

use vstd::string::StringExecFns;

/// What went wrong. Each variant carries the detail text a log line
/// shows beside it.
#[derive(Debug)]
pub enum HandlerErrorKind {
    /// A member's byte quota was exceeded; the channel is shut down.
    XSDataErr(String),
    /// A member's message quota was exceeded; the channel is shut down.
    XSMessageErr(String),
    /// A socket, datagram, or database file failure.
    IOError(String),
    /// The metrics emitter could not be started.
    MetricsError(String),
    /// No client address could be derived under the trusted-proxy policy.
    BadRemoteAddrError(String),
}

impl HandlerErrorKind {
    /// The label this kind is logged under.
    pub open spec fn label(self) -> Seq<char> {
        match self {
            HandlerErrorKind::XSDataErr(_) => "Excess Data Exchanged: "@,
            HandlerErrorKind::XSMessageErr(_) => "Excess Messages: "@,
            HandlerErrorKind::IOError(_) => "IO Error: "@,
            HandlerErrorKind::MetricsError(_) => "Could not start metrics: "@,
            HandlerErrorKind::BadRemoteAddrError(_) => "Bad remote address: "@,
        }
    }

    /// The detail text the variant carries.
    pub open spec fn detail(self) -> Seq<char> {
        match self {
            HandlerErrorKind::XSDataErr(s) => s@,
            HandlerErrorKind::XSMessageErr(s) => s@,
            HandlerErrorKind::IOError(s) => s@,
            HandlerErrorKind::MetricsError(s) => s@,
            HandlerErrorKind::BadRemoteAddrError(s) => s@,
        }
    }

    /// The full message: the label, then the detail.
    pub fn message(&self) -> (r: String)
        ensures
            r@ == self.label() + self.detail(),
    {
        let (label, detail): (&str, &String) = match self {
            HandlerErrorKind::XSDataErr(s) => ("Excess Data Exchanged: ", s),
            HandlerErrorKind::XSMessageErr(s) => ("Excess Messages: ", s),
            HandlerErrorKind::IOError(s) => ("IO Error: ", s),
            HandlerErrorKind::MetricsError(s) => ("Could not start metrics: ", s),
            HandlerErrorKind::BadRemoteAddrError(s) => ("Bad remote address: ", s),
        };
        let mut r = String::from_str(label);
        r.append(detail.as_str());
        r
    }
}

} // verus!
