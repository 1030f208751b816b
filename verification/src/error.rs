//! Errors of the client, and the messages shown for them.
use vstd::prelude::*;

verus! {

/// What can go wrong talking to Fastmail. Transport, JSON and I/O failures
/// carry the message of the underlying error.
#[derive(Debug)]
pub enum Error {
    NotAuthenticated,
    /// Authentication was rejected by the server. The reason is a static
    /// literal, so no token can end up in an error message.
    InvalidToken(&'static str),
    Http(String),
    Json(String),
    Io(String),
    Jmap { method: String, error_type: String, description: String },
    MailboxNotFound(String),
    EmailNotFound(String),
    IdentityNotFound,
    IdentityNotFoundForEmail(String),
    Config(String),
    RateLimited,
    Server(String),
}

/// The message shown for an error.
pub open spec fn error_message(e: Error) -> Seq<char> {
    match e {
        Error::NotAuthenticated => "Authentication required. Run `fastmail-cli auth <token>` first."@,
        Error::InvalidToken(r) => "Invalid API token: "@ + r@,
        Error::Http(m) => "HTTP error: "@ + m@,
        Error::Json(m) => "JSON error: "@ + m@,
        Error::Io(m) => "IO error: "@ + m@,
        Error::Jmap { method, error_type, description } => "JMAP error: "@ + method@ + " failed - "@
            + error_type@ + ": "@ + description@,
        Error::MailboxNotFound(m) => "Mailbox not found: "@ + m@,
        Error::EmailNotFound(m) => "Email not found: "@ + m@,
        Error::IdentityNotFound => "Identity not found for sending"@,
        Error::IdentityNotFoundForEmail(m) => "No identity found matching '"@ + m@
            + "'. Run `fastmail-cli list identities` to see available identities."@,
        Error::Config(m) => "Config error: "@ + m@,
        Error::RateLimited => "Rate limited. Try again later."@,
        Error::Server(m) => "Server error: "@ + m@,
    }
}

/// `a` followed by `b`, as a new string.
fn joined(a: &str, b: &str) -> (s: String)
    ensures
        s@ == a@ + b@,
{
    let mut s = a.to_owned();
    s.append(b);
    s
}

impl Error {
    /// The message shown for this error.
    pub fn message(&self) -> (s: String)
        ensures
            s@ == error_message(*self),
    {
        match self {
            Error::NotAuthenticated => "Authentication required. Run `fastmail-cli auth <token>` first.".to_owned(),
            Error::InvalidToken(r) => joined("Invalid API token: ", r),
            Error::Http(m) => joined("HTTP error: ", m.as_str()),
            Error::Json(m) => joined("JSON error: ", m.as_str()),
            Error::Io(m) => joined("IO error: ", m.as_str()),
            Error::Jmap { method, error_type, description } => {
                let mut s = joined("JMAP error: ", method.as_str());
                s.append(" failed - ");
                s.append(error_type.as_str());
                s.append(": ");
                s.append(description.as_str());
                s
            },
            Error::MailboxNotFound(m) => joined("Mailbox not found: ", m.as_str()),
            Error::EmailNotFound(m) => joined("Email not found: ", m.as_str()),
            Error::IdentityNotFound => "Identity not found for sending".to_owned(),
            Error::IdentityNotFoundForEmail(m) => {
                let mut s = joined("No identity found matching '", m.as_str());
                s.append(
                    "'. Run `fastmail-cli list identities` to see available identities.",
                );
                s
            },
            Error::Config(m) => joined("Config error: ", m.as_str()),
            Error::RateLimited => "Rate limited. Try again later.".to_owned(),
            Error::Server(m) => joined("Server error: ", m.as_str()),
        }
    }
}

} // verus!
