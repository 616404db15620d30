//! Error type shared across the library.

use vstd::prelude::*;

verus! {

/// A failure, with a human-readable message. Outside failures (file system,
/// database, JSON) arrive here already rendered as text.
#[derive(Debug, Clone, PartialEq, Eq)]
pub enum Error {
    Io(String),
    Sqlite(String),
    Json(String),
    Password(String),
    Hosts(String),
    Blocklist(String),
    /// A change was refused because a locked ("Cold Turkey") session forbids it.
    Locked(String),
    Other(String),
}

pub type Result<T> = std::result::Result<T, Error>;

impl Error {
    pub fn other(msg: &str) -> (r: Self)
        ensures
            r matches Error::Other(m) && m@ == msg@,
    {
        Error::Other(msg.to_string())
    }

    /// The message, prefixed the way the error is displayed.
    pub fn message(&self) -> (r: String)
        ensures
            r@ == self.display(),
    {
        let mut out: Vec<char> = Vec::new();
        let m = match self {
            Error::Io(m) => {
                crate::text::push_str(&mut out, "i/o error: ");
                m
            },
            Error::Sqlite(m) => {
                crate::text::push_str(&mut out, "database error: ");
                m
            },
            Error::Json(m) => {
                crate::text::push_str(&mut out, "json error: ");
                m
            },
            Error::Password(m) => {
                crate::text::push_str(&mut out, "password hashing error: ");
                m
            },
            Error::Hosts(m) => {
                crate::text::push_str(&mut out, "hosts file: ");
                m
            },
            Error::Blocklist(m) => {
                crate::text::push_str(&mut out, "blocklist: ");
                m
            },
            Error::Locked(m) => {
                crate::text::push_str(&mut out, "locked session: ");
                m
            },
            Error::Other(m) => m,
        };
        crate::text::push_str(&mut out, m.as_str());
        crate::text::string_of(&out)
    }

    /// How the error reads when displayed.
    pub open spec fn display(&self) -> Seq<char> {
        match self {
            Error::Io(m) => "i/o error: "@ + m@,
            Error::Sqlite(m) => "database error: "@ + m@,
            Error::Json(m) => "json error: "@ + m@,
            Error::Password(m) => "password hashing error: "@ + m@,
            Error::Hosts(m) => "hosts file: "@ + m@,
            Error::Blocklist(m) => "blocklist: "@ + m@,
            Error::Locked(m) => "locked session: "@ + m@,
            Error::Other(m) => m@,
        }
    }
}

} // verus!
