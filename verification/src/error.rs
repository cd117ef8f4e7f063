use vstd::prelude::*;

verus! {

/// The error kinds of the library.
///
/// Each variant carries the offending input as a plain string, so that
/// callers (and the binary around the library) can render a message without
/// the library doing any formatting of its own.
#[derive(Debug, Clone)]
pub enum Error {
    /// No handler resolves for this MIME type.
    NotFound(String),
    /// The MIME type of the input could not be determined.
    Ambiguous(String),
    /// A user-supplied MIME string is not a known or synthetic MIME type.
    BadMime(String),
    /// A MIME string is syntactically malformed.
    InvalidMime(String),
    /// A desktop entry file is malformed (missing name or exec).
    BadEntry(String),
    /// An exec template cannot be turned into a command line.
    BadCmd,
    /// A regex handler's pattern list failed to compile.
    BadRegex,
    /// The selector process could not be driven.
    Selector(String),
    /// The interactive selection was aborted by the user.
    Cancelled,
    /// No terminal emulator is configured or discoverable.
    NoTerminal,
    /// A file URL does not denote a usable local path.
    BadPath(String),
    /// The user override file itself is malformed at the given line.
    ParseApps(String),
}

impl Error {
    /// A human-readable description of the error.
    pub fn message(&self) -> (r: String)
    {
        match self {
            Error::NotFound(m) => String::from_str("no handlers found for '").concat(m.as_str()).concat("'"),
            Error::Ambiguous(p) => String::from_str("could not figure out the mime type of '").concat(p.as_str()).concat("'"),
            Error::BadMime(m) => String::from_str("bad mime: ").concat(m.as_str()),
            Error::InvalidMime(m) => String::from_str("malformed mime: ").concat(m.as_str()),
            Error::BadEntry(p) => String::from_str("malformed desktop entry at ").concat(p.as_str()),
            Error::BadCmd => String::from_str("bad exec command"),
            Error::BadRegex => String::from_str("regex handler pattern failed to compile"),
            Error::Selector(s) => String::from_str("error spawning selector process '").concat(s.as_str()).concat("'"),
            Error::Cancelled => String::from_str("selection cancelled"),
            Error::NoTerminal => String::from_str("please specify the default terminal with handlr set x-scheme-handler/terminal"),
            Error::BadPath(p) => String::from_str("bad path: ").concat(p.as_str()),
            Error::ParseApps(l) => String::from_str("malformed line in mimeapps list: ").concat(l.as_str()),
        }
    }
}

} // verus!
