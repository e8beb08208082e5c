//! The error values of the library.

use vstd::prelude::*;

verus! {

/// Everything that can go wrong while parsing a secret path, substituting
/// environment variables or planning and finishing a fetch.
///
/// The first five variants are the parse failures of the secret-path
/// grammar; the rest belong to the backend dispatch and the substitutor.
#[derive(Debug, PartialEq, Eq)]
pub enum Error {
    /// The reference has no leading alphabetic backend token.
    MissingBackend,
    /// No `:` after the backend, or an empty or malformed args segment.
    MissingArgs(String),
    /// No `:` after the args, or an empty path segment.
    MissingPath(String),
    /// Text after the path segment, starting at the offending `:`.
    ExtraData(String),
    /// An alphabetic token that matches no known backend prefix.
    UnknownBackend(String),
    /// A backend reference without the positional argument naming the role.
    MissingRole(String),
    /// A positional argument outside its allowed set: expected choice, then
    /// the offending reference.
    ExpectedArg(String, String),
    /// A command line whose program is not an absolute path: the reference,
    /// then the program.
    RelativePath(String, String),
    /// A subprocess that exited unsuccessfully: command line, exit code,
    /// captured standard error.
    CmdError(String, i32, String),
    /// Text that does not parse as JSON: the offending source description.
    ParseError(String),
    /// An environment variable that `${NAME}` substitution cannot resolve.
    UnknownVar(String),
    /// A `${` without its matching `}`.
    RightBrace,
}

/// The rendering of each error as text.
pub open spec fn spec_message(e: Error) -> Seq<char> {
    match e {
        Error::MissingBackend => "missing the backend argument"@,
        Error::MissingArgs(s) => "missing a \":\" to separate backend and arguments somewhere in \""@
            + s@ + "\""@,
        Error::MissingPath(s) => "missing a \":\" to separate arguments and path somewhere in \""@
            + s@ + "\""@,
        Error::ExtraData(s) => "extra data after path \""@ + s@ + "\""@,
        Error::UnknownBackend(s) => "unknown backend \""@ + s@ + "\""@,
        Error::MissingRole(s) => "missing role in "@ + s@,
        Error::ExpectedArg(what, on) => "expected argument "@ + what@ + " on "@ + on@,
        Error::RelativePath(p, cmd) => "in \""@ + p@ + "\", command \""@ + cmd@
            + "\" should be absolute and start with /"@,
        Error::CmdError(cmd, code, stderr) => "command \""@ + cmd@ + "\" failed:\n"@ + stderr@,
        Error::ParseError(s) => "failed to parse \""@ + s@ + "\""@,
        Error::UnknownVar(n) => "unable to substitute ${"@ + n@ + "}"@,
        Error::RightBrace => "no matching } found"@,
    }
}

impl Error {
    /// Human-readable description of the error.
    pub fn message(&self) -> (r: String)
        ensures
            r@ == spec_message(*self),
    {
        match self {
            Error::MissingBackend => String::from_str("missing the backend argument"),
            Error::MissingArgs(s) => String::from_str(
                "missing a \":\" to separate backend and arguments somewhere in \"",
            ).concat(s.as_str()).concat("\""),
            Error::MissingPath(s) => String::from_str(
                "missing a \":\" to separate arguments and path somewhere in \"",
            ).concat(s.as_str()).concat("\""),
            Error::ExtraData(s) => String::from_str("extra data after path \"").concat(
                s.as_str(),
            ).concat("\""),
            Error::UnknownBackend(s) => String::from_str("unknown backend \"").concat(
                s.as_str(),
            ).concat("\""),
            Error::MissingRole(s) => String::from_str("missing role in ").concat(s.as_str()),
            Error::ExpectedArg(what, on) => String::from_str("expected argument ").concat(
                what.as_str(),
            ).concat(" on ").concat(on.as_str()),
            Error::RelativePath(p, cmd) => String::from_str("in \"").concat(p.as_str()).concat(
                "\", command \"",
            ).concat(cmd.as_str()).concat("\" should be absolute and start with /"),
            Error::CmdError(cmd, _code, stderr) => String::from_str("command \"").concat(
                cmd.as_str(),
            ).concat("\" failed:\n").concat(stderr.as_str()),
            Error::ParseError(s) => String::from_str("failed to parse \"").concat(
                s.as_str(),
            ).concat("\""),
            Error::UnknownVar(n) => String::from_str("unable to substitute ${").concat(
                n.as_str(),
            ).concat("}"),
            Error::RightBrace => String::from_str("no matching } found"),
        }
    }
}

} // verus!
