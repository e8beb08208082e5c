//! The command-line surface, as plain values.

use vstd::prelude::*;

verus! {

/// Everything the command line decides.  The binary parses its arguments
/// into this; the broker reads only `daemon` and the paths.
#[derive(Debug)]
pub struct Args {
    /// Directory containing the job-declaration files.
    pub dir: String,
    /// The secret-service base URL.
    pub url: String,
    /// The service login endpoint.
    pub login_path: String,
    /// Comma-separated template library search paths.
    pub jpath: Option<String>,
    /// Path of the service CA certificate.
    pub cacert: String,
    /// Token environment-variable name, or the literal token.
    pub token: Option<String>,
    /// Path of the token file, used when `token` is absent.
    pub token_path: String,
    /// Verbose logging.
    pub verbose: bool,
    /// Readiness file descriptor.
    pub ready_fd: Option<i32>,
    /// Keep running to renew leased secrets.
    pub daemon: bool,
}

} // verus!
