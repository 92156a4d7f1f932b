//! Error kinds reported while resolving and waking targets. Each carries the
//! offending token so a caller can name it in a report.

use vstd::prelude::*;

verus! {

/// What went wrong with one target.
///
/// `ResolutionError` holds a lookup name absent from the table;
/// `FormatError` holds a malformed hardware-address string;
/// `TransmitError` and `ConfigError` hold text describing a failed network
/// send or an unusable configuration file, and are produced only by the I/O
/// shell around this library.
#[derive(Debug)]
pub enum WakeError {
    ResolutionError(String),
    FormatError(String),
    TransmitError(String),
    ConfigError(String),
}

} // verus!
