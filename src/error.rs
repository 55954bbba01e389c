//! Errors that stop the listener from starting.
use vstd::prelude::*;

verus! {

/// Declares `std::io::Error` so that a bind failure can be carried as it is.
#[verifier::external_type_specification]
#[verifier::external_body]
pub struct ExIoError(std::io::Error);

/// Why the listener could not be set up.
#[derive(Debug)]
pub enum ServerError {
    /// The configured port is not a decimal number in `0..=65535`.
    InvalidPort(String),
    /// The configured listen address is neither an IPv4 nor an IPv6 address.
    InvalidIpAddress(String),
    /// Binding the listening socket failed.
    ListenError(std::io::Error),
}

} // verus!
