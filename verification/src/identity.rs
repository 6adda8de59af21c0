//! Who runs the program, and on what: the facts that the operating system is
//! asked for directly.
use crate::error::FactError;
use vstd::prelude::*;

verus! {

/// `std::io::Error`, with which the operating system answers a lookup that
/// failed. It is carried through as it is: nothing is read from it, and
/// nothing is claimed of it.
#[verifier::external_type_specification]
#[verifier::external_body]
pub struct ExIoError(std::io::Error);

/// The login name of the current user, as `whoami::username` reports it.
/// Nothing is claimed of the name: it is whatever the operating system holds.
#[verifier::external_body]
fn whoami_username() -> (name: String) {
    whoami::username()
}

/// The host name, as `whoami::fallible::hostname` reports it, or the error
/// of the operating system where it has none to give. Nothing is claimed of
/// either.
#[verifier::external_body]
fn whoami_hostname() -> (name: Result<String, std::io::Error>) {
    whoami::fallible::hostname()
}

/// The name and version of the operating system distribution, as
/// `whoami::distro` reports it. Nothing is claimed of the text.
#[verifier::external_body]
fn whoami_distro() -> (name: String) {
    whoami::distro()
}

/// The login name of the current user.
pub fn get_username() -> String {
    whoami_username()
}

/// What a host name lookup comes to: the name where there is one, and
/// otherwise the report that it is unavailable.
pub fn hostname_from(lookup: Result<String, std::io::Error>) -> (r: Result<String, FactError>)
    ensures
        match lookup {
            Ok(name) => r == Ok::<String, FactError>(name),
            Err(_) => r == Err::<String, FactError>(FactError::Unavailable),
        },
{
    match lookup {
        Ok(name) => Ok(name),
        Err(_) => Err(FactError::Unavailable),
    }
}

/// The host name of the machine. Where the operating system gives none, the
/// fact is unavailable.
pub fn get_hostname() -> (r: Result<String, FactError>)
    ensures
        r matches Err(e) ==> e == FactError::Unavailable,
{
    hostname_from(whoami_hostname())
}

/// The name and version of the operating system distribution.
pub fn get_distro() -> String {
    whoami_distro()
}

} // verus!
