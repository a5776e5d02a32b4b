//! Errors reported by the registry.
use vstd::prelude::*;
use vstd::string::StringExecFns;

verus! {

/// What went wrong in a registry operation.
#[derive(Debug, Clone, PartialEq, Eq)]
pub enum Error {
    /// No singleton is registered under the name.
    ServiceDoesNotExist(String),
    /// The named singleton has not been built.
    ServiceNotInstantiated(String),
    /// The stored value is not of the requested type.
    FailedToDowncastRefOfService(String),
    /// The named singleton could not be stored.
    FailedToStoreService(String),
    /// A value had to be produced but no factory is registered.
    NoFactoryFunctionAvailable(String),
    /// Storing the named singleton gave no reference back.
    SetFailedToReturnAServiceReference(String),
    /// A factory built a value of another type than requested.
    FailedToDowncastFactoryOutput(String),
    /// Nothing was given to store.
    NoServiceWithStorageRequest,
    /// A freshly drawn identity was already in use.
    FailedToStoreServiceAlias,
    /// A lock was poisoned.
    MutexGotPoison,
    /// The name is already registered.
    ServiceAlreadyExists,
    /// A factory could not be stored.
    FailedToStoreFactory,
    /// Any other failure, described in words.
    UnknownError(String),
}

/// `prefix`, then `s`, then `suffix`.
pub open spec fn framed(prefix: Seq<char>, s: Seq<char>, suffix: Seq<char>) -> Seq<char> {
    prefix + s + suffix
}

/// The human-readable text of an error.
pub open spec fn error_text(e: Error) -> Seq<char> {
    match e {
        Error::ServiceDoesNotExist(s) => framed("Service `"@, s@, "` does not exist"@),
        Error::ServiceNotInstantiated(s) => framed("Service `"@, s@, "` is not instantiated"@),
        Error::FailedToDowncastRefOfService(s) => framed("Failed to downcast service "@, s@, ""@),
        Error::FailedToStoreService(s) => framed("Service `"@, s@, "` Could not be stored"@),
        Error::NoFactoryFunctionAvailable(s) => framed(
            "Service `"@,
            s@,
            "` Does not contain a Factory function"@,
        ),
        Error::SetFailedToReturnAServiceReference(s) => framed(
            "Storing the service `"@,
            s@,
            "` failed to return a reference of the service"@,
        ),
        Error::FailedToDowncastFactoryOutput(s) => framed(
            "Failed to downcast Factory output for service "@,
            s@,
            ""@,
        ),
        Error::NoServiceWithStorageRequest => "No service with storage request"@,
        Error::FailedToStoreServiceAlias => "Service Could not be stored"@,
        Error::MutexGotPoison => "Mutex poison"@,
        Error::ServiceAlreadyExists => "Service already exists"@,
        Error::FailedToStoreFactory => "Failed to store factory"@,
        Error::UnknownError(s) => framed("An unknown error happened: "@, s@, ""@),
    }
}

fn frame(prefix: &str, s: &String, suffix: &str) -> (r: String)
    ensures
        r@ == framed(prefix@, s@, suffix@),
{
    let mut r = String::from_str(prefix);
    r.append(s.as_str());
    r.append(suffix);
    r
}

impl Error {
    /// The human-readable text of this error.
    pub fn message(&self) -> (r: String)
        ensures
            r@ == error_text(*self),
    {
        match self {
            Error::ServiceDoesNotExist(s) => frame("Service `", s, "` does not exist"),
            Error::ServiceNotInstantiated(s) => frame("Service `", s, "` is not instantiated"),
            Error::FailedToDowncastRefOfService(s) => frame("Failed to downcast service ", s, ""),
            Error::FailedToStoreService(s) => frame("Service `", s, "` Could not be stored"),
            Error::NoFactoryFunctionAvailable(s) => frame(
                "Service `",
                s,
                "` Does not contain a Factory function",
            ),
            Error::SetFailedToReturnAServiceReference(s) => frame(
                "Storing the service `",
                s,
                "` failed to return a reference of the service",
            ),
            Error::FailedToDowncastFactoryOutput(s) => frame(
                "Failed to downcast Factory output for service ",
                s,
                "",
            ),
            Error::NoServiceWithStorageRequest => String::from_str("No service with storage request"),
            Error::FailedToStoreServiceAlias => String::from_str("Service Could not be stored"),
            Error::MutexGotPoison => String::from_str("Mutex poison"),
            Error::ServiceAlreadyExists => String::from_str("Service already exists"),
            Error::FailedToStoreFactory => String::from_str("Failed to store factory"),
            Error::UnknownError(s) => frame("An unknown error happened: ", s, ""),
        }
    }
}

impl From<String> for Error {
    fn from(s: String) -> (r: Error)
        ensures
            r == Error::UnknownError(s),
    {
        Error::UnknownError(s)
    }
}

impl vstd::std_specs::convert::FromSpecImpl<String> for Error {
    open spec fn obeys_from_spec() -> bool {
        true
    }

    open spec fn from_spec(s: String) -> Error {
        Error::UnknownError(s)
    }
}

} // verus!
