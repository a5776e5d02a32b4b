//! Types that know their own registration name and how to build themselves.
use crate::error::Error;
use vstd::prelude::*;

verus! {

/// A service that names itself and builds its own singleton value, so that it
/// can be handed to `SingletonManager::provide`.
pub trait SingletonProvider {
    /// The type of the singleton value.
    type Output: 'static;

    /// The error of building the value.
    type Error: Into<Error>;

    /// The registered singleton of this service.
    fn service() -> Result<&'static mut Self::Output, Self::Error>;

    /// The name to register the singleton under.
    fn get_name(&self) -> &'static str;

    /// Builds the singleton value.
    fn get_service(&self) -> Result<Self::Output, Self::Error>;
}

} // verus!
