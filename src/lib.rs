//! A registry of named, type-erased singletons with lazily run factories.
use vstd::prelude::*;

pub mod erased;
pub mod error;
pub mod identity;
pub mod manager;
pub mod provider;
pub mod table;

pub use erased::Factory;
pub use error::Error;
pub use manager::SingletonManager;
pub use provider::SingletonProvider;

verus! {

/// The result of a registry operation.
pub type Result<T> = std::result::Result<T, Error>;

} // verus!
