pub mod env;
pub mod error;
pub mod media;
pub mod text;
pub mod tools;

pub use error::Error;

use vstd::prelude::*;

verus! {

/// The result of the library's checks.
pub type Result<T> = std::result::Result<T, Error>;

} // verus!
