//! Bit-sets for coverage tracking: a mapping from the indices `0 .. len` to
//! "seen" or "not seen", with the number of seen indices always at hand.
//!
//! [`BitmapTrait`] is the contract, stated over a sequence of booleans.
//! [`Bitmap`] meets it with bytes and a running count, [`SparseBitmap`] with
//! the list of the set indices. The module `laws` holds what follows for the
//! operations taken together, and `entropy` the reading of a random number
//! from the bytes of the system's entropy device.

pub mod byte;
pub mod contract;
pub mod dense;
pub mod entropy;
pub mod error;
pub mod laws;
pub mod model;
pub mod sparse;

pub use crate::byte::popcount8;
pub use crate::contract::BitmapTrait;
pub use crate::dense::Bitmap;
pub use crate::entropy::rand64_from_read;
pub use crate::error::BitmapError;
pub use crate::sparse::SparseBitmap;
