//! A dynamically typed, recursively structured value model: scalars with a
//! total order and best-effort coercions, and containers addressed by keys.

pub mod bytes;
pub mod error;
pub mod keygen;
pub mod scalar;
pub mod variant;

pub use error::{ErrorKind, Exception};
pub use keygen::generate_key;
pub use scalar::SimpleValue;
pub use variant::{Key, Variant};
