//! Error types native to the title-generation core.
//!
//! Configuration validation is the only failing operation: every text
//! transformation is total over its input domain.

use vstd::prelude::*;

verus! {

#[derive(Clone, Debug)]
pub enum Error {
    /// The model name is not in the fixed set of supported models.
    UnsupportedModel { name: String },
    /// The temperature, in tenths, lies outside 1..=10.
    InvalidTemperature { tenths: u8 },
    /// The maximum title length is zero.
    InvalidMaxLength { length: usize },
}

} // verus!
