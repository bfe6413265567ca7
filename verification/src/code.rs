//! The encoder under the names by which a caller that only transmits text
//! knows it.

pub use crate::phrase::Phrase as Code;
pub use crate::word::ParseWordError as ParseCodeError;
