//! Random secrets drawn from a symbol catalogue, with an estimate of the
//! entropy that survives the constraints placed on the output.

pub mod args;
pub mod crypt;
pub mod entropy;
pub mod err;
pub mod lines;
pub mod order;
pub mod random;
pub mod search;
pub mod sequence;
pub mod symbol;
pub mod validate;
