//! A matrix-multiplication engine built around a fixed pool of workers.
//!
//! A multiply request is partitioned into one work item per output cell;
//! items are assigned to workers by a deterministic rule (`idx % n`), each
//! worker reduces its queue to one dot product per item, and the replies are
//! collected back into the output matrix by the index each reply carries, so
//! the result does not depend on the order in which replies arrive.

pub mod error;
pub mod matrix;
pub mod vector;

pub use error::Error;
pub use matrix::Matrix;
pub use matrix::MsgInput;
pub use matrix::MsgOutput;
pub use matrix::multiply;
pub use vector::Vector;
pub use vector::dot_product;
