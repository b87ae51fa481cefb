//! Linear regression by batch gradient descent: the parts that decide.
//!
//! The crate holds the text format of a dataset, the shape rules of the
//! matrices that a fit works on, and the iteration discipline of the fit.
//! Every function carries a contract that is proved. The arithmetic on the
//! numbers themselves is the caller's: a matrix here is generic in the type
//! of its cells, and the update of one descent step is handed in as a
//! function.

pub mod design;
pub mod fields;
pub mod loader;
pub mod matrix;
pub mod number;
pub mod optimizer;
