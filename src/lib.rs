//! Environment-variable bridge and source-file registration for an embedded
//! interpreter, with contracts checked by Verus.

pub mod bytes;
pub mod env;
pub mod load;
pub mod vfs;
