//! A content-addressed chunk store for a self-encrypting data pipeline, and the
//! flat-buffer bridge through which input and results cross a narrow call boundary
//! (scalar values and indexed byte reads and writes only).

pub mod assemble;
pub mod bridge;
pub mod store;
pub mod url;
