//! Migration of data written in the legacy stitched format.
pub mod stitched;
