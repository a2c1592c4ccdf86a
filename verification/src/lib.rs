//! Discovery of directory-grouped medical-imaging volumes and their
//! materialization as a columnar, schema-typed dataset with column
//! projection and row-limit pushdown.

pub mod batch;
pub mod errors;
pub mod image;
pub mod index;
pub mod paths;
pub mod projection;
pub mod provider;
pub mod reader;
pub mod scan;
pub mod voxels;
