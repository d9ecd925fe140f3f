//! Projections: text artifacts (Terraform HCL, Procfiles, wrangler.toml)
//! rendered from parsed descriptions, with no I/O of their own.

pub mod terraform;
pub mod procfile;
pub mod wrangler;
pub mod json_schema;
