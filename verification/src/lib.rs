//! Indexed region queries over block-compressed, coordinate-sorted files.
//!
//! The crate plans which spans of a compressed stream can hold records that
//! overlap a queried interval, walks those spans, keeps the overlapping
//! records and collects them into row-aligned columns.

pub mod batch;
pub mod bins;
pub mod columns;
pub mod error;
pub mod index;
pub mod laws;
pub mod load;
pub mod merge;
pub mod merge_proofs;
pub mod offset;
pub mod raw;
pub mod record;
pub mod region;
pub mod scan;
pub mod tabix;
pub mod text;
pub mod vcf;
