//! What the analyses promise as a whole, stated of their inputs and results.

pub mod basics;
pub mod collect;
pub mod contents;
pub mod date;
pub mod extract;
pub mod features;
pub mod gaps;
pub mod harness;
pub mod impl_coverage;
pub mod inventory;
pub mod metadata;
pub mod order;
pub mod report;
pub mod rustdoc;
pub mod session;
pub mod shadow;
pub mod shadow_names;
pub mod sorting;
pub mod summary;
pub mod text;
pub mod trenchcoat;
