//! Coverage analysis for elicitation crates: inventories of public items, trait coverage,
//! shadow crates, gaps and the reports made of them.

pub mod collect;
pub mod count;
pub mod date;
pub mod distinct;
pub mod docs;
pub mod edits;
pub mod error;
pub mod extract;
pub mod features;
pub mod gaps;
pub mod harness;
pub mod impl_coverage;
pub mod inventory;
pub mod laws;
pub mod metadata;
pub mod order;
pub mod report;
pub mod rustdoc;
pub mod session;
pub mod shadow;
pub mod summary;
pub mod table;
pub mod text;
pub mod trenchcoat;

pub use collect::{collect_trait_prereqs, TraitPrereqs};
pub use error::{ElicitDocError, ElicitDocErrorKind, ElicitDocResult};
pub use extract::collect_inventory;
pub use gaps::{build_impl_gaps, build_shadow_gaps};
pub use gaps::{ImplGapEntry, ImplGapKind, ShadowGapEntry, ShadowGapKind};
pub use harness::{collect_proof_harness, ProofHarness};
pub use impl_coverage::{build_impl_coverage_report, ImplStatus, TestStatus};
pub use impl_coverage::{ImplCoverageEntry, ImplCoverageReport};
pub use inventory::{Inventory, Item, ItemKind};
pub use report::{write_impl_coverage_csv, write_impl_gaps_csv};
pub use report::{write_shadow_csv, write_shadow_gaps_csv};
pub use shadow::{build_shadow_report, ShadowReport};
pub use summary::write_summary_md;
pub use trenchcoat::{WrapperCoverage, WrapperCoverageMap};
