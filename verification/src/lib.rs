//! Detects functions in a compiled binary that are byte-for-byte duplicates
//! (after re-encoding position-dependent instructions at a shared address)
//! and reports how many bytes, functions and copies are excess.
//!
//! The caller hands in plain records of the binary's sections and symbols
//! (`model`); `analyze` derives a relocation-invariant comparison key per
//! eligible symbol (`keys`, `canon`, `demangle`), groups equal keys
//! (`groups`), computes the reported totals (`summary`), and `sorting`
//! orders the duplicate groups for reporting. `laws` states and proves what
//! the pass guarantees.

pub mod analyze;
pub mod canon;
pub mod demangle;
pub mod groups;
pub mod keys;
pub mod laws;
pub mod model;
pub mod sorting;
pub mod summary;
