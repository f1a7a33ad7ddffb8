//! Repairs the role rows of a catalog whose stored form has drifted, and takes the catalog to its
//! next version.
//!
//! - [`json`]: stored values, and how they are compared, copied and searched.
//! - [`state_update`]: rows, times and changes.
//! - [`role`], [`reading`], [`writing`]: roles, and the rows that stand for them.
//! - [`repair`]: which rows a repair finds unsound, and what it writes for them.
//! - [`upgrade`]: what an upgrade does to a catalog.
//! - [`selection`], [`totals`]: positions, and how often rows are present in all.
//! - [`stored_form`]: which rows read as a role, told member by member.
//! - [`laws`], [`drift`]: what holds of every repair.
//! - [`contracts`]: what a caller may rely on of each operation.
pub mod contracts;
pub mod drift;
pub mod json;
pub mod laws;
pub mod reading;
pub mod repair;
pub mod role;
pub mod selection;
pub mod state_update;
pub mod stored_form;
pub mod totals;
pub mod upgrade;
pub mod writing;
