//! Verified core logic of the Miden virtual machine tool chain.
use vstd::prelude::*;

pub mod ace_layout;
pub mod advice;
pub mod debug_info;
pub mod felt;
pub mod forest;
pub mod forest_error;
pub mod history;
pub mod leaf_table;
pub mod instance;
pub mod source_debug;
pub mod word;
pub mod debug_merge;
pub mod digest;
pub mod entries;
pub mod package_debug;
pub mod project;
pub mod random;
pub mod serialization;

verus! {

} // verus!
