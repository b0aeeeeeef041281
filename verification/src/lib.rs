//! Verified core of the paideia-as elaborator.

pub mod closure_frames;
pub mod digest;
pub mod emit_ledger;
pub mod enum_layout;
pub mod enum_registry;
pub mod env;
pub mod file_module;
pub mod fingerprints;
pub mod frame_stubs;
pub mod functor_apply;
pub mod hygiene;
pub mod imm64_expand;
pub mod incremental;
pub mod intrinsics;
pub mod ir;
pub mod walk_plan;
