//! Single-slot folding containers.
//!
//! Two small generic wrappers around one accumulated value:
//!
//! - [`Adder`]: folds incoming items into its inner value with the inner
//!   type's own in-place combining operation (the [`Combine`] trait).
//! - [`DynFolder`]: folds incoming items into its inner value with a
//!   combining function chosen by the caller at construction time.

mod adder;
mod dynfolder;

pub use adder::Adder;
pub use adder::Combine;
pub use adder::HasDefault;
pub use adder::can_combine_seq;
pub use adder::combined_seq;
pub use adder::lemma_combined_seq_concat;
pub use adder::lemma_combined_seq_push;
pub use dynfolder::DynFolder;
pub use dynfolder::dyn_fold_req;
pub use dynfolder::dyn_folds_to;
pub use dynfolder::lemma_dyn_folds_to_concat;
pub use dynfolder::lemma_dyn_folds_to_push;
