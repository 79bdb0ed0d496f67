//! What a task owns besides its scheduling state.
pub mod filetable;
pub mod vm;
pub mod vm_order;
