//! What a language runtime tells the collector about its objects, its
//! threads and its roots.

pub mod object_model;
pub mod slot;
pub mod vm_binding;
