//! Resolves a loaded module's base address from a snapshot of the process
//! loader list, parses the module's export directory out of a bounds-checked
//! view of its mapped bytes, recognises system-call stubs, and offers the
//! resulting catalog for lookup and rendering.
pub mod image;
pub mod stub;
pub mod exports;
pub mod loader;
pub mod catalog;
pub mod render;
