//! A batch file-renaming library: pure rules that decide, for a filename and
//! a chosen mode, what the new name is, and the traversal policy (hidden-file
//! filtering, extension preservation, recursion flags) that decides which
//! entries receive a rename. All filesystem work is left to the caller.

pub mod app;
pub mod util;
