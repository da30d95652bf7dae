//! What the kernel expects of a file.

pub mod file_status;
