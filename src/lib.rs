//! A one-shot host audit: which blacklisted tools are running, what the GPU
//! diagnostics tool reports, and whether the shadow-password file is closed
//! to other users. The functions here decide; the caller gathers the facts.

pub mod file_integrity;
pub mod gpu_probe;
pub mod process_scan;
