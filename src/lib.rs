//! A write sink that rotates its output file once a size or age threshold is
//! crossed and prunes old rotated files.
//!
//! The library holds the rotation logic: recovery of the current index from a
//! directory listing, the rotate-or-not decision, the names of rotated files,
//! the choice of files to prune and the order of the steps of a write. Each
//! step is handed to a driver that performs the file operations.
pub mod config;
pub mod naming;
pub mod rng;
pub mod rotation;
pub mod stream;

pub use config::{check_options, PruneCondition, RotationCondition, RotationError};
pub use naming::{active_filename, filename_to_details};
pub use rng::{rotr32, PCG32Rand};
pub use rotation::{ActiveFileInfo, DirEntryInfo, RotatingFile, WriteStep};
