//! Finds cover-art images in a directory snapshot and turns each into a
//! fixed-size square bitmap thumbnail.

pub mod convert;
pub mod discover;
pub mod naming;
pub mod picture;

pub use convert::{process_cover, status_line, tally, thumbnail, ConvertError, Outcome};
pub use discover::{find_covers, keeps_candidate, needs_conversion, process_entry, Entry, Existing};
pub use naming::{is_cover_name, output_name, SKIP_THRESHOLD, TARGET_SIZE};
pub use picture::Picture;
