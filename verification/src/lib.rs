//! Extraction of granted-decision records from bulletin text.
//!
//! The library segments raw bulletin text into candidate record blocks
//! anchored on nine-digit process identifiers, keeps the blocks that carry
//! the granting decision phrase and no representative label, and extracts
//! the record fields from each kept block.  Everything is specified over
//! sequences of characters and verified; only the conversion of document
//! bytes to text is delegated to an outside crate.

pub mod chars;
pub mod scan;
pub mod segmenter;
pub mod classifier;
pub mod extractor;
pub mod pipeline;
pub mod source;
