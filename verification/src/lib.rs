//! Verified core of a batch PDF page-to-image conversion pipeline.
//!
//! The crate covers the logic of the tool: parsing a page-range
//! expression into a list of 1-based page numbers, deriving pixel
//! dimensions from a page's physical size and a DPI setting, normalizing
//! a renderer's raw pixel buffer into a canonical RGB layout, and the
//! per-page orchestration state (pre-flight bounds check, output file
//! naming, format dispatch). Opening a document, rendering a page and
//! writing encoded files are left to the surrounding binary.

pub mod geometry;
pub mod pipeline;
pub mod pixels;
pub mod range;
pub mod text;
