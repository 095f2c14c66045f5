//! Decoders for a family of 1990s game asset formats: archive catalogs
//! (random-access and sequential), indexed-color images, palettes, sprite
//! atlases with offset-based deduplication, digitized audio chunk streams,
//! a text level grammar, and wall-segment-to-polygon reconstruction.
//!
//! Every decoder is a pure function over a byte slice; callers obtain the
//! bytes (from files or elsewhere) and hand them in.

pub mod bm;
pub mod common;
pub mod error;
pub mod fme;
pub mod geometry;
pub mod gob;
pub mod lev;
pub mod lfd;
pub mod pal;
pub mod voc;
pub mod wax;
