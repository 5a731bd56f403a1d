//! A composable sparse-overlay read layer.
//!
//! A caller reads a position-addressed item stream that is assembled on demand
//! from several underlying sources, where later-registered sources take
//! priority over earlier ones at overlapping offsets and sources may have
//! holes (regions with no data).  The two pillars are the buffer abstraction
//! ([`buf::DataReadBufImpl`]), a fixed-capacity sink with watermark tracking,
//! and the read contract ([`reader::AsyncDataRead`]) together with the
//! adapters built on it: the fixed-patch leaf source, offset remapping,
//! range bounding and the two-way and N-way priority merges.

pub mod buf;
pub mod limit;
pub mod or;
pub mod overlay;
pub mod overlay_list;
pub mod overlay_once;
pub mod reader;
pub mod shift;
pub mod slice;
pub mod utils;
