//! Verified core of a RAW image ingestion pipeline: demosaicing of Bayer
//! mosaics into 8-bit sRGB frames, EXIF orientation transforms, format
//! dispatch, and directory navigation.

pub mod codecs;
pub mod demosaic;
pub mod laws;
pub mod navigator;
pub mod frame;
pub mod orient;
pub mod pipeline;
pub mod util;
pub mod wide;
