//! Verified core of a photo-album generator: it decides which files are
//! photos, extracts their EXIF summary, plans WebP conversion, orders and
//! groups the photos into albums, and decides which originals may be removed.

pub mod filename;
pub mod textparse;
pub mod exif_data;
pub mod exif_reader;
pub mod photo;
pub mod ordering;
pub mod grouping;
pub mod album;
pub mod cli;
pub mod wizard;
