//! Embedding of remote images into EPUB files.

pub mod book;
pub mod bytes;
pub mod candidates;
pub mod device_profiles;
pub mod disk_cache;
pub mod download;
pub mod downloader;
pub mod embed_images;
pub mod image_optimizer;
pub mod images;
pub mod location;
pub mod xml;
