//! Staged, non-destructive image editing: pixel transforms over RGBA rasters, the state of an
//! image viewer that previews an edit before it is committed, the names of its scratch files,
//! and the debouncing of change notifications for the watched file.

pub mod pixel;
pub mod cleanup;
pub mod gray;
pub mod job;
pub mod raster;
pub mod tempfiles;
pub mod threshold;
pub mod viewer;
pub mod watch;
