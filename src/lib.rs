//! Driver logic for small BLE thermal sticker printers: the wire codec, the
//! raster pipeline, the decisions of a print session and the job queue of the
//! print daemon.

pub mod codec;
pub mod daemon;
pub mod raster;
pub mod session;
pub mod text;
