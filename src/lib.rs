//! Capture-and-crop pipeline for rendered report charts: the pixel scan that
//! trims white margins, the naming of report sources and outputs, the
//! decisions of the queue watcher, and the framing of image bytes.

pub mod bitmap;
pub mod crop;
pub mod laws;
pub mod naming;
pub mod queue;
pub mod drain;
pub mod imaging;
