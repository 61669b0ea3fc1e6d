//! A verified client core for the pixelflut wire protocol: a codec for the
//! `PX` and `SIZE` text commands, pure per-pixel color generators, and a
//! driver that assembles one frame of pixels per iteration for each drawing
//! mode. Transport I/O (the stream connection itself) lives outside this
//! library; everything here is plain computation with proved contracts.

pub mod pixel;
pub mod text;
pub mod codec;
pub mod error;
pub mod generators;
pub mod driver;
