//! Show an image or a video on a specific monitor, or on a specific
//! quadrilateral of one, without FFmpeg and without a codec anyone charges
//! for.
//!
//! This crate is the part of that which decides and computes: what a file is,
//! how its bitstream is shaped, how a decoded picture is laid out in memory,
//! which decoder would take it, and when each frame is due. Everything it
//! states about those is proved.
//!
//! # Royalty-free, which is a design constraint rather than a preference
//!
//! vtome *writes* AV1 and VP9, both royalty-free. It never writes H.264 or
//! HEVC. It *reads* them through the decoder the operating system already
//! ships and already licensed. [`identify::Encoding::is_royalty_free`] is the
//! same rule in code.

pub mod text;
pub mod time;
pub mod error;
pub mod identify;
pub mod bitstream;
pub mod color;
pub mod frame;
pub mod media;
pub mod clock;
pub mod decode;
pub mod render;
pub mod still;
pub mod demux;
pub mod placement;

pub use clock::{Action, MasterClock, Pacing};
pub use color::ColorSpace;
pub use decode::Decoder;
pub use error::{Error, Result};
pub use frame::{Frame, FramePool, PixelFormat};
pub use identify::{identify_bytes, Container, Encoding};
pub use media::{MediaInfo, Packet, TrackInfo, TrackKind};
pub use still::load_image_bytes;
pub use time::Duration;
