//! One error type for the whole crate.
//!
//! Every variant carries the thing a person needs to act: the path, the
//! encoding that had no decoder, the feature that was not compiled in.

use vstd::prelude::*;

use crate::identify::Encoding;

verus! {

/// A path on disk, carried through errors as it was given.
#[verifier::external_type_specification]
#[verifier::external_body]
pub struct ExPathBuf(std::path::PathBuf);

/// What the operating system said about a failed read.
#[verifier::external_type_specification]
#[verifier::external_body]
pub struct ExIoError(std::io::Error);

/// What went wrong.
#[derive(Debug)]
#[non_exhaustive]
pub enum Error {
    /// The file, or the call, was about something not implemented here.
    Unsupported {
        /// What cannot be done, and what to do instead.
        what: String,
    },
    /// The bytes are a container this crate cannot read.
    UnknownContainer {
        /// The file.
        path: std::path::PathBuf,
        /// What identification made of it.
        found: String,
    },
    /// Nothing in this build can decode that encoding on this machine.
    NoDecoder {
        /// The encoding that went unhandled.
        encoding: Encoding,
        /// The feature to enable, or the platform that would have done it.
        remedy: String,
    },
    /// The container is malformed, or ends where it should not.
    Demux {
        /// The file.
        path: std::path::PathBuf,
        /// What did not add up.
        reason: String,
    },
    /// A decoder rejected a packet, or a bitstream did not parse.
    Decode {
        /// What was being decoded.
        encoding: Encoding,
        /// What was wrong.
        reason: String,
    },
    /// An encoder failed.
    Encode {
        /// What the encoder said.
        reason: String,
    },
    /// A frame's planes do not describe a picture of that size.
    BadFrame {
        /// Which dimension, stride, or plane count disagreed.
        reason: String,
    },
    /// No monitor answers that selector.
    NoSuchMonitor {
        /// The selector as it was written.
        selector: String,
        /// How many monitors were actually there.
        available: usize,
    },
    /// The placement cannot be drawn.
    Placement {
        /// What is wrong with it.
        reason: String,
    },
    /// The GPU could not be set up, or a surface was lost.
    Render {
        /// What the graphics layer said.
        reason: String,
    },
    /// A read failed, with the file it was about.
    Io {
        /// The file or directory the call was about.
        path: std::path::PathBuf,
        /// The underlying error.
        source: std::io::Error,
    },
}

/// Whether `e` reports a failure decoding `encoding`, with this message.
pub open spec fn is_decode_error(e: Error, encoding: Encoding, message: Seq<char>) -> bool {
    e matches Error::Decode { encoding: enc, reason } && enc == encoding && reason@ == message
}

/// Whether `e` reports something unsupported, with this message.
pub open spec fn is_unsupported(e: Error, message: Seq<char>) -> bool {
    e matches Error::Unsupported { what } && what@ == message
}

/// Whether `e` refuses a frame, with this message.
pub open spec fn is_bad_frame(e: Error, message: Seq<char>) -> bool {
    e matches Error::BadFrame { reason } && reason@ == message
}

impl Error {
    /// A read that failed, with the file it was about.
    pub fn io(path: std::path::PathBuf, source: std::io::Error) -> (e: Error)
        ensures
            e matches Error::Io { path: p, source: s } && p == path && s == source,
    {
        Error::Io { path, source }
    }

    /// Something this build, or this platform, cannot do.
    pub fn unsupported(what: String) -> (e: Error)
        ensures
            is_unsupported(e, what@),
    {
        Error::Unsupported { what }
    }

    /// A container that does not parse.
    pub fn demux(path: std::path::PathBuf, reason: String) -> (e: Error)
        ensures
            e matches Error::Demux { path: p, reason: r } && p == path && r@ == reason@,
    {
        Error::Demux { path, reason }
    }

    /// A placement that cannot be drawn.
    pub fn placement(reason: String) -> (e: Error)
        ensures
            e matches Error::Placement { reason: r } && r@ == reason@,
    {
        Error::Placement { reason }
    }
}

/// `Result` with this crate's error type.
pub type Result<T> = core::result::Result<T, Error>;

} // verus!
