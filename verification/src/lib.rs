//! Core of a multi-track audio editing engine: an in-memory track store with
//! region editing, mixing and waveform summarisation, a playback transport
//! state machine, and a from-scratch FLAC encoder (RFC 9639).
//!
//! Sample data is interleaved 32-bit PCM carried as raw bit patterns; the
//! arithmetic that interprets those patterns as real numbers is confined to a
//! few named operations, while all indexing, layout and format logic is
//! verified here.

pub mod bitio;
pub mod crc;
pub mod flac;
pub mod md5;
pub mod engine;
pub mod export;
pub mod mixer;
pub mod transport;
pub mod waveform;

use vstd::prelude::*;

verus! {

/// Failures surfaced by the engine facade.
#[derive(Clone, Copy, Debug, PartialEq, Eq, Structural)]
pub enum EngineError {
    /// A file could not be opened, probed or decoded.
    DecodeError,
    /// A probed file holds no decodable audio track.
    NoAudioTrack,
    /// An export path's extension is not one of the supported formats.
    UnsupportedFormat,
    /// A codec parameter is out of range.
    InvalidConfig,
    /// Too few samples for the codec's minimum.
    TooShort,
    /// The output device is absent or its stream could not be started.
    DeviceError,
    /// File input or output failed during export.
    IoError,
    /// Every track requested for a region delete ended before the region.
    OutOfBounds,
}

/// Failures surfaced by the FLAC encoder.
#[derive(Clone, Copy, Debug, PartialEq, Eq, Structural)]
pub enum FlacError {
    /// Fewer than the minimum number of samples per channel were supplied.
    TooShort,
    /// The compression level is outside the accepted range.
    InvalidConfig,
}


/// The engine-level reading of a FLAC encoder failure.
pub fn engine_error_of_flac(e: FlacError) -> (r: EngineError)
    ensures
        e == FlacError::TooShort ==> r == EngineError::TooShort,
        e == FlacError::InvalidConfig ==> r == EngineError::InvalidConfig,
{
    match e {
        FlacError::TooShort => EngineError::TooShort,
        FlacError::InvalidConfig => EngineError::InvalidConfig,
    }
}

} // verus!
