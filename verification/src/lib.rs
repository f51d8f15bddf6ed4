//! Decode-once audio scanning: the verified core.
//!
//! This crate holds the decisions that an audio scan makes while and after it
//! decodes a file: how the decode loop reacts to each packet, which warnings a
//! finished decode carries, whether it counts as a clean or a partial result,
//! where the silence windows lie, what container label a path gets, and how a
//! batch run is summarised. Decoding, loudness measurement and everything that
//! works on sample values live in the program around it.

pub mod batch;
pub mod decode;
pub mod error;
pub mod paths;
pub mod report;
pub mod silence;
pub mod text;

pub use batch::{byte_unit, byte_unit_label, slowest, tally, BatchTally};
pub use decode::{DecodeProgress, PacketDecode, PacketRead, Step};
pub use error::{decode_error, open_message, stream_layout, ScanError};
pub use paths::{container_of, is_audio_extension, is_audio_path};
pub use report::{
    assess, conclude, finish_scan, truncated, DecodeWarning, ScanOutcome, SecondsText, Status,
    MIN_DECODED_PERCENT,
};
pub use silence::SilenceTracker;
pub use text::{decimal_text, join_with};

use vstd::prelude::*;

verus! {

/// JSON schema version. Bump only on a breaking change to the field set; new
/// fields are additive and do not bump it.
pub const SCHEMA_VERSION: u32 = 1;

} // verus!
