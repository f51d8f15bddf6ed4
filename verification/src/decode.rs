//! The decode loop's decisions.
//!
//! The program reads packets from the container and decodes them; each outcome
//! is handed to [`DecodeProgress`], which records what the outcome means for the
//! result and answers with the next [`Step`]. The loop stops at the end of the
//! stream, on a stream error, on a mid-file layout change or when its deadline
//! passes; a single corrupt packet is skipped and counted. Decoded frames are
//! counted by the silence tracker that measures them, so the decoded length and
//! the silence windows come from one count.
use vstd::prelude::*;
use crate::error::{decode_error, ScanError};

verus! {

/// What reading the next packet from the container gave.
pub enum PacketRead {
    /// A packet of the given track.
    Packet { track_id: u32 },
    /// The container reached its end (an unexpected-end-of-file I/O error).
    EndOfStream,
    /// The container asked for a decoder reset, which ends the decode early.
    ResetRequired,
    /// Any other read error, with its description.
    Failed(String),
}

/// What decoding a packet of the analysed track gave.
pub enum PacketDecode {
    /// Decoded audio in this channel count and sample rate.
    Frames { channels: u32, sample_rate: u32 },
    /// The packet was corrupt (a decode error).
    Corrupt,
    /// An I/O error while decoding, which ends the decode early.
    StreamError,
    /// Any other decode failure, with its description.
    Failed(String),
}

/// What the decode loop does next.
pub enum Step {
    /// Drop this packet and read the next one.
    Skip,
    /// Decode this packet.
    Decode,
    /// Feed the decoded frames to the measurements; the frame count is kept by
    /// the [`crate::SilenceTracker`] that every frame is pushed to.
    Consume,
    /// Leave the loop and report on what was decoded.
    Stop,
    /// Give up the scan with this error.
    Fail(ScanError),
}

/// The state of one decode: the analysed track and its header layout, and what
/// has happened so far.
pub struct DecodeProgress {
    /// The analysed track.
    pub track_id: u32,
    /// Channel count the header declares.
    pub channels: u32,
    /// Sample rate the header declares.
    pub sample_rate: u32,
    /// Corrupt packets skipped.
    pub skipped_packets: u32,
    /// The stream ended early on an error.
    pub early_end: bool,
    /// The decode deadline passed.
    pub timed_out: bool,
    /// The layout (channels, sample rate) the stream changed to mid-file.
    pub layout_changed: Option<(u32, u32)>,
}

impl DecodeProgress {
    /// A decode of track `track_id` that has not started.
    pub fn new(track_id: u32, channels: u32, sample_rate: u32) -> (p: Self)
        ensures
            p == (DecodeProgress {
                track_id,
                channels,
                sample_rate,
                skipped_packets: 0,
                early_end: false,
                timed_out: false,
                layout_changed: None,
            }),
    {
        DecodeProgress {
            track_id,
            channels,
            sample_rate,
            skipped_packets: 0,
            early_end: false,
            timed_out: false,
            layout_changed: None,
        }
    }

    /// The soft deadline passed before the next packet: the decode stops there.
    pub fn deadline_passed(&mut self) -> (s: Step)
        ensures
            *final(self) == (DecodeProgress { timed_out: true, ..*old(self) }),
            s is Stop,
    {
        self.timed_out = true;
        Step::Stop
    }

    /// Reacts to the outcome of reading a packet. A packet of another track is
    /// skipped; the end of the stream stops the loop; a reset request stops it
    /// as an early end; any other read error fails the scan.
    pub fn after_read(&mut self, read: PacketRead) -> (s: Step)
        ensures
            match read {
                PacketRead::Packet { track_id } => {
                    &&& *final(self) == *old(self)
                    &&& if track_id == old(self).track_id { s is Decode } else { s is Skip }
                },
                PacketRead::EndOfStream => *final(self) == *old(self) && s is Stop,
                PacketRead::ResetRequired => {
                    &&& *final(self) == (DecodeProgress { early_end: true, ..*old(self) })
                    &&& s is Stop
                },
                PacketRead::Failed(m) => {
                    &&& *final(self) == *old(self)
                    &&& s matches Step::Fail(ScanError::Decode(d))
                    &&& d@ == "reading packet: "@ + m@
                },
            },
    {
        match read {
            PacketRead::Packet { track_id } => {
                if track_id == self.track_id {
                    Step::Decode
                } else {
                    Step::Skip
                }
            },
            PacketRead::EndOfStream => Step::Stop,
            PacketRead::ResetRequired => {
                self.early_end = true;
                Step::Stop
            },
            PacketRead::Failed(m) => {
                proof {
                    reveal_strlit("reading packet");
                    reveal_strlit(": ");
                    reveal_strlit("reading packet: ");
                    assert("reading packet"@ + ": "@ =~= "reading packet: "@);
                }
                Step::Fail(decode_error("reading packet", m.as_str()))
            },
        }
    }

    /// Reacts to the outcome of decoding a packet. A corrupt packet is counted
    /// and skipped; an I/O error ends the decode early; any other failure fails
    /// the scan. Decoded audio whose layout differs from the header's is not
    /// measured: the change is recorded and the decode stops.
    pub fn after_decode(&mut self, decoded: PacketDecode) -> (s: Step)
        requires
            decoded is Corrupt ==> old(self).skipped_packets < u32::MAX,
        ensures
            match decoded {
                PacketDecode::Frames { channels, sample_rate } => {
                    if channels == old(self).channels && sample_rate == old(self).sample_rate {
                        *final(self) == *old(self) && s is Consume
                    } else {
                        &&& *final(self) == (DecodeProgress {
                            layout_changed: Some((channels, sample_rate)),
                            ..*old(self)
                        })
                        &&& s is Stop
                    }
                },
                PacketDecode::Corrupt => {
                    &&& *final(self) == (DecodeProgress {
                        skipped_packets: (old(self).skipped_packets + 1) as u32,
                        ..*old(self)
                    })
                    &&& s is Skip
                },
                PacketDecode::StreamError => {
                    &&& *final(self) == (DecodeProgress { early_end: true, ..*old(self) })
                    &&& s is Stop
                },
                PacketDecode::Failed(m) => {
                    &&& *final(self) == *old(self)
                    &&& s matches Step::Fail(ScanError::Decode(d))
                    &&& d@ == "decoding: "@ + m@
                },
            },
    {
        match decoded {
            PacketDecode::Frames { channels, sample_rate } => {
                if channels == self.channels && sample_rate == self.sample_rate {
                    Step::Consume
                } else {
                    self.layout_changed = Some((channels, sample_rate));
                    Step::Stop
                }
            },
            PacketDecode::Corrupt => {
                self.skipped_packets = self.skipped_packets + 1;
                Step::Skip
            },
            PacketDecode::StreamError => {
                self.early_end = true;
                Step::Stop
            },
            PacketDecode::Failed(m) => {
                proof {
                    reveal_strlit("decoding");
                    reveal_strlit(": ");
                    reveal_strlit("decoding: ");
                    assert("decoding"@ + ": "@ =~= "decoding: "@);
                }
                Step::Fail(decode_error("decoding", m.as_str()))
            },
        }
    }
}

} // verus!
