//! The decoder: what it does with packets, and when it waits or stops.
use vstd::prelude::*;
use crate::audio::output;
use crate::audio::output::{Track, TrackBuffer};
use crate::audio::resample::capped_product;
use crate::audio::MAX_BUFFER_FRAMES;

verus! {

// ── Feeding the buffer ───────────────────────────────────────────────────────

/// What the decoder does next.
#[derive(Debug, Clone, Copy, PartialEq, Eq, Structural)]
pub enum DecoderStep {
    /// The track is not wanted any more.
    Stop,
    /// The buffer is full.
    Wait,
    /// Decode the next piece.
    Decode,
}

impl TrackBuffer {
    /// What the decoder does next.
    pub fn decoder_step(&self, channels: usize) -> (r: DecoderStep)
        ensures
            r == if self@.stop_requested {
                DecoderStep::Stop
            } else if output::frames_in(self@.samples.len() as int, channels as int)
                >= MAX_BUFFER_FRAMES {
                DecoderStep::Wait
            } else {
                DecoderStep::Decode
            },
    {
        if self.stop_requested {
            DecoderStep::Stop
        } else if self.buffered_frames(channels) >= MAX_BUFFER_FRAMES {
            DecoderStep::Wait
        } else {
            DecoderStep::Decode
        }
    }

    /// Takes a decoded piece, unless the decoder was told to stop while it decoded.
    /// The answer says whether the decoder goes on; a piece without samples is no
    /// occasion to stop.
    pub fn accept(&mut self, samples: &Vec<u32>) -> (r: bool)
        ensures
            r == (samples@.len() == 0 || !old(self)@.stop_requested),
            final(self)@ == if r {
                Track { samples: old(self)@.samples + samples@, ..old(self)@ }
            } else {
                old(self)@
            },
    {
        if samples.len() > 0 && self.stop_requested {
            return false;
        }
        self.append(samples);
        true
    }

    /// Takes the last piece: nothing more will come.
    pub fn finish(&mut self, tail: &Vec<u32>)
        ensures
            final(self)@ == (Track {
                samples: old(self)@.samples + tail@,
                finished: true,
                ..old(self)@
            }),
    {
        self.append(tail);
        self.finished = true;
    }

    /// The decoder failed: nothing more will come.
    pub fn fail(&mut self)
        ensures
            final(self)@ == (Track { finished: true, ..old(self)@ }),
    {
        self.finished = true;
    }

    fn append(&mut self, samples: &Vec<u32>)
        ensures
            final(self)@ == (Track { samples: old(self)@.samples + samples@, ..old(self)@ }),
    {
        let mut i: usize = 0;
        while i < samples.len()
            invariant
                i <= samples@.len(),
                self@ == (Track {
                    samples: old(self)@.samples + samples@.take(i as int),
                    ..old(self)@
                }),
            decreases samples@.len() - i,
        {
            self.samples.push_back(samples[i]);
            i = i + 1;
            assert(self@.samples =~= old(self)@.samples + samples@.take(i as int));
        }
        assert(samples@.take(samples@.len() as int) =~= samples@);
    }
}

// ── Reading the file ─────────────────────────────────────────────────────────

/// What happened when the next piece was asked for.
#[derive(Debug, Clone, Copy, PartialEq, Eq, Structural)]
pub enum DecodeEvent {
    /// A packet of another track came.
    OtherTrack,
    /// The file is at its end.
    EndOfFile,
    /// The file's tracks changed.
    ResetRequired,
    /// The file cannot be read.
    ReadFailed,
    /// A packet was decoded.
    Decoded,
    /// A packet is damaged.
    DamagedPacket,
    /// The decoder met the end of the file inside a packet.
    EndInPacket,
    /// The decoder failed.
    DecodeFailed,
}

/// What to do about it.
#[derive(Debug, Clone, Copy, PartialEq, Eq, Structural)]
pub enum DecodeAction {
    /// Ask for the next packet.
    Skip,
    /// Hand the samples on.
    Deliver,
    /// The stream is over.
    End,
    /// Give up because the decoder would have to start anew.
    FailReset,
    /// Give up with the error that came.
    Fail,
}

/// What to do during playback: other tracks and damaged packets are passed over,
/// and the end of the file ends the stream wherever it shows.
pub open spec fn playback_action(event: DecodeEvent) -> DecodeAction {
    match event {
        DecodeEvent::OtherTrack | DecodeEvent::DamagedPacket => DecodeAction::Skip,
        DecodeEvent::EndOfFile | DecodeEvent::EndInPacket => DecodeAction::End,
        DecodeEvent::ResetRequired => DecodeAction::FailReset,
        DecodeEvent::ReadFailed | DecodeEvent::DecodeFailed => DecodeAction::Fail,
        DecodeEvent::Decoded => DecodeAction::Deliver,
    }
}

pub fn decode_next_step(event: DecodeEvent) -> (r: DecodeAction)
    ensures
        r == playback_action(event),
{
    match event {
        DecodeEvent::OtherTrack | DecodeEvent::DamagedPacket => DecodeAction::Skip,
        DecodeEvent::EndOfFile | DecodeEvent::EndInPacket => DecodeAction::End,
        DecodeEvent::ResetRequired => DecodeAction::FailReset,
        DecodeEvent::ReadFailed | DecodeEvent::DecodeFailed => DecodeAction::Fail,
        DecodeEvent::Decoded => DecodeAction::Deliver,
    }
}

/// What to do while the first packet is sought that tells the stream's rate and
/// channels: a file that ends before it is an error.
pub open spec fn priming_action(event: DecodeEvent) -> DecodeAction {
    match event {
        DecodeEvent::OtherTrack | DecodeEvent::DamagedPacket => DecodeAction::Skip,
        DecodeEvent::Decoded => DecodeAction::Deliver,
        _ => DecodeAction::Fail,
    }
}

pub fn prime_step(event: DecodeEvent) -> (r: DecodeAction)
    ensures
        r == priming_action(event),
{
    match event {
        DecodeEvent::OtherTrack | DecodeEvent::DamagedPacket => DecodeAction::Skip,
        DecodeEvent::Decoded => DecodeAction::Deliver,
        _ => DecodeAction::Fail,
    }
}

/// The message for a file whose tracks changed.
pub fn reset_message() -> (r: String)
    ensures
        r@ == "Decoder reset required during playback"@,
{
    "Decoder reset required during playback".to_owned()
}

/// The length of a track in milliseconds; zero where it is not known.
pub fn track_duration_ms(frames: Option<u64>, rate: Option<u32>) -> (r: u64)
    ensures
        r == match (frames, rate) {
            (Some(n), Some(hz)) => output::milliseconds(n as int, hz as int),
            _ => 0,
        },
{
    match (frames, rate) {
        (Some(n), Some(hz)) => {
            if hz > 0 {
                capped_product(n, 1000) / hz as u64
            } else {
                0
            }
        },
        _ => 0,
    }
}

/// The message for a codec that cannot be decoded.
pub fn unsupported_codec(name: &str, is_opus: bool) -> (r: String)
    ensures
        r@ == if is_opus {
            "Opus codec not supported (rebuild with the 'opus' feature and libopus)"@
        } else {
            "Unsupported audio codec: "@ + name@
        },
{
    if is_opus {
        return "Opus codec not supported (rebuild with the 'opus' feature and libopus)".to_owned();
    }
    let mut r = "Unsupported audio codec: ".to_owned();
    r.append(name);
    r
}

// ── Laws ─────────────────────────────────────────────────────────────────────

/// A piece is decoded only while the buffer is below its limit: the buffer never
/// holds more than the limit and one piece.
pub proof fn law_buffer_is_bounded(samples: int, piece: int, channels: int)
    requires
        0 < channels,
        0 <= samples,
        0 <= piece,
        output::frames_in(samples, channels) < MAX_BUFFER_FRAMES,
    ensures
        samples + piece < MAX_BUFFER_FRAMES * channels + piece,
{
    vstd::arithmetic::div_mod::lemma_fundamental_div_mod(samples, channels);
    let q = samples / channels;
    assert(samples < MAX_BUFFER_FRAMES * channels) by (nonlinear_arith)
        requires
            samples == channels * q + samples % channels,
            0 <= samples % channels < channels,
            q < MAX_BUFFER_FRAMES,
    ;
}

} // verus!
