//! Voice synthesis settings and results.
use vstd::prelude::*;

verus! {

/// The speech engine that reads the script.
#[derive(Debug, Clone, Copy, PartialEq, Eq, Structural)]
pub enum VoiceEngine {
    AquesTalk,
    VoiceVox,
}

/// How a voice is read: pitch, speed and volume, each in thousandths of the
/// engine's normal value.
#[derive(Debug, Clone, Copy, PartialEq, Eq, Structural)]
pub struct VoiceParams {
    pub pitch: u32,
    pub speed: u32,
    pub volume: u32,
}

impl Default for VoiceParams {
    /// The engine's normal pitch, speed and volume.
    fn default() -> (r: VoiceParams)
        ensures
            r == (VoiceParams { pitch: 1000, speed: 1000, volume: 1000 }),
    {
        VoiceParams { pitch: 1000, speed: 1000, volume: 1000 }
    }
}

/// A synthesized voice: WAV bytes, their sample rate, and their length in
/// microseconds.
#[derive(Debug)]
pub struct VoiceResult {
    pub wav_data: Vec<u8>,
    pub sample_rate: u32,
    pub duration: i64,
}

} // verus!
