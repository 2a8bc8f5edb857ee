//! Media kinds, playback states and exact frame rates.
use vstd::prelude::*;

verus! {

/// The kind of media a clip carries.
#[derive(Debug, Clone, Copy, PartialEq, Eq, Structural)]
pub enum MediaType {
    Video,
    Audio,
    Text,
    Effect,
}

impl MediaType {
    /// The label shown to the user for this media type.
    pub open spec fn spec_label(self) -> Seq<char> {
        match self {
            MediaType::Video => "映像"@,
            MediaType::Audio => "音声"@,
            MediaType::Text => "テキスト"@,
            MediaType::Effect => "エフェクト"@,
        }
    }

    /// The default colour (0xRRGGBB) in which clips of this type are drawn.
    pub open spec fn spec_default_color(self) -> u32 {
        match self {
            MediaType::Video => 0x4682B4u32,
            MediaType::Audio => 0x40C040u32,
            MediaType::Text => 0xDAA520u32,
            MediaType::Effect => 0xCD5C5Cu32,
        }
    }

    pub fn label(&self) -> (r: &'static str)
        ensures
            r@ == self.spec_label(),
    {
        match self {
            MediaType::Video => "映像",
            MediaType::Audio => "音声",
            MediaType::Text => "テキスト",
            MediaType::Effect => "エフェクト",
        }
    }

    pub fn default_color(&self) -> (c: u32)
        ensures
            c == self.spec_default_color(),
    {
        match self {
            MediaType::Video => 0x4682B4,
            MediaType::Audio => 0x40C040,
            MediaType::Text => 0xDAA520,
            MediaType::Effect => 0xCD5C5C,
        }
    }
}

/// Whether the preview is stopped, playing or paused.
#[derive(Debug, Clone, Copy, PartialEq, Eq, Structural)]
pub enum PlaybackState {
    Stopped,
    Playing,
    Paused,
}

} // verus!

verus! {

/// A frame rate held exactly as the fraction `num / den` (frames per second).
/// A well-formed rate has a positive denominator.
#[derive(Debug, Clone, Copy, PartialEq, Eq, Structural)]
pub struct FrameRate {
    pub num: i64,
    pub den: i64,
}

impl FrameRate {
    pub open spec fn wf(self) -> bool {
        self.den > 0
    }

    /// The rate is strictly positive.
    pub open spec fn is_positive(self) -> bool {
        self.num > 0 && self.den > 0
    }

    /// Thirty frames per second, the default rate.
    pub fn thirty() -> (r: FrameRate)
        ensures
            r.num == 30,
            r.den == 1,
    {
        FrameRate { num: 30, den: 1 }
    }
}

} // verus!
