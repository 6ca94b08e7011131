//! Per-frame metadata that identifies a stream across adapters.
use vstd::prelude::*;

verus! {

/// Media kind carried by a streaming frame.
#[derive(Clone, Copy, Debug, PartialEq, Eq, Structural, Hash)]
pub enum MediaStreamKind {
    Video,
    Audio,
    Data,
    Subtitle,
}

/// Codec identity carried by a streaming frame.
#[derive(Clone, Copy, Debug, PartialEq, Eq, Structural, Hash)]
pub enum MediaStreamCodec {
    H264,
    H265,
    H266,
    AV1,
    VP8,
    VP9,
    MJPEG,
    AAC,
    ADPCM,
    Opus,
    G711A,
    G711U,
    MP2,
    MP3,
    Unknown,
}

/// Canonical payload format carried by a streaming frame.
#[derive(Clone, Copy, Debug, PartialEq, Eq, Structural, Hash)]
pub enum MediaStreamFormat {
    CanonicalH26x,
    CanonicalAv1Obu,
    CanonicalVp8Frame,
    CanonicalVp9Frame,
    MjpegFrame,
    AacRaw,
    AdpcmPacket,
    OpusPacket,
    G711Packet,
    Mp2Frame,
    Mp3Frame,
    DataPacket,
    Unknown,
}

/// Rational timebase carried by a streaming frame.
#[derive(Clone, Copy, Debug, PartialEq, Eq, Structural, Hash)]
pub struct MediaStreamTimebase {
    pub num: u32,
    pub den: u32,
}

impl MediaStreamTimebase {
    pub fn new(num: u32, den: u32) -> (r: Self)
        ensures
            r.num == num,
            r.den == den,
    {
        MediaStreamTimebase { num, den }
    }
}

/// Per-frame metadata needed to preserve a streaming frame across adapters.
#[derive(Clone, Copy, Debug, PartialEq, Eq, Structural, Hash)]
pub struct MediaStreamMetadata {
    pub track_id: u64,
    pub media_kind: MediaStreamKind,
    pub codec: MediaStreamCodec,
    pub format: MediaStreamFormat,
    pub timebase: MediaStreamTimebase,
    pub keyframe: bool,
}

} // verus!
