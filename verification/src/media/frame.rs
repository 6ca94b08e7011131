//! The media-side buffer envelope: a typed, shaped view over a shared buffer.
use crate::buffer::{Buffer, BufferDesc};
use crate::datatype::DataType;
use crate::error::Error;
use crate::media::stream_metadata::MediaStreamMetadata;
use crate::types::{DataFormat, DeviceKind, MemoryDomain};
use std::collections::BTreeMap;
use vstd::prelude::*;

verus! {

/// What a media frame carries.
#[derive(Clone, Copy, Debug, PartialEq, Eq, Structural, Hash)]
pub enum MediaFrameKind {
    Image,
    Tensor,
    EndOfStream,
}

/// Timing, identity and tags carried alongside a frame.
#[derive(Clone, Debug, PartialEq, Eq)]
pub struct MediaFrameMeta {
    pub pts: Option<i64>,
    pub dts: Option<i64>,
    pub stream_id: Option<String>,
    pub tags: BTreeMap<String, String>,
    pub stream_metadata: Option<MediaStreamMetadata>,
}

impl MediaFrameMeta {
    /// Metadata with no timing, identity, tags or stream metadata.
    pub fn empty() -> (r: Self)
        ensures
            r.pts is None,
            r.dts is None,
            r.stream_id is None,
            r.tags@ == Map::<String, String>::empty(),
            r.stream_metadata is None,
    {
        MediaFrameMeta {
            pts: None,
            dts: None,
            stream_id: None,
            tags: BTreeMap::new(),
            stream_metadata: None,
        }
    }
}

impl Default for MediaFrameMeta {
    fn default() -> (r: Self)
        ensures
            r.pts is None,
            r.dts is None,
            r.stream_id is None,
            r.stream_metadata is None,
    {
        Self::empty()
    }
}

/// A media frame: kind, element type, layout, shape, placement and shared bytes.
pub struct MediaFrame {
    pub kind: MediaFrameKind,
    pub dtype: DataType,
    pub format: DataFormat,
    pub shape: Vec<usize>,
    pub device: DeviceKind,
    pub domain: MemoryDomain,
    pub buffer: Buffer,
    pub meta: MediaFrameMeta,
}

impl MediaFrame {
    pub fn new(
        kind: MediaFrameKind,
        dtype: DataType,
        format: DataFormat,
        shape: Vec<usize>,
        device: DeviceKind,
        domain: MemoryDomain,
        buffer: Buffer,
    ) -> (r: Self)
        ensures
            r.kind == kind,
            r.dtype == dtype,
            r.format == format,
            r.shape == shape,
            r.device == device,
            r.domain == domain,
            r.buffer == buffer,
            r.meta.pts is None,
            r.meta.dts is None,
            r.meta.stream_id is None,
            r.meta.stream_metadata is None,
    {
        MediaFrame {
            kind,
            dtype,
            format,
            shape,
            device,
            domain,
            buffer,
            meta: MediaFrameMeta::empty(),
        }
    }

    /// A frame over freshly wrapped host bytes.
    pub fn from_host_bytes(
        kind: MediaFrameKind,
        dtype: DataType,
        format: DataFormat,
        shape: Vec<usize>,
        device: DeviceKind,
        bytes: Vec<u8>,
    ) -> (r: Result<Self, Error>)
        ensures
            r matches Ok(f) && f.kind == kind && f.dtype == dtype && f.format == format && f.shape
                == shape && f.device == device && f.domain == MemoryDomain::Host && f.buffer@.domain
                == MemoryDomain::Host && f.buffer@.device == device && f.buffer@.desc == (BufferDesc {
                size_bytes: bytes@.len() as usize,
                align: 1,
            }) && !f.buffer@.external_only && f.meta.pts is None && f.meta.dts is None
                && f.meta.stream_id is None && f.meta.stream_metadata is None,
    {
        let desc = BufferDesc::new(bytes.len(), 1);
        let buffer = Buffer::from_host_bytes(device, desc, bytes)?;
        Ok(MediaFrame::new(kind, dtype, format, shape, device, MemoryDomain::Host, buffer))
    }

    pub fn is_end_of_stream(&self) -> (r: bool)
        ensures
            r == (self.kind == MediaFrameKind::EndOfStream),
    {
        self.kind == MediaFrameKind::EndOfStream
    }
}

} // verus!
