//! Sans-I/O cores for the media elements.
//!
//! Each core is a submit/poll state machine over [`MediaFrame`]s: no blocking
//! I/O, no threads, no channels. Drivers feed frames in through `submit_*` and
//! drain results through `poll`.
use crate::buffer::BufferDesc;
use crate::datatype::DataType;
use crate::error::Error;
use crate::media::frame::{MediaFrame, MediaFrameKind};
use crate::media::image::{draw_osd_boxes, osd_fits, resize_nearest, OsdBox};
use crate::text::{decimal, decimal_spec};
use crate::types::{DataFormat, MemoryDomain};
use std::collections::VecDeque;
use vstd::prelude::*;

verus! {

/// Non-blocking poll result shared by all media cores.
pub enum MediaPoll {
    Ready(MediaFrame),
    Pending,
    EndOfStream,
}

/// `height * width * channels` fits in `usize` (the product is formed left to right).
pub open spec fn pixel_count_fits(h: int, w: int, c: int) -> bool {
    h * w <= usize::MAX && h * w * c <= usize::MAX
}

/// `out` carries the bytes of `input` unchanged under a new kind, layout and shape.
pub open spec fn relabeled(out: MediaFrame, input: MediaFrame, kind: MediaFrameKind, format: DataFormat, shape: Seq<usize>) -> bool {
    &&& out.kind == kind
    &&& out.dtype == DataType::spec_U8()
    &&& out.format == format
    &&& out.shape@ == shape
    &&& out.device == input.device
    &&& out.domain == input.domain
    &&& out.buffer == input.buffer
    &&& out.meta == input.meta
}

/// `out` is a fresh host image of shape `[h, w, c]` that keeps the metadata of `input`.
pub open spec fn fresh_image(out: MediaFrame, input: MediaFrame, h: int, w: int, c: int) -> bool {
    &&& out.kind == MediaFrameKind::Image
    &&& out.dtype == DataType::spec_U8()
    &&& out.format == DataFormat::NHWC
    &&& out.shape@ == seq![h as usize, w as usize, c as usize]
    &&& out.device == input.device
    &&& out.domain == MemoryDomain::Host
    &&& out.buffer@.domain == MemoryDomain::Host
    &&& !out.buffer@.external_only
    &&& out.buffer@.desc == (BufferDesc { size_bytes: (h * w * c) as usize, align: 1 })
    &&& out.meta == input.meta
}

/// The number of bytes a read of `frame`'s buffer yields.
pub open spec fn readable_len(frame: MediaFrame) -> int {
    if frame.buffer@.external_only {
        0
    } else {
        frame.buffer@.desc.size_bytes as int
    }
}

/// Encoding an image and decoding the packet at the image's own geometry
/// gives back the image: same bytes (the very same buffer), layout, shape,
/// placement and metadata.
pub proof fn lemma_encode_then_decode(image: MediaFrame, packet: MediaFrame, decoded: MediaFrame)
    requires
        image.kind == MediaFrameKind::Image,
        image.dtype == DataType::spec_U8(),
        image.format == DataFormat::NHWC,
        image.shape@.len() == 3,
        relabeled(packet, image, MediaFrameKind::Tensor, DataFormat::N, seq![image.buffer@.desc.size_bytes]),
        relabeled(decoded, packet, MediaFrameKind::Image, DataFormat::NHWC, image.shape@),
    ensures
        decoded.kind == image.kind,
        decoded.dtype == image.dtype,
        decoded.format == image.format,
        decoded.shape@ == image.shape@,
        decoded.device == image.device,
        decoded.domain == image.domain,
        decoded.buffer == image.buffer,
        decoded.meta == image.meta,
{
}

/// What `poll` returns for a queue and end-of-stream flag: the oldest
/// queued frame, else end of stream once it was submitted, else pending.
pub open spec fn poll_value(queue: Seq<MediaFrame>, ended: bool) -> MediaPoll {
    if queue.len() > 0 {
        MediaPoll::Ready(queue[0])
    } else if ended {
        MediaPoll::EndOfStream
    } else {
        MediaPoll::Pending
    }
}

/// The queue after one `poll`.
pub open spec fn after_poll(queue: Seq<MediaFrame>) -> Seq<MediaFrame> {
    if queue.len() > 0 {
        queue.drop_first()
    } else {
        queue
    }
}

/// What `k` successive polls return, starting from a queue and an
/// end-of-stream flag (which polling never changes).
pub open spec fn polls_from(queue: Seq<MediaFrame>, ended: bool, k: nat) -> Seq<MediaPoll>
    decreases k,
{
    if k == 0 {
        Seq::empty()
    } else {
        seq![poll_value(queue, ended)] + polls_from(after_poll(queue), ended, (k - 1) as nat)
    }
}

/// After end of stream, polling hands out every queued frame exactly once,
/// oldest first, and then reports end of stream on every later call; it
/// never reports `Pending`.
pub proof fn lemma_polls_after_end_of_stream(queue: Seq<MediaFrame>, k: nat)
    ensures
        polls_from(queue, true, k).len() == k,
        forall|i: int|
            0 <= i < k ==> #[trigger] polls_from(queue, true, k)[i] == if i < queue.len() {
                MediaPoll::Ready(queue[i])
            } else {
                MediaPoll::EndOfStream
            },
        forall|i: int| 0 <= i < k ==> !(#[trigger] polls_from(queue, true, k)[i] is Pending),
    decreases k,
{
    if k > 0 {
        let rest = after_poll(queue);
        lemma_polls_after_end_of_stream(rest, (k - 1) as nat);
        let all = polls_from(queue, true, k);
        assert(all == seq![poll_value(queue, true)] + polls_from(rest, true, (k - 1) as nat));
        assert forall|i: int| 0 <= i < k implies #[trigger] all[i] == if i < queue.len() {
            MediaPoll::Ready(queue[i])
        } else {
            MediaPoll::EndOfStream
        } by {
            if i > 0 {
                assert(all[i] == polls_from(rest, true, (k - 1) as nat)[i - 1]);
            }
        }
    }
}

/// Before end of stream, polling hands out the queued frames oldest first
/// and then reports `Pending` on every later call.
pub proof fn lemma_polls_before_end_of_stream(queue: Seq<MediaFrame>, k: nat)
    ensures
        polls_from(queue, false, k).len() == k,
        forall|i: int|
            0 <= i < k ==> #[trigger] polls_from(queue, false, k)[i] == if i < queue.len() {
                MediaPoll::Ready(queue[i])
            } else {
                MediaPoll::Pending
            },
    decreases k,
{
    if k > 0 {
        let rest = after_poll(queue);
        lemma_polls_before_end_of_stream(rest, (k - 1) as nat);
        let all = polls_from(queue, false, k);
        assert(all == seq![poll_value(queue, false)] + polls_from(rest, false, (k - 1) as nat));
        assert forall|i: int| 0 <= i < k implies #[trigger] all[i] == if i < queue.len() {
            MediaPoll::Ready(queue[i])
        } else {
            MediaPoll::Pending
        } by {
            if i > 0 {
                assert(all[i] == polls_from(rest, false, (k - 1) as nat)[i - 1]);
            }
        }
    }
}

fn poll_queue(ready: &mut VecDeque<MediaFrame>, eos: bool) -> (r: MediaPoll)
    ensures
        r == poll_value(old(ready)@, eos),
        final(ready)@ == after_poll(old(ready)@),
{
    match ready.pop_front() {
        Some(frame) => MediaPoll::Ready(frame),
        None => if eos {
            MediaPoll::EndOfStream
        } else {
            MediaPoll::Pending
        },
    }
}

fn image_geometry(frame: &MediaFrame, element: &str) -> (r: Result<(usize, usize, usize), Error>)
    ensures
        frame.shape@.len() == 3 ==> r == Ok::<(usize, usize, usize), Error>(
            (frame.shape@[0], frame.shape@[1], frame.shape@[2]),
        ),
        frame.shape@.len() != 3 ==> (r matches Err(Error::Media(m)) && m@ == rank_text(element@, frame.shape@.len())),
{
    if frame.shape.len() == 3 {
        Ok((frame.shape[0], frame.shape[1], frame.shape[2]))
    } else {
        let m = element.to_owned().concat(": expected [height, width, channels] image shape, got rank ").concat(
            decimal(frame.shape.len()).as_str(),
        );
        assert(m@ =~= rank_text(element@, frame.shape@.len()));
        Err(Error::Media(m))
    }
}

/// The message for an image of rank `rank` where `element` needs three
/// dimensions.
pub open spec fn rank_text(element: Seq<char>, rank: nat) -> Seq<char> {
    element + ": expected [height, width, channels] image shape, got rank "@ + decimal_spec(rank)
}

fn checked_pixel_count(height: usize, width: usize, channels: usize, element: &str) -> (r: Result<
    usize,
    Error,
>)
    ensures
        pixel_count_fits(height as int, width as int, channels as int) ==> r == Ok::<usize, Error>(
            (height * width * channels) as usize,
        ),
        !pixel_count_fits(height as int, width as int, channels as int) ==> (r matches Err(Error::Media(m))
            && m@ == element@ + ": image dimensions overflow"@),
{
    match height.checked_mul(width) {
        Some(pixels) => match pixels.checked_mul(channels) {
            Some(total) => Ok(total),
            None => Err(Error::Media(element.to_owned().concat(": image dimensions overflow"))),
        },
        None => Err(Error::Media(element.to_owned().concat(": image dimensions overflow"))),
    }
}

/// Why a decode core of geometry `(w, h, c)` rejects a recorded packet of
/// `n` bytes, if it does.
pub open spec fn decode_error(w: usize, h: usize, c: usize, n: usize) -> Option<Seq<char>> {
    if !pixel_count_fits(h as int, w as int, c as int) {
        Some("media_decode"@ + ": image dimensions overflow"@)
    } else if n != h * w * c {
        Some(
            "media_decode: recorded frame has "@ + decimal_spec(n as nat) + " bytes, expected "@ + decimal_spec(
                (h * w * c) as nat,
            ) + " ("@ + decimal_spec(h as nat) + "x"@ + decimal_spec(w as nat) + "x"@ + decimal_spec(c as nat)
                + ")"@,
        )
    } else {
        None
    }
}

/// Sans-I/O decode core.
///
/// Without a hardware codec attached, packets are treated as recorded raw
/// frames: each submitted bitstream payload must contain exactly
/// `width * height * channels` bytes and is re-labelled as an image frame,
/// sharing the underlying buffer (no byte copy).
pub struct DecodeCore {
    width: usize,
    height: usize,
    channels: usize,
    ready: VecDeque<MediaFrame>,
    eos: bool,
}

impl DecodeCore {
    /// Frames decoded and not yet polled, oldest first.
    pub closed spec fn queued(&self) -> Seq<MediaFrame> {
        self.ready@
    }

    /// End of stream has been submitted.
    pub closed spec fn ended(&self) -> bool {
        self.eos
    }

    /// The configured `(width, height, channels)`.
    pub closed spec fn geometry(&self) -> (usize, usize, usize) {
        (self.width, self.height, self.channels)
    }

    pub fn new(width: usize, height: usize, channels: usize) -> (r: Self)
        ensures
            r.queued().len() == 0,
            !r.ended(),
            r.geometry() == (width, height, channels),
    {
        DecodeCore { width, height, channels, ready: VecDeque::new(), eos: false }
    }

    /// Accepts one recorded packet, or end of stream.
    pub fn submit_packet(&mut self, frame: MediaFrame) -> (r: Result<(), Error>)
        ensures
            final(self).geometry() == old(self).geometry(),
            ({
                let (w, h, c) = old(self).geometry();
                if old(self).ended() {
                    r matches Err(Error::Media(m)) && m@ == "media_decode: packet submitted after end of stream"@
                        && final(self).queued() == old(self).queued() && final(self).ended()
                } else if frame.kind == MediaFrameKind::EndOfStream {
                    r is Ok && final(self).queued() == old(self).queued() && final(self).ended()
                } else if decode_error(w, h, c, frame.buffer@.desc.size_bytes) is Some {
                    r matches Err(Error::Media(m)) && Some(m@) == decode_error(w, h, c, frame.buffer@.desc.size_bytes)
                        && final(self).queued() == old(self).queued() && !final(self).ended()
                } else {
                    r is Ok && !final(self).ended() && final(self).queued().len() == old(
                        self,
                    ).queued().len() + 1 && final(self).queued().drop_last() == old(self).queued()
                        && relabeled(
                        final(self).queued().last(),
                        frame,
                        MediaFrameKind::Image,
                        DataFormat::NHWC,
                        seq![h, w, c],
                    )
                }
            }),
    {
        if self.eos {
            return Err(
                Error::Media("media_decode: packet submitted after end of stream".to_string()),
            );
        }
        if frame.is_end_of_stream() {
            self.eos = true;
            return Ok(());
        }
        let expected = checked_pixel_count(self.height, self.width, self.channels, "media_decode")?;
        if frame.buffer.len() != expected {
            let message = "media_decode: recorded frame has ".to_owned().concat(
                decimal(frame.buffer.len()).as_str(),
            ).concat(" bytes, expected ").concat(decimal(expected).as_str()).concat(" (").concat(
                decimal(self.height).as_str(),
            ).concat("x").concat(decimal(self.width).as_str()).concat("x").concat(
                decimal(self.channels).as_str(),
            ).concat(")");
            assert(Some(message@) == decode_error(self.width, self.height, self.channels, frame.buffer@.desc.size_bytes));
            return Err(Error::Media(message));
        }
        let mut shape: Vec<usize> = Vec::new();
        shape.push(self.height);
        shape.push(self.width);
        shape.push(self.channels);
        assert(shape@ =~= seq![self.height, self.width, self.channels]);
        let meta = frame.meta;
        let mut image = MediaFrame::new(
            MediaFrameKind::Image,
            DataType::U8(),
            DataFormat::NHWC,
            shape,
            frame.device,
            frame.domain,
            frame.buffer,
        );
        image.meta = meta;
        self.ready.push_back(image);
        Ok(())
    }

    pub fn submit_end_of_stream(&mut self)
        ensures
            final(self).ended(),
            final(self).queued() == old(self).queued(),
            final(self).geometry() == old(self).geometry(),
    {
        self.eos = true;
    }

    pub fn poll(&mut self) -> (r: MediaPoll)
        ensures
            r == poll_value(old(self).queued(), old(self).ended()),
            final(self).queued() == after_poll(old(self).queued()),
            final(self).ended() == old(self).ended(),
            final(self).geometry() == old(self).geometry(),
    {
        poll_queue(&mut self.ready, self.eos)
    }
}

/// Sans-I/O encode core: the inverse of [`DecodeCore`]. Image frames are
/// re-labelled as flat bitstream payloads, sharing the underlying buffer.
pub struct EncodeCore {
    ready: VecDeque<MediaFrame>,
    eos: bool,
}

impl Default for EncodeCore {
    fn default() -> (r: Self)
        ensures
            r.queued().len() == 0,
            !r.ended(),
    {
        EncodeCore { ready: VecDeque::new(), eos: false }
    }
}

impl EncodeCore {
    pub closed spec fn queued(&self) -> Seq<MediaFrame> {
        self.ready@
    }

    pub closed spec fn ended(&self) -> bool {
        self.eos
    }

    pub fn new() -> (r: Self)
        ensures
            r.queued().len() == 0,
            !r.ended(),
    {
        EncodeCore { ready: VecDeque::new(), eos: false }
    }

    /// Accepts one image frame, or end of stream.
    pub fn submit_image(&mut self, frame: MediaFrame) -> (r: Result<(), Error>)
        ensures
            if old(self).ended() {
                &&& r matches Err(Error::Media(_))
                &&& final(self).queued() == old(self).queued()
                &&& final(self).ended()
            } else if frame.kind == MediaFrameKind::EndOfStream {
                &&& r is Ok
                &&& final(self).queued() == old(self).queued()
                &&& final(self).ended()
            } else {
                &&& r is Ok
                &&& !final(self).ended()
                &&& final(self).queued().len() == old(self).queued().len() + 1
                &&& final(self).queued().drop_last() == old(self).queued()
                &&& relabeled(
                    final(self).queued().last(),
                    frame,
                    MediaFrameKind::Tensor,
                    DataFormat::N,
                    seq![frame.buffer@.desc.size_bytes],
                )
            },
    {
        if self.eos {
            return Err(Error::Media("media_encode: frame submitted after end of stream".to_string()));
        }
        if frame.is_end_of_stream() {
            self.eos = true;
            return Ok(());
        }
        let len = frame.buffer.len();
        let mut shape: Vec<usize> = Vec::new();
        shape.push(len);
        assert(shape@ =~= seq![len]);
        let meta = frame.meta;
        let mut packet = MediaFrame::new(
            MediaFrameKind::Tensor,
            DataType::U8(),
            DataFormat::N,
            shape,
            frame.device,
            frame.domain,
            frame.buffer,
        );
        packet.meta = meta;
        self.ready.push_back(packet);
        Ok(())
    }

    pub fn submit_end_of_stream(&mut self)
        ensures
            final(self).ended(),
            final(self).queued() == old(self).queued(),
    {
        self.eos = true;
    }

    pub fn poll(&mut self) -> (r: MediaPoll)
        ensures
            r == poll_value(old(self).queued(), old(self).ended()),
            final(self).queued() == after_poll(old(self).queued()),
            final(self).ended() == old(self).ended(),
    {
        poll_queue(&mut self.ready, self.eos)
    }
}

/// Sans-I/O nearest-neighbour resize core for interleaved `u8` images.
pub struct ResizeCore {
    dst_width: usize,
    dst_height: usize,
    ready: VecDeque<MediaFrame>,
    eos: bool,
}

/// A resize of `frame` to `dh x dw` passes every check and reaches the pixel loop.
pub open spec fn resize_runs(frame: MediaFrame, dw: int, dh: int) -> bool {
    &&& frame.shape@.len() == 3
    &&& frame.shape@[0] > 0 && frame.shape@[1] > 0 && dh > 0 && dw > 0
    &&& pixel_count_fits(frame.shape@[0] as int, frame.shape@[1] as int, frame.shape@[2] as int)
    &&& readable_len(frame) == frame.shape@[0] * frame.shape@[1] * frame.shape@[2]
    &&& pixel_count_fits(dh, dw, frame.shape@[2] as int)
}

impl ResizeCore {
    pub closed spec fn queued(&self) -> Seq<MediaFrame> {
        self.ready@
    }

    pub closed spec fn ended(&self) -> bool {
        self.eos
    }

    /// The configured `(width, height)` of the output.
    pub closed spec fn target(&self) -> (usize, usize) {
        (self.dst_width, self.dst_height)
    }

    pub fn new(dst_width: usize, dst_height: usize) -> (r: Self)
        ensures
            r.queued().len() == 0,
            !r.ended(),
            r.target() == (dst_width, dst_height),
    {
        ResizeCore { dst_width, dst_height, ready: VecDeque::new(), eos: false }
    }

    /// Accepts one image frame (resized by nearest neighbour), or end of stream.
    pub fn submit_image(&mut self, frame: MediaFrame) -> (r: Result<(), Error>)
        requires
            !old(self).ended() && frame.kind != MediaFrameKind::EndOfStream && resize_runs(
                frame,
                old(self).target().0 as int,
                old(self).target().1 as int,
            ) ==> old(self).target().1 * frame.shape@[0] <= usize::MAX && old(self).target().0
                * frame.shape@[1] <= usize::MAX,
        ensures
            final(self).target() == old(self).target(),
            ({
                let (dw, dh) = old(self).target();
                if old(self).ended() {
                    r matches Err(Error::Media(_)) && final(self).queued() == old(self).queued()
                        && final(self).ended()
                } else if frame.kind == MediaFrameKind::EndOfStream {
                    r is Ok && final(self).queued() == old(self).queued() && final(self).ended()
                } else if !resize_runs(frame, dw as int, dh as int) {
                    r matches Err(Error::Media(_)) && final(self).queued() == old(self).queued()
                        && !final(self).ended()
                } else {
                    r is Ok && !final(self).ended() && final(self).queued().len() == old(
                        self,
                    ).queued().len() + 1 && final(self).queued().drop_last() == old(self).queued()
                        && fresh_image(
                        final(self).queued().last(),
                        frame,
                        dh as int,
                        dw as int,
                        frame.shape@[2] as int,
                    )
                }
            }),
    {
        if self.eos {
            return Err(Error::Media("media_resize: frame submitted after end of stream".to_string()));
        }
        if frame.is_end_of_stream() {
            self.eos = true;
            return Ok(());
        }
        let (src_height, src_width, channels) = image_geometry(&frame, "media_resize")?;
        if src_height == 0 || src_width == 0 || self.dst_height == 0 || self.dst_width == 0 {
            return Err(Error::Media("media_resize: image dimensions must be non-zero".to_string()));
        }
        let expected = checked_pixel_count(src_height, src_width, channels, "media_resize")?;
        let src = frame.buffer.read_bytes();
        if src.len() != expected {
            return Err(
                Error::Media(
                    "media_resize: buffer has ".to_owned().concat(src.len().to_string().as_str()).concat(
                    " bytes, expected ").concat(expected.to_string().as_str()),
                ),
            );
        }
        let out_len = checked_pixel_count(self.dst_height, self.dst_width, channels, "media_resize")?;
        let dst = resize_nearest(
            src.as_slice(),
            src_height,
            src_width,
            channels,
            self.dst_height,
            self.dst_width,
        );
        let mut shape: Vec<usize> = Vec::new();
        shape.push(self.dst_height);
        shape.push(self.dst_width);
        shape.push(channels);
        assert(shape@ =~= seq![self.dst_height, self.dst_width, channels]);
        let meta = frame.meta;
        let mut resized = MediaFrame::from_host_bytes(
            MediaFrameKind::Image,
            DataType::U8(),
            DataFormat::NHWC,
            shape,
            frame.device,
            dst,
        )?;
        resized.meta = meta;
        self.ready.push_back(resized);
        Ok(())
    }

    pub fn submit_end_of_stream(&mut self)
        ensures
            final(self).ended(),
            final(self).queued() == old(self).queued(),
            final(self).target() == old(self).target(),
    {
        self.eos = true;
    }

    pub fn poll(&mut self) -> (r: MediaPoll)
        ensures
            r == poll_value(old(self).queued(), old(self).ended()),
            final(self).queued() == after_poll(old(self).queued()),
            final(self).ended() == old(self).ended(),
            final(self).target() == old(self).target(),
    {
        poll_queue(&mut self.ready, self.eos)
    }
}

/// Sans-I/O on-screen-display core: draws rectangle borders on `u8` images.
pub struct OsdCore {
    boxes: Vec<OsdBox>,
    color: Vec<u8>,
    thickness: usize,
    ready: VecDeque<MediaFrame>,
    eos: bool,
}

/// An overlay of `frame` passes every check and reaches the drawing loop.
/// Why the OSD core rejects an image frame, if it does: its rank, its
/// channel count against the color, its size, then its byte count.
pub open spec fn osd_error(frame: MediaFrame, color_len: int) -> Option<Seq<char>> {
    if frame.shape@.len() != 3 {
        Some(rank_text("media_osd"@, frame.shape@.len()))
    } else if color_len != frame.shape@[2] {
        Some(
            "media_osd: color has "@ + decimal_spec(color_len as nat) + " components, image has "@ + decimal_spec(
                frame.shape@[2] as nat,
            ) + " channels"@,
        )
    } else if !pixel_count_fits(frame.shape@[0] as int, frame.shape@[1] as int, frame.shape@[2] as int) {
        Some("media_osd"@ + ": image dimensions overflow"@)
    } else if readable_len(frame) != frame.shape@[0] * frame.shape@[1] * frame.shape@[2] {
        Some(
            "media_osd: buffer has "@ + decimal_spec(readable_len(frame) as nat) + " bytes, expected "@
                + decimal_spec((frame.shape@[0] * frame.shape@[1] * frame.shape@[2]) as nat),
        )
    } else {
        None
    }
}

pub open spec fn osd_runs(frame: MediaFrame, color_len: int) -> bool {
    &&& frame.shape@.len() == 3
    &&& color_len == frame.shape@[2]
    &&& pixel_count_fits(frame.shape@[0] as int, frame.shape@[1] as int, frame.shape@[2] as int)
    &&& readable_len(frame) == frame.shape@[0] * frame.shape@[1] * frame.shape@[2]
}

/// The style an OSD core draws with: its boxes and color, and a border
/// thickness of at least one pixel.
pub open spec fn osd_style(boxes: Seq<OsdBox>, color: Seq<u8>, thickness: usize) -> (Seq<OsdBox>, Seq<u8>, usize) {
    (boxes, color, if thickness >= 1 {
        thickness
    } else {
        1usize
    })
}

/// A border thickness of zero draws as a thickness of one: the two cores
/// start with the same style, and every other contract of `OsdCore` speaks
/// of a core only through its style, queue and end-of-stream flag. A new
/// core has an empty queue before end of stream, so it polls `Pending`.
pub proof fn lemma_osd_zero_thickness_draws_as_one(boxes: Seq<OsdBox>, color: Seq<u8>)
    ensures
        osd_style(boxes, color, 0) == osd_style(boxes, color, 1),
        osd_style(boxes, color, 0).2 == 1,
        poll_value(Seq::empty(), false) is Pending,
{
}

/// A core draws with the boxes and color it was given and with the border
/// thickness it was given, raised to one pixel when it was zero: a larger
/// requested thickness gives a larger (never smaller) drawn thickness.
pub proof fn lemma_osd_keeps_requested_thickness(boxes: Seq<OsdBox>, color: Seq<u8>, t: usize, u: usize)
    ensures
        osd_style(boxes, color, t).0 == boxes,
        osd_style(boxes, color, t).1 == color,
        t >= 1 ==> osd_style(boxes, color, t).2 == t,
        osd_style(boxes, color, t).2 >= 1,
        1 <= t < u ==> osd_style(boxes, color, t).2 < osd_style(boxes, color, u).2,
{
}

impl OsdCore {
    #[verifier::type_invariant]
    spec fn thickness_positive(self) -> bool {
        self.thickness >= 1
    }

    pub closed spec fn queued(&self) -> Seq<MediaFrame> {
        self.ready@
    }

    pub closed spec fn ended(&self) -> bool {
        self.eos
    }

    /// The configured boxes, color and (at least one pixel) thickness.
    pub closed spec fn style(&self) -> (Seq<OsdBox>, Seq<u8>, usize) {
        (self.boxes@, self.color@, self.thickness)
    }

    pub fn new(boxes: Vec<OsdBox>, color: Vec<u8>, thickness: usize) -> (r: Self)
        ensures
            r.queued().len() == 0,
            !r.ended(),
            r.style() == osd_style(boxes@, color@, thickness),
            r.style().0 == boxes@ && r.style().1 == color@,
            thickness >= 1 ==> r.style().2 == thickness,
            thickness == 0 ==> r.style().2 == 1,
    {
        let thickness = if thickness >= 1 {
            thickness
        } else {
            1
        };
        OsdCore { boxes, color, thickness, ready: VecDeque::new(), eos: false }
    }

    /// Accepts one image frame (box borders drawn onto a copy), or end of stream.
    pub fn submit_image(&mut self, frame: MediaFrame) -> (r: Result<(), Error>)
        requires
            !old(self).ended() && frame.kind != MediaFrameKind::EndOfStream && osd_runs(
                frame,
                old(self).style().1.len() as int,
            ) ==> osd_fits(
                old(self).style().0,
                frame.shape@[1] as int,
                frame.shape@[0] as int,
                old(self).style().2 as int,
            ),
        ensures
            final(self).style() == old(self).style(),
            if old(self).ended() {
                &&& r matches Err(Error::Media(m)) && m@ == "media_osd: frame submitted after end of stream"@
                &&& final(self).queued() == old(self).queued()
                &&& final(self).ended()
            } else if frame.kind == MediaFrameKind::EndOfStream {
                &&& r is Ok
                &&& final(self).queued() == old(self).queued()
                &&& final(self).ended()
            } else if !osd_runs(frame, old(self).style().1.len() as int) {
                &&& r matches Err(Error::Media(m)) && Some(m@) == osd_error(frame, old(self).style().1.len() as int)
                &&& final(self).queued() == old(self).queued()
                &&& !final(self).ended()
            } else {
                &&& r is Ok
                &&& !final(self).ended()
                &&& final(self).queued().len() == old(self).queued().len() + 1
                &&& final(self).queued().drop_last() == old(self).queued()
                &&& fresh_image(
                    final(self).queued().last(),
                    frame,
                    frame.shape@[0] as int,
                    frame.shape@[1] as int,
                    frame.shape@[2] as int,
                )
            },
    {
        proof {
            use_type_invariant(&*self);
        }
        if self.eos {
            return Err(Error::Media("media_osd: frame submitted after end of stream".to_string()));
        }
        if frame.is_end_of_stream() {
            self.eos = true;
            return Ok(());
        }
        let (height, width, channels) = image_geometry(&frame, "media_osd")?;
        if self.color.len() != channels {
            let m = "media_osd: color has ".to_owned().concat(decimal(self.color.len()).as_str()).concat(
                " components, image has ",
            ).concat(decimal(channels).as_str()).concat(" channels");
            assert(Some(m@) == osd_error(frame, self.color@.len() as int));
            return Err(Error::Media(m));
        }
        let expected = checked_pixel_count(height, width, channels, "media_osd")?;
        let mut bytes = frame.buffer.read_bytes();
        if bytes.len() != expected {
            let m = "media_osd: buffer has ".to_owned().concat(decimal(bytes.len()).as_str()).concat(
                " bytes, expected ",
            ).concat(decimal(expected).as_str());
            assert(Some(m@) == osd_error(frame, self.color@.len() as int));
            return Err(Error::Media(m));
        }
        draw_osd_boxes(
            &mut bytes,
            width,
            height,
            channels,
            self.boxes.as_slice(),
            self.color.as_slice(),
            self.thickness,
        );
        let mut shape: Vec<usize> = Vec::new();
        shape.push(height);
        shape.push(width);
        shape.push(channels);
        assert(shape@ =~= seq![height, width, channels]);
        let meta = frame.meta;
        let mut drawn = MediaFrame::from_host_bytes(
            MediaFrameKind::Image,
            DataType::U8(),
            DataFormat::NHWC,
            shape,
            frame.device,
            bytes,
        )?;
        drawn.meta = meta;
        let mut ready = VecDeque::new();
        std::mem::swap(&mut ready, &mut self.ready);
        ready.push_back(drawn);
        self.ready = ready;
        Ok(())
    }

    pub fn submit_end_of_stream(&mut self)
        ensures
            final(self).ended(),
            final(self).queued() == old(self).queued(),
            final(self).style() == old(self).style(),
    {
        proof {
            use_type_invariant(&*self);
        }
        self.eos = true;
    }

    pub fn poll(&mut self) -> (r: MediaPoll)
        ensures
            r == poll_value(old(self).queued(), old(self).ended()),
            final(self).queued() == after_poll(old(self).queued()),
            final(self).ended() == old(self).ended(),
            final(self).style() == old(self).style(),
    {
        proof {
            use_type_invariant(&*self);
        }
        let mut ready = VecDeque::new();
        std::mem::swap(&mut ready, &mut self.ready);
        let r = poll_queue(&mut ready, self.eos);
        self.ready = ready;
        r
    }
}

} // verus!
