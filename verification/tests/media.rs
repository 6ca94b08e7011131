use dg::datatype::DataType;
use dg::error::Error;
use dg::media::codec::{backend_candidates, bitstream_format, codec_from_name, BitstreamFormat, CodecId, HwPreference};
use dg::media::frame::{MediaFrame, MediaFrameKind, MediaFrameMeta};
use dg::media::image::{resize_nearest, OsdBox};
use dg::media::mock::{MockMediaSink, MockMediaSource};
use dg::media::ops::{DecodeCore, EncodeCore, MediaPoll, OsdCore, ResizeCore};
use dg::media::planner::{
    import_copy_path, preferred_memory_domain, FrameLayout, FrameTransferRequest, HandleKind, MemoryDtype,
    MemoryFormat, TransferMode, ZeroCopyPlanner,
};
use dg::media::stream_metadata::{
    MediaStreamCodec, MediaStreamFormat, MediaStreamKind, MediaStreamMetadata, MediaStreamTimebase,
};
use dg::types::{DataFormat, DeployMode, DeviceKind, MemoryDomain};

fn image_frame(height: usize, width: usize, channels: usize, fill: u8) -> MediaFrame {
    MediaFrame::from_host_bytes(
        MediaFrameKind::Image,
        DataType::U8(),
        DataFormat::NHWC,
        vec![height, width, channels],
        DeviceKind::Cpu,
        vec![fill; height * width * channels],
    )
    .expect("build image frame")
}

#[test]
fn decode_relabels_recorded_packets_without_copy() {
    let mut core = DecodeCore::new(2, 2, 1);
    let packet = MediaFrame::from_host_bytes(
        MediaFrameKind::Tensor,
        DataType::U8(),
        DataFormat::N,
        vec![4],
        DeviceKind::Cpu,
        vec![9, 8, 7, 6],
    )
    .expect("build packet");
    let shared = packet.buffer.clone();
    core.submit_packet(packet).expect("submit packet");
    let MediaPoll::Ready(image) = core.poll() else {
        panic!("expected decoded image");
    };
    assert_eq!(image.kind, MediaFrameKind::Image);
    assert_eq!(image.shape, vec![2, 2, 1]);
    assert!(shared.ref_count() >= 2);
    assert_eq!(image.buffer.read_bytes(), vec![9, 8, 7, 6]);
    core.submit_end_of_stream();
    assert!(matches!(core.poll(), MediaPoll::EndOfStream));
}

#[test]
fn decode_rejects_wrong_payload_size() {
    let mut core = DecodeCore::new(2, 2, 3);
    let packet = MediaFrame::from_host_bytes(
        MediaFrameKind::Tensor,
        DataType::U8(),
        DataFormat::N,
        vec![3],
        DeviceKind::Cpu,
        vec![0, 1, 2],
    )
    .expect("build packet");
    let err = core.submit_packet(packet).expect_err("expected size error");
    assert!(matches!(err, Error::Media(message) if message.contains("expected 12")));
}

#[test]
fn decode_rejects_packets_after_end_of_stream() {
    let mut core = DecodeCore::new(1, 1, 1);
    core.submit_end_of_stream();
    let err = core.submit_packet(image_frame(1, 1, 1, 0)).expect_err("closed");
    assert!(matches!(err, Error::Media(_)));
    assert!(matches!(core.poll(), MediaPoll::EndOfStream));
}

#[test]
fn decode_polls_pending_before_any_input() {
    let mut core = DecodeCore::new(1, 1, 1);
    assert!(matches!(core.poll(), MediaPoll::Pending));
}

#[test]
fn encode_flattens_image_frames() {
    let mut core = EncodeCore::new();
    core.submit_image(image_frame(2, 3, 1, 5)).expect("submit");
    let MediaPoll::Ready(packet) = core.poll() else {
        panic!("expected encoded packet");
    };
    assert_eq!(packet.kind, MediaFrameKind::Tensor);
    assert_eq!(packet.shape, vec![6]);
    assert!(matches!(core.poll(), MediaPoll::Pending));
}

#[test]
fn encode_then_decode_restores_the_image() {
    let mut encode = EncodeCore::new();
    let mut decode = DecodeCore::new(3, 2, 1);
    let source = MediaFrame::from_host_bytes(
        MediaFrameKind::Image,
        DataType::U8(),
        DataFormat::NHWC,
        vec![2, 3, 1],
        DeviceKind::Cpu,
        vec![1, 2, 3, 4, 5, 6],
    )
    .expect("image");
    encode.submit_image(source).expect("encode");
    let MediaPoll::Ready(packet) = encode.poll() else {
        panic!("expected packet");
    };
    decode.submit_packet(packet).expect("decode");
    let MediaPoll::Ready(image) = decode.poll() else {
        panic!("expected image");
    };
    assert_eq!(image.shape, vec![2, 3, 1]);
    assert_eq!(image.format, DataFormat::NHWC);
    assert_eq!(image.buffer.read_bytes(), vec![1, 2, 3, 4, 5, 6]);
}

#[test]
fn resize_nearest_neighbour_doubles_image() {
    let mut core = ResizeCore::new(4, 4);
    let frame = MediaFrame::from_host_bytes(
        MediaFrameKind::Image,
        DataType::U8(),
        DataFormat::NHWC,
        vec![2, 2, 1],
        DeviceKind::Cpu,
        vec![1, 2, 3, 4],
    )
    .expect("build image");
    core.submit_image(frame).expect("submit image");
    let MediaPoll::Ready(resized) = core.poll() else {
        panic!("expected resized image");
    };
    assert_eq!(resized.shape, vec![4, 4, 1]);
    assert_eq!(
        resized.buffer.read_bytes(),
        vec![1, 1, 2, 2, 1, 1, 2, 2, 3, 3, 4, 4, 3, 3, 4, 4]
    );
}

#[test]
fn resize_halves_by_sampling_top_left_pixels() {
    let out = resize_nearest(&[1, 2, 3, 4], 2, 2, 1, 1, 1);
    assert_eq!(out, vec![1]);
    let rgb = resize_nearest(&[10, 11, 12, 20, 21, 22], 1, 2, 3, 1, 1);
    assert_eq!(rgb, vec![10, 11, 12]);
}

#[test]
fn resize_rejects_zero_sized_target() {
    let mut core = ResizeCore::new(0, 4);
    let err = core.submit_image(image_frame(2, 2, 1, 0)).expect_err("zero width");
    assert!(matches!(err, Error::Media(_)));
}

#[test]
fn resize_rejects_rank_other_than_three() {
    let mut core = ResizeCore::new(2, 2);
    let flat = MediaFrame::from_host_bytes(
        MediaFrameKind::Image,
        DataType::U8(),
        DataFormat::N,
        vec![4],
        DeviceKind::Cpu,
        vec![0; 4],
    )
    .expect("flat");
    assert!(matches!(core.submit_image(flat), Err(Error::Media(_))));
}

#[test]
fn osd_draws_border_and_leaves_interior() {
    let mut core = OsdCore::new(vec![OsdBox { x: 0, y: 0, width: 4, height: 4 }], vec![255], 1);
    core.submit_image(image_frame(4, 4, 1, 0)).expect("submit");
    let MediaPoll::Ready(drawn) = core.poll() else {
        panic!("expected osd output");
    };
    let bytes = drawn.buffer.read_bytes();
    assert_eq!(bytes[0], 255);
    assert_eq!(bytes[3], 255);
    assert_eq!(bytes[12], 255);
    assert_eq!(bytes[5], 0);
}

#[test]
fn osd_rejects_color_channel_mismatch() {
    let mut core = OsdCore::new(vec![OsdBox { x: 0, y: 0, width: 1, height: 1 }], vec![255, 0], 1);
    let err = core.submit_image(image_frame(2, 2, 3, 0)).expect_err("expected channel mismatch");
    assert!(matches!(err, Error::Media(message) if message.contains("channels")));
}

#[test]
fn osd_zero_thickness_draws_one_pixel_border() {
    let mut core = OsdCore::new(vec![OsdBox { x: 0, y: 0, width: 3, height: 3 }], vec![9], 0);
    core.submit_image(image_frame(3, 3, 1, 0)).expect("submit");
    let MediaPoll::Ready(drawn) = core.poll() else {
        panic!("expected osd output");
    };
    assert_eq!(drawn.buffer.read_bytes(), vec![9, 9, 9, 9, 0, 9, 9, 9, 9]);
}

fn layout() -> FrameLayout {
    FrameLayout {
        dims: vec![2, 2, 3],
        format: MemoryFormat::Rgb24,
        dtype: MemoryDtype::U8,
        plane_count: 1,
        strides: vec![6],
        subsampling: None,
        packed: true,
    }
}

fn request(source: MemoryDomain, target: MemoryDomain) -> FrameTransferRequest {
    FrameTransferRequest {
        source_domain: source,
        target_domain: target,
        source_handle: HandleKind::External,
        target_handle: HandleKind::External,
        source_layout: layout(),
        target_layout: layout(),
        has_lifetime_guard: true,
        staging_supported: true,
        operation: "test transfer".to_string(),
    }
}

#[test]
fn compatible_host_handles_are_shared() {
    let report = ZeroCopyPlanner::new()
        .plan_frame(&request(MemoryDomain::Host, MemoryDomain::Host))
        .expect("compatible host transfer");
    assert_eq!(report.mode, TransferMode::Shared);
    assert_eq!(report.copy_count, 0);
}

#[test]
fn domain_crossings_are_staged_with_expected_counts() {
    let host_to_device = ZeroCopyPlanner::new()
        .plan_frame(&request(MemoryDomain::Host, MemoryDomain::CudaDevice))
        .expect("host to device transfer");
    assert_eq!(host_to_device.mode, TransferMode::Staged);
    assert_eq!(host_to_device.copy_count, 1);

    let device_to_host = ZeroCopyPlanner::new()
        .plan_frame(&request(MemoryDomain::CudaDevice, MemoryDomain::Host))
        .expect("device to host transfer");
    assert_eq!(device_to_host.copy_count, 1);

    let device_to_device = ZeroCopyPlanner::new()
        .plan_frame(&request(MemoryDomain::CudaDevice, MemoryDomain::MppBuffer))
        .expect("device to device transfer");
    assert_eq!(device_to_device.copy_count, 2);
    assert_eq!(
        device_to_device.path.domains,
        vec![MemoryDomain::CudaDevice, MemoryDomain::Host, MemoryDomain::MppBuffer]
    );
}

#[test]
fn mismatched_layout_or_missing_staging_is_not_shared() {
    let mut mismatched = request(MemoryDomain::Host, MemoryDomain::Host);
    mismatched.target_layout.packed = false;
    let report = ZeroCopyPlanner::new().plan_frame(&mismatched).expect("mismatched layout stages");
    assert_eq!(report.mode, TransferMode::Staged);
    assert_eq!(report.copy_count, 1);

    mismatched.staging_supported = false;
    let error = ZeroCopyPlanner::new()
        .plan_frame(&mismatched)
        .expect_err("missing staging must be explicit");
    assert!(error.message().contains("test transfer"));
    assert!(error.message().contains("Host"));
}

#[test]
fn missing_lifetime_guard_forces_staging() {
    let mut unguarded = request(MemoryDomain::DmaBuf, MemoryDomain::DmaBuf);
    unguarded.has_lifetime_guard = false;
    let report = ZeroCopyPlanner::new().plan_frame(&unguarded).expect("staged");
    assert_eq!(report.mode, TransferMode::Staged);
    assert_eq!(report.copy_count, 2);
}

#[test]
fn preferred_domains_follow_device_and_deployment() {
    assert_eq!(preferred_memory_domain(DeviceKind::Cpu, DeployMode::Host), MemoryDomain::Host);
    assert_eq!(preferred_memory_domain(DeviceKind::CudaGpu, DeployMode::Host), MemoryDomain::CudaDevice);
    assert_eq!(preferred_memory_domain(DeviceKind::RknnNpu, DeployMode::SoC), MemoryDomain::MppBuffer);
    assert_eq!(preferred_memory_domain(DeviceKind::RknnNpu, DeployMode::Host), MemoryDomain::DmaBuf);
    assert_eq!(preferred_memory_domain(DeviceKind::SophonTpu, DeployMode::SoC), MemoryDomain::SophonDevice);
}

#[test]
fn metadata_types_represent_stream_frame_identity() {
    let metadata = MediaStreamMetadata {
        track_id: 7,
        media_kind: MediaStreamKind::Video,
        codec: MediaStreamCodec::H264,
        format: MediaStreamFormat::CanonicalH26x,
        timebase: MediaStreamTimebase::new(1, 90_000),
        keyframe: true,
    };
    assert_eq!(metadata.timebase.den, 90_000);
    assert!(metadata.keyframe);
}

#[test]
fn metadata_option_is_backward_compatible() {
    let metadata = MediaFrameMeta::default().stream_metadata;
    assert_eq!(metadata, None);
}

#[test]
fn codec_names_include_video_codecs() {
    assert_eq!(codec_from_name(Some("jpeg")), Ok(CodecId::Jpeg));
    assert_eq!(codec_from_name(Some("mjpeg")), Ok(CodecId::Mjpeg));
    assert_eq!(codec_from_name(Some("h264")), Ok(CodecId::H264));
}

#[test]
fn hardware_preference_accepts_aliases() {
    assert_eq!(HwPreference::parse(Some("rknpu")), Ok(HwPreference::Rockchip));
    assert_eq!(HwPreference::parse(Some("cuda")), Ok(HwPreference::Nvidia));
    assert_eq!(HwPreference::parse(Some("vaapi")), Ok(HwPreference::Intel));
    assert_eq!(HwPreference::parse(Some("amf")), Ok(HwPreference::Amd));
    assert_eq!(HwPreference::parse(Some("software")), Ok(HwPreference::Software));
    assert!(HwPreference::parse(Some("mystery")).is_err());
}

#[test]
fn codec_names_are_case_insensitive_and_default_to_jpeg() {
    assert_eq!(codec_from_name(Some("H264")), Ok(CodecId::H264));
    assert_eq!(codec_from_name(None), Ok(CodecId::Jpeg));
    assert!(matches!(codec_from_name(Some("vp9")), Err(Error::Config(_))));
}

#[test]
fn bitstream_formats_follow_the_codec() {
    assert_eq!(bitstream_format(CodecId::H264), BitstreamFormat::H264AnnexB);
    assert_eq!(bitstream_format(CodecId::Jpeg), BitstreamFormat::JpegInterchange);
    assert_eq!(bitstream_format(CodecId::Mjpeg), BitstreamFormat::JpegInterchange);
}

#[test]
fn software_jpeg_backends_are_tried_in_order() {
    let candidates = backend_candidates(CodecId::Jpeg, HwPreference::Software, false);
    assert!(!candidates.is_empty());
    let auto = backend_candidates(CodecId::H264, HwPreference::Auto, true);
    assert!(auto.len() >= candidates.len());
}

#[test]
fn mock_source_yields_frames_in_order_and_sink_keeps_them() {
    let mut source = MockMediaSource::new(vec![image_frame(1, 1, 1, 1), image_frame(1, 1, 1, 2)]);
    source.push(image_frame(1, 1, 1, 3));
    let mut sink = MockMediaSink::default();
    while let Some(frame) = source.poll() {
        sink.push(frame);
    }
    assert_eq!(sink.frames().len(), 3);
    let bytes: Vec<u8> = sink.into_frames().iter().map(|f| f.buffer.read_bytes()[0]).collect();
    assert_eq!(bytes, vec![1, 2, 3]);
}

#[test]
fn missing_backends_are_reported_with_attempts_and_features() {
    let error = dg::media::codec::no_backend_error(
        CodecId::H264,
        HwPreference::Software,
        &["ffmpeg", "openh264"],
        &["ffmpeg: unsupported".to_string(), "openh264: unsupported".to_string()],
    );
    assert_eq!(
        error,
        Error::Media(
            "no backend available for codec H264 with hardware preference Software; attempted [ffmpeg: unsupported; openh264: unsupported]; enable one of cargo features: `codec-ffmpeg`, `codec-openh264`".to_string()
        )
    );
    let jpeg = dg::media::codec::no_backend_error(CodecId::Jpeg, HwPreference::Auto, &["jpeg", "zune"], &[]);
    assert_eq!(
        jpeg.message(),
        "media error: no backend available for codec Jpeg with hardware preference Auto; attempted []; enable one of cargo features: `avcodec` (jpeg/zune), `avcodec` (jpeg/zune)"
    );
}

#[test]
fn codec_imports_share_in_place_or_stage_once() {
    let shared = import_copy_path(MemoryDomain::DmaBuf, MemoryDomain::DmaBuf);
    assert_eq!(shared.domains, vec![MemoryDomain::DmaBuf]);
    assert_eq!(shared.copy_count, 0);
    let staged = import_copy_path(MemoryDomain::DmaBuf, MemoryDomain::Host);
    assert_eq!(staged.domains, vec![MemoryDomain::DmaBuf, MemoryDomain::Host]);
    assert_eq!(staged.copy_count, 1);
}

#[test]
fn downscaling_an_upscaled_image_restores_it() {
    let src = vec![1, 2, 3, 4, 5, 6];
    let up = resize_nearest(&src, 2, 3, 1, 6, 9);
    assert_eq!(resize_nearest(&up, 6, 9, 1, 2, 3), src);
    assert_eq!(resize_nearest(&src, 2, 3, 1, 2, 3), src);
}
