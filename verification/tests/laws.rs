use dg::buffer::{Buffer, BufferDesc};
use dg::datatype::DataType;
use dg::device::{
    descriptor_kinds, find_descriptor, registered_device_kinds, registered_devices, resolve_device, CpuDevice,
    DeviceDescriptor,
};
use dg::error::Error;
use dg::media::frame::{MediaFrame, MediaFrameKind};
use dg::media::image::OsdBox;
use dg::media::mock::MockMediaSource;
use dg::media::ops::{DecodeCore, MediaPoll, OsdCore};
use dg::shape::Shape;
use dg::tensor::{Tensor, TensorDesc};
use dg::text::is_whitespace;
use dg::types::{DataFormat, DeviceKind, ExternalHandle, MemoryDomain};

fn gray_frame(height: usize, width: usize, pixels: Vec<u8>) -> MediaFrame {
    MediaFrame::from_host_bytes(
        MediaFrameKind::Image,
        DataType::U8(),
        DataFormat::NHWC,
        vec![height, width, 1],
        DeviceKind::Cpu,
        pixels,
    )
    .expect("build image frame")
}

fn ready_bytes(poll: MediaPoll) -> Vec<u8> {
    match poll {
        MediaPoll::Ready(frame) => frame.buffer.read_bytes(),
        MediaPoll::Pending => panic!("expected a frame, got pending"),
        MediaPoll::EndOfStream => panic!("expected a frame, got end of stream"),
    }
}

#[test]
fn decode_drains_queued_frames_then_reports_end_of_stream() {
    let mut core = DecodeCore::new(1, 1, 1);
    core.submit_packet(gray_frame(1, 1, vec![7])).expect("first");
    core.submit_packet(gray_frame(1, 1, vec![8])).expect("second");
    core.submit_end_of_stream();
    let err = core.submit_packet(gray_frame(1, 1, vec![9])).expect_err("closed");
    assert_eq!(err, Error::Media("media_decode: packet submitted after end of stream".to_string()));
    core.submit_end_of_stream();
    assert_eq!(ready_bytes(core.poll()), vec![7]);
    assert_eq!(ready_bytes(core.poll()), vec![8]);
    for _ in 0..3 {
        assert!(matches!(core.poll(), MediaPoll::EndOfStream));
    }
}

#[test]
fn osd_zero_and_one_thickness_draw_alike() {
    let boxes = vec![OsdBox { x: 0, y: 0, width: 3, height: 3 }, OsdBox { x: 1, y: 1, width: 2, height: 2 }];
    let mut thin = OsdCore::new(boxes.clone(), vec![5], 0);
    let mut one = OsdCore::new(boxes, vec![5], 1);
    assert!(matches!(thin.poll(), MediaPoll::Pending));
    assert!(matches!(one.poll(), MediaPoll::Pending));
    for fill in [0u8, 200] {
        thin.submit_image(gray_frame(3, 3, vec![fill; 9])).expect("thin");
        one.submit_image(gray_frame(3, 3, vec![fill; 9])).expect("one");
    }
    thin.submit_end_of_stream();
    one.submit_end_of_stream();
    for _ in 0..2 {
        assert_eq!(ready_bytes(thin.poll()), ready_bytes(one.poll()));
    }
    assert!(matches!(thin.poll(), MediaPoll::EndOfStream));
    assert!(matches!(one.poll(), MediaPoll::EndOfStream));
}

#[test]
fn mock_source_is_first_in_first_out_across_pushes() {
    let mut source = MockMediaSource::new(vec![gray_frame(1, 1, vec![1]), gray_frame(1, 1, vec![2])]);
    source.push(gray_frame(1, 1, vec![3]));
    let mut seen = Vec::new();
    for _ in 0..3 {
        seen.push(source.poll().expect("frame").buffer.read_bytes()[0]);
    }
    assert_eq!(seen, vec![1, 2, 3]);
    assert!(source.poll().is_none());
    assert!(source.poll().is_none());
    source.push(gray_frame(1, 1, vec![4]));
    assert_eq!(source.poll().expect("pushed later").buffer.read_bytes(), vec![4]);
    assert!(source.poll().is_none());
}

#[test]
fn buffer_clones_keep_the_external_only_flag() {
    let desc = BufferDesc::new(4, 1);
    let external = Buffer::from_external(DeviceKind::IntelGpu, MemoryDomain::DmaBuf, desc, ExternalHandle::from_fd(3))
        .expect("external buffer");
    let first = external.clone();
    let second = first.clone();
    assert!(external.is_external_only() && first.is_external_only() && second.is_external_only());
    assert!(matches!(second.write_from_slice(&[1, 2, 3, 4]), Err(Error::Buffer(_))));
    assert!(first.is_external_only());

    let host = Buffer::allocate_host(DeviceKind::Cpu, 4);
    let copy = host.clone();
    copy.write_from_slice(&[1, 2, 3, 4]).expect("write");
    assert!(!host.is_external_only() && !copy.is_external_only());
    assert_eq!(host.read_bytes(), vec![1, 2, 3, 4]);
}

#[test]
fn registry_lists_kinds_and_finds_the_first_descriptor() {
    let registry = vec![
        DeviceDescriptor { kind: DeviceKind::Cpu, name: "cpu" },
        DeviceDescriptor { kind: DeviceKind::IntelGpu, name: "mock-intel-device" },
        DeviceDescriptor { kind: DeviceKind::Cpu, name: "second-cpu" },
    ];
    assert_eq!(descriptor_kinds(&registry), vec![DeviceKind::Cpu, DeviceKind::IntelGpu, DeviceKind::Cpu]);
    assert_eq!(find_descriptor(&registry, DeviceKind::Cpu), Ok(0));
    assert_eq!(find_descriptor(&registry, DeviceKind::IntelGpu), Ok(1));
    assert_eq!(find_descriptor(&registry, DeviceKind::CudaGpu), Err(Error::UnsupportedDevice(DeviceKind::CudaGpu)));
    assert_eq!(find_descriptor(&[], DeviceKind::Cpu), Err(Error::UnsupportedDevice(DeviceKind::Cpu)));

    let builtin = registered_devices();
    assert_eq!(builtin.len(), 1);
    assert_eq!(builtin[0].name, "cpu");
    let kinds = registered_device_kinds();
    assert_eq!(kinds, vec![DeviceKind::Cpu]);
    for kind in kinds {
        assert!(resolve_device(kind).is_ok());
    }
    assert_eq!(resolve_device(DeviceKind::RknnNpu).err(), Some(Error::UnsupportedDevice(DeviceKind::RknnNpu)));
}

#[test]
fn is_whitespace_agrees_with_char_is_whitespace() {
    for code in 0u32..=0x10FFFF {
        if let Some(c) = char::from_u32(code) {
            assert_eq!(is_whitespace(c), c.is_whitespace(), "U+{code:04X}");
        }
    }
}

#[test]
fn tensor_allocation_asks_for_the_storage_size_byte_aligned() {
    let desc = TensorDesc::new(Shape::new(vec![3]), DataType::I4(), DataFormat::N, DeviceKind::Cpu);
    let request = desc.allocation_request().expect("request");
    assert_eq!((request.size_bytes, request.align), (2, 1));
    let tensor = Tensor::allocate(&CpuDevice::new(), desc).expect("allocate");
    assert_eq!(tensor.buffer().desc(), BufferDesc::new(2, 1));
}

#[test]
fn tensor_allocation_reports_descriptor_overflow_before_the_device() {
    let device = CpuDevice::new();
    let huge = TensorDesc::new(Shape::new(vec![usize::MAX, 2]), DataType::U8(), DataFormat::N, DeviceKind::Cpu);
    assert_eq!(huge.allocation_request().err(), Some(Error::Shape("shape element count overflow".to_string())));
    assert_eq!(
        Tensor::allocate(&device, huge).err(),
        Some(Error::Shape("shape element count overflow".to_string()))
    );
    let wide = TensorDesc::new(Shape::new(vec![usize::MAX / 4]), DataType::F32(), DataFormat::N, DeviceKind::Cpu);
    assert_eq!(
        Tensor::allocate(&device, wide).err(),
        Some(Error::InvalidArgument("datatype size overflow".to_string()))
    );
}

#[test]
fn adopting_a_buffer_checks_its_device() {
    let desc = TensorDesc::new(Shape::new(vec![2]), DataType::U8(), DataFormat::N, DeviceKind::Cpu);
    let adopted = Tensor::adopt_allocated(desc.clone(), Buffer::allocate_host(DeviceKind::Cpu, 2)).expect("adopt");
    assert_eq!(adopted.buffer().len(), 2);
    let err = Tensor::adopt_allocated(desc, Buffer::allocate_host(DeviceKind::IntelGpu, 2)).err();
    assert_eq!(err, Some(Error::Tensor("allocated buffer device does not match tensor device".to_string())));
}
