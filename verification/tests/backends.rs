use dg::openvino::{backend_enabled as openvino_enabled, select_external_binding_path, ExternalBindingPath};
use dg::rknn::padding::{depad_bytes, pad_bytes, padded_byte_len};
use dg::rknn::{backend_enabled as rknn_enabled, select_io_path, strides_from_w_stride, IoPath};
use dg::error::Error;
use dg::shape::{Shape, Strides};
use dg::types::{DataFormat, MemoryDomain};

#[test]
fn domain_selection_prefers_host_and_remote_tensor_routes() {
    assert_eq!(select_external_binding_path(MemoryDomain::Host), ExternalBindingPath::HostTensor);
    assert_eq!(select_external_binding_path(MemoryDomain::CudaDevice), ExternalBindingPath::RemoteTensor);
}

#[test]
fn every_device_domain_binds_as_a_remote_tensor() {
    for domain in [MemoryDomain::DmaBuf, MemoryDomain::DrmPrime, MemoryDomain::VaapiSurface, MemoryDomain::MppBuffer, MemoryDomain::SophonDevice, MemoryDomain::Opaque] {
        assert_eq!(select_external_binding_path(domain), ExternalBindingPath::RemoteTensor);
    }
}

#[test]
fn vendor_runtimes_are_not_compiled_in() {
    assert!(!openvino_enabled());
    assert!(!rknn_enabled());
}

#[test]
fn io_path_selection() {
    assert_eq!(select_io_path(true, true), IoPath::ZeroCopy);
    assert_eq!(select_io_path(true, false), IoPath::Staging);
    assert_eq!(select_io_path(false, true), IoPath::Staging);
    assert_eq!(select_io_path(false, false), IoPath::Staging);
    assert_eq!(IoPath::ZeroCopy.as_str(), "zero_copy");
    assert_eq!(IoPath::Staging.as_str(), "staging");
}

#[test]
fn strides_contiguous_when_w_stride_matches_width() {
    let shape = Shape::new(vec![1, 3, 224, 224]);
    assert_eq!(strides_from_w_stride(&shape, DataFormat::NCHW, 224), None);
    assert_eq!(strides_from_w_stride(&shape, DataFormat::NCHW, 0), None);
}

#[test]
fn strides_nchw_padded_width() {
    let shape = Shape::new(vec![1, 3, 224, 224]);
    let strides = strides_from_w_stride(&shape, DataFormat::NCHW, 256).expect("padded");
    assert_eq!(strides.values(), &[3 * 224 * 256, 224 * 256, 256, 1]);
}

#[test]
fn strides_nhwc_padded_width() {
    let shape = Shape::new(vec![1, 224, 224, 3]);
    let strides = strides_from_w_stride(&shape, DataFormat::NHWC, 256).expect("padded");
    assert_eq!(strides.values(), &[224 * 256 * 3, 256 * 3, 3, 1]);
}

#[test]
fn strides_non_4d_shapes_are_ignored() {
    let shape = Shape::new(vec![1, 128]);
    assert_eq!(strides_from_w_stride(&shape, DataFormat::NCHW, 256), None);
}

#[test]
fn padded_byte_len_accounts_for_w_stride() {
    let shape = Shape::new(vec![1, 2, 2, 3]);
    let strides = strides_from_w_stride(&shape, DataFormat::NCHW, 4).expect("padded");
    assert_eq!(padded_byte_len(&shape, &strides, 1).expect("len"), 15);
}

#[test]
fn pad_and_depad_round_trip_nchw() {
    let shape = Shape::new(vec![1, 2, 2, 3]);
    let strides = strides_from_w_stride(&shape, DataFormat::NCHW, 4).expect("padded");
    let contiguous: Vec<u8> = (1..=12).collect();
    let padded = pad_bytes(&contiguous, &shape, &strides, 1).expect("pad");
    assert_eq!(padded, vec![1, 2, 3, 0, 4, 5, 6, 0, 7, 8, 9, 0, 10, 11, 12]);
    let restored = depad_bytes(&padded, &shape, &strides, 1).expect("depad");
    assert_eq!(restored, contiguous);
}

#[test]
fn depad_reads_padded_nhwc_rows() {
    let shape = Shape::new(vec![1, 2, 2, 2]);
    let strides = strides_from_w_stride(&shape, DataFormat::NHWC, 3).expect("padded");
    let padded = vec![1, 2, 3, 4, 0, 0, 5, 6, 7, 8, 0, 0];
    let restored = depad_bytes(&padded, &shape, &strides, 1).expect("depad");
    assert_eq!(restored, vec![1, 2, 3, 4, 5, 6, 7, 8]);
}

#[test]
fn pad_and_depad_respect_element_size() {
    let shape = Shape::new(vec![1, 1, 2, 2]);
    let strides = strides_from_w_stride(&shape, DataFormat::NCHW, 3).expect("padded");
    let contiguous: Vec<u8> = (1..=8).collect();
    let padded = pad_bytes(&contiguous, &shape, &strides, 2).expect("pad");
    assert_eq!(padded, vec![1, 2, 3, 4, 0, 0, 5, 6, 7, 8]);
    let restored = depad_bytes(&padded, &shape, &strides, 2).expect("depad");
    assert_eq!(restored, contiguous);
}

#[test]
fn pad_and_depad_reject_size_mismatch() {
    let shape = Shape::new(vec![1, 1, 2, 2]);
    let strides = strides_from_w_stride(&shape, DataFormat::NCHW, 3).expect("padded");
    assert!(matches!(pad_bytes(&[0u8; 3], &shape, &strides, 1), Err(Error::Backend(_))));
    assert!(matches!(depad_bytes(&[0u8; 3], &shape, &strides, 1), Err(Error::Backend(_))));
}

#[test]
fn padded_layouts_reject_bad_strides() {
    let shape = Shape::new(vec![2, 2]);
    assert!(matches!(padded_byte_len(&shape, &Strides::new(vec![2]), 1), Err(Error::Backend(_))));
    assert!(matches!(padded_byte_len(&shape, &Strides::new(vec![4, 2]), 1), Err(Error::Backend(_))));
    let empty = Shape::new(vec![2, 0]);
    assert!(matches!(padded_byte_len(&empty, &Strides::new(vec![3, 1]), 1), Err(Error::Backend(_))));
}
