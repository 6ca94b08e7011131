use dg::buffer::{Buffer, BufferDesc};
use dg::datatype::{pack_float4, pack_int4, unpack_float4, unpack_int4, DataType, TypeCode};
use dg::device::{registered_device_kinds, resolve_device};
use dg::error::Error;
use dg::memory::{Allocator, BufferCache, CpuAllocator, MemoryPool};
use dg::shape::{Shape, Strides};
use dg::types::{DeviceKind, MemoryDomain};
use std::sync::Arc;

#[test]
fn int4_round_trip() {
    let values = [-8, -3, 0, 1, 7];
    let packed = pack_int4(&values).expect("pack int4");
    let unpacked = unpack_int4(&packed, values.len()).expect("unpack int4");
    assert_eq!(unpacked, values);
}

#[test]
fn float4_round_trip() {
    let values = [0, 1, 2, 3, 14, 15];
    let packed = pack_float4(&values).expect("pack float4");
    let unpacked = unpack_float4(&packed, values.len()).expect("unpack float4");
    assert_eq!(unpacked, values);
}

#[test]
fn int4_packs_low_nibble_first() {
    let packed = pack_int4(&[1, -1, 7]).expect("pack int4");
    assert_eq!(packed, vec![0xF1, 0x07]);
}

#[test]
fn int4_rejects_out_of_range_values() {
    assert!(matches!(pack_int4(&[8]), Err(Error::InvalidArgument(_))));
    assert!(matches!(pack_int4(&[-9]), Err(Error::InvalidArgument(_))));
}

#[test]
fn float4_rejects_values_above_fifteen() {
    assert!(matches!(pack_float4(&[16]), Err(Error::InvalidArgument(_))));
}

#[test]
fn data_type_storage_for_sub_byte_elements() {
    let int4 = DataType::I4();
    assert_eq!(int4.size_in_bits(), 4);
    assert_eq!(DataType::U16().size_in_bits(), 16);
    assert_eq!(DataType::new(TypeCode::Uint, 32, 1).size_in_bits(), 32);
}

#[test]
fn registry_reports_missing_device() {
    let error = match resolve_device(DeviceKind::CudaGpu) {
        Ok(_) => panic!("device should be absent"),
        Err(error) => error,
    };
    assert!(matches!(error, Error::UnsupportedDevice(DeviceKind::CudaGpu)));
}

#[test]
fn registry_resolves_the_builtin_cpu_device() {
    assert!(registered_device_kinds().contains(&DeviceKind::Cpu));
    assert!(resolve_device(DeviceKind::Cpu).is_ok());
}

#[test]
fn unsupported_device_message_names_the_device() {
    let message = Error::UnsupportedDevice(DeviceKind::CudaGpu).message();
    assert_eq!(message, "unsupported device: CudaGpu");
}

#[test]
fn memory_pool_reuses_matching_buffers() {
    let pool = MemoryPool::new(Arc::new(CpuAllocator));
    let first = pool.allocate(BufferDesc::new(64, 16)).expect("allocate first buffer");
    pool.deallocate(first).expect("deallocate first buffer");
    assert_eq!(pool.cached_buffer_count(), 1);

    let second = pool.allocate(BufferDesc::new(64, 16)).expect("allocate second buffer");
    assert_eq!(pool.cached_buffer_count(), 0);
    assert_eq!(second.desc(), BufferDesc::new(64, 16));
}

#[test]
fn memory_pool_does_not_reuse_different_descriptors() {
    let pool = MemoryPool::new(Arc::new(CpuAllocator));
    let first = pool.allocate(BufferDesc::new(64, 16)).expect("allocate first buffer");
    pool.deallocate(first).expect("deallocate first buffer");

    let second = pool.allocate(BufferDesc::new(32, 16)).expect("allocate second buffer");
    assert_eq!(second.desc(), BufferDesc::new(32, 16));
    assert_eq!(pool.cached_buffer_count(), 1);
}

#[test]
fn memory_pool_rejects_zero_alignment() {
    let pool = MemoryPool::new(Arc::new(CpuAllocator));
    assert!(matches!(pool.allocate(BufferDesc::new(8, 0)), Err(Error::InvalidArgument(_))));
}

#[test]
fn memory_pool_hands_shared_buffers_back_to_the_allocator() {
    let pool = MemoryPool::new(Arc::new(CpuAllocator));
    let first = pool.allocate(BufferDesc::new(16, 8)).expect("allocate");
    let other_handle = first.clone();
    pool.deallocate(first).expect("deallocate");
    assert_eq!(pool.cached_buffer_count(), 0);
    assert_eq!(other_handle.len(), 16);
}

#[test]
fn buffer_cache_store_then_take_restores_counts() {
    let mut cache = BufferCache::new();
    let buffer = Buffer::allocate_host(DeviceKind::Cpu, 32);
    let desc = buffer.desc();
    cache.store(buffer);
    assert_eq!(cache.len(), 1);
    let taken = cache.take(desc).expect("cached buffer");
    assert_eq!(taken.desc(), desc);
    assert_eq!(cache.len(), 0);
    assert!(cache.take(desc).is_none());
}

#[test]
fn buffer_write_is_seen_through_every_clone() {
    let buffer = Buffer::allocate_host(DeviceKind::Cpu, 4);
    let clone = buffer.clone();
    buffer.write_from_slice(&[1, 2, 3, 4]).expect("write");
    assert_eq!(clone.read_bytes(), vec![1, 2, 3, 4]);
    assert!(buffer.ref_count() >= 2);
    assert_eq!(buffer.domain(), MemoryDomain::Host);
}

#[test]
fn buffer_write_rejects_wrong_length() {
    let buffer = Buffer::allocate_host(DeviceKind::Cpu, 4);
    assert!(matches!(buffer.write_from_slice(&[1, 2]), Err(Error::Buffer(_))));
}

#[test]
fn shape_element_count_and_contiguous_strides() {
    let shape = Shape::new(vec![2, 3, 4]);
    assert_eq!(shape.element_count().expect("count"), 24);
    let strides = shape.contiguous_strides();
    assert_eq!(strides.values(), &[12, 4, 1]);
    assert!(strides.is_contiguous_for(&shape));
    assert!(!Strides::new(vec![12, 5, 1]).is_contiguous_for(&shape));
}

#[test]
fn shape_element_count_overflow_is_a_shape_error() {
    let shape = Shape::new(vec![usize::MAX, 2]);
    assert!(matches!(shape.element_count(), Err(Error::Shape(_))));
}
