//! Device, stream and event abstractions with the CPU implementations, and
//! the registry of built-in device adapters.
use crate::buffer::{Buffer, BufferDesc};
use crate::error::Error;
use crate::memory::{lemma_cpu_pool_release, Allocator, CpuAllocator, MemoryPool};
use crate::types::{DeviceKind, EventKind, MemoryDomain, StreamKind};
use std::sync::Arc;
use vstd::prelude::*;

verus! {

/// Execution stream abstraction.
pub trait Stream {
    fn kind(&self) -> StreamKind;

    fn synchronize(&self) -> Result<(), Error>;
}

/// Execution event abstraction.
pub trait Event {
    fn kind(&self) -> EventKind;

    fn record<S: Stream>(&self, stream: &S) -> Result<(), Error>;

    fn synchronize(&self) -> Result<(), Error>;
}

/// No-op CPU stream.
#[derive(Clone, Debug, Default)]
pub struct CpuStream;

impl Stream for CpuStream {
    fn kind(&self) -> (r: StreamKind)
        ensures
            r == StreamKind::Cpu,
    {
        StreamKind::Cpu
    }

    fn synchronize(&self) -> (r: Result<(), Error>)
        ensures
            r is Ok,
    {
        Ok(())
    }
}

/// No-op CPU event.
#[derive(Clone, Debug, Default)]
pub struct CpuEvent;

impl Event for CpuEvent {
    fn kind(&self) -> (r: EventKind)
        ensures
            r == EventKind::Cpu,
    {
        EventKind::Cpu
    }

    fn record<S: Stream>(&self, _stream: &S) -> (r: Result<(), Error>)
        ensures
            r is Ok,
    {
        Ok(())
    }

    fn synchronize(&self) -> (r: Result<(), Error>)
        ensures
            r is Ok,
    {
        Ok(())
    }
}

/// Device abstraction used by runtime and graph layers.
pub trait Device {
    type Stream: Stream;

    type Event: Event;

    type Allocator: Allocator;

    fn kind(&self) -> DeviceKind;

    fn name(&self) -> &str;

    /// Allocates a buffer of exactly the requested descriptor.
    fn alloc_buffer(&self, desc: BufferDesc) -> (r: Result<Buffer, Error>)
        ensures
            r matches Ok(b) ==> b@.desc == desc,
    ;

    fn free(&self, buffer: Buffer) -> Result<(), Error>;

    fn memcpy_h2d(&self, dst: &Buffer, src: &[u8]) -> Result<(), Error>;

    fn memcpy_d2h(&self, src: &Buffer, dst: &mut [u8]) -> Result<(), Error>;

    fn memcpy_d2d(&self, dst: &Buffer, src: &Buffer) -> Result<(), Error>;

    fn create_stream(&self) -> Result<Self::Stream, Error>;

    fn create_event(&self) -> Result<Self::Event, Error>;

    fn allocator(&self) -> Arc<Self::Allocator>;

    fn synchronize(&self) -> Result<(), Error>;
}

/// CPU device backed by ordinary heap memory, allocating through a reusable pool.
pub struct CpuDevice {
    allocator: Arc<MemoryPool<CpuAllocator>>,
}

impl Clone for CpuDevice {
    fn clone(&self) -> (r: Self) {
        CpuDevice { allocator: Arc::clone(&self.allocator) }
    }
}

impl CpuDevice {
    /// The pool the device allocates through.
    pub closed spec fn pool(&self) -> Arc<MemoryPool<CpuAllocator>> {
        self.allocator
    }

    pub fn new() -> (r: Self) {
        CpuDevice { allocator: Arc::new(MemoryPool::new(Arc::new(CpuAllocator))) }
    }
}

impl Device for CpuDevice {
    type Stream = CpuStream;

    type Event = CpuEvent;

    type Allocator = MemoryPool<CpuAllocator>;

    fn kind(&self) -> (r: DeviceKind)
        ensures
            r == DeviceKind::Cpu,
    {
        DeviceKind::Cpu
    }

    fn name(&self) -> (r: &str)
        ensures
            r@ == "cpu"@,
    {
        "cpu"
    }

    /// Allocates through the device's pool: a zero alignment is rejected,
    /// any other descriptor gets a host buffer of exactly that descriptor.
    fn alloc_buffer(&self, desc: BufferDesc) -> (r: Result<Buffer, Error>)
        ensures
            desc.align == 0 ==> r matches Err(Error::InvalidArgument(_)),
            desc.align != 0 ==> (r matches Ok(b) && b@.desc == desc && b@.domain == MemoryDomain::Host),
    {
        proof {
            lemma_cpu_pool_release(&*self.allocator);
        }
        self.allocator.allocate(desc)
    }

    fn free(&self, buffer: Buffer) -> (r: Result<(), Error>)
        ensures
            r is Ok,
    {
        proof {
            lemma_cpu_pool_release(&*self.allocator);
        }
        self.allocator.deallocate(buffer)
    }

    fn memcpy_h2d(&self, dst: &Buffer, src: &[u8]) -> (r: Result<(), Error>)
        ensures
            src@.len() == dst@.desc.size_bytes && !dst@.external_only ==> r is Ok,
            src@.len() != dst@.desc.size_bytes || dst@.external_only ==> r matches Err(
                Error::Buffer(_),
            ),
    {
        dst.write_from_slice(src)
    }

    fn memcpy_d2h(&self, src: &Buffer, dst: &mut [u8]) -> (r: Result<(), Error>)
        ensures
            final(dst)@.len() == old(dst)@.len(),
            old(dst)@.len() == src@.desc.size_bytes && !src@.external_only ==> r is Ok,
            old(dst)@.len() != src@.desc.size_bytes || src@.external_only ==> r matches Err(
                Error::Buffer(_),
            ),
    {
        src.copy_into(dst)
    }

    fn memcpy_d2d(&self, dst: &Buffer, src: &Buffer) -> (r: Result<(), Error>)
        ensures
            !src@.external_only && !dst@.external_only && src@.desc.size_bytes
                == dst@.desc.size_bytes ==> r is Ok,
            src@.external_only || dst@.external_only || src@.desc.size_bytes
                != dst@.desc.size_bytes ==> r matches Err(Error::Buffer(_)),
    {
        src.copy_to(dst)
    }

    fn create_stream(&self) -> (r: Result<CpuStream, Error>)
        ensures
            r is Ok,
    {
        Ok(CpuStream)
    }

    fn create_event(&self) -> (r: Result<CpuEvent, Error>)
        ensures
            r is Ok,
    {
        Ok(CpuEvent)
    }

    fn allocator(&self) -> (r: Arc<MemoryPool<CpuAllocator>>)
        ensures
            r == self.pool(),
    {
        Arc::clone(&self.allocator)
    }

    fn synchronize(&self) -> (r: Result<(), Error>)
        ensures
            r is Ok,
    {
        Ok(())
    }
}

/// Static descriptor of a built-in device adapter.
pub struct DeviceDescriptor {
    pub kind: DeviceKind,
    pub name: &'static str,
}

/// The device adapters built into the library: the CPU adapter.
pub open spec fn builtin_device_kinds() -> Seq<DeviceKind> {
    seq![DeviceKind::Cpu]
}

/// The kinds of a list of device descriptors, in list order.
pub open spec fn kinds_of(registry: Seq<DeviceDescriptor>) -> Seq<DeviceKind> {
    registry.map_values(|d: DeviceDescriptor| d.kind)
}

/// The descriptors of the adapters built into the library.
pub fn registered_devices() -> (r: Vec<DeviceDescriptor>)
    ensures
        kinds_of(r@) == builtin_device_kinds(),
{
    let mut devices: Vec<DeviceDescriptor> = Vec::new();
    devices.push(DeviceDescriptor { kind: DeviceKind::Cpu, name: "cpu" });
    assert(kinds_of(devices@) =~= builtin_device_kinds());
    devices
}

/// The kinds of `registry`, in registry order.
pub fn descriptor_kinds(registry: &[DeviceDescriptor]) -> (r: Vec<DeviceKind>)
    ensures
        r@ == kinds_of(registry@),
{
    let mut kinds: Vec<DeviceKind> = Vec::new();
    let mut i: usize = 0;
    while i < registry.len()
        invariant
            i <= registry@.len(),
            kinds@ == kinds_of(registry@).subrange(0, i as int),
        decreases registry@.len() - i,
    {
        kinds.push(registry[i].kind);
        i += 1;
        assert(kinds@ =~= kinds_of(registry@).subrange(0, i as int));
    }
    assert(kinds@ =~= kinds_of(registry@));
    kinds
}

/// The position of the first descriptor of `kind` in `registry`; a kind
/// that no descriptor has is unsupported.
pub fn find_descriptor(registry: &[DeviceDescriptor], kind: DeviceKind) -> (r: Result<usize, Error>)
    ensures
        r is Ok <==> kinds_of(registry@).contains(kind),
        r matches Ok(i) ==> i < registry@.len() && registry@[i as int].kind == kind && forall|j: int|
            0 <= j < i ==> (#[trigger] registry@[j]).kind != kind,
        r is Err ==> r == Err::<usize, Error>(Error::UnsupportedDevice(kind)),
{
    let mut i: usize = 0;
    while i < registry.len()
        invariant
            i <= registry@.len(),
            forall|j: int| 0 <= j < i ==> (#[trigger] registry@[j]).kind != kind,
        decreases registry@.len() - i,
    {
        if registry[i].kind == kind {
            assert(kinds_of(registry@)[i as int] == kind);
            return Ok(i);
        }
        i += 1;
    }
    assert(!kinds_of(registry@).contains(kind)) by {
        if kinds_of(registry@).contains(kind) {
            let j = choose|j: int| 0 <= j < kinds_of(registry@).len() && kinds_of(registry@)[j] == kind;
            assert(registry@[j].kind == kind);
        }
    }
    Err(Error::UnsupportedDevice(kind))
}

/// Every kind that a registry lists resolves in it: the lookup of a listed
/// kind finds a descriptor of that kind, and the lookup of any other kind
/// finds none. The library's own registry lists the CPU adapter.
pub proof fn lemma_listed_kinds_resolve(registry: Seq<DeviceDescriptor>, kind: DeviceKind)
    ensures
        kinds_of(registry).len() == registry.len(),
        kinds_of(registry).contains(kind) <==> exists|i: int|
            0 <= i < registry.len() && (#[trigger] registry[i]).kind == kind,
        builtin_device_kinds().contains(DeviceKind::Cpu),
{
    if exists|i: int| 0 <= i < registry.len() && (#[trigger] registry[i]).kind == kind {
        let i = choose|i: int| 0 <= i < registry.len() && (#[trigger] registry[i]).kind == kind;
        assert(kinds_of(registry)[i] == kind);
    }
    assert(builtin_device_kinds()[0] == DeviceKind::Cpu);
}

/// List the device kinds with registered adapters.
pub fn registered_device_kinds() -> (r: Vec<DeviceKind>)
    ensures
        r@ == builtin_device_kinds(),
{
    let devices = registered_devices();
    descriptor_kinds(devices.as_slice())
}

fn create_cpu_device() -> (r: Result<CpuDevice, Error>)
    ensures
        r is Ok,
{
    Ok(CpuDevice::new())
}

/// Resolve a device adapter by kind; kinds without an adapter are unsupported.
pub fn resolve_device(kind: DeviceKind) -> (r: Result<CpuDevice, Error>)
    ensures
        builtin_device_kinds().contains(kind) ==> r is Ok,
        !builtin_device_kinds().contains(kind) ==> r == Err::<CpuDevice, Error>(
            Error::UnsupportedDevice(kind),
        ),
{
    let devices = registered_devices();
    match find_descriptor(devices.as_slice(), kind) {
        Ok(_) => create_cpu_device(),
        Err(e) => Err(e),
    }
}

} // verus!
