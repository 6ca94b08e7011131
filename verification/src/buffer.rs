//! Shared byte storage with descriptors, host and external memory domains.
//!
//! A `Buffer` is a cheap handle: clones share one storage cell, so a write
//! made through any clone is seen through every other clone. The storage cell
//! is a lock whose invariant pins its byte length to the descriptor size.
use crate::error::Error;
use crate::types::{memory_type_of, DeviceKind, ExternalHandle, MemoryDomain, MemoryType};
use std::sync::Arc;
use vstd::prelude::*;
use vstd::rwlock::{RwLock, RwLockPredicate};

verus! {

/// Buffer descriptor used for allocations and validation.
#[derive(Clone, Copy, Debug, PartialEq, Eq, Structural, Hash)]
pub struct BufferDesc {
    pub size_bytes: usize,
    pub align: usize,
}

impl BufferDesc {
    pub fn new(size_bytes: usize, align: usize) -> (r: Self)
        ensures
            r.size_bytes == size_bytes,
            r.align == align,
    {
        BufferDesc { size_bytes, align }
    }
}

/// Lock invariant of a storage cell: it always holds exactly `size` bytes.
pub struct SizedBytes {
    pub size: usize,
}

impl RwLockPredicate<Vec<u8>> for SizedBytes {
    open spec fn inv(self, v: Vec<u8>) -> bool {
        v@.len() == self.size
    }
}

/// A shared, lock-protected byte cell.
pub type SharedBytes = Arc<RwLock<Vec<u8>, SizedBytes>>;

/// Backing storage of a buffer: host bytes, or an external handle that may or
/// may not come with a host-mapped copy of its bytes.
#[derive(Clone)]
enum BufferStorage {
    Host(SharedBytes),
    External { bytes: Option<SharedBytes> },
}

/// What a buffer is, as seen by contracts.
pub struct BufferView {
    pub device: DeviceKind,
    pub domain: MemoryDomain,
    pub desc: BufferDesc,
    pub external: ExternalHandle,
    /// The buffer carries an external handle and no host-readable bytes.
    pub external_only: bool,
}

/// Shared byte storage with RAII semantics.
pub struct Buffer {
    device: DeviceKind,
    domain: MemoryDomain,
    desc: BufferDesc,
    external: ExternalHandle,
    storage: Arc<BufferStorage>,
}

spec fn cell_holds(cell: SharedBytes, size: usize) -> bool {
    (*cell).pred().size == size
}

impl Buffer {
    #[verifier::type_invariant]
    spec fn wf(self) -> bool {
        match *self.storage {
            BufferStorage::Host(cell) => cell_holds(cell, self.desc.size_bytes),
            BufferStorage::External { bytes: Some(cell) } => cell_holds(
                cell,
                self.desc.size_bytes,
            ),
            BufferStorage::External { bytes: None } => true,
        }
    }
}

impl Clone for Buffer {
    /// Another handle on the same storage.
    fn clone(&self) -> (r: Self)
        ensures
            r@ == self@,
    {
        proof {
            use_type_invariant(self);
        }
        Buffer {
            device: self.device,
            domain: self.domain,
            desc: self.desc,
            external: self.external,
            storage: Arc::clone(&self.storage),
        }
    }
}

impl View for Buffer {
    type V = BufferView;

    closed spec fn view(&self) -> BufferView {
        BufferView {
            device: self.device,
            domain: self.domain,
            desc: self.desc,
            external: self.external,
            external_only: *self.storage matches BufferStorage::External { bytes: None },
        }
    }
}

fn new_cell(bytes: Vec<u8>) -> (r: SharedBytes)
    ensures
        cell_holds(r, bytes@.len() as usize),
{
    let size = bytes.len();
    Arc::new(RwLock::new(bytes, Ghost(SizedBytes { size })))
}

fn read_cell(cell: &SharedBytes) -> (r: Vec<u8>)
    ensures
        r@.len() == (**cell).pred().size,
{
    let handle = cell.acquire_read();
    let bytes = handle.borrow().clone();
    handle.release_read();
    bytes
}

/// Replaces the contents of `cell` by a copy of `src`, which must have the cell's size.
fn write_cell(cell: &SharedBytes, src: &[u8])
    requires
        src@.len() == (**cell).pred().size,
{
    let (_previous, handle) = cell.acquire_write();
    let mut copy: Vec<u8> = Vec::with_capacity(src.len());
    let mut i: usize = 0;
    while i < src.len()
        invariant
            i <= src@.len(),
            copy@ == src@.subrange(0, i as int),
        decreases src@.len() - i,
    {
        copy.push(src[i]);
        i += 1;
    }
    assert(copy@ =~= src@);
    handle.release_write(copy);
}

/// Number of strong handles to the shared storage cell.
#[verifier::external_body]
fn strong_count(storage: &Arc<BufferStorage>) -> (r: usize)
    ensures
        r >= 1,
{
    Arc::strong_count(storage)
}


impl Buffer {
    pub(crate) fn new_host(device: DeviceKind, desc: BufferDesc) -> (r: Self)
        ensures
            r@ == (BufferView {
                device,
                domain: MemoryDomain::Host,
                desc,
                external: ExternalHandle { fd: None, raw: 0 },
                external_only: false,
            }),
    {
        let bytes: Vec<u8> = vec![0u8; desc.size_bytes];
        Buffer {
            device,
            domain: MemoryDomain::Host,
            desc,
            external: ExternalHandle::none(),
            storage: Arc::new(BufferStorage::Host(new_cell(bytes))),
        }
    }

    /// A zero-filled host buffer of `size_bytes` bytes with alignment 1.
    pub fn allocate_host(device: DeviceKind, size_bytes: usize) -> (r: Self)
        ensures
            r@ == (BufferView {
                device,
                domain: MemoryDomain::Host,
                desc: BufferDesc { size_bytes, align: 1 },
                external: ExternalHandle { fd: None, raw: 0 },
                external_only: false,
            }),
    {
        Self::new_host(device, BufferDesc::new(size_bytes, 1))
    }

    /// Wraps host bytes; they must have exactly the descriptor size.
    pub fn from_host_bytes(device: DeviceKind, desc: BufferDesc, bytes: Vec<u8>) -> (r: Result<
        Self,
        Error,
    >)
        ensures
            bytes@.len() == desc.size_bytes ==> (r matches Ok(b) && b@ == (BufferView {
                device,
                domain: MemoryDomain::Host,
                desc,
                external: ExternalHandle { fd: None, raw: 0 },
                external_only: false,
            })),
            bytes@.len() != desc.size_bytes ==> r matches Err(Error::Buffer(_)),
    {
        if bytes.len() != desc.size_bytes {
            return Err(Error::Buffer("host bytes do not match descriptor size".to_string()));
        }
        Ok(
            Buffer {
                device,
                domain: MemoryDomain::Host,
                desc,
                external: ExternalHandle::none(),
                storage: Arc::new(BufferStorage::Host(new_cell(bytes))),
            },
        )
    }

    /// Imports an external handle together with a host-mapped copy of its bytes.
    pub fn from_external_with_host_bytes(
        device: DeviceKind,
        domain: MemoryDomain,
        desc: BufferDesc,
        external: ExternalHandle,
        bytes: Vec<u8>,
    ) -> (r: Result<Self, Error>)
        ensures
            bytes@.len() == desc.size_bytes ==> (r matches Ok(b) && b@ == (BufferView {
                device,
                domain,
                desc,
                external,
                external_only: false,
            })),
            bytes@.len() != desc.size_bytes ==> r matches Err(Error::Buffer(_)),
    {
        if bytes.len() != desc.size_bytes {
            return Err(Error::Buffer("external bytes do not match descriptor size".to_string()));
        }
        Ok(
            Buffer {
                device,
                domain,
                desc,
                external,
                storage: Arc::new(BufferStorage::External { bytes: Some(new_cell(bytes)) }),
            },
        )
    }

    /// Imports an external handle without allocating host storage.
    pub fn from_external(
        device: DeviceKind,
        domain: MemoryDomain,
        desc: BufferDesc,
        external: ExternalHandle,
    ) -> (r: Result<Self, Error>)
        ensures
            r matches Ok(b) && b@ == (BufferView {
                device,
                domain,
                desc,
                external,
                external_only: true,
            }),
    {
        Ok(
            Buffer {
                device,
                domain,
                desc,
                external,
                storage: Arc::new(BufferStorage::External { bytes: None }),
            },
        )
    }

    pub fn device(&self) -> (r: DeviceKind)
        ensures
            r == self@.device,
    {
        self.device
    }

    pub fn domain(&self) -> (r: MemoryDomain)
        ensures
            r == self@.domain,
    {
        self.domain
    }

    pub fn memory_type(&self) -> (r: MemoryType)
        ensures
            r == memory_type_of(self@.domain),
    {
        match self.domain {
            MemoryDomain::Host => MemoryType::Host,
            MemoryDomain::DmaBuf | MemoryDomain::DrmPrime | MemoryDomain::VaapiSurface
            | MemoryDomain::CudaDevice | MemoryDomain::MppBuffer | MemoryDomain::SophonDevice
            | MemoryDomain::Opaque => MemoryType::Device,
        }
    }

    pub fn desc(&self) -> (r: BufferDesc)
        ensures
            r == self@.desc,
    {
        self.desc
    }

    pub fn len(&self) -> (r: usize)
        ensures
            r == self@.desc.size_bytes,
    {
        self.desc.size_bytes
    }

    pub fn is_empty(&self) -> (r: bool)
        ensures
            r == (self@.desc.size_bytes == 0),
    {
        self.len() == 0
    }

    /// How many handles share this buffer's storage (at least this one).
    pub fn ref_count(&self) -> (r: usize)
        ensures
            r >= 1,
    {
        strong_count(&self.storage)
    }

    /// A copy of the host bytes; empty for an external-only buffer.
    pub fn read_bytes(&self) -> (r: Vec<u8>)
        ensures
            self@.external_only ==> r@.len() == 0,
            !self@.external_only ==> r@.len() == self@.desc.size_bytes,
    {
        proof {
            use_type_invariant(self);
        }
        match &*self.storage {
            BufferStorage::Host(cell) => read_cell(cell),
            BufferStorage::External { bytes: Some(cell) } => read_cell(cell),
            BufferStorage::External { bytes: None } => Vec::new(),
        }
    }

    /// Reads bytes only when host storage is already available.
    pub fn try_read_bytes(&self) -> (r: Result<Vec<u8>, Error>)
        ensures
            self@.external_only ==> r matches Err(Error::Buffer(_)),
            !self@.external_only ==> (r matches Ok(v) && v@.len() == self@.desc.size_bytes),
    {
        if self.is_external_only() {
            return Err(
                Error::Buffer(
                    "external buffer is not host-mapped; call map or stage explicitly".to_string(),
                ),
            );
        }
        Ok(self.read_bytes())
    }

    /// Explicitly maps host-backed storage; external-only buffers need `map_with`.
    pub fn map(&self) -> (r: Result<Vec<u8>, Error>)
        ensures
            self@.external_only ==> r matches Err(Error::Buffer(_)),
            !self@.external_only ==> (r matches Ok(v) && v@.len() == self@.desc.size_bytes),
    {
        self.try_read_bytes()
    }

    /// Explicitly stages an external buffer using a caller-provided mapper,
    /// which is called with the handle, the domain and the size in bytes.
    pub fn map_with<F: FnOnce(ExternalHandle, MemoryDomain, usize) -> Result<Vec<u8>, Error>>(
        &self,
        mapper: F,
    ) -> (r: Result<Vec<u8>, Error>)
        requires
            self@.external_only ==> call_requires(
                mapper,
                (self@.external, self@.domain, self@.desc.size_bytes),
            ),
        ensures
            !self@.external_only ==> (r matches Ok(v) && v@.len() == self@.desc.size_bytes),
            self@.external_only ==> exists|mapped: Result<Vec<u8>, Error>|
                {
                    &&& call_ensures(
                        mapper,
                        (self@.external, self@.domain, self@.desc.size_bytes),
                        mapped,
                    )
                    &&& (mapped matches Err(e) ==> r == Err::<Vec<u8>, Error>(e))
                    &&& (mapped matches Ok(v) && v@.len() == self@.desc.size_bytes ==> r
                        == mapped)
                    &&& (mapped matches Ok(v) && v@.len() != self@.desc.size_bytes ==> r matches Err(
                        Error::Buffer(_),
                    ))
                },
    {
        if !self.is_external_only() {
            return self.try_read_bytes();
        }
        let mapped = mapper(self.external, self.domain, self.desc.size_bytes);
        match mapped {
            Err(e) => Err(e),
            Ok(bytes) => {
                if bytes.len() != self.desc.size_bytes {
                    Err(
                        Error::Buffer(
                            "mapped external bytes do not match descriptor size".to_string(),
                        ),
                    )
                } else {
                    Ok(bytes)
                }
            },
        }
    }

    /// Consumes the buffer and returns its host bytes (empty when external-only).
    pub fn into_host_bytes(self) -> (r: Vec<u8>)
        ensures
            self@.external_only ==> r@.len() == 0,
            !self@.external_only ==> r@.len() == self@.desc.size_bytes,
    {
        self.read_bytes()
    }

    /// Overwrites the shared bytes with `src`, which must have the buffer's size.
    pub fn write_from_slice(&self, src: &[u8]) -> (r: Result<(), Error>)
        ensures
            src@.len() == self@.desc.size_bytes && !self@.external_only ==> r is Ok,
            src@.len() != self@.desc.size_bytes || self@.external_only ==> r matches Err(
                Error::Buffer(_),
            ),
    {
        proof {
            use_type_invariant(self);
        }
        if src.len() != self.len() {
            return Err(Error::Buffer("source and destination size differ".to_string()));
        }
        match &*self.storage {
            BufferStorage::Host(cell) => {
                write_cell(cell, src);
                Ok(())
            },
            BufferStorage::External { bytes: Some(cell) } => {
                write_cell(cell, src);
                Ok(())
            },
            BufferStorage::External { bytes: None } => Err(
                Error::Buffer(
                    "external buffer is not host-mapped; call map or stage explicitly".to_string(),
                ),
            ),
        }
    }

    /// Copies the host bytes into `dst`, which must have the buffer's size.
    pub fn copy_into(&self, dst: &mut [u8]) -> (r: Result<(), Error>)
        ensures
            final(dst)@.len() == old(dst)@.len(),
            old(dst)@.len() == self@.desc.size_bytes && !self@.external_only ==> r is Ok,
            old(dst)@.len() != self@.desc.size_bytes || self@.external_only ==> (r matches Err(
                Error::Buffer(_),
            ) && final(dst)@ == old(dst)@),
    {
        if dst.len() != self.len() {
            return Err(Error::Buffer("source and destination size differ".to_string()));
        }
        let bytes = self.try_read_bytes()?;
        let mut i: usize = 0;
        while i < bytes.len()
            invariant
                bytes@.len() == dst@.len(),
                i <= bytes@.len(),
                dst@.len() == old(dst)@.len(),
            decreases bytes@.len() - i,
        {
            dst[i] = bytes[i];
            i += 1;
        }
        Ok(())
    }

    /// Copies this buffer's host bytes into `dst`'s storage.
    pub fn copy_to(&self, dst: &Buffer) -> (r: Result<(), Error>)
        ensures
            !self@.external_only && !dst@.external_only && self@.desc.size_bytes
                == dst@.desc.size_bytes ==> r is Ok,
            self@.external_only || dst@.external_only || self@.desc.size_bytes
                != dst@.desc.size_bytes ==> r matches Err(Error::Buffer(_)),
    {
        let bytes = self.try_read_bytes()?;
        dst.write_from_slice(bytes.as_slice())
    }

    pub fn external(&self) -> (r: ExternalHandle)
        ensures
            r == self@.external,
    {
        self.external
    }

    /// Whether this buffer has an external handle without host storage.
    pub fn is_external_only(&self) -> (r: bool)
        ensures
            r == self@.external_only,
    {
        match &*self.storage {
            BufferStorage::External { bytes: None } => true,
            _ => false,
        }
    }
}

/// Every handle of a buffer reports the same external-only flag: along a
/// chain of handles, each cloned from the one before (a clone has the view
/// of its source), the flag never changes. Writes, reads and copies take a
/// handle by shared reference and leave its view as it was, so they keep
/// the flag too. With the constructors' contracts this makes the flag true
/// exactly for the handles of a buffer made by `Buffer::from_external`.
pub proof fn lemma_clones_keep_external_only(handles: Seq<BufferView>)
    requires
        forall|i: int| 1 <= i < handles.len() ==> #[trigger] handles[i] == handles[i - 1],
    ensures
        forall|i: int|
            0 <= i < handles.len() ==> (#[trigger] handles[i]).external_only == handles[0].external_only,
    decreases handles.len(),
{
    if handles.len() > 1 {
        let front = handles.drop_last();
        assert forall|i: int| 1 <= i < front.len() implies #[trigger] front[i] == front[i - 1] by {
            assert(front[i] == handles[i]);
            assert(front[i - 1] == handles[i - 1]);
        }
        lemma_clones_keep_external_only(front);
        assert forall|i: int| 0 <= i < handles.len() implies (#[trigger] handles[i]).external_only
            == handles[0].external_only by {
            if i < front.len() {
                assert(front[i] == handles[i]);
            } else {
                assert(handles[i] == handles[i - 1]);
                assert(front[i - 1] == handles[i - 1]);
            }
        }
    }
}

} // verus!
