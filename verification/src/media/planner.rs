//! Zero-copy versus staging decisions for frame transfers between memory domains.
use crate::error::Error;
use crate::types::{domain_name, domain_name_spec, preferred_domain_spec, DeployMode, DeviceKind, MemoryDomain};
use crate::buffer::Buffer;
use vstd::prelude::*;

verus! {

/// Handle representations understood by a frame producer or consumer.
#[derive(Clone, Copy, Debug, PartialEq, Eq, Structural, Hash)]
pub enum HandleKind {
    HostBytes,
    External,
    Avcodec,
    CheetahBytes,
}

#[derive(Clone, Copy, Debug, PartialEq, Eq, Structural, Hash)]
pub enum MemoryFormat {
    Auto,
    Gray8,
    Rgb24,
    Rgba,
    Yuv420p,
    Nv12,
    Packet,
}

#[derive(Clone, Copy, Debug, PartialEq, Eq, Structural, Hash)]
pub enum MemoryDtype {
    U8,
    Other,
}

#[derive(Clone, Copy, Debug, PartialEq, Eq, Structural, Hash)]
pub enum Subsampling {
    Yuv420,
    Yuv422,
}

#[derive(Clone, Copy, Debug, PartialEq, Eq, Structural, Hash)]
pub enum TransferMode {
    Shared,
    Staged,
}

/// Layout information required before two frame buffers can be shared.
#[derive(Clone, Debug, PartialEq, Eq)]
pub struct FrameLayout {
    pub dims: Vec<usize>,
    pub format: MemoryFormat,
    pub dtype: MemoryDtype,
    pub plane_count: usize,
    pub strides: Vec<usize>,
    pub subsampling: Option<Subsampling>,
    pub packed: bool,
}

/// Copy path selected by the planner: the domains visited and the copies made.
#[derive(Clone, Debug, PartialEq, Eq)]
pub struct CopyPath {
    pub domains: Vec<MemoryDomain>,
    pub copy_count: usize,
}

/// Actual transfer decision and diagnostics for one bridge operation.
#[derive(Clone, Debug, PartialEq, Eq)]
pub struct TransferReport {
    pub source_domain: MemoryDomain,
    pub target_domain: MemoryDomain,
    pub path: CopyPath,
    pub copy_count: usize,
    pub mode: TransferMode,
}

/// Inputs needed to decide whether an external frame can be shared.
#[derive(Clone, Debug, PartialEq, Eq)]
pub struct FrameTransferRequest {
    pub source_domain: MemoryDomain,
    pub target_domain: MemoryDomain,
    pub source_handle: HandleKind,
    pub target_handle: HandleKind,
    pub source_layout: FrameLayout,
    pub target_layout: FrameLayout,
    pub has_lifetime_guard: bool,
    pub staging_supported: bool,
    pub operation: String,
}

/// Two layouts describe the same memory arrangement.
pub open spec fn same_layout(a: FrameLayout, b: FrameLayout) -> bool {
    &&& a.dims@ == b.dims@
    &&& a.format == b.format
    &&& a.dtype == b.dtype
    &&& a.plane_count == b.plane_count
    &&& a.strides@ == b.strides@
    &&& a.subsampling == b.subsampling
    &&& a.packed == b.packed
}

/// Handle kinds that can alias the same memory.
pub open spec fn handles_compatible(source: HandleKind, target: HandleKind) -> bool {
    ||| source == target
    ||| (source == HandleKind::Avcodec && target == HandleKind::External)
    ||| (source == HandleKind::External && target == HandleKind::Avcodec)
    ||| (source == HandleKind::HostBytes && target == HandleKind::External)
    ||| (source == HandleKind::External && target == HandleKind::HostBytes)
}

/// A transfer may share the source memory: same domain, compatible handles,
/// identical layout, and a guard that keeps the source alive.
pub open spec fn can_share(request: FrameTransferRequest) -> bool {
    &&& request.source_domain == request.target_domain
    &&& handles_compatible(request.source_handle, request.target_handle)
    &&& same_layout(request.source_layout, request.target_layout)
    &&& request.has_lifetime_guard
}

/// The staging path: one copy when either side is host memory, otherwise two
/// copies bouncing through host memory.
pub open spec fn staged_domains(source: MemoryDomain, target: MemoryDomain) -> Seq<MemoryDomain> {
    if source == MemoryDomain::Host || target == MemoryDomain::Host {
        seq![source, target]
    } else {
        seq![source, MemoryDomain::Host, target]
    }
}

/// Preferred target memory domain for a device/deployment combination.
pub fn preferred_memory_domain(device: DeviceKind, deploy_mode: DeployMode) -> (r: MemoryDomain)
    ensures
        r == preferred_domain_spec(device, deploy_mode),
{
    match (device, deploy_mode) {
        (DeviceKind::Cpu, _) | (DeviceKind::IntelGpu, _) | (DeviceKind::IntelNpu, _) => {
            MemoryDomain::Host
        },
        (DeviceKind::CudaGpu, _) => MemoryDomain::CudaDevice,
        (DeviceKind::RknnNpu, DeployMode::SoC) => MemoryDomain::MppBuffer,
        (DeviceKind::RknnNpu, DeployMode::Host) => MemoryDomain::DmaBuf,
        (DeviceKind::SophonTpu, DeployMode::SoC) => MemoryDomain::SophonDevice,
        (DeviceKind::SophonTpu, DeployMode::Host) => MemoryDomain::SophonDevice,
    }
}

fn compatible_handle_kinds(source: HandleKind, target: HandleKind) -> (r: bool)
    ensures
        r == handles_compatible(source, target),
{
    source == target || match (source, target) {
        (HandleKind::Avcodec, HandleKind::External) | (HandleKind::External, HandleKind::Avcodec)
        | (HandleKind::HostBytes, HandleKind::External)
        | (HandleKind::External, HandleKind::HostBytes) => true,
        _ => false,
    }
}

fn usize_slices_equal(a: &[usize], b: &[usize]) -> (r: bool)
    ensures
        r == (a@ == b@),
{
    if a.len() != b.len() {
        return false;
    }
    let mut i: usize = 0;
    while i < a.len()
        invariant
            a@.len() == b@.len(),
            i <= a@.len(),
            forall|k: int| 0 <= k < i ==> a@[k] == b@[k],
        decreases a@.len() - i,
    {
        if a[i] != b[i] {
            return false;
        }
        i += 1;
    }
    assert(a@ =~= b@);
    true
}

fn layouts_equal(a: &FrameLayout, b: &FrameLayout) -> (r: bool)
    ensures
        r == same_layout(*a, *b),
{
    usize_slices_equal(a.dims.as_slice(), b.dims.as_slice()) && a.format == b.format && a.dtype
        == b.dtype && a.plane_count == b.plane_count && usize_slices_equal(
        a.strides.as_slice(),
        b.strides.as_slice(),
    ) && a.subsampling == b.subsampling && a.packed == b.packed
}

/// Zero-copy planner for frame transfers.
#[derive(Clone, Debug, Default)]
pub struct ZeroCopyPlanner;

impl ZeroCopyPlanner {
    pub fn new() -> Self {
        ZeroCopyPlanner
    }

    /// Plans a frame transfer without treating domain equality as sufficient
    /// evidence for zero-copy compatibility.
    pub fn plan_frame(&self, request: &FrameTransferRequest) -> (r: Result<TransferReport, Error>)
        ensures
            can_share(*request) ==> (r matches Ok(rep) && rep.mode == TransferMode::Shared
                && rep.copy_count == 0 && rep.path.copy_count == 0 && rep.path.domains@ == seq![
                request.source_domain] && rep.source_domain == request.source_domain
                && rep.target_domain == request.target_domain),
            !can_share(*request) && !request.staging_supported ==> (r matches Err(
                Error::Unsupported(m),
            ) && m@ == request.operation@ + " cannot stage from "@ + domain_name_spec(
                request.source_domain,
            ) + " to "@ + domain_name_spec(request.target_domain)),
            !can_share(*request) && request.staging_supported ==> (r matches Ok(rep) && rep.mode
                == TransferMode::Staged && rep.path.domains@ == staged_domains(
                request.source_domain,
                request.target_domain,
            ) && rep.copy_count == rep.path.domains@.len() - 1 && rep.path.copy_count
                == rep.copy_count && rep.source_domain == request.source_domain
                && rep.target_domain == request.target_domain),
    {
        let compatible = request.source_domain == request.target_domain && compatible_handle_kinds(
            request.source_handle,
            request.target_handle,
        ) && layouts_equal(&request.source_layout, &request.target_layout)
            && request.has_lifetime_guard;
        if compatible {
            let mut domains: Vec<MemoryDomain> = Vec::new();
            domains.push(request.source_domain);
            let path = CopyPath { domains, copy_count: 0 };
            return Ok(
                TransferReport {
                    source_domain: request.source_domain,
                    target_domain: request.target_domain,
                    path,
                    copy_count: 0,
                    mode: TransferMode::Shared,
                },
            );
        }
        if !request.staging_supported {
            let message = request.operation.as_str().to_owned().concat(" cannot stage from ").concat(
                domain_name(request.source_domain),
            ).concat(" to ").concat(domain_name(request.target_domain));
            return Err(Error::Unsupported(message));
        }
        let mut domains: Vec<MemoryDomain> = Vec::new();
        domains.push(request.source_domain);
        let copy_count: usize;
        if request.source_domain == MemoryDomain::Host || request.target_domain
            == MemoryDomain::Host {
            domains.push(request.target_domain);
            copy_count = 1;
        } else {
            domains.push(MemoryDomain::Host);
            domains.push(request.target_domain);
            copy_count = 2;
        }
        let path = CopyPath { domains, copy_count };
        Ok(
            TransferReport {
                source_domain: request.source_domain,
                target_domain: request.target_domain,
                copy_count: path.copy_count,
                path,
                mode: TransferMode::Staged,
            },
        )
    }
}

/// The path a staging transfer takes always starts at the source and ends at
/// the target, and costs one copy when either side is host memory and two
/// (through host memory) otherwise.
pub proof fn lemma_staging_path(source: MemoryDomain, target: MemoryDomain)
    ensures
        staged_domains(source, target)[0] == source,
        staged_domains(source, target).last() == target,
        staged_domains(source, target).len() - 1 == if source == MemoryDomain::Host || target == MemoryDomain::Host {
            1int
        } else {
            2int
        },
{
}

/// Which handles can alias one frame: a producer and a consumer of the same
/// handle kind, or an external handle on one side and host bytes or an
/// avcodec frame on the other; never a Cheetah buffer with another kind.
/// So within one domain, with identical layouts and a lifetime guard,
/// exactly these pairs make `plan_frame` share the frame with no copy.
pub proof fn lemma_shareable_handle_pairs(request: FrameTransferRequest)
    requires
        request.source_domain == request.target_domain,
        same_layout(request.source_layout, request.target_layout),
        request.has_lifetime_guard,
    ensures
        can_share(request) <==> ({
            let (s, t) = (request.source_handle, request.target_handle);
            ||| s == t
            ||| (s == HandleKind::External && (t == HandleKind::HostBytes || t == HandleKind::Avcodec))
            ||| (t == HandleKind::External && (s == HandleKind::HostBytes || s == HandleKind::Avcodec))
        }),
        handles_compatible(request.source_handle, request.target_handle) == handles_compatible(
            request.target_handle,
            request.source_handle,
        ),
{
}

/// Sharing needs everything to match: a request can share its frame only
/// within one memory domain, with a lifetime guard, and with the two layouts
/// alike in every field; a request that differs in any of these is staged
/// (or refused) by `plan_frame`.
pub proof fn lemma_sharing_needs_identical_layouts(request: FrameTransferRequest)
    ensures
        can_share(request) ==> {
            &&& request.source_domain == request.target_domain
            &&& request.has_lifetime_guard
            &&& request.source_layout.dims@ == request.target_layout.dims@
            &&& request.source_layout.strides@ == request.target_layout.strides@
            &&& request.source_layout.format == request.target_layout.format
            &&& request.source_layout.dtype == request.target_layout.dtype
            &&& request.source_layout.plane_count == request.target_layout.plane_count
            &&& request.source_layout.subsampling == request.target_layout.subsampling
            &&& request.source_layout.packed == request.target_layout.packed
        },
        request.source_handle == HandleKind::CheetahBytes && request.target_handle != HandleKind::CheetahBytes
            ==> !can_share(request),
{
}

/// An imported external buffer with the transfer path actually taken.
pub struct ImportedBuffer {
    pub buffer: Buffer,
    pub zero_copy: bool,
    pub path: CopyPath,
}

/// The path of importing a codec buffer handle into `target`: shared in
/// place when the handle already lives there, otherwise staged once.
pub open spec fn import_path_domains(source: MemoryDomain, target: MemoryDomain) -> Seq<MemoryDomain> {
    if source == target {
        seq![source]
    } else {
        seq![source, target]
    }
}

/// Decides the transfer path of a codec buffer import.
pub fn import_copy_path(source: MemoryDomain, target: MemoryDomain) -> (r: CopyPath)
    ensures
        r.domains@ == import_path_domains(source, target),
        r.copy_count == r.domains@.len() - 1,
{
    let mut domains: Vec<MemoryDomain> = Vec::new();
    domains.push(source);
    if source == target {
        CopyPath { domains, copy_count: 0 }
    } else {
        domains.push(target);
        CopyPath { domains, copy_count: 1 }
    }
}

} // verus!
