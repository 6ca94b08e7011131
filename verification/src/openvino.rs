//! OpenVINO tensor binding decisions.
use crate::types::MemoryDomain;
use vstd::prelude::*;

verus! {

/// Binding route selected from the source memory domain.
#[derive(Clone, Copy, Debug, PartialEq, Eq, Structural)]
pub enum ExternalBindingPath {
    HostTensor,
    RemoteTensor,
    Staging,
}

/// Host memory binds as a host tensor; every device-side domain binds as a
/// remote tensor.
pub open spec fn binding_path_for(domain: MemoryDomain) -> ExternalBindingPath {
    if domain == MemoryDomain::Host {
        ExternalBindingPath::HostTensor
    } else {
        ExternalBindingPath::RemoteTensor
    }
}

/// Selects the OpenVINO tensor route without inspecting vendor SDK state.
pub fn select_external_binding_path(domain: MemoryDomain) -> (r: ExternalBindingPath)
    ensures
        r == binding_path_for(domain),
{
    match domain {
        MemoryDomain::Host => ExternalBindingPath::HostTensor,
        MemoryDomain::CudaDevice
        | MemoryDomain::DmaBuf
        | MemoryDomain::DrmPrime
        | MemoryDomain::VaapiSurface
        | MemoryDomain::MppBuffer
        | MemoryDomain::SophonDevice
        | MemoryDomain::Opaque => ExternalBindingPath::RemoteTensor,
    }
}

/// Returns `false`: the OpenVINO runtime is not compiled into this library.
pub fn backend_enabled() -> (r: bool)
    ensures
        !r,
{
    false
}

} // verus!
