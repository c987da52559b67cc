//! The numbers that the C interface has for what adapters are.

use vstd::prelude::*;

use crate::native::{
    WGPUAdapterType, WGPUAdapterType_CPU, WGPUAdapterType_DiscreteGPU,
    WGPUAdapterType_IntegratedGPU, WGPUAdapterType_Unknown, WGPUBackendType,
    WGPUBackendType_D3D12, WGPUBackendType_Metal, WGPUBackendType_Null, WGPUBackendType_OpenGL,
    WGPUBackendType_Vulkan, WGPUBackendType_WebGPU,
};

verus! {

/// What an adapter is driven through.
#[derive(Clone, Copy, Debug)]
pub enum Backend {
    Noop,
    Vulkan,
    Metal,
    Dx12,
    Gl,
    BrowserWebGpu,
}

/// What kind of device an adapter is.
#[derive(Clone, Copy, Debug)]
pub enum DeviceType {
    Other,
    IntegratedGpu,
    DiscreteGpu,
    VirtualGpu,
    Cpu,
}

impl Backend {
    /// The number of the backend.
    pub open spec fn code(self) -> WGPUBackendType {
        match self {
            Backend::Noop => WGPUBackendType_Null,
            Backend::Vulkan => WGPUBackendType_Vulkan,
            Backend::Metal => WGPUBackendType_Metal,
            Backend::Dx12 => WGPUBackendType_D3D12,
            Backend::Gl => WGPUBackendType_OpenGL,
            Backend::BrowserWebGpu => WGPUBackendType_WebGPU,
        }
    }
}

impl DeviceType {
    /// The number of the kind of device. There is none for a virtual device: it counts as a CPU.
    pub open spec fn code(self) -> WGPUAdapterType {
        match self {
            DeviceType::Other => WGPUAdapterType_Unknown,
            DeviceType::IntegratedGpu => WGPUAdapterType_IntegratedGPU,
            DeviceType::DiscreteGpu => WGPUAdapterType_DiscreteGPU,
            DeviceType::VirtualGpu => WGPUAdapterType_CPU,
            DeviceType::Cpu => WGPUAdapterType_CPU,
        }
    }
}

/// The number of a backend.
pub fn map_backend_type(backend: Backend) -> (code: WGPUBackendType)
    ensures
        code == backend.code(),
{
    match backend {
        Backend::Noop => WGPUBackendType_Null,
        Backend::Vulkan => WGPUBackendType_Vulkan,
        Backend::Metal => WGPUBackendType_Metal,
        Backend::Dx12 => WGPUBackendType_D3D12,
        Backend::Gl => WGPUBackendType_OpenGL,
        Backend::BrowserWebGpu => WGPUBackendType_WebGPU,
    }
}

/// The number of a kind of device.
pub fn map_adapter_type(device_type: DeviceType) -> (code: WGPUAdapterType)
    ensures
        code == device_type.code(),
{
    match device_type {
        DeviceType::Other => WGPUAdapterType_Unknown,
        DeviceType::IntegratedGpu => WGPUAdapterType_IntegratedGPU,
        DeviceType::DiscreteGpu => WGPUAdapterType_DiscreteGPU,
        DeviceType::VirtualGpu => WGPUAdapterType_CPU,
        DeviceType::Cpu => WGPUAdapterType_CPU,
    }
}

} // verus!
