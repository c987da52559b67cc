//! The values of the C interface that the library speaks of.

#![allow(non_snake_case, non_upper_case_globals)]

use vstd::prelude::*;

verus! {

/// The size that stands for everything from an offset on.
pub const WGPU_WHOLE_MAP_SIZE: usize = usize::MAX;

/// How far the mapping of a buffer has come, as the C interface counts it.
pub type WGPUBufferMapState = u32;

pub const WGPUBufferMapState_Unmapped: WGPUBufferMapState = 1;

pub const WGPUBufferMapState_Pending: WGPUBufferMapState = 2;

pub const WGPUBufferMapState_Mapped: WGPUBufferMapState = 3;

/// Whether a call did its work.
pub type WGPUStatus = u32;

pub const WGPUStatus_Success: WGPUStatus = 1;

pub const WGPUStatus_Error: WGPUStatus = 2;

/// A truth value of the C interface: 0 or 1.
pub type WGPUBool = u32;

/// A string as a C caller hands it over: a place in memory and a length.
///
/// `data` is the memory from the place on, as far as it may be read, or `None` for null. The
/// length `usize::MAX` says that the string ends before its first zero byte.
#[derive(Clone, Copy)]
pub struct WGPUStringView<'a> {
    pub data: Option<&'a [u8]>,
    pub length: usize,
}

/// Where the first zero byte from `at` on is, or the end.
pub open spec fn zero_from(bytes: Seq<u8>, at: int) -> int
    decreases bytes.len() - at,
{
    if at < bytes.len() && bytes[at] != 0 {
        zero_from(bytes, at + 1)
    } else {
        at
    }
}

impl<'a> WGPUStringView<'a> {
    /// The memory reaches as far as the length says.
    pub open spec fn readable(self) -> bool {
        self.data matches Some(data) ==> if self.length == usize::MAX {
            data@.contains(0)
        } else {
            self.length <= isize::MAX ==> self.length <= data@.len()
        }
    }

    /// The bytes of the string. A string that is null, empty or longer than memory can hold has
    /// none.
    pub open spec fn bytes(self) -> Option<Seq<u8>> {
        if self.data is None || self.length == 0 {
            None
        } else if self.length == usize::MAX {
            Some(self.data->0@.take(zero_from(self.data->0@, 0)))
        } else if self.length > isize::MAX {
            None
        } else {
            Some(self.data->0@.take(self.length as int))
        }
    }
}

/// A string that the library gives away: its text, or `None` for null, and its length in bytes.
pub struct OwnedStringView {
    pub data: Option<String>,
    pub length: usize,
}

impl OwnedStringView {
    /// The string owns exactly this text.
    pub open spec fn owns(self, text: Seq<char>) -> bool {
        &&& self.data is Some
        &&& self.data->0@ == text
        &&& self.length == vstd::utf8::encode_utf8(text).len() as usize
    }

    /// The string is null and has no bytes.
    pub open spec fn is_null(self) -> bool {
        self.data is None && self.length == 0
    }
}

/// What an instance can do.
pub type WGPUInstanceFeatureName = u32;

pub const WGPUInstanceFeatureName_TimedWaitAny: WGPUInstanceFeatureName = 1;

pub const WGPUInstanceFeatureName_ShaderSourceSPIRV: WGPUInstanceFeatureName = 2;

pub const WGPUInstanceFeatureName_MultipleDevicesPerAdapter: WGPUInstanceFeatureName = 3;

/// The features of an instance, as they are given away. Without features the list is null.
pub struct WGPUSupportedInstanceFeatures {
    pub features: Option<Vec<WGPUInstanceFeatureName>>,
    pub featureCount: usize,
}

/// What WGSL shaders can be written with.
pub type WGPUWGSLLanguageFeatureName = u32;

pub const WGPUWGSLLanguageFeatureName_ReadonlyAndReadwriteStorageTextures:
    WGPUWGSLLanguageFeatureName = 1;

pub const WGPUWGSLLanguageFeatureName_Packed4x8IntegerDotProduct: WGPUWGSLLanguageFeatureName = 2;

pub const WGPUWGSLLanguageFeatureName_UnrestrictedPointerParameters: WGPUWGSLLanguageFeatureName =
    3;

pub const WGPUWGSLLanguageFeatureName_PointerCompositeAccess: WGPUWGSLLanguageFeatureName = 4;

/// The WGSL features of an instance, as they are given away. Without features the list is null.
pub struct WGPUSupportedWGSLLanguageFeatures {
    pub features: Option<Vec<WGPUWGSLLanguageFeatureName>>,
    pub featureCount: usize,
}

/// What a program drives an adapter through.
pub type WGPUBackendType = u32;

pub const WGPUBackendType_Undefined: WGPUBackendType = 0;

pub const WGPUBackendType_Null: WGPUBackendType = 1;

pub const WGPUBackendType_WebGPU: WGPUBackendType = 2;

pub const WGPUBackendType_D3D11: WGPUBackendType = 3;

pub const WGPUBackendType_D3D12: WGPUBackendType = 4;

pub const WGPUBackendType_Metal: WGPUBackendType = 5;

pub const WGPUBackendType_Vulkan: WGPUBackendType = 6;

pub const WGPUBackendType_OpenGL: WGPUBackendType = 7;

pub const WGPUBackendType_OpenGLES: WGPUBackendType = 8;

/// What kind of device an adapter is.
pub type WGPUAdapterType = u32;

pub const WGPUAdapterType_DiscreteGPU: WGPUAdapterType = 1;

pub const WGPUAdapterType_IntegratedGPU: WGPUAdapterType = 2;

pub const WGPUAdapterType_CPU: WGPUAdapterType = 3;

pub const WGPUAdapterType_Unknown: WGPUAdapterType = 4;

/// A structure that a caller has chained to another one.
#[derive(Clone, Copy)]
pub struct WGPUChainedStruct {
    pub sType: u32,
}

/// What is told of an adapter.
pub struct WGPUAdapterInfo {
    /// What the caller has chained to the structure, or `None` for null.
    pub nextInChain: Option<WGPUChainedStruct>,
    pub vendor: OwnedStringView,
    pub architecture: OwnedStringView,
    pub device: OwnedStringView,
    pub description: OwnedStringView,
    pub backendType: WGPUBackendType,
    pub adapterType: WGPUAdapterType,
    pub vendorID: u32,
    pub deviceID: u32,
    pub subgroupMinSize: u32,
    pub subgroupMaxSize: u32,
}

/// What is known of the handles of one kind.
#[derive(Clone, Copy, Debug)]
pub struct WGPURegistryReport {
    pub numAllocated: usize,
    pub numKeptFromUser: usize,
    pub numReleasedFromUser: usize,
    pub elementSize: usize,
}

/// What is known of the handles of each kind but surfaces.
#[derive(Clone, Copy, Debug)]
pub struct WGPUHubReport {
    pub adapters: WGPURegistryReport,
    pub devices: WGPURegistryReport,
    pub queues: WGPURegistryReport,
    pub pipelineLayouts: WGPURegistryReport,
    pub shaderModules: WGPURegistryReport,
    pub bindGroupLayouts: WGPURegistryReport,
    pub bindGroups: WGPURegistryReport,
    pub commandBuffers: WGPURegistryReport,
    pub renderBundles: WGPURegistryReport,
    pub renderPipelines: WGPURegistryReport,
    pub computePipelines: WGPURegistryReport,
    pub pipelineCaches: WGPURegistryReport,
    pub querySets: WGPURegistryReport,
    pub buffers: WGPURegistryReport,
    pub textures: WGPURegistryReport,
    pub textureViews: WGPURegistryReport,
    pub samplers: WGPURegistryReport,
}

/// What is known of all handles.
#[derive(Clone, Copy, Debug)]
pub struct WGPUGlobalReport {
    pub surfaces: WGPURegistryReport,
    pub hub: WGPUHubReport,
}

} // verus!
