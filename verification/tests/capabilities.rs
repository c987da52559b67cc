use wgpu_core::naga::front::wgsl::{parse_str, ImplementedLanguageExtension};
use wgpu_native::capabilities::{
    advertised_features, implemented_language_extensions, instance_features, owned_feature_list,
    wgpuGetInstanceFeatures, wgpuGetProcAddress, wgpuHasInstanceFeature,
    wgpuInstanceGetWGSLLanguageFeatures, wgpuInstanceHasWGSLLanguageFeature,
    wgsl_language_features, write_adapter_info, AdapterInfo, LanguageExtension, ShaderFrontends,
};
use wgpu_native::conv::{map_adapter_type, map_backend_type, Backend, DeviceType};
use wgpu_native::native::{
    OwnedStringView, WGPUAdapterInfo, WGPUAdapterType_CPU, WGPUAdapterType_DiscreteGPU,
    WGPUAdapterType_IntegratedGPU, WGPUAdapterType_Unknown, WGPUBackendType_D3D12,
    WGPUBackendType_Metal, WGPUBackendType_Null, WGPUBackendType_OpenGL, WGPUBackendType_Undefined,
    WGPUBackendType_Vulkan, WGPUBackendType_WebGPU, WGPUChainedStruct,
    WGPUInstanceFeatureName_MultipleDevicesPerAdapter, WGPUInstanceFeatureName_ShaderSourceSPIRV,
    WGPUInstanceFeatureName_TimedWaitAny, WGPUStatus_Error, WGPUStatus_Success, WGPUStringView,
    WGPUSupportedInstanceFeatures, WGPUSupportedWGSLLanguageFeatures,
    WGPUWGSLLanguageFeatureName_Packed4x8IntegerDotProduct,
    WGPUWGSLLanguageFeatureName_PointerCompositeAccess,
    WGPUWGSLLanguageFeatureName_ReadonlyAndReadwriteStorageTextures,
    WGPUWGSLLanguageFeatureName_UnrestrictedPointerParameters,
};
use wgpu_native::proc_table::{proc_names, ProcTable};

const BOTH: ShaderFrontends = ShaderFrontends {
    spirv: true,
    wgsl: true,
};

const NEITHER: ShaderFrontends = ShaderFrontends {
    spirv: false,
    wgsl: false,
};

const BINDINGS: &str = "pub type WGPUProc = Option<unsafe fn()>;
unsafe fn skipped() {
    pub fn wgpuSetLogCallback(callback: WGPULogCallback, userdata: *mut c_void);
    pub fn wgpuGetVersion() -> u32;
}
    pub fn wgpuGetProcAddress(name: WGPUStringView) -> WGPUProc;
    pub fn wgpuCreateInstance(descriptor: *const WGPUInstanceDescriptor) -> WGPUInstance;
    pub fn wgpuGetVersion() -> u32;
";

fn wgpu_get_version() -> u32 {
    0x1e00_0100
}

fn no_version() -> u32 {
    0
}

/// The names of the procedures, and a procedure for each.
fn proc_table() -> (Vec<Vec<u8>>, ProcTable<fn() -> u32>) {
    let names = proc_names(BINDINGS);
    let mut procs: Vec<fn() -> u32> = Vec::new();
    for name in &names {
        procs.push(if name == b"wgpuGetVersion" {
            wgpu_get_version
        } else {
            no_version
        });
    }
    (names.clone(), ProcTable::new(names, procs))
}

fn view(bytes: &[u8]) -> WGPUStringView<'_> {
    WGPUStringView {
        data: Some(bytes),
        length: bytes.len(),
    }
}

#[test]
fn procedure_lookup_obeys_string_view_boundaries() {
    let (_, table) = proc_table();
    let name = b"wgpuGetVersionextra";
    let mut bounded = view(name);
    bounded.length = b"wgpuGetVersion".len();
    let version = wgpuGetProcAddress(&table, bounded).expect("known function");
    assert_eq!(version(), wgpu_get_version());
    assert!(wgpuGetProcAddress(&table, view(name)).is_none());

    let mut terminated = view(b"wgpuGetVersion\0ignored");
    terminated.length = usize::MAX;
    assert!(wgpuGetProcAddress(&table, terminated).is_some());
    assert!(wgpuGetProcAddress(&table, view(b"wgpuGetVersion\0")).is_none());
    assert!(wgpuGetProcAddress(&table, view(b"wgpuMissingFunction")).is_none());
    assert!(wgpuGetProcAddress(&table, view(b"wgpugetversion")).is_none());
    assert!(wgpuGetProcAddress(&table, view(b"wgpu\xff")).is_none());
    assert!(wgpuGetProcAddress(&table, view("wgpu\u{e9}".as_bytes())).is_none());
    assert!(wgpuGetProcAddress(&table, view(b"")).is_none());
    for length in [0, 1, usize::MAX] {
        assert!(wgpuGetProcAddress(&table, WGPUStringView { data: None, length }).is_none());
    }
}

#[test]
fn a_length_beyond_memory_names_nothing() {
    let (_, table) = proc_table();
    for length in [isize::MAX as usize + 1, usize::MAX - 1] {
        let name = WGPUStringView {
            data: Some(b"wgpuGetVersion"),
            length,
        };
        assert!(wgpuGetProcAddress(&table, name).is_none());
    }
    let empty = WGPUStringView {
        data: Some(b"\0wgpuGetVersion"),
        length: usize::MAX,
    };
    assert!(wgpuGetProcAddress(&table, empty).is_none());
}

#[test]
fn every_target_header_procedure_has_an_address() {
    let (names, table) = proc_table();
    for name in &names {
        assert!(wgpuGetProcAddress(&table, view(name)).is_some());
    }
    assert!(names.contains(&b"wgpuGetProcAddress".to_vec()));
    assert!(names.contains(&b"wgpuSetLogCallback".to_vec()));
    assert!(names.windows(2).all(|pair| pair[0] < pair[1]));
}

#[test]
fn instance_feature_list_matches_supported_build_paths() {
    for frontends in [BOTH, NEITHER] {
        let mut features = WGPUSupportedInstanceFeatures {
            features: None,
            featureCount: 0,
        };
        wgpuGetInstanceFeatures(frontends, &mut features);
        let reported = features.features.expect("a feature");
        assert_eq!(reported.len(), features.featureCount);
        assert!(reported.contains(&WGPUInstanceFeatureName_MultipleDevicesPerAdapter));
        assert_eq!(
            reported.contains(&WGPUInstanceFeatureName_ShaderSourceSPIRV),
            frontends.spirv
        );
        for feature in reported {
            assert_eq!(wgpuHasInstanceFeature(frontends, feature), 1);
        }
        assert_eq!(
            wgpuHasInstanceFeature(frontends, WGPUInstanceFeatureName_TimedWaitAny),
            0
        );
        assert_eq!(wgpuHasInstanceFeature(frontends, u32::MAX), 0);
    }
}

#[test]
fn instance_features_follow_the_frontends() {
    assert_eq!(
        instance_features(BOTH),
        [
            WGPUInstanceFeatureName_ShaderSourceSPIRV,
            WGPUInstanceFeatureName_MultipleDevicesPerAdapter
        ]
    );
    assert_eq!(
        instance_features(NEITHER),
        [WGPUInstanceFeatureName_MultipleDevicesPerAdapter]
    );
    assert_eq!(
        wgpuHasInstanceFeature(NEITHER, WGPUInstanceFeatureName_ShaderSourceSPIRV),
        0
    );
}

#[test]
fn wgsl_features_match_the_actual_frontend() {
    let mut features = WGPUSupportedWGSLLanguageFeatures {
        features: None,
        featureCount: 0,
    };
    wgpuInstanceGetWGSLLanguageFeatures(BOTH, &mut features);
    let reported = features.features.expect("a feature");
    assert_eq!(reported.len(), features.featureCount);
    assert_eq!(reported, wgsl_language_features(BOTH));
    for feature in reported {
        assert_eq!(wgpuInstanceHasWGSLLanguageFeature(BOTH, feature), 1);
    }
    assert_eq!(
        wgpuInstanceHasWGSLLanguageFeature(
            BOTH,
            WGPUWGSLLanguageFeatureName_UnrestrictedPointerParameters,
        ),
        0
    );
    for extension in ImplementedLanguageExtension::all() {
        let source = format!(
            "requires {}; @compute @workgroup_size(1) fn main() {{}}",
            extension.to_ident()
        );
        parse_str(&source).expect("advertised language extension parses");
    }
}

#[test]
fn every_extension_of_the_frontend_is_advertised() {
    assert_eq!(
        wgsl_language_features(BOTH),
        [
            WGPUWGSLLanguageFeatureName_ReadonlyAndReadwriteStorageTextures,
            WGPUWGSLLanguageFeatureName_Packed4x8IntegerDotProduct,
            WGPUWGSLLanguageFeatureName_PointerCompositeAccess
        ]
    );
    assert!(matches!(
        implemented_language_extensions()[..],
        [
            LanguageExtension::ReadOnlyAndReadWriteStorageTextures,
            LanguageExtension::Packed4x8IntegerDotProduct,
            LanguageExtension::PointerCompositeAccess,
        ]
    ));
    assert_eq!(
        implemented_language_extensions().len(),
        ImplementedLanguageExtension::all().len()
    );
}

#[test]
fn an_extension_without_a_feature_is_passed_over() {
    assert_eq!(
        advertised_features(&[
            LanguageExtension::PointerCompositeAccess,
            LanguageExtension::ImmediateAddressSpace,
            LanguageExtension::Packed4x8IntegerDotProduct,
        ]),
        [
            WGPUWGSLLanguageFeatureName_PointerCompositeAccess,
            WGPUWGSLLanguageFeatureName_Packed4x8IntegerDotProduct
        ]
    );
    assert!(advertised_features(&[LanguageExtension::ImmediateAddressSpace]).is_empty());
}

#[test]
fn without_a_frontend_there_are_no_wgsl_features() {
    let mut features = WGPUSupportedWGSLLanguageFeatures {
        features: Some(vec![1]),
        featureCount: 1,
    };
    wgpuInstanceGetWGSLLanguageFeatures(NEITHER, &mut features);
    assert!(features.features.is_none());
    assert_eq!(features.featureCount, 0);
    assert_eq!(
        wgpuInstanceHasWGSLLanguageFeature(
            NEITHER,
            WGPUWGSLLanguageFeatureName_PointerCompositeAccess,
        ),
        0
    );
}

#[test]
fn an_empty_list_is_null() {
    assert_eq!(owned_feature_list::<u32>(vec![]), (None, 0));
    assert_eq!(owned_feature_list(vec![4, 2]), (Some(vec![4, 2]), 2));
}

fn null() -> OwnedStringView {
    OwnedStringView {
        data: None,
        length: 0,
    }
}

fn zeroed() -> WGPUAdapterInfo {
    WGPUAdapterInfo {
        nextInChain: None,
        vendor: null(),
        architecture: null(),
        device: null(),
        description: null(),
        backendType: WGPUBackendType_Undefined,
        adapterType: 0,
        vendorID: 0,
        deviceID: 0,
        subgroupMinSize: 0,
        subgroupMaxSize: 0,
    }
}

#[test]
fn adapter_info_preserves_real_metadata_and_owned_strings() {
    let source = AdapterInfo {
        name: "test adapter".into(),
        vendor: 0x1234,
        device: 0x5678,
        device_type: DeviceType::DiscreteGpu,
        driver: "test driver".into(),
        driver_info: "driver version".into(),
        backend: Backend::Vulkan,
        subgroup_min_size: 32,
        subgroup_max_size: 64,
    };
    let mut info = zeroed();
    assert_eq!(
        write_adapter_info(&mut info, source.clone()),
        WGPUStatus_Success
    );
    assert_eq!(info.device.data.as_deref(), Some("test adapter"));
    assert_eq!(info.device.length, 12);
    assert_eq!(info.vendor.data.as_deref(), Some("test driver"));
    assert_eq!(info.description.data.as_deref(), Some("driver version"));
    assert_eq!(info.architecture.length, 0);
    assert_eq!(info.vendorID, 0x1234);
    assert_eq!(info.deviceID, 0x5678);
    assert_eq!(info.subgroupMinSize, 32);
    assert_eq!(info.subgroupMaxSize, 64);
    assert_eq!(info.backendType, WGPUBackendType_Vulkan);
    assert_eq!(info.adapterType, WGPUAdapterType_DiscreteGPU);

    let mut rejected = zeroed();
    rejected.nextInChain = Some(WGPUChainedStruct { sType: u32::MAX });
    assert_eq!(
        write_adapter_info(&mut rejected, source),
        WGPUStatus_Error
    );
    assert!(rejected.device.data.is_none());
    assert_eq!(rejected.vendorID, 0);
}

#[test]
fn each_backend_and_device_type_has_a_number() {
    assert_eq!(map_backend_type(Backend::Noop), WGPUBackendType_Null);
    assert_eq!(map_backend_type(Backend::Metal), WGPUBackendType_Metal);
    assert_eq!(map_backend_type(Backend::Dx12), WGPUBackendType_D3D12);
    assert_eq!(map_backend_type(Backend::Gl), WGPUBackendType_OpenGL);
    assert_eq!(
        map_backend_type(Backend::BrowserWebGpu),
        WGPUBackendType_WebGPU
    );
    assert_eq!(map_adapter_type(DeviceType::Other), WGPUAdapterType_Unknown);
    assert_eq!(
        map_adapter_type(DeviceType::IntegratedGpu),
        WGPUAdapterType_IntegratedGPU
    );
    assert_eq!(map_adapter_type(DeviceType::VirtualGpu), WGPUAdapterType_CPU);
    assert_eq!(map_adapter_type(DeviceType::Cpu), WGPUAdapterType_CPU);
}
