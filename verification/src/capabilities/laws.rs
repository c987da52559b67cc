//! What the answers of the library amount to.

use vstd::prelude::*;

use super::{
    advertised_features, implemented_language_extensions, instance_features, owned_feature_list,
    wgpuGetInstanceFeatures, wgpuGetProcAddress, wgpuHasInstanceFeature,
    wgpuInstanceGetWGSLLanguageFeatures, wgpuInstanceHasWGSLLanguageFeature,
    wgsl_language_features, write_adapter_info, AdapterInfo, LanguageExtension, ShaderFrontends,
};
use crate::conv::{map_adapter_type, map_backend_type, Backend, DeviceType};
use crate::native::{
    WGPUAdapterInfo, WGPUAdapterType, WGPUBackendType, WGPUBool, WGPUInstanceFeatureName,
    WGPUStatus, WGPUStringView, WGPUSupportedInstanceFeatures, WGPUSupportedWGSLLanguageFeatures,
    WGPUWGSLLanguageFeatureName,
};
use crate::proc_table::ProcTable;

verus! {

/// Several devices can be made of one adapter in every build. SPIR-V shaders are read exactly by
/// the builds that have a frontend for them. There is no third feature.
pub proof fn law_instance_features(
    frontends: ShaderFrontends,
    features: Vec<WGPUInstanceFeatureName>,
)
    requires
        instance_features.ensures((frontends,), features),
    ensures
        forall|feature: WGPUInstanceFeatureName| #[trigger]
            features@.contains(feature) <==> feature == 3 || feature == 2 && frontends.spirv,
        features@.len() == if frontends.spirv {
            2int
        } else {
            1int
        },
        features@.last() == 3,
{
    assert(frontends.spirv ==> features@[0] == 2);
    assert(features@[features@.len() - 1] == 3);
}

/// The list that is given away holds each feature that the instance has, once, and says how many
/// there are.
pub proof fn law_given_instance_features(
    frontends: ShaderFrontends,
    before: WGPUSupportedInstanceFeatures,
    after: WGPUSupportedInstanceFeatures,
)
    requires
        exists|features: &mut WGPUSupportedInstanceFeatures| #[trigger]
            wgpuGetInstanceFeatures.ensures((frontends, features), ()) && *features == before
                && *final(features) == after,
    ensures
        after.features is Some,
        after.featureCount == after.features->0@.len(),
        after.featureCount == if frontends.spirv {
            2int
        } else {
            1int
        },
        forall|feature: WGPUInstanceFeatureName| #[trigger]
            after.features->0@.contains(feature) <==> feature == 3 || feature == 2
                && frontends.spirv,
        after.features->0@.last() == 3,
{
    let list = after.features->0@;
    assert(frontends.spirv ==> list[0] == 2);
    assert(list[list.len() - 1] == 3);
}

/// An instance has a feature exactly if it is on the list that is given away.
pub proof fn law_has_instance_feature(
    frontends: ShaderFrontends,
    feature: WGPUInstanceFeatureName,
    has: WGPUBool,
)
    requires
        wgpuHasInstanceFeature.ensures((frontends, feature), has),
    ensures
        has == 1 <==> feature == 3 || feature == 2 && frontends.spirv,
        has == 0 <==> !(feature == 3 || feature == 2 && frontends.spirv),
{
    let supported = super::supported_instance_features(frontends);
    assert(frontends.spirv ==> supported[0] == 2);
    assert(supported[supported.len() - 1] == 3);
}

/// The frontend reads three extensions.
pub proof fn law_implemented_extensions(extensions: Vec<LanguageExtension>)
    requires
        implemented_language_extensions.ensures((), extensions),
    ensures
        extensions@.len() == 3,
        extensions@[0] is ReadOnlyAndReadWriteStorageTextures,
        extensions@[1] is Packed4x8IntegerDotProduct,
        extensions@[2] is PointerCompositeAccess,
{
}

/// Without extensions there are no features, and a further extension adds its own feature behind
/// the others, if the C interface has one for it.
pub proof fn law_advertised_features(
    extensions: &[LanguageExtension],
    features: Vec<WGPUWGSLLanguageFeatureName>,
    further: &[LanguageExtension],
    more: Vec<WGPUWGSLLanguageFeatureName>,
)
    requires
        advertised_features.ensures((extensions,), features),
        advertised_features.ensures((further,), more),
        further@.len() > 0,
        extensions@ == further@.drop_last(),
    ensures
        extensions@.len() == 0 ==> features@.len() == 0,
        more@ == match further@.last() {
            LanguageExtension::ReadOnlyAndReadWriteStorageTextures => features@.push(1),
            LanguageExtension::Packed4x8IntegerDotProduct => features@.push(2),
            LanguageExtension::PointerCompositeAccess => features@.push(4),
            LanguageExtension::ImmediateAddressSpace => features@,
        },
{
}

/// The features of three extensions, one behind the other.
proof fn lemma_implemented_features()
    ensures
        super::advertised(super::implemented_extensions()) == seq![1u32, 2u32, 4u32],
{
    reveal_with_fuel(super::advertised, 4);
    let all = super::implemented_extensions();
    assert(all.drop_last().drop_last().drop_last().len() == 0);
    assert(super::advertised(all) =~= seq![1u32, 2u32, 4u32]);
}

/// A build that reads WGSL has the features of the three extensions, and any other has none.
pub proof fn law_wgsl_features(
    frontends: ShaderFrontends,
    features: Vec<WGPUWGSLLanguageFeatureName>,
)
    requires
        wgsl_language_features.ensures((frontends,), features),
    ensures
        frontends.wgsl ==> features@ == seq![1u32, 2u32, 4u32],
        !frontends.wgsl ==> features@.len() == 0,
{
    lemma_implemented_features();
}

/// The list of WGSL features that is given away. It is null if there are none.
pub proof fn law_given_wgsl_features(
    frontends: ShaderFrontends,
    before: WGPUSupportedWGSLLanguageFeatures,
    after: WGPUSupportedWGSLLanguageFeatures,
)
    requires
        exists|features: &mut WGPUSupportedWGSLLanguageFeatures| #[trigger]
            wgpuInstanceGetWGSLLanguageFeatures.ensures((frontends, features), ()) && *features
                == before && *final(features) == after,
    ensures
        frontends.wgsl ==> {
            &&& after.featureCount == 3
            &&& after.features is Some
            &&& after.features->0@ == seq![1u32, 2u32, 4u32]
        },
        !frontends.wgsl ==> after.featureCount == 0 && after.features is None,
{
    lemma_implemented_features();
}

/// An instance has a WGSL feature exactly if it is on the list that is given away.
pub proof fn law_has_wgsl_feature(
    frontends: ShaderFrontends,
    feature: WGPUWGSLLanguageFeatureName,
    has: WGPUBool,
)
    requires
        wgpuInstanceHasWGSLLanguageFeature.ensures((frontends, feature), has),
    ensures
        has == 1 <==> frontends.wgsl && (feature == 1 || feature == 2 || feature == 4),
        has == 0 <==> !(frontends.wgsl && (feature == 1 || feature == 2 || feature == 4)),
{
    lemma_implemented_features();
    let all = seq![1u32, 2u32, 4u32];
    assert(all[0] == 1 && all[1] == 2 && all[2] == 4);
}

/// A list is given away as it is, with its length, unless it is empty: then it is null.
pub proof fn law_owned_feature_list<T>(features: Vec<T>, list: (Option<Vec<T>>, usize))
    requires
        owned_feature_list.ensures((features,), list),
    ensures
        list.1 == features@.len(),
        list.0 is None <==> features@.len() == 0,
        list.0 matches Some(given) ==> given@ == features@,
{
}

/// The numbers of the backends and of the kinds of devices.
pub proof fn law_numbers_of_adapters(
    backend: Backend,
    backend_type: WGPUBackendType,
    device_type: DeviceType,
    adapter_type: WGPUAdapterType,
)
    requires
        map_backend_type.ensures((backend,), backend_type),
        map_adapter_type.ensures((device_type,), adapter_type),
    ensures
        backend_type == 1 <==> backend is Noop,
        backend_type == 2 <==> backend is BrowserWebGpu,
        backend_type == 4 <==> backend is Dx12,
        backend_type == 5 <==> backend is Metal,
        backend_type == 6 <==> backend is Vulkan,
        backend_type == 7 <==> backend is Gl,
        adapter_type == 1 <==> device_type is DiscreteGpu,
        adapter_type == 2 <==> device_type is IntegratedGpu,
        adapter_type == 3 <==> device_type is VirtualGpu || device_type is Cpu,
        adapter_type == 4 <==> device_type is Other,
{
}

/// What is told of an adapter is what is known of it, field by field. A structure with something
/// chained to it is left alone.
pub proof fn law_adapter_info(
    before: WGPUAdapterInfo,
    adapter: AdapterInfo,
    backend_type: WGPUBackendType,
    adapter_type: WGPUAdapterType,
    status: WGPUStatus,
    after: WGPUAdapterInfo,
)
    requires
        exists|info: &mut WGPUAdapterInfo| #[trigger]
            write_adapter_info.ensures((info, adapter), status) && *info == before && *final(info)
                == after,
        map_backend_type.ensures((adapter.backend,), backend_type),
        map_adapter_type.ensures((adapter.device_type,), adapter_type),
    ensures
        status == 2 <==> before.nextInChain is Some,
        status == 1 <==> before.nextInChain is None,
        before.nextInChain is Some ==> after == before,
        before.nextInChain is None ==> {
            &&& after.nextInChain is None
            &&& after.vendor.data matches Some(text) && text@ == adapter.driver@
            &&& after.architecture.data is None
            &&& after.device.data matches Some(text) && text@ == adapter.name@
            &&& after.description.data matches Some(text) && text@ == adapter.driver_info@
            &&& after.vendor.length == vstd::utf8::encode_utf8(adapter.driver@).len() as usize
            &&& after.architecture.length == 0
            &&& after.device.length == vstd::utf8::encode_utf8(adapter.name@).len() as usize
            &&& after.description.length == vstd::utf8::encode_utf8(
                adapter.driver_info@,
            ).len() as usize
            &&& after.backendType == backend_type
            &&& after.adapterType == adapter_type
            &&& after.vendorID == adapter.vendor
            &&& after.deviceID == adapter.device
            &&& after.subgroupMinSize == adapter.subgroup_min_size
            &&& after.subgroupMaxSize == adapter.subgroup_max_size
        },
{
}

/// How many bytes of the memory at a string are its name, if it has one: as many as its length
/// says, or as many as come before the first zero byte.
pub open spec fn spells(name: WGPUStringView, count: int) -> bool {
    &&& name.data is Some
    &&& 0 <= count <= name.data->0@.len()
    &&& if name.length == usize::MAX {
        &&& count < name.data->0@.len()
        &&& name.data->0@[count] == 0
        &&& forall|i: int| 0 <= i < count ==> #[trigger] name.data->0@[i] != 0
    } else {
        name.length == count && 0 < count <= isize::MAX
    }
}

/// A procedure is found exactly by its own name.
pub proof fn law_get_proc_address<P: Copy>(
    names: Vec<Vec<u8>>,
    procs: Vec<P>,
    table: ProcTable<P>,
    name: WGPUStringView,
    count: int,
    found: Option<P>,
)
    requires
        ProcTable::<P>::new.ensures((names, procs), table),
        wgpuGetProcAddress.ensures((&table, name), found),
    ensures
        name.data is None || name.length == 0 || isize::MAX < name.length < usize::MAX ==> found
            is None,
        spells(name, count) ==> {
            &&& forall|i: int|
                0 <= i < names@.len() && (#[trigger] names@[i])@ == name.data->0@.take(count)
                    ==> found == Some(procs@[i])
            &&& (forall|i: int|
                0 <= i < names@.len() ==> (#[trigger] names@[i])@ != name.data->0@.take(count))
                ==> found is None
        },
{
    if spells(name, count) {
        if name.length == usize::MAX {
            super::lemma_zero_from(name.data->0@, 0, count);
        }
        let bytes = name.data->0@.take(count);
        assert(name.bytes() == Some(bytes));
        assert(table@.dom().contains(bytes) <==> crate::proc_table::lists(names@, bytes));
    }
}

/// The library answers whatever it was built with.
pub proof fn law_every_build_answers(
    frontends: ShaderFrontends,
    feature: u32,
    extensions: &[LanguageExtension],
    adapter: AdapterInfo,
)
    ensures
        instance_features.requires((frontends,)),
        wgpuHasInstanceFeature.requires((frontends, feature)),
        wgsl_language_features.requires((frontends,)),
        wgpuInstanceHasWGSLLanguageFeature.requires((frontends, feature)),
        advertised_features.requires((extensions,)),
        map_backend_type.requires((adapter.backend,)),
        map_adapter_type.requires((adapter.device_type,)),
        forall|features: &mut WGPUSupportedInstanceFeatures| #[trigger]
            wgpuGetInstanceFeatures.requires((frontends, features)),
        forall|features: &mut WGPUSupportedWGSLLanguageFeatures| #[trigger]
            wgpuInstanceGetWGSLLanguageFeatures.requires((frontends, features)),
        forall|info: &mut WGPUAdapterInfo| #[trigger]
            write_adapter_info.requires((info, adapter)),
{
}

/// Any string can be looked up whose memory reaches as far as its length says or, if that is left
/// open, as far as a zero byte.
pub proof fn law_any_string_can_be_looked_up<P: Copy>(
    table: &ProcTable<P>,
    name: WGPUStringView,
    zero: int,
)
    requires
        name.data matches Some(data) ==> {
            ||| name.length <= data@.len() && name.length != usize::MAX
            ||| isize::MAX < name.length < usize::MAX
            ||| name.length == usize::MAX && 0 <= zero < data@.len() && data@[zero] == 0
        },
    ensures
        wgpuGetProcAddress.requires((table, name)),
{
    if name.data is Some && name.length == usize::MAX {
        assert(name.data->0@.contains(name.data->0@[zero]));
    }
}

} // verus!
