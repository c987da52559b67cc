//! What the library can do, and what it knows of an adapter.

#![allow(non_snake_case)]

pub mod laws;

use vstd::prelude::*;

use wgpu_core::naga::front::wgsl::ImplementedLanguageExtension;

use crate::conv::{map_adapter_type, map_backend_type, Backend, DeviceType};
use crate::native::{
    OwnedStringView, WGPUAdapterInfo, WGPUBool, WGPUInstanceFeatureName,
    WGPUInstanceFeatureName_MultipleDevicesPerAdapter, WGPUInstanceFeatureName_ShaderSourceSPIRV,
    WGPUStatus, WGPUStatus_Error, WGPUStatus_Success, WGPUStringView,
    WGPUSupportedInstanceFeatures, WGPUSupportedWGSLLanguageFeatures, WGPUWGSLLanguageFeatureName,
    WGPUWGSLLanguageFeatureName_Packed4x8IntegerDotProduct,
    WGPUWGSLLanguageFeatureName_PointerCompositeAccess,
    WGPUWGSLLanguageFeatureName_ReadonlyAndReadwriteStorageTextures,
};
use crate::proc_table::ProcTable;

verus! {

/// The shader languages that the library was built to read.
#[derive(Clone, Copy, Debug)]
pub struct ShaderFrontends {
    pub spirv: bool,
    pub wgsl: bool,
}

/// The procedure that a string names, if the string has bytes and the table has a procedure of
/// that name.
pub open spec fn proc_named<P>(table: Map<Seq<u8>, P>, name: WGPUStringView) -> Option<P> {
    match name.bytes() {
        Some(bytes) => if table.dom().contains(bytes) {
            Some(table[bytes])
        } else {
            None
        },
        None => None,
    }
}

/// The procedure that is called `name`, if the table has one.
pub fn wgpuGetProcAddress<P: Copy>(table: &ProcTable<P>, name: WGPUStringView) -> (found: Option<P>)
    requires
        name.readable(),
    ensures
        found == proc_named(table@, name),
{
    let data = match name.data {
        None => return None,
        Some(data) => data,
    };
    if name.length == 0 {
        return None;
    }
    let length = if name.length == usize::MAX {
        zero_at(data)
    } else {
        if name.length > isize::MAX as usize {
            return None;
        }
        name.length
    };
    table.lookup_proc(vstd::slice::slice_subrange(data, 0, length))
}

/// The number of bytes before the first zero byte.
fn zero_at(bytes: &[u8]) -> (at: usize)
    requires
        bytes@.contains(0),
    ensures
        at == crate::native::zero_from(bytes@, 0),
        at <= bytes@.len(),
{
    let mut at: usize = 0;
    while bytes[at] != 0
        invariant
            bytes@.contains(0),
            at < bytes@.len(),
            forall|i: int| 0 <= i < at ==> bytes@[i] != 0,
            crate::native::zero_from(bytes@, 0) == crate::native::zero_from(bytes@, at as int),
        decreases bytes@.len() - at,
    {
        proof {
            let zero = choose|i: int| 0 <= i < bytes@.len() && bytes@[i] == 0;
            assert(zero > at);
        }
        at = at + 1;
    }
    at
}

/// The features of an instance.
pub open spec fn supported_instance_features(frontends: ShaderFrontends) -> Seq<
    WGPUInstanceFeatureName,
> {
    if frontends.spirv {
        seq![
            WGPUInstanceFeatureName_ShaderSourceSPIRV,
            WGPUInstanceFeatureName_MultipleDevicesPerAdapter,
        ]
    } else {
        seq![WGPUInstanceFeatureName_MultipleDevicesPerAdapter]
    }
}

/// The features of an instance.
pub fn instance_features(frontends: ShaderFrontends) -> (features: Vec<WGPUInstanceFeatureName>)
    ensures
        features@ == supported_instance_features(frontends),
{
    let mut features: Vec<WGPUInstanceFeatureName> = Vec::with_capacity(2);
    if frontends.spirv {
        features.push(WGPUInstanceFeatureName_ShaderSourceSPIRV);
    }
    features.push(WGPUInstanceFeatureName_MultipleDevicesPerAdapter);
    features
}

/// Gives away the list of the features of an instance.
pub fn wgpuGetInstanceFeatures(
    frontends: ShaderFrontends,
    features: &mut WGPUSupportedInstanceFeatures,
)
    ensures
        given_away(
            final(features).features,
            final(features).featureCount,
            supported_instance_features(frontends),
        ),
{
    let (list, count) = owned_feature_list(instance_features(frontends));
    features.features = list;
    features.featureCount = count;
}

/// Tells whether an instance has a feature.
pub fn wgpuHasInstanceFeature(
    frontends: ShaderFrontends,
    feature: WGPUInstanceFeatureName,
) -> (has: WGPUBool)
    ensures
        has == if supported_instance_features(frontends).contains(feature) {
            1u32
        } else {
            0u32
        },
{
    let ghost supported = supported_instance_features(frontends);
    if feature == WGPUInstanceFeatureName_ShaderSourceSPIRV {
        assert(frontends.spirv ==> supported[0] == feature);
        if frontends.spirv {
            1
        } else {
            0
        }
    } else if feature == WGPUInstanceFeatureName_MultipleDevicesPerAdapter {
        assert(supported.last() == feature);
        1
    } else {
        0
    }
}

/// What a WGSL shader may require of the frontend that reads it.
#[derive(Clone, Copy, Debug)]
pub enum LanguageExtension {
    ReadOnlyAndReadWriteStorageTextures,
    Packed4x8IntegerDotProduct,
    PointerCompositeAccess,
    ImmediateAddressSpace,
}

impl LanguageExtension {
    /// The feature that tells of the extension. The C interface has none for some extensions.
    pub open spec fn feature(self) -> Option<WGPUWGSLLanguageFeatureName> {
        match self {
            LanguageExtension::ReadOnlyAndReadWriteStorageTextures => Some(
                WGPUWGSLLanguageFeatureName_ReadonlyAndReadwriteStorageTextures,
            ),
            LanguageExtension::Packed4x8IntegerDotProduct => Some(
                WGPUWGSLLanguageFeatureName_Packed4x8IntegerDotProduct,
            ),
            LanguageExtension::PointerCompositeAccess => Some(
                WGPUWGSLLanguageFeatureName_PointerCompositeAccess,
            ),
            LanguageExtension::ImmediateAddressSpace => None,
        }
    }
}

/// The extensions that the frontend reads.
pub open spec fn implemented_extensions() -> Seq<LanguageExtension> {
    seq![
        LanguageExtension::ReadOnlyAndReadWriteStorageTextures,
        LanguageExtension::Packed4x8IntegerDotProduct,
        LanguageExtension::PointerCompositeAccess,
    ]
}

/// The extension at `index` of those that the frontend reads.
///
/// Calls `naga::front::wgsl::ImplementedLanguageExtension::all` and takes the element at `index`
/// of the slice. Trusted: the slice holds three extensions, in the order of
/// [`implemented_extensions`].
#[verifier::external_body]
fn implemented_language_extension(index: usize) -> (extension: Option<LanguageExtension>)
    ensures
        extension == if index < implemented_extensions().len() {
            Some(implemented_extensions()[index as int])
        } else {
            None
        },
{
    match ImplementedLanguageExtension::all().get(index)? {
        ImplementedLanguageExtension::ReadOnlyAndReadWriteStorageTextures => {
            Some(LanguageExtension::ReadOnlyAndReadWriteStorageTextures)
        },
        ImplementedLanguageExtension::Packed4x8IntegerDotProduct => {
            Some(LanguageExtension::Packed4x8IntegerDotProduct)
        },
        ImplementedLanguageExtension::PointerCompositeAccess => {
            Some(LanguageExtension::PointerCompositeAccess)
        },
    }
}

/// The extensions that the frontend reads.
pub fn implemented_language_extensions() -> (extensions: Vec<LanguageExtension>)
    ensures
        extensions@ == implemented_extensions(),
{
    let mut extensions: Vec<LanguageExtension> = Vec::new();
    loop
        invariant_except_break
            extensions@.len() <= implemented_extensions().len(),
            extensions@ == implemented_extensions().take(extensions@.len() as int),
        ensures
            extensions@ == implemented_extensions(),
        decreases implemented_extensions().len() - extensions@.len(),
    {
        match implemented_language_extension(extensions.len()) {
            Some(extension) => {
                extensions.push(extension);
            },
            None => {
                break ;
            },
        }
    }
    extensions
}

/// The features that tell of the extensions, in their order.
pub open spec fn advertised(extensions: Seq<LanguageExtension>) -> Seq<
    WGPUWGSLLanguageFeatureName,
>
    decreases extensions.len(),
{
    if extensions.len() == 0 {
        Seq::empty()
    } else {
        let earlier = advertised(extensions.drop_last());
        match extensions.last().feature() {
            Some(feature) => earlier.push(feature),
            None => earlier,
        }
    }
}

/// The features that tell of the extensions, in their order.
pub fn advertised_features(extensions: &[LanguageExtension]) -> (features: Vec<
    WGPUWGSLLanguageFeatureName,
>)
    ensures
        features@ == advertised(extensions@),
{
    let mut features: Vec<WGPUWGSLLanguageFeatureName> = Vec::new();
    for i in 0..extensions.len()
        invariant
            features@ == advertised(extensions@.take(i as int)),
    {
        assert(extensions@.take(i + 1).drop_last() =~= extensions@.take(i as int));
        match extensions[i] {
            LanguageExtension::ReadOnlyAndReadWriteStorageTextures => {
                features.push(WGPUWGSLLanguageFeatureName_ReadonlyAndReadwriteStorageTextures);
            },
            LanguageExtension::Packed4x8IntegerDotProduct => {
                features.push(WGPUWGSLLanguageFeatureName_Packed4x8IntegerDotProduct);
            },
            LanguageExtension::PointerCompositeAccess => {
                features.push(WGPUWGSLLanguageFeatureName_PointerCompositeAccess);
            },
            LanguageExtension::ImmediateAddressSpace => {},
        }
    }
    assert(extensions@.take(extensions@.len() as int) =~= extensions@);
    features
}

/// The WGSL features of an instance. Every instance has the same.
pub open spec fn supported_wgsl_features(frontends: ShaderFrontends) -> Seq<
    WGPUWGSLLanguageFeatureName,
> {
    if frontends.wgsl {
        advertised(implemented_extensions())
    } else {
        Seq::empty()
    }
}

/// The WGSL features of an instance.
pub fn wgsl_language_features(frontends: ShaderFrontends) -> (features: Vec<
    WGPUWGSLLanguageFeatureName,
>)
    ensures
        features@ == supported_wgsl_features(frontends),
{
    if !frontends.wgsl {
        return Vec::new();
    }
    let extensions = implemented_language_extensions();
    advertised_features(&extensions)
}

/// Gives away the list of the WGSL features of an instance.
pub fn wgpuInstanceGetWGSLLanguageFeatures(
    frontends: ShaderFrontends,
    features: &mut WGPUSupportedWGSLLanguageFeatures,
)
    ensures
        given_away(
            final(features).features,
            final(features).featureCount,
            supported_wgsl_features(frontends),
        ),
{
    let (list, count) = owned_feature_list(wgsl_language_features(frontends));
    features.features = list;
    features.featureCount = count;
}

/// Tells whether an instance has a WGSL feature.
pub fn wgpuInstanceHasWGSLLanguageFeature(
    frontends: ShaderFrontends,
    feature: WGPUWGSLLanguageFeatureName,
) -> (has: WGPUBool)
    ensures
        has == if supported_wgsl_features(frontends).contains(feature) {
            1u32
        } else {
            0u32
        },
{
    let features = wgsl_language_features(frontends);
    for i in 0..features.len()
        invariant
            features@ == supported_wgsl_features(frontends),
            forall|j: int| 0 <= j < i ==> features@[j] != feature,
    {
        if features[i] == feature {
            assert(features@[i as int] == feature);
            return 1;
        }
    }
    0
}

/// The list holds the features, and the count is their number. Without features it is null.
pub open spec fn given_away<T>(list: Option<Vec<T>>, count: usize, features: Seq<T>) -> bool {
    &&& count == features.len()
    &&& if features.len() == 0 {
        list is None
    } else {
        list is Some && list->0@ == features
    }
}

/// A list of features to be given away, and its length. Without features it is null.
pub fn owned_feature_list<T>(features: Vec<T>) -> (list: (Option<Vec<T>>, usize))
    ensures
        given_away(list.0, list.1, features@),
{
    if features.is_empty() {
        return (None, 0);
    }
    let count = features.len();
    (Some(features), count)
}

/// What is known of an adapter.
#[derive(Clone, Debug)]
pub struct AdapterInfo {
    pub name: String,
    pub vendor: u32,
    pub device: u32,
    pub device_type: DeviceType,
    pub driver: String,
    pub driver_info: String,
    pub backend: Backend,
    pub subgroup_min_size: u32,
    pub subgroup_max_size: u32,
}

/// A string to be given away.
fn str_into_owned_string_view(text: &str) -> (view: OwnedStringView)
    ensures
        view.owns(text@),
{
    OwnedStringView { data: Some(text.to_owned()), length: text.len() }
}

/// Tells what is known of an adapter, unless the caller has chained something to `info`: no such
/// extension is known.
pub fn write_adapter_info(info: &mut WGPUAdapterInfo, adapter: AdapterInfo) -> (status: WGPUStatus)
    ensures
        old(info).nextInChain is Some ==> {
            &&& status == WGPUStatus_Error
            &&& *final(info) == *old(info)
        },
        old(info).nextInChain is None ==> {
            &&& status == WGPUStatus_Success
            &&& final(info).nextInChain is None
            &&& final(info).vendor.owns(adapter.driver@)
            &&& final(info).architecture.is_null()
            &&& final(info).device.owns(adapter.name@)
            &&& final(info).description.owns(adapter.driver_info@)
            &&& final(info).backendType == adapter.backend.code()
            &&& final(info).adapterType == adapter.device_type.code()
            &&& final(info).vendorID == adapter.vendor
            &&& final(info).deviceID == adapter.device
            &&& final(info).subgroupMinSize == adapter.subgroup_min_size
            &&& final(info).subgroupMaxSize == adapter.subgroup_max_size
        },
{
    if info.nextInChain.is_some() {
        return WGPUStatus_Error;
    }
    info.vendor = str_into_owned_string_view(adapter.driver.as_str());
    info.architecture = OwnedStringView { data: None, length: 0 };
    info.device = str_into_owned_string_view(adapter.name.as_str());
    info.description = str_into_owned_string_view(adapter.driver_info.as_str());
    info.backendType = map_backend_type(adapter.backend);
    info.adapterType = map_adapter_type(adapter.device_type);
    info.vendorID = adapter.vendor;
    info.deviceID = adapter.device;
    info.subgroupMinSize = adapter.subgroup_min_size;
    info.subgroupMaxSize = adapter.subgroup_max_size;
    WGPUStatus_Success
}

/// A feature is advertised exactly if it tells of one of the extensions.
pub proof fn law_features_tell_of_extensions(
    extensions: Seq<LanguageExtension>,
    feature: WGPUWGSLLanguageFeatureName,
)
    ensures
        advertised(extensions).contains(feature) <==> exists|i: int|
            0 <= i < extensions.len() && (#[trigger] extensions[i]).feature() == Some(feature),
    decreases extensions.len(),
{
    if extensions.len() > 0 {
        let earlier = extensions.drop_last();
        let last = extensions.len() - 1;
        law_features_tell_of_extensions(earlier, feature);
        let before = advertised(earlier);
        let after = advertised(extensions);
        if before.contains(feature) {
            let k = choose|k: int| 0 <= k < before.len() && before[k] == feature;
            assert(after[k] == feature);
            let i = choose|i: int|
                0 <= i < earlier.len() && (#[trigger] earlier[i]).feature() == Some(feature);
            assert(extensions[i].feature() == Some(feature));
        }
        if extensions[last].feature() == Some(feature) {
            assert(after[before.len() as int] == feature);
        }
        if exists|i: int|
            0 <= i < extensions.len() && (#[trigger] extensions[i]).feature() == Some(feature) {
            let i = choose|i: int|
                0 <= i < extensions.len() && (#[trigger] extensions[i]).feature() == Some(feature);
            if i < last {
                assert(earlier[i].feature() == Some(feature));
            }
        }
        if after.contains(feature) {
            let k = choose|k: int| 0 <= k < after.len() && after[k] == feature;
            if k < before.len() {
                assert(before[k] == feature);
            }
        }
    }
}

/// What follows a string in memory plays no part.
pub proof fn law_string_ends_with_its_length(a: WGPUStringView, b: WGPUStringView)
    requires
        a.data is Some,
        b.data is Some,
        a.readable(),
        b.readable(),
        a.length == b.length,
        a.length <= isize::MAX,
        forall|i: int| 0 <= i < a.length ==> #[trigger] a.data->0@[i] == b.data->0@[i],
    ensures
        a.bytes() == b.bytes(),
{
    assert(a.data->0@.take(a.length as int) =~= b.data->0@.take(b.length as int));
}

/// A string that ends with a zero byte has the same bytes as one of that length, whatever
/// follows.
pub proof fn law_zero_byte_ends_a_string(bounded: WGPUStringView, ended: WGPUStringView)
    requires
        bounded.data is Some,
        bounded.readable(),
        0 < bounded.length <= isize::MAX,
        ended.data is Some,
        ended.length == usize::MAX,
        bounded.length < ended.data->0@.len(),
        ended.data->0@[bounded.length as int] == 0,
        forall|i: int|
            0 <= i < bounded.length ==> {
                &&& #[trigger] ended.data->0@[i] != 0
                &&& ended.data->0@[i] == bounded.data->0@[i]
            },
    ensures
        ended.bytes() == bounded.bytes(),
{
    lemma_zero_from(ended.data->0@, 0, bounded.length as int);
    assert(ended.data->0@.take(bounded.length as int) =~= bounded.data->0@.take(
        bounded.length as int,
    ));
}

/// Each procedure that a text declares is found by a string of exactly its bytes, in the table
/// over the names that the text declares.
pub proof fn law_every_listed_name_is_found<P>(
    text: Seq<char>,
    names: Seq<Vec<u8>>,
    procs: Seq<P>,
    table: Map<Seq<u8>, P>,
    i: int,
    name: WGPUStringView,
)
    requires
        forall|any: Seq<u8>| #[trigger]
            crate::proc_table::lists(names, any) <==> exists|declared: Seq<char>| #[trigger]
                crate::proc_table::declares(text, declared) && any
                    == crate::proc_table::name_bytes(declared),
        forall|any: Seq<u8>| #[trigger]
            table.dom().contains(any) <==> crate::proc_table::lists(names, any),
        forall|j: int| 0 <= j < names.len() ==> table[(#[trigger] names[j])@] == procs[j],
        0 <= i < names.len(),
        name.data is Some,
        name.data->0@ == names[i]@,
        name.length == names[i]@.len(),
        name.length <= isize::MAX,
    ensures
        name.readable(),
        proc_named(table, name) == Some(procs[i]),
{
    let bytes = names[i]@;
    assert(crate::proc_table::lists(names, bytes));
    let declared = choose|declared: Seq<char>| #[trigger]
        crate::proc_table::declares(text, declared) && bytes == crate::proc_table::name_bytes(
            declared,
        );
    reveal_strlit("wgpu");
    assert(declared.len() >= 4);
    assert(bytes.take(name.length as int) =~= bytes);
}

/// The first zero byte is where the bytes before it are not zero.
proof fn lemma_zero_from(bytes: Seq<u8>, at: int, zero: int)
    requires
        0 <= at <= zero < bytes.len(),
        bytes[zero] == 0,
        forall|i: int| at <= i < zero ==> #[trigger] bytes[i] != 0,
    ensures
        crate::native::zero_from(bytes, at) == zero,
    decreases zero - at,
{
    if at < zero {
        lemma_zero_from(bytes, at + 1, zero);
    }
}

} // verus!
