//! What the types of a module's resources and vertex inputs mean to the host:
//! the kind of each binding, the stages that see it, and the format of each
//! vertex attribute.

use crate::bind_group::GroupBinding;
use crate::ir::{
    AddressSpace, ArraySize, EntryPoint, ImageClass, ImageDimension, Module, ScalarKind,
    ShaderStage, StorageAccess, StructMember, Type, TypeInner,
};
use vstd::prelude::*;

verus! {

/// Why a module has no binding model.
#[derive(Clone, Copy, Debug, PartialEq, Eq)]
pub enum ReflectionError {
    /// A resource whose type is neither a buffer, a texture nor a sampler.
    UnsupportedBindingType,
    /// A buffer that is neither in the uniform nor in the storage address space.
    UnsupportedAddressSpace,
    /// A sampled texture of a scalar kind other than signed, unsigned or float.
    UnsupportedSampleType,
    /// A storage texture that is neither loaded from nor stored to.
    UnsupportedStorageAccess,
    /// A vertex attribute whose type has no vertex format.
    UnsupportedVertexFormat,
}

/// The stages of a pipeline that see a resource.
#[derive(Clone, Copy, Debug, PartialEq, Eq)]
pub struct ShaderStages {
    pub vertex: bool,
    pub fragment: bool,
    pub compute: bool,
}

impl ShaderStages {
    /// Whether the compute stage is the only one, so that the resources are
    /// bound in a compute pass and not in a render pass.
    pub fn is_compute_only(&self) -> (b: bool)
        ensures
            b == (self.compute && !self.vertex && !self.fragment),
    {
        self.compute && !self.vertex && !self.fragment
    }
}

/// The kind of a buffer binding.
#[derive(Clone, Copy, Debug, PartialEq, Eq)]
pub enum BufferBindingType {
    Uniform,
    Storage { read_only: bool },
}

/// What sampling a texture gives.
#[derive(Clone, Copy, Debug, PartialEq, Eq)]
pub enum TextureSampleType {
    Float { filterable: bool },
    Depth,
    Sint,
    Uint,
}

/// The dimensions of the view of a texture.
#[derive(Clone, Copy, Debug, PartialEq, Eq)]
pub enum TextureViewDimension {
    D1,
    D2,
    D3,
    Cube,
}

/// How a storage texture is reached.
#[derive(Clone, Copy, Debug, PartialEq, Eq)]
pub enum StorageTextureAccess {
    WriteOnly,
    ReadOnly,
    ReadWrite,
}

/// The kind of a sampler binding.
#[derive(Clone, Copy, Debug, PartialEq, Eq)]
pub enum SamplerBindingType {
    Filtering,
    Comparison,
}

/// The kind of a binding.
#[derive(Debug, PartialEq, Eq)]
pub enum BindingType {
    Buffer { ty: BufferBindingType, has_dynamic_offset: bool, min_binding_size: Option<u64> },
    Sampler(SamplerBindingType),
    Texture {
        sample_type: TextureSampleType,
        view_dimension: TextureViewDimension,
        multisampled: bool,
    },
    StorageTexture {
        access: StorageTextureAccess,
        format: String,
        view_dimension: TextureViewDimension,
    },
}

/// One entry of the layout of a bind group.
#[derive(Debug, PartialEq, Eq)]
pub struct BindGroupLayoutEntry {
    pub name: Option<String>,
    pub binding: u32,
    pub visibility: ShaderStages,
    pub ty: BindingType,
}

/// The format of a vertex attribute.
#[derive(Clone, Copy, Debug, PartialEq, Eq)]
pub enum VertexFormat {
    Uint8x2,
    Uint8x4,
    Sint8x2,
    Sint8x4,
    Uint16x2,
    Uint16x4,
    Sint16x2,
    Sint16x4,
    Float32,
    Float32x2,
    Float32x3,
    Float32x4,
    Uint32,
    Uint32x2,
    Uint32x3,
    Uint32x4,
    Sint32,
    Sint32x2,
    Sint32x3,
    Sint32x4,
    Float64,
    Float64x2,
    Float64x3,
    Float64x4,
}

/// Whether an entry point of the stage is among `entries`.
pub open spec fn has_stage(entries: Seq<EntryPoint>, stage: ShaderStage) -> bool {
    exists|i: int| 0 <= i < entries.len() && (#[trigger] entries[i]).stage == stage
}

/// The stages of the module's entry points, which is the visibility that all
/// its resources get.
pub fn shader_stages(module: &Module) -> (r: ShaderStages)
    ensures
        r.vertex == has_stage(module.entry_points@, ShaderStage::Vertex),
        r.fragment == has_stage(module.entry_points@, ShaderStage::Fragment),
        r.compute == has_stage(module.entry_points@, ShaderStage::Compute),
{
    let mut r = ShaderStages { vertex: false, fragment: false, compute: false };
    let mut i: usize = 0;
    while i < module.entry_points.len()
        invariant
            i <= module.entry_points.len(),
            r.vertex == has_stage(module.entry_points@.take(i as int), ShaderStage::Vertex),
            r.fragment == has_stage(module.entry_points@.take(i as int), ShaderStage::Fragment),
            r.compute == has_stage(module.entry_points@.take(i as int), ShaderStage::Compute),
        decreases module.entry_points.len() - i,
    {
        let stage = module.entry_points[i].stage;
        proof {
            lemma_has_stage_step(module.entry_points@, i as int, ShaderStage::Vertex);
            lemma_has_stage_step(module.entry_points@, i as int, ShaderStage::Fragment);
            lemma_has_stage_step(module.entry_points@, i as int, ShaderStage::Compute);
        }
        match stage {
            ShaderStage::Vertex => {
                r.vertex = true;
            },
            ShaderStage::Fragment => {
                r.fragment = true;
            },
            ShaderStage::Compute => {
                r.compute = true;
            },
        }
        i += 1;
    }
    assert(module.entry_points@.take(module.entry_points@.len() as int) == module.entry_points@);
    r
}

proof fn lemma_has_stage_step(entries: Seq<EntryPoint>, i: int, stage: ShaderStage)
    requires
        0 <= i < entries.len(),
    ensures
        has_stage(entries.take(i + 1), stage) == (has_stage(entries.take(i), stage) || entries[i].stage
            == stage),
{
    let before = entries.take(i);
    let after = entries.take(i + 1);
    if has_stage(after, stage) {
        let k = choose|k: int| 0 <= k < after.len() && (#[trigger] after[k]).stage == stage;
        if k < i {
            assert(before[k].stage == stage);
        }
    }
    if has_stage(before, stage) {
        let k = choose|k: int| 0 <= k < before.len() && (#[trigger] before[k]).stage == stage;
        assert(after[k].stage == stage);
    }
    if entries[i].stage == stage {
        assert(after[i].stage == stage);
    }
}

/// The kind of buffer that a resource in the address space is, or the error
/// that says that it is none.
pub open spec fn buffer_binding_type_of(space: AddressSpace) -> Result<
    BufferBindingType,
    ReflectionError,
> {
    match space {
        AddressSpace::Uniform => Ok(BufferBindingType::Uniform),
        AddressSpace::Storage { access } => Ok(BufferBindingType::Storage { read_only: !access.store }),
        _ => Err(ReflectionError::UnsupportedAddressSpace),
    }
}

/// The kind of buffer that a resource in the address space is: a uniform
/// buffer, or a storage buffer that is read-only exactly where the shader does
/// not store to it.
pub fn buffer_binding_type(storage: AddressSpace) -> (r: Result<BufferBindingType, ReflectionError>)
    ensures
        r == buffer_binding_type_of(storage),
        storage matches AddressSpace::Storage { access } ==> r == Ok::<
            BufferBindingType,
            ReflectionError,
        >(BufferBindingType::Storage { read_only: !access.store }),
{
    match storage {
        AddressSpace::Uniform => Ok(BufferBindingType::Uniform),
        AddressSpace::Storage { access } => {
            if access.store {
                Ok(BufferBindingType::Storage { read_only: false })
            } else {
                Ok(BufferBindingType::Storage { read_only: true })
            }
        },
        _ => Err(ReflectionError::UnsupportedAddressSpace),
    }
}

/// How a storage texture with the access is reached, or the error that says
/// that it is not reached at all.
pub open spec fn storage_access_of(access: StorageAccess) -> Result<
    StorageTextureAccess,
    ReflectionError,
> {
    if access.load && access.store {
        Ok(StorageTextureAccess::ReadWrite)
    } else if access.load {
        Ok(StorageTextureAccess::ReadOnly)
    } else if access.store {
        Ok(StorageTextureAccess::WriteOnly)
    } else {
        Err(ReflectionError::UnsupportedStorageAccess)
    }
}

/// How a storage texture is reached.
pub fn storage_access(access: StorageAccess) -> (r: Result<StorageTextureAccess, ReflectionError>)
    ensures
        r == storage_access_of(access),
{
    if access.load && access.store {
        Ok(StorageTextureAccess::ReadWrite)
    } else if access.load {
        Ok(StorageTextureAccess::ReadOnly)
    } else if access.store {
        Ok(StorageTextureAccess::WriteOnly)
    } else {
        Err(ReflectionError::UnsupportedStorageAccess)
    }
}

/// The view of an image of the dimensions.
pub open spec fn view_dimension_of(dim: ImageDimension) -> TextureViewDimension {
    match dim {
        ImageDimension::D1 => TextureViewDimension::D1,
        ImageDimension::D2 => TextureViewDimension::D2,
        ImageDimension::D3 => TextureViewDimension::D3,
        ImageDimension::Cube => TextureViewDimension::Cube,
    }
}

/// What sampling a texture of the scalar kind gives, or the error that says
/// that the kind cannot be sampled.
pub open spec fn sample_type_of(kind: ScalarKind) -> Result<TextureSampleType, ReflectionError> {
    match kind {
        ScalarKind::Sint => Ok(TextureSampleType::Sint),
        ScalarKind::Uint => Ok(TextureSampleType::Uint),
        ScalarKind::Float => Ok(TextureSampleType::Float { filterable: true }),
        _ => Err(ReflectionError::UnsupportedSampleType),
    }
}

/// Whether the type is an array whose length is not known before the shader
/// runs.
pub open spec fn is_dynamic_array(ty: Type) -> bool {
    ty.inner matches TypeInner::Array { size: ArraySize::Dynamic, .. }
}

/// Whether one of the members is an array whose length is not known before the
/// shader runs.
pub open spec fn has_dynamic_member(members: Seq<StructMember>, types: Seq<Type>) -> bool {
    exists|k: int| 0 <= k < members.len() && is_dynamic_array(types[(#[trigger] members[k]).ty as int])
}

/// Whether the size of a value of the type is known before the shader runs.
pub open spec fn is_sized(ty: Type, types: Seq<Type>) -> bool {
    match ty.inner {
        TypeInner::Array { size: ArraySize::Dynamic, .. } => false,
        TypeInner::Struct { members, .. } => !has_dynamic_member(members@, types),
        _ => true,
    }
}

/// The least size of a buffer that can be bound for the type: the size of the
/// type where that is known and not zero.
pub open spec fn min_binding_size_of(ty: Type, types: Seq<Type>) -> Option<u64> {
    if is_sized(ty, types) && ty.size > 0 {
        Some(ty.size as u64)
    } else {
        None
    }
}

/// The kind of binding that a resource of the type in the address space is.
///
/// A scalar, a struct and an array are buffers; an image is a texture or a
/// storage texture; a sampler is a comparison sampler where the shader declares
/// it as one and a filtering sampler else. Any other type has no kind.
pub open spec fn binding_type_of(ty: Type, space: AddressSpace, types: Seq<Type>) -> Result<
    BindingType,
    ReflectionError,
> {
    match ty.inner {
        TypeInner::Scalar(_) | TypeInner::Struct { .. } | TypeInner::Array { .. } => {
            match buffer_binding_type_of(space) {
                Ok(buffer) => Ok(
                    BindingType::Buffer {
                        ty: buffer,
                        has_dynamic_offset: false,
                        min_binding_size: min_binding_size_of(ty, types),
                    },
                ),
                Err(e) => Err(e),
            }
        },
        TypeInner::Image { dim, class, .. } => match class {
            ImageClass::Sampled { kind, multi } => match sample_type_of(kind) {
                Ok(sample_type) => Ok(
                    BindingType::Texture {
                        sample_type,
                        view_dimension: view_dimension_of(dim),
                        multisampled: multi,
                    },
                ),
                Err(e) => Err(e),
            },
            ImageClass::Depth { multi } => Ok(
                BindingType::Texture {
                    sample_type: TextureSampleType::Depth,
                    view_dimension: view_dimension_of(dim),
                    multisampled: multi,
                },
            ),
            ImageClass::Storage { format, access } => match storage_access_of(access) {
                Ok(access) => Ok(
                    BindingType::StorageTexture {
                        access,
                        format,
                        view_dimension: view_dimension_of(dim),
                    },
                ),
                Err(e) => Err(e),
            },
        },
        TypeInner::Sampler { comparison } => Ok(
            BindingType::Sampler(
                if comparison {
                    SamplerBindingType::Comparison
                } else {
                    SamplerBindingType::Filtering
                },
            ),
        ),
        _ => Err(ReflectionError::UnsupportedBindingType),
    }
}

fn view_dimension(dim: ImageDimension) -> (r: TextureViewDimension)
    ensures
        r == view_dimension_of(dim),
{
    match dim {
        ImageDimension::D1 => TextureViewDimension::D1,
        ImageDimension::D2 => TextureViewDimension::D2,
        ImageDimension::D3 => TextureViewDimension::D3,
        ImageDimension::Cube => TextureViewDimension::Cube,
    }
}

fn sample_type(kind: ScalarKind) -> (r: Result<TextureSampleType, ReflectionError>)
    ensures
        r == sample_type_of(kind),
{
    match kind {
        ScalarKind::Sint => Ok(TextureSampleType::Sint),
        ScalarKind::Uint => Ok(TextureSampleType::Uint),
        ScalarKind::Float => Ok(TextureSampleType::Float { filterable: true }),
        _ => Err(ReflectionError::UnsupportedSampleType),
    }
}

fn type_is_dynamic_array(ty: &Type) -> (b: bool)
    ensures
        b == is_dynamic_array(*ty),
{
    match &ty.inner {
        TypeInner::Array { size, .. } => match size {
            ArraySize::Dynamic => true,
            ArraySize::Constant(_) => false,
        },
        _ => false,
    }
}

/// Whether one of the members is an array whose length is not known before the
/// shader runs.
pub fn struct_has_rts_array_member(members: &Vec<StructMember>, module: &Module) -> (b: bool)
    requires
        forall|k: int| 0 <= k < members@.len() ==> (#[trigger] members@[k]).ty < module.types@.len(),
    ensures
        b == has_dynamic_member(members@, module.types@),
{
    let mut k: usize = 0;
    while k < members.len()
        invariant
            k <= members.len(),
            forall|j: int|
                0 <= j < members@.len() ==> (#[trigger] members@[j]).ty < module.types@.len(),
            forall|j: int|
                0 <= j < k ==> !is_dynamic_array(module.types@[(#[trigger] members@[j]).ty as int]),
        decreases members.len() - k,
    {
        if type_is_dynamic_array(&module.types[members[k].ty]) {
            return true;
        }
        k += 1;
    }
    false
}

fn min_binding_size(ty: &Type, module: &Module) -> (r: Option<u64>)
    requires
        crate::ir::type_in_range(*ty, module.types@.len()),
    ensures
        r == min_binding_size_of(*ty, module.types@),
{
    let sized = match &ty.inner {
        TypeInner::Array { size, .. } => match size {
            ArraySize::Dynamic => false,
            ArraySize::Constant(_) => true,
        },
        TypeInner::Struct { members, .. } => !struct_has_rts_array_member(members, module),
        _ => true,
    };
    if sized && ty.size > 0 {
        Some(ty.size as u64)
    } else {
        None
    }
}

/// The layout entry of a bound resource: its name and binding, the stages that
/// see it and the kind of binding that its type and address space make it, or
/// the error that says why it has no kind.
pub open spec fn layout_entry_of(types: Seq<Type>, stages: ShaderStages, binding: GroupBinding) -> Result<
    BindGroupLayoutEntry,
    ReflectionError,
> {
    match binding_type_of(types[binding.binding_type as int], binding.address_space, types) {
        Ok(ty) => Ok(
            BindGroupLayoutEntry {
                name: binding.name,
                binding: binding.binding_index,
                visibility: stages,
                ty,
            },
        ),
        Err(e) => Err(e),
    }
}

/// The layout entry of a bound resource.
pub fn bind_group_layout_entry(
    module: &Module,
    shader_stages: ShaderStages,
    binding: &GroupBinding,
) -> (r: Result<BindGroupLayoutEntry, ReflectionError>)
    requires
        module.well_formed(),
        binding.binding_type < module.types@.len(),
    ensures
        r == layout_entry_of(module.types@, shader_stages, *binding),
{
    let ty = &module.types[binding.binding_type];
    let kind = match &ty.inner {
        TypeInner::Scalar(_) | TypeInner::Struct { .. } | TypeInner::Array { .. } => {
            match buffer_binding_type(binding.address_space) {
                Ok(buffer) => BindingType::Buffer {
                    ty: buffer,
                    has_dynamic_offset: false,
                    min_binding_size: min_binding_size(ty, module),
                },
                Err(e) => {
                    return Err(e);
                },
            }
        },
        TypeInner::Image { dim, class, .. } => match class {
            ImageClass::Sampled { kind, multi } => match sample_type(*kind) {
                Ok(sample_type) => BindingType::Texture {
                    sample_type,
                    view_dimension: view_dimension(*dim),
                    multisampled: *multi,
                },
                Err(e) => {
                    return Err(e);
                },
            },
            ImageClass::Depth { multi } => BindingType::Texture {
                sample_type: TextureSampleType::Depth,
                view_dimension: view_dimension(*dim),
                multisampled: *multi,
            },
            ImageClass::Storage { format, access } => match storage_access(*access) {
                Ok(access) => BindingType::StorageTexture {
                    access,
                    format: format.clone(),
                    view_dimension: view_dimension(*dim),
                },
                Err(e) => {
                    return Err(e);
                },
            },
        },
        TypeInner::Sampler { comparison } => BindingType::Sampler(
            if *comparison {
                SamplerBindingType::Comparison
            } else {
                SamplerBindingType::Filtering
            },
        ),
        _ => {
            return Err(ReflectionError::UnsupportedBindingType);
        },
    };
    let name = match &binding.name {
        Some(s) => Some(s.clone()),
        None => None,
    };
    Ok(
        BindGroupLayoutEntry {
            name,
            binding: binding.binding_index,
            visibility: shader_stages,
            ty: kind,
        },
    )
}

} // verus!
