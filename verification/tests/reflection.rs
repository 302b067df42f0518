use wgsl_bindgen::ir::{
    AddressSpace, ArraySize, Binding, EntryPoint, FunctionArgument, FunctionResult,
    GlobalVariable, ImageClass, ImageDimension, Module, Override, ResourceBinding, Scalar,
    ScalarKind, ShaderStage, StorageAccess, StructMember, Type, TypeInner, VectorSize,
};
use wgsl_bindgen::layout::layout_fields;
use wgsl_bindgen::reach::global_variable_types;
use wgsl_bindgen::wgsl::struct_has_rts_array_member;
use wgsl_bindgen::{
    bind_group_layout_entry, buffer_binding_type, create_binding_model, fragment_target_count,
    get_bind_group_data, get_vertex_input_structs, override_key, pipeline_overridable_constants,
    shader_stages, storage_access, structs_items, vertex_attributes, vertex_format, BindingType,
    BufferBindingType, CreateModuleError, GroupBinding, ModelError, OverrideStructAlignment,
    ReflectionError, SamplerBindingType, ShaderStages, StorageTextureAccess, TextureSampleType,
    TextureViewDimension, VertexFormat, WgslBindgenOptionBuilder, WgslType,
};

fn scalar_type(kind: ScalarKind, width: u8) -> Type {
    Type {
        name: None,
        inner: TypeInner::Scalar(Scalar { kind, width }),
        size: width as u32,
        alignment: width as u32,
    }
}

fn vector_type(size: VectorSize, kind: ScalarKind, width: u8) -> Type {
    let n = match size {
        VectorSize::Bi => 2,
        VectorSize::Tri => 3,
        VectorSize::Quad => 4,
    };
    let align = match size {
        VectorSize::Bi => 2,
        _ => 4,
    };
    Type {
        name: None,
        inner: TypeInner::Vector { size, scalar: Scalar { kind, width } },
        size: n * width as u32,
        alignment: align * width as u32,
    }
}

fn member(name: &str, ty: usize, binding: Option<Binding>, offset: u32) -> StructMember {
    StructMember { name: Some(name.to_string()), ty, binding, offset }
}

fn struct_type(name: &str, members: Vec<StructMember>, size: u32, alignment: u32) -> Type {
    Type {
        name: Some(name.to_string()),
        inner: TypeInner::Struct { members, span: size },
        size,
        alignment,
    }
}

fn global(name: &str, group: u32, binding: u32, ty: usize, space: AddressSpace) -> GlobalVariable {
    GlobalVariable {
        name: Some(name.to_string()),
        space,
        binding: Some(ResourceBinding { group, binding }),
        ty,
    }
}

fn unbound(name: &str, ty: usize) -> GlobalVariable {
    GlobalVariable { name: Some(name.to_string()), space: AddressSpace::Private, binding: None, ty }
}

fn module_of(types: Vec<Type>, globals: Vec<GlobalVariable>) -> Module {
    Module { types, global_variables: globals, entry_points: vec![], overrides: vec![] }
}

fn entry(name: &str, stage: ShaderStage, args: Vec<usize>, result: Option<FunctionResult>) -> EntryPoint {
    EntryPoint {
        name: name.to_string(),
        stage,
        arguments: args
            .into_iter()
            .map(|ty| FunctionArgument { name: None, ty, binding: None })
            .collect(),
        result,
    }
}

fn default_options() -> wgsl_bindgen::WgslBindgenOption {
    WgslBindgenOptionBuilder::new().build()
}

fn groups_of(groups: &[u32]) -> Module {
    let mut counters = std::collections::HashMap::new();
    let globals = groups
        .iter()
        .enumerate()
        .map(|(i, g)| {
            let n = counters.entry(*g).or_insert(0u32);
            let b = *n;
            *n += 1;
            global(&format!("r{}", i), *g, b, 0, AddressSpace::Uniform)
        })
        .collect();
    module_of(vec![scalar_type(ScalarKind::Float, 4)], globals)
}

#[test]
fn consecutive_groups_are_accepted() {
    let groups = get_bind_group_data(&groups_of(&[0, 1, 1, 2])).unwrap();
    assert_eq!(groups.len(), 3);
    assert_eq!(groups[0].bindings.len(), 1);
    assert_eq!(groups[1].bindings.len(), 2);
    assert_eq!(groups[2].bindings.len(), 1);
    assert_eq!(
        groups[1].bindings[1],
        GroupBinding {
            name: Some("r2".to_string()),
            binding_index: 1,
            binding_type: 0,
            address_space: AddressSpace::Uniform,
        }
    );
}

#[test]
fn groups_are_ordered_by_their_index_and_resources_by_their_declaration() {
    let module = module_of(
        vec![scalar_type(ScalarKind::Float, 4), scalar_type(ScalarKind::Uint, 4)],
        vec![
            global("late", 1, 7, 1, AddressSpace::Uniform),
            unbound("private", 0),
            global("first", 0, 3, 0, AddressSpace::Storage {
                access: StorageAccess { load: true, store: false },
            }),
            global("second", 0, 1, 1, AddressSpace::Uniform),
        ],
    );
    let groups = get_bind_group_data(&module).unwrap();
    assert_eq!(groups.len(), 2);
    let names: Vec<_> = groups[0].bindings.iter().map(|b| b.name.clone().unwrap()).collect();
    assert_eq!(names, vec!["first", "second"]);
    assert_eq!(groups[0].bindings[0].binding_index, 3);
    assert_eq!(groups[0].bindings[1].binding_index, 1);
    assert_eq!(groups[1].bindings[0].name, Some("late".to_string()));
    assert_eq!(groups[1].bindings[0].binding_type, 1);
}

#[test]
fn a_module_without_resources_has_no_groups() {
    let module = module_of(vec![scalar_type(ScalarKind::Float, 4)], vec![unbound("x", 0)]);
    assert_eq!(get_bind_group_data(&module).unwrap().len(), 0);
}

#[test]
fn a_skipped_group_is_refused() {
    assert_eq!(
        get_bind_group_data(&groups_of(&[0, 2])),
        Err(CreateModuleError::NonConsecutiveBindGroups)
    );
    assert_eq!(
        get_bind_group_data(&groups_of(&[1])),
        Err(CreateModuleError::NonConsecutiveBindGroups)
    );
    assert_eq!(
        get_bind_group_data(&groups_of(&[u32::MAX])),
        Err(CreateModuleError::NonConsecutiveBindGroups)
    );
}

#[test]
fn a_repeated_binding_is_refused() {
    let module = module_of(
        vec![scalar_type(ScalarKind::Float, 4)],
        vec![
            global("a", 0, 0, 0, AddressSpace::Uniform),
            global("b", 0, 5, 0, AddressSpace::Uniform),
            global("c", 2, 5, 0, AddressSpace::Uniform),
            global("d", 0, 5, 0, AddressSpace::Uniform),
            global("e", 0, 0, 0, AddressSpace::Uniform),
        ],
    );
    assert_eq!(
        get_bind_group_data(&module),
        Err(CreateModuleError::DuplicateBinding { binding: 5 })
    );
}

#[test]
fn errors_are_told_in_words() {
    assert_eq!(
        CreateModuleError::NonConsecutiveBindGroups.message(),
        "bind groups are non-consecutive or do not start from 0"
    );
    assert_eq!(
        CreateModuleError::DuplicateBinding { binding: 12 }.message(),
        "duplicate binding found with index `12`"
    );
}

#[test]
fn a_storage_buffer_is_read_only_unless_it_is_stored_to() {
    let space = |load, store| AddressSpace::Storage { access: StorageAccess { load, store } };
    assert_eq!(
        buffer_binding_type(space(true, false)),
        Ok(BufferBindingType::Storage { read_only: true })
    );
    assert_eq!(
        buffer_binding_type(space(true, true)),
        Ok(BufferBindingType::Storage { read_only: false })
    );
    assert_eq!(
        buffer_binding_type(space(false, true)),
        Ok(BufferBindingType::Storage { read_only: false })
    );
    assert_eq!(
        buffer_binding_type(space(false, false)),
        Ok(BufferBindingType::Storage { read_only: true })
    );
    assert_eq!(buffer_binding_type(AddressSpace::Uniform), Ok(BufferBindingType::Uniform));
    for other in [
        AddressSpace::Function,
        AddressSpace::Private,
        AddressSpace::WorkGroup,
        AddressSpace::Handle,
        AddressSpace::PushConstant,
    ] {
        assert_eq!(buffer_binding_type(other), Err(ReflectionError::UnsupportedAddressSpace));
    }
}

#[test]
fn the_access_of_a_storage_texture_follows_load_and_store() {
    let access = |load, store| StorageAccess { load, store };
    assert_eq!(storage_access(access(true, true)), Ok(StorageTextureAccess::ReadWrite));
    assert_eq!(storage_access(access(true, false)), Ok(StorageTextureAccess::ReadOnly));
    assert_eq!(storage_access(access(false, true)), Ok(StorageTextureAccess::WriteOnly));
    assert_eq!(
        storage_access(access(false, false)),
        Err(ReflectionError::UnsupportedStorageAccess)
    );
}

#[test]
fn the_stages_are_those_of_the_entry_points() {
    let mut module = module_of(vec![], vec![]);
    assert_eq!(
        shader_stages(&module),
        ShaderStages { vertex: false, fragment: false, compute: false }
    );
    module.entry_points = vec![
        entry("vs", ShaderStage::Vertex, vec![], None),
        entry("fs", ShaderStage::Fragment, vec![], None),
        entry("vs2", ShaderStage::Vertex, vec![], None),
    ];
    assert_eq!(
        shader_stages(&module),
        ShaderStages { vertex: true, fragment: true, compute: false }
    );
    module.entry_points = vec![entry("main", ShaderStage::Compute, vec![], None)];
    assert_eq!(
        shader_stages(&module),
        ShaderStages { vertex: false, fragment: false, compute: true }
    );
}

fn classify(ty: Type, space: AddressSpace, extra: Vec<Type>) -> Result<BindingType, ReflectionError> {
    let mut types = vec![ty];
    types.extend(extra);
    let module = module_of(types, vec![]);
    assert!(module.is_well_formed());
    let binding = GroupBinding {
        name: Some("res".to_string()),
        binding_index: 4,
        binding_type: 0,
        address_space: space,
    };
    let stages = ShaderStages { vertex: true, fragment: false, compute: false };
    bind_group_layout_entry(&module, stages, &binding).map(|e| {
        assert_eq!(e.binding, 4);
        assert_eq!(e.name, Some("res".to_string()));
        assert_eq!(e.visibility, stages);
        e.ty
    })
}

#[test]
fn scalars_structs_and_arrays_are_buffers() {
    assert_eq!(
        classify(scalar_type(ScalarKind::Float, 4), AddressSpace::Uniform, vec![]),
        Ok(BindingType::Buffer {
            ty: BufferBindingType::Uniform,
            has_dynamic_offset: false,
            min_binding_size: Some(4),
        })
    );
    let read = AddressSpace::Storage { access: StorageAccess { load: true, store: false } };
    let st = struct_type("S", vec![member("a", 1, None, 0), member("b", 1, None, 16)], 32, 16);
    assert_eq!(
        classify(st, read, vec![vector_type(VectorSize::Quad, ScalarKind::Float, 4)]),
        Ok(BindingType::Buffer {
            ty: BufferBindingType::Storage { read_only: true },
            has_dynamic_offset: false,
            min_binding_size: Some(32),
        })
    );
    let fixed = Type {
        name: None,
        inner: TypeInner::Array { base: 1, size: ArraySize::Constant(8), stride: 4 },
        size: 32,
        alignment: 4,
    };
    assert_eq!(
        classify(fixed, AddressSpace::Uniform, vec![scalar_type(ScalarKind::Float, 4)]),
        Ok(BindingType::Buffer {
            ty: BufferBindingType::Uniform,
            has_dynamic_offset: false,
            min_binding_size: Some(32),
        })
    );
}

#[test]
fn a_buffer_of_unknown_size_has_no_least_size() {
    let write = AddressSpace::Storage { access: StorageAccess { load: true, store: true } };
    let dynamic = Type {
        name: None,
        inner: TypeInner::Array { base: 1, size: ArraySize::Dynamic, stride: 4 },
        size: 4,
        alignment: 4,
    };
    assert_eq!(
        classify(dynamic.clone(), write, vec![scalar_type(ScalarKind::Float, 4)]),
        Ok(BindingType::Buffer {
            ty: BufferBindingType::Storage { read_only: false },
            has_dynamic_offset: false,
            min_binding_size: None,
        })
    );
    let mut tail = dynamic;
    tail.inner = TypeInner::Array { base: 1, size: ArraySize::Dynamic, stride: 4 };
    let st = struct_type("Tail", vec![member("n", 1, None, 0), member("items", 2, None, 4)], 8, 4);
    assert_eq!(
        classify(st, write, vec![scalar_type(ScalarKind::Uint, 4), tail]),
        Ok(BindingType::Buffer {
            ty: BufferBindingType::Storage { read_only: false },
            has_dynamic_offset: false,
            min_binding_size: None,
        })
    );
}

#[test]
fn a_buffer_outside_uniform_and_storage_is_refused() {
    assert_eq!(
        classify(scalar_type(ScalarKind::Float, 4), AddressSpace::Handle, vec![]),
        Err(ReflectionError::UnsupportedAddressSpace)
    );
}

fn image(dim: ImageDimension, class: ImageClass) -> Type {
    Type { name: None, inner: TypeInner::Image { dim, arrayed: false, class }, size: 0, alignment: 1 }
}

#[test]
fn images_are_textures() {
    assert_eq!(
        classify(
            image(ImageDimension::D2, ImageClass::Sampled { kind: ScalarKind::Float, multi: false }),
            AddressSpace::Handle,
            vec![]
        ),
        Ok(BindingType::Texture {
            sample_type: TextureSampleType::Float { filterable: true },
            view_dimension: TextureViewDimension::D2,
            multisampled: false,
        })
    );
    assert_eq!(
        classify(
            image(ImageDimension::D3, ImageClass::Sampled { kind: ScalarKind::Sint, multi: true }),
            AddressSpace::Handle,
            vec![]
        ),
        Ok(BindingType::Texture {
            sample_type: TextureSampleType::Sint,
            view_dimension: TextureViewDimension::D3,
            multisampled: true,
        })
    );
    assert_eq!(
        classify(
            image(ImageDimension::D1, ImageClass::Sampled { kind: ScalarKind::Uint, multi: false }),
            AddressSpace::Handle,
            vec![]
        ),
        Ok(BindingType::Texture {
            sample_type: TextureSampleType::Uint,
            view_dimension: TextureViewDimension::D1,
            multisampled: false,
        })
    );
    assert_eq!(
        classify(
            image(ImageDimension::Cube, ImageClass::Depth { multi: false }),
            AddressSpace::Handle,
            vec![]
        ),
        Ok(BindingType::Texture {
            sample_type: TextureSampleType::Depth,
            view_dimension: TextureViewDimension::Cube,
            multisampled: false,
        })
    );
    assert_eq!(
        classify(
            image(ImageDimension::D2, ImageClass::Sampled { kind: ScalarKind::Bool, multi: false }),
            AddressSpace::Handle,
            vec![]
        ),
        Err(ReflectionError::UnsupportedSampleType)
    );
}

#[test]
fn storage_images_are_storage_textures() {
    let storage = |load, store| ImageClass::Storage {
        format: "Rgba8Unorm".to_string(),
        access: StorageAccess { load, store },
    };
    assert_eq!(
        classify(image(ImageDimension::D2, storage(false, true)), AddressSpace::Handle, vec![]),
        Ok(BindingType::StorageTexture {
            access: StorageTextureAccess::WriteOnly,
            format: "Rgba8Unorm".to_string(),
            view_dimension: TextureViewDimension::D2,
        })
    );
    assert_eq!(
        classify(image(ImageDimension::D2, storage(false, false)), AddressSpace::Handle, vec![]),
        Err(ReflectionError::UnsupportedStorageAccess)
    );
}

#[test]
fn samplers_are_comparison_or_filtering() {
    let sampler = |comparison| Type {
        name: None,
        inner: TypeInner::Sampler { comparison },
        size: 0,
        alignment: 1,
    };
    assert_eq!(
        classify(sampler(true), AddressSpace::Handle, vec![]),
        Ok(BindingType::Sampler(SamplerBindingType::Comparison))
    );
    assert_eq!(
        classify(sampler(false), AddressSpace::Handle, vec![]),
        Ok(BindingType::Sampler(SamplerBindingType::Filtering))
    );
}

#[test]
fn other_types_have_no_kind_of_binding() {
    assert_eq!(
        classify(vector_type(VectorSize::Quad, ScalarKind::Float, 4), AddressSpace::Uniform, vec![]),
        Err(ReflectionError::UnsupportedBindingType)
    );
    let atomic = Type {
        name: None,
        inner: TypeInner::Atomic(Scalar { kind: ScalarKind::Uint, width: 4 }),
        size: 4,
        alignment: 4,
    };
    assert_eq!(
        classify(atomic, AddressSpace::Uniform, vec![]),
        Err(ReflectionError::UnsupportedBindingType)
    );
}

#[test]
fn vertex_formats_follow_the_table() {
    let (float, sint, uint) = (ScalarKind::Float, ScalarKind::Sint, ScalarKind::Uint);
    let (bi, tri, quad) = (VectorSize::Bi, VectorSize::Tri, VectorSize::Quad);
    let scalars = [
        (sint, 4, VertexFormat::Sint32),
        (uint, 4, VertexFormat::Uint32),
        (float, 4, VertexFormat::Float32),
        (float, 8, VertexFormat::Float64),
    ];
    for (kind, width, format) in scalars {
        assert_eq!(vertex_format(&scalar_type(kind, width)), Ok(format));
    }
    let vectors = [
        (bi, sint, 1, VertexFormat::Sint8x2),
        (bi, uint, 1, VertexFormat::Uint8x2),
        (bi, sint, 2, VertexFormat::Sint16x2),
        (bi, uint, 2, VertexFormat::Uint16x2),
        (bi, uint, 4, VertexFormat::Uint32x2),
        (bi, sint, 4, VertexFormat::Sint32x2),
        (bi, float, 4, VertexFormat::Float32x2),
        (bi, float, 8, VertexFormat::Float64x2),
        (tri, uint, 4, VertexFormat::Uint32x3),
        (tri, sint, 4, VertexFormat::Sint32x3),
        (tri, float, 4, VertexFormat::Float32x3),
        (tri, float, 8, VertexFormat::Float64x3),
        (quad, sint, 1, VertexFormat::Sint8x4),
        (quad, uint, 1, VertexFormat::Uint8x4),
        (quad, sint, 2, VertexFormat::Sint16x4),
        (quad, uint, 2, VertexFormat::Uint16x4),
        (quad, uint, 4, VertexFormat::Uint32x4),
        (quad, sint, 4, VertexFormat::Sint32x4),
        (quad, float, 4, VertexFormat::Float32x4),
        (quad, float, 8, VertexFormat::Float64x4),
    ];
    for (size, kind, width, format) in vectors {
        assert_eq!(vertex_format(&vector_type(size, kind, width)), Ok(format));
    }
}

#[test]
fn types_outside_the_table_have_no_vertex_format() {
    let refused = [
        scalar_type(ScalarKind::Bool, 1),
        scalar_type(ScalarKind::Sint, 2),
        scalar_type(ScalarKind::Uint, 8),
        scalar_type(ScalarKind::Float, 2),
        vector_type(VectorSize::Tri, ScalarKind::Sint, 1),
        vector_type(VectorSize::Tri, ScalarKind::Uint, 2),
        vector_type(VectorSize::Bi, ScalarKind::Float, 2),
        vector_type(VectorSize::Quad, ScalarKind::Bool, 1),
        struct_type("S", vec![], 0, 1),
    ];
    for ty in refused {
        assert_eq!(vertex_format(&ty), Err(ReflectionError::UnsupportedVertexFormat));
    }
}

fn vertex_module() -> Module {
    let types = vec![
        vector_type(VectorSize::Tri, ScalarKind::Float, 4),
        vector_type(VectorSize::Bi, ScalarKind::Float, 4),
        scalar_type(ScalarKind::Uint, 4),
        struct_type(
            "VertexInput",
            vec![
                member("index", 2, Some(Binding::BuiltIn), 0),
                member("position", 0, Some(Binding::Location { location: 0 }), 16),
                member("uv", 1, Some(Binding::Location { location: 3 }), 32),
                member("plain", 2, None, 40),
            ],
            48,
            16,
        ),
        struct_type(
            "Camera",
            vec![member("scale", 2, None, 0), member("origin", 0, None, 16)],
            32,
            16,
        ),
        struct_type(
            "Targets",
            vec![
                member("color", 0, Some(Binding::Location { location: 0 }), 0),
                member("depth", 2, Some(Binding::BuiltIn), 12),
                member("normal", 0, Some(Binding::Location { location: 1 }), 16),
            ],
            32,
            16,
        ),
        struct_type("Instance", vec![member("id", 2, Some(Binding::Location { location: 4 }), 0)], 4, 4),
    ];
    let mut vs = entry("vs_main", ShaderStage::Vertex, vec![3, 2, 6, 0], None);
    vs.arguments[1].binding = Some(Binding::BuiltIn);
    Module {
        types,
        global_variables: vec![global("camera", 0, 0, 4, AddressSpace::Uniform)],
        entry_points: vec![
            entry("fs_main", ShaderStage::Fragment, vec![], Some(FunctionResult { ty: 5, binding: None })),
            vs,
            entry("vs_other", ShaderStage::Vertex, vec![4], None),
        ],
        overrides: vec![],
    }
}

#[test]
fn the_vertex_inputs_are_the_structs_of_the_first_vertex_entry_point() {
    let module = vertex_module();
    assert!(module.is_well_formed());
    let inputs = get_vertex_input_structs(&module);
    assert_eq!(inputs.len(), 2);
    assert_eq!(inputs[0].name, Some("VertexInput".to_string()));
    assert_eq!(inputs[0].ty, 3);
    assert_eq!(inputs[0].fields, vec![(0, 1), (3, 2)]);
    assert_eq!(inputs[1].name, Some("Instance".to_string()));
    assert_eq!(inputs[1].fields, vec![(4, 0)]);
    let attributes = vertex_attributes(&inputs[0], &module).unwrap();
    assert_eq!(attributes.len(), 2);
    assert_eq!(
        (attributes[0].location, attributes[0].format, attributes[0].member),
        (0, VertexFormat::Float32x3, 1)
    );
    assert_eq!(
        (attributes[1].location, attributes[1].format, attributes[1].member),
        (3, VertexFormat::Float32x2, 2)
    );
}

#[test]
fn a_module_without_a_vertex_entry_point_has_no_vertex_inputs() {
    let mut module = vertex_module();
    module.entry_points.truncate(1);
    assert_eq!(get_vertex_input_structs(&module).len(), 0);
}

#[test]
fn a_vertex_attribute_without_a_format_is_refused() {
    let mut module = vertex_module();
    module.types[1] = scalar_type(ScalarKind::Bool, 1);
    let inputs = get_vertex_input_structs(&module);
    assert_eq!(
        vertex_attributes(&inputs[0], &module),
        Err(ReflectionError::UnsupportedVertexFormat)
    );
}

#[test]
fn the_render_targets_are_the_located_results() {
    let module = vertex_module();
    assert_eq!(fragment_target_count(&module, &module.entry_points[0]), 2);
    let located = entry(
        "f",
        ShaderStage::Fragment,
        vec![],
        Some(FunctionResult { ty: 0, binding: Some(Binding::Location { location: 0 }) }),
    );
    assert_eq!(fragment_target_count(&module, &located), 1);
    let built_in = entry(
        "f",
        ShaderStage::Fragment,
        vec![],
        Some(FunctionResult { ty: 2, binding: Some(Binding::BuiltIn) }),
    );
    assert_eq!(fragment_target_count(&module, &built_in), 0);
    let bare = entry("f", ShaderStage::Fragment, vec![], Some(FunctionResult { ty: 0, binding: None }));
    assert_eq!(fragment_target_count(&module, &bare), 0);
    assert_eq!(fragment_target_count(&module, &entry("f", ShaderStage::Fragment, vec![], None)), 0);
}

#[test]
fn fields_lie_at_multiples_of_their_alignment() {
    let layout = layout_fields(&vec![(4, 4), (12, 16)], None);
    assert_eq!(layout.offsets, vec![0, 16]);
    assert_eq!(layout.alignment, 16);
    assert_eq!(layout.size, 32);
    let layout = layout_fields(&vec![(12, 16), (4, 4), (8, 8), (1, 1)], None);
    assert_eq!(layout.offsets, vec![0, 12, 16, 24]);
    assert_eq!(layout.alignment, 16);
    assert_eq!(layout.size, 32);
    let layout = layout_fields(&vec![(4, 4)], Some(256));
    assert_eq!(layout.offsets, vec![0]);
    assert_eq!(layout.alignment, 256);
    assert_eq!(layout.size, 256);
    let layout = layout_fields(&vec![], None);
    assert_eq!(layout.offsets, Vec::<u128>::new());
    assert_eq!(layout.alignment, 1);
    assert_eq!(layout.size, 0);
    let layout = layout_fields(&vec![(3, 0), (5, 0)], None);
    assert_eq!(layout.offsets, vec![0, 3]);
    assert_eq!(layout.size, 8);
    let layout = layout_fields(&vec![(u32::MAX, 1 << 31), (u32::MAX, 1 << 31), (1, 1)], None);
    assert_eq!(layout.offsets, vec![0, 1 << 32, (1u128 << 33) - 1]);
    assert_eq!(layout.size, 1u128 << 33);
}

#[test]
fn the_types_of_global_variables_are_found_through_what_they_hold() {
    let types = vec![
        scalar_type(ScalarKind::Float, 4),
        struct_type("Inner", vec![member("x", 0, None, 0)], 4, 4),
        Type {
            name: None,
            inner: TypeInner::Array { base: 1, size: ArraySize::Constant(2), stride: 4 },
            size: 8,
            alignment: 4,
        },
        struct_type("Outer", vec![member("items", 2, None, 0)], 8, 4),
        Type {
            name: None,
            inner: TypeInner::Pointer { base: 3, space: AddressSpace::Function },
            size: 0,
            alignment: 1,
        },
        struct_type("Unused", vec![member("y", 6, None, 0)], 4, 4),
        scalar_type(ScalarKind::Uint, 4),
        Type {
            name: None,
            inner: TypeInner::BindingArray { base: 8, size: ArraySize::Constant(4) },
            size: 0,
            alignment: 1,
        },
        Type { name: None, inner: TypeInner::Sampler { comparison: false }, size: 0, alignment: 1 },
        struct_type("Loop", vec![member("again", 9, None, 0), member("z", 10, None, 0)], 4, 4),
        scalar_type(ScalarKind::Sint, 4),
    ];
    let module = module_of(
        types,
        vec![unbound("p", 4), global("samplers", 0, 0, 7, AddressSpace::Handle), unbound("l", 9)],
    );
    assert!(module.is_well_formed());
    assert_eq!(
        global_variable_types(&module),
        vec![true, true, true, true, true, false, false, true, true, true, true]
    );
    let none = module_of(module.types.clone(), vec![]);
    assert_eq!(global_variable_types(&none), vec![false; 11]);
}

#[test]
fn handles_outside_the_module_are_found() {
    let mut module = vertex_module();
    assert!(module.is_well_formed());
    module.global_variables.push(unbound("bad", 7));
    assert!(!module.is_well_formed());
    let mut module = vertex_module();
    module.types.push(struct_type("Bad", vec![member("m", 99, None, 0)], 4, 4));
    assert!(!module.is_well_formed());
    let mut module = vertex_module();
    module.entry_points[1].arguments[0].ty = 7;
    assert!(!module.is_well_formed());
    let mut module = vertex_module();
    module.entry_points[0].result = Some(FunctionResult { ty: 7, binding: None });
    assert!(!module.is_well_formed());
    let mut module = vertex_module();
    module.overrides.push(Override { name: "o".to_string(), id: None, ty: 7, has_default: false });
    assert!(!module.is_well_formed());
}

#[test]
fn a_struct_is_shared_with_the_host_where_a_global_variable_uses_it() {
    let module = vertex_module();
    let items = structs_items(&module, &default_options());
    let names: Vec<_> = items.iter().map(|d| d.name.clone().unwrap()).collect();
    assert_eq!(names, vec!["VertexInput", "Camera", "Instance"]);
    assert!(!items[0].is_host_shareable);
    assert!(items[0].layout.is_none());
    assert!(items[1].is_host_shareable);
    assert!(!items[2].is_host_shareable);
    let layout = items[1].layout.as_ref().unwrap();
    assert_eq!(layout.offsets, vec![0, 16]);
    assert_eq!(layout.size, 32);
    assert_eq!(layout.alignment, 16);
    assert_eq!(items[1].fields.len(), 2);
    assert_eq!(items[1].fields[1].name, Some("origin".to_string()));
    assert_eq!((items[1].fields[1].size, items[1].fields[1].align), (12, 16));
    assert_eq!(items[1].fields[1].ty, 0);
    assert!(!items[1].fields[1].is_padding);
    assert!(!items[1].has_trailing_dynamic_array);
    assert_eq!(items[0].fields.len(), 4);
}

#[test]
fn a_struct_that_an_entry_point_returns_is_left_out_unless_a_global_variable_uses_it() {
    let mut module = vertex_module();
    module.entry_points[0].result = Some(FunctionResult { ty: 6, binding: None });
    let names: Vec<_> = structs_items(&module, &default_options())
        .iter()
        .map(|d| d.name.clone().unwrap())
        .collect();
    assert_eq!(names, vec!["VertexInput", "Camera"]);
    module.entry_points[0].result = Some(FunctionResult { ty: 4, binding: None });
    let names: Vec<_> = structs_items(&module, &default_options())
        .iter()
        .map(|d| d.name.clone().unwrap())
        .collect();
    assert_eq!(names, vec!["VertexInput", "Camera", "Instance"]);
}

#[test]
fn a_struct_that_is_taken_from_elsewhere_is_left_out() {
    let module = vertex_module();
    let mut builder = WgslBindgenOptionBuilder::new();
    builder.add_override_struct_mapping(wgsl_bindgen::OverrideStruct {
        from: "Camera".to_string(),
        to: "crate::Camera".to_string(),
    });
    let options = builder.build();
    assert_eq!(
        options.type_map.get(&WgslType::Struct { fully_qualified_name: "Camera".to_string() }),
        Some("crate::Camera".to_string())
    );
    let names: Vec<_> =
        structs_items(&module, &options).iter().map(|d| d.name.clone().unwrap()).collect();
    assert_eq!(names, vec!["VertexInput", "Instance"]);
}

#[test]
fn padding_fields_and_told_alignments_are_picked_by_pattern() {
    let mut module = vertex_module();
    module.types.push(struct_type(
        "Wrapper",
        vec![member("_pad0", 2, None, 0), member("camera", 4, None, 16), member("pad", 2, None, 48)],
        64,
        16,
    ));
    module.global_variables.push(global("wrapper", 0, 1, 7, AddressSpace::Uniform));
    let mut builder = WgslBindgenOptionBuilder::new();
    builder.add_custom_padding_field_regexp("^_pad".to_string());
    builder.add_custom_padding_field_regexp("(unclosed".to_string());
    builder.override_struct_field_type = Some(vec![
        ("(unclosed", "camera", "Broken").into(),
        ("^Wrap", "^x$", "Never").into(),
        ("^Wrap", "cam", "crate::Camera").into(),
        ("Wrapper", "camera", "crate::Later").into(),
        ("Camera", "origin", "glam::Vec3").into(),
    ]);
    builder.override_struct_alignment = Some(vec![
        OverrideStructAlignment { struct_regex: "(unclosed".to_string(), alignment: 8 },
        OverrideStructAlignment { struct_regex: "^Cam".to_string(), alignment: 64 },
        OverrideStructAlignment { struct_regex: "Camera".to_string(), alignment: 128 },
    ]);
    let items = structs_items(&module, &builder.build());
    let camera = items.iter().find(|d| d.name.as_deref() == Some("Camera")).unwrap();
    let layout = camera.layout.as_ref().unwrap();
    assert_eq!((layout.alignment, layout.size), (64, 64));
    assert_eq!(layout.offsets, vec![0, 16]);
    assert_eq!(camera.fields[0].override_type, None);
    assert_eq!(camera.fields[1].override_type, Some("glam::Vec3".to_string()));
    let wrapper = items.iter().find(|d| d.name.as_deref() == Some("Wrapper")).unwrap();
    let padding: Vec<_> = wrapper.fields.iter().map(|f| f.is_padding).collect();
    assert_eq!(padding, vec![true, false, false]);
    let told: Vec<_> = wrapper.fields.iter().map(|f| f.override_type.clone()).collect();
    assert_eq!(told, vec![None, Some("crate::Camera".to_string()), None]);
    assert_eq!(wrapper.fields[1].align, 64);
    let layout = wrapper.layout.as_ref().unwrap();
    assert_eq!(layout.offsets, vec![0, 64, 96]);
    assert_eq!((layout.alignment, layout.size), (64, 128));
}

#[test]
fn a_struct_with_an_array_of_unknown_length_is_marked() {
    let types = vec![
        scalar_type(ScalarKind::Uint, 4),
        Type {
            name: None,
            inner: TypeInner::Array { base: 0, size: ArraySize::Dynamic, stride: 4 },
            size: 4,
            alignment: 4,
        },
        struct_type("List", vec![member("count", 0, None, 0), member("items", 1, None, 4)], 8, 4),
        struct_type("Fixed", vec![member("count", 0, None, 0)], 4, 4),
    ];
    let access = AddressSpace::Storage { access: StorageAccess { load: true, store: false } };
    let module = module_of(
        types,
        vec![global("list", 0, 0, 2, access), global("fixed", 0, 1, 3, AddressSpace::Uniform)],
    );
    let items = structs_items(&module, &default_options());
    assert_eq!(items.len(), 2);
    assert!(items[0].has_trailing_dynamic_array);
    assert!(!items[1].has_trailing_dynamic_array);
    if let TypeInner::Struct { members, .. } = &module.types[2].inner {
        assert!(struct_has_rts_array_member(members, &module));
    }
}

#[test]
fn overridable_constants_are_known_by_id_or_name() {
    let mut module = module_of(
        vec![scalar_type(ScalarKind::Bool, 1), scalar_type(ScalarKind::Float, 4)],
        vec![],
    );
    module.overrides = vec![
        Override { name: "flag".to_string(), id: None, ty: 0, has_default: false },
        Override { name: "scale".to_string(), id: Some(7), ty: 1, has_default: true },
        Override { name: "zero".to_string(), id: Some(0), ty: 1, has_default: false },
        Override { name: "top".to_string(), id: Some(65535), ty: 1, has_default: false },
    ];
    assert_eq!(override_key(&module.overrides[0]), "flag");
    assert_eq!(override_key(&module.overrides[1]), "7");
    let constants = pipeline_overridable_constants(&module);
    let keys: Vec<_> = constants.iter().map(|c| c.key.clone()).collect();
    assert_eq!(keys, vec!["flag", "7", "0", "65535"]);
    let names: Vec<_> = constants.iter().map(|c| c.name.clone()).collect();
    assert_eq!(names, vec!["flag", "scale", "zero", "top"]);
    assert_eq!(
        constants.iter().map(|c| (c.has_default, c.is_bool)).collect::<Vec<_>>(),
        vec![(false, true), (true, false), (false, false), (false, false)]
    );
}

#[test]
fn the_binding_model_puts_the_passes_together() {
    let mut module = vertex_module();
    module.overrides =
        vec![Override { name: "gamma".to_string(), id: None, ty: 2, has_default: true }];
    let model = create_binding_model("my-shader.v2", &module, &default_options()).unwrap();
    assert_eq!(model.module_name, "my-shader.v2");
    assert_eq!(model.entry_name, "Myshaderv2");
    assert_eq!(model.stages, ShaderStages { vertex: true, fragment: true, compute: false });
    assert_eq!(model.bind_groups.len(), 1);
    assert_eq!(model.bind_groups[0].len(), 1);
    assert_eq!(model.bind_groups[0][0].name, Some("camera".to_string()));
    assert_eq!(model.bind_groups[0][0].visibility, model.stages);
    assert_eq!(
        model.bind_groups[0][0].ty,
        BindingType::Buffer {
            ty: BufferBindingType::Uniform,
            has_dynamic_offset: false,
            min_binding_size: Some(32),
        }
    );
    assert_eq!(model.structs.len(), 3);
    assert_eq!(model.vertex_inputs.len(), 2);
    assert_eq!(model.vertex_inputs[0].input.name, Some("VertexInput".to_string()));
    assert_eq!(model.vertex_inputs[0].attributes.len(), 2);
    assert_eq!(model.vertex_inputs[1].input.name, Some("Instance".to_string()));
    assert_eq!(model.vertex_inputs[1].attributes[0].format, VertexFormat::Uint32);
    assert_eq!(model.overridable_constants.len(), 1);
    assert_eq!(model.overridable_constants[0].key, "gamma");
    let entries: Vec<_> = model
        .entry_points
        .iter()
        .map(|e| (e.name.as_str(), e.constant_name.as_str(), e.stage, e.target_count))
        .collect();
    assert_eq!(
        entries,
        vec![
            ("fs_main", "ENTRY_FS_MAIN", ShaderStage::Fragment, 2),
            ("vs_main", "ENTRY_VS_MAIN", ShaderStage::Vertex, 0),
            ("vs_other", "ENTRY_VS_OTHER", ShaderStage::Vertex, 0),
        ]
    );
}

#[test]
fn the_binding_model_reports_the_groups_first() {
    let mut module = vertex_module();
    module.types[1] = scalar_type(ScalarKind::Bool, 1);
    assert_eq!(
        create_binding_model("m", &module, &default_options()).unwrap_err(),
        ModelError::Reflection(ReflectionError::UnsupportedVertexFormat)
    );
    module.global_variables.push(global("tex", 0, 1, 0, AddressSpace::Handle));
    assert_eq!(
        create_binding_model("m", &module, &default_options()).unwrap_err(),
        ModelError::Reflection(ReflectionError::UnsupportedBindingType)
    );
    module.global_variables.push(global("far", 2, 0, 4, AddressSpace::Uniform));
    assert_eq!(
        create_binding_model("m", &module, &default_options()).unwrap_err(),
        ModelError::Groups(CreateModuleError::NonConsecutiveBindGroups)
    );
    module.global_variables.push(global("dup", 0, 0, 4, AddressSpace::Uniform));
    assert_eq!(
        create_binding_model("m", &module, &default_options()).unwrap_err(),
        ModelError::Groups(CreateModuleError::DuplicateBinding { binding: 0 })
    );
}

#[test]
fn only_the_compute_stage_alone_makes_a_compute_pass() {
    let stages = |vertex, fragment, compute| ShaderStages { vertex, fragment, compute };
    assert!(stages(false, false, true).is_compute_only());
    assert!(!stages(true, false, true).is_compute_only());
    assert!(!stages(false, true, true).is_compute_only());
    assert!(!stages(false, false, false).is_compute_only());
    assert!(!stages(true, true, false).is_compute_only());
}
