//! Bindings between a WGSL shader module and the host: a preprocessor for the
//! shader's source text, and the binding model that is derived from the
//! module's declarations.

pub mod bind_group;
pub mod consts;
pub mod defines;
pub mod ifdefs;
pub mod imports;
pub mod ir;
pub mod keyed;
pub mod layout;
pub mod model;
pub mod names;
pub mod options;
pub mod patterns;
pub mod reach;
pub mod structs;
pub mod symbolic;
pub mod text;
pub mod types;
pub mod vertex;
pub mod wgsl;

pub use bind_group::{get_bind_group_data, CreateModuleError, GroupBinding, GroupData};
pub use consts::{override_key, pipeline_overridable_constants, OverridableConstant};
pub use defines::DefineTable;
pub use ifdefs::{
    fully_preprocess, preprocess_resolve_ifdefs, preprocess_resolve_ifdefs_implementation,
    PreprocessError, Resolved,
};
pub use imports::{
    preprocess_resolve_imports, preprocess_resolve_imports_recursively, MAX_RECURSION,
};
pub use model::{create_binding_model, BindingModel, ModelError};
pub use names::{
    entry_point_constants, header_texts, indexed_name, module_name, sanitize_and_pascal_case,
    sanitized_upper_snake_case, step_mode_name,
};
pub use options::{
    AdditionalScanDirectory, BindGroupLayoutGenerator, BindingGenerator,
    GetBindingsGeneratorConfig, OverrideStruct, OverrideStructAlignment, OverrideStructFieldType,
    PipelineLayoutGenerator, WgslBindgenOption, WgslBindgenOptionBuilder,
};
pub use structs::{structs_items, FieldDescriptor, StructDescriptor};
pub use symbolic::SymbolicBindingTable;
pub use types::{
    GlamWgslTypeMap, RustWgslTypeMap, WgslMatType, WgslType, WgslTypeMap, WgslTypeMapBuild,
    WgslVecType,
};
pub use vertex::{
    fragment_target_count, get_vertex_input_structs, vertex_attributes, vertex_format,
    VertexAttribute, VertexInput,
};
pub use wgsl::{
    bind_group_layout_entry, buffer_binding_type, shader_stages, storage_access,
    BindGroupLayoutEntry, BindingType, BufferBindingType, ReflectionError, SamplerBindingType,
    ShaderStages, StorageTextureAccess, TextureSampleType, TextureViewDimension, VertexFormat,
};
