//! What a caller can set: where sources are looked for, which structs and
//! fields are treated specially, and how the generated bindings are named.

use crate::text::{chars_of, decimal, push_all, push_decimal, string_of};
use crate::types::{TypeMapping, WgslType, WgslTypeKey, WgslTypeMap, WgslTypeMapBuild};
use vstd::prelude::*;

verus! {

/// A directory that is scanned for further sources, and the root under which
/// its modules are imported.
#[derive(Debug, Clone, Default)]
pub struct AdditionalScanDirectory {
    pub module_import_root: Option<String>,
    pub directory: String,
}

/// The text of an optional string slice.
pub open spec fn text_of(s: Option<&str>) -> Option<Seq<char>> {
    match s {
        Some(t) => Some(t@),
        None => None,
    }
}

/// The text of an optional string.
pub open spec fn string_text_of(s: Option<String>) -> Option<Seq<char>> {
    match s {
        Some(t) => Some(t@),
        None => None,
    }
}

impl AdditionalScanDirectory {
    /// The directory with its import root.
    pub fn new(module_import_root: Option<&str>, directory: &str) -> (r: AdditionalScanDirectory)
        ensures
            string_text_of(r.module_import_root) == text_of(module_import_root),
            r.directory@ == directory@,
    {
        AdditionalScanDirectory {
            module_import_root: match module_import_root {
                Some(root) => Some(string_of(&chars_of(root))),
                None => None,
            },
            directory: string_of(&chars_of(directory)),
        }
    }
}

impl From<(Option<&str>, &str)> for AdditionalScanDirectory {
    fn from(v: (Option<&str>, &str)) -> (r: AdditionalScanDirectory)
        ensures
            string_text_of(r.module_import_root) == text_of(v.0),
            r.directory@ == v.1@,
    {
        AdditionalScanDirectory::new(v.0, v.1)
    }
}

impl vstd::std_specs::convert::FromSpecImpl<(Option<&str>, &str)> for AdditionalScanDirectory {
    open spec fn obeys_from_spec() -> bool {
        false
    }

    open spec fn from_spec(v: (Option<&str>, &str)) -> AdditionalScanDirectory {
        arbitrary()
    }
}

/// A struct of the shader that is not generated but taken from elsewhere.
#[derive(Clone, Debug)]
pub struct OverrideStruct {
    /// The fully qualified name of the struct in the shader.
    pub from: String,
    /// The path of the type that stands for it.
    pub to: String,
}

impl OverrideStruct {
    /// The struct of the name `from`, taken from the path `to`.
    pub fn new(from: &str, to: &str) -> (r: OverrideStruct)
        ensures
            r.from@ == from@,
            r.to@ == to@,
    {
        OverrideStruct { from: string_of(&chars_of(from)), to: string_of(&chars_of(to)) }
    }
}

impl From<(&str, &str)> for OverrideStruct {
    fn from(v: (&str, &str)) -> (r: OverrideStruct)
        ensures
            r.from@ == v.0@,
            r.to@ == v.1@,
    {
        OverrideStruct::new(v.0, v.1)
    }
}

impl vstd::std_specs::convert::FromSpecImpl<(&str, &str)> for OverrideStruct {
    open spec fn obeys_from_spec() -> bool {
        false
    }

    open spec fn from_spec(v: (&str, &str)) -> OverrideStruct {
        arbitrary()
    }
}

/// A type that the fields picked by the two patterns are given.
#[derive(Clone, Debug)]
pub struct OverrideStructFieldType {
    pub struct_regex: String,
    pub field_regex: String,
    pub override_type: String,
}

impl OverrideStructFieldType {
    /// The type `override_type` for the fields that `field_regex` picks in
    /// the structs that `struct_regex` picks.
    pub fn new(struct_regex: &str, field_regex: &str, override_type: &str) -> (r:
        OverrideStructFieldType)
        ensures
            r.struct_regex@ == struct_regex@,
            r.field_regex@ == field_regex@,
            r.override_type@ == override_type@,
    {
        OverrideStructFieldType {
            struct_regex: string_of(&chars_of(struct_regex)),
            field_regex: string_of(&chars_of(field_regex)),
            override_type: string_of(&chars_of(override_type)),
        }
    }
}

impl From<(&str, &str, &str)> for OverrideStructFieldType {
    fn from(v: (&str, &str, &str)) -> (r: OverrideStructFieldType)
        ensures
            r.struct_regex@ == v.0@,
            r.field_regex@ == v.1@,
            r.override_type@ == v.2@,
    {
        OverrideStructFieldType::new(v.0, v.1, v.2)
    }
}

impl vstd::std_specs::convert::FromSpecImpl<(&str, &str, &str)> for OverrideStructFieldType {
    open spec fn obeys_from_spec() -> bool {
        false
    }

    open spec fn from_spec(v: (&str, &str, &str)) -> OverrideStructFieldType {
        arbitrary()
    }
}

/// An alignment that the structs picked by the pattern are given.
#[derive(Clone, Debug)]
pub struct OverrideStructAlignment {
    pub struct_regex: String,
    pub alignment: u16,
}

impl OverrideStructAlignment {
    /// The alignment for the structs that `struct_regex` picks.
    pub fn new(struct_regex: &str, alignment: u16) -> (r: OverrideStructAlignment)
        ensures
            r.struct_regex@ == struct_regex@,
            r.alignment == alignment,
    {
        OverrideStructAlignment { struct_regex: string_of(&chars_of(struct_regex)), alignment }
    }
}

impl From<(&str, u16)> for OverrideStructAlignment {
    fn from(v: (&str, u16)) -> (r: OverrideStructAlignment)
        ensures
            r.struct_regex@ == v.0@,
            r.alignment == v.1,
    {
        OverrideStructAlignment::new(v.0, v.1)
    }
}

impl vstd::std_specs::convert::FromSpecImpl<(&str, u16)> for OverrideStructAlignment {
    open spec fn obeys_from_spec() -> bool {
        false
    }

    open spec fn from_spec(v: (&str, u16)) -> OverrideStructAlignment {
        arbitrary()
    }
}

/// How the bind groups of one kind of binding are named and typed.
#[derive(Clone, Debug)]
pub struct BindGroupLayoutGenerator {
    pub name_prefix: String,
    pub uses_lifetime: bool,
    pub entry_struct_type: String,
}

impl BindGroupLayoutGenerator {
    /// The name of the bind group of the index: the prefix and the index.
    pub fn bind_group_name(&self, group_index: u32) -> (r: String)
        ensures
            r@ == self.name_prefix@ + decimal(group_index as nat),
    {
        let mut out = chars_of(self.name_prefix.as_str());
        push_decimal(&mut out, group_index);
        string_of(&out)
    }

    /// The name of the struct that holds the entries of the bind group.
    pub fn bind_group_entries_struct_name(&self, group_index: u32) -> (r: String)
        ensures
            r@ == self.name_prefix@ + decimal(group_index as nat) + "Entries"@,
    {
        let mut out = chars_of(self.name_prefix.as_str());
        push_decimal(&mut out, group_index);
        push_all(&mut out, &chars_of("Entries"));
        string_of(&out)
    }
}

/// How the pipeline layout of one kind of binding is named and typed.
#[derive(Clone, Debug)]
pub struct PipelineLayoutGenerator {
    pub layout_name: String,
    pub bind_group_layout_type: String,
}

/// How the bindings of one kind are generated.
#[derive(Clone, Debug)]
pub struct BindingGenerator {
    pub bind_group_layout: BindGroupLayoutGenerator,
    pub pipeline_layout: PipelineLayoutGenerator,
}

impl BindingGenerator {
    /// The generator of the bindings that `wgpu` takes.
    pub fn wgpu() -> (r: BindingGenerator)
        ensures
            r.bind_group_layout.name_prefix@ == "WgpuBindGroup"@,
            r.bind_group_layout.uses_lifetime,
            r.bind_group_layout.entry_struct_type@ == "wgpu::BindGroupEntry<'a>"@,
            r.pipeline_layout.layout_name@ == "WgpuPipelineLayout"@,
            r.pipeline_layout.bind_group_layout_type@ == "wgpu::BindGroupLayout"@,
    {
        BindingGenerator {
            bind_group_layout: BindGroupLayoutGenerator {
                name_prefix: string_of(&chars_of("WgpuBindGroup")),
                uses_lifetime: true,
                entry_struct_type: string_of(&chars_of("wgpu::BindGroupEntry<'a>")),
            },
            pipeline_layout: PipelineLayoutGenerator {
                layout_name: string_of(&chars_of("WgpuPipelineLayout")),
                bind_group_layout_type: string_of(&chars_of("wgpu::BindGroupLayout")),
            },
        }
    }
}

/// What gives the generator of a kind of bindings.
pub trait GetBindingsGeneratorConfig {
    fn get_generator_config(self) -> BindingGenerator;
}

impl GetBindingsGeneratorConfig for BindingGenerator {
    fn get_generator_config(self) -> (r: BindingGenerator)
        ensures
            r == self,
    {
        self
    }
}

/// The settings under which bindings are generated.
#[derive(Debug)]
pub struct WgslBindgenOption {
    /// Whether the generated structs can be serialized.
    pub derive_serde: bool,
    /// The host types of built-in types and of structs taken from elsewhere.
    pub type_map: WgslTypeMap,
    pub override_struct: Vec<OverrideStruct>,
    pub override_struct_field_type: Vec<OverrideStructFieldType>,
    /// Alignments for the structs that a pattern picks; the first pattern that
    /// picks a struct decides.
    pub override_struct_alignment: Vec<OverrideStructAlignment>,
    /// The patterns of the names of padding fields.
    pub custom_padding_field_regexps: Vec<String>,
    pub always_generate_init_struct: bool,
    pub impl_zeroable_for_init_structs: bool,
    pub extra_binding_generator: Option<BindingGenerator>,
    pub wgpu_binding_generator: BindingGenerator,
}

/// The settings as far as they were made; what was not set gets its default
/// when the settings are built.
pub struct WgslBindgenOptionBuilder {
    pub derive_serde: Option<bool>,
    pub type_map: Option<WgslTypeMap>,
    pub override_struct: Option<Vec<OverrideStruct>>,
    pub override_struct_field_type: Option<Vec<OverrideStructFieldType>>,
    pub override_struct_alignment: Option<Vec<OverrideStructAlignment>>,
    pub custom_padding_field_regexps: Option<Vec<String>>,
    pub always_generate_init_struct: Option<bool>,
    pub impl_zeroable_for_init_structs: Option<bool>,
    pub extra_binding_generator: Option<Option<BindingGenerator>>,
    pub wgpu_binding_generator: Option<BindingGenerator>,
}

/// The mapping of a builder's type map, which is empty where none was set.
pub open spec fn mapping_of(type_map: Option<WgslTypeMap>) -> TypeMapping {
    match type_map {
        Some(m) => m@,
        None => WgslTypeMap::new_spec(),
    }
}

/// The mapping with the first `n` of the structs that are taken from
/// elsewhere, each inserted under its name.
pub open spec fn with_structs(mapping: TypeMapping, structs: Seq<OverrideStruct>, n: nat) -> TypeMapping
    decreases n,
{
    if n == 0 {
        mapping
    } else {
        with_structs(mapping, structs, (n - 1) as nat).insert(
            WgslTypeKey::Struct(structs[n - 1].from@),
            structs[n - 1].to@,
        )
    }
}

/// The structs that were set to be taken from elsewhere, none where none was
/// set.
pub open spec fn structs_of(structs: Option<Vec<OverrideStruct>>) -> Seq<OverrideStruct> {
    match structs {
        Some(v) => v@,
        None => Seq::empty(),
    }
}

impl WgslBindgenOptionBuilder {
    /// A builder with nothing set.
    pub fn new() -> (b: WgslBindgenOptionBuilder)
        ensures
            b.derive_serde is None,
            b.type_map is None,
            b.override_struct is None,
            b.override_struct_field_type is None,
            b.override_struct_alignment is None,
            b.custom_padding_field_regexps is None,
            b.always_generate_init_struct is None,
            b.impl_zeroable_for_init_structs is None,
            b.extra_binding_generator is None,
            b.wgpu_binding_generator is None,
    {
        WgslBindgenOptionBuilder {
            derive_serde: None,
            type_map: None,
            override_struct: None,
            override_struct_field_type: None,
            override_struct_alignment: None,
            custom_padding_field_regexps: None,
            always_generate_init_struct: None,
            impl_zeroable_for_init_structs: None,
            extra_binding_generator: None,
            wgpu_binding_generator: None,
        }
    }

    /// Adds the entries that `map_build` builds to the type map.
    pub fn type_map<B: WgslTypeMapBuild>(&mut self, map_build: B)
        ensures
            final(self).type_map is Some,
            old(self).type_map is None ==> mapping_of(final(self).type_map).well_formed(),
            mapping_of(old(self).type_map).well_formed() ==> mapping_of(
                final(self).type_map,
            ).well_formed(),
            final(self).derive_serde == old(self).derive_serde,
            final(self).override_struct == old(self).override_struct,
            final(self).override_struct_field_type == old(self).override_struct_field_type,
            final(self).override_struct_alignment == old(self).override_struct_alignment,
            final(self).custom_padding_field_regexps == old(self).custom_padding_field_regexps,
            final(self).always_generate_init_struct == old(self).always_generate_init_struct,
            final(self).impl_zeroable_for_init_structs == old(self).impl_zeroable_for_init_structs,
            final(self).extra_binding_generator == old(self).extra_binding_generator,
            final(self).wgpu_binding_generator == old(self).wgpu_binding_generator,
    {
        let built = map_build.build();
        self.extend_type_map(&built);
    }

    /// Inserts the entries of `map` into the type map, in their order.
    pub fn extend_type_map(&mut self, map: &WgslTypeMap)
        ensures
            final(self).type_map is Some,
            mapping_of(final(self).type_map) == mapping_of(old(self).type_map).extend(map@),
            mapping_of(old(self).type_map).well_formed() ==> mapping_of(
                final(self).type_map,
            ).well_formed(),
            final(self).derive_serde == old(self).derive_serde,
            final(self).override_struct == old(self).override_struct,
            final(self).override_struct_field_type == old(self).override_struct_field_type,
            final(self).override_struct_alignment == old(self).override_struct_alignment,
            final(self).custom_padding_field_regexps == old(self).custom_padding_field_regexps,
            final(self).always_generate_init_struct == old(self).always_generate_init_struct,
            final(self).impl_zeroable_for_init_structs == old(self).impl_zeroable_for_init_structs,
            final(self).extra_binding_generator == old(self).extra_binding_generator,
            final(self).wgpu_binding_generator == old(self).wgpu_binding_generator,
    {
        let mut merged = match self.type_map.take() {
            Some(m) => m,
            None => {
                let m = WgslTypeMap::new();
                assert(m@ =~= WgslTypeMap::new_spec());
                m
            },
        };
        merged.extend(map);
        self.type_map = Some(merged);
    }

    /// Inserts each struct that is taken from elsewhere into the type map,
    /// under its name, in the order in which they were set.
    pub fn merge_struct_type_overrides(&mut self)
        ensures
            final(self).type_map is Some,
            mapping_of(final(self).type_map) == with_structs(
                mapping_of(old(self).type_map),
                structs_of(old(self).override_struct),
                structs_of(old(self).override_struct).len(),
            ),
            mapping_of(old(self).type_map).well_formed() ==> mapping_of(
                final(self).type_map,
            ).well_formed(),
            final(self).derive_serde == old(self).derive_serde,
            final(self).override_struct == old(self).override_struct,
            final(self).override_struct_field_type == old(self).override_struct_field_type,
            final(self).override_struct_alignment == old(self).override_struct_alignment,
            final(self).custom_padding_field_regexps == old(self).custom_padding_field_regexps,
            final(self).always_generate_init_struct == old(self).always_generate_init_struct,
            final(self).impl_zeroable_for_init_structs == old(self).impl_zeroable_for_init_structs,
            final(self).extra_binding_generator == old(self).extra_binding_generator,
            final(self).wgpu_binding_generator == old(self).wgpu_binding_generator,
    {
        let mut merged = match self.type_map.take() {
            Some(m) => m,
            None => {
                let m = WgslTypeMap::new();
                assert(m@ =~= WgslTypeMap::new_spec());
                m
            },
        };
        match &self.override_struct {
            Some(structs) => {
                let mut i: usize = 0;
                while i < structs.len()
                    invariant
                        i <= structs.len(),
                        merged@ == with_structs(
                            mapping_of(old(self).type_map),
                            structs@,
                            i as nat,
                        ),
                        mapping_of(old(self).type_map).well_formed() ==> merged@.well_formed(),
                    decreases structs.len() - i,
                {
                    merged.insert(
                        WgslType::Struct { fully_qualified_name: structs[i].from.clone() },
                        structs[i].to.clone(),
                    );
                    i += 1;
                }
            },
            None => {},
        }
        self.type_map = Some(merged);
    }

    /// Sets the generator of the extra bindings to the one that `config` gives.
    pub fn extra_binding_generator<C: GetBindingsGeneratorConfig>(&mut self, config: C)
        ensures
            final(self).extra_binding_generator matches Some(Some(_)),
            final(self).derive_serde == old(self).derive_serde,
            final(self).type_map == old(self).type_map,
            final(self).override_struct == old(self).override_struct,
            final(self).override_struct_field_type == old(self).override_struct_field_type,
            final(self).override_struct_alignment == old(self).override_struct_alignment,
            final(self).custom_padding_field_regexps == old(self).custom_padding_field_regexps,
            final(self).always_generate_init_struct == old(self).always_generate_init_struct,
            final(self).impl_zeroable_for_init_structs == old(self).impl_zeroable_for_init_structs,
            final(self).wgpu_binding_generator == old(self).wgpu_binding_generator,
    {
        let generator = config.get_generator_config();
        self.set_extra_binding_generator(generator);
    }

    /// Sets the generator of the extra bindings.
    pub fn set_extra_binding_generator(&mut self, generator: BindingGenerator)
        ensures
            final(self).extra_binding_generator == Some(Some(generator)),
            final(self).derive_serde == old(self).derive_serde,
            final(self).type_map == old(self).type_map,
            final(self).override_struct == old(self).override_struct,
            final(self).override_struct_field_type == old(self).override_struct_field_type,
            final(self).override_struct_alignment == old(self).override_struct_alignment,
            final(self).custom_padding_field_regexps == old(self).custom_padding_field_regexps,
            final(self).always_generate_init_struct == old(self).always_generate_init_struct,
            final(self).impl_zeroable_for_init_structs == old(self).impl_zeroable_for_init_structs,
            final(self).wgpu_binding_generator == old(self).wgpu_binding_generator,
    {
        self.extra_binding_generator = Some(Some(generator));
    }

    /// Adds a struct that is taken from elsewhere.
    pub fn add_override_struct_mapping(&mut self, mapping: OverrideStruct)
        ensures
            structs_of(final(self).override_struct) == structs_of(old(self).override_struct).push(
                mapping,
            ),
            final(self).derive_serde == old(self).derive_serde,
            final(self).type_map == old(self).type_map,
            final(self).override_struct_field_type == old(self).override_struct_field_type,
            final(self).override_struct_alignment == old(self).override_struct_alignment,
            final(self).custom_padding_field_regexps == old(self).custom_padding_field_regexps,
            final(self).always_generate_init_struct == old(self).always_generate_init_struct,
            final(self).impl_zeroable_for_init_structs == old(self).impl_zeroable_for_init_structs,
            final(self).extra_binding_generator == old(self).extra_binding_generator,
            final(self).wgpu_binding_generator == old(self).wgpu_binding_generator,
    {
        let mut structs = match self.override_struct.take() {
            Some(v) => v,
            None => Vec::new(),
        };
        structs.push(mapping);
        self.override_struct = Some(structs);
    }

    /// Adds a pattern of the names of padding fields.
    pub fn add_custom_padding_field_regexp(&mut self, pattern: String)
        ensures
            final(self).custom_padding_field_regexps matches Some(v) && v@ == (match old(
                self,
            ).custom_padding_field_regexps {
                Some(w) => w@,
                None => Seq::empty(),
            }).push(pattern),
            final(self).derive_serde == old(self).derive_serde,
            final(self).type_map == old(self).type_map,
            final(self).override_struct == old(self).override_struct,
            final(self).override_struct_field_type == old(self).override_struct_field_type,
            final(self).override_struct_alignment == old(self).override_struct_alignment,
            final(self).always_generate_init_struct == old(self).always_generate_init_struct,
            final(self).impl_zeroable_for_init_structs == old(self).impl_zeroable_for_init_structs,
            final(self).extra_binding_generator == old(self).extra_binding_generator,
            final(self).wgpu_binding_generator == old(self).wgpu_binding_generator,
    {
        let mut patterns = match self.custom_padding_field_regexps.take() {
            Some(v) => v,
            None => Vec::new(),
        };
        patterns.push(pattern);
        self.custom_padding_field_regexps = Some(patterns);
    }

    /// The settings: what was set, with the structs that are taken from
    /// elsewhere merged into the type map, and the default of each setting that
    /// was not made.
    pub fn build(self) -> (options: WgslBindgenOption)
        ensures
            options.derive_serde == (match self.derive_serde {
                Some(b) => b,
                None => false,
            }),
            options.type_map@ == with_structs(
                mapping_of(self.type_map),
                structs_of(self.override_struct),
                structs_of(self.override_struct).len(),
            ),
            options.override_struct@ == structs_of(self.override_struct),
            options.override_struct_field_type@ == (match self.override_struct_field_type {
                Some(v) => v@,
                None => Seq::empty(),
            }),
            options.override_struct_alignment@ == (match self.override_struct_alignment {
                Some(v) => v@,
                None => Seq::empty(),
            }),
            options.custom_padding_field_regexps@ == (match self.custom_padding_field_regexps {
                Some(v) => v@,
                None => Seq::empty(),
            }),
            options.always_generate_init_struct == (match self.always_generate_init_struct {
                Some(b) => b,
                None => false,
            }),
            options.impl_zeroable_for_init_structs == (match self.impl_zeroable_for_init_structs {
                Some(b) => b,
                None => false,
            }),
            options.extra_binding_generator == (match self.extra_binding_generator {
                Some(g) => g,
                None => None,
            }),
            self.wgpu_binding_generator matches Some(g) ==> options.wgpu_binding_generator == g,
    {
        let mut builder = self;
        builder.merge_struct_type_overrides();
        let WgslBindgenOptionBuilder {
            derive_serde,
            type_map,
            override_struct,
            override_struct_field_type,
            override_struct_alignment,
            custom_padding_field_regexps,
            always_generate_init_struct,
            impl_zeroable_for_init_structs,
            extra_binding_generator,
            wgpu_binding_generator,
        } = builder;
        WgslBindgenOption {
            derive_serde: match derive_serde {
                Some(b) => b,
                None => false,
            },
            type_map: match type_map {
                Some(m) => m,
                None => WgslTypeMap::new(),
            },
            override_struct: match override_struct {
                Some(v) => v,
                None => Vec::new(),
            },
            override_struct_field_type: match override_struct_field_type {
                Some(v) => v,
                None => Vec::new(),
            },
            override_struct_alignment: match override_struct_alignment {
                Some(v) => v,
                None => Vec::new(),
            },
            custom_padding_field_regexps: match custom_padding_field_regexps {
                Some(v) => v,
                None => Vec::new(),
            },
            always_generate_init_struct: match always_generate_init_struct {
                Some(b) => b,
                None => false,
            },
            impl_zeroable_for_init_structs: match impl_zeroable_for_init_structs {
                Some(b) => b,
                None => false,
            },
            extra_binding_generator: match extra_binding_generator {
                Some(g) => g,
                None => None,
            },
            wgpu_binding_generator: match wgpu_binding_generator {
                Some(g) => g,
                None => BindingGenerator::wgpu(),
            },
        }
    }
}

} // verus!
