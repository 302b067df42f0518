use wgsl_bindgen::ir::{EntryPoint, Module, ShaderStage};
use wgsl_bindgen::patterns::{is_match, is_pattern, matches_any};
use wgsl_bindgen::{
    entry_point_constants, indexed_name, sanitize_and_pascal_case, sanitized_upper_snake_case,
    AdditionalScanDirectory, BindingGenerator, GetBindingsGeneratorConfig, GlamWgslTypeMap,
    OverrideStruct, RustWgslTypeMap, WgslBindgenOptionBuilder, WgslMatType, WgslType, WgslTypeMap,
    WgslTypeMapBuild, WgslVecType,
};

#[test]
fn module_names_are_put_in_pascal_case() {
    assert_eq!(sanitize_and_pascal_case("my_shader"), "MyShader");
    assert_eq!(sanitize_and_pascal_case("my-shader.v2"), "Myshaderv2");
    assert_eq!(sanitize_and_pascal_case("pbr/material_lit"), "PbrmaterialLit");
    assert_eq!(sanitize_and_pascal_case("XMLHttpRequest"), "XmlHttpRequest");
    assert_eq!(sanitize_and_pascal_case(""), "");
    assert_eq!(sanitize_and_pascal_case("-- .."), "");
    for name in ["shader", "a_b_c", "some  spaced  name", "\u{e9}t\u{e9}_1", "__x__"] {
        let kept: String = name.chars().filter(|c| c.is_alphanumeric() || *c == '_').collect();
        assert_eq!(sanitize_and_pascal_case(name), heck::ToPascalCase::to_pascal_case(kept.as_str()));
    }
}

#[test]
fn constant_names_are_put_in_upper_snake_case() {
    assert_eq!(sanitized_upper_snake_case("martinLutherStringJr"), "MARTIN_LUTHER_STRING_JR");
    assert_eq!(sanitized_upper_snake_case("WildUnderscoreS"), "WILD_UNDERSCORE_S");
    assert_eq!(sanitized_upper_snake_case("vs-main.entry"), "VSMAINENTRY");
    assert_eq!(sanitized_upper_snake_case("already_snake"), "ALREADY_SNAKE");
    assert_eq!(sanitized_upper_snake_case("ABc"), "A_BC");
    assert_eq!(sanitized_upper_snake_case(""), "");
    assert_eq!(sanitized_upper_snake_case("stra\u{df}e"), "STRASSE");
    for name in ["fooBar", "Foo", "f", "F", "a1B2", "\u{e9}cole\u{c9}cole"] {
        let kept: String = name.chars().filter(|c| c.is_alphanumeric() || *c == '_').collect();
        let snake = case::CaseExt::to_snake(kept.as_str());
        assert_eq!(sanitized_upper_snake_case(name), snake.to_uppercase());
    }
}

#[test]
fn an_indexed_name_ends_with_the_index() {
    assert_eq!(indexed_name("bind_group", 0), "bind_group0");
    assert_eq!(indexed_name("bind_group", 12), "bind_group12");
    assert_eq!(indexed_name("", 4294967295), "4294967295");
}

#[test]
fn entry_points_get_constants_for_their_names() {
    let entry = |name: &str| EntryPoint {
        name: name.to_string(),
        stage: ShaderStage::Compute,
        arguments: vec![],
        result: None,
    };
    let module = Module {
        types: vec![],
        global_variables: vec![],
        entry_points: vec![entry("main"), entry("vs_Main2"), entry("stra\u{df}e")],
        overrides: vec![],
    };
    assert_eq!(
        entry_point_constants(&module),
        vec![
            ("ENTRY_MAIN".to_string(), "main".to_string()),
            ("ENTRY_VS_MAIN2".to_string(), "vs_Main2".to_string()),
            ("ENTRY_STRASSE".to_string(), "stra\u{df}e".to_string()),
        ]
    );
}

#[test]
fn patterns_are_regular_expressions() {
    assert!(is_match("^_pad", "_pad0"));
    assert!(!is_match("^_pad", "x_pad0"));
    assert!(is_match("pad", "x_pad0"));
    assert!(is_match("", "anything"));
    assert!(!is_match("(unclosed", "(unclosed"));
    assert!(is_pattern("^a.*b$"));
    assert!(!is_pattern("(unclosed"));
    let patterns = vec!["^a$".to_string(), "[".to_string(), "b+".to_string()];
    assert!(matches_any(&patterns, "a"));
    assert!(matches_any(&patterns, "xbbx"));
    assert!(!matches_any(&patterns, "ac"));
    assert!(!matches_any(&vec![], "a"));
    for (pattern, text) in [("^_pad", "_pad0"), ("b+", "abc"), ("^$", ""), ("x", "")] {
        assert_eq!(is_match(pattern, text), regex::Regex::new(pattern).unwrap().is_match(text));
    }
}

#[test]
fn a_scan_directory_has_a_root_and_a_path() {
    let a = AdditionalScanDirectory::new(Some("lib"), "shaders/lib");
    assert_eq!(a.module_import_root, Some("lib".to_string()));
    assert_eq!(a.directory, "shaders/lib");
    let b = AdditionalScanDirectory::new(None, "");
    assert_eq!(b.module_import_root, None);
    assert_eq!(b.directory, "");
}

#[test]
fn the_type_maps_hold_what_they_are_built_for() {
    assert_eq!(RustWgslTypeMap.build().len(), 0);
    let glam = GlamWgslTypeMap.build();
    assert_eq!(glam.len(), 4);
    assert_eq!(glam.get(&WgslType::Vector(WgslVecType::Vec3f)), Some("glam::Vec3A".to_string()));
    assert_eq!(glam.get(&WgslType::Vector(WgslVecType::Vec4f)), Some("glam::Vec4".to_string()));
    assert_eq!(glam.get(&WgslType::Matrix(WgslMatType::Mat3x3f)), Some("glam::Mat3A".to_string()));
    assert_eq!(glam.get(&WgslType::Matrix(WgslMatType::Mat4x4f)), Some("glam::Mat4".to_string()));
    assert_eq!(glam.get(&WgslType::Vector(WgslVecType::Vec2f)), None);
    assert_eq!(glam.entry(0).0, WgslType::Vector(WgslVecType::Vec3f));
    let copy = glam.build();
    assert_eq!(copy.len(), 4);
    assert_eq!(copy.entry(3).1, "glam::Mat4");
}

#[test]
fn a_type_map_keeps_the_place_of_a_type_that_is_set_again() {
    let named = |n: &str| WgslType::Struct { fully_qualified_name: n.to_string() };
    let mut map = WgslTypeMap::new();
    map.insert(named("a"), "A".to_string());
    map.insert(WgslType::Vector(WgslVecType::Vec2i), "I2".to_string());
    map.insert(named("b"), "B".to_string());
    map.insert(named("a"), "A2".to_string());
    assert_eq!(map.len(), 3);
    assert_eq!(map.entry(0), (named("a"), "A2".to_string()));
    assert_eq!(map.entry(2), (named("b"), "B".to_string()));
    assert!(map.contains_key(&named("b")));
    assert!(!map.contains_key(&named("c")));
    assert!(named("a").same(&named("a")));
    assert!(!named("a").same(&named("b")));
    assert!(!named("a").same(&WgslType::Vector(WgslVecType::Vec2i)));
    assert_eq!(named("a").copy(), named("a"));
    let mut other = WgslTypeMap::new();
    other.insert(named("b"), "B2".to_string());
    other.insert(named("c"), "C".to_string());
    map.extend(&other);
    assert_eq!(map.len(), 4);
    assert_eq!(map.entry(2), (named("b"), "B2".to_string()));
    assert_eq!(map.entry(3), (named("c"), "C".to_string()));
}

#[test]
fn the_builder_fills_in_what_was_not_set() {
    let options = WgslBindgenOptionBuilder::new().build();
    assert!(!options.derive_serde);
    assert!(!options.always_generate_init_struct);
    assert!(!options.impl_zeroable_for_init_structs);
    assert_eq!(options.type_map.len(), 0);
    assert!(options.override_struct.is_empty());
    assert!(options.override_struct_alignment.is_empty());
    assert!(options.custom_padding_field_regexps.is_empty());
    assert!(options.extra_binding_generator.is_none());
    assert_eq!(options.wgpu_binding_generator.bind_group_layout.name_prefix, "WgpuBindGroup");
    assert_eq!(options.wgpu_binding_generator.bind_group_layout.bind_group_name(3), "WgpuBindGroup3");
    assert_eq!(
        options.wgpu_binding_generator.bind_group_layout.bind_group_entries_struct_name(10),
        "WgpuBindGroup10Entries"
    );
    assert_eq!(options.wgpu_binding_generator.pipeline_layout.layout_name, "WgpuPipelineLayout");
}

#[test]
fn the_builder_merges_the_structs_into_the_type_map() {
    let named = |n: &str| WgslType::Struct { fully_qualified_name: n.to_string() };
    let mut builder = WgslBindgenOptionBuilder::new();
    builder.type_map(GlamWgslTypeMap);
    builder.type_map(RustWgslTypeMap);
    builder.add_override_struct_mapping(OverrideStruct {
        from: "lib::Fp64".to_string(),
        to: "crate::Fp64".to_string(),
    });
    builder.add_override_struct_mapping(OverrideStruct {
        from: "Other".to_string(),
        to: "crate::Other".to_string(),
    });
    builder.add_override_struct_mapping(OverrideStruct {
        from: "lib::Fp64".to_string(),
        to: "crate::Better".to_string(),
    });
    builder.derive_serde = Some(true);
    let mut extra = BindingGenerator::wgpu();
    extra.bind_group_layout.name_prefix = "Extra".to_string();
    builder.extra_binding_generator(extra);
    let options = builder.build();
    assert!(options.derive_serde);
    assert_eq!(options.type_map.len(), 6);
    assert_eq!(options.type_map.entry(4), (named("lib::Fp64"), "crate::Better".to_string()));
    assert_eq!(options.type_map.entry(5), (named("Other"), "crate::Other".to_string()));
    assert_eq!(options.override_struct.len(), 3);
    assert_eq!(
        options.extra_binding_generator.unwrap().bind_group_layout.bind_group_name(0),
        "Extra0"
    );
    let same = BindingGenerator::wgpu().get_generator_config();
    assert!(same.bind_group_layout.uses_lifetime);
    assert_eq!(same.bind_group_layout.entry_struct_type, "wgpu::BindGroupEntry<'a>");
    assert_eq!(same.pipeline_layout.bind_group_layout_type, "wgpu::BindGroupLayout");
}

#[test]
fn a_module_is_named_by_the_stem_up_to_its_first_dot() {
    assert_eq!(wgsl_bindgen::module_name("shader"), "shader");
    assert_eq!(wgsl_bindgen::module_name("shader.vert"), "shader");
    assert_eq!(wgsl_bindgen::module_name("a.b.c"), "a");
    assert_eq!(wgsl_bindgen::module_name(".hidden"), "");
    assert_eq!(wgsl_bindgen::module_name(""), "");
}

#[test]
fn the_header_names_the_generator_and_its_version() {
    assert_eq!(
        wgsl_bindgen::header_texts("wgsl_bindgen", "0.1.0"),
        "\n/* \n   NOTE: This file was automatically generated by wgsl_bindgen version 0.1.0\n\n         Changes made to this file will not be saved.\n*/\n\n"
    );
}

#[test]
fn the_step_mode_of_a_vertex_input_is_named_in_snake_case() {
    assert_eq!(wgsl_bindgen::step_mode_name("VertexInput"), "vertex_input");
    assert_eq!(wgsl_bindgen::step_mode_name("instance"), "instance");
    assert_eq!(wgsl_bindgen::step_mode_name("XY"), "x_y");
}

#[test]
fn options_are_made_from_tuples() {
    let a: AdditionalScanDirectory = (Some("root"), "dir").into();
    assert_eq!((a.module_import_root.as_deref(), a.directory.as_str()), (Some("root"), "dir"));
    let s: OverrideStruct = ("lib::A", "crate::A").into();
    assert_eq!((s.from.as_str(), s.to.as_str()), ("lib::A", "crate::A"));
    let f: wgsl_bindgen::OverrideStructFieldType = ("S.*", "f.*", "glam::Vec3").into();
    assert_eq!(
        (f.struct_regex.as_str(), f.field_regex.as_str(), f.override_type.as_str()),
        ("S.*", "f.*", "glam::Vec3")
    );
    let o: wgsl_bindgen::OverrideStructAlignment = ("Camera", 256).into();
    assert_eq!((o.struct_regex.as_str(), o.alignment), ("Camera", 256));
}
