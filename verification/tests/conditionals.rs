use wgsl_bindgen::{
    fully_preprocess, preprocess_resolve_ifdefs, preprocess_resolve_ifdefs_implementation,
    DefineTable, PreprocessError, SymbolicBindingTable,
};

fn resolve(src: &str, defs: &mut DefineTable) -> (u32, String, Vec<String>) {
    let mut encountered = Vec::new();
    let mut bindings = SymbolicBindingTable::new();
    let (depth, text) =
        preprocess_resolve_ifdefs_implementation(src, defs, &mut encountered, &mut bindings, 0)
            .unwrap();
    (depth, text, encountered)
}

#[test]
fn a_block_of_an_undefined_key_is_commented() {
    let mut defs = DefineTable::new();
    let (depth, text, encountered) =
        resolve("#ifdef KEY\nbody one\n  body two\n#endif\nafter\n", &mut defs);
    assert_eq!(depth, 0);
    assert_eq!(
        text,
        "//\t\t#ifdef KEY\t (false)\n//\t\tbody one\n//\t\t  body two\n//\t\t#endif\nafter\n"
    );
    assert_eq!(encountered, vec!["KEY".to_string()]);
}

#[test]
fn a_block_of_a_defined_key_passes_with_the_definitions_applied() {
    let mut defs = DefineTable::new();
    defs.insert("KEY", "1");
    let (depth, text, encountered) =
        resolve("#ifdef KEY\nbody one\n  uses KEY twice: KEY\n#endif\nafter\n", &mut defs);
    assert_eq!(depth, 0);
    assert_eq!(
        text,
        "//\t\t#ifdef KEY\t (true)\nbody one\n  uses 1 twice: 1\n//\t\t#endif\nafter\n"
    );
    assert_eq!(encountered, vec!["KEY".to_string()]);
}

#[test]
fn an_empty_block_leaves_the_two_directives_as_comments() {
    let mut defs = DefineTable::new();
    let (_, text, _) = resolve("#ifdef KEY\n#endif\n", &mut defs);
    assert_eq!(text, "//\t\t#ifdef KEY\t (false)\n//\t\t#endif\n");
    defs.insert("KEY", "");
    let (_, text, _) = resolve("#ifdef KEY\n#endif\n", &mut defs);
    assert_eq!(text, "//\t\t#ifdef KEY\t (true)\n//\t\t#endif\n");
}

#[test]
fn else_opens_the_other_branch_of_an_undefined_key() {
    let mut defs = DefineTable::new();
    let (depth, text, _) = resolve("#ifdef A\nyes\n#else\nno\n#endif\n", &mut defs);
    assert_eq!(depth, 0);
    assert_eq!(
        text,
        "//\t\t#ifdef A\t (false)\n//\t\tyes\n//\t\t#else\t (true)\nno\n//\t\t#endif\n"
    );
}

#[test]
fn else_does_not_close_the_branch_of_a_defined_key() {
    let mut defs = DefineTable::new();
    defs.insert("A", "a");
    let (depth, text, _) = resolve("#ifdef A\nyes\n#else\nno\n#endif\n", &mut defs);
    assert_eq!(depth, 0);
    assert_eq!(text, "//\t\t#ifdef A\t (true)\nyes\n//\t\t#else\t (false)\nno\n//\t\t#endif\n");
}

#[test]
fn nested_blocks_count_the_depth() {
    let mut defs = DefineTable::new();
    let src = "#ifdef A\n#ifdef B\nx\n#endif\ny\n#endif\nz\n";
    let (depth, text, encountered) = resolve(src, &mut defs);
    assert_eq!(depth, 0);
    assert_eq!(
        text,
        "//\t\t#ifdef A\t (false)\n//\t\t#ifdef B\n//\t\tx\n//\t\t#endif\n//\t\ty\n//\t\t#endif\nz\n"
    );
    assert_eq!(encountered, vec!["A".to_string()]);
}

#[test]
fn define_and_undef_change_the_table() {
    let mut defs = DefineTable::new();
    let (_, text, _) =
        resolve("#define FOO 42 ignored\nx = FOO;\n#undef FOO\ny = FOO;\n", &mut defs);
    assert_eq!(
        text,
        "//\t\t#define FOO 42 ignored\t (defined FOO)\nx = 42;\n//\t\t#undef FOO\t (undefined FOO)\ny = FOO;\n"
    );
    assert!(!defs.contains_key("FOO"));
    let (_, text, _) = resolve("#define FLAG\na FLAG b\n#undefine FLAG\nFLAG\n", &mut defs);
    assert_eq!(
        text,
        "//\t\t#define FLAG\t (defined FLAG)\na  b\n//\t\t#undefine FLAG\t (undefined FLAG)\nFLAG\n"
    );
    let (_, text, _) = resolve("#define\n#undef\n#ifdef\n", &mut defs);
    assert_eq!(text, "//\t\t#define\n//\t\t#undef\n//\t\t#ifdef\n");
    assert_eq!(defs.len(), 0);
}

#[test]
fn a_definition_in_a_suppressed_region_still_takes_effect() {
    let mut defs = DefineTable::new();
    let (depth, text, _) = resolve("#ifdef NOPE\n#define X 1\n#endif\nX\n", &mut defs);
    assert_eq!(depth, 0);
    assert_eq!(
        text,
        "//\t\t#ifdef NOPE\t (false)\n//\t\t#define X 1\t (defined X)\n//\t\t#endif\n1\n"
    );
    assert_eq!(defs.get("X"), Some("1".to_string()));
}

#[test]
fn definitions_are_applied_in_the_order_of_the_table() {
    let mut defs = DefineTable::new();
    defs.insert("A", "B");
    defs.insert("B", "C");
    assert_eq!(defs.apply("A B"), "C C");
    let mut defs = DefineTable::new();
    defs.insert("B", "C");
    defs.insert("A", "B");
    assert_eq!(defs.apply("A B"), "B C");
    defs.insert("B", "D");
    assert_eq!(defs.apply("A B"), "B D");
    defs.remove("B");
    assert_eq!(defs.apply("A B"), "B B");
    assert_eq!(defs.len(), 1);
    assert_eq!(defs.get("A"), Some("B".to_string()));
    assert_eq!(defs.get("B"), None);
}

#[test]
fn unknown_directives_pass_through() {
    let mut defs = DefineTable::new();
    defs.insert("V", "450");
    let (_, text, _) = resolve("#version V\n#\n  #include \"x\"\n", &mut defs);
    assert_eq!(text, "#version 450\n#\n  #include \"x\"\n");
}

#[test]
fn an_import_that_is_met_stops_the_pass() {
    let mut defs = DefineTable::new();
    defs.insert("A", "");
    let mut encountered = Vec::new();
    let mut bindings = SymbolicBindingTable::new();
    let r = preprocess_resolve_ifdefs_implementation(
        "#define B 1\n#ifdef A\n  #import \"x.wgsl\"\n#define C 2\n",
        &mut defs,
        &mut encountered,
        &mut bindings,
        0,
    );
    assert_eq!(r, Err(PreprocessError::UnresolvedImport { line: 2 }));
    assert!(defs.contains_key("B"));
    assert!(!defs.contains_key("C"));
    assert_eq!(encountered, vec!["A".to_string()]);
}

#[test]
fn an_import_in_a_suppressed_region_stops_the_pass_too() {
    let mut defs = DefineTable::new();
    let mut encountered = Vec::new();
    let mut bindings = SymbolicBindingTable::new();
    let r = preprocess_resolve_ifdefs(
        "#ifdef NOPE\n#import \"x.wgsl\"\n#endif\n",
        &mut defs,
        &mut encountered,
        &mut bindings,
    );
    assert_eq!(r.err(), Some(PreprocessError::UnresolvedImport { line: 1 }));
    let mut defs = DefineTable::new();
    let (_, text, _) = resolve("#ifdef NOPE\n#include \"x.wgsl\"\n#endif\n", &mut defs);
    assert_eq!(text, "//\t\t#ifdef NOPE\t (false)\n//\t\t#include \"x.wgsl\"\n//\t\t#endif\n");
}

#[test]
fn a_block_that_is_not_closed_leaves_its_depth() {
    let mut defs = DefineTable::new();
    let (depth, text, _) = resolve("#ifdef NOPE\nx\n#ifdef ALSO\n", &mut defs);
    assert_eq!(depth, 2);
    assert_eq!(text, "//\t\t#ifdef NOPE\t (false)\n//\t\tx\n//\t\t#ifdef ALSO\n");
    let mut encountered = Vec::new();
    let mut bindings = SymbolicBindingTable::new();
    let done =
        preprocess_resolve_ifdefs("#ifdef NOPE\nx\n", &mut defs, &mut encountered, &mut bindings)
            .unwrap();
    assert!(done.unclosed_ifdef);
    assert_eq!(done.source, "//\t\t#ifdef NOPE\t (false)\n//\t\tx\n");
    let done = preprocess_resolve_ifdefs(
        "#ifdef NOPE\nx\n#endif\n",
        &mut defs,
        &mut encountered,
        &mut bindings,
    )
    .unwrap();
    assert!(!done.unclosed_ifdef);
}

#[test]
fn a_pass_can_begin_inside_a_suppressed_region() {
    let mut defs = DefineTable::new();
    let mut encountered = Vec::new();
    let mut bindings = SymbolicBindingTable::new();
    let (depth, text) = preprocess_resolve_ifdefs_implementation(
        "x\n#endif\ny\n",
        &mut defs,
        &mut encountered,
        &mut bindings,
        1,
    )
    .unwrap();
    assert_eq!(depth, 0);
    assert_eq!(text, "//\t\tx\n//\t\t#endif\ny\n");
}

#[test]
fn symbolic_bindings_get_groups_and_bindings_in_source_order() {
    let mut defs = DefineTable::new();
    let src = "@group_binding(X) var a: f32;\n\
               @group_binding(X) var b: f32;\n\
               @group_binding(X) var c: f32;\n\
               @group_binding(Y) var d: f32;\n\
               @group_binding(X) var e: f32;\n";
    let (_, text, _) = resolve(src, &mut defs);
    assert_eq!(
        text,
        "@group(0) @binding(0) var a: f32;\n\
         @group(0) @binding(1) var b: f32;\n\
         @group(0) @binding(2) var c: f32;\n\
         @group(1) @binding(0) var d: f32;\n\
         @group(0) @binding(3) var e: f32;\n"
    );
}

#[test]
fn the_table_of_symbolic_bindings_counts_per_label() {
    let mut table = SymbolicBindingTable::new();
    assert_eq!(table.assign("X"), (0, 0));
    assert_eq!(table.assign("X"), (0, 1));
    assert_eq!(table.assign("X"), (0, 2));
    assert_eq!(table.assign("Y"), (1, 0));
    assert_eq!(table.assign("X"), (0, 3));
    assert_eq!(table.assign("Z"), (2, 0));
    assert_eq!(table.assign("Y"), (1, 1));
    assert_eq!(table.len(), 3);
    assert!(table.has_room(u32::MAX - 4));
    assert!(!table.has_room(u32::MAX - 3));
}

#[test]
fn a_symbolic_binding_keeps_what_stands_around_it() {
    let mut defs = DefineTable::new();
    defs.insert("T", "f32");
    let src = "  @group_binding(A) var<uniform> u: T;\n\
               @compute @group_binding(A)\n\
               var x; @group_binding(A)\n\
               @group_binding( A ) var y;\n\
               @group_binding(A) @group_binding(A) @group_binding(B)\n\
               @group_binding(B\n\
               @fragment fn group_binding() {}\n";
    let (_, text, _) = resolve(src, &mut defs);
    assert_eq!(
        text,
        "  @group(0) @binding(0) var<uniform> u: f32;\n\
         @compute @group(0) @binding(1)\n\
         var x; @group(0) @binding(2)\n\
         @group_binding( A ) var y;\n\
         @group(0) @binding(4) @group(0) @binding(4) @group_binding(B)\n\
         @group_binding(B\n\
         @fragment fn group_binding() {}\n"
    );
}

#[test]
fn a_symbolic_binding_is_found_anywhere_in_a_line() {
    let mut defs = DefineTable::new();
    let mut encountered = Vec::new();
    let mut bindings = SymbolicBindingTable::new();
    let src = "var<uniform> @group_binding(A) a: f32;\n\
               // @group_binding(B) in a comment\n\
               #define K @group_binding(A)\n\
               @vertex fn group_binding(x: f32) {}\n\
               @group_binding (C) var c: f32;\n\
               @group_binding(C) var d: f32;\n";
    let (depth, text) =
        preprocess_resolve_ifdefs_implementation(src, &mut defs, &mut encountered, &mut bindings, 0)
            .unwrap();
    assert_eq!(depth, 0);
    assert_eq!(
        text,
        "var<uniform> @group(0) @binding(0) a: f32;\n\
         // @group(1) @binding(0) in a comment\n\
         //\t\t#define K @group(0) @binding(1)\t (defined K)\n\
         @vertex fn group_binding(x: f32) {}\n\
         @group_binding (C) var c: f32;\n\
         @group(2) @binding(0) var d: f32;\n"
    );
    assert_eq!(bindings.len(), 3);
    assert_eq!(defs.get("K"), Some("@group_binding(A)".to_string()));
}

#[test]
fn a_symbolic_binding_in_a_suppressed_region_is_counted() {
    let mut defs = DefineTable::new();
    let src = "#ifdef NOPE\n@group_binding(A) var x;\n#endif\n@group_binding(A) var y;\n";
    let (_, text, _) = resolve(src, &mut defs);
    assert_eq!(
        text,
        "//\t\t#ifdef NOPE\t (false)\n//\t\t@group(0) @binding(0) var x;\n//\t\t#endif\n@group(0) @binding(1) var y;\n"
    );
}

#[test]
fn both_passes_run_one_after_the_other() {
    let lookup = |name: String| -> Option<String> {
        if name == "lib.wgsl" {
            Some("#define SIZE 4\n@group_binding(G) var t: array<f32, SIZE>;\n".to_string())
        } else {
            None
        }
    };
    let mut defs = DefineTable::new();
    let mut encountered = Vec::new();
    let mut bindings = SymbolicBindingTable::new();
    let done = fully_preprocess(
        "#import \"lib.wgsl\"\n#ifdef SIZE\nconst n = SIZE;\n#endif\n",
        &mut defs,
        &Some(lookup),
        &mut encountered,
        &mut bindings,
    )
    .unwrap();
    assert!(!done.unclosed_ifdef);
    assert_eq!(
        done.source,
        "// #import \"lib.wgsl\" // BEGIN #import 'lib.wgsl'\n\
         //\t\t#define SIZE 4\t (defined SIZE)\n\
         @group(0) @binding(0) var t: array<f32, 4>;\n\
         // END #import 'lib.wgsl'\n\
         //\t\t#ifdef SIZE\t (true)\n\
         const n = 4;\n\
         //\t\t#endif\n"
    );
    assert_eq!(encountered, vec!["SIZE".to_string()]);
    assert_eq!(defs.get("SIZE"), Some("4".to_string()));
}

#[test]
fn the_second_pass_meets_no_import_after_the_first() {
    let calls = std::cell::Cell::new(0u32);
    let lookup = |name: String| -> Option<String> {
        calls.set(calls.get() + 1);
        match name.as_str() {
            "loop.wgsl" => Some(format!("#import loop.wgsl\r\n  #include <loop.wgsl>\n// {}", calls.get())),
            "odd" if calls.get() % 2 == 1 => Some("\t#import  \"odd\"  trailing\r".to_string()),
            _ => None,
        }
    };
    let sources = [
        "#import loop.wgsl",
        " \t#import\r\n#include\n#import odd\n#import odd\n#import missing\r\n",
        "#import \"#import\"\n#import '\n#import <>\n",
    ];
    for src in sources {
        let mut defs = DefineTable::new();
        let mut encountered = Vec::new();
        let mut bindings = SymbolicBindingTable::new();
        let done = fully_preprocess(
            src,
            &mut defs,
            &Some(|name: String| {
                if name == "loop.wgsl" && calls.get() > 40 {
                    None
                } else {
                    lookup(name)
                }
            }),
            &mut encountered,
            &mut bindings,
        );
        assert!(done.is_ok(), "{:?}", src);
        calls.set(0);
    }
}

#[test]
fn an_import_is_met_only_where_the_first_pass_did_not_run() {
    let mut defs = DefineTable::new();
    let mut encountered = Vec::new();
    let mut bindings = SymbolicBindingTable::new();
    let direct = preprocess_resolve_ifdefs(
        "a\n#import x\n",
        &mut defs,
        &mut encountered,
        &mut bindings,
    );
    assert_eq!(direct.err(), Some(PreprocessError::UnresolvedImport { line: 1 }));
    let no_lookup: Option<fn(String) -> Option<String>> = None;
    let both = fully_preprocess("a\n#import x\n", &mut defs, &no_lookup, &mut encountered, &mut bindings)
        .unwrap();
    assert_eq!(
        both.source,
        "a\n// #import x // ERROR: Preprocessor could not include file, skipped\n"
    );
}
