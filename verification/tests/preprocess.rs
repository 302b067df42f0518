use wgsl_bindgen::imports::{preprocess_resolve_imports, preprocess_resolve_imports_recursively};

fn no_lookup() -> Option<fn(String) -> Option<String>> {
    None
}

fn files(name: String) -> Option<String> {
    match name.as_str() {
        "a.wgsl" => Some("fn a() {}\n".to_string()),
        "b.wgsl" => Some("#import \"a.wgsl\"\nfn b() {}".to_string()),
        "self.wgsl" => Some("x\n#import self.wgsl\ny\n".to_string()),
        "twice.wgsl" => Some("#import twice.wgsl\n#import twice.wgsl\n".to_string()),
        _ => None,
    }
}

#[test]
fn text_without_imports_passes() {
    let out = preprocess_resolve_imports("a\nb\n", &no_lookup());
    assert_eq!(out, "a\nb\n");
    let out = preprocess_resolve_imports("  indented\n\n#define X 1\n@group(0)\n", &Some(files));
    assert_eq!(out, "  indented\n\n#define X 1\n@group(0)\n");
}

#[test]
fn every_line_is_ended_by_a_line_feed() {
    assert_eq!(preprocess_resolve_imports("a", &no_lookup()), "a\n");
    assert_eq!(preprocess_resolve_imports("a\r\nb", &no_lookup()), "a\nb\n");
    assert_eq!(preprocess_resolve_imports("a\r\r\n", &no_lookup()), "a\r\n");
    assert_eq!(preprocess_resolve_imports("", &no_lookup()), "");
}

#[test]
fn an_import_is_replaced_by_the_source_between_markers() {
    let out = preprocess_resolve_imports("before\n  #import \"a.wgsl\"  \nafter\n", &Some(files));
    assert_eq!(
        out,
        "before\n// #import \"a.wgsl\" // BEGIN #import 'a.wgsl'\nfn a() {}\n// END #import 'a.wgsl'\nafter\n"
    );
}

#[test]
fn an_include_with_angle_brackets_is_an_import() {
    let out = preprocess_resolve_imports("#include <a.wgsl>\n", &Some(files));
    assert_eq!(
        out,
        "// #include <a.wgsl> // BEGIN #import 'a.wgsl'\nfn a() {}\n// END #import 'a.wgsl'\n"
    );
    let out = preprocess_resolve_imports("#import a.wgsl trailing words\n", &Some(files));
    assert_eq!(
        out,
        "// #import a.wgsl trailing words // BEGIN #import 'a.wgsl'\nfn a() {}\n// END #import 'a.wgsl'\n"
    );
}

#[test]
fn imports_are_resolved_in_what_is_imported() {
    let out = preprocess_resolve_imports("#import \"b.wgsl\"\n", &Some(files));
    assert_eq!(
        out,
        "// #import \"b.wgsl\" // BEGIN #import 'b.wgsl'\n\
         // #import \"a.wgsl\" // BEGIN #import 'a.wgsl'\n\
         fn a() {}\n\
         // END #import 'a.wgsl'\n\
         fn b() {}\n\
         // END #import 'b.wgsl'\n"
    );
}

#[test]
fn an_import_that_cannot_be_had_leaves_a_comment() {
    let expected = "// #import \"nowhere.wgsl\" // ERROR: Preprocessor could not include file, skipped\nrest\n";
    assert_eq!(
        preprocess_resolve_imports("#import \"nowhere.wgsl\"\nrest\n", &Some(files)),
        expected
    );
    assert_eq!(
        preprocess_resolve_imports("#import \"nowhere.wgsl\"\nrest\n", &no_lookup()),
        expected
    );
    assert_eq!(
        preprocess_resolve_imports("#import\n", &Some(files)),
        "// #import // ERROR: Preprocessor could not include file, skipped\n"
    );
    assert_eq!(
        preprocess_resolve_imports("#import \"a.wgsl\"\n", &no_lookup()),
        "// #import \"a.wgsl\" // ERROR: Preprocessor could not include file, skipped\n"
    );
}

#[test]
fn other_directives_are_not_imports() {
    let src = "#importing x\n#ifdef A\n# import\n#\n";
    let out = preprocess_resolve_imports(src, &Some(files));
    assert_eq!(
        out,
        "#importing x\n#ifdef A\n// # import // ERROR: Preprocessor could not include file, skipped\n#\n"
    );
}

#[test]
fn a_source_deeper_than_the_limit_expands_to_nothing() {
    assert_eq!(preprocess_resolve_imports_recursively("a\n", &no_lookup(), 4, 3), "");
    assert_eq!(preprocess_resolve_imports_recursively("a\n", &no_lookup(), 3, 3), "a\n");
    let out = preprocess_resolve_imports_recursively("#import self.wgsl\n", &Some(files), 0, 1);
    assert_eq!(
        out,
        "// #import self.wgsl // BEGIN #import 'self.wgsl'\n\
         x\n\
         // #import self.wgsl // BEGIN #import 'self.wgsl'\n\
         // END #import 'self.wgsl'\n\
         y\n\
         // END #import 'self.wgsl'\n"
    );
}

#[test]
fn a_source_that_imports_itself_ends() {
    let out = preprocess_resolve_imports("#import self.wgsl\n", &Some(files));
    let begins = out.matches("BEGIN #import 'self.wgsl'").count();
    let ends = out.matches("END #import 'self.wgsl'").count();
    assert_eq!(begins, 101);
    assert_eq!(ends, 101);
    assert_eq!(out.matches("x\n").count(), 100);
    assert_eq!(out.matches("y\n").count(), 100);
    let per_source = 3 * "x\n#import self.wgsl\ny\n".len() + 62;
    assert!(out.len() <= 101 * per_source);
}

#[test]
fn a_source_that_imports_itself_twice_doubles_with_each_level() {
    let out = preprocess_resolve_imports_recursively("#import twice.wgsl\n", &Some(files), 0, 4);
    assert_eq!(out.matches("BEGIN #import").count(), 1 + 2 + 4 + 8 + 16);
}

#[test]
fn expanding_again_changes_nothing() {
    let once = preprocess_resolve_imports("a\n#import \"b.wgsl\"\n#import nowhere\nz", &Some(files));
    let again = preprocess_resolve_imports(once.as_str(), &Some(files));
    assert_eq!(once, again);
}

#[test]
fn the_lookup_is_asked_for_the_bare_name() {
    let asked = std::cell::RefCell::new(Vec::new());
    let lookup = |name: String| -> Option<String> {
        asked.borrow_mut().push(name);
        None
    };
    let src = "#import \"q.wgsl\"\n#import <angle>\n#import \"<both>\"\n#import <\"inner\">\n#import plain\n";
    let _ = preprocess_resolve_imports(src, &Some(lookup));
    assert_eq!(
        *asked.borrow(),
        vec!["q.wgsl", "angle", "both", "\"inner\"", "plain"]
            .into_iter()
            .map(String::from)
            .collect::<Vec<_>>()
    );
}
