use file_scanner::config::{get_query, lang_of_extension, query_for, Lang};
use file_scanner::extraction::extract_source;

const RUST_SAMPLE: &str = "// This is a comment for a function.\nfn my_function() {\n    // This is a comment inside a function.\n}\n\n/**\n * Block doc comment for another function.\n */\nfn another_function(x: i32) -> i32 {\n    x + 1\n}\n";

#[test]
fn registry_maps_known_extensions() {
    assert_eq!(lang_of_extension("cs"), Some(Lang::CSharp));
    assert_eq!(lang_of_extension("py"), Some(Lang::Python));
    assert_eq!(lang_of_extension("rs"), Some(Lang::Rust));
    assert_eq!(lang_of_extension("ts"), Some(Lang::TypeScript));
    assert_eq!(lang_of_extension("txt"), None);
    assert_eq!(lang_of_extension(""), None);
}

#[test]
fn query_texts_per_language_and_level() {
    assert_eq!(
        get_query("rs", 0).unwrap(),
        "((function_item name: (identifier) @method_name))"
    );
    let detailed = "((function_item name: (identifier) @method_name body: (block) @body) @function_definition)\n((line_comment) @comment)\n((block_comment) @comment)";
    assert_eq!(get_query("rs", 1).unwrap(), detailed);
    assert_eq!(get_query("rs", 2).unwrap(), detailed);
    assert_eq!(get_query("rs", 3).unwrap(), detailed);
    // any unrecognized level falls back to the names-only query
    assert_eq!(
        get_query("rs", 9).unwrap(),
        "((function_item name: (identifier) @method_name))"
    );
    assert_eq!(get_query("html", 3), None);
    assert!(get_query("py", 3).unwrap().contains("function_definition"));
    assert!(get_query("py", 3).unwrap().contains("(comment) @comment"));
    assert!(get_query("cs", 3).unwrap().contains("method_declaration"));
    let ts = query_for(Lang::TypeScript, 3);
    assert!(ts.contains("function_declaration"));
    assert!(ts.contains("method_definition"));
    assert!(ts.contains("(comment) @comment"));
}

#[test]
fn two_function_file_at_full_detail() {
    let fc = extract_source("/p/s.rs", "rs", RUST_SAMPLE, 3).expect("functions expected");
    assert_eq!(fc.path, "/p/s.rs");
    assert_eq!(fc.functions.len(), 2);
    assert_eq!(fc.functions[0].name, "my_function");
    assert_eq!(
        fc.functions[0].body.as_deref(),
        Some("fn my_function() {\n    // This is a comment inside a function.\n}")
    );
    assert_eq!(fc.functions[1].name, "another_function");
    assert_eq!(
        fc.functions[1].body.as_deref(),
        Some("fn another_function(x: i32) -> i32 {\n    x + 1\n}")
    );
    // each function carries exactly its directly-adjacent preceding comment
    assert_eq!(
        fc.functions[0].comment.as_deref(),
        Some("// This is a comment for a function.")
    );
    assert_eq!(
        fc.functions[1].comment.as_deref(),
        Some("/**\n * Block doc comment for another function.\n */")
    );
}

#[test]
fn comment_attaches_only_to_the_adjacent_function() {
    let src = "// c\nfn f() {}\nfn g(x: i32) -> i32 { x }\n";
    let fc = extract_source("/p/a.rs", "rs", src, 3).unwrap();
    assert_eq!(fc.functions.len(), 2);
    assert_eq!(fc.functions[0].name, "f");
    assert_eq!(fc.functions[0].body.as_deref(), Some("fn f() {}"));
    assert_eq!(fc.functions[0].comment.as_deref(), Some("// c"));
    assert_eq!(fc.functions[1].name, "g");
    assert_eq!(fc.functions[1].body.as_deref(), Some("fn g(x: i32) -> i32 { x }"));
    assert_eq!(fc.functions[1].comment, None);
}

#[test]
fn contiguous_comment_group_is_kept_whole() {
    let src = "// first\n// second\nfn f() {}\n";
    let fc = extract_source("/p/a.rs", "rs", src, 2).unwrap();
    assert_eq!(fc.functions[0].comment.as_deref(), Some("// first\n// second"));
}

#[test]
fn blank_lines_do_not_break_adjacency_but_code_does() {
    // whitespace-only gaps keep the comment adjacent
    let spaced = "// doc\n\nfn f() {}\n";
    let fc = extract_source("/p/a.rs", "rs", spaced, 3).unwrap();
    assert_eq!(fc.functions[0].comment.as_deref(), Some("// doc"));
    // an intervening item detaches the comment from the later function
    let detached = "// doc\nfn f() {}\n\nfn g() {}\n";
    let fc2 = extract_source("/p/a.rs", "rs", detached, 3).unwrap();
    assert_eq!(fc2.functions[1].name, "g");
    assert_eq!(fc2.functions[1].comment, None);
}

#[test]
fn signature_detail_cuts_before_the_body() {
    let fc = extract_source("/p/s.rs", "rs", RUST_SAMPLE, 1).unwrap();
    assert_eq!(fc.functions[0].body.as_deref(), Some("fn my_function()"));
    assert_eq!(
        fc.functions[1].body.as_deref(),
        Some("fn another_function(x: i32) -> i32")
    );
    // level 1 keeps the signature but no comment
    assert_eq!(fc.functions[0].comment, None);
    let fc2 = extract_source("/p/s.rs", "rs", RUST_SAMPLE, 2).unwrap();
    assert_eq!(fc2.functions[0].body.as_deref(), Some("fn my_function()"));
    assert_eq!(
        fc2.functions[0].comment.as_deref(),
        Some("// This is a comment for a function.")
    );
}

#[test]
fn names_only_detail_keeps_no_text() {
    let fc = extract_source("/p/s.rs", "rs", RUST_SAMPLE, 0).unwrap();
    assert_eq!(fc.functions.len(), 2);
    assert_eq!(fc.functions[0].body, None);
    assert_eq!(fc.functions[0].comment, None);
}

#[test]
fn levels_above_three_behave_as_names_only() {
    let fc = extract_source("/p/s.rs", "rs", RUST_SAMPLE, 7).unwrap();
    assert_eq!(fc.functions.len(), 2);
    assert_eq!(fc.functions[0].body, None);
    assert_eq!(fc.functions[0].comment, None);
    assert_eq!(fc.functions[1].body, None);
    assert_eq!(fc.functions[1].comment, None);
}

#[test]
fn names_agree_across_detail_levels() {
    let mut names_per_level: Vec<Vec<String>> = Vec::new();
    for level in 0u8..=3u8 {
        let fc = extract_source("/p/s.rs", "rs", RUST_SAMPLE, level).unwrap();
        names_per_level.push(fc.functions.iter().map(|f| f.name.clone()).collect());
    }
    for level in 1usize..=3usize {
        assert_eq!(names_per_level[0], names_per_level[level]);
    }
}

#[test]
fn python_extraction() {
    let fc = extract_source("/p/m.py", "py", "# doc\ndef foo():\n    return 1\n", 3).unwrap();
    assert_eq!(fc.functions.len(), 1);
    assert_eq!(fc.functions[0].name, "foo");
    assert_eq!(fc.functions[0].body.as_deref(), Some("def foo():\n    return 1"));
    assert_eq!(fc.functions[0].comment.as_deref(), Some("# doc"));
}

#[test]
fn csharp_extraction() {
    let fc = extract_source("/p/a.cs", "cs", "class A { void M() { int x = 1; } }", 0).unwrap();
    assert_eq!(fc.functions.len(), 1);
    assert_eq!(fc.functions[0].name, "M");
}

#[test]
fn typescript_extraction_covers_functions_and_methods() {
    let src = "// fn doc\nfunction f() { return 1; }\nclass C { m() { return 2; } }";
    let fc = extract_source("/p/a.ts", "ts", src, 3).unwrap();
    let names: Vec<&str> = fc.functions.iter().map(|f| f.name.as_str()).collect();
    assert!(names.contains(&"f"));
    assert!(names.contains(&"m"));
    let f_rec = fc.functions.iter().find(|r| r.name == "f").unwrap();
    assert_eq!(f_rec.comment.as_deref(), Some("// fn doc"));
}

#[test]
fn unsupported_or_binary_or_empty_sources_are_excluded() {
    assert!(extract_source("/p/a.txt", "txt", "fn x() {}", 3).is_none());
    assert!(extract_source("/p/a.rs", "rs", "fn x() {}\u{0}", 3).is_none());
    assert!(extract_source("/p/a.rs", "rs", "const Y: u8 = 3;", 3).is_none());
    assert!(extract_source("/p/a.rs", "rs", "", 3).is_none());
}
