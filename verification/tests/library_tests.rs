use forge_code::{CodeDecomposer, CodeKind, CodeTile, Language};

fn rust(input: &str) -> Vec<CodeTile> {
    CodeDecomposer::new(Language::Rust).decompose(input)
}

fn summary(t: &CodeTile) -> (CodeKind, String, usize, usize) {
    (t.kind, t.name.clone(), t.start_line, t.end_line)
}

#[test]
fn name_after_reads_the_declared_name() {
    assert_eq!(CodeDecomposer::name_after("pub fn foo(x: i32)", "fn "), "foo");
    assert_eq!(CodeDecomposer::name_after("struct Pair<T> {", "struct "), "Pair");
    assert_eq!(CodeDecomposer::name_after("impl Foo for Bar {", "impl "), "Foo");
    assert_eq!(CodeDecomposer::name_after("class Dog:", "class "), "Dog");
    assert_eq!(CodeDecomposer::name_after("trait T{", "trait "), "T");
}

#[test]
fn name_after_without_keyword_is_unknown() {
    assert_eq!(CodeDecomposer::name_after("let x = 1;", "fn "), "unknown");
}

#[test]
fn name_after_stops_at_whitespace_right_away() {
    assert_eq!(CodeDecomposer::name_after("fn  spaced()", "fn "), "");
}

#[test]
fn brace_block_ends_at_the_closing_brace() {
    let lines = ["fn a() {", "    x", "}", "after"];
    assert_eq!(CodeDecomposer::brace_block(&lines, 0), ("fn a() {\n    x\n}".to_string(), 2));
}

#[test]
fn brace_block_on_one_line() {
    let lines = ["struct C {}", "next"];
    assert_eq!(CodeDecomposer::brace_block(&lines, 0), ("struct C {}".to_string(), 0));
}

#[test]
fn brace_block_unclosed_takes_the_rest() {
    let lines = ["fn a() {", "  x"];
    assert_eq!(CodeDecomposer::brace_block(&lines, 0), ("fn a() {\n  x".to_string(), 1));
    let plain = ["abc", "def"];
    assert_eq!(CodeDecomposer::brace_block(&plain, 0), ("abc\ndef".to_string(), 1));
}

#[test]
fn brace_block_closing_before_opening_does_not_close() {
    let lines = ["}", "{", "}"];
    assert_eq!(CodeDecomposer::brace_block(&lines, 0), ("}\n{\n}".to_string(), 2));
}

#[test]
fn brace_block_from_the_end() {
    let lines = ["a"];
    assert_eq!(CodeDecomposer::brace_block(&lines, 1), (String::new(), 0));
}

#[test]
fn brace_block_from_a_later_line() {
    let lines = ["x", "y {", "}", "z"];
    assert_eq!(CodeDecomposer::brace_block(&lines, 1), ("y {\n}".to_string(), 2));
}

#[test]
fn indent_block_takes_deeper_and_blank_lines() {
    let lines = ["def f():", "    a", "", "    b", "x = 1"];
    assert_eq!(CodeDecomposer::indent_block(&lines, 0), ("def f():\n    a\n\n    b".to_string(), 3));
}

#[test]
fn indent_block_keeps_trailing_blank_lines() {
    let lines = ["class A:", "  x", "", ""];
    assert_eq!(CodeDecomposer::indent_block(&lines, 0), ("class A:\n  x\n\n".to_string(), 3));
}

#[test]
fn indent_block_counts_tabs() {
    let lines = ["\tdef g():", "\t\treturn 1", "\tdef h():"];
    assert_eq!(CodeDecomposer::indent_block(&lines, 0), ("\tdef g():\n\t\treturn 1".to_string(), 1));
}

#[test]
fn indent_block_of_last_line() {
    let lines = ["a", "def f():"];
    assert_eq!(CodeDecomposer::indent_block(&lines, 1), ("def f():".to_string(), 1));
}

#[test]
fn rust_tiles_in_detail() {
    let tiles = rust("use std::io;\n\nfn hello() {\n    println!(\"hi\");\n}\n\nfn world(x: i32) -> i32 {\n    x + 1\n}\n");
    assert_eq!(tiles.len(), 3);
    assert_eq!(summary(&tiles[0]), (CodeKind::Import, "use std::io;".to_string(), 1, 1));
    assert_eq!(tiles[0].body, "use std::io;");
    assert_eq!(summary(&tiles[1]), (CodeKind::Function, "hello".to_string(), 3, 5));
    assert_eq!(tiles[1].body, "fn hello() {\n    println!(\"hi\");\n}");
    assert_eq!(summary(&tiles[2]), (CodeKind::Function, "world".to_string(), 7, 9));
    assert!(tiles.iter().all(|t| t.language == Language::Rust));
}

#[test]
fn tile_meta_records_line_count() {
    let tiles = rust("fn a() {\n  1\n}\n// c\n");
    assert_eq!(tiles[0].meta.len(), 1);
    assert_eq!(tiles[0].meta.get("lines").map(|s| s.as_str()), Some("3"));
    assert_eq!(tiles[1].meta.get("lines").map(|s| s.as_str()), Some("1"));
}

#[test]
fn tile_meta_with_two_digits() {
    let mut text = String::from("fn long() {\n");
    for _ in 0..10 {
        text.push_str("    x;\n");
    }
    text.push_str("}\n");
    let tiles = rust(&text);
    assert_eq!(tiles.len(), 1);
    assert_eq!(tiles[0].end_line, 12);
    assert_eq!(tiles[0].meta.get("lines").map(|s| s.as_str()), Some("12"));
}

#[test]
fn tile_ids_are_random_uuids() {
    let tiles = rust("fn a() {}\nfn b() {}\n");
    assert_eq!(tiles[0].id.get_version_num(), 4);
    assert_ne!(tiles[0].id, tiles[1].id);
}

#[test]
fn rust_test_functions_and_comments() {
    let tiles = rust("fn test_add() {\n}\n// note\npub async fn go() {}\n");
    assert_eq!(summary(&tiles[0]), (CodeKind::Test, "test_add".to_string(), 1, 2));
    assert_eq!(summary(&tiles[1]), (CodeKind::Comment, "comment".to_string(), 3, 3));
    assert_eq!(tiles[1].body, "// note");
    assert_eq!(summary(&tiles[2]), (CodeKind::Function, "go".to_string(), 4, 4));
}

#[test]
fn rust_trait_and_indented_struct() {
    let tiles = rust("    pub struct S {\n    }\npub trait Shape {\n    fn area(&self) -> f64;\n}\n");
    assert_eq!(summary(&tiles[0]), (CodeKind::Struct, "S".to_string(), 1, 2));
    assert_eq!(tiles[0].body, "    pub struct S {\n    }");
    assert_eq!(summary(&tiles[1]), (CodeKind::Trait, "Shape".to_string(), 3, 5));
    assert_eq!(summary(&tiles[2]), (CodeKind::Function, "area".to_string(), 4, 5));
}

#[test]
fn crlf_line_endings() {
    let tiles = rust("fn a() {\r\n}\r\n");
    assert_eq!(tiles.len(), 1);
    assert_eq!(tiles[0].body, "fn a() {\n}");
    assert_eq!(tiles[0].end_line, 2);
}

#[test]
fn python_tiles_in_detail() {
    let d = CodeDecomposer::new(Language::Python);
    let tiles = d.decompose("import os\n# c\ndef test_x():\n    pass\nclass K:\n    y = 1\n");
    assert_eq!(tiles.len(), 4);
    assert_eq!(summary(&tiles[0]), (CodeKind::Import, "import os".to_string(), 1, 1));
    assert_eq!(summary(&tiles[1]), (CodeKind::Comment, "comment".to_string(), 2, 2));
    assert_eq!(summary(&tiles[2]), (CodeKind::Test, "test_x".to_string(), 3, 4));
    assert_eq!(tiles[2].body, "def test_x():\n    pass");
    assert_eq!(summary(&tiles[3]), (CodeKind::Class, "K".to_string(), 5, 6));
}

#[test]
fn typescript_interfaces_types_and_exports() {
    let d = CodeDecomposer::new(Language::JavaScript);
    let tiles = d.decompose("interface Shape {\n  area(): number;\n}\ntype Id = {\n  v: string\n}\nexport function run() {\n}\n// done\n");
    assert_eq!(tiles.len(), 4);
    assert_eq!(summary(&tiles[0]), (CodeKind::Struct, "Shape".to_string(), 1, 3));
    assert_eq!(summary(&tiles[1]), (CodeKind::Struct, "Id".to_string(), 4, 6));
    assert_eq!(summary(&tiles[2]), (CodeKind::Function, "run".to_string(), 7, 8));
    assert_eq!(summary(&tiles[3]), (CodeKind::Comment, "comment".to_string(), 9, 9));
    assert!(tiles.iter().all(|t| t.language == Language::JavaScript));
}

#[test]
fn go_tiles_in_detail() {
    let d = CodeDecomposer::new(Language::Go);
    let tiles = d.decompose("package main\n// entry\nfunc main() {\n}\n");
    assert_eq!(summary(&tiles[0]), (CodeKind::Import, "package main".to_string(), 1, 1));
    assert_eq!(summary(&tiles[1]), (CodeKind::Comment, "comment".to_string(), 2, 2));
    assert_eq!(summary(&tiles[2]), (CodeKind::Function, "main".to_string(), 3, 4));
}

#[test]
fn c_functions_and_includes() {
    let d = CodeDecomposer::new(Language::C);
    let tiles = d.decompose("#include <stdio.h>\nint main(void) {\n    if (x) {\n    }\n    return 0;\n}\n/* end */\n");
    assert_eq!(tiles.len(), 3);
    assert_eq!(summary(&tiles[0]), (CodeKind::Import, "#include <stdio.h>".to_string(), 1, 1));
    assert_eq!(summary(&tiles[1]), (CodeKind::Function, "int main".to_string(), 2, 6));
    assert_eq!(summary(&tiles[2]), (CodeKind::Comment, "comment".to_string(), 7, 7));
}

#[test]
fn java_classes_and_methods() {
    let d = CodeDecomposer::new(Language::Java);
    let tiles = d.decompose("import java.util.List;\npublic class App {\n    public static void main(String[] args) {\n    }\n}\n");
    assert_eq!(tiles.len(), 3);
    assert_eq!(summary(&tiles[0]), (CodeKind::Import, "import java.util.List;".to_string(), 1, 1));
    assert_eq!(summary(&tiles[1]), (CodeKind::Class, "App".to_string(), 2, 5));
    assert_eq!(summary(&tiles[2]), (CodeKind::Method, "main".to_string(), 3, 4));
}

#[test]
fn generic_blocks_in_detail() {
    let d = CodeDecomposer::new(Language::Unknown);
    let tiles = d.decompose("some random text\n\nmore text here\n\n");
    assert_eq!(tiles.len(), 2);
    assert_eq!(summary(&tiles[0]), (CodeKind::Block, "some".to_string(), 1, 1));
    assert_eq!(tiles[0].body, "some random text");
    assert_eq!(summary(&tiles[1]), (CodeKind::Block, "more".to_string(), 3, 3));
}

#[test]
fn generic_final_block() {
    let d = CodeDecomposer::new(Language::Unknown);
    let tiles = d.decompose("a b\nc\n\nfinal(x) y\nz");
    assert_eq!(tiles.len(), 2);
    assert_eq!(summary(&tiles[0]), (CodeKind::Block, "a".to_string(), 1, 2));
    assert_eq!(tiles[0].body, "a b\nc");
    assert_eq!(summary(&tiles[1]), (CodeKind::Block, "final".to_string(), 4, 5));
    assert_eq!(tiles[1].body, "final(x) y\nz");
}

#[test]
fn generic_whitespace_lines_are_blank() {
    let d = CodeDecomposer::new(Language::Unknown);
    let tiles = d.decompose("  f(x) \n   \nb");
    assert_eq!(summary(&tiles[0]), (CodeKind::Block, "f".to_string(), 1, 1));
    assert_eq!(summary(&tiles[1]), (CodeKind::Block, "final".to_string(), 3, 3));
}

#[test]
fn readers_keep_the_decomposer_language() {
    let d = CodeDecomposer::new(Language::Python);
    let tiles = d.decompose_rust("fn a() {}\n");
    assert_eq!(tiles[0].language, Language::Python);
}

#[test]
fn empty_text_gives_no_tiles_in_any_language() {
    for lang in [
        Language::Rust,
        Language::Python,
        Language::TypeScript,
        Language::JavaScript,
        Language::Go,
        Language::C,
        Language::Java,
        Language::Unknown,
    ] {
        assert!(CodeDecomposer::new(lang).decompose("").is_empty());
    }
}

#[test]
fn tiles_lie_within_the_text_in_line_order() {
    let text = "use a;\nfn f() {\n  fn g() {\n  }\n}\n// x\n";
    let tiles = rust(text);
    let n = text.lines().count();
    for t in &tiles {
        assert!(1 <= t.start_line && t.start_line <= t.end_line && t.end_line <= n);
    }
    for w in tiles.windows(2) {
        assert!(w[0].start_line < w[1].start_line);
    }
}

#[test]
fn detect_more_extensions() {
    assert_eq!(CodeDecomposer::detect_language("", Some("lib.c")), Language::C);
    assert_eq!(CodeDecomposer::detect_language("", Some("x.h")), Language::C);
    assert_eq!(CodeDecomposer::detect_language("", Some("Main.java")), Language::Java);
    assert_eq!(CodeDecomposer::detect_language("", Some("a.tar.go")), Language::Go);
    assert_eq!(CodeDecomposer::detect_language("", Some(".js")), Language::JavaScript);
}

#[test]
fn extension_beats_content() {
    assert_eq!(CodeDecomposer::detect_language("def f():\n import x", Some("main.rs")), Language::Rust);
}

#[test]
fn unknown_extension_falls_back_to_content() {
    assert_eq!(CodeDecomposer::detect_language("func main\npackage x", Some("file.txt")), Language::Go);
    assert_eq!(CodeDecomposer::detect_language("func main\npackage x", Some("Makefile")), Language::Go);
    assert_eq!(CodeDecomposer::detect_language("fn x", None), Language::Unknown);
    assert_eq!(CodeDecomposer::detect_language("plain words", Some("notes.md")), Language::Unknown);
}

#[test]
fn filter_keeps_matching_tiles_in_order() {
    let tiles = rust("fn a() {}\nfn b() {}\nstruct C {}\n");
    let fns = CodeDecomposer::filter_by_kind(&tiles, &CodeKind::Function);
    assert_eq!(fns.len(), 2);
    assert_eq!(fns[0].name, "a");
    assert_eq!(fns[1].name, "b");
    assert_eq!(fns[0].id, tiles[0].id);
    assert_eq!(fns[1].meta, tiles[1].meta);
    let again = CodeDecomposer::filter_by_kind(&fns, &CodeKind::Function);
    assert_eq!(again.len(), 2);
    assert!(CodeDecomposer::filter_by_kind(&fns, &CodeKind::Struct).is_empty());
}

#[test]
fn stats_in_detail() {
    let tiles = rust("use std::io;\n\nfn hello() {\n    println!(\"hi\");\n}\n\nfn world(x: i32) -> i32 {\n    x + 1\n}\n");
    let stats = CodeDecomposer::stats(&tiles);
    assert_eq!(stats.tile_count, 3);
    assert_eq!(stats.total_lines, 7);
    assert_eq!(stats.kind_counts.len(), 2);
    assert_eq!(stats.kind_counts.get("Import"), Some(&1));
    assert_eq!(stats.kind_counts.get("Function"), Some(&2));
    assert_eq!(stats.kind_counts.values().sum::<usize>(), stats.tile_count);
}

#[test]
fn stats_of_no_tiles() {
    let stats = CodeDecomposer::stats(&[]);
    assert_eq!(stats.tile_count, 0);
    assert_eq!(stats.total_lines, 0);
    assert!(stats.kind_counts.is_empty());
}

#[test]
fn stats_of_three_kinds() {
    let tiles = rust("fn a() {}\nstruct B {}\nuse std::io;\n");
    let stats = CodeDecomposer::stats(&tiles);
    assert_eq!(stats.tile_count, 3);
    assert_eq!(stats.total_lines, 3);
    assert_eq!(stats.kind_counts.len(), 3);
    assert_eq!(stats.kind_counts.get("Function"), Some(&1));
    assert_eq!(stats.kind_counts.get("Struct"), Some(&1));
    assert_eq!(stats.kind_counts.get("Import"), Some(&1));
}

#[test]
fn stats_of_concatenated_lists_add_up() {
    let a = rust("fn a() {\n}\nuse x;\n");
    let b = rust("fn b() {}\nstruct S {\n  x: i32,\n}\n");
    let sa = CodeDecomposer::stats(&a);
    let sb = CodeDecomposer::stats(&b);
    let all: Vec<CodeTile> = a.iter().chain(b.iter()).map(|t| t.clone()).collect();
    let sab = CodeDecomposer::stats(&all);
    assert_eq!(sab.tile_count, sa.tile_count + sb.tile_count);
    assert_eq!(sab.total_lines, sa.total_lines + sb.total_lines);
    assert_eq!(sab.total_lines, 7);
    for key in ["Function", "Import", "Struct", "Enum"] {
        let get = |s: &forge_code::CodeStats| s.kind_counts.get(key).copied().unwrap_or(0);
        assert_eq!(get(&sab), get(&sa) + get(&sb));
    }
    assert_eq!(sab.kind_counts.get("Function"), Some(&2));
}
