use forge_code::{CodeDecomposer, CodeKind, Language};

#[test]
fn test_rust_functions() {
    let d = CodeDecomposer::new(Language::Rust);
    let tiles = d.decompose("use std::io;\n\nfn hello() {\n    println!(\"hi\");\n}\n\nfn world(x: i32) -> i32 {\n    x + 1\n}\n");
    assert_eq!(tiles.iter().filter(|t| t.kind == CodeKind::Function).count(), 2);
}

#[test]
fn test_rust_struct() {
    let d = CodeDecomposer::new(Language::Rust);
    let tiles = d.decompose("struct Foo { x: i32, y: i32 }\n");
    assert!(tiles.iter().any(|t| t.kind == CodeKind::Struct && t.name == "Foo"));
}

#[test]
fn test_rust_enum() {
    let d = CodeDecomposer::new(Language::Rust);
    let tiles = d.decompose("enum Color { Red, Green, Blue }\n");
    assert!(tiles.iter().any(|t| t.kind == CodeKind::Enum && t.name == "Color"));
}

#[test]
fn test_rust_impl() {
    let d = CodeDecomposer::new(Language::Rust);
    let tiles = d.decompose("impl Foo { fn bar(&self) {} }\n");
    assert!(tiles.iter().any(|t| t.kind == CodeKind::Impl));
}

#[test]
fn test_python_functions() {
    let d = CodeDecomposer::new(Language::Python);
    let tiles = d.decompose("def hello():\n    print('hi')\n\ndef add(x, y):\n    return x + y\n");
    assert_eq!(tiles.iter().filter(|t| t.kind == CodeKind::Function).count(), 2);
}

#[test]
fn test_python_class() {
    let d = CodeDecomposer::new(Language::Python);
    let tiles = d.decompose("class Dog:\n    def bark(self):\n        print('woof')\n");
    assert!(tiles.iter().any(|t| t.kind == CodeKind::Class && t.name == "Dog"));
}

#[test]
fn test_typescript() {
    let d = CodeDecomposer::new(Language::TypeScript);
    let tiles = d.decompose("import { foo } from 'bar';\nfunction greet(name: string): void {\n    console.log(name);\n}\nclass App {\n    run() {}\n}\n");
    assert!(tiles.iter().any(|t| t.kind == CodeKind::Import));
    assert!(tiles.iter().any(|t| t.kind == CodeKind::Function));
}

#[test]
fn test_go() {
    let d = CodeDecomposer::new(Language::Go);
    let tiles = d.decompose("package main\nimport \"fmt\"\nfunc main() {\n    fmt.Println(\"hi\")\n}\ntype Point struct {\n    X int\n    Y int\n}\n");
    assert!(tiles.iter().any(|t| t.kind == CodeKind::Function && t.name == "main"));
    assert!(tiles.iter().any(|t| t.kind == CodeKind::Struct && t.name == "Point"));
}

#[test]
fn test_detect_rust() {
    assert_eq!(CodeDecomposer::detect_language("fn main() { let mut x = 1; }", None), Language::Rust);
}

#[test]
fn test_detect_python() {
    assert_eq!(CodeDecomposer::detect_language("def hello():\n    import os\n", None), Language::Python);
}

#[test]
fn test_detect_by_filename() {
    assert_eq!(CodeDecomposer::detect_language("", Some("main.rs")), Language::Rust);
    assert_eq!(CodeDecomposer::detect_language("", Some("app.py")), Language::Python);
    assert_eq!(CodeDecomposer::detect_language("", Some("index.ts")), Language::TypeScript);
}

#[test]
fn test_filter_by_kind() {
    let d = CodeDecomposer::new(Language::Rust);
    let tiles = d.decompose("fn a() {}\nfn b() {}\nstruct C {}\n");
    let fns = CodeDecomposer::filter_by_kind(&tiles, &CodeKind::Function);
    assert!(fns.len() >= 2);
}

#[test]
fn test_stats() {
    let d = CodeDecomposer::new(Language::Rust);
    let tiles = d.decompose("fn a() {}\nstruct B {}\nuse std::io;\n");
    let stats = CodeDecomposer::stats(&tiles);
    assert!(stats.tile_count >= 3);
}

#[test]
fn test_generic() {
    let d = CodeDecomposer::new(Language::Unknown);
    let tiles = d.decompose("some random text\n\nmore text here\n\n");
    assert!(!tiles.is_empty());
}

#[test]
fn test_empty() {
    let d = CodeDecomposer::new(Language::Rust);
    assert!(d.decompose("").is_empty());
}
