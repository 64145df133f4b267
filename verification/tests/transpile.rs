use dino::loader::{has_ts_ext, load_prepared, prepare_source, SourceCache};
use dino::transpiler::TypeScript;

#[test]
fn compile_strips_type_annotations() {
    let js = TypeScript::compile(None, "const x: number = 1;").unwrap();
    assert!(!js.contains(": number"));
    assert!(js.contains("const x = 1;"));
}

#[test]
fn compile_keeps_runtime_constructs() {
    let src = "enum Color { Red, Green }\nconst c: Color = Color.Red;\n";
    let js = TypeScript::compile(Some("colors.ts"), src).unwrap();
    // the enum has runtime effect and must survive type stripping
    assert!(js.contains("Color"));
    assert!(!js.contains("enum Color"));
}

#[test]
fn syntax_error_is_a_recoverable_value() {
    let e = TypeScript::compile(Some("bad.ts"), "const = ;").unwrap_err();
    assert_eq!(e.filename.as_deref(), Some("bad.ts"));
    assert_eq!(e.message(), "TypeScript compilation failed.");
}

#[test]
fn loader_routes_by_extension() {
    assert!(has_ts_ext("/p/a.ts"));
    assert!(has_ts_ext("/p/a.tsx"));
    assert!(!has_ts_ext("/p/a.js"));
    assert!(!has_ts_ext("/p/a.json"));

    // JavaScript passes through verbatim
    let js = prepare_source("/p/a.js", "let y: = broken").unwrap();
    assert_eq!(js, "let y: = broken");

    // TypeScript is transpiled
    let ts = prepare_source("/p/a.ts", "const x: number = 1;").unwrap();
    assert!(!ts.contains(": number"));
}

#[test]
fn load_cache_reuses_and_skips() {
    let mut cache = SourceCache::new();
    let t1 = load_prepared(&mut cache, "/p/a.ts", "const x: number = 1;", false).unwrap();
    assert!(!t1.contains(": number"));
    // a hit returns the stored text even if the raw text changed meanwhile
    let t2 = load_prepared(&mut cache, "/p/a.ts", "const y: number = 2;", false).unwrap();
    assert_eq!(t1, t2);
    // skipping the cache prepares fresh and leaves the cache untouched
    let t3 = load_prepared(&mut cache, "/p/a.ts", "const y: number = 2;", true).unwrap();
    assert!(t3.contains("y"));
    let t4 = load_prepared(&mut cache, "/p/a.ts", "const z: number = 3;", false).unwrap();
    assert_eq!(t4, t1);
}

#[test]
fn cache_get_and_insert_are_exact() {
    let mut cache = SourceCache::new();
    assert!(cache.get("/p/a.ts").is_none());
    cache.insert("/p/a.ts".to_string(), "text".to_string());
    assert_eq!(cache.get("/p/a.ts").unwrap(), "text");
    assert!(cache.get("/p/b.ts").is_none());
}
