use dino::cache::{generate_build_file_name, is_allowed_for_hash, plan_build, CacheFile};
use dino::graph::{ProjectFiles, SourceFile};
use dino::options::{decorate_bundle, plan_bundle, Options};

fn cache_file(path: &str, bytes: &[u8]) -> CacheFile {
    CacheFile { path: path.to_string(), bytes: bytes.to_vec() }
}

#[test]
fn build_name_is_stable_across_enumeration_order() {
    let a = vec![
        cache_file("/p/a.ts", b"alpha"),
        cache_file("/p/b.ts", b"beta"),
        cache_file("/p/c.json", b"{}"),
    ];
    let b = vec![
        cache_file("/p/c.json", b"{}"),
        cache_file("/p/a.ts", b"alpha"),
        cache_file("/p/b.ts", b"beta"),
    ];
    let n1 = generate_build_file_name(a);
    let n2 = generate_build_file_name(b);
    assert_eq!(n1, n2);
    assert!(n1.ends_with(".js"));
    assert_eq!(n1.len(), 64 + 3);
}

#[test]
fn hash_allow_list_follows_resolvable_extensions() {
    assert!(is_allowed_for_hash("/p/a.ts", "/p/build"));
    assert!(is_allowed_for_hash("/p/a.tsx", "/p/build"));
    assert!(is_allowed_for_hash("/p/a.js", "/p/build"));
    assert!(is_allowed_for_hash("/p/a.json", "/p/build"));
    assert!(!is_allowed_for_hash("/p/readme.md", "/p/build"));
    assert!(!is_allowed_for_hash("/p/build/cached.js", "/p/build"));
}

#[test]
fn second_build_is_a_cache_hit() {
    let files = || vec![cache_file("/p/a.ts", b"alpha"), cache_file("/p/b.ts", b"beta")];
    let first = plan_build(files(), &vec![]);
    assert!(!first.cache_hit);
    let second = plan_build(files(), &vec![first.file_name.clone()]);
    assert!(second.cache_hit);
    assert_eq!(second.file_name, first.file_name);
}

#[test]
fn changing_any_byte_changes_the_name() {
    let base = vec![cache_file("/p/a.ts", b"alpha"), cache_file("/p/b.ts", b"beta")];
    let tweaked = vec![cache_file("/p/a.ts", b"alphA"), cache_file("/p/b.ts", b"beta")];
    let n1 = generate_build_file_name(base);
    let n2 = generate_build_file_name(tweaked);
    assert_ne!(n1, n2);
}

#[test]
fn duplicate_entries_do_not_change_the_name() {
    let once = vec![cache_file("/p/a.ts", b"alpha")];
    let twice = vec![cache_file("/p/a.ts", b"alpha"), cache_file("/p/a.ts", b"alpha")];
    assert_eq!(generate_build_file_name(once), generate_build_file_name(twice));
}

#[test]
fn bundle_inlines_sibling_and_keeps_core_external() {
    let files = ProjectFiles {
        files: vec![
            SourceFile {
                path: "/p/main.ts".to_string(),
                text: "import \"console\";\nimport { greet } from \"./lib.ts\";\ngreet();\n".to_string(),
            },
            SourceFile {
                path: "/p/lib.ts".to_string(),
                text: "export function greet(): void { print(\"hi\"); }\n".to_string(),
            },
        ],
    };
    let g = plan_bundle("/p/main.ts", &files, &Options::default()).unwrap();
    assert_eq!(g.records.len(), 2);
    assert_eq!(g.records[0].path, "/p/main.ts");
    assert!(g.records[0].is_entry);
    assert_eq!(g.records[1].path, "/p/lib.ts");
    assert!(!g.records[1].is_entry);
    // the sibling was pulled into the graph and the core import stayed external
    assert_eq!(g.externals, vec!["console".to_string()]);
    // the type annotation of the sibling is gone from its prepared text
    assert!(!g.records[1].source.contains(": void"));
}

#[test]
fn import_cycles_terminate() {
    let files = ProjectFiles {
        files: vec![
            SourceFile {
                path: "/p/a.js".to_string(),
                text: "import \"./b.js\";\nexport const a = 1;\n".to_string(),
            },
            SourceFile {
                path: "/p/b.js".to_string(),
                text: "import \"./a.js\";\nexport const b = 2;\n".to_string(),
            },
        ],
    };
    let g = plan_bundle("/p/a.js", &files, &Options::default()).unwrap();
    assert_eq!(g.records.len(), 2);
    assert!(g.externals.is_empty());
}

#[test]
fn unresolved_import_aborts_the_bundle() {
    let files = ProjectFiles {
        files: vec![SourceFile {
            path: "/p/main.js".to_string(),
            text: "import \"./missing.js\";\n".to_string(),
        }],
    };
    let e = plan_bundle("/p/main.js", &files, &Options::default()).unwrap_err();
    assert!(matches!(e, dino::errors::BundleError::Resolution(_)));
}

#[test]
fn missing_entry_is_a_load_error() {
    let files = ProjectFiles { files: vec![] };
    let e = plan_bundle("/p/main.ts", &files, &Options::default()).unwrap_err();
    assert!(matches!(e, dino::errors::BundleError::Load(_)));
}

#[test]
fn broken_typescript_aborts_the_bundle() {
    let files = ProjectFiles {
        files: vec![SourceFile {
            path: "/p/main.ts".to_string(),
            text: "const = ;".to_string(),
        }],
    };
    let e = plan_bundle("/p/main.ts", &files, &Options::default()).unwrap_err();
    assert!(matches!(e, dino::errors::BundleError::Compile(_)));
}

#[test]
fn header_decorates_only_unminified_bundles() {
    let minified = decorate_bundle("x();", true);
    assert_eq!(minified, "x();");
    let plain = decorate_bundle("x();", false);
    assert!(plain.starts_with("// dino v0.1.0\n"));
    assert!(plain.ends_with("x();"));
    assert!(plain.contains("build artifact"));
}

#[test]
fn default_options_are_minified_iife_without_map() {
    let o = Options::default();
    assert!(o.skip_cache);
    assert!(o.minify);
    assert!(o.import_map.is_none());
    assert!(matches!(o.module, dino::options::ModuleFormat::Iife));
}
