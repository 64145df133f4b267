use dino::resolver::{
    resolve, FileSet, ImportMap, MapEntry, ModuleIdentity, ScopeEntry, core_module_list,
    is_core_module, lookup_import, resolve_path,
};

fn file_set(paths: &[&str]) -> FileSet {
    FileSet { paths: paths.iter().map(|p| p.to_string()).collect() }
}

fn expect_file(r: Result<ModuleIdentity, dino::errors::ResolutionError>, path: &str) {
    match r.unwrap() {
        ModuleIdentity::File { path: p } => assert_eq!(p, path),
        ModuleIdentity::Core { name } => panic!("expected a file, got core {name}"),
    }
}

#[test]
fn relative_specifier_resolves_to_existing_file() {
    let fs = file_set(&["/proj/main.ts", "/proj/lib/util.ts"]);
    let r = resolve("/proj/main.ts", "./lib/util.ts", &None, &fs);
    expect_file(r, "/proj/lib/util.ts");
}

#[test]
fn missing_relative_path_fails_with_resolution_error() {
    let fs = file_set(&["/proj/main.ts"]);
    let e = resolve("/proj/main.ts", "./lib/util.ts", &None, &fs).unwrap_err();
    assert_eq!(e.base, "/proj/main.ts");
    assert_eq!(e.specifier, "./lib/util.ts");
    assert_eq!(e.message(), "cannot resolve './lib/util.ts' from '/proj/main.ts'");
}

#[test]
fn extensionless_path_probes_extension_list() {
    let fs = file_set(&["/proj/main.ts", "/proj/lib/util.ts"]);
    let r = resolve("/proj/main.ts", "./lib/util", &None, &fs);
    expect_file(r, "/proj/lib/util.ts");

    let fs2 = file_set(&["/proj/main.ts", "/proj/data.json"]);
    let r2 = resolve("/proj/main.ts", "./data", &None, &fs2);
    expect_file(r2, "/proj/data.json");
}

#[test]
fn parent_segments_are_normalized_away() {
    let fs = file_set(&["/proj/a/b/mod.ts", "/proj/a/x.ts"]);
    let r = resolve("/proj/a/b/mod.ts", "../x.ts", &None, &fs);
    expect_file(r, "/proj/a/x.ts");
}

#[test]
fn absolute_specifier_ignores_base_directory() {
    let fs = file_set(&["/elsewhere/dep.js"]);
    let r = resolve("/proj/main.ts", "/elsewhere/dep.js", &None, &fs);
    expect_file(r, "/elsewhere/dep.js");
}

#[test]
fn core_name_resolves_to_core_whatever_the_environment() {
    // empty file set, and an import map that tries to redirect the name
    let fs = file_set(&[]);
    let map = ImportMap {
        entries: vec![MapEntry { prefix: "console".to_string(), target: "/vendor/console".to_string() }],
        scopes: vec![],
    };
    let r = resolve("/proj/main.ts", "console", &Some(map), &fs).unwrap();
    assert!(matches!(r, ModuleIdentity::Core { ref name } if name == "console"));
    assert!(is_core_module("fs"));
    assert!(!is_core_module("lodash"));
    assert_eq!(core_module_list().len(), 12);
}

#[test]
fn bare_specifier_goes_through_the_import_map() {
    let fs = file_set(&["/vendor/lodash/fp.js"]);
    let map = ImportMap {
        entries: vec![MapEntry { prefix: "lodash".to_string(), target: "/vendor/lodash".to_string() }],
        scopes: vec![],
    };
    let r = resolve("/proj/main.ts", "lodash/fp.js", &Some(map), &fs);
    expect_file(r, "/vendor/lodash/fp.js");
}

#[test]
fn unmapped_bare_specifier_fails() {
    let fs = file_set(&["/proj/main.ts"]);
    let e = resolve("/proj/main.ts", "lodash", &None, &fs).unwrap_err();
    assert_eq!(e.specifier, "lodash");
}

#[test]
fn longest_prefix_wins_and_scopes_take_precedence() {
    let map = ImportMap {
        entries: vec![
            MapEntry { prefix: "lib".to_string(), target: "/vendor/lib".to_string() },
            MapEntry { prefix: "lib/deep".to_string(), target: "/vendor/deep".to_string() },
        ],
        scopes: vec![ScopeEntry {
            scope: "/proj/special/".to_string(),
            entries: vec![MapEntry { prefix: "lib".to_string(), target: "/scoped/lib".to_string() }],
        }],
    };

    // longest prefix among unscoped entries
    let got = lookup_import(&map, "/proj/main.ts", "lib/deep/x.js").unwrap();
    assert_eq!(got.0, "lib/deep");
    assert_eq!(got.1, "/vendor/deep");

    // a scoped entry beats the unscoped ones for modules under its scope
    let got2 = lookup_import(&map, "/proj/special/mod.ts", "lib/x.js").unwrap();
    assert_eq!(got2.1, "/scoped/lib");

    let fs = file_set(&["/vendor/deep/x.js"]);
    let r = resolve("/proj/main.ts", "lib/deep/x.js", &Some(map), &fs);
    expect_file(r, "/vendor/deep/x.js");
}

#[test]
fn canonical_paths_deduplicate_dot_segments() {
    assert_eq!(resolve_path("/proj/main.ts", "./a/./b/../c.ts"), "/proj/a/c.ts");
    assert_eq!(resolve_path("/proj/x/y/mod.ts", "../../z.ts"), "/proj/z.ts");
    assert_eq!(resolve_path("/proj/main.ts", "/abs/p.js"), "/abs/p.js");
}
