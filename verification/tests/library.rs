use vpy_core::library::{
    initial_module_source, library_readme, new_library_manifest, path_join_exec, Library,
    LibraryRegistry, LIBRARY_MANIFEST,
};

fn library(name: &str, root: &str, exports: &[&str]) -> Library {
    let mut manifest = new_library_manifest(name);
    manifest.exports.modules = exports.iter().map(|s| s.to_string()).collect();
    Library { root: root.to_string(), manifest, modules: Vec::new() }
}

#[test]
fn manifest_file_name() {
    assert_eq!(LIBRARY_MANIFEST, "library.vpylib");
}

#[test]
fn paths_join_like_unix_paths() {
    assert_eq!(path_join_exec("libs", "gfx"), "libs/gfx");
    assert_eq!(path_join_exec("libs/", "gfx"), "libs/gfx");
    assert_eq!(path_join_exec("libs", "/abs"), "/abs");
    assert_eq!(path_join_exec("", "gfx"), "gfx");
}

#[test]
fn new_manifest_defaults() {
    let m = new_library_manifest("my-lib");
    assert_eq!(m.library.name, "my-lib");
    assert_eq!(m.library.version, "0.1.0");
    assert_eq!(m.library.description, "A VPy library: my-lib");
    assert_eq!(m.library.license, "MIT");
    assert_eq!(m.library.keywords, vec!["vectrex".to_string(), "vpy".to_string()]);
    assert!(m.exports.modules.is_empty());
    assert!(m.dependencies.is_empty());
}

#[test]
fn skeleton_texts_name_the_library() {
    let src = initial_module_source("gfx");
    assert!(src.starts_with("# gfx - Main module\n"));
    assert!(src.contains("\"\"\"An example function from gfx.\"\"\""));
    let readme = library_readme("gfx", "A VPy library: gfx", "MIT");
    assert!(readme.starts_with("# gfx\n\nA VPy library: gfx\n"));
    assert!(readme.contains("gfx = { path = \"../path/to/gfx\" }"));
    assert!(readme.ends_with("## License\n\nMIT\n"));
}

#[test]
fn modules_are_the_vpy_files_but_init() {
    let names: Vec<String> = ["a.vpy", "__init__.vpy", "notes.txt", "b.vpy", ".vpy"].iter().map(|s| s.to_string()).collect();
    assert_eq!(Library::discover_modules(&names), vec!["a".to_string(), "b".to_string()]);
}

#[test]
fn module_paths_and_exports() {
    let open = library("open", "libs/open", &[]);
    assert_eq!(open.module_source_path("util"), "libs/open/src/util.vpy");
    assert!(open.is_module_exported("anything"));
    let closed = library("closed", "libs/closed", &["api"]);
    assert!(closed.is_module_exported("api"));
    assert!(!closed.is_module_exported("internal"));
    assert_eq!(closed.name(), "closed");
    assert_eq!(closed.version(), "0.1.0");
}

#[test]
fn registry_finds_loaded_libraries() {
    let mut reg = LibraryRegistry::new();
    reg.add_search_path("libs".to_string());
    reg.add_search_path("vendor".to_string());
    reg.add_search_path("libs".to_string());
    assert_eq!(reg.library_candidates("gfx"), vec!["libs/gfx".to_string(), "vendor/gfx".to_string()]);
    assert!(reg.find_library("gfx").is_none());
    assert_eq!(reg.resolve_library("gfx").err(), Some("Library 'gfx' not found".to_string()));
    reg.load_library(library("gfx", "libs/gfx", &[]));
    assert_eq!(reg.find_library("gfx").map(|l| l.name()), Some("gfx"));
    assert_eq!(reg.resolve_library("gfx").map(|l| l.root.clone()), Ok("libs/gfx".to_string()));
    assert_eq!(reg.list_libraries().len(), 1);
    assert_eq!(reg.resolve_module("gfx", "draw"), Some("libs/gfx/src/draw.vpy".to_string()));
    assert_eq!(reg.resolve_module("snd", "draw"), None);
}
