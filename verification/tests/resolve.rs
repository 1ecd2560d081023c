use modgraph::fs::FileSystem;
use modgraph::manifest::manifest_main;
use modgraph::model::{ModuleKind, ResolutionError, ResolvedModule};
use modgraph::resolve::{
    locate, locate_in_directory, locate_package, module_from, names_path, read_main, resolve,
    ResolverConfig,
};
use modgraph::visitor::Visitor;

fn file(path: &str) -> Result<ResolvedModule, ResolutionError> {
    Ok(ResolvedModule { absolute_path: path.to_string(), kind: ModuleKind::File })
}

fn not_found(specifier: &str, containing_file: &str) -> Result<ResolvedModule, ResolutionError> {
    Err(ResolutionError::NotFound {
        specifier: specifier.to_string(),
        containing_file: containing_file.to_string(),
    })
}

#[test]
fn default_config_is_that_of_node() {
    let config = ResolverConfig::default();
    assert_eq!(config.extensions, vec![".js", ".mjs", ".cjs", ".json"]);
    assert_eq!(config.manifest_name, "package.json");
    assert_eq!(config.packages_directory, "node_modules");
}

#[test]
fn manifest_main_reads_the_main_field() {
    assert_eq!(manifest_main("{\"main\": \"index.js\"}"), Some("index.js".to_string()));
    assert_eq!(manifest_main("{\"name\": \"p\", \"main\": \"./lib/entry\"}"), Some("./lib/entry".to_string()));
}

#[test]
fn manifest_without_usable_main_names_nothing() {
    assert_eq!(manifest_main("{\"name\": \"p\"}"), None);
    assert_eq!(manifest_main("{\"main\": 3}"), None);
    assert_eq!(manifest_main("[\"main\"]"), None);
    assert_eq!(manifest_main("{\"main\": "), None);
    assert_eq!(manifest_main(""), None);
    assert_eq!(manifest_main("main"), None);
}

#[test]
fn specifier_shapes() {
    assert!(names_path("./a"));
    assert!(names_path("../a"));
    assert!(names_path("/a"));
    assert!(!names_path("a"));
    assert!(!names_path(".a"));
    assert!(!names_path("a/./b"));
    assert!(!names_path("@scope/pkg"));
}

#[test]
fn extension_is_inferred_and_result_is_idempotent() {
    let mut fs = FileSystem::new();
    fs.add_file("/p/main.js", "");
    fs.add_file("/p/a.js", "");
    let config = ResolverConfig::default();
    assert_eq!(resolve(&fs, &config, "./a", "/p/main.js"), file("/p/a.js"));
    assert_eq!(resolve(&fs, &config, "./a.js", "/p/main.js"), file("/p/a.js"));
}

#[test]
fn exact_file_goes_before_extension_and_directory() {
    let mut fs = FileSystem::new();
    fs.add_file("/p/a", "");
    fs.add_file("/p/a.js", "");
    fs.add_directory("/p/b");
    fs.add_file("/p/b/index.js", "");
    fs.add_file("/p/b.js", "");
    let config = ResolverConfig::default();
    assert_eq!(resolve(&fs, &config, "./a", "/p/main.js"), file("/p/a"));
    assert_eq!(resolve(&fs, &config, "./b", "/p/main.js"), file("/p/b.js"));
}

#[test]
fn extensions_are_tried_in_order() {
    let mut fs = FileSystem::new();
    fs.add_file("/p/a.json", "");
    fs.add_file("/p/a.cjs", "");
    fs.add_file("/p/b.json", "");
    fs.add_file("/p/b.mjs", "");
    fs.add_file("/p/b.js", "");
    let config = ResolverConfig::default();
    assert_eq!(resolve(&fs, &config, "./a", "/p/main.js"), file("/p/a.cjs"));
    assert_eq!(resolve(&fs, &config, "./b", "/p/main.js"), file("/p/b.js"));
    let custom = ResolverConfig {
        extensions: vec![".json".to_string(), ".js".to_string()],
        manifest_name: "package.json".to_string(),
        packages_directory: "node_modules".to_string(),
    };
    assert_eq!(resolve(&fs, &custom, "./b", "/p/main.js"), file("/p/b.json"));
}

#[test]
fn directory_with_manifest_resolves_to_main() {
    let mut fs = FileSystem::new();
    fs.add_directory("/p/lib");
    fs.add_file("/p/lib/package.json", "{\"main\": \"index.js\"}");
    fs.add_file("/p/lib/index.js", "");
    let config = ResolverConfig::default();
    assert_eq!(
        resolve(&fs, &config, "./lib", "/p/main.js"),
        Ok(ResolvedModule { absolute_path: "/p/lib/index.js".to_string(), kind: ModuleKind::PackageMain })
    );
}

#[test]
fn main_may_lack_its_extension_or_point_below() {
    let mut fs = FileSystem::new();
    fs.add_directory("/p/lib");
    fs.add_file("/p/lib/package.json", "{\"main\": \"./src/entry\"}");
    fs.add_file("/p/lib/src/entry.mjs", "");
    fs.add_file("/p/lib/index.js", "");
    let config = ResolverConfig::default();
    assert_eq!(
        resolve(&fs, &config, "./lib", "/p/main.js"),
        Ok(ResolvedModule { absolute_path: "/p/lib/src/entry.mjs".to_string(), kind: ModuleKind::PackageMain })
    );
}

#[test]
fn directory_without_manifest_resolves_to_index() {
    let mut fs = FileSystem::new();
    fs.add_directory("/p/lib");
    fs.add_file("/p/lib/index.js", "");
    let config = ResolverConfig::default();
    assert_eq!(
        resolve(&fs, &config, "./lib", "/p/main.js"),
        Ok(ResolvedModule { absolute_path: "/p/lib/index.js".to_string(), kind: ModuleKind::DirectoryIndex })
    );
}

#[test]
fn directory_whose_main_is_missing_falls_back_to_index() {
    let mut fs = FileSystem::new();
    fs.add_directory("/p/lib");
    fs.add_file("/p/lib/package.json", "{\"main\": \"gone.js\"}");
    fs.add_file("/p/lib/index.json", "");
    let config = ResolverConfig::default();
    assert_eq!(
        resolve(&fs, &config, "./lib", "/p/main.js"),
        Ok(ResolvedModule { absolute_path: "/p/lib/index.json".to_string(), kind: ModuleKind::DirectoryIndex })
    );
}

#[test]
fn directory_without_manifest_and_index_is_not_found() {
    let mut fs = FileSystem::new();
    fs.add_directory("/p/lib");
    fs.add_file("/p/lib/other.js", "");
    let config = ResolverConfig::default();
    assert_eq!(resolve(&fs, &config, "./lib", "/p/main.js"), not_found("./lib", "/p/main.js"));
}

#[test]
fn missing_path_is_not_found() {
    let fs = FileSystem::new();
    let config = ResolverConfig::default();
    assert_eq!(resolve(&fs, &config, "./a", "/p/main.js"), not_found("./a", "/p/main.js"));
    assert_eq!(resolve(&fs, &config, "/a", "/p/main.js"), not_found("/a", "/p/main.js"));
}

#[test]
fn parent_and_absolute_specifiers() {
    let mut fs = FileSystem::new();
    fs.add_file("/p/a.js", "");
    fs.add_file("/q/b.js", "");
    let config = ResolverConfig::default();
    assert_eq!(resolve(&fs, &config, "../a", "/p/src/main.js"), file("/p/a.js"));
    assert_eq!(resolve(&fs, &config, "/q/b", "/p/src/main.js"), file("/q/b.js"));
    assert_eq!(resolve(&fs, &config, "/q/../q/./b.js", "/p/src/main.js"), file("/q/b.js"));
}

#[test]
fn bare_specifier_is_searched_upward() {
    let mut fs = FileSystem::new();
    fs.add_directory("/node_modules/far");
    fs.add_file("/node_modules/far/index.js", "");
    fs.add_directory("/p/node_modules/near");
    fs.add_file("/p/node_modules/near/package.json", "{\"main\": \"lib/near.js\"}");
    fs.add_file("/p/node_modules/near/lib/near.js", "");
    fs.add_file("/p/a/node_modules/single.js", "");
    let config = ResolverConfig::default();
    assert_eq!(
        resolve(&fs, &config, "near", "/p/a/b/main.js"),
        Ok(ResolvedModule {
            absolute_path: "/p/node_modules/near/lib/near.js".to_string(),
            kind: ModuleKind::PackageMain
        })
    );
    assert_eq!(
        resolve(&fs, &config, "far", "/p/a/b/main.js"),
        Ok(ResolvedModule {
            absolute_path: "/node_modules/far/index.js".to_string(),
            kind: ModuleKind::DirectoryIndex
        })
    );
    assert_eq!(resolve(&fs, &config, "single", "/p/a/b/main.js"), file("/p/a/node_modules/single.js"));
    assert_eq!(resolve(&fs, &config, "near/lib/near", "/p/a/b/main.js"), file("/p/node_modules/near/lib/near.js"));
}

#[test]
fn nearest_package_wins() {
    let mut fs = FileSystem::new();
    fs.add_file("/node_modules/x.js", "");
    fs.add_file("/p/node_modules/x.js", "");
    let config = ResolverConfig::default();
    assert_eq!(resolve(&fs, &config, "x", "/p/a/main.js"), file("/p/node_modules/x.js"));
    assert_eq!(resolve(&fs, &config, "x", "/q/main.js"), file("/node_modules/x.js"));
    assert_eq!(locate_package(&fs, &config, "/p/a", "x"), Some(("/p/node_modules/x.js".to_string(), ModuleKind::File)));
}

#[test]
fn unknown_package_is_package_not_found() {
    let mut fs = FileSystem::new();
    fs.add_file("/p/node_modules/x.js", "");
    let config = ResolverConfig::default();
    assert_eq!(
        resolve(&fs, &config, "y", "/p/main.js"),
        Err(ResolutionError::PackageNotFound { specifier: "y".to_string() })
    );
}

#[test]
fn resolved_path_is_the_real_path() {
    let mut fs = FileSystem::new();
    fs.add_file("/real/a.js", "");
    assert!(fs.add_link("/p/alias.js", "/real/a.js"));
    let config = ResolverConfig::default();
    assert_eq!(resolve(&fs, &config, "./alias", "/p/main.js"), file("/real/a.js"));
    assert_eq!(resolve(&fs, &config, "../real/a", "/p/main.js"), file("/real/a.js"));
}

#[test]
fn locate_steps_can_be_called_alone() {
    let mut fs = FileSystem::new();
    fs.add_directory("/p/lib");
    fs.add_file("/p/lib/package.json", "{\"main\": \"m.js\"}");
    fs.add_file("/p/lib/m.js", "");
    fs.add_file("/p/lib/index.js", "");
    let config = ResolverConfig::default();
    assert_eq!(read_main(&fs, &config, "/p/lib"), Some("m.js".to_string()));
    assert_eq!(read_main(&fs, &config, "/p"), None);
    assert_eq!(
        locate_in_directory(&fs, &config, "/p/lib", Some("m.js".to_string())),
        Some(("/p/lib/m.js".to_string(), ModuleKind::PackageMain))
    );
    assert_eq!(
        locate_in_directory(&fs, &config, "/p/lib", None),
        Some(("/p/lib/index.js".to_string(), ModuleKind::DirectoryIndex))
    );
    assert_eq!(locate(&fs, &config, "/p/lib"), Some(("/p/lib/m.js".to_string(), ModuleKind::PackageMain)));
    assert_eq!(locate(&fs, &config, "/p/none"), None);
}

#[test]
fn visitor_resolves_against_its_own_file() {
    let mut fs = FileSystem::new();
    fs.add_file("/p/src/a.js", "");
    let config = ResolverConfig::default();
    let visitor = Visitor::new("/p/src/main.js".to_string());
    assert_eq!(visitor.resolve_require(&fs, &config, "./a"), file("/p/src/a.js"));
    assert_eq!(visitor.resolve_require(&fs, &config, "./b"), not_found("./b", "/p/src/main.js"));
}

#[test]
fn module_is_known_by_its_real_path() {
    let mut fs = FileSystem::new();
    fs.add_file("/real.js", "");
    fs.add_link("/alias.js", "/real.js");
    assert_eq!(
        module_from(&fs, "/alias.js".to_string(), ModuleKind::DirectoryIndex),
        ResolvedModule { absolute_path: "/real.js".to_string(), kind: ModuleKind::DirectoryIndex }
    );
    assert_eq!(
        module_from(&fs, "/none.js".to_string(), ModuleKind::File),
        ResolvedModule { absolute_path: "/none.js".to_string(), kind: ModuleKind::File }
    );
}

#[test]
fn resolved_module_is_a_file_under_its_own_absolute_real_path() {
    let mut fs = FileSystem::new();
    fs.add_file("/real/a.js", "");
    fs.add_directory("/real/lib");
    fs.add_file("/real/lib/index.js", "");
    fs.add_directory("/p/node_modules/pkg");
    fs.add_file("/p/node_modules/pkg/main.js", "");
    fs.add_file("/p/node_modules/pkg/package.json", "{\"main\": \"main.js\"}");
    assert!(fs.add_link("/p/a.js", "/real/a.js"));
    assert!(fs.add_link("/p/again.js", "/p/a.js"));
    assert!(fs.add_link("/p/lib", "/real/lib"));
    assert!(fs.add_link("/p/lib/index.js", "/real/lib/index.js"));
    let config = ResolverConfig::default();
    for specifier in ["./a", "./again.js", "./lib", "/real/a", "pkg", "../real/lib/index"] {
        let module = resolve(&fs, &config, specifier, "/p/main.js").unwrap();
        let path = module.absolute_path.as_str();
        assert!(path.starts_with('/'), "{specifier}");
        assert!(fs.is_file(path), "{specifier}");
        assert_eq!(fs.canonicalize(path), Some(path.to_string()), "{specifier}");
    }
    assert_eq!(resolve(&fs, &config, "./again.js", "/p/main.js"), file("/real/a.js"));
}
