use wesl_build::mod_path::{ModulePath, PathOrigin};
use wesl_build::wgpu_bindings::{demangle_wesl, WgpuBindingsError, WgpuBindingsExtension};
use wesl_build::wgsl_minifier::WgslMinifierExtension;

fn absolute(components: &[&str]) -> ModulePath {
    ModulePath::new(
        PathOrigin::Absolute,
        components.iter().map(|c| c.to_string()).collect(),
    )
}

const SIMPLE_WGSL: &str = "
@group(0) @binding(0) var<uniform> scale : vec4<f32>;

@fragment
fn fs_main() -> @location(0) vec4<f32> {
    return scale;
}
";

#[test]
fn bindings_module_file_follows_the_walk() {
    let mut ext = WgpuBindingsExtension::new("./bindings".to_string());
    assert_eq!(ext.mod_file_path(), "./bindings/mod.rs");

    let line = ext.enter_mod("sub");
    assert_eq!(line, "pub(crate) mod sub;");
    assert_eq!(ext.mod_file_path(), "./bindings/sub/mod.rs");

    let line = ext.enter_mod("inner");
    assert_eq!(line, "pub(crate) mod inner;");
    assert_eq!(ext.mod_file_path(), "./bindings/sub/inner/mod.rs");

    ext.exit_mod();
    assert_eq!(ext.mod_file_path(), "./bindings/sub/mod.rs");
    ext.exit_mod();
    assert_eq!(ext.mod_file_path(), "./bindings/mod.rs");
}

#[test]
fn binding_paths_mirror_the_module_path() {
    let ext = WgpuBindingsExtension::new("./bindings".to_string());
    let (path, line) = ext.binding_paths(&absolute(&["sub", "tex"]));
    assert_eq!(path, "./bindings/sub/tex.rs");
    assert_eq!(line, "pub(crate) mod tex;");
    let (path, line) = ext.binding_paths(&absolute(&["tex"]));
    assert_eq!(path, "./bindings/tex.rs");
    assert_eq!(line, "pub(crate) mod tex;");
}

#[test]
fn generate_bindings_produces_rust_for_a_shader() {
    let ext = WgpuBindingsExtension::new("./bindings".to_string());
    let out = ext
        .generate_bindings(&absolute(&["sub", "tex"]), SIMPLE_WGSL, "out/package_sub_tex.wgsl")
        .expect("bindings generation failed on a valid shader");
    assert_eq!(out.binding_path, "./bindings/sub/tex.rs");
    assert_eq!(out.mod_line, "pub(crate) mod tex;");
    assert!(!out.text.is_empty());
    assert!(out.text.contains("fs_main"), "bindings do not mention the entry point: {}", out.text);
    assert_ne!(out.text, SIMPLE_WGSL, "the generator handed its input back");
}

#[test]
fn generate_bindings_reports_bad_shaders() {
    let ext = WgpuBindingsExtension::new("./bindings".to_string());
    let err = ext
        .generate_bindings(&absolute(&["tex"]), "fn broken(", "out/package__tex.wgsl")
        .expect_err("an unparsable shader must be rejected");
    match err {
        WgpuBindingsError::CreateBindingsModuleErr { message } => {
            assert!(!message.is_empty());
        },
        other => panic!("expected a module creation error, got {other:?}"),
    }
}

#[test]
fn bindings_demangle_mangled_struct_names() {
    // the compiler mangles imported struct names; the generator must route
    // them back into their modules through the library's codec
    let source = "
struct package_sub_light_Config {
    scale : vec4<f32>,
};

@group(0) @binding(0) var<uniform> config : package_sub_light_Config;

@fragment
fn fs_main() -> @location(0) vec4<f32> {
    return config.scale;
}
";
    let ext = WgpuBindingsExtension::new("./bindings".to_string());
    let out = ext
        .generate_bindings(&absolute(&["tex"]), source, "out/package__tex.wgsl")
        .expect("bindings generation failed on a shader with mangled names");
    assert!(
        out.text.contains("Config"),
        "the demangled struct name is missing: {}",
        out.text
    );
    assert!(
        out.text.contains("sub") && out.text.contains("light"),
        "the demangled module path is missing: {}",
        out.text
    );
}

#[test]
fn demangle_recovers_module_paths() {
    let r = demangle_wesl("package_sub_tex");
    assert_eq!(r.components, vec!["sub".to_string()]);
    assert_eq!(r.name, "tex");

    let r = demangle_wesl("package__1my_util_item");
    assert_eq!(r.components, vec!["my_util".to_string()]);
    assert_eq!(r.name, "item");

    let r = demangle_wesl("package__a");
    assert!(r.components.is_empty());
    assert_eq!(r.name, "a");
}

#[test]
fn demangle_falls_back_to_the_root_module() {
    // not mangled at all
    let r = demangle_wesl("vertexmain");
    assert!(r.components.is_empty());
    assert_eq!(r.name, "vertexmain");

    // package prefix but not a valid mangled name
    let r = demangle_wesl("package_");
    assert!(r.components.is_empty());
    assert_eq!(r.name, "package_");

    // mangled by an unrelated scheme
    let r = demangle_wesl("item_32938483840293402930392");
    assert!(r.components.is_empty());
    assert_eq!(r.name, "item_32938483840293402930392");
}

#[test]
fn minifier_respects_the_build_profile() {
    let always = WgslMinifierExtension { release_only: false };
    assert!(always.should_minify("debug"));
    assert!(always.should_minify("release"));

    let release_only = WgslMinifierExtension { release_only: true };
    assert!(!release_only.should_minify("debug"));
    assert!(release_only.should_minify("release"));
    assert!(!release_only.should_minify("bench"));

    let skipped = release_only.minify_built_source("debug", SIMPLE_WGSL).unwrap();
    assert!(skipped.is_none());
}

#[test]
fn minifier_shrinks_a_shader() {
    let ext = WgslMinifierExtension { release_only: false };
    let out = ext
        .minify_built_source("debug", SIMPLE_WGSL)
        .expect("minification failed on a valid shader")
        .expect("a valid shader must be minified");
    assert!(!out.is_empty());
    assert!(out.len() < SIMPLE_WGSL.len(), "minified output is not smaller: {out}");
    assert!(!out.contains("\n    return"), "whitespace survived minification: {out}");
}

#[test]
fn minifier_reports_bad_shaders() {
    let ext = WgslMinifierExtension { release_only: false };
    let err = ext
        .minify_built_source("release", "fn broken(")
        .expect_err("an unparsable shader must be rejected");
    assert!(!err.is_empty());
}

#[test]
fn minifier_is_a_function_of_the_source() {
    let ext = WgslMinifierExtension { release_only: false };
    let first = ext.minify_built_source("release", SIMPLE_WGSL).unwrap().unwrap();
    let second = ext.minify_built_source("release", SIMPLE_WGSL).unwrap().unwrap();
    assert_eq!(first, second);
}

#[test]
fn bindings_are_a_function_of_source_and_path() {
    let ext = WgpuBindingsExtension::new("./bindings".to_string());
    let first = ext
        .generate_bindings(&absolute(&["tex"]), SIMPLE_WGSL, "out/package__tex.wgsl")
        .unwrap();
    let second = ext
        .generate_bindings(&absolute(&["tex"]), SIMPLE_WGSL, "out/package__tex.wgsl")
        .unwrap();
    assert_eq!(first.text, second.text);
}

#[test]
fn bindings_error_messages_carry_the_diagnostic() {
    let err = WgpuBindingsError::IoErr { error: "file vanished".to_string() };
    assert_eq!(err.message(), "file vanished");
    let err = WgpuBindingsError::CreateBindingsModuleErr { message: "bad module".to_string() };
    assert_eq!(err.message(), "bad module");
}
