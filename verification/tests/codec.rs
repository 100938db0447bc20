use wesl::Mangler;
use wesl_build::artifact::{artifact_path, shader_artifact_path};
use wesl_build::codec::{mangle, unmangle};
use wesl_build::mod_path::{ModulePath, PathOrigin};

fn absolute(components: &[&str]) -> ModulePath {
    ModulePath::new(
        PathOrigin::Absolute,
        components.iter().map(|c| c.to_string()).collect(),
    )
}

fn package_relative(components: &[&str]) -> ModulePath {
    ModulePath::new(
        PathOrigin::PackageRelative,
        components.iter().map(|c| c.to_string()).collect(),
    )
}

#[test]
fn mangle_plain_components() {
    assert_eq!(mangle(&absolute(&["foo", "bar"]), "item"), "package_foo_bar_item");
    assert_eq!(mangle(&absolute(&["sub"]), "b"), "package_sub_b");
    assert_eq!(mangle(&package_relative(&["a"]), "item"), "self_a_item");
}

#[test]
fn mangle_root_module() {
    assert_eq!(mangle(&absolute(&[]), "a"), "package__a");
    assert_eq!(mangle(&absolute(&[]), "textures_3d"), "package___1textures_3d");
}

#[test]
fn mangle_escapes_underscores() {
    assert_eq!(mangle(&absolute(&["bevy_pbr"]), "lighting"), "package__1bevy_pbr_lighting");
    assert_eq!(
        mangle(&absolute(&["a_b", "c_d"]), "e"),
        "package__1a_b__1c_d_e"
    );
    assert_eq!(mangle(&absolute(&["_a_b__c___"]), "item"), "package__7_a_b__c____item");
}

#[test]
fn mangle_matches_wesl_escape_mangler() {
    let cases: &[(&[&str], &str)] = &[
        (&["foo", "bar"], "item"),
        (&["bevy_pbr"], "lighting"),
        (&["a_b", "c_d"], "e"),
        (&["_a_b__c___"], "item"),
        (&["sub"], "b"),
    ];
    for (components, item) in cases {
        let ours = mangle(&absolute(components), item);
        let theirs = wesl::EscapeMangler.mangle(
            &wesl::ModulePath::new(
                wesl::syntax::PathOrigin::Absolute,
                components.iter().map(|c| c.to_string()).collect(),
            ),
            item,
        );
        assert_eq!(ours, theirs, "diverged from wesl on {components:?} + {item}");
    }
}

#[test]
fn unmangle_inverts_mangle() {
    let cases: &[(&[&str], &str)] = &[
        (&[], "a"),
        (&[], "textures_3d"),
        (&["foo", "bar"], "item"),
        (&["bevy_pbr"], "lighting"),
        (&["a_b", "c_d"], "e"),
        (&["_a_b__c___"], "item"),
        (&["sub"], "b"),
        (&["_"], "x"),
    ];
    for (components, item) in cases {
        let path = absolute(components);
        let mangled = mangle(&path, item);
        let (rpath, ritem) = unmangle(&mangled)
            .unwrap_or_else(|| panic!("unmangle refused {mangled}"));
        assert_eq!(rpath.origin, PathOrigin::Absolute);
        assert_eq!(rpath.components, path.components);
        assert_eq!(ritem, *item);
    }
}

#[test]
fn unmangle_inverts_package_relative() {
    let path = package_relative(&["util"]);
    let mangled = mangle(&path, "clamp_to");
    assert_eq!(mangled, "self_util__1clamp_to");
    let (rpath, ritem) = unmangle(&mangled).unwrap();
    assert_eq!(rpath.origin, PathOrigin::PackageRelative);
    assert_eq!(rpath.components, vec!["util".to_string()]);
    assert_eq!(ritem, "clamp_to");
}

#[test]
fn unmangle_rejects_foreign_names() {
    // names from unrelated conventions come back absent, not as an error
    assert!(unmangle("").is_none());
    assert!(unmangle("item_32938483840293402930392").is_none());
    assert!(unmangle("package").is_none());
    assert!(unmangle("package_").is_none());
    assert!(unmangle("foo_bar").is_none());
    assert!(unmangle("vertex-main").is_none());
    assert!(unmangle("package_a-b").is_none());
}

#[test]
fn unmangle_rejects_near_misses() {
    // a count that does not match the joined tokens
    assert!(unmangle("package__2a_b").is_none());
    // a count with a leading zero is never produced by mangle
    assert!(unmangle("package__01a_b").is_none());
    // a bare component may not start with a digit
    assert!(unmangle("package_01abc").is_none());
    // the empty-path marker must carry exactly one item
    assert!(unmangle("package__a_b").is_none());
}

#[test]
fn artifact_paths_are_deterministic() {
    assert_eq!(artifact_path("out", "package_sub_b"), "out/package_sub_b.wgsl");
    assert_eq!(
        shader_artifact_path("/tmp/shaders", &absolute(&["sub"]), "b"),
        "/tmp/shaders/package_sub_b.wgsl"
    );
    assert_eq!(
        shader_artifact_path("out", &absolute(&[]), "a"),
        "out/package__a.wgsl"
    );
}
