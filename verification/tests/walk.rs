use std::cell::RefCell;
use std::rc::Rc;

use wesl_build::build_shader_dir;
use wesl_build::extension::{ShaderCompiler, WeslBuildExtension};
use wesl_build::mod_path::ModulePath;
use wesl_build::plan::{build_plan, BuildStage, BuildStep, HookPoint};
use wesl_build::tree::{DirTree, SubDir};
use wesl_build::WeslBuildError;

fn strings(names: &[&str]) -> Vec<String> {
    names.iter().map(|n| n.to_string()).collect()
}

fn leaf(files: &[&str]) -> DirTree {
    DirTree { files: strings(files), subdirs: Vec::new() }
}

type Log = Rc<RefCell<Vec<String>>>;

struct RecorderCompiler {
    log: Log,
}

impl ShaderCompiler for RecorderCompiler {
    fn compile_artifact(
        &mut self,
        module: &ModulePath,
        artifact_path: &str,
    ) -> Result<Option<wesl::BasicSourceMap>, String> {
        self.log.borrow_mut().push(format!(
            "compile {} -> {}",
            module.components.join("::"),
            artifact_path
        ));
        Ok(None)
    }
}

struct Recorder {
    name: String,
    log: Log,
    fail_at: Option<BuildStage>,
}

impl Recorder {
    fn hook(&mut self, stage: BuildStage, what: &str) -> Result<(), String> {
        self.log.borrow_mut().push(format!("{}.{}", self.name, what));
        if self.fail_at == Some(stage) {
            Err(format!("{} refused {}", self.name, what))
        } else {
            Ok(())
        }
    }
}

impl<C> WeslBuildExtension<C> for Recorder {
    fn name(&self) -> String {
        self.name.clone()
    }

    fn init_root(&mut self, _shader_root_path: &str, _compiler: &mut C) -> Result<(), String> {
        self.hook(BuildStage::InitRoot, "init_root")
    }

    fn enter_mod(&mut self, dir_path: &str) -> Result<(), String> {
        let what = format!("enter_mod({dir_path})");
        self.hook(BuildStage::EnterMod, &what)
    }

    fn exit_mod(&mut self, dir_path: &str) -> Result<(), String> {
        let what = format!("exit_mod({dir_path})");
        self.hook(BuildStage::ExitMod, &what)
    }

    fn post_build(
        &mut self,
        module: &ModulePath,
        _artifact_path: &str,
        _sourcemap: Option<&wesl::BasicSourceMap>,
    ) -> Result<(), String> {
        let what = format!("post_build({})", module.components.join("::"));
        self.hook(BuildStage::PostBuild, &what)
    }

    fn exit_root(&mut self, _shader_root_path: &str, _compiler: &C) -> Result<(), String> {
        self.hook(BuildStage::ExitRoot, "exit_root")
    }
}

fn recorders(log: &Log, names: &[&str]) -> Vec<Recorder> {
    names
        .iter()
        .map(|n| Recorder { name: n.to_string(), log: log.clone(), fail_at: None })
        .collect()
}

#[test]
fn walk_without_extensions_plans_two_artifacts() {
    // root/a.wgsl and root/sub/b.wgsl, no extensions
    let tree = DirTree {
        files: strings(&["a.wgsl"]),
        subdirs: vec![SubDir { name: "sub".to_string(), tree: leaf(&["b.wgsl"]) }],
    };
    let steps = build_plan(&tree, "root", "out", 0);
    assert_eq!(steps.len(), 2);
    match &steps[0] {
        BuildStep::Compile { module, artifact_path } => {
            assert_eq!(module.components, vec!["a".to_string()]);
            assert_eq!(artifact_path, "out/package__a.wgsl");
        },
        other => panic!("expected a compile step, got {other:?}"),
    }
    match &steps[1] {
        BuildStep::Compile { module, artifact_path } => {
            assert_eq!(module.components, vec!["sub".to_string(), "b".to_string()]);
            assert_eq!(artifact_path, "out/package_sub_b.wgsl");
        },
        other => panic!("expected a compile step, got {other:?}"),
    }
}

#[test]
fn non_shader_files_are_skipped() {
    let tree = leaf(&["notes.txt", "a.wgsl", "b.wesl", ".wgsl"]);
    let steps = build_plan(&tree, "root", "out", 0);
    let compiled: Vec<String> = steps
        .iter()
        .map(|s| match s {
            BuildStep::Compile { module, .. } => module.components.join("::"),
            other => panic!("expected only compile steps, got {other:?}"),
        })
        .collect();
    assert_eq!(compiled, vec!["a".to_string(), "b".to_string()]);
}

#[test]
fn two_extensions_see_the_full_lifecycle_in_order() {
    // one subdirectory containing one file, extensions E1 and E2
    let tree = DirTree {
        files: Vec::new(),
        subdirs: vec![SubDir { name: "sub".to_string(), tree: leaf(&["b.wgsl"]) }],
    };
    let log: Log = Rc::new(RefCell::new(Vec::new()));
    let mut compiler = RecorderCompiler { log: log.clone() };
    let mut exts = recorders(&log, &["E1", "E2"]);
    let result = build_shader_dir("root", "out", &tree, &mut compiler, &mut exts);
    assert!(result.is_ok());
    let recorded = log.borrow().clone();
    assert_eq!(
        recorded,
        vec![
            "E1.init_root".to_string(),
            "E2.init_root".to_string(),
            "E1.enter_mod(root/sub)".to_string(),
            "E2.enter_mod(root/sub)".to_string(),
            "compile sub::b -> out/package_sub_b.wgsl".to_string(),
            "E1.post_build(sub::b)".to_string(),
            "E2.post_build(sub::b)".to_string(),
            "E1.exit_mod(root/sub)".to_string(),
            "E2.exit_mod(root/sub)".to_string(),
            "E1.exit_root".to_string(),
            "E2.exit_root".to_string(),
        ]
    );
}

#[test]
fn init_root_failure_stops_everything() {
    let tree = DirTree {
        files: strings(&["a.wgsl"]),
        subdirs: vec![SubDir { name: "sub".to_string(), tree: leaf(&["b.wgsl"]) }],
    };
    let log: Log = Rc::new(RefCell::new(Vec::new()));
    let mut compiler = RecorderCompiler { log: log.clone() };
    let mut exts = vec![
        Recorder { name: "E1".to_string(), log: log.clone(), fail_at: Some(BuildStage::InitRoot) },
        Recorder { name: "E2".to_string(), log: log.clone(), fail_at: None },
    ];
    let result = build_shader_dir("root", "out", &tree, &mut compiler, &mut exts);
    match result {
        Err(WeslBuildError::ExtensionErr { extension_name, stage, error }) => {
            assert_eq!(extension_name, "E1");
            assert_eq!(stage, BuildStage::InitRoot);
            assert_eq!(error, "E1 refused init_root");
        },
        other => panic!("expected an extension error at init_root, got {other:?}"),
    }
    // no enter_mod, post_build or exit_mod happened for any extension
    let recorded = log.borrow().clone();
    assert_eq!(recorded, vec!["E1.init_root".to_string()]);
}

#[test]
fn failure_mid_walk_aborts_the_rest() {
    let tree = DirTree {
        files: strings(&["a.wgsl", "c.wgsl"]),
        subdirs: vec![SubDir { name: "sub".to_string(), tree: leaf(&["b.wgsl"]) }],
    };
    let log: Log = Rc::new(RefCell::new(Vec::new()));
    let mut compiler = RecorderCompiler { log: log.clone() };
    let mut exts = vec![Recorder {
        name: "E1".to_string(),
        log: log.clone(),
        fail_at: Some(BuildStage::PostBuild),
    }];
    let result = build_shader_dir("root", "out", &tree, &mut compiler, &mut exts);
    match result {
        Err(WeslBuildError::ExtensionErr { extension_name, stage, .. }) => {
            assert_eq!(extension_name, "E1");
            assert_eq!(stage, BuildStage::PostBuild);
        },
        other => panic!("expected an extension error at post_build, got {other:?}"),
    }
    let recorded = log.borrow().clone();
    assert_eq!(
        recorded,
        vec![
            "E1.init_root".to_string(),
            "compile a -> out/package__a.wgsl".to_string(),
            "E1.post_build(a)".to_string(),
        ]
    );
}

#[test]
fn files_compile_before_subdirectories_are_entered() {
    let tree = DirTree {
        files: strings(&["a.wgsl"]),
        subdirs: vec![SubDir { name: "sub".to_string(), tree: leaf(&["b.wgsl"]) }],
    };
    let log: Log = Rc::new(RefCell::new(Vec::new()));
    let mut compiler = RecorderCompiler { log: log.clone() };
    let mut exts = recorders(&log, &["E1"]);
    build_shader_dir("root", "out", &tree, &mut compiler, &mut exts).unwrap();
    let recorded = log.borrow().clone();
    let post = recorded.iter().position(|l| l == "E1.post_build(a)").unwrap();
    let enter = recorded.iter().position(|l| l == "E1.enter_mod(root/sub)").unwrap();
    assert!(post < enter, "post_build of a sibling file must precede enter_mod: {recorded:?}");
}

#[test]
fn root_directory_is_never_entered_or_exited() {
    let tree = DirTree {
        files: strings(&["a.wgsl"]),
        subdirs: vec![SubDir {
            name: "sub".to_string(),
            tree: DirTree {
                files: strings(&["b.wgsl"]),
                subdirs: vec![SubDir { name: "inner".to_string(), tree: leaf(&["c.wgsl"]) }],
            },
        }],
    };
    let log: Log = Rc::new(RefCell::new(Vec::new()));
    let mut compiler = RecorderCompiler { log: log.clone() };
    let mut exts = recorders(&log, &["E1"]);
    build_shader_dir("root", "out", &tree, &mut compiler, &mut exts).unwrap();
    let recorded = log.borrow().clone();
    let entered: Vec<&String> = recorded.iter().filter(|l| l.contains("enter_mod")).collect();
    assert_eq!(entered, vec!["E1.enter_mod(root/sub)", "E1.enter_mod(root/sub/inner)"]);
    for line in recorded.iter() {
        assert!(!line.contains("enter_mod(root)"), "root was entered: {line}");
        assert!(!line.contains("exit_mod(root)"), "root was exited: {line}");
    }
    // every entered directory is exited, innermost first
    let exited: Vec<&String> = recorded.iter().filter(|l| l.contains("exit_mod")).collect();
    assert_eq!(exited, vec!["E1.exit_mod(root/sub/inner)", "E1.exit_mod(root/sub)"]);
}

#[test]
fn compiler_failure_is_reported_with_the_artifact() {
    struct FailingCompiler;

    impl ShaderCompiler for FailingCompiler {
        fn compile_artifact(
            &mut self,
            _module: &ModulePath,
            _artifact_path: &str,
        ) -> Result<Option<wesl::BasicSourceMap>, String> {
            Err("no such shader".to_string())
        }
    }

    let tree = leaf(&["a.wgsl"]);
    let mut compiler = FailingCompiler;
    let mut exts: Vec<Recorder> = Vec::new();
    let result = build_shader_dir("root", "out", &tree, &mut compiler, &mut exts);
    match result {
        Err(WeslBuildError::CompileErr { artifact_path, error }) => {
            assert_eq!(artifact_path, "out/package__a.wgsl");
            assert_eq!(error, "no such shader");
        },
        other => panic!("expected a compile error, got {other:?}"),
    }
}

#[test]
fn error_messages_name_the_failing_part() {
    let ext_err = WeslBuildError::ExtensionErr {
        extension_name: "WgpuBindingsExtension".to_string(),
        stage: BuildStage::EnterMod,
        error: "disk full".to_string(),
    };
    assert_eq!(ext_err.message(), "Extension WgpuBindingsExtension error: disk full");
    let io_err = WeslBuildError::IoErr { error: "unreadable entry".to_string() };
    assert_eq!(io_err.message(), "I/O error: unreadable entry");
    let path_err = WeslBuildError::PathErr {
        path: "shaders/bad name.wgsl".to_string(),
        error: "the stem is not an identifier".to_string(),
    };
    assert_eq!(
        path_err.message(),
        "cannot derive a module path from shaders/bad name.wgsl: the stem is not an identifier"
    );
    let compile_err = WeslBuildError::CompileErr {
        artifact_path: "out/package__a.wgsl".to_string(),
        error: "parse error".to_string(),
    };
    assert_eq!(
        compile_err.message(),
        "failed to build shader artifact out/package__a.wgsl: parse error"
    );
}

#[test]
fn plan_hooks_follow_registration_order() {
    let tree = leaf(&["a.wgsl"]);
    let steps = build_plan(&tree, "root", "out", 3);
    // init hooks for extensions 0, 1, 2 come first
    for (i, step) in steps.iter().take(3).enumerate() {
        match step {
            BuildStep::Hook { ext_index, point: HookPoint::InitRoot } => {
                assert_eq!(*ext_index, i);
            },
            other => panic!("expected an init_root hook, got {other:?}"),
        }
    }
    // exit hooks for extensions 0, 1, 2 come last
    for (i, step) in steps.iter().skip(steps.len() - 3).enumerate() {
        match step {
            BuildStep::Hook { ext_index, point: HookPoint::ExitRoot } => {
                assert_eq!(*ext_index, i);
            },
            other => panic!("expected an exit_root hook, got {other:?}"),
        }
    }
}
