//! A verified build-time pipeline for WESL shader directories.
//!
//! The library walks a model of a shader source tree, derives a module path
//! for every shader file, compiles each file through the WESL compiler to a
//! deterministically named artifact, and drives registered build extensions
//! through a strict lifecycle protocol. The name-mangling codec that ties
//! module paths to flat artifact identifiers is implemented here and proved
//! reversible, and the ordering guarantees of the walk (initialization first,
//! files before subdirectories, the root never entered as a module) are
//! proved of the build plan.

use vstd::prelude::*;

pub mod artifact;
pub mod chars;
pub mod codec;
pub mod compiler;
pub mod extension;
pub mod mod_path;
pub mod plan;
pub mod tree;
pub mod wgpu_bindings;
pub mod wgsl_minifier;

use crate::compiler::WeslToolchain;
use crate::extension::{extension_error, ShaderCompiler, WeslBuildExtension};
use crate::plan::{
    build_plan, full_plan, stage_of, steps_view, BuildStage, BuildStep, HookPoint, StepView,
};
use crate::tree::{wf_tree, DirTree};

verus! {

/// An error from some stage of the build, possibly from an extension.
#[derive(Debug)]
pub enum WeslBuildError {
    /// An I/O failure while listing the shader tree.
    IoErr { error: String },
    /// A configuration error: a file or directory name that cannot become a
    /// module path component.
    PathErr { path: String, error: String },
    /// An extension hook failed: the extension's reported name, the
    /// lifecycle point, and the extension's own error text.
    ExtensionErr { extension_name: String, stage: BuildStage, error: String },
    /// The external compiler failed to produce an artifact.
    CompileErr { artifact_path: String, error: String },
}

impl WeslBuildError {
    /// A human-readable description of the error.
    pub fn message(&self) -> (r: String)
        ensures
            match self {
                WeslBuildError::IoErr { error } => r@ == "I/O error: "@ + error@,
                WeslBuildError::PathErr { path, error } => r@ == "cannot derive a module path from "@
                    + path@ + ": "@ + error@,
                WeslBuildError::ExtensionErr { extension_name, stage: _, error } => r@
                    == "Extension "@ + extension_name@ + " error: "@ + error@,
                WeslBuildError::CompileErr { artifact_path, error } => r@
                    == "failed to build shader artifact "@ + artifact_path@ + ": "@ + error@,
            },
    {
        match self {
            WeslBuildError::IoErr { error } => {
                let r = String::from_str("I/O error: ").concat(error.as_str());
                proof {
                    assert(r@ =~= "I/O error: "@ + error@);
                }
                r
            },
            WeslBuildError::PathErr { path, error } => {
                let r = String::from_str("cannot derive a module path from ").concat(
                    path.as_str(),
                ).concat(": ").concat(error.as_str());
                proof {
                    assert(r@ =~= "cannot derive a module path from "@ + path@ + ": "@ + error@);
                }
                r
            },
            WeslBuildError::ExtensionErr { extension_name, stage: _, error } => {
                let r = String::from_str("Extension ").concat(extension_name.as_str()).concat(
                    " error: ",
                ).concat(error.as_str());
                proof {
                    assert(r@ =~= "Extension "@ + extension_name@ + " error: "@ + error@);
                }
                r
            },
            WeslBuildError::CompileErr { artifact_path, error } => {
                let r = String::from_str("failed to build shader artifact ").concat(
                    artifact_path.as_str(),
                ).concat(": ").concat(error.as_str());
                proof {
                    assert(r@ =~= "failed to build shader artifact "@ + artifact_path@ + ": "@
                        + error@);
                }
                r
            },
        }
    }
}

/// Every hook step of the plan names an extension that is registered.
pub open spec fn plan_wf(steps: Seq<BuildStep>, n: int) -> bool {
    forall|k: int|
        0 <= k < steps.len() ==> ((#[trigger] steps[k]) matches BuildStep::Hook {
            ext_index,
            ..
        } ==> ext_index < n)
}

/// What one run of the plan did: its result, and how many steps completed.
pub struct RunOutcome {
    pub result: Result<(), WeslBuildError>,
    pub done: usize,
}

/// The error `e` is the kind of failure step `s` can produce.
pub open spec fn err_matches_step(e: WeslBuildError, s: StepView) -> bool {
    match s {
        StepView::Hook { ext_index: _, point } => e matches WeslBuildError::ExtensionErr {
            stage,
            ..
        } && stage == stage_of(point),
        StepView::Compile { artifact_path, .. } => e matches WeslBuildError::CompileErr {
            artifact_path: ap,
            ..
        } && ap@ == artifact_path,
    }
}

/// Runs the steps of a build plan in order, stopping at the first failure.
///
/// `done` counts the steps that ran to completion: on success every step ran;
/// on failure exactly the steps before `done` ran, the step at `done` failed,
/// and no later step was started. A failing hook is wrapped with the
/// extension's name and its lifecycle point; a failing compile with the
/// artifact location. The name field holds whatever the failing extension's
/// `name` returned; that method carries no contract, so only the lifecycle
/// stage and the failing step are bound here.
pub fn run_steps<C: ShaderCompiler, E: WeslBuildExtension<C>>(
    shader_root_path: &str,
    steps: &Vec<BuildStep>,
    compiler: &mut C,
    extensions: &mut Vec<E>,
) -> (out: RunOutcome)
    requires
        plan_wf(steps@, old(extensions)@.len() as int),
    ensures
        final(extensions)@.len() == old(extensions)@.len(),
        out.done <= steps@.len(),
        out.result is Ok <==> out.done == steps@.len(),
        out.result matches Err(e) ==> err_matches_step(e, steps@[out.done as int]@),
{
    let n = extensions.len();
    let mut idx: usize = 0;
    let mut last_map: Option<wesl::BasicSourceMap> = None;
    while idx < steps.len()
        invariant
            0 <= idx <= steps@.len(),
            extensions@.len() == old(extensions)@.len(),
            plan_wf(steps@, old(extensions)@.len() as int),
            n == old(extensions)@.len(),
        decreases steps@.len() - idx,
    {
        match &steps[idx] {
            BuildStep::Compile { module, artifact_path } => {
                match compiler.compile_artifact(module, artifact_path.as_str()) {
                    Ok(sm) => {
                        last_map = sm;
                    },
                    Err(e) => {
                        return RunOutcome {
                            result: Err(
                                WeslBuildError::CompileErr {
                                    artifact_path: artifact_path.clone(),
                                    error: e,
                                },
                            ),
                            done: idx,
                        };
                    },
                }
            },
            BuildStep::Hook { ext_index, point } => {
                let i = *ext_index;
                proof {
                    assert(steps@[idx as int] matches BuildStep::Hook { .. });
                    assert(i < n);
                }
                let mut ext = extensions.remove(i);
                let hook_result = match point {
                    HookPoint::InitRoot => ext.init_root(shader_root_path, compiler),
                    HookPoint::EnterMod { dir_path } => ext.enter_mod(dir_path.as_str()),
                    HookPoint::PostBuild { module, artifact_path } => ext.post_build(
                        module,
                        artifact_path.as_str(),
                        last_map.as_ref(),
                    ),
                    HookPoint::ExitMod { dir_path } => ext.exit_mod(dir_path.as_str()),
                    HookPoint::ExitRoot => ext.exit_root(shader_root_path, &*compiler),
                };
                match hook_result {
                    Ok(()) => {
                        extensions.insert(i, ext);
                    },
                    Err(msg) => {
                        let stage = crate::plan::stage_of_point(point);
                        let err = extension_error::<C, E>(&ext, stage, msg);
                        extensions.insert(i, ext);
                        return RunOutcome { result: Err(err), done: idx };
                    },
                }
            },
        }
        idx = idx + 1;
    }
    RunOutcome { result: Ok(()), done: idx }
}

/// Builds every shader under a source tree and drives the registered
/// extensions through the lifecycle protocol.
///
/// All `init_root` hooks run first, in registration order; the walk then
/// compiles the files of each directory and runs their `post_build` hooks
/// before entering any of its subdirectories; every non-root directory is
/// entered and exited around its own subtree; all `exit_root` hooks run
/// last. The first failure aborts the remaining walk: a hook failure is
/// surfaced with the extension's name and lifecycle point, a compiler
/// failure with the artifact location; nothing else fails here, so an
/// error is never of the I/O kind.
pub fn build_shader_dir<C: ShaderCompiler, E: WeslBuildExtension<C>>(
    shader_root_path: &str,
    out_dir: &str,
    tree: &DirTree,
    compiler: &mut C,
    extensions: &mut Vec<E>,
) -> (r: Result<(), WeslBuildError>)
    requires
        wf_tree(*tree),
    ensures
        final(extensions)@.len() == old(extensions)@.len(),
        r matches Err(e) ==> exists|k: int|
            0 <= k < full_plan(
                *tree,
                shader_root_path@,
                out_dir@,
                old(extensions)@.len() as int,
            ).len() && err_matches_step(
                e,
                #[trigger] full_plan(
                    *tree,
                    shader_root_path@,
                    out_dir@,
                    old(extensions)@.len() as int,
                )[k],
            ),
        r matches Err(e) ==> !(e is IoErr),
        old(extensions)@.len() == 0 ==> (r is Ok || (r matches Err(e) && e is CompileErr)),
{
    let n = extensions.len();
    let steps = build_plan(tree, shader_root_path, out_dir, n);
    let ghost plan = full_plan(*tree, shader_root_path@, out_dir@, n as int);
    proof {
        crate::plan::lemma_full_plan_shape(*tree, shader_root_path@, out_dir@, n as int);
        assert(plan_wf(steps@, n as int)) by {
            assert(forall|k: int|
                0 <= k < steps@.len() ==> #[trigger] steps_view(steps@)[k] == steps@[k]@);
            assert forall|k: int| 0 <= k < steps@.len() implies ((#[trigger] steps@[k]) matches
                BuildStep::Hook { ext_index, .. } ==> ext_index < n) by {
                assert(steps@[k]@ == plan[k]);
                match steps@[k] {
                    BuildStep::Hook { ext_index, point } => {
                        assert(plan[k] == (StepView::Hook {
                            ext_index: ext_index as int,
                            point: point@,
                        }));
                    },
                    _ => {},
                }
            }
        }
    }
    let outcome = run_steps(shader_root_path, &steps, compiler, extensions);
    proof {
        if outcome.result is Err {
            let e = outcome.result->Err_0;
            let k = outcome.done as int;
            assert(steps_view(steps@)[k] == steps@[k]@);
            assert(err_matches_step(e, plan[k]));
            if n == 0 {
                assert(plan[k] matches StepView::Compile { .. });
                assert(e is CompileErr);
            }
            assert(!(e is IoErr));
        }
    }
    outcome.result
}

/// [`build_shader_dir`] with the WESL compiler itself: builds a toolchain
/// rooted at `shader_root_path` with the given options and runs the walk
/// with it, as a build script would.
pub fn build_shader_dir_wesl<E: WeslBuildExtension<WeslToolchain>>(
    shader_root_path: &str,
    out_dir: &str,
    tree: &DirTree,
    wesl_config: wesl::CompileOptions,
    extensions: &mut Vec<E>,
) -> (r: Result<(), WeslBuildError>)
    requires
        wf_tree(*tree),
    ensures
        final(extensions)@.len() == old(extensions)@.len(),
        r matches Err(e) ==> exists|k: int|
            0 <= k < full_plan(
                *tree,
                shader_root_path@,
                out_dir@,
                old(extensions)@.len() as int,
            ).len() && err_matches_step(
                e,
                #[trigger] full_plan(
                    *tree,
                    shader_root_path@,
                    out_dir@,
                    old(extensions)@.len() as int,
                )[k],
            ),
        r matches Err(e) ==> !(e is IoErr),
        old(extensions)@.len() == 0 ==> (r is Ok || (r matches Err(e) && e is CompileErr)),
{
    let mut toolchain = WeslToolchain::new(shader_root_path);
    toolchain.set_options(wesl_config);
    build_shader_dir(shader_root_path, out_dir, tree, &mut toolchain, extensions)
}

} // verus!
