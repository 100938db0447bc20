//! The extension protocol: the capability every build extension implements,
//! and the contract of the external shader compiler.
//!
//! Extensions are driven strictly sequentially, in registration order, at
//! fixed lifecycle points of the walk; a later extension sees every artifact
//! as rewritten by the extensions before it. A hook returning an error aborts
//! the remaining walk at once.

use vstd::prelude::*;

use crate::mod_path::ModulePath;
use crate::plan::BuildStage;
use crate::WeslBuildError;

verus! {

/// An extension that runs before and after the whole build and after each
/// shader file is built.
///
/// `C` is the compiler handle passed through to the root hooks; `init_root`
/// may reconfigure it, since it runs before any path is mangled.
pub trait WeslBuildExtension<C> {
    /// The name to report in errors as the source extension.
    fn name(&self) -> String;

    /// Called once per extension before any traversal, in registration order.
    fn init_root(&mut self, shader_root_path: &str, compiler: &mut C) -> Result<(), String>;

    /// Called once per directory other than the root, before its contents
    /// are processed, in registration order.
    fn enter_mod(&mut self, dir_path: &str) -> Result<(), String>;

    /// Called once per directory other than the root, after its entire
    /// subtree has been processed, in registration order.
    fn exit_mod(&mut self, dir_path: &str) -> Result<(), String>;

    /// Called once per compiled shader, after the artifact has been written
    /// at `artifact_path`, in registration order.
    fn post_build(
        &mut self,
        module: &ModulePath,
        artifact_path: &str,
        sourcemap: Option<&wesl::BasicSourceMap>,
    ) -> Result<(), String>;

    /// Called once per extension after the entire tree is processed, in
    /// registration order. Does nothing unless an implementation overrides
    /// it.
    fn exit_root(&mut self, shader_root_path: &str, compiler: &C) -> Result<(), String> {
        Ok(())
    }
}

/// The external compiler contract: compile one module and leave its artifact
/// at the named location.
pub trait ShaderCompiler {
    /// Compiles the module at `module` and writes the artifact at
    /// `artifact_path`, returning the source map when one was produced.
    fn compile_artifact(&mut self, module: &ModulePath, artifact_path: &str) -> Result<
        Option<wesl::BasicSourceMap>,
        String,
    >;
}

/// Wraps an extension's error with the extension's name and the lifecycle
/// point at which it occurred.
pub(crate) fn extension_error<C, E: WeslBuildExtension<C>>(
    ext: &E,
    stage: BuildStage,
    error: String,
) -> (r: WeslBuildError)
    ensures
        r matches WeslBuildError::ExtensionErr {
            extension_name: _,
            stage: s,
            error: e,
        } && s == stage && e@ == error@,
{
    WeslBuildError::ExtensionErr { extension_name: ext.name(), stage, error }
}

} // verus!
