//! The WESL compiler handle, held opaquely behind trusted wrappers.

use vstd::prelude::*;

use crate::extension::ShaderCompiler;
use crate::mod_path::{ModulePath, PathOrigin};

verus! {

/// Relies on wesl::BasicSourceMap: sourcemap metadata produced by a compile,
/// carried through to the post-build hooks and never inspected here.
#[verifier::external_type_specification]
#[verifier::external_body]
pub struct ExBasicSourceMap(wesl::BasicSourceMap);

/// Relies on wesl::CompileOptions: the compiler's option set, carried through.
#[verifier::external_type_specification]
#[verifier::external_body]
pub struct ExCompileOptions(wesl::CompileOptions);

/// The WESL-to-WGSL compiler with the standard filesystem resolver.
///
/// Verus refuses a declaration of `wesl::Wesl` itself because of the
/// `Resolver` bound on its type parameter, so the handle is held opaquely in
/// this struct and reached only through the trusted wrappers below.
#[verifier::external_body]
pub struct WeslToolchain {
    inner: wesl::Wesl<wesl::StandardResolver>,
}

impl WeslToolchain {
    /// Relies on wesl::Wesl::new: a compiler rooted at `shader_root_path`,
    /// with the standard resolver, default options and the escape mangler.
    #[verifier::external_body]
    pub fn new(shader_root_path: &str) -> Self {
        WeslToolchain { inner: wesl::Wesl::new(shader_root_path) }
    }

    /// Relies on wesl::Wesl::set_options: replaces all compilation options.
    #[verifier::external_body]
    pub fn set_options(&mut self, options: wesl::CompileOptions) {
        self.inner.set_options(options);
    }

    /// Relies on wesl::Wesl::set_mangler: selects the escape mangling scheme,
    /// the scheme this library's codec implements.
    #[verifier::external_body]
    pub fn set_escape_mangler(&mut self) {
        self.inner.set_mangler(wesl::ManglerKind::Escape);
    }
}

/// Relies on wesl::Wesl::compile and wesl::CompileResult::write_to_file:
/// compiles one module and writes the resulting WGSL at `artifact_path`,
/// handing back the source map when the compiler produced one. The error is
/// the compiler's or the filesystem's diagnostic text. Compile and write
/// failures come back as errors; a totality gap remains inside the compiler
/// itself, whose import resolution unwraps on inconsistent resolver state,
/// and no requires over these arguments can exclude that.
#[verifier::external_body]
fn wesl_compile_and_write(
    toolchain: &WeslToolchain,
    module: &ModulePath,
    artifact_path: &str,
) -> Result<Option<wesl::BasicSourceMap>, String> {
    let origin = match module.origin {
        PathOrigin::Absolute => wesl::syntax::PathOrigin::Absolute,
        PathOrigin::PackageRelative => wesl::syntax::PathOrigin::Relative(0),
    };
    let path = wesl::ModulePath { origin, components: module.components.clone() };
    let result = toolchain.inner.compile(path).map_err(|e| e.to_string())?;
    result.write_to_file(artifact_path).map_err(|e| e.to_string())?;
    Ok(result.sourcemap)
}

impl ShaderCompiler for WeslToolchain {
    fn compile_artifact(&mut self, module: &ModulePath, artifact_path: &str) -> Result<
        Option<wesl::BasicSourceMap>,
        String,
    > {
        wesl_compile_and_write(self, module, artifact_path)
    }
}

} // verus!
