//! Artifact naming: where a compiled shader lands on disk.
//!
//! The artifact of a module is `{out_dir}/{mangled identifier}.wgsl`. This is
//! the single source of truth shared by the build walk (which tells the
//! compiler where to write) and by any lookup of a previously built artifact
//! by module path alone.

use vstd::prelude::*;

use crate::chars::wf_word;
use crate::codec::{mangle, mangle_spec};
use crate::mod_path::{wf_module_path, ModulePath, PathOrigin};
use crate::tree::wgsl_ext;

verus! {

/// The on-disk path of the artifact named `mangled` under `out_dir`.
pub open spec fn artifact_path_spec(out_dir: Seq<char>, mangled: Seq<char>) -> Seq<char> {
    out_dir + seq!['/'] + mangled + wgsl_ext()
}

/// The on-disk path of the artifact named `mangled` under `out_dir`.
pub fn artifact_path(out_dir: &str, mangled: &str) -> (r: String)
    ensures
        r@ == artifact_path_spec(out_dir@, mangled@),
{
    proof {
        reveal_strlit("/");
        reveal_strlit(".wgsl");
    }
    let r = String::from_str(out_dir).concat("/").concat(mangled).concat(".wgsl");
    proof {
        assert("/"@ =~= seq!['/']);
        assert(".wgsl"@ =~= wgsl_ext());
        assert(r@ =~= artifact_path_spec(out_dir@, mangled@));
    }
    r
}

/// The artifact path of the item `name` in the module at `path`: the glue
/// that lets a lookup find a previously built artifact without re-walking.
pub fn shader_artifact_path(out_dir: &str, path: &ModulePath, name: &str) -> (r: String)
    requires
        wf_module_path(path),
        wf_word(name@),
    ensures
        r@ == artifact_path_spec(out_dir@, mangle_spec(path.origin, path.comps(), name@)),
{
    let mangled = mangle(path, name);
    artifact_path(out_dir, mangled.as_str())
}

} // verus!
