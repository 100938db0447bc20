//! The wgpu bindings extension: generates typed Rust bindings for every
//! compiled shader with wgsl_to_wgpu.
//!
//! The compute part lives here, verified: the per-directory module-file path
//! that the extension re-points as the walk enters and exits directories,
//! the binding file path and module line for each shader, and the demangler
//! that maps the compiler's flattened identifiers back to module paths
//! through this library's own codec. Writing the files is left to the caller
//! that hosts this extension in a build.

use vstd::prelude::*;

use crate::chars::str_to_chars;
use crate::codec::{mangle_spec, package_mark, preimage, unmangle};
use crate::mod_path::{comps_view, ModulePath, PathOrigin};

verus! {

/// The file name of a Rust directory module.
pub open spec fn mod_rs() -> Seq<char> {
    seq!['m', 'o', 'd', '.', 'r', 's']
}

/// The `.rs` file extension.
pub open spec fn rs_ext() -> Seq<char> {
    seq!['.', 'r', 's']
}

/// Path segments joined with `/`.
pub open spec fn join_slash(parts: Seq<Seq<char>>) -> Seq<char>
    decreases parts.len(),
{
    if parts.len() == 0 {
        Seq::empty()
    } else if parts.len() == 1 {
        parts[0]
    } else {
        parts[0] + seq!['/'] + join_slash(parts.drop_first())
    }
}

proof fn lemma_join_slash_push(parts: Seq<Seq<char>>, x: Seq<char>)
    requires
        parts.len() >= 1,
    ensures
        join_slash(parts.push(x)) == join_slash(parts) + seq!['/'] + x,
    decreases parts.len(),
{
    if parts.len() == 1 {
        assert(parts.push(x).drop_first() =~~= seq![x]);
        assert(join_slash(seq![x]) == x);
    } else {
        assert(parts.push(x)[0] == parts[0]);
        assert(parts.push(x).drop_first() =~~= parts.drop_first().push(x));
        lemma_join_slash_push(parts.drop_first(), x);
    }
}

/// Joins the views of a list of strings with `/`.
fn join_slash_exec(parts: &Vec<String>) -> (r: String)
    requires
        parts@.len() >= 1,
    ensures
        r@ == join_slash(comps_view(parts@)),
{
    proof {
        reveal_strlit("/");
    }
    let mut r = parts[0].clone();
    let mut i: usize = 1;
    proof {
        assert(comps_view(parts@).take(1) =~~= seq![comps_view(parts@)[0]]);
        assert(r@ == join_slash(comps_view(parts@).take(1)));
    }
    while i < parts.len()
        invariant
            1 <= i <= parts@.len(),
            r@ == join_slash(comps_view(parts@).take(i as int)),
        decreases parts@.len() - i,
    {
        r = r.concat("/").concat(parts[i].as_str());
        proof {
            reveal_strlit("/");
            assert("/"@ =~= seq!['/']);
            let cv = comps_view(parts@);
            assert(cv.take(i + 1 as int) =~~= cv.take(i as int).push(cv[i as int]));
            lemma_join_slash_push(cv.take(i as int), cv[i as int]);
            assert(r@ =~= join_slash(cv.take(i + 1 as int)));
        }
        i = i + 1;
    }
    proof {
        assert(comps_view(parts@).take(parts@.len() as int) =~~= comps_view(parts@));
    }
    r
}

/// An error of the bindings generator.
#[derive(Debug)]
pub enum WgpuBindingsError {
    /// An I/O failure while reading or writing a bindings file.
    IoErr { error: String },
    /// wgsl_to_wgpu could not build a module from the compiled shader; the
    /// message is its rendered diagnostic, with the artifact's path.
    CreateBindingsModuleErr { message: String },
}

impl WgpuBindingsError {
    /// A human-readable description of the error.
    pub fn message(&self) -> (r: String)
        ensures
            match self {
                WgpuBindingsError::IoErr { error } => r@ == error@,
                WgpuBindingsError::CreateBindingsModuleErr { message } => r@ == message@,
            },
    {
        match self {
            WgpuBindingsError::IoErr { error } => error.clone(),
            WgpuBindingsError::CreateBindingsModuleErr { message } => message.clone(),
        }
    }
}

/// A module path and item name for the bindings generator, recovered from a
/// mangled identifier.
#[derive(Debug)]
pub struct BindingTypePath {
    pub components: Vec<String>,
    pub name: String,
}

/// The mangled form of an absolute path starts with this prefix.
pub open spec fn pkg_prefix() -> Seq<char> {
    seq!['p', 'a', 'c', 'k', 'a', 'g', 'e', '_']
}

proof fn lemma_absolute_mangle_prefix(s: Seq<char>, comps: Seq<Seq<char>>, item: Seq<char>)
    requires
        preimage(s, PathOrigin::Absolute, comps, item),
    ensures
        s.len() >= 8,
        s.take(8) == pkg_prefix(),
{
    assert(s == mangle_spec(PathOrigin::Absolute, comps, item));
    assert(s.len() >= 8 + 1);
    assert(s.take(8) =~= package_mark() + seq!['_']);
    assert(package_mark() + seq!['_'] =~= pkg_prefix());
}

/// Maps a mangled identifier back to the module path and name it stands
/// for, exactly as the codec defines them.
///
/// Only identifiers of absolute paths (prefix `package_`) are demangled;
/// anything else, including an identifier the codec never produced, falls
/// back to the root module with the name unchanged, so the generator can
/// proceed on identifiers from unrelated naming conventions.
pub fn demangle_wesl(name: &str) -> (r: BindingTypePath)
    ensures
        forall|comps: Seq<Seq<char>>, item: Seq<char>|
            #[trigger] preimage(name@, PathOrigin::Absolute, comps, item) ==> comps_view(
                r.components@,
            ) == comps && r.name@ == item,
        (!(exists|comps: Seq<Seq<char>>, item: Seq<char>|
            #[trigger] preimage(name@, PathOrigin::Absolute, comps, item))) ==> (
        r.components@.len() == 0 && r.name@ == name@),
{
    let cs = str_to_chars(name);
    let mut has_prefix = cs.len() >= 8;
    if has_prefix {
        let p = str_to_chars("package_");
        proof {
            reveal_strlit("package_");
            assert(p@ =~= pkg_prefix());
        }
        let head = crate::chars::sub_chars(&cs, 0, 8);
        has_prefix = crate::chars::chars_eq(&head, &p);
        proof {
            assert(head@ =~= cs@.take(8));
        }
    }
    if !has_prefix {
        proof {
            assert forall|comps: Seq<Seq<char>>, item: Seq<char>|
                #[trigger] preimage(name@, PathOrigin::Absolute, comps, item) implies false by {
                lemma_absolute_mangle_prefix(name@, comps, item);
            }
        }
        return BindingTypePath { components: Vec::new(), name: String::from_str(name) };
    }
    match unmangle(name) {
        Some((path, item)) => {
            proof {
                assert(name@ == mangle_spec(path.origin, path.comps(), item@));
                if path.origin is PackageRelative {
                    assert(name@[0] == 's') by {
                        reveal_with_fuel(crate::codec::uscores, 6);
                        assert(crate::codec::uscores(crate::codec::self_mark()) == 0);
                        assert(crate::codec::esc(crate::codec::self_mark())
                            == crate::codec::self_mark());
                    }
                    assert(name@.take(8)[0] == 'p');
                    assert(false);
                }
                assert(path.origin is Absolute);
                assert(preimage(name@, PathOrigin::Absolute, path.comps(), item@));
            }
            let r = BindingTypePath { components: path.components, name: item };
            proof {
                assert forall|comps: Seq<Seq<char>>, item2: Seq<char>|
                    #[trigger] preimage(name@, PathOrigin::Absolute, comps, item2) implies
                    comps_view(r.components@) == comps && r.name@ == item2 by {}
            }
            r
        },
        None => {
            proof {
                assert forall|comps: Seq<Seq<char>>, item: Seq<char>|
                    #[trigger] preimage(name@, PathOrigin::Absolute, comps, item) implies false by {}
            }
            BindingTypePath { components: Vec::new(), name: String::from_str(name) }
        },
    }
}

/// What wgsl_to_wgpu generates for a shader: the bindings source text, a
/// function of the shader source and its include path alone.
pub uninterp spec fn generated_bindings(source: Seq<char>, include_path: Seq<char>) -> Seq<char>;

/// Whether wgsl_to_wgpu accepts a shader and produces bindings for it, a
/// function of the shader source and its include path alone.
pub uninterp spec fn bindgen_accepts(source: Seq<char>, include_path: Seq<char>) -> bool;

/// Relies on wgsl_to_wgpu::Module::add_shader_module and
/// to_generated_bindings: builds the typed bindings for one compiled WGSL
/// shader, resolving mangled names through [`demangle_wesl`]. The options
/// enable bytemuck vertex derives, encase host-shareable derives, nalgebra
/// matrix and vector types, and naga validation, so that invalid shaders
/// come back as the rendered diagnostic rather than a downstream abort.
///
/// A totality gap remains: on valid WGSL using constructs the generator does
/// not support (certain binding and vertex input types) it aborts the
/// process instead of returning its error, and no requires over these
/// arguments can exclude exactly those shaders.
#[verifier::external_body]
pub fn create_shader_module(wgsl_source: &str, wgsl_include_path: &str) -> (r: Result<
    String,
    String,
>)
    ensures
        r is Ok <==> bindgen_accepts(wgsl_source@, wgsl_include_path@),
        r matches Ok(text) ==> text@ == generated_bindings(wgsl_source@, wgsl_include_path@),
{
    let options = wgsl_to_wgpu::WriteOptions {
        derive_bytemuck_vertex: true,
        derive_encase_host_shareable: true,
        matrix_vector_types: wgsl_to_wgpu::MatrixVectorTypes::Nalgebra,
        validate: Some(Default::default()),
        ..Default::default()
    };
    let demangle = |n: &str| {
        let d = demangle_wesl(n);
        wgsl_to_wgpu::TypePath { parent: wgsl_to_wgpu::ModulePath { components: d.components }, name: d.name }
    };
    let mut root = wgsl_to_wgpu::Module::default();
    root.add_shader_module(wgsl_source, Some(wgsl_include_path), options, Default::default(), demangle)
        .map_err(|e| e.emit_to_string_with_path(wgsl_source, wgsl_include_path))?;
    Ok(root.to_generated_bindings(options))
}

/// Everything the bindings extension writes for one compiled shader.
#[derive(Debug)]
pub struct BindingsOutput {
    /// The generated bindings source text.
    pub text: String,
    /// Where the bindings file belongs.
    pub binding_path: String,
    /// The module line to append to the current directory module file.
    pub mod_line: String,
}

/// Generates bindings for your wgsl/wesl with wgsl_to_wgpu.
///
/// Holds the bindings output root and the path of the directory module file
/// currently being filled, re-pointed as the walk enters and exits shader
/// directories.
pub struct WgpuBindingsExtension {
    binding_root_path: String,
    mod_path_segs: Vec<String>,
}

impl WgpuBindingsExtension {
    /// The segments of the current module file path.
    pub closed spec fn segs(&self) -> Seq<Seq<char>> {
        comps_view(self.mod_path_segs@)
    }

    /// The bindings output root.
    pub closed spec fn root(&self) -> Seq<char> {
        self.binding_root_path@
    }

    /// The module file path always ends in `mod.rs` below the root.
    pub open spec fn wf(&self) -> bool {
        self.segs().len() >= 2 && self.segs().last() == mod_rs()
    }

    /// A fresh extension writing below `binding_root_path`, starting at the
    /// root module file.
    pub fn new(binding_root_path: String) -> (r: Self)
        ensures
            r.wf(),
            r.root() == binding_root_path@,
            r.segs() == seq![binding_root_path@, mod_rs()],
    {
        proof {
            reveal_strlit("mod.rs");
        }
        let mut segs: Vec<String> = Vec::new();
        segs.push(binding_root_path.clone());
        segs.push(String::from_str("mod.rs"));
        let r = WgpuBindingsExtension { binding_root_path, mod_path_segs: segs };
        proof {
            assert("mod.rs"@ =~= mod_rs());
            assert(r.segs() =~~= seq![r.root(), mod_rs()]);
        }
        r
    }

    /// The path of the directory module file currently being filled.
    pub fn mod_file_path(&self) -> (r: String)
        requires
            self.wf(),
        ensures
            r@ == join_slash(self.segs()),
    {
        join_slash_exec(&self.mod_path_segs)
    }

    /// Steps one directory deeper: the module file moves to
    /// `{dir_name}/mod.rs` beside its old place, and the returned line
    /// declares the new submodule in the old module file.
    pub fn enter_mod(&mut self, dir_name: &str) -> (mod_line: String)
        requires
            old(self).wf(),
        ensures
            final(self).wf(),
            final(self).root() == old(self).root(),
            final(self).segs() == old(self).segs().drop_last().push(dir_name@).push(mod_rs()),
            mod_line@ == "pub(crate) mod "@ + dir_name@ + ";"@,
    {
        proof {
            reveal_strlit("mod.rs");
        }
        let _ = self.mod_path_segs.pop();
        self.mod_path_segs.push(String::from_str(dir_name));
        self.mod_path_segs.push(String::from_str("mod.rs"));
        proof {
            assert("mod.rs"@ =~= mod_rs());
            assert(self.segs() =~~= old(self).segs().drop_last().push(dir_name@).push(mod_rs()));
        }
        let mod_line = String::from_str("pub(crate) mod ").concat(dir_name).concat(";");
        proof {
            assert(mod_line@ =~= "pub(crate) mod "@ + dir_name@ + ";"@);
        }
        mod_line
    }

    /// Steps one directory back out: the module file returns to the parent
    /// directory's `mod.rs`.
    pub fn exit_mod(&mut self)
        requires
            old(self).wf(),
            old(self).segs().len() >= 3,
        ensures
            final(self).wf(),
            final(self).root() == old(self).root(),
            final(self).segs() == old(self).segs().drop_last().drop_last().push(mod_rs()),
    {
        proof {
            reveal_strlit("mod.rs");
        }
        let _ = self.mod_path_segs.pop();
        let _ = self.mod_path_segs.pop();
        self.mod_path_segs.push(String::from_str("mod.rs"));
        proof {
            assert("mod.rs"@ =~= mod_rs());
            assert(self.segs() =~~= old(self).segs().drop_last().drop_last().push(mod_rs()));
        }
    }

    /// Where the bindings for `module` belong, and the line that declares
    /// them in the current directory module file.
    pub fn binding_paths(&self, module: &ModulePath) -> (r: (String, String))
        requires
            module.components@.len() >= 1,
        ensures
            r.0@ == self.root() + seq!['/'] + join_slash(module.comps()) + rs_ext(),
            r.1@ == "pub(crate) mod "@ + module.comps().last() + ";"@,
    {
        proof {
            reveal_strlit("/");
            reveal_strlit(".rs");
        }
        let joined = join_slash_exec(&module.components);
        let binding_path = self.binding_root_path.clone().concat("/").concat(joined.as_str())
            .concat(".rs");
        let last = module.components.len() - 1;
        let mod_line = String::from_str("pub(crate) mod ").concat(
            module.components[last].as_str(),
        ).concat(";");
        proof {
            assert("/"@ =~= seq!['/']);
            assert(".rs"@ =~= rs_ext());
            assert(binding_path@ =~= self.root() + seq!['/'] + join_slash(module.comps())
                + rs_ext());
            assert(module.comps().last() == module.components@[last as int]@);
            assert(mod_line@ =~= "pub(crate) mod "@ + module.comps().last() + ";"@);
        }
        (binding_path, mod_line)
    }

    /// The bindings for one compiled shader: the generated text, where to
    /// write it, and the module line for the current directory module file.
    pub fn generate_bindings(
        &self,
        module: &ModulePath,
        wgsl_source: &str,
        artifact_path: &str,
    ) -> (r: Result<BindingsOutput, WgpuBindingsError>)
        requires
            module.components@.len() >= 1,
        ensures
            r is Ok <==> bindgen_accepts(wgsl_source@, artifact_path@),
            r matches Ok(o) ==> o.text@ == generated_bindings(wgsl_source@, artifact_path@)
                && o.binding_path@ == self.root() + seq!['/'] + join_slash(module.comps())
                + rs_ext() && o.mod_line@ == "pub(crate) mod "@ + module.comps().last() + ";"@,
            r matches Err(e) ==> e is CreateBindingsModuleErr,
    {
        match create_shader_module(wgsl_source, artifact_path) {
            Ok(text) => {
                let (binding_path, mod_line) = self.binding_paths(module);
                Ok(BindingsOutput { text, binding_path, mod_line })
            },
            Err(message) => Err(WgpuBindingsError::CreateBindingsModuleErr { message }),
        }
    }
}

} // verus!
