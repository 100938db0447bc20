//! A model of the shader source tree.
//!
//! The build walk works on a [`DirTree`] value: the files and subdirectories
//! found under the shader root, in the order they were listed. Only files
//! with a recognized shader extension take part in the build; the rest are
//! silently skipped.

use vstd::prelude::*;

use crate::chars::wf_word;

verus! {

/// A directory of shader sources: its files and subdirectories.
pub struct DirTree {
    pub files: Vec<String>,
    pub subdirs: Vec<SubDir>,
}

/// A named subdirectory of a [`DirTree`].
pub struct SubDir {
    pub name: String,
    pub tree: DirTree,
}

/// The `.wgsl` extension, for compiled-form shader sources.
pub open spec fn wgsl_ext() -> Seq<char> {
    seq!['.', 'w', 'g', 's', 'l']
}

/// The `.wesl` extension, for source-form shaders.
pub open spec fn wesl_ext() -> Seq<char> {
    seq!['.', 'w', 'e', 's', 'l']
}

/// A file name with a recognized shader extension and a non-empty stem.
pub open spec fn is_shader_name(s: Seq<char>) -> bool {
    s.len() > 5 && (s.skip(s.len() - 5) == wgsl_ext() || s.skip(s.len() - 5) == wesl_ext())
}

/// The file name without its extension.
pub open spec fn shader_stem(s: Seq<char>) -> Seq<char> {
    s.take(s.len() - 5)
}

/// Every shader file in the list has a well-formed stem.
pub open spec fn wf_files(files: Seq<String>) -> bool {
    forall|i: int|
        0 <= i < files.len() && is_shader_name(#[trigger] files[i]@) ==> wf_word(
            shader_stem(files[i]@),
        )
}

/// The subtrees and names of the first `i` subdirectories are well-formed.
pub open spec fn wf_subdirs(tree: DirTree, i: int) -> bool
    decreases tree, i,
        when i <= tree.subdirs@.len()
        via wf_subdirs_decreases
{
    if i <= 0 {
        true
    } else {
        wf_subdirs(tree, i - 1) && wf_word(tree.subdirs@[i - 1].name@) && wf_tree(
            tree.subdirs@[i - 1].tree,
        )
    }
}

#[via_fn]
proof fn wf_subdirs_decreases(tree: DirTree, i: int) {
    if 0 < i <= tree.subdirs@.len() {
        assert(decreases_to!(tree => tree.subdirs));
        assert(decreases_to!(tree.subdirs => tree.subdirs@[i - 1]));
        assert(decreases_to!(tree => tree.subdirs@[i - 1].tree));
    }
}

/// A well-formed tree: every shader file stem and every directory name is a
/// well-formed word, at every level.
pub open spec fn wf_tree(tree: DirTree) -> bool
    decreases tree, tree.subdirs@.len() as int + 1,
{
    wf_files(tree.files@) && wf_subdirs(tree, tree.subdirs@.len() as int)
}

/// Well-formedness of a prefix of the subdirectories reaches each of them.
pub proof fn lemma_wf_subdirs_index(tree: DirTree, i: int, j: int)
    requires
        wf_subdirs(tree, i),
        0 <= j < i <= tree.subdirs@.len(),
    ensures
        wf_word(tree.subdirs@[j].name@),
        wf_tree(tree.subdirs@[j].tree),
    decreases i,
{
    if j < i - 1 {
        lemma_wf_subdirs_index(tree, i - 1, j);
    }
}

/// Executable test for [`is_shader_name`], returning the stem when it holds.
pub fn shader_stem_of(name: &str) -> (r: Option<String>)
    ensures
        r is Some <==> is_shader_name(name@),
        r matches Some(stem) ==> stem@ == shader_stem(name@),
{
    let cs = crate::chars::str_to_chars(name);
    if cs.len() <= 5 {
        return None;
    }
    let n = cs.len();
    let dot = cs[n - 5];
    let c1 = cs[n - 4];
    let c2 = cs[n - 3];
    let c3 = cs[n - 2];
    let c4 = cs[n - 1];
    let wgsl = dot == '.' && c1 == 'w' && c2 == 'g' && c3 == 's' && c4 == 'l';
    let wesl = dot == '.' && c1 == 'w' && c2 == 'e' && c3 == 's' && c4 == 'l';
    proof {
        assert(cs@.skip(cs@.len() - 5).len() == 5);
        assert(forall|k: int|
            0 <= k < 5 ==> #[trigger] cs@.skip(cs@.len() - 5)[k] == cs@[cs@.len() - 5 + k]);
        if wgsl {
            assert(cs@.skip(cs@.len() - 5) =~= wgsl_ext());
        }
        if wesl {
            assert(cs@.skip(cs@.len() - 5) =~= wesl_ext());
        }
        if !wgsl && !wesl {
            assert(cs@.skip(cs@.len() - 5) != wgsl_ext() && cs@.skip(cs@.len() - 5) != wesl_ext())
                by {
                if cs@.skip(cs@.len() - 5) == wgsl_ext() {
                    assert(cs@.skip(cs@.len() - 5)[0] == '.');
                    assert(cs@.skip(cs@.len() - 5)[1] == 'w');
                    assert(cs@.skip(cs@.len() - 5)[2] == 'g');
                    assert(cs@.skip(cs@.len() - 5)[3] == 's');
                    assert(cs@.skip(cs@.len() - 5)[4] == 'l');
                }
                if cs@.skip(cs@.len() - 5) == wesl_ext() {
                    assert(cs@.skip(cs@.len() - 5)[0] == '.');
                    assert(cs@.skip(cs@.len() - 5)[1] == 'w');
                    assert(cs@.skip(cs@.len() - 5)[2] == 'e');
                    assert(cs@.skip(cs@.len() - 5)[3] == 's');
                    assert(cs@.skip(cs@.len() - 5)[4] == 'l');
                }
            }
        }
    }
    if wgsl || wesl {
        let stem_chars = crate::chars::sub_chars(&cs, 0, n - 5);
        proof {
            assert(stem_chars@ =~= shader_stem(name@));
        }
        Some(crate::chars::chars_to_string(&stem_chars))
    } else {
        None
    }
}

/// The number of directories anywhere below the first `i` subdirectories.
pub open spec fn subdir_dir_count(tree: DirTree, i: int) -> nat
    decreases tree, i,
        when i <= tree.subdirs@.len()
        via subdir_dir_count_decreases
{
    if i <= 0 {
        0
    } else {
        subdir_dir_count(tree, i - 1) + 1 + dir_count(tree.subdirs@[i - 1].tree)
    }
}

#[via_fn]
proof fn subdir_dir_count_decreases(tree: DirTree, i: int) {
    if 0 < i <= tree.subdirs@.len() {
        assert(decreases_to!(tree => tree.subdirs));
        assert(decreases_to!(tree.subdirs => tree.subdirs@[i - 1]));
        assert(decreases_to!(tree => tree.subdirs@[i - 1].tree));
    }
}

/// The number of directories anywhere under a tree, the root not counted.
pub open spec fn dir_count(tree: DirTree) -> nat
    decreases tree, tree.subdirs@.len() as int + 1,
{
    subdir_dir_count(tree, tree.subdirs@.len() as int)
}

} // verus!
