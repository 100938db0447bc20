//! The build plan: the exact sequence of compiles and extension hook calls
//! that one walk of a shader tree performs.
//!
//! The plan is computed up front from the tree model, so the order of every
//! lifecycle call is a proved property of the tree rather than a side effect
//! of recursion: all `init_root` hooks come first, files of a directory are
//! compiled and post-processed before any of its subdirectories is entered,
//! every non-root directory is entered and exited exactly once, and all
//! `exit_root` hooks come last.

use vstd::prelude::*;

use crate::artifact::{artifact_path, artifact_path_spec};
use crate::chars::wf_word;
use crate::codec::{mangle, mangle_spec};
use crate::mod_path::{clone_strings, comps_view, wf_comps, wf_module_path, ModulePath, PathOrigin};
use crate::tree::{
    dir_count, is_shader_name, lemma_wf_subdirs_index, shader_stem, shader_stem_of,
    subdir_dir_count, wf_tree, DirTree,
};

verus! {

/// A lifecycle point of the extension protocol, without its arguments.
#[derive(Clone, Copy, Debug, PartialEq, Eq, Structural)]
pub enum BuildStage {
    InitRoot,
    EnterMod,
    PostBuild,
    ExitMod,
    ExitRoot,
}

/// One extension lifecycle call, with its arguments.
#[derive(Debug)]
pub enum HookPoint {
    InitRoot,
    EnterMod { dir_path: String },
    PostBuild { module: ModulePath, artifact_path: String },
    ExitMod { dir_path: String },
    ExitRoot,
}

/// One step of the build: a compiler invocation or one extension hook call.
#[derive(Debug)]
pub enum BuildStep {
    Compile { module: ModulePath, artifact_path: String },
    Hook { ext_index: usize, point: HookPoint },
}

/// The mathematical shape of a [`HookPoint`].
pub ghost enum HookPointView {
    InitRoot,
    EnterMod { dir_path: Seq<char> },
    PostBuild { origin: PathOrigin, module: Seq<Seq<char>>, artifact_path: Seq<char> },
    ExitMod { dir_path: Seq<char> },
    ExitRoot,
}

/// The mathematical shape of a [`BuildStep`].
pub ghost enum StepView {
    Compile { origin: PathOrigin, module: Seq<Seq<char>>, artifact_path: Seq<char> },
    Hook { ext_index: int, point: HookPointView },
}

impl View for HookPoint {
    type V = HookPointView;

    open spec fn view(&self) -> HookPointView {
        match self {
            HookPoint::InitRoot => HookPointView::InitRoot,
            HookPoint::EnterMod { dir_path } => HookPointView::EnterMod { dir_path: dir_path@ },
            HookPoint::PostBuild { module, artifact_path } => HookPointView::PostBuild {
                origin: module.origin,
                module: comps_view(module.components@),
                artifact_path: artifact_path@,
            },
            HookPoint::ExitMod { dir_path } => HookPointView::ExitMod { dir_path: dir_path@ },
            HookPoint::ExitRoot => HookPointView::ExitRoot,
        }
    }
}

impl View for BuildStep {
    type V = StepView;

    open spec fn view(&self) -> StepView {
        match self {
            BuildStep::Compile { module, artifact_path } => StepView::Compile {
                origin: module.origin,
                module: comps_view(module.components@),
                artifact_path: artifact_path@,
            },
            BuildStep::Hook { ext_index, point } => StepView::Hook {
                ext_index: *ext_index as int,
                point: point@,
            },
        }
    }
}

/// The lifecycle point of a hook call shape.
pub open spec fn stage_of(p: HookPointView) -> BuildStage {
    match p {
        HookPointView::InitRoot => BuildStage::InitRoot,
        HookPointView::EnterMod { .. } => BuildStage::EnterMod,
        HookPointView::PostBuild { .. } => BuildStage::PostBuild,
        HookPointView::ExitMod { .. } => BuildStage::ExitMod,
        HookPointView::ExitRoot => BuildStage::ExitRoot,
    }
}

/// The lifecycle point of a hook call.
pub fn stage_of_point(p: &HookPoint) -> (s: BuildStage)
    ensures
        s == stage_of(p@),
{
    match p {
        HookPoint::InitRoot => BuildStage::InitRoot,
        HookPoint::EnterMod { .. } => BuildStage::EnterMod,
        HookPoint::PostBuild { .. } => BuildStage::PostBuild,
        HookPoint::ExitMod { .. } => BuildStage::ExitMod,
        HookPoint::ExitRoot => BuildStage::ExitRoot,
    }
}

/// The shapes of a sequence of steps.
pub open spec fn steps_view(s: Seq<BuildStep>) -> Seq<StepView> {
    s.map(|i: int, st: BuildStep| st@)
}

/// One hook call per registered extension, in registration order.
pub open spec fn hook_block(point: HookPointView, n: int) -> Seq<StepView> {
    Seq::new(
        if n >= 0 {
            n as nat
        } else {
            0
        },
        |i: int| StepView::Hook { ext_index: i, point },
    )
}

/// The steps for one directory entry that is a file: a compile followed by
/// the post-build hooks if it is a shader source, nothing otherwise.
pub open spec fn file_block(
    out_dir: Seq<char>,
    comps: Seq<Seq<char>>,
    fname: Seq<char>,
    n: int,
) -> Seq<StepView> {
    if is_shader_name(fname) {
        let stem = shader_stem(fname);
        let module = comps.push(stem);
        let apath = artifact_path_spec(
            out_dir,
            mangle_spec(PathOrigin::Absolute, comps, stem),
        );
        seq![
            StepView::Compile { origin: PathOrigin::Absolute, module, artifact_path: apath },
        ] + hook_block(
            HookPointView::PostBuild {
                origin: PathOrigin::Absolute,
                module,
                artifact_path: apath,
            },
            n,
        )
    } else {
        Seq::empty()
    }
}

/// The steps for the first `i` files of a directory.
pub open spec fn files_steps(
    out_dir: Seq<char>,
    comps: Seq<Seq<char>>,
    files: Seq<String>,
    n: int,
    i: int,
) -> Seq<StepView>
    decreases i,
{
    if i <= 0 {
        Seq::empty()
    } else {
        files_steps(out_dir, comps, files, n, i - 1) + file_block(
            out_dir,
            comps,
            files[i - 1]@,
            n,
        )
    }
}

/// The steps for one directory: all its files, then all its subdirectories.
pub open spec fn tree_steps(
    tree: DirTree,
    dir_path: Seq<char>,
    comps: Seq<Seq<char>>,
    out_dir: Seq<char>,
    n: int,
) -> Seq<StepView>
    decreases tree, tree.subdirs@.len() as int + 1,
{
    files_steps(out_dir, comps, tree.files@, n, tree.files@.len() as int) + subdirs_steps(
        tree,
        dir_path,
        comps,
        out_dir,
        n,
        tree.subdirs@.len() as int,
    )
}

/// The steps for the first `i` subdirectories of a directory: each is
/// entered, processed recursively, and exited.
pub open spec fn subdirs_steps(
    tree: DirTree,
    dir_path: Seq<char>,
    comps: Seq<Seq<char>>,
    out_dir: Seq<char>,
    n: int,
    i: int,
) -> Seq<StepView>
    decreases tree, i,
        when i <= tree.subdirs@.len()
        via subdirs_steps_decreases
{
    if i <= 0 {
        Seq::empty()
    } else {
        let sub = tree.subdirs@[i - 1];
        let child_path = dir_path + seq!['/'] + sub.name@;
        subdirs_steps(tree, dir_path, comps, out_dir, n, i - 1) + (hook_block(
            HookPointView::EnterMod { dir_path: child_path },
            n,
        ) + tree_steps(sub.tree, child_path, comps.push(sub.name@), out_dir, n) + hook_block(
            HookPointView::ExitMod { dir_path: child_path },
            n,
        ))
    }
}

#[via_fn]
proof fn subdirs_steps_decreases(
    tree: DirTree,
    dir_path: Seq<char>,
    comps: Seq<Seq<char>>,
    out_dir: Seq<char>,
    n: int,
    i: int,
) {
    if 0 < i <= tree.subdirs@.len() {
        assert(decreases_to!(tree => tree.subdirs));
        assert(decreases_to!(tree.subdirs => tree.subdirs@[i - 1]));
        assert(decreases_to!(tree => tree.subdirs@[i - 1].tree));
    }
}

/// The whole build: root initialization, the walk, root teardown.
pub open spec fn full_plan(tree: DirTree, root: Seq<char>, out_dir: Seq<char>, n: int) -> Seq<
    StepView,
> {
    hook_block(HookPointView::InitRoot, n) + tree_steps(
        tree,
        root,
        Seq::empty(),
        out_dir,
        n,
    ) + hook_block(HookPointView::ExitRoot, n)
}

/// A copy of a hook call.
fn dup_point(p: &HookPoint) -> (r: HookPoint)
    ensures
        r@ == p@,
{
    match p {
        HookPoint::InitRoot => HookPoint::InitRoot,
        HookPoint::EnterMod { dir_path } => HookPoint::EnterMod { dir_path: dir_path.clone() },
        HookPoint::PostBuild { module, artifact_path } => HookPoint::PostBuild {
            module: module.duplicate(),
            artifact_path: artifact_path.clone(),
        },
        HookPoint::ExitMod { dir_path } => HookPoint::ExitMod { dir_path: dir_path.clone() },
        HookPoint::ExitRoot => HookPoint::ExitRoot,
    }
}

/// Appends one hook call per extension, in registration order.
fn push_hooks(steps: &mut Vec<BuildStep>, p: &HookPoint, n: usize)
    ensures
        steps_view(final(steps)@) == steps_view(old(steps)@) + hook_block(p@, n as int),
{
    let mut i: usize = 0;
    proof {
        assert(steps_view(steps@) =~~= steps_view(old(steps)@) + hook_block(p@, 0));
    }
    while i < n
        invariant
            0 <= i <= n,
            steps_view(steps@) == steps_view(old(steps)@) + hook_block(p@, i as int),
        decreases n - i,
    {
        let step = BuildStep::Hook { ext_index: i, point: dup_point(p) };
        proof {
            assert(step@ == (StepView::Hook { ext_index: i as int, point: p@ }));
            assert(steps_view(steps@.push(step)) =~~= steps_view(steps@) + seq![step@]);
            assert(hook_block(p@, i + 1 as int) =~~= hook_block(p@, i as int) + seq![step@]);
            assert(steps_view(old(steps)@) + hook_block(p@, i as int) + seq![step@]
                =~~= steps_view(old(steps)@) + hook_block(p@, i + 1 as int));
        }
        steps.push(step);
        i = i + 1;
    }
}

/// Appends the steps of one directory: files first, then subdirectories.
fn plan_tree(
    steps: &mut Vec<BuildStep>,
    tree: &DirTree,
    dir_path: &String,
    comps: &Vec<String>,
    out_dir: &str,
    n: usize,
)
    requires
        wf_tree(*tree),
        wf_comps(comps_view(comps@)),
    ensures
        steps_view(final(steps)@) == steps_view(old(steps)@) + tree_steps(
            *tree,
            dir_path@,
            comps_view(comps@),
            out_dir@,
            n as int,
        ),
    decreases *tree,
{
    let ghost cv = comps_view(comps@);
    let mut i: usize = 0;
    proof {
        assert(steps_view(steps@) =~~= steps_view(old(steps)@) + files_steps(
            out_dir@,
            cv,
            tree.files@,
            n as int,
            0,
        ));
    }
    while i < tree.files.len()
        invariant
            0 <= i <= tree.files@.len(),
            wf_tree(*tree),
            wf_comps(cv),
            cv == comps_view(comps@),
            steps_view(steps@) == steps_view(old(steps)@) + files_steps(
                out_dir@,
                cv,
                tree.files@,
                n as int,
                i as int,
            ),
        decreases tree.files@.len() - i,
    {
        match shader_stem_of(tree.files[i].as_str()) {
            None => {
                proof {
                    assert(file_block(out_dir@, cv, tree.files@[i as int]@, n as int)
                        =~~= Seq::<StepView>::empty());
                    assert(steps_view(steps@) =~~= steps_view(old(steps)@) + files_steps(
                        out_dir@,
                        cv,
                        tree.files@,
                        n as int,
                        i + 1 as int,
                    ));
                }
            },
            Some(stem) => {
                proof {
                    assert(is_shader_name(tree.files@[i as int]@));
                    assert(wf_word(shader_stem(tree.files@[i as int]@)));
                    assert(wf_word(stem@));
                }
                let dir_mp = ModulePath {
                    origin: PathOrigin::Absolute,
                    components: clone_strings(comps),
                };
                proof {
                    assert(dir_mp.comps() =~= cv);
                    assert(wf_module_path(&dir_mp));
                }
                let mangled = mangle(&dir_mp, stem.as_str());
                let apath = artifact_path(out_dir, mangled.as_str());
                let mut module_comps = clone_strings(comps);
                module_comps.push(stem);
                proof {
                    assert(comps_view(module_comps@) =~~= cv.push(
                        shader_stem(tree.files@[i as int]@),
                    ));
                }
                let module = ModulePath { origin: PathOrigin::Absolute, components: module_comps };
                let point = HookPoint::PostBuild {
                    module,
                    artifact_path: apath,
                };
                let compile_step = match &point {
                    HookPoint::PostBuild { module, artifact_path } => BuildStep::Compile {
                        module: module.duplicate(),
                        artifact_path: artifact_path.clone(),
                    },
                    _ => BuildStep::Hook { ext_index: 0, point: HookPoint::InitRoot },
                };
                proof {
                    let fname = tree.files@[i as int]@;
                    let stem_v = shader_stem(fname);
                    let module_v = cv.push(stem_v);
                    let apath_v = artifact_path_spec(
                        out_dir@,
                        mangle_spec(PathOrigin::Absolute, cv, stem_v),
                    );
                    assert(point@ == (HookPointView::PostBuild {
                        origin: PathOrigin::Absolute,
                        module: module_v,
                        artifact_path: apath_v,
                    }));
                    assert(compile_step@ == (StepView::Compile {
                        origin: PathOrigin::Absolute,
                        module: module_v,
                        artifact_path: apath_v,
                    }));
                    assert(steps_view(steps@.push(compile_step)) =~~= steps_view(steps@) + seq![
                        compile_step@,
                    ]);
                }
                steps.push(compile_step);
                push_hooks(steps, &point, n);
                proof {
                    let fname = tree.files@[i as int]@;
                    assert(file_block(out_dir@, cv, fname, n as int) =~~= seq![
                        StepView::Compile {
                            origin: PathOrigin::Absolute,
                            module: cv.push(shader_stem(fname)),
                            artifact_path: artifact_path_spec(
                                out_dir@,
                                mangle_spec(PathOrigin::Absolute, cv, shader_stem(fname)),
                            ),
                        },
                    ] + hook_block(point@, n as int));
                    assert(steps_view(steps@) =~~= steps_view(old(steps)@) + files_steps(
                        out_dir@,
                        cv,
                        tree.files@,
                        n as int,
                        i + 1 as int,
                    ));
                }
            },
        }
        i = i + 1;
    }
    let ghost files_done = files_steps(
        out_dir@,
        cv,
        tree.files@,
        n as int,
        tree.files@.len() as int,
    );
    let mut j: usize = 0;
    proof {
        assert(steps_view(steps@) =~~= steps_view(old(steps)@) + files_done + subdirs_steps(
            *tree,
            dir_path@,
            cv,
            out_dir@,
            n as int,
            0,
        ));
    }
    while j < tree.subdirs.len()
        invariant
            0 <= j <= tree.subdirs@.len(),
            wf_tree(*tree),
            wf_comps(cv),
            cv == comps_view(comps@),
            files_done == files_steps(
                out_dir@,
                cv,
                tree.files@,
                n as int,
                tree.files@.len() as int,
            ),
            steps_view(steps@) == steps_view(old(steps)@) + files_done + subdirs_steps(
                *tree,
                dir_path@,
                cv,
                out_dir@,
                n as int,
                j as int,
            ),
        decreases tree.subdirs@.len() - j,
    {
        proof {
            lemma_wf_subdirs_index(*tree, tree.subdirs@.len() as int, j as int);
        }
        proof {
            reveal_strlit("/");
        }
        let child_path = dir_path.clone().concat("/").concat(tree.subdirs[j].name.as_str());
        proof {
            assert("/"@ =~= seq!['/']);
            assert(child_path@ =~= dir_path@ + seq!['/'] + tree.subdirs@[j as int].name@);
        }
        let mut ccomps = clone_strings(comps);
        ccomps.push(tree.subdirs[j].name.clone());
        proof {
            assert(comps_view(ccomps@) =~~= cv.push(tree.subdirs@[j as int].name@));
            assert(wf_comps(comps_view(ccomps@))) by {
                let q = cv.push(tree.subdirs@[j as int].name@);
                assert(forall|k: int| 0 <= k < cv.len() ==> q[k] == cv[k]);
                assert(q[cv.len() as int] == tree.subdirs@[j as int].name@);
            }
        }
        let enter = HookPoint::EnterMod { dir_path: child_path.clone() };
        push_hooks(steps, &enter, n);
        proof {
            assert(decreases_to!(*tree => tree.subdirs));
            assert(decreases_to!(tree.subdirs => tree.subdirs@[j as int]));
            assert(decreases_to!(*tree => tree.subdirs@[j as int].tree));
        }
        plan_tree(steps, &tree.subdirs[j].tree, &child_path, &ccomps, out_dir, n);
        let exit = HookPoint::ExitMod { dir_path: child_path };
        push_hooks(steps, &exit, n);
        proof {
            let sub = tree.subdirs@[j as int];
            let child_v = dir_path@ + seq!['/'] + sub.name@;
            assert(enter@ == (HookPointView::EnterMod { dir_path: child_v }));
            assert(exit@ == (HookPointView::ExitMod { dir_path: child_v }));
            assert(subdirs_steps(*tree, dir_path@, cv, out_dir@, n as int, j + 1 as int)
                =~~= subdirs_steps(*tree, dir_path@, cv, out_dir@, n as int, j as int) + (
            hook_block(HookPointView::EnterMod { dir_path: child_v }, n as int) + tree_steps(
                sub.tree,
                child_v,
                cv.push(sub.name@),
                out_dir@,
                n as int,
            ) + hook_block(HookPointView::ExitMod { dir_path: child_v }, n as int)));
            assert(steps_view(steps@) =~~= steps_view(old(steps)@) + files_done + subdirs_steps(
                *tree,
                dir_path@,
                cv,
                out_dir@,
                n as int,
                j + 1 as int,
            ));
        }
        j = j + 1;
    }
    proof {
        assert(steps_view(steps@) =~~= steps_view(old(steps)@) + tree_steps(
            *tree,
            dir_path@,
            cv,
            out_dir@,
            n as int,
        ));
    }
}

/// The full sequence of steps for one build of `tree` with `n_extensions`
/// registered extensions.
pub fn build_plan(tree: &DirTree, shader_root_path: &str, out_dir: &str, n_extensions: usize) -> (r:
    Vec<BuildStep>)
    requires
        wf_tree(*tree),
    ensures
        steps_view(r@) == full_plan(*tree, shader_root_path@, out_dir@, n_extensions as int),
{
    let mut steps: Vec<BuildStep> = Vec::new();
    proof {
        assert(steps_view(steps@) =~~= Seq::<StepView>::empty());
    }
    push_hooks(&mut steps, &HookPoint::InitRoot, n_extensions);
    let root = String::from_str(shader_root_path);
    let comps: Vec<String> = Vec::new();
    proof {
        assert(comps_view(comps@) =~~= Seq::<Seq<char>>::empty());
        assert(wf_comps(comps_view(comps@)));
        assert(steps_view(steps@) =~~= Seq::<StepView>::empty() + hook_block(
            HookPointView::InitRoot,
            n_extensions as int,
        ));
    }
    plan_tree(&mut steps, tree, &root, &comps, out_dir, n_extensions);
    push_hooks(&mut steps, &HookPoint::ExitRoot, n_extensions);
    proof {
        assert(steps_view(steps@) =~~= full_plan(
            *tree,
            shader_root_path@,
            out_dir@,
            n_extensions as int,
        ));
    }
    steps
}

/// Shape of one step of the walk below `dir_path`: hooks name a registered
/// extension, only walk-stage hooks occur, and entered or exited directories
/// lie strictly below `dir_path`.
pub open spec fn walk_step_ok(s: StepView, n: int, dir_path: Seq<char>) -> bool {
    match s {
        StepView::Compile { .. } => true,
        StepView::Hook { ext_index, point } => 0 <= ext_index < n && match point {
            HookPointView::InitRoot => false,
            HookPointView::ExitRoot => false,
            HookPointView::EnterMod { dir_path: p } => p.len() > dir_path.len(),
            HookPointView::ExitMod { dir_path: p } => p.len() > dir_path.len(),
            HookPointView::PostBuild { .. } => true,
        },
    }
}

proof fn lemma_files_steps_ok(
    out_dir: Seq<char>,
    comps: Seq<Seq<char>>,
    files: Seq<String>,
    n: int,
    i: int,
    dp: Seq<char>,
)
    ensures
        forall|k: int|
            0 <= k < files_steps(out_dir, comps, files, n, i).len() ==> walk_step_ok(
                #[trigger] files_steps(out_dir, comps, files, n, i)[k],
                n,
                dp,
            ),
    decreases i,
{
    if i > 0 {
        lemma_files_steps_ok(out_dir, comps, files, n, i - 1, dp);
        let prev = files_steps(out_dir, comps, files, n, i - 1);
        let blk = file_block(out_dir, comps, files[i - 1]@, n);
        assert forall|k: int|
            0 <= k < files_steps(out_dir, comps, files, n, i).len() implies walk_step_ok(
            #[trigger] files_steps(out_dir, comps, files, n, i)[k],
            n,
            dp,
        ) by {
            if k < prev.len() {
                assert(files_steps(out_dir, comps, files, n, i)[k] == prev[k]);
            } else {
                assert(files_steps(out_dir, comps, files, n, i)[k] == blk[k - prev.len()]);
                if is_shader_name(files[i - 1]@) {
                    if k - prev.len() >= 1 {
                        assert(blk[k - prev.len()] == StepView::Hook {
                            ext_index: k - prev.len() - 1,
                            point: HookPointView::PostBuild {
                                origin: PathOrigin::Absolute,
                                module: comps.push(shader_stem(files[i - 1]@)),
                                artifact_path: artifact_path_spec(
                                    out_dir,
                                    mangle_spec(
                                        PathOrigin::Absolute,
                                        comps,
                                        shader_stem(files[i - 1]@),
                                    ),
                                ),
                            },
                        });
                    }
                }
            }
        }
    }
}

proof fn lemma_tree_steps_ok(
    tree: DirTree,
    dir_path: Seq<char>,
    comps: Seq<Seq<char>>,
    out_dir: Seq<char>,
    n: int,
)
    ensures
        forall|k: int|
            0 <= k < tree_steps(tree, dir_path, comps, out_dir, n).len() ==> walk_step_ok(
                #[trigger] tree_steps(tree, dir_path, comps, out_dir, n)[k],
                n,
                dir_path,
            ),
    decreases tree, tree.subdirs@.len() as int + 1,
{
    let nf = tree.files@.len() as int;
    let ns = tree.subdirs@.len() as int;
    lemma_files_steps_ok(out_dir, comps, tree.files@, n, nf, dir_path);
    lemma_subdirs_steps_ok(tree, dir_path, comps, out_dir, n, ns);
    let f = files_steps(out_dir, comps, tree.files@, n, nf);
    let s = subdirs_steps(tree, dir_path, comps, out_dir, n, ns);
    assert forall|k: int|
        0 <= k < tree_steps(tree, dir_path, comps, out_dir, n).len() implies walk_step_ok(
        #[trigger] tree_steps(tree, dir_path, comps, out_dir, n)[k],
        n,
        dir_path,
    ) by {
        if k < f.len() {
            assert(tree_steps(tree, dir_path, comps, out_dir, n)[k] == f[k]);
        } else {
            assert(tree_steps(tree, dir_path, comps, out_dir, n)[k] == s[k - f.len()]);
        }
    }
}

proof fn lemma_subdirs_steps_ok(
    tree: DirTree,
    dir_path: Seq<char>,
    comps: Seq<Seq<char>>,
    out_dir: Seq<char>,
    n: int,
    i: int,
)
    requires
        i <= tree.subdirs@.len(),
    ensures
        forall|k: int|
            0 <= k < subdirs_steps(tree, dir_path, comps, out_dir, n, i).len() ==> walk_step_ok(
                #[trigger] subdirs_steps(tree, dir_path, comps, out_dir, n, i)[k],
                n,
                dir_path,
            ),
    decreases tree, i,
{
    if i > 0 {
        lemma_subdirs_steps_ok(tree, dir_path, comps, out_dir, n, i - 1);
        let sub = tree.subdirs@[i - 1];
        let child = dir_path + seq!['/'] + sub.name@;
        assert(decreases_to!(tree => tree.subdirs));
        assert(decreases_to!(tree.subdirs => tree.subdirs@[i - 1]));
        assert(decreases_to!(tree => tree.subdirs@[i - 1].tree));
        lemma_tree_steps_ok(sub.tree, child, comps.push(sub.name@), out_dir, n);
        let prev = subdirs_steps(tree, dir_path, comps, out_dir, n, i - 1);
        let enter = hook_block(HookPointView::EnterMod { dir_path: child }, n);
        let mid = tree_steps(sub.tree, child, comps.push(sub.name@), out_dir, n);
        let exit = hook_block(HookPointView::ExitMod { dir_path: child }, n);
        assert(child.len() > dir_path.len());
        assert forall|k: int|
            0 <= k < subdirs_steps(tree, dir_path, comps, out_dir, n, i).len() implies walk_step_ok(
            #[trigger] subdirs_steps(tree, dir_path, comps, out_dir, n, i)[k],
            n,
            dir_path,
        ) by {
            let cur = subdirs_steps(tree, dir_path, comps, out_dir, n, i);
            if k < prev.len() {
                assert(cur[k] == prev[k]);
            } else {
                let k2 = k - prev.len();
                assert(cur[k] == (enter + mid + exit)[k2]);
                if k2 < enter.len() {
                    assert((enter + mid + exit)[k2] == enter[k2]);
                    assert(enter[k2] == StepView::Hook {
                        ext_index: k2,
                        point: HookPointView::EnterMod { dir_path: child },
                    });
                } else if k2 < enter.len() + mid.len() {
                    assert((enter + mid + exit)[k2] == mid[k2 - enter.len()]);
                    assert(walk_step_ok(mid[k2 - enter.len()], n, child));
                } else {
                    assert((enter + mid + exit)[k2] == exit[k2 - enter.len() - mid.len()]);
                    assert(exit[k2 - enter.len() - mid.len()] == StepView::Hook {
                        ext_index: k2 - enter.len() - mid.len(),
                        point: HookPointView::ExitMod { dir_path: child },
                    });
                }
            }
        }
    }
}

/// The overall shape of a full build plan: the first `n` steps are the
/// `init_root` hooks in registration order, the last `n` the `exit_root`
/// hooks, and everything between is walk steps below the root.
pub proof fn lemma_full_plan_shape(tree: DirTree, root: Seq<char>, out_dir: Seq<char>, n: int)
    requires
        n >= 0,
    ensures
        ({
            let plan = full_plan(tree, root, out_dir, n);
            let mid = tree_steps(tree, root, Seq::empty(), out_dir, n);
            &&& plan.len() == n + mid.len() + n
            &&& (forall|k: int|
                0 <= k < n ==> #[trigger] plan[k] == StepView::Hook {
                    ext_index: k,
                    point: HookPointView::InitRoot,
                })
            &&& (forall|k: int|
                n <= k < n + mid.len() ==> walk_step_ok(#[trigger] plan[k], n, root))
            &&& (forall|k: int|
                n + mid.len() <= k < plan.len() ==> #[trigger] plan[k] == StepView::Hook {
                    ext_index: k - n - mid.len(),
                    point: HookPointView::ExitRoot,
                })
            &&& (forall|k: int|
                0 <= k < plan.len() ==> ((#[trigger] plan[k]) matches StepView::Hook {
                    ext_index,
                    ..
                } ==> 0 <= ext_index < n))
        }),
{
    let plan = full_plan(tree, root, out_dir, n);
    let mid = tree_steps(tree, root, Seq::empty(), out_dir, n);
    let a = hook_block(HookPointView::InitRoot, n);
    let c = hook_block(HookPointView::ExitRoot, n);
    lemma_tree_steps_ok(tree, root, Seq::empty(), out_dir, n);
    assert(plan.len() == n + mid.len() + n);
    assert forall|k: int| 0 <= k < n implies #[trigger] plan[k] == StepView::Hook {
        ext_index: k,
        point: HookPointView::InitRoot,
    } by {
        assert(plan[k] == a[k]);
    }
    assert forall|k: int| n <= k < n + mid.len() implies walk_step_ok(
        #[trigger] plan[k],
        n,
        root,
    ) by {
        assert(plan[k] == mid[k - n]);
    }
    assert forall|k: int| n + mid.len() <= k < plan.len() implies #[trigger] plan[k]
        == StepView::Hook { ext_index: k - n - mid.len(), point: HookPointView::ExitRoot } by {
        assert(plan[k] == c[k - n - mid.len()]);
    }
}

/// If a hook at the root-initialization stage is the first to fail, nothing
/// but root-initialization hooks ran before it: no directory was entered or
/// exited and no file was compiled or post-processed for any extension.
pub proof fn lemma_init_failure_isolates(
    tree: DirTree,
    root: Seq<char>,
    out_dir: Seq<char>,
    n: int,
    done: int,
)
    requires
        n >= 0,
        0 <= done < full_plan(tree, root, out_dir, n).len(),
        (full_plan(tree, root, out_dir, n)[done] matches StepView::Hook { point, .. }
            && stage_of(point) == BuildStage::InitRoot),
    ensures
        done < n,
        forall|k: int|
            0 <= k < done ==> #[trigger] full_plan(tree, root, out_dir, n)[k] == (StepView::Hook {
                ext_index: k,
                point: HookPointView::InitRoot,
            }),
{
    lemma_full_plan_shape(tree, root, out_dir, n);
    let plan = full_plan(tree, root, out_dir, n);
    let mid = tree_steps(tree, root, Seq::empty(), out_dir, n);
    if done >= n {
        if done < n + mid.len() {
            assert(walk_step_ok(plan[done], n, root));
            assert(false);
        } else {
            assert(plan[done] == StepView::Hook {
                ext_index: done - n - mid.len(),
                point: HookPointView::ExitRoot,
            });
            assert(false);
        }
    }
}

/// The directory named by an `enter_mod` or `exit_mod` hook, if the step is
/// one.
pub open spec fn mod_hook_path(s: StepView) -> Option<Seq<char>> {
    match s {
        StepView::Hook { ext_index: _, point: HookPointView::EnterMod { dir_path } } => Some(
            dir_path,
        ),
        StepView::Hook { ext_index: _, point: HookPointView::ExitMod { dir_path } } => Some(
            dir_path,
        ),
        _ => None,
    }
}

/// The root directory never receives `enter_mod` or `exit_mod` calls: every
/// such hook names a directory strictly below the root.
pub proof fn lemma_root_never_entered(
    tree: DirTree,
    root: Seq<char>,
    out_dir: Seq<char>,
    n: int,
    k: int,
)
    requires
        n >= 0,
        0 <= k < full_plan(tree, root, out_dir, n).len(),
        mod_hook_path(full_plan(tree, root, out_dir, n)[k]) is Some,
    ensures
        mod_hook_path(full_plan(tree, root, out_dir, n)[k]).unwrap().len() > root.len(),
        mod_hook_path(full_plan(tree, root, out_dir, n)[k]).unwrap() != root,
{
    lemma_full_plan_shape(tree, root, out_dir, n);
    let plan = full_plan(tree, root, out_dir, n);
    let mid = tree_steps(tree, root, Seq::empty(), out_dir, n);
    if k < n {
        assert(false);
    } else if k < n + mid.len() {
        assert(walk_step_ok(plan[k], n, root));
    } else {
        assert(false);
    }
}

proof fn lemma_files_steps_prefix(
    out_dir: Seq<char>,
    comps: Seq<Seq<char>>,
    files: Seq<String>,
    n: int,
    i: int,
    m: int,
)
    requires
        0 <= i <= m,
    ensures
        files_steps(out_dir, comps, files, n, i).len() <= files_steps(
            out_dir,
            comps,
            files,
            n,
            m,
        ).len(),
        forall|k: int|
            0 <= k < files_steps(out_dir, comps, files, n, i).len() ==> #[trigger] files_steps(
                out_dir,
                comps,
                files,
                n,
                m,
            )[k] == files_steps(out_dir, comps, files, n, i)[k],
    decreases m - i,
{
    if m > i {
        lemma_files_steps_prefix(out_dir, comps, files, n, i, m - 1);
    }
}

proof fn lemma_subdirs_steps_prefix(
    tree: DirTree,
    dir_path: Seq<char>,
    comps: Seq<Seq<char>>,
    out_dir: Seq<char>,
    n: int,
    i: int,
    m: int,
)
    requires
        0 <= i <= m <= tree.subdirs@.len(),
    ensures
        subdirs_steps(tree, dir_path, comps, out_dir, n, i).len() <= subdirs_steps(
            tree,
            dir_path,
            comps,
            out_dir,
            n,
            m,
        ).len(),
        forall|k: int|
            0 <= k < subdirs_steps(tree, dir_path, comps, out_dir, n, i).len()
                ==> #[trigger] subdirs_steps(tree, dir_path, comps, out_dir, n, m)[k]
                == subdirs_steps(tree, dir_path, comps, out_dir, n, i)[k],
    decreases m - i,
{
    if m > i {
        lemma_subdirs_steps_prefix(tree, dir_path, comps, out_dir, n, i, m - 1);
    }
}

/// Files before directories: within one directory, every shader file's
/// `post_build` hooks run before any subdirectory's `enter_mod` hooks.
/// Witnessed for the first extension: its `post_build` call for file `fi`
/// stands strictly before its `enter_mod` call for subdirectory `j`.
pub proof fn lemma_files_before_directories(
    tree: DirTree,
    dir_path: Seq<char>,
    comps: Seq<Seq<char>>,
    out_dir: Seq<char>,
    n: int,
    fi: int,
    j: int,
)
    requires
        n >= 1,
        0 <= fi < tree.files@.len(),
        is_shader_name(tree.files@[fi]@),
        0 <= j < tree.subdirs@.len(),
    ensures
        ({
            let s = tree_steps(tree, dir_path, comps, out_dir, n);
            let stem = shader_stem(tree.files@[fi]@);
            let child = dir_path + seq!['/'] + tree.subdirs@[j].name@;
            exists|a: int, b: int|
                0 <= a < b < s.len() && s[a] == StepView::Hook {
                    ext_index: 0,
                    point: HookPointView::PostBuild {
                        origin: PathOrigin::Absolute,
                        module: comps.push(stem),
                        artifact_path: artifact_path_spec(
                            out_dir,
                            mangle_spec(PathOrigin::Absolute, comps, stem),
                        ),
                    },
                } && s[b] == StepView::Hook {
                    ext_index: 0,
                    point: HookPointView::EnterMod { dir_path: child },
                }
        }),
{
    let s = tree_steps(tree, dir_path, comps, out_dir, n);
    let stem = shader_stem(tree.files@[fi]@);
    let child = dir_path + seq!['/'] + tree.subdirs@[j].name@;
    let nf = tree.files@.len() as int;
    let ns = tree.subdirs@.len() as int;
    let f_all = files_steps(out_dir, comps, tree.files@, n, nf);
    let f_i = files_steps(out_dir, comps, tree.files@, n, fi);
    let blk = file_block(out_dir, comps, tree.files@[fi]@, n);
    let post_step = StepView::Hook {
        ext_index: 0,
        point: HookPointView::PostBuild {
            origin: PathOrigin::Absolute,
            module: comps.push(stem),
            artifact_path: artifact_path_spec(
                out_dir,
                mangle_spec(PathOrigin::Absolute, comps, stem),
            ),
        },
    };
    // position of the file's first post-build hook
    assert(blk.len() == n + 1);
    assert(blk[1] == post_step);
    assert(files_steps(out_dir, comps, tree.files@, n, fi + 1) == f_i + blk);
    let a: int = f_i.len() as int + 1;
    assert(files_steps(out_dir, comps, tree.files@, n, fi + 1)[a] == blk[1]);
    lemma_files_steps_prefix(out_dir, comps, tree.files@, n, fi + 1, nf);
    assert(f_all[a] == post_step);
    assert(a < files_steps(out_dir, comps, tree.files@, n, fi + 1).len());
    assert(s[a] == f_all[a]);
    // position of the subdirectory's first enter hook
    let s_j = subdirs_steps(tree, dir_path, comps, out_dir, n, j);
    let enter = hook_block(HookPointView::EnterMod { dir_path: child }, n);
    let mid = tree_steps(
        tree.subdirs@[j].tree,
        child,
        comps.push(tree.subdirs@[j].name@),
        out_dir,
        n,
    );
    let exit = hook_block(HookPointView::ExitMod { dir_path: child }, n);
    let enter_step = StepView::Hook { ext_index: 0, point: HookPointView::EnterMod { dir_path: child } };
    assert(subdirs_steps(tree, dir_path, comps, out_dir, n, j + 1) == s_j + (enter + mid + exit));
    assert((enter + mid + exit)[0] == enter[0]);
    assert(enter[0] == enter_step);
    assert(subdirs_steps(tree, dir_path, comps, out_dir, n, j + 1)[s_j.len() as int] == enter_step);
    lemma_subdirs_steps_prefix(tree, dir_path, comps, out_dir, n, j + 1, ns);
    let s_all = subdirs_steps(tree, dir_path, comps, out_dir, n, ns);
    assert(s_all[s_j.len() as int] == enter_step);
    let b: int = f_all.len() as int + s_j.len() as int;
    assert(s[b] == s_all[s_j.len() as int]);
    // the post-build position lies before the enter position
    assert(a < files_steps(out_dir, comps, tree.files@, n, fi + 1).len());
    assert(a < f_all.len());
    assert(b < s.len());
    assert(0 <= a < b < s.len() && s[a] == post_step && s[b] == enter_step);
}

/// The step is an `enter_mod` (or, with `exiting`, an `exit_mod`) hook call
/// for extension `i`.
pub open spec fn is_mod_hook_for(s: StepView, i: int, exiting: bool) -> bool {
    match s {
        StepView::Hook { ext_index, point: HookPointView::EnterMod { .. } } => !exiting
            && ext_index == i,
        StepView::Hook { ext_index, point: HookPointView::ExitMod { .. } } => exiting && ext_index
            == i,
        _ => false,
    }
}

/// How many `enter_mod` (or `exit_mod`) hook calls for extension `i` the
/// steps hold.
pub open spec fn count_mod_hooks(s: Seq<StepView>, i: int, exiting: bool) -> nat
    decreases s.len(),
{
    if s.len() == 0 {
        0
    } else {
        (if is_mod_hook_for(s[0], i, exiting) {
            1nat
        } else {
            0nat
        }) + count_mod_hooks(s.drop_first(), i, exiting)
    }
}

proof fn lemma_count_concat(a: Seq<StepView>, b: Seq<StepView>, i: int, exiting: bool)
    ensures
        count_mod_hooks(a + b, i, exiting) == count_mod_hooks(a, i, exiting) + count_mod_hooks(
            b,
            i,
            exiting,
        ),
    decreases a.len(),
{
    if a.len() == 0 {
        assert(a + b =~~= b);
    } else {
        assert((a + b)[0] == a[0]);
        assert((a + b).drop_first() =~~= a.drop_first() + b);
        lemma_count_concat(a.drop_first(), b, i, exiting);
    }
}

proof fn lemma_count_hook_block(point: HookPointView, n: int, i: int, exiting: bool)
    requires
        n >= 0,
    ensures
        count_mod_hooks(hook_block(point, n), i, exiting) == (if 0 <= i < n && is_mod_hook_for(
            StepView::Hook { ext_index: i, point },
            i,
            exiting,
        ) {
            1nat
        } else {
            0nat
        }),
    decreases n,
{
    if n == 0 {
        assert(hook_block(point, 0).len() == 0);
    } else {
        lemma_count_hook_block(point, n - 1, i, exiting);
        let last = StepView::Hook { ext_index: n - 1, point };
        assert(hook_block(point, n) =~~= hook_block(point, n - 1) + seq![last]);
        lemma_count_concat(hook_block(point, n - 1), seq![last], i, exiting);
        assert(count_mod_hooks(seq![last], i, exiting) == (if is_mod_hook_for(last, i, exiting) {
            1nat
        } else {
            0nat
        })) by {
            assert(seq![last].len() == 1);
            assert(seq![last][0] == last);
            assert(seq![last].drop_first() =~~= Seq::<StepView>::empty());
            assert(count_mod_hooks(Seq::<StepView>::empty(), i, exiting) == 0);
        }
    }
}

proof fn lemma_count_files_steps(
    out_dir: Seq<char>,
    comps: Seq<Seq<char>>,
    files: Seq<String>,
    n: int,
    m: int,
    i: int,
    exiting: bool,
)
    requires
        n >= 0,
    ensures
        count_mod_hooks(files_steps(out_dir, comps, files, n, m), i, exiting) == 0,
    decreases m,
{
    if m > 0 {
        lemma_count_files_steps(out_dir, comps, files, n, m - 1, i, exiting);
        let blk = file_block(out_dir, comps, files[m - 1]@, n);
        lemma_count_concat(files_steps(out_dir, comps, files, n, m - 1), blk, i, exiting);
        if is_shader_name(files[m - 1]@) {
            let stem = shader_stem(files[m - 1]@);
            let post = HookPointView::PostBuild {
                origin: PathOrigin::Absolute,
                module: comps.push(stem),
                artifact_path: artifact_path_spec(
                    out_dir,
                    mangle_spec(PathOrigin::Absolute, comps, stem),
                ),
            };
            let head = StepView::Compile {
                origin: PathOrigin::Absolute,
                module: comps.push(stem),
                artifact_path: artifact_path_spec(
                    out_dir,
                    mangle_spec(PathOrigin::Absolute, comps, stem),
                ),
            };
            assert(blk =~~= seq![head] + hook_block(post, n));
            lemma_count_concat(seq![head], hook_block(post, n), i, exiting);
            assert(count_mod_hooks(seq![head], i, exiting) == 0) by {
                assert(seq![head].len() == 1);
                assert(seq![head][0] == head);
                assert(!is_mod_hook_for(head, i, exiting));
                assert(seq![head].drop_first() =~~= Seq::<StepView>::empty());
                assert(count_mod_hooks(Seq::<StepView>::empty(), i, exiting) == 0);
            }
            lemma_count_hook_block(post, n, i, exiting);
        } else {
            assert(blk.len() == 0);
        }
    }
}

proof fn lemma_count_tree_steps(
    tree: DirTree,
    dir_path: Seq<char>,
    comps: Seq<Seq<char>>,
    out_dir: Seq<char>,
    n: int,
    i: int,
    exiting: bool,
)
    requires
        0 <= i < n,
    ensures
        count_mod_hooks(tree_steps(tree, dir_path, comps, out_dir, n), i, exiting) == dir_count(
            tree,
        ),
    decreases tree, tree.subdirs@.len() as int + 1,
{
    let nf = tree.files@.len() as int;
    let ns = tree.subdirs@.len() as int;
    lemma_count_files_steps(out_dir, comps, tree.files@, n, nf, i, exiting);
    lemma_count_subdirs_steps(tree, dir_path, comps, out_dir, n, ns, i, exiting);
    lemma_count_concat(
        files_steps(out_dir, comps, tree.files@, n, nf),
        subdirs_steps(tree, dir_path, comps, out_dir, n, ns),
        i,
        exiting,
    );
}

proof fn lemma_count_subdirs_steps(
    tree: DirTree,
    dir_path: Seq<char>,
    comps: Seq<Seq<char>>,
    out_dir: Seq<char>,
    n: int,
    j: int,
    i: int,
    exiting: bool,
)
    requires
        j <= tree.subdirs@.len(),
        0 <= i < n,
    ensures
        count_mod_hooks(subdirs_steps(tree, dir_path, comps, out_dir, n, j), i, exiting)
            == subdir_dir_count(tree, j),
    decreases tree, j,
{
    if j > 0 {
        lemma_count_subdirs_steps(tree, dir_path, comps, out_dir, n, j - 1, i, exiting);
        let sub = tree.subdirs@[j - 1];
        let child = dir_path + seq!['/'] + sub.name@;
        let enter = hook_block(HookPointView::EnterMod { dir_path: child }, n);
        let mid = tree_steps(sub.tree, child, comps.push(sub.name@), out_dir, n);
        let exit = hook_block(HookPointView::ExitMod { dir_path: child }, n);
        assert(decreases_to!(tree => tree.subdirs));
        assert(decreases_to!(tree.subdirs => tree.subdirs@[j - 1]));
        assert(decreases_to!(tree => tree.subdirs@[j - 1].tree));
        lemma_count_tree_steps(sub.tree, child, comps.push(sub.name@), out_dir, n, i, exiting);
        lemma_count_hook_block(HookPointView::EnterMod { dir_path: child }, n, i, exiting);
        lemma_count_hook_block(HookPointView::ExitMod { dir_path: child }, n, i, exiting);
        lemma_count_concat(enter, mid, i, exiting);
        lemma_count_concat(enter + mid, exit, i, exiting);
        lemma_count_concat(
            subdirs_steps(tree, dir_path, comps, out_dir, n, j - 1),
            enter + mid + exit,
            i,
            exiting,
        );
        assert(count_mod_hooks(enter + mid, i, exiting) == count_mod_hooks(enter, i, exiting)
            + count_mod_hooks(mid, i, exiting));
        assert(count_mod_hooks(enter, i, exiting) + count_mod_hooks(exit, i, exiting) == 1);
    }
}

/// Every directory below the root is entered exactly once and exited
/// exactly once by each registered extension over the whole build: the plan
/// holds exactly one `enter_mod` hook and one `exit_mod` hook per directory
/// for extension `i`, and [`lemma_files_before_directories`] places each
/// pair around its own subtree.
pub proof fn lemma_each_directory_once(
    tree: DirTree,
    root: Seq<char>,
    out_dir: Seq<char>,
    n: int,
    i: int,
)
    requires
        0 <= i < n,
    ensures
        count_mod_hooks(full_plan(tree, root, out_dir, n), i, false) == dir_count(tree),
        count_mod_hooks(full_plan(tree, root, out_dir, n), i, true) == dir_count(tree),
{
    let a = hook_block(HookPointView::InitRoot, n);
    let mid = tree_steps(tree, root, Seq::empty(), out_dir, n);
    let c = hook_block(HookPointView::ExitRoot, n);
    assert forall|exiting: bool|
        count_mod_hooks(full_plan(tree, root, out_dir, n), i, exiting) == dir_count(tree) by {
        lemma_count_hook_block(HookPointView::InitRoot, n, i, exiting);
        lemma_count_hook_block(HookPointView::ExitRoot, n, i, exiting);
        lemma_count_tree_steps(tree, root, Seq::empty(), out_dir, n, i, exiting);
        lemma_count_concat(a, mid, i, exiting);
        lemma_count_concat(a + mid, c, i, exiting);
        assert(full_plan(tree, root, out_dir, n) == a + mid + c);
        assert(count_mod_hooks(a + mid, i, exiting) == count_mod_hooks(a, i, exiting)
            + count_mod_hooks(mid, i, exiting));
    }
}

} // verus!
