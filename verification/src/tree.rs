use vstd::prelude::*;
use crate::error::IoCause;
use crate::machine::{
    answers_subdirectories, answers_subdirectory, batch_error, dir_names, file_names, finish, first_error,
    names_of, new_frame, pending, resume, spec_next, start_tree, subdirectory_initial, unknown_names,
    useful_parent, wf, ActionView, EntryKind, EventView, PhaseView, RemovalView, Stage,
};
use crate::names::{spec_has_nul, spec_is_dot_or_dotdot, spec_join, DOT};
use crate::options::Options;

verus! {

/// A directory tree as the file system holds it: a file (or anything that is
/// not a directory), or a directory with named entries.
pub enum Tree {
    File,
    Dir { names: Seq<Seq<u8>>, kids: Seq<Tree> },
}

/// A tree a file system can hold: each directory lists one entry per name,
/// no name twice, and neither `.` nor `..` among them.
pub open spec fn valid(t: Tree) -> bool
    decreases t,
{
    match t {
        Tree::File => true,
        Tree::Dir { names, kids } => {
            &&& names.len() == kids.len()
            &&& forall|i: int, j: int| 0 <= i < names.len() && 0 <= j < names.len() && i != j ==> names[i] != names[j]
            &&& forall|i: int| 0 <= i < names.len() ==> !spec_is_dot_or_dotdot(#[trigger] names[i])
            &&& forall|i: int| 0 <= i < kids.len() ==> valid(#[trigger] kids[i])
        },
    }
}

/// What the kind of `t` is.
pub open spec fn kind_of(t: Tree) -> EntryKind {
    if t is Dir {
        EntryKind::Directory
    } else {
        EntryKind::NotDirectory
    }
}

/// What reading the directory `t` lists: each entry's name and kind, in
/// order.
pub open spec fn listing(t: Tree) -> Seq<(Seq<u8>, EntryKind)> {
    match t {
        Tree::File => seq![],
        Tree::Dir { names, kids } => Seq::new(names.len(), |i: int| (names[i], kind_of(kids[i]))),
    }
}

/// A listing that says the kind of every entry leaves nothing unknown.
proof fn lemma_no_unknown(l: Seq<(Seq<u8>, EntryKind)>)
    requires
        forall|i: int| 0 <= i < l.len() ==> #[trigger] l[i].1 != EntryKind::Unknown,
    ensures
        unknown_names(l).len() == 0,
    decreases l.len(),
{
    if l.len() > 0 {
        let d = l.drop_last();
        assert forall|i: int| 0 <= i < d.len() implies #[trigger] d[i].1 != EntryKind::Unknown by {
            assert(d[i] == l[i]);
        }
        lemma_no_unknown(d);
    }
}

/// A listing as the operating system gives it, which starts with the
/// directory itself, `.`, and its parent, `..`.
pub open spec fn dotted(l: Seq<(Seq<u8>, EntryKind)>) -> Seq<(Seq<u8>, EntryKind)> {
    seq![(seq![DOT], EntryKind::Directory), (seq![DOT, DOT], EntryKind::Directory)] + l
}

/// `.` and `..` make no difference to what the walk keeps of a listing.
proof fn lemma_dotted(l: Seq<(Seq<u8>, EntryKind)>, kind: EntryKind)
    ensures
        names_of(dotted(l), kind) == names_of(l, kind),
    decreases l.len(),
{
    let d = seq![(seq![DOT], EntryKind::Directory), (seq![DOT, DOT], EntryKind::Directory)];
    if l.len() == 0 {
        assert(dotted(l) =~= d);
        assert(d.drop_last() =~= seq![(seq![DOT], EntryKind::Directory)]);
        assert(d.drop_last().drop_last() =~= Seq::<(Seq<u8>, EntryKind)>::empty());
        assert(spec_is_dot_or_dotdot(seq![DOT]));
        assert(spec_is_dot_or_dotdot(seq![DOT, DOT]));
        assert(names_of(d.drop_last().drop_last(), kind) == Seq::<Seq<u8>>::empty());
        assert(names_of(d.drop_last(), kind) == Seq::<Seq<u8>>::empty());
        assert(names_of(l, kind) == Seq::<Seq<u8>>::empty());
    } else {
        lemma_dotted(l.drop_last(), kind);
        assert(dotted(l).drop_last() =~= dotted(l.drop_last()));
        assert(dotted(l).last() == l.last());
    }
}

/// What the removal of the subdirectory `name` of the directory at
/// `dir_path` ends in when it succeeds: finished, with no error.
pub open spec fn finished_child(dir_path: Seq<u8>, name: Seq<u8>, opts: Options) -> RemovalView {
    resume(subdirectory_initial(dir_path, name, opts))
}

/// How a file system that holds the tree `t` at the directory being removed,
/// and where every operation succeeds, answers the action `a` of a removal
/// with options `opts`; each subdirectory's own removal ends as
/// [`finished_child`] says (see [`lemma_subtree_removed`]).
pub open spec fn answer(a: ActionView, t: Tree, opts: Options) -> EventView {
    match a {
        ActionView::ReadDir => EventView::Entries { entries: dotted(listing(t)) },
        ActionView::UnlinkFiles { names, .. } => EventView::FilesRemoved {
            results: Seq::new(names.len(), |i: int| Ok::<(), IoCause>(())),
        },
        ActionView::RemoveSubdirs { dir_path, names } => EventView::SubdirsRemoved {
            removals: Seq::new(names.len(), |i: int| finished_child(dir_path, names[i], opts)),
        },
        _ => EventView::Done,
    }
}

/// `n` steps of the removal against such a file system: the state reached
/// and the actions performed on the way.
pub open spec fn run(s: RemovalView, t: Tree, n: nat) -> (RemovalView, Seq<ActionView>)
    decreases n,
{
    if n == 0 {
        (s, seq![])
    } else {
        let a = pending(s);
        let r = run(spec_next(s, answer(a, t, s.opts)).0, t, (n - 1) as nat);
        (r.0, seq![a] + r.1)
    }
}

/// Running `n1` and then `n2` steps is running `n1 + n2` steps.
proof fn lemma_run_add(s: RemovalView, t: Tree, n1: nat, n2: nat)
    ensures
        run(s, t, n1 + n2) == ({
            let r1 = run(s, t, n1);
            let r2 = run(r1.0, t, n2);
            (r2.0, r1.1 + r2.1)
        }),
    decreases n1,
{
    if n1 > 0 {
        let a = pending(s);
        let s1 = spec_next(s, answer(a, t, s.opts)).0;
        lemma_run_add(s1, t, (n1 - 1) as nat, n2);
        assert((n1 + n2 - 1) as nat == (n1 - 1) as nat + n2);
        let r1 = run(s1, t, (n1 - 1) as nat);
        let r2 = run(r1.0, t, n2);
        assert(seq![a] + (r1.1 + r2.1) =~= (seq![a] + r1.1) + r2.1);
    } else {
        let r2 = run(s, t, n2);
        assert(seq![] + r2.1 =~= r2.1);
    }
}

/// One step of [`run`].
proof fn lemma_run_one(s: RemovalView, t: Tree)
    ensures
        run(s, t, 1) == (spec_next(s, answer(pending(s), t, s.opts)).0, seq![pending(s)]),
{
    let s1 = spec_next(s, answer(pending(s), t, s.opts)).0;
    assert(run(s1, t, 0) == (s1, Seq::<ActionView>::empty()));
    assert(seq![pending(s)] + Seq::<ActionView>::empty() =~= seq![pending(s)]);
}


/// A batch of files all unlinked meets no error.
proof fn lemma_batch_all_ok(dir: Seq<u8>, opts: Options, names: Seq<Seq<u8>>, results: Seq<Result<(), IoCause>>)
    requires
        results.len() == names.len(),
        forall|i: int| 0 <= i < results.len() ==> #[trigger] results[i] is Ok,
    ensures
        batch_error(dir, opts, names, results) is None,
    decreases names.len(),
{
    if names.len() > 0 {
        let r0 = results.drop_last();
        assert forall|i: int| 0 <= i < r0.len() implies #[trigger] r0[i] is Ok by {
            assert(r0[i] == results[i]);
        }
        lemma_batch_all_ok(dir, opts, names.drop_last(), r0);
        assert(results.last() is Ok);
    }
}

/// A subdirectory's removal that succeeded is finished, about that
/// subdirectory alone, with no error.
proof fn lemma_finished_child(dir_path: Seq<u8>, name: Seq<u8>, opts: Options)
    ensures
        answers_subdirectory(finished_child(dir_path, name, opts), Options { recursive: true, ..opts }, dir_path, name),
        finished_child(dir_path, name, opts).errors.len() == 0,
{
}

/// Removals that met no error give no first error.
proof fn lemma_no_child_error(rs: Seq<RemovalView>)
    requires
        forall|i: int| 0 <= i < rs.len() ==> (#[trigger] rs[i]).errors.len() == 0,
    ensures
        first_error(rs) is None,
    decreases rs.len(),
{
    if rs.len() > 0 {
        let d = rs.drop_last();
        assert forall|i: int| 0 <= i < d.len() implies (#[trigger] d[i]).errors.len() == 0 by {
            assert(d[i] == rs[i]);
        }
        lemma_no_child_error(d);
        assert(rs.last().errors.len() == 0);
    }
}

/// The operations that remove the directory `t`, named `name` in its
/// parent and found at `path`: open it, list it, unlink its files if it has
/// any, remove its subdirectories if it has any, close it, and remove it
/// from its parent.
pub open spec fn level_trace(t: Tree, name: Seq<u8>, path: Seq<u8>) -> Seq<ActionView> {
    let files = file_names(listing(t));
    let dirs = dir_names(listing(t));
    seq![ActionView::OpenDir { name }, ActionView::ReadDir] + (if files.len() > 0 {
        seq![ActionView::UnlinkFiles { dir_path: path, names: files }]
    } else {
        seq![]
    }) + (if dirs.len() > 0 {
        seq![ActionView::RemoveSubdirs { dir_path: path, names: dirs }]
    } else {
        seq![]
    }) + seq![ActionView::CloseDir, ActionView::RemoveDir { name }]
}

/// Removing a directory that holds `t`, when every operation succeeds,
/// performs exactly [`level_trace`] and then goes on as after the directory
/// is gone.
#[verifier::rlimit(60)]
proof fn lemma_level(s: RemovalView, t: Tree)
    requires
        wf(s),
        s.phase is Walking,
        s.dir == Some(new_frame(s.dir->0.name, s.dir->0.path)),
    ensures
        exists|n: nat| run(s, t, n) == (resume(s), level_trace(t, s.dir->0.name, s.dir->0.path)),
{
    let f = s.dir->0;
    let name = f.name;
    let path = f.path;
    let l = listing(t);
    let files = file_names(l);
    let dirs = dir_names(l);
    lemma_dotted(l, EntryKind::NotDirectory);
    lemma_dotted(l, EntryKind::Directory);
    lemma_dotted(l, EntryKind::Unknown);
    lemma_no_unknown(l);
    let s1 = spec_next(s, answer(pending(s), t, s.opts)).0;
    lemma_run_one(s, t);
    assert(s1.dir->0.stage == Stage::Reading);
    crate::laws::lemma_step_preserves_wf(s, answer(pending(s), t, s.opts));
    let s2 = spec_next(s1, answer(pending(s1), t, s1.opts)).0;
    lemma_run_one(s1, t);
    lemma_run_add(s, t, 1, 1);
    crate::laws::lemma_step_preserves_wf(s1, answer(pending(s1), t, s1.opts));
    let mut k: nat = 2;
    let mut cur = s2;
    let mut tr = seq![ActionView::OpenDir { name }, ActionView::ReadDir];
    assert(run(s, t, k) == (cur, tr));
    assert(cur.dir->0.files == files && cur.dir->0.subdirs == dirs && cur.dir->0.name == name
        && cur.dir->0.path == path);
    if files.len() > 0 {
        lemma_batch_all_ok(path, cur.opts, files, Seq::new(files.len(), |i: int| Ok::<(), IoCause>(())));
        let nxt = spec_next(cur, answer(pending(cur), t, cur.opts)).0;
        lemma_run_one(cur, t);
        lemma_run_add(s, t, k, 1);
        crate::laws::lemma_step_preserves_wf(cur, answer(pending(cur), t, cur.opts));
        tr = tr + seq![ActionView::UnlinkFiles { dir_path: path, names: files }];
        k = k + 1;
        cur = nxt;
    }
    assert(run(s, t, k) == (cur, tr));
    assert(cur.dir->0.stage == (if dirs.len() > 0 { Stage::RemovingSubdirs } else { Stage::Closing }));
    if dirs.len() > 0 {
        let rs = Seq::new(dirs.len(), |i: int| finished_child(path, dirs[i], cur.opts));
        assert(Options { recursive: true, ..cur.opts } == cur.opts);
        assert forall|i: int| 0 <= i < dirs.len() implies answers_subdirectory(#[trigger] rs[i], cur.opts, path, dirs[i]) by {
            lemma_finished_child(path, dirs[i], cur.opts);
        }
        lemma_no_child_error(rs);
        let nxt = spec_next(cur, answer(pending(cur), t, cur.opts)).0;
        lemma_run_one(cur, t);
        lemma_run_add(s, t, k, 1);
        crate::laws::lemma_step_preserves_wf(cur, answer(pending(cur), t, cur.opts));
        tr = tr + seq![ActionView::RemoveSubdirs { dir_path: path, names: dirs }];
        k = k + 1;
        cur = nxt;
    }
    assert(run(s, t, k) == (cur, tr));
    assert(cur.dir->0.stage == Stage::Closing);
    let c1 = spec_next(cur, answer(pending(cur), t, cur.opts)).0;
    lemma_run_one(cur, t);
    lemma_run_add(s, t, k, 1);
    crate::laws::lemma_step_preserves_wf(cur, answer(pending(cur), t, cur.opts));
    let c2 = spec_next(c1, answer(pending(c1), t, c1.opts)).0;
    lemma_run_one(c1, t);
    lemma_run_add(s, t, k + 1, 1);
    assert(c2 == resume(s));
    assert(run(s, t, k + 2).1 =~= level_trace(t, name, path));
}

/// The removal of the subdirectory `name` of the directory at `dir_path`,
/// which holds `t`, succeeds on a file system where every operation does:
/// its own removal performs [`level_trace`] and ends as [`finished_child`]
/// says, finished with no error, which is how [`answer`] reports it to the
/// removal of its parent; and so, in turn, does the removal of each of its
/// subdirectories.
pub open spec fn subtree_removed(t: Tree, dir_path: Seq<u8>, name: Seq<u8>, opts: Options) -> bool
    decreases t,
{
    match t {
        Tree::File => true,
        Tree::Dir { names, kids } => {
            let path = spec_join(dir_path, name);
            &&& exists|n: nat|
                #[trigger] run(subdirectory_initial(dir_path, name, opts), t, n) == (
                    finished_child(dir_path, name, opts),
                    level_trace(t, name, path),
                )
            &&& forall|i: int|
                0 <= i < kids.len() ==> subtree_removed(#[trigger] kids[i], path, names[i], opts)
        },
    }
}

/// Every directory tree a file system can hold is removed, level by level,
/// when every operation succeeds.
pub proof fn lemma_subtree_removed(t: Tree, dir_path: Seq<u8>, name: Seq<u8>, opts: Options)
    requires
        valid(t),
    ensures
        subtree_removed(t, dir_path, name, opts),
    decreases t,
{
    if let Tree::Dir { names, kids } = t {
        let path = spec_join(dir_path, name);
        let s = subdirectory_initial(dir_path, name, opts);
        lemma_level(s, t);
        let n = choose|n: nat| run(s, t, n) == (resume(s), level_trace(t, name, path));
        assert forall|i: int| 0 <= i < kids.len() implies subtree_removed(#[trigger] kids[i], path, names[i], opts) by {
            lemma_subtree_removed(kids[i], path, names[i], opts);
        }
    }
}

/// The operations that remove the path at `s.next`, a directory holding `t`:
/// open the directory holding it when it has one other than the working
/// directory, remove the directory itself, and close what was opened.
pub open spec fn operand_trace(s: RemovalView, t: Tree) -> Seq<ActionView> {
    let op = s.operands[s.next as int];
    let name = op.file_name->0;
    match useful_parent(op.parent) {
        Some(p) => seq![ActionView::OpenParent { path: p }] + level_trace(t, name, op.path) + seq![
            ActionView::CloseDir,
        ],
        None => level_trace(t, name, op.path),
    }
}

/// Removing a directory recursively, on a file system where it holds the
/// tree `t` and every operation succeeds, performs exactly
/// [`operand_trace`]: its files are unlinked, its subdirectories are removed
/// (each by a removal of its own, which succeeds in turn), it is removed
/// itself once closed, and what was opened is closed again; then no error
/// is recorded and the removal goes on with the next path.
pub proof fn lemma_removes_whole_tree(s: RemovalView, t: Tree)
    requires
        wf(s),
        s.phase is Inspecting,
        s.opts.recursive,
        valid(t),
        t is Dir,
        s.operands[s.next as int].file_name is Some,
        !spec_has_nul(s.operands[s.next as int].file_name->0),
    ensures
        exists|n: nat|
            run(spec_next(s, EventView::Metadata { is_dir: true }).0, t, n) == (finish(s, None), operand_trace(s, t)),
        forall|i: int|
            0 <= i < t->kids.len() ==> subtree_removed(
                #[trigger] t->kids[i],
                s.operands[s.next as int].path,
                t->names[i],
                s.opts,
            ),
{
    let op = s.operands[s.next as int];
    let name = op.file_name->0;
    let s1 = spec_next(s, EventView::Metadata { is_dir: true }).0;
    assert(s1 == start_tree(s));
    crate::laws::lemma_step_preserves_wf(s, EventView::Metadata { is_dir: true });
    match useful_parent(op.parent) {
        Some(p) => {
            lemma_run_one(s1, t);
            let s2 = RemovalView { phase: PhaseView::Walking, parent_open: true, ..s1 };
            crate::laws::lemma_step_preserves_wf(s1, EventView::Done);
            lemma_level(s2, t);
            let n = choose|n: nat| run(s2, t, n) == (resume(s2), level_trace(t, name, op.path));
            let c = resume(s2);
            lemma_run_one(c, t);
            assert(finish(c, None) == finish(s, None));
            lemma_run_add(s1, t, 1, n);
            lemma_run_add(s1, t, 1 + n, 1);
            assert(run(s1, t, 1 + n + 1).1 =~= operand_trace(s, t));
        },
        None => {
            lemma_level(s1, t);
            let n = choose|n: nat| run(s1, t, n) == (resume(s1), level_trace(t, name, op.path));
            assert(resume(s1) == finish(s, None));
        },
    }
    assert forall|i: int| 0 <= i < t->kids.len() implies subtree_removed(
        #[trigger] t->kids[i],
        op.path,
        t->names[i],
        s.opts,
    ) by {
        lemma_subtree_removed(t->kids[i], op.path, t->names[i], s.opts);
    }
}

} // verus!
