use vstd::prelude::*;
use vstd::string::StringSliceAdditionalSpecFns;
use crate::error::{IoCause, RumErrorView};
use crate::machine::{
    answers_subdirectories, batch_lines, batch_error, first_error, initial, names_of, FrameView, OperandView, no_dots, EntryKind, frame_wf, holds_fd, open_count, pending, spec_next, wf, ActionView, EventView,
    PhaseView, RemovalView, Stage,
};
use crate::errno::spec_not_found;
use crate::names::{spec_is_dot_or_dotdot, spec_join};
use crate::options::Options;

verus! {

/// No name the walk keeps for an entry is `.` or `..`.
proof fn lemma_names_not_dots(entries: Seq<(Seq<u8>, EntryKind)>, kind: EntryKind)
    ensures
        no_dots(names_of(entries, kind)),
    decreases entries.len(),
{
    if entries.len() > 0 {
        let rest = entries.drop_last();
        lemma_names_not_dots(rest, kind);
        let ns = names_of(entries, kind);
        assert forall|i: int| 0 <= i < ns.len() implies !spec_is_dot_or_dotdot(#[trigger] ns[i]) by {
            if i < names_of(rest, kind).len() {
                assert(ns[i] == names_of(rest, kind)[i]);
            }
        }
    }
}

/// Pushing a name that is not `.` or `..` keeps a list free of them, and so
/// does dropping the first.
proof fn lemma_no_dots_edit(names: Seq<Seq<u8>>, x: Seq<u8>)
    requires
        no_dots(names),
    ensures
        !spec_is_dot_or_dotdot(x) ==> no_dots(names.push(x)),
        names.len() > 0 ==> no_dots(names.drop_first()),
{
    if !spec_is_dot_or_dotdot(x) {
        assert forall|i: int| 0 <= i < names.push(x).len() implies !spec_is_dot_or_dotdot(
            #[trigger] names.push(x)[i],
        ) by {
            if i < names.len() {
                assert(names.push(x)[i] == names[i]);
            }
        }
    }
    if names.len() > 0 {
        assert forall|i: int| 0 <= i < names.drop_first().len() implies !spec_is_dot_or_dotdot(
            #[trigger] names.drop_first()[i],
        ) by {
            assert(names.drop_first()[i] == names[i + 1]);
        }
    }
}

/// Every step keeps the invariant of a removal, whatever the driver reports.
pub proof fn lemma_step_preserves_wf(s: RemovalView, e: EventView)
    requires
        wf(s),
    ensures
        wf(spec_next(s, e).0),
{
    if s.phase is Walking {
        let f = s.dir->0;
        if let EventView::Entries { entries } = e {
            lemma_names_not_dots(entries, EntryKind::NotDirectory);
            lemma_names_not_dots(entries, EntryKind::Directory);
            lemma_names_not_dots(entries, EntryKind::Unknown);
        }
        match e {
            EventView::FilesRemoved { results } => {
                if f.stage == Stage::RemovingFiles && results.len() == f.files.len() && batch_error(
                    f.path,
                    s.opts,
                    f.files,
                    results,
                ) is Some {
                    lemma_batch_error_names_a_file(f.path, s.opts, f.files, results);
                }
            },
            EventView::SubdirsRemoved { removals } => {
                if f.stage == Stage::RemovingSubdirs && answers_subdirectories(removals, s.opts, f.path, f.subdirs)
                    && first_error(removals) is Some {
                    lemma_subdirectory_error_is_a_childs(removals, s.opts, f.path, f.subdirs);
                    let i = choose|i: int|
                        0 <= i < f.subdirs.len() && (#[trigger] removals[i]).errors.len() > 0 && first_error(removals)
                            == Some(removals[i].errors[0]) && removals[i].operands[0].path == spec_join(
                            f.path,
                            f.subdirs[i],
                        ) && (forall|j: int| 0 <= j < i ==> (#[trigger] removals[j]).errors.len() == 0);
                    assert(crate::machine::answers_subdirectory(removals[i], s.opts, f.path, f.subdirs[i]));
                    assert(crate::machine::owed_error(removals[i].opts, removals[i].errors[0]));
                }
            },
            _ => {},
        }
        if f.stage == Stage::Classifying {
            assert(!spec_is_dot_or_dotdot(f.unknown[0]));
            lemma_no_dots_edit(f.files, f.unknown[0]);
            lemma_no_dots_edit(f.subdirs, f.unknown[0]);
            lemma_no_dots_edit(f.unknown, f.unknown[0]);
        }
    }
}

/// Without recursion, no directory is ever opened, read or removed: the
/// only operations asked for are inspecting a path and removing a file.
pub proof fn lemma_no_recursion_touches_no_directory(s: RemovalView)
    requires
        wf(s),
        !s.opts.recursive,
    ensures
        pending(s) is Inspect || pending(s) is RemoveFile || pending(s) is Finish,
{
}

/// Without recursion, a path that is a directory is not removed: an
/// "is a directory" error about it is recorded, nothing is printed, no
/// other operation is asked for it, and the removal goes on with the next
/// path.
pub proof fn lemma_directory_needs_recursion(s: RemovalView)
    requires
        wf(s),
        !s.opts.recursive,
        pending(s) is Inspect,
    ensures
        ({
            let (t, lines) = spec_next(s, EventView::Metadata { is_dir: true });
            &&& t.errors == s.errors.push(RumErrorView::IsDirectory { path: s.operands[s.next as int].path })
            &&& t.next == s.next + 1
            &&& t.dir is None
            &&& lines.len() == 0
            &&& pending(t) == (if t.next < t.operands.len() {
                ActionView::Inspect { path: t.operands[t.next as int].path }
            } else {
                ActionView::Finish
            })
        }),
{
    lemma_errors_grow_by_path(s, EventView::Metadata { is_dir: true });
}

/// With `force`, a path that turns out not to exist is no error: when
/// inspecting a path or an entry, removing a file, opening, listing or
/// removing a directory fails with `ENOENT`, no error is recorded, nothing
/// is printed and the removal goes on.
pub proof fn lemma_force_forgives_missing(s: RemovalView)
    requires
        wf(s),
        s.opts.force,
        pending(s) is Inspect || pending(s) is RemoveFile || pending(s) is OpenParent || pending(s) is OpenDir
            || pending(s) is ReadDir || pending(s) is InspectEntry || pending(s) is RemoveDir,
    ensures
        ({
            let r = spec_next(s, EventView::Failed { cause: IoCause::Os { code: crate::errno::ENOENT } });
            &&& r.0.errors == s.errors
            &&& !(r.0.phase is Unwinding)
            &&& r.1.len() == 0
        }),
{
}

/// Without `force`, a failure to inspect a path, to remove a file or to open
/// the directory holding a tree is recorded at once, as an error about that
/// path, and the removal goes on with the next path.
pub proof fn lemma_failure_is_recorded(s: RemovalView, cause: IoCause)
    requires
        wf(s),
        !s.opts.force,
        pending(s) is Inspect || pending(s) is RemoveFile || pending(s) is OpenParent,
    ensures
        ({
            let t = spec_next(s, EventView::Failed { cause }).0;
            let path = match pending(s) {
                ActionView::Inspect { path } => path,
                ActionView::RemoveFile { path } => path,
                ActionView::OpenParent { path } => path,
                _ => seq![],
            };
            &&& t.errors == s.errors.push(RumErrorView::Io { path, source: cause })
            &&& t.next == s.next + 1
        }),
{
}

/// Errors are only ever added, one at a time, each when a path is done
/// with; after an error the removal goes on with the next path.
pub proof fn lemma_errors_grow_by_path(s: RemovalView, e: EventView)
    requires
        wf(s),
    ensures
        ({
            let t = spec_next(s, e).0;
            &&& t.next == s.next || t.next == s.next + 1
            &&& t.errors == s.errors || (t.errors.len() == s.errors.len() + 1 && t.errors.drop_last() == s.errors
                && t.next == s.next + 1)
            &&& t.errors.len() <= t.next <= t.operands.len()
            &&& t.operands == s.operands
            &&& t.next == s.next + 1 ==> (pending(t) == (if t.next < t.operands.len() {
                ActionView::Inspect { path: t.operands[t.next as int].path }
            } else {
                ActionView::Finish
            }))
        }),
{
    lemma_step_preserves_wf(s, e);
}

/// The order in which the removal of one directory goes.
pub open spec fn stage_rank(stage: Stage) -> nat {
    match stage {
        Stage::Opening => 0,
        Stage::Reading => 1,
        Stage::Classifying => 2,
        Stage::RemovingFiles => 3,
        Stage::RemovingSubdirs => 4,
        Stage::Closing => 5,
        Stage::Removing => 6,
        Stage::Abandoning => 7,
    }
}

/// The removal of a directory only moves forward: opened, listed, its
/// entries of unknown kind looked at, its files unlinked, its
/// subdirectories removed, closed, and only then removed itself; a
/// directory that vanished while being listed is only closed. Nothing it
/// looks at, unlinks or goes into is `.` or `..`.
pub proof fn lemma_walk_order(s: RemovalView, e: EventView)
    requires
        wf(s),
        s.phase is Walking,
    ensures
        ({
            let t = spec_next(s, e).0;
            let f = s.dir->0;
            t.phase is Walking ==> {
                let g = t.dir->0;
                &&& g.name == f.name && g.path == f.path
                &&& stage_rank(f.stage) <= stage_rank(g.stage)
                &&& g.stage == Stage::Removing ==> (f.stage == Stage::Closing || f.stage == Stage::Removing)
                &&& g.stage == Stage::Abandoning ==> (f.stage == Stage::Reading || f.stage == Stage::Abandoning)
            }
        }),
        pending(s) matches ActionView::UnlinkFiles { names, .. } ==> no_dots(names),
        pending(s) matches ActionView::RemoveSubdirs { names, .. } ==> no_dots(names),
        pending(s) matches ActionView::InspectEntry { name } ==> !spec_is_dot_or_dotdot(name),
        pending(s) is RemoveDir ==> !holds_fd(s.dir->0.stage),
{
    let f = s.dir->0;
    assert(frame_wf(f));
    if f.stage == Stage::Classifying {
        assert(!spec_is_dot_or_dotdot(f.unknown[0]));
    }
}

/// The change an operation that went as `e` makes to the number of open
/// directories: one more after opening one, one fewer after closing one.
pub open spec fn fd_delta(a: ActionView, e: EventView) -> int {
    if e is Done && (a is OpenParent || a is OpenDir) {
        1
    } else if e is Done && a is CloseDir {
        -1
    } else {
        0
    }
}

/// The machine's count of open directories follows exactly what the driver
/// did: it grows by one with each directory opened, drops by one with each
/// closed, and is otherwise unchanged. Reading, unlinking in, removing
/// subdirectories of and closing a directory are asked for only while one
/// is open, and none is open between paths or once the removal is finished.
pub proof fn lemma_open_directories_balance(s: RemovalView, e: EventView)
    requires
        wf(s),
    ensures
        open_count(spec_next(s, e).0) == open_count(s) + fd_delta(pending(s), e),
        (pending(s) is ReadDir || pending(s) is UnlinkFiles || pending(s) is RemoveSubdirs || pending(s) is CloseDir)
            ==> open_count(s) > 0,
        (pending(s) is Inspect || pending(s) is RemoveFile || pending(s) is OpenParent || pending(s) is Finish)
            ==> open_count(s) == 0,
{
}

/// Lines are printed only in verbose mode, and only when something was
/// removed: a file or directory named by a path, or files of a batch. After
/// a removed file or directory, the one line names it.
pub proof fn lemma_reports_removals(s: RemovalView, e: EventView)
    requires
        wf(s),
    ensures
        ({
            let lines = spec_next(s, e).1;
            &&& lines.len() > 0 ==> s.opts.verbose && ((e is Done && (pending(s) is RemoveFile
                || pending(s) is RemoveDir)) || (e is FilesRemoved && pending(s) is UnlinkFiles))
            &&& (s.opts.verbose && e is Done && pending(s) is RemoveFile) ==> lines == seq![
                crate::outcome::spec_removed_line(s.operands[s.next as int].path),
            ]
            &&& (s.opts.verbose && e is Done && pending(s) is RemoveDir) ==> lines == seq![
                crate::outcome::spec_removed_dir_line(s.dir->0.path),
            ]
        }),
{
    if s.phase is Walking && s.dir->0.stage == Stage::RemovingFiles {
        if let EventView::FilesRemoved { results } = e {
            let f = s.dir->0;
            if results.len() == f.files.len() && !s.opts.verbose {
                lemma_quiet_batch(f.path, s.opts, f.files, results);
            }
        }
    }
}

/// Outside verbose mode a batch prints nothing.
proof fn lemma_quiet_batch(dir: Seq<u8>, opts: Options, names: Seq<Seq<u8>>, results: Seq<Result<(), IoCause>>)
    requires
        !opts.verbose,
    ensures
        batch_lines(dir, opts, names, results).len() == 0,
    decreases names.len(),
{
    if names.len() > 0 && results.len() > 0 {
        lemma_quiet_batch(dir, opts, names.drop_last(), results.drop_last());
    }
}

/// In verbose mode, a batch of files that were all unlinked prints one line
/// for each, in order, naming the file's path.
pub proof fn lemma_batch_reports_each_file(
    dir: Seq<u8>,
    opts: Options,
    names: Seq<Seq<u8>>,
    results: Seq<Result<(), IoCause>>,
)
    requires
        opts.verbose,
        results.len() == names.len(),
        forall|i: int| 0 <= i < results.len() ==> #[trigger] results[i] is Ok,
    ensures
        batch_lines(dir, opts, names, results).len() == names.len(),
        forall|i: int|
            0 <= i < names.len() ==> #[trigger] batch_lines(dir, opts, names, results)[i]
                == crate::outcome::spec_removed_line(spec_join(dir, names[i])),
        batch_error(dir, opts, names, results) is None,
    decreases names.len(),
{
    if names.len() > 0 {
        let n0 = names.drop_last();
        let r0 = results.drop_last();
        assert forall|i: int| 0 <= i < r0.len() implies #[trigger] r0[i] is Ok by {
            assert(r0[i] == results[i]);
        }
        lemma_batch_reports_each_file(dir, opts, n0, r0);
        assert(results.last() is Ok);
        let b = batch_lines(dir, opts, names, results);
        assert forall|i: int| 0 <= i < names.len() implies #[trigger] b[i]
            == crate::outcome::spec_removed_line(spec_join(dir, names[i])) by {
            if i < n0.len() {
                assert(b[i] == batch_lines(dir, opts, n0, r0)[i]);
                assert(names[i] == n0[i]);
            }
        }
    }
}

/// An error that a batch of files gives is about one of those files, named
/// by the directory's path joined with its name, and comes from that file's
/// own failure, one that `force` does not forgive.
pub proof fn lemma_batch_error_names_a_file(
    dir: Seq<u8>,
    opts: Options,
    names: Seq<Seq<u8>>,
    results: Seq<Result<(), IoCause>>,
)
    requires
        results.len() == names.len(),
        batch_error(dir, opts, names, results) is Some,
    ensures
        exists|i: int|
            0 <= i < names.len() && #[trigger] results[i] is Err && !(opts.force && spec_not_found(
                results[i]->Err_0,
            )) && batch_error(dir, opts, names, results) == Some(
                RumErrorView::Io { path: spec_join(dir, names[i]), source: results[i]->Err_0 },
            ),
    decreases names.len(),
{
    let n0 = names.drop_last();
    let r0 = results.drop_last();
    if batch_error(dir, opts, n0, r0) is Some {
        lemma_batch_error_names_a_file(dir, opts, n0, r0);
        let i = choose|i: int|
            0 <= i < n0.len() && #[trigger] r0[i] is Err && !(opts.force && spec_not_found(r0[i]->Err_0))
                && batch_error(dir, opts, n0, r0) == Some(
                RumErrorView::Io { path: spec_join(dir, n0[i]), source: r0[i]->Err_0 },
            );
        assert(results[i] == r0[i] && names[i] == n0[i]);
    } else {
        let i = names.len() - 1;
        assert(names.last() == names[i]);
        assert(results.last() == results[i]);
    }
}

/// An error that a batch of subdirectories gives is the first error of the
/// first of their removals that met one, in order; that removal is the one
/// of the subdirectory's own path, the directory's path joined with its
/// name. The batch gives none exactly when none of them met one.
pub proof fn lemma_subdirectory_error_is_a_childs(
    removals: Seq<RemovalView>,
    opts: Options,
    dir: Seq<u8>,
    names: Seq<Seq<u8>>,
)
    requires
        answers_subdirectories(removals, opts, dir, names),
    ensures
        first_error(removals) is None <==> forall|j: int| 0 <= j < removals.len() ==> (#[trigger] removals[j]).errors.len() == 0,
        first_error(removals) is Some ==> exists|i: int|
            0 <= i < names.len() && (#[trigger] removals[i]).errors.len() > 0 && first_error(removals) == Some(
                removals[i].errors[0],
            ) && removals[i].operands[0].path == spec_join(dir, names[i]) && (forall|j: int|
                0 <= j < i ==> (#[trigger] removals[j]).errors.len() == 0),
    decreases removals.len(),
{
    if removals.len() > 0 {
        let r0 = removals.drop_last();
        let n0 = names.drop_last();
        assert forall|j: int| 0 <= j < n0.len() implies crate::machine::answers_subdirectory(#[trigger] r0[j], opts, dir, n0[j]) by {
            assert(r0[j] == removals[j] && n0[j] == names[j]);
        }
        lemma_subdirectory_error_is_a_childs(r0, opts, dir, n0);
        let last = removals.len() - 1;
        assert(removals.last() == removals[last]);
        assert(crate::machine::answers_subdirectory(removals[last], opts, dir, names[last]));
        if first_error(r0) is Some {
            let i = choose|i: int|
                0 <= i < n0.len() && (#[trigger] r0[i]).errors.len() > 0 && first_error(r0) == Some(r0[i].errors[0])
                    && r0[i].operands[0].path == spec_join(dir, n0[i]) && (forall|j: int|
                    0 <= j < i ==> (#[trigger] r0[j]).errors.len() == 0);
            assert(removals[i] == r0[i] && names[i] == n0[i]);
            assert forall|j: int| 0 <= j < i implies (#[trigger] removals[j]).errors.len() == 0 by {
                assert(removals[j] == r0[j]);
            }
            assert(r0[i].errors.len() > 0);
        } else {
            assert forall|j: int| 0 <= j < last implies (#[trigger] removals[j]).errors.len() == 0 by {
                assert(removals[j] == r0[j]);
            }
        }
    }
}

/// The error a step raises, if any: the one it starts closing up with, or
/// the one it records.
pub open spec fn raised_error(s: RemovalView, t: RemovalView) -> Option<RumErrorView> {
    if t.phase is Unwinding && !(s.phase is Unwinding) {
        Some(t.phase->error)
    } else if t.errors.len() > s.errors.len() {
        Some(t.errors.last())
    } else {
        None
    }
}

/// Whether `err` is an error about `path` that `force` does not forgive.
pub open spec fn unforgiven_about(err: RumErrorView, path: Seq<u8>, opts: Options) -> bool {
    &&& err is Io
    &&& err.path() == path
    &&& !(opts.force && spec_not_found(err->source))
}

/// Every error met while removing a directory is about that directory or
/// about one of its entries, named by the directory's path joined with the
/// entry's name, and is one that `force` does not forgive; or it is the first
/// error of the removal of one of its subdirectories, whose path is the
/// directory's path joined with the subdirectory's name.
pub proof fn lemma_walk_error_names_an_entry(s: RemovalView, e: EventView)
    requires
        wf(s),
        s.phase is Walking,
    ensures
        ({
            let f = s.dir->0;
            let t = spec_next(s, e).0;
            raised_error(s, t) matches Some(err) ==> match f.stage {
                Stage::Classifying => unforgiven_about(err, spec_join(f.path, f.unknown[0]), s.opts),
                Stage::RemovingFiles => exists|i: int|
                    0 <= i < f.files.len() && unforgiven_about(err, spec_join(f.path, #[trigger] f.files[i]), s.opts),
                Stage::RemovingSubdirs => e matches EventView::SubdirsRemoved { removals } && exists|i: int|
                    0 <= i < f.subdirs.len() && (#[trigger] removals[i]).errors.len() > 0 && err == removals[i].errors[0]
                        && removals[i].operands[0].path == spec_join(f.path, f.subdirs[i]),
                _ => unforgiven_about(err, f.path, s.opts),
            }
        }),
{
    let f = s.dir->0;
    let t = spec_next(s, e).0;
    match e {
        EventView::FilesRemoved { results } => {
            if f.stage == Stage::RemovingFiles && results.len() == f.files.len() && batch_error(
                f.path,
                s.opts,
                f.files,
                results,
            ) is Some {
                lemma_batch_error_names_a_file(f.path, s.opts, f.files, results);
            }
        },
        EventView::SubdirsRemoved { removals } => {
            if f.stage == Stage::RemovingSubdirs && answers_subdirectories(removals, s.opts, f.path, f.subdirs) {
                lemma_subdirectory_error_is_a_childs(removals, s.opts, f.path, f.subdirs);
            }
        },
        _ => {},
    }
}

/// Whether `sigma` and `tau` are inverse reorderings of the positions
/// `0..n`.
pub open spec fn reorders(n: int, sigma: spec_fn(int) -> int, tau: spec_fn(int) -> int) -> bool {
    &&& forall|i: int| 0 <= i < n ==> 0 <= #[trigger] sigma(i) < n && tau(sigma(i)) == i
    &&& forall|j: int| 0 <= j < n ==> 0 <= #[trigger] tau(j) < n && sigma(tau(j)) == j
}

/// A batch of subdirectories ends without error exactly when each of their
/// removals met none.
proof fn lemma_subdirectories_ok_iff(removals: Seq<RemovalView>, opts: Options, dir: Seq<u8>, names: Seq<Seq<u8>>)
    requires
        answers_subdirectories(removals, opts, dir, names),
    ensures
        first_error(removals) is None <==> forall|j: int|
            0 <= j < removals.len() ==> (#[trigger] removals[j]).errors.len() == 0,
{
    lemma_subdirectory_error_is_a_childs(removals, opts, dir, names);
}

/// The order in which the subdirectories of a directory are taken, and so
/// the order in which their removals come back, does not change what
/// happens to the directory: the answer taken in another order is accepted
/// as well, nothing is printed either way, and the directory goes on to be
/// closed and removed in both cases or in neither. Where a subdirectory
/// failed, both close up with the first error of a failed subdirectory in
/// their own order; the state is otherwise the same.
pub proof fn lemma_subdirectory_order_does_not_matter(
    s1: RemovalView,
    s2: RemovalView,
    rs1: Seq<RemovalView>,
    rs2: Seq<RemovalView>,
    sigma: spec_fn(int) -> int,
    tau: spec_fn(int) -> int,
)
    requires
        wf(s1),
        s1.phase is Walking,
        s1.dir->0.stage == Stage::RemovingSubdirs,
        s2 == (RemovalView { dir: Some(FrameView { subdirs: s2.dir->0.subdirs, ..s1.dir->0 }), ..s1 }),
        s2.dir->0.subdirs.len() == s1.dir->0.subdirs.len(),
        reorders(s1.dir->0.subdirs.len() as int, sigma, tau),
        forall|i: int| 0 <= i < s1.dir->0.subdirs.len() ==> s2.dir->0.subdirs[i] == s1.dir->0.subdirs[#[trigger] sigma(i)],
        rs2.len() == rs1.len(),
        forall|i: int| 0 <= i < rs1.len() ==> rs2[i] == rs1[#[trigger] sigma(i)],
        answers_subdirectories(rs1, s1.opts, s1.dir->0.path, s1.dir->0.subdirs),
    ensures
        answers_subdirectories(rs2, s2.opts, s2.dir->0.path, s2.dir->0.subdirs),
        ({
            let (t1, l1) = spec_next(s1, EventView::SubdirsRemoved { removals: rs1 });
            let (t2, l2) = spec_next(s2, EventView::SubdirsRemoved { removals: rs2 });
            &&& l1.len() == 0 && l2.len() == 0
            &&& (t1.phase is Walking <==> t2.phase is Walking)
            &&& (t1.phase is Walking ==> t1.dir->0.stage == Stage::Closing && t2.dir->0.stage == Stage::Closing)
            &&& (t1.phase is Unwinding <==> t2.phase is Unwinding)
            &&& t2 == (RemovalView {
                phase: t2.phase,
                dir: Some(FrameView { subdirs: s2.dir->0.subdirs, ..t1.dir->0 }),
                ..t1
            })
        }),
{
    let f1 = s1.dir->0;
    let f2 = s2.dir->0;
    let n = f1.subdirs.len() as int;
    assert forall|i: int| 0 <= i < n implies crate::machine::answers_subdirectory(
        #[trigger] rs2[i],
        s2.opts,
        f2.path,
        f2.subdirs[i],
    ) by {
        let k = sigma(i);
        assert(crate::machine::answers_subdirectory(rs1[k], s1.opts, f1.path, f1.subdirs[k]));
    }
    lemma_subdirectories_ok_iff(rs1, s1.opts, f1.path, f1.subdirs);
    lemma_subdirectories_ok_iff(rs2, s2.opts, f2.path, f2.subdirs);
    if forall|j: int| 0 <= j < rs1.len() ==> (#[trigger] rs1[j]).errors.len() == 0 {
        assert forall|j: int| 0 <= j < rs2.len() implies (#[trigger] rs2[j]).errors.len() == 0 by {
            assert(rs2[j] == rs1[sigma(j)]);
        }
    }
    if forall|j: int| 0 <= j < rs2.len() ==> (#[trigger] rs2[j]).errors.len() == 0 {
        assert forall|j: int| 0 <= j < rs1.len() implies (#[trigger] rs1[j]).errors.len() == 0 by {
            assert(rs2[tau(j)] == rs1[sigma(tau(j))]);
        }
    }
}

/// A batch of files ends without error exactly when each file was unlinked
/// or, under `force`, was already gone.
proof fn lemma_file_batch_ok_iff(dir: Seq<u8>, opts: Options, names: Seq<Seq<u8>>, results: Seq<Result<(), IoCause>>)
    requires
        results.len() == names.len(),
    ensures
        batch_error(dir, opts, names, results) is None <==> forall|i: int|
            0 <= i < results.len() ==> (#[trigger] results[i] is Ok || (opts.force && spec_not_found(
                results[i]->Err_0,
            ))),
    decreases names.len(),
{
    if names.len() > 0 {
        let n0 = names.drop_last();
        let r0 = results.drop_last();
        lemma_file_batch_ok_iff(dir, opts, n0, r0);
        let last = results.len() - 1;
        assert(results.last() == results[last]);
        assert forall|i: int| 0 <= i < r0.len() implies r0[i] == results[i] by {}
        if batch_error(dir, opts, names, results) is Some {
            lemma_batch_error_names_a_file(dir, opts, names, results);
        }
    }
}

/// The order in which the files of a directory are listed, and so the order
/// in which they are unlinked and their results come back, does not change
/// what happens to the directory: it goes on with its subdirectories in
/// both cases or in neither, and where every file was unlinked the lines
/// printed are the same, reordered alike. Where a file failed, both close up
/// with the error of a failed file; the state is otherwise the same.
pub proof fn lemma_file_order_does_not_matter(
    s1: RemovalView,
    s2: RemovalView,
    rs1: Seq<Result<(), IoCause>>,
    rs2: Seq<Result<(), IoCause>>,
    sigma: spec_fn(int) -> int,
    tau: spec_fn(int) -> int,
)
    requires
        wf(s1),
        s1.phase is Walking,
        s1.dir->0.stage == Stage::RemovingFiles,
        s2 == (RemovalView { dir: Some(FrameView { files: s2.dir->0.files, ..s1.dir->0 }), ..s1 }),
        s2.dir->0.files.len() == s1.dir->0.files.len(),
        reorders(s1.dir->0.files.len() as int, sigma, tau),
        forall|i: int| 0 <= i < s1.dir->0.files.len() ==> s2.dir->0.files[i] == s1.dir->0.files[#[trigger] sigma(i)],
        rs1.len() == s1.dir->0.files.len(),
        rs2.len() == rs1.len(),
        forall|i: int| 0 <= i < rs1.len() ==> rs2[i] == rs1[#[trigger] sigma(i)],
    ensures
        ({
            let (t1, l1) = spec_next(s1, EventView::FilesRemoved { results: rs1 });
            let (t2, l2) = spec_next(s2, EventView::FilesRemoved { results: rs2 });
            &&& (t1.phase is Walking <==> t2.phase is Walking)
            &&& (t1.phase is Unwinding <==> t2.phase is Unwinding)
            &&& t2 == (RemovalView {
                phase: t2.phase,
                dir: Some(FrameView { files: s2.dir->0.files, ..t1.dir->0 }),
                ..t1
            })
            &&& (forall|i: int| 0 <= i < rs1.len() ==> #[trigger] rs1[i] is Ok) ==> {
                &&& l2.len() == l1.len()
                &&& forall|i: int| 0 <= i < l2.len() ==> l2[i] == l1[#[trigger] sigma(i)]
            }
        }),
{
    let f1 = s1.dir->0;
    let f2 = s2.dir->0;
    let opts = s1.opts;
    lemma_file_batch_ok_iff(f1.path, opts, f1.files, rs1);
    lemma_file_batch_ok_iff(f2.path, opts, f2.files, rs2);
    let good1 = forall|i: int|
        0 <= i < rs1.len() ==> (#[trigger] rs1[i] is Ok || (opts.force && spec_not_found(rs1[i]->Err_0)));
    let good2 = forall|i: int|
        0 <= i < rs2.len() ==> (#[trigger] rs2[i] is Ok || (opts.force && spec_not_found(rs2[i]->Err_0)));
    if good1 {
        assert forall|i: int| 0 <= i < rs2.len() implies (#[trigger] rs2[i] is Ok || (opts.force && spec_not_found(
            rs2[i]->Err_0,
        ))) by {
            assert(rs2[i] == rs1[sigma(i)]);
        }
    }
    if good2 {
        assert forall|j: int| 0 <= j < rs1.len() implies (#[trigger] rs1[j] is Ok || (opts.force && spec_not_found(
            rs1[j]->Err_0,
        ))) by {
            assert(rs2[tau(j)] == rs1[sigma(tau(j))]);
        }
    }
    if forall|i: int| 0 <= i < rs1.len() ==> #[trigger] rs1[i] is Ok {
        assert forall|i: int| 0 <= i < rs2.len() implies #[trigger] rs2[i] is Ok by {
            assert(rs2[i] == rs1[sigma(i)]);
        }
        if opts.verbose {
            lemma_batch_reports_each_file(f1.path, opts, f1.files, rs1);
            lemma_batch_reports_each_file(f2.path, opts, f2.files, rs2);
        } else {
            lemma_quiet_batch(f1.path, opts, f1.files, rs1);
            lemma_quiet_batch(f2.path, opts, f2.files, rs2);
        }
    }
}

/// No two of `entries` have the same name.
pub open spec fn distinct_names(entries: Seq<(Seq<u8>, EntryKind)>) -> bool {
    forall|i: int, j: int| 0 <= i < j < entries.len() ==> (#[trigger] entries[i]).0 != (#[trigger] entries[j]).0
}

/// Each name stands once in all of `files`, `subdirs` and `unknown`.
pub open spec fn named_once(files: Seq<Seq<u8>>, subdirs: Seq<Seq<u8>>, unknown: Seq<Seq<u8>>) -> bool {
    &&& files.no_duplicates()
    &&& subdirs.no_duplicates()
    &&& unknown.no_duplicates()
    &&& forall|x: Seq<u8>| !(#[trigger] files.contains(x) && subdirs.contains(x))
    &&& forall|x: Seq<u8>| !(#[trigger] files.contains(x) && unknown.contains(x))
    &&& forall|x: Seq<u8>| !(#[trigger] subdirs.contains(x) && unknown.contains(x))
}

/// A name is kept for `kind` exactly when an entry of that kind has it and
/// it is not `.` or `..`.
proof fn lemma_names_of_contains(entries: Seq<(Seq<u8>, EntryKind)>, kind: EntryKind, x: Seq<u8>)
    ensures
        names_of(entries, kind).contains(x) <==> exists|i: int|
            0 <= i < entries.len() && (#[trigger] entries[i]).0 == x && entries[i].1 == kind
                && !spec_is_dot_or_dotdot(x),
    decreases entries.len(),
{
    if entries.len() > 0 {
        let rest = entries.drop_last();
        lemma_names_of_contains(rest, kind, x);
        let ns = names_of(entries, kind);
        let nr = names_of(rest, kind);
        let last = entries.len() - 1;
        assert(entries.last() == entries[last]);
        if nr.contains(x) {
            let k = choose|k: int| 0 <= k < nr.len() && nr[k] == x;
            assert(ns[k] == nr[k]);
            let i = choose|i: int|
                0 <= i < rest.len() && (#[trigger] rest[i]).0 == x && rest[i].1 == kind && !spec_is_dot_or_dotdot(x);
            assert(entries[i] == rest[i]);
        }
        if ns.contains(x) {
            let k = choose|k: int| 0 <= k < ns.len() && ns[k] == x;
            if k < nr.len() {
                assert(ns[k] == nr[k]);
                assert(nr.contains(x));
            }
        }
        if exists|i: int|
            0 <= i < entries.len() && (#[trigger] entries[i]).0 == x && entries[i].1 == kind
                && !spec_is_dot_or_dotdot(x) {
            let i = choose|i: int|
                0 <= i < entries.len() && (#[trigger] entries[i]).0 == x && entries[i].1 == kind
                    && !spec_is_dot_or_dotdot(x);
            if i < last {
                assert(rest[i] == entries[i]);
                assert(nr.contains(x));
                let k = choose|k: int| 0 <= k < nr.len() && nr[k] == x;
                assert(ns[k] == nr[k]);
            } else {
                assert(ns[ns.len() - 1] == x);
            }
        }
    }
}

/// Names kept from entries with distinct names are distinct.
proof fn lemma_names_of_distinct(entries: Seq<(Seq<u8>, EntryKind)>, kind: EntryKind)
    requires
        distinct_names(entries),
    ensures
        names_of(entries, kind).no_duplicates(),
    decreases entries.len(),
{
    if entries.len() > 0 {
        let rest = entries.drop_last();
        assert forall|i: int, j: int| 0 <= i < j < rest.len() implies (#[trigger] rest[i]).0 != (#[trigger] rest[j]).0 by {
            assert(rest[i] == entries[i] && rest[j] == entries[j]);
        }
        lemma_names_of_distinct(rest, kind);
        let e = entries.last();
        let last = entries.len() - 1;
        assert(e == entries[last]);
        lemma_names_of_contains(rest, kind, e.0);
        if names_of(rest, kind).contains(e.0) {
            let i = choose|i: int|
                0 <= i < rest.len() && (#[trigger] rest[i]).0 == e.0 && rest[i].1 == kind && !spec_is_dot_or_dotdot(e.0);
            assert(rest[i] == entries[i]);
        }
        let ns = names_of(entries, kind);
        let nr = names_of(rest, kind);
        if e.1 == kind && !spec_is_dot_or_dotdot(e.0) {
            assert forall|i: int, j: int| 0 <= i < ns.len() && 0 <= j < ns.len() && i != j implies ns[i] != ns[j] by {
                if i < nr.len() && j < nr.len() {
                    assert(ns[i] == nr[i] && ns[j] == nr[j]);
                } else if i < nr.len() {
                    assert(ns[i] == nr[i]);
                    assert(nr.contains(nr[i]));
                } else {
                    assert(ns[j] == nr[j]);
                    assert(nr.contains(nr[j]));
                }
            }
        }
    }
}

/// A listing whose entries have distinct names is split so that each entry
/// that is not `.` or `..` is named once, in the list of its kind, and in
/// no other: no file or subdirectory is handed out twice in a batch, nor in
/// two batches.
pub proof fn lemma_listing_names_each_entry_once(entries: Seq<(Seq<u8>, EntryKind)>)
    requires
        distinct_names(entries),
    ensures
        named_once(
            names_of(entries, EntryKind::NotDirectory),
            names_of(entries, EntryKind::Directory),
            names_of(entries, EntryKind::Unknown),
        ),
        forall|i: int|
            0 <= i < entries.len() && !spec_is_dot_or_dotdot(#[trigger] entries[i].0) ==> names_of(
                entries,
                entries[i].1,
            ).contains(entries[i].0),
{
    lemma_names_of_distinct(entries, EntryKind::NotDirectory);
    lemma_names_of_distinct(entries, EntryKind::Directory);
    lemma_names_of_distinct(entries, EntryKind::Unknown);
    let f = names_of(entries, EntryKind::NotDirectory);
    let d = names_of(entries, EntryKind::Directory);
    let u = names_of(entries, EntryKind::Unknown);
    assert forall|x: Seq<u8>| !(#[trigger] f.contains(x) && d.contains(x)) && !(f.contains(x) && u.contains(x)) && !(
    d.contains(x) && u.contains(x)) by {
        lemma_names_of_contains(entries, EntryKind::NotDirectory, x);
        lemma_names_of_contains(entries, EntryKind::Directory, x);
        lemma_names_of_contains(entries, EntryKind::Unknown, x);
    }
    assert forall|x: Seq<u8>| !(#[trigger] d.contains(x) && u.contains(x)) by {
        lemma_names_of_contains(entries, EntryKind::Directory, x);
        lemma_names_of_contains(entries, EntryKind::Unknown, x);
    }
    assert forall|i: int|
        0 <= i < entries.len() && !spec_is_dot_or_dotdot(#[trigger] entries[i].0) implies names_of(
            entries,
            entries[i].1,
        ).contains(entries[i].0) by {
        lemma_names_of_contains(entries, entries[i].1, entries[i].0);
    }
}

/// Once a listing with distinct names is taken in, every later step of the
/// directory's walk keeps each entry named once: finding out the kind of an
/// entry moves its name to the list of that kind, or drops it, and no other
/// step touches the lists.
pub proof fn lemma_walk_keeps_entries_named_once(s: RemovalView, e: EventView)
    requires
        wf(s),
        s.phase is Walking,
        s.dir->0.stage == Stage::Reading ==> (e matches EventView::Entries { entries } ==> distinct_names(entries)),
        s.dir->0.stage != Stage::Reading ==> named_once(s.dir->0.files, s.dir->0.subdirs, s.dir->0.unknown),
    ensures
        ({
            let t = spec_next(s, e).0;
            t.dir matches Some(g) ==> (s.dir->0.stage != Stage::Reading || e is Entries) ==> named_once(
                g.files,
                g.subdirs,
                g.unknown,
            )
        }),
{
    let f = s.dir->0;
    let t = spec_next(s, e).0;
    if f.stage == Stage::Reading {
        if let EventView::Entries { entries } = e {
            lemma_listing_names_each_entry_once(entries);
        }
    } else if f.stage == Stage::Classifying {
        let x = f.unknown[0];
        let u = f.unknown.drop_first();
        assert(f.unknown.contains(x));
        assert forall|y: Seq<u8>| u.contains(y) implies f.unknown.contains(y) && y != x by {
            let k = choose|k: int| 0 <= k < u.len() && u[k] == y;
            assert(f.unknown[k + 1] == y);
        }
        assert(u.no_duplicates()) by {
            assert forall|i: int, j: int| 0 <= i < u.len() && 0 <= j < u.len() && i != j implies u[i] != u[j] by {
                assert(u[i] == f.unknown[i + 1] && u[j] == f.unknown[j + 1]);
            }
        }
        assert forall|y: Seq<u8>| #[trigger] f.files.push(x).contains(y) implies f.files.contains(y) || y == x by {
            let k = choose|k: int| 0 <= k < f.files.push(x).len() && f.files.push(x)[k] == y;
            if k < f.files.len() {
                assert(f.files.push(x)[k] == f.files[k]);
            }
        }
        assert forall|y: Seq<u8>| #[trigger] f.subdirs.push(x).contains(y) implies f.subdirs.contains(y) || y == x by {
            let k = choose|k: int| 0 <= k < f.subdirs.push(x).len() && f.subdirs.push(x)[k] == y;
            if k < f.subdirs.len() {
                assert(f.subdirs.push(x)[k] == f.subdirs[k]);
            }
        }
        assert(!f.files.contains(x) && !f.subdirs.contains(x));
        assert(f.files.push(x).no_duplicates()) by {
            let p = f.files.push(x);
            assert forall|i: int, j: int| 0 <= i < p.len() && 0 <= j < p.len() && i != j implies p[i] != p[j] by {
                if i < f.files.len() {
                    assert(p[i] == f.files[i]);
                }
                if j < f.files.len() {
                    assert(p[j] == f.files[j]);
                }
            }
        }
        assert(f.subdirs.push(x).no_duplicates()) by {
            let p = f.subdirs.push(x);
            assert forall|i: int, j: int| 0 <= i < p.len() && 0 <= j < p.len() && i != j implies p[i] != p[j] by {
                if i < f.subdirs.len() {
                    assert(p[i] == f.subdirs[i]);
                }
                if j < f.subdirs.len() {
                    assert(p[j] == f.subdirs[j]);
                }
            }
        }
    }
}

/// How far a removal has still to go within its current path: each phase
/// and each stage of the directory's removal at a lower level than the
/// ones before it.
pub open spec fn level(s: RemovalView) -> nat {
    match s.phase {
        PhaseView::Inspecting => 12,
        PhaseView::RemovingFile => 11,
        PhaseView::OpeningParent { .. } => 10,
        PhaseView::Walking => match s.dir->0.stage {
            Stage::Opening => 9,
            Stage::Reading => 8,
            Stage::Classifying => 7,
            Stage::RemovingFiles => 6,
            Stage::RemovingSubdirs => 5,
            Stage::Closing => 4,
            Stage::Abandoning => 4,
            Stage::Removing => 3,
        },
        PhaseView::ClosingParent => 2,
        PhaseView::Unwinding { .. } => (if s.dir is Some { 1nat } else { 0nat }) + (if s.parent_open {
            1nat
        } else {
            0nat
        }),
        PhaseView::Finished => 0,
    }
}

/// The work left: paths not yet done, the level within the current one,
/// and the entries whose kind is still to be found out.
pub open spec fn work_left(s: RemovalView) -> (int, nat, nat) {
    (
        s.operands.len() - s.next,
        level(s),
        if s.phase is Walking && s.dir->0.stage == Stage::Classifying {
            s.dir->0.unknown.len()
        } else {
            0
        },
    )
}

/// `a` is less work than `b`, in lexicographic order.
pub open spec fn less_work(a: (int, nat, nat), b: (int, nat, nat)) -> bool {
    a.0 < b.0 || (a.0 == b.0 && (a.1 < b.1 || (a.1 == b.1 && a.2 < b.2)))
}

/// Every step that changes the removal leaves strictly less work, whatever
/// the driver reports, failures included; the work left is never negative.
/// So a removal ends after finitely many answered operations, however the
/// file system behaves.
pub proof fn lemma_work_decreases(s: RemovalView, e: EventView)
    requires
        wf(s),
    ensures
        work_left(s).0 >= 0,
        ({
            let t = spec_next(s, e).0;
            t == s || less_work(work_left(t), work_left(s))
        }),
{
}

/// Whether `a` and `b` stand at the same point of removing the same path
/// with the same options, whatever the other paths and the errors so far.
pub open spec fn same_path_state(a: RemovalView, b: RemovalView) -> bool {
    &&& a.opts == b.opts
    &&& a.phase == b.phase
    &&& a.dir == b.dir
    &&& a.parent_open == b.parent_open
    &&& a.next < a.operands.len()
    &&& b.next < b.operands.len()
    &&& a.operands[a.next as int] == b.operands[b.next as int]
}

/// What happens to the path being removed depends on that path and the
/// options alone: two removals at the same point of the same path, given
/// the same event, print the same lines, add the same errors, ask for the
/// same operation, and either both move on to their next path or both stay
/// at the same point of this one. So a run over many paths is the runs over
/// each path, one after another.
#[verifier::rlimit(50)]
pub proof fn lemma_paths_are_independent(a: RemovalView, b: RemovalView, e: EventView)
    requires
        wf(a),
        wf(b),
        same_path_state(a, b),
    ensures
        pending(a) == pending(b),
        ({
            let (ta, la) = spec_next(a, e);
            let (tb, lb) = spec_next(b, e);
            &&& la == lb
            &&& ta.errors == a.errors + ta.errors.skip(a.errors.len() as int)
            &&& tb.errors == b.errors + tb.errors.skip(b.errors.len() as int)
            &&& ta.errors.skip(a.errors.len() as int) == tb.errors.skip(b.errors.len() as int)
            &&& (ta.next == a.next + 1 <==> tb.next == b.next + 1)
            &&& ta.next == a.next ==> same_path_state(ta, tb)
        }),
{
    let (ta, la) = spec_next(a, e);
    let (tb, lb) = spec_next(b, e);
    assert(a.errors.skip(a.errors.len() as int) =~= Seq::<RumErrorView>::empty());
    assert(b.errors.skip(b.errors.len() as int) =~= Seq::<RumErrorView>::empty());
    if ta.errors.len() > a.errors.len() {
        assert(ta.errors == a.errors.push(ta.errors.last()));
        assert(ta.errors.skip(a.errors.len() as int) =~= seq![ta.errors.last()]);
    }
    if tb.errors.len() > b.errors.len() {
        assert(tb.errors == b.errors.push(tb.errors.last()));
        assert(tb.errors.skip(b.errors.len() as int) =~= seq![tb.errors.last()]);
    }
    assert(ta.errors =~= a.errors + ta.errors.skip(a.errors.len() as int));
    assert(tb.errors =~= b.errors + tb.errors.skip(b.errors.len() as int));
}

/// The state reached from `s` by the events `es`, one after another, and the
/// lines printed on the way.
pub open spec fn replay(s: RemovalView, es: Seq<EventView>) -> (RemovalView, Seq<Seq<u8>>)
    decreases es.len(),
{
    if es.len() == 0 {
        (s, seq![])
    } else {
        let (t, l) = spec_next(s, es[0]);
        let (u, m) = replay(t, es.drop_first());
        (u, l + m)
    }
}

/// Replaying `x` and then `y` is replaying `x + y`.
proof fn lemma_replay_append(s: RemovalView, x: Seq<EventView>, y: Seq<EventView>)
    ensures
        replay(s, x + y) == ({
            let (t, l) = replay(s, x);
            let (u, m) = replay(t, y);
            (u, l + m)
        }),
    decreases x.len(),
{
    if x.len() > 0 {
        assert((x + y).drop_first() =~= x.drop_first() + y);
        assert((x + y)[0] == x[0]);
        lemma_replay_append(spec_next(s, x[0]).0, x.drop_first(), y);
        let l0 = spec_next(s, x[0]).1;
        let l1 = replay(spec_next(s, x[0]).0, x.drop_first()).1;
        let l2 = replay(replay(s, x).0, y).1;
        assert(l0 + (l1 + l2) =~= (l0 + l1) + l2);
    } else {
        assert(x + y =~= y);
        assert(seq![] + replay(s, y).1 =~= replay(s, y).1);
    }
}

/// Whether the events `es` take the removal of the one path `op` alone,
/// from its start, to its end, and not before the last of them.
pub open spec fn removes_path(opts: Options, op: OperandView, es: Seq<EventView>) -> bool {
    let b = initial(opts, seq![op]);
    &&& replay(b, es).0.next == 1
    &&& forall|k: int| 0 <= k < es.len() ==> (#[trigger] replay(b, es.take(k))).0.next == 0
}

/// The errors the removal of the one path `op` alone records under `es`.
pub open spec fn path_errors(opts: Options, op: OperandView, es: Seq<EventView>) -> Seq<RumErrorView> {
    replay(initial(opts, seq![op]), es).0.errors
}

/// The lines the removal of the one path `op` alone prints under `es`.
pub open spec fn path_lines(opts: Options, op: OperandView, es: Seq<EventView>) -> Seq<Seq<u8>> {
    replay(initial(opts, seq![op]), es).1
}

/// The errors of the paths `ops`, each removed alone under its own events,
/// one after another.
pub open spec fn each_path_errors(opts: Options, ops: Seq<OperandView>, segs: Seq<Seq<EventView>>) -> Seq<
    RumErrorView,
>
    decreases segs.len(),
{
    if segs.len() == 0 || ops.len() == 0 {
        seq![]
    } else {
        path_errors(opts, ops[0], segs[0]) + each_path_errors(opts, ops.drop_first(), segs.drop_first())
    }
}

/// The lines of the paths `ops`, each removed alone under its own events,
/// one after another.
pub open spec fn each_path_lines(opts: Options, ops: Seq<OperandView>, segs: Seq<Seq<EventView>>) -> Seq<
    Seq<u8>,
>
    decreases segs.len(),
{
    if segs.len() == 0 || ops.len() == 0 {
        seq![]
    } else {
        path_lines(opts, ops[0], segs[0]) + each_path_lines(opts, ops.drop_first(), segs.drop_first())
    }
}

/// Whether `s` stands at the start of its path `s.next`, or at the end.
pub open spec fn at_path_start(s: RemovalView) -> bool {
    pending(s) == (if s.next < s.operands.len() {
        ActionView::Inspect { path: s.operands[s.next as int].path }
    } else {
        ActionView::Finish
    })
}

/// A removal at some point of a path, given the events that take the same
/// path alone from that point to its end, moves on to its next path, with
/// the same lines and the same errors added.
proof fn lemma_path_segment(a: RemovalView, b: RemovalView, es: Seq<EventView>)
    requires
        wf(a),
        wf(b),
        same_path_state(a, b),
        es.len() > 0,
        replay(b, es).0.next == b.next + 1,
        forall|k: int| 0 <= k < es.len() ==> (#[trigger] replay(b, es.take(k))).0.next == b.next,
    ensures
        ({
            let (ta, la) = replay(a, es);
            let (tb, lb) = replay(b, es);
            &&& wf(ta)
            &&& ta.next == a.next + 1
            &&& ta.operands == a.operands
            &&& ta.opts == a.opts
            &&& at_path_start(ta)
            &&& la == lb
            &&& ta.errors == a.errors + tb.errors.skip(b.errors.len() as int)
        }),
    decreases es.len(),
{
    let e0 = es[0];
    let rest = es.drop_first();
    let (ta, la) = spec_next(a, e0);
    let (tb, lb) = spec_next(b, e0);
    lemma_paths_are_independent(a, b, e0);
    lemma_step_preserves_wf(a, e0);
    lemma_step_preserves_wf(b, e0);
    lemma_errors_grow_by_path(a, e0);
    lemma_errors_grow_by_path(b, e0);
    assert(es.take(1).drop_first() =~= Seq::<EventView>::empty());
    assert(es.take(1)[0] == e0);
    if rest.len() == 0 {
        assert(replay(tb, rest) == (tb, Seq::<Seq<u8>>::empty()));
        assert(replay(ta, rest) == (ta, Seq::<Seq<u8>>::empty()));
        assert(replay(b, es).0 == tb);
        assert(replay(a, es) == (ta, la + Seq::<Seq<u8>>::empty()));
        assert(la + Seq::<Seq<u8>>::empty() =~= la);
        assert(lb + Seq::<Seq<u8>>::empty() =~= lb);
    } else {
        assert(es.take(1).len() == 1);
        assert(replay(tb, es.take(1).drop_first()) == (tb, Seq::<Seq<u8>>::empty()));
        assert(replay(b, es.take(1)).0 == tb);
        assert(tb.next == b.next);
        assert forall|k: int| 0 <= k < rest.len() implies (#[trigger] replay(tb, rest.take(k))).0.next == tb.next by {
            assert(es.take(k + 1).drop_first() =~= rest.take(k));
            assert(es.take(k + 1)[0] == e0);
            assert(replay(b, es.take(k + 1)).0 == replay(tb, rest.take(k)).0);
        }
        lemma_path_segment(ta, tb, rest);
        assert(tb.errors == b.errors);
        assert(ta.errors == a.errors);
    }
}

/// Removing several paths is removing each alone, one after another: given
/// for each path the events that take its removal alone from start to end,
/// the removal of them all, under those events in turn, ends, records the
/// errors of each path in the order of the paths, and prints the lines of
/// each in that order. A failure on one path never stops the paths after it.
pub proof fn lemma_run_is_each_path_in_turn(opts: Options, ops: Seq<OperandView>, segs: Seq<Seq<EventView>>)
    requires
        segs.len() == ops.len(),
        forall|i: int| 0 <= i < ops.len() ==> removes_path(opts, #[trigger] ops[i], segs[i]),
    ensures
        ({
            let (t, lines) = replay(initial(opts, ops), segs.flatten());
            &&& t.phase is Finished
            &&& t.errors == each_path_errors(opts, ops, segs)
            &&& lines == each_path_lines(opts, ops, segs)
        }),
{
    lemma_initial_wf(opts, ops);
    lemma_paths_in_turn(initial(opts, ops), segs);
    assert(ops.skip(0) =~= ops);
    assert(Seq::<RumErrorView>::empty() + each_path_errors(opts, ops, segs) =~= each_path_errors(opts, ops, segs));
}

/// A removal that has done nothing yet is well formed, and stands at the
/// start of its first path.
proof fn lemma_initial_wf(opts: Options, ops: Seq<OperandView>)
    ensures
        wf(initial(opts, ops)),
        at_path_start(initial(opts, ops)),
{
}

/// The paths from `a.next` on, each under its own events.
proof fn lemma_paths_in_turn(a: RemovalView, segs: Seq<Seq<EventView>>)
    requires
        wf(a),
        at_path_start(a),
        segs.len() == a.operands.len() - a.next,
        forall|i: int| 0 <= i < segs.len() ==> removes_path(a.opts, #[trigger] a.operands[a.next + i], segs[i]),
    ensures
        ({
            let (t, lines) = replay(a, segs.flatten());
            &&& t.phase is Finished
            &&& t.errors == a.errors + each_path_errors(a.opts, a.operands.skip(a.next as int), segs)
            &&& lines == each_path_lines(a.opts, a.operands.skip(a.next as int), segs)
        }),
    decreases segs.len(),
{
    let ops = a.operands.skip(a.next as int);
    if segs.len() == 0 {
        assert(segs.flatten() =~= Seq::<EventView>::empty());
        assert(a.errors + Seq::<RumErrorView>::empty() =~= a.errors);
    } else {
        let seg = segs[0];
        let op = a.operands[a.next as int];
        assert(removes_path(a.opts, a.operands[a.next + 0int], segs[0]));
        let b = initial(a.opts, seq![op]);
        lemma_initial_wf(a.opts, seq![op]);
        assert(seg.len() > 0) by {
            if seg.len() == 0 {
                assert(replay(b, seg).0 == b);
            }
        }
        assert(segs.flatten() == seg + segs.drop_first().flatten());
        lemma_replay_append(a, seg, segs.drop_first().flatten());
        lemma_path_segment(a, b, seg);
        let ta = replay(a, seg).0;
        assert(ta.operands.skip(ta.next as int) =~= ops.drop_first());
        assert forall|i: int| 0 <= i < segs.drop_first().len() implies removes_path(
            ta.opts,
            #[trigger] ta.operands[ta.next + i],
            segs.drop_first()[i],
        ) by {
            assert(ta.operands[ta.next + i] == a.operands[a.next + (i + 1)]);
            assert(removes_path(a.opts, a.operands[a.next + (i + 1)], segs[i + 1]));
        }
        lemma_paths_in_turn(ta, segs.drop_first());
        assert(ops[0] == op);
        assert(b.errors.skip(0) =~= b.errors);
        let rest_errors = each_path_errors(a.opts, ops.drop_first(), segs.drop_first());
        assert(a.errors + (path_errors(a.opts, op, seg) + rest_errors) =~= (a.errors + path_errors(a.opts, op, seg))
            + rest_errors);
    }
}

/// Replaying any events keeps the invariant of a removal and its options.
proof fn lemma_replay_wf(s: RemovalView, es: Seq<EventView>)
    requires
        wf(s),
    ensures
        wf(replay(s, es).0),
        replay(s, es).0.opts == s.opts,
        replay(s, es).0.operands == s.operands,
    decreases es.len(),
{
    if es.len() > 0 {
        lemma_step_preserves_wf(s, es[0]);
        lemma_replay_wf(spec_next(s, es[0]).0, es.drop_first());
    }
}

/// Whatever the file system answers, a whole run records no error about a
/// path that does not exist when `force` is on, and no "is a directory"
/// error when `recursive` is on: this holds of the errors that the removals
/// of subdirectories pass up, too.
pub proof fn lemma_run_records_only_owed_errors(opts: Options, ops: Seq<OperandView>, es: Seq<EventView>)
    ensures
        ({
            let t = replay(initial(opts, ops), es).0;
            forall|i: int|
                0 <= i < t.errors.len() ==> {
                    &&& !(opts.force && #[trigger] t.errors[i] is Io && spec_not_found(t.errors[i]->source))
                    &&& !(opts.recursive && t.errors[i] is IsDirectory)
                }
        }),
{
    lemma_initial_wf(opts, ops);
    lemma_replay_wf(initial(opts, ops), es);
    let t = replay(initial(opts, ops), es).0;
    assert forall|i: int| 0 <= i < t.errors.len() implies crate::machine::owed_error(opts, #[trigger] t.errors[i]) by {}
}

/// An "is a directory" error is recorded only when a path being inspected
/// turns out to be a directory and `recursive` is off; it names that path,
/// and the removal goes on with the next path without doing anything else.
pub proof fn lemma_is_directory_only_without_recursion(s: RemovalView, e: EventView)
    requires
        wf(s),
    ensures
        ({
            let t = spec_next(s, e).0;
            t.errors.len() > s.errors.len() && t.errors.last() is IsDirectory ==> {
                &&& !s.opts.recursive
                &&& pending(s) == ActionView::Inspect { path: s.operands[s.next as int].path }
                &&& e == EventView::Metadata { is_dir: true }
                &&& t.errors.last() == RumErrorView::IsDirectory { path: s.operands[s.next as int].path }
                &&& t.next == s.next + 1
            }
        }),
{
    let t = spec_next(s, e).0;
    lemma_step_preserves_wf(s, e);
    lemma_errors_grow_by_path(s, e);
    if t.errors.len() > s.errors.len() && t.errors.last() is IsDirectory {
        assert(crate::machine::owed_error(t.opts, t.errors[t.errors.len() - 1]));
    }
}

/// A name that does not start with `/`, joined to a directory path that is
/// not empty and does not end in `/`, comes after that path and one `/`,
/// whether the path is relative or absolute; to a path that is empty or ends
/// in `/` it is appended as it is; a name that starts with `/` stands alone.
pub proof fn lemma_join_puts_one_separator(dir: Seq<u8>, name: Seq<u8>)
    ensures
        (name.len() == 0 || name[0] != 47u8) && dir.len() > 0 && dir[dir.len() - 1] != 47u8 ==> spec_join(dir, name)
            == dir + seq![47u8] + name,
        (name.len() == 0 || name[0] != 47u8) && (dir.len() == 0 || dir[dir.len() - 1] == 47u8) ==> spec_join(
            dir,
            name,
        ) == dir + name,
        name.len() > 0 && name[0] == 47u8 ==> spec_join(dir, name) == name,
{
}

/// `not found` is the one error number 2 (`ENOENT`) of the operating
/// system, and no other cause.
pub proof fn lemma_not_found_is_enoent_alone(cause: IoCause)
    ensures
        spec_not_found(cause) <==> cause == (IoCause::Os { code: 2i32 }),
{
}

/// How a failed operation on `path` is settled, for files and directories
/// alike: with `force`, the error number 2 (`ENOENT`) alone is no error and
/// prints nothing; every other failure, and every failure without `force`,
/// is an error about `path` with that very cause. A success prints the
/// removal line in verbose mode, else nothing.
pub proof fn lemma_settle_forgives_only_missing(path: Seq<u8>, opts: Options, is_dir: bool, cause: IoCause)
    ensures
        crate::outcome::spec_settle(path, opts, is_dir, Err(cause)) == (if opts.force && cause == (IoCause::Os {
            code: 2i32,
        }) {
            Ok::<Option<Seq<u8>>, RumErrorView>(None)
        } else {
            Err(RumErrorView::Io { path, source: cause })
        }),
        crate::outcome::spec_settle(path, opts, is_dir, Ok(())) == (if !opts.verbose {
            Ok::<Option<Seq<u8>>, RumErrorView>(None)
        } else if is_dir {
            Ok(Some(crate::outcome::spec_removed_dir_line(path)))
        } else {
            Ok(Some(crate::outcome::spec_removed_line(path)))
        }),
{
}

/// With recursion, a path that is a directory is removed as a tree: where
/// its last component is a name without a NUL byte, the directory part of
/// the path is opened first when it is there, not empty and not `.` (`..`
/// included), and the last component is then opened from it; with no
/// directory part, an empty one or `.`, the last component is opened from
/// the working directory at once. The directory is known by that last
/// component and spoken of by the whole path.
pub proof fn lemma_tree_starts_from_its_directory(s: RemovalView, name: Seq<u8>)
    requires
        wf(s),
        s.opts.recursive,
        pending(s) is Inspect,
        s.operands[s.next as int].file_name == Some(name),
        forall|i: int| 0 <= i < name.len() ==> name[i] != 0u8,
    ensures
        ({
            let op = s.operands[s.next as int];
            let t = spec_next(s, EventView::Metadata { is_dir: true }).0;
            let opened = spec_next(t, EventView::Done).0;
            let p = op.parent->0;
            &&& t.dir matches Some(f) && f.name == name && f.path == op.path
            &&& if op.parent is Some && p.len() > 0 && p != seq![46u8] {
                &&& pending(t) == ActionView::OpenParent { path: p }
                &&& pending(opened) == ActionView::OpenDir { name }
                &&& opened.parent_open
            } else {
                &&& pending(t) == ActionView::OpenDir { name }
                &&& !t.parent_open
            }
        }),
{
    assert(!crate::names::spec_has_nul(name));
}

/// An error a directory's removal raises is the error recorded for its
/// path: once the directory and, where it was opened, its parent are
/// closed, the errors are those before with that error added, and the
/// removal goes on with the next path.
pub proof fn lemma_unwinding_records_its_error(s: RemovalView, error: RumErrorView)
    requires
        wf(s),
        s.phase == (PhaseView::Unwinding { error }),
    ensures
        ({
            let n: int = open_count(s) as int;
            let t = replay(s, Seq::new(n as nat, |i: int| EventView::Done)).0;
            &&& 1 <= n <= 2
            &&& t.errors == s.errors.push(error)
            &&& t.next == s.next + 1
            &&& open_count(t) == 0
        }),
{
    let n: int = open_count(s) as int;
    let ds = Seq::new(n as nat, |i: int| EventView::Done);
    let t1 = spec_next(s, EventView::Done).0;
    lemma_step_preserves_wf(s, EventView::Done);
    assert(ds[0] == EventView::Done);
    if n == 1 {
        assert(ds.drop_first() =~= Seq::<EventView>::empty());
        assert(replay(t1, ds.drop_first()) == (t1, Seq::<Seq<u8>>::empty()));
        assert(replay(s, ds).0 == t1);
        assert(s.dir is Some || s.parent_open);
        assert(t1.errors == s.errors.push(error));
    } else {
        let t2 = spec_next(t1, EventView::Done).0;
        let rest = ds.drop_first();
        assert(rest =~= seq![EventView::Done]);
        assert(rest.drop_first() =~= Seq::<EventView>::empty());
        assert(replay(t2, rest.drop_first()) == (t2, Seq::<Seq<u8>>::empty()));
        assert(rest[0] == EventView::Done);
        assert(replay(t1, rest).0 == t2);
        assert(replay(s, ds).0 == t2);
        assert(t1.phase == (PhaseView::Unwinding { error }));
        assert(t1.errors == s.errors);
        assert(t2.errors == s.errors.push(error));
    }
}

/// The names `.` and `..` are the one-byte name of a dot and the two-byte
/// name of two dots, and no others.
pub proof fn lemma_dot_names(name: Seq<u8>)
    ensures
        spec_is_dot_or_dotdot(name) <==> (name.len() == 1 && name[0] == 46u8) || (name.len() == 2 && name[0]
            == 46u8 && name[1] == 46u8),
{
    if name.len() == 1 && name[0] == 46u8 {
        assert(name =~= seq![46u8]);
    }
    if name.len() == 2 && name[0] == 46u8 && name[1] == 46u8 {
        assert(name =~= seq![46u8, 46u8]);
    }
}

/// Holding a NUL byte: the empty name holds none, a one-byte name holds one
/// exactly when that byte is 0, and two names put together hold one exactly
/// when one of them does.
pub proof fn lemma_nul_bytes(a: Seq<u8>, b: Seq<u8>, c: u8)
    ensures
        !crate::names::spec_has_nul(Seq::<u8>::empty()),
        crate::names::spec_has_nul(seq![c]) <==> c == 0u8,
        crate::names::spec_has_nul(a + b) <==> crate::names::spec_has_nul(a) || crate::names::spec_has_nul(b),
{
    if crate::names::spec_has_nul(seq![c]) {
        let i = choose|i: int| 0 <= i < 1 && seq![c][i] == 0;
        assert(seq![c][i] == c);
    }
    if c == 0u8 {
        assert(seq![c][0] == 0);
    }
    if crate::names::spec_has_nul(a + b) {
        let i = choose|i: int| 0 <= i < (a + b).len() && (a + b)[i] == 0;
        if i < a.len() {
            assert((a + b)[i] == a[i]);
        } else {
            assert((a + b)[i] == b[i - a.len()]);
        }
    }
    if crate::names::spec_has_nul(a) {
        let i = choose|i: int| 0 <= i < a.len() && a[i] == 0;
        assert((a + b)[i] == a[i]);
    }
    if crate::names::spec_has_nul(b) {
        let i = choose|i: int| 0 <= i < b.len() && b[i] == 0;
        assert((a + b)[a.len() + i] == b[i]);
    }
}

/// The lines of verbose mode, byte by byte: `removed '<path>'` for a file
/// and `removed directory '<path>'` for a directory.
pub proof fn lemma_removal_lines(path: Seq<u8>)
    ensures
        crate::outcome::spec_removed_line(path) == seq![114u8, 101u8, 109u8, 111u8, 118u8, 101u8, 100u8, 32u8, 39u8]
            + path + seq![39u8],
        crate::outcome::spec_removed_dir_line(path) == seq![
            114u8,
            101u8,
            109u8,
            111u8,
            118u8,
            101u8,
            100u8,
            32u8,
            100u8,
            105u8,
            114u8,
            101u8,
            99u8,
            116u8,
            111u8,
            114u8,
            121u8,
            32u8,
            39u8,
        ] + path + seq![39u8],
{
    reveal_strlit("removed '");
    assert(vstd::string::is_ascii("removed '"));
    vstd::string::is_ascii_spec_bytes("removed '");
    reveal_strlit("removed directory '");
    assert(vstd::string::is_ascii("removed directory '"));
    vstd::string::is_ascii_spec_bytes("removed directory '");
    reveal_strlit("'");
    assert(vstd::string::is_ascii("'"));
    vstd::string::is_ascii_spec_bytes("'");
    assert("removed '".spec_bytes() =~= seq![114u8, 101u8, 109u8, 111u8, 118u8, 101u8, 100u8, 32u8, 39u8]);
    assert("'".spec_bytes() =~= seq![39u8]);
    assert("removed directory '".spec_bytes() =~= seq![
        114u8,
        101u8,
        109u8,
        111u8,
        118u8,
        101u8,
        100u8,
        32u8,
        100u8,
        105u8,
        114u8,
        101u8,
        99u8,
        116u8,
        111u8,
        114u8,
        121u8,
        32u8,
        39u8,
    ]);
}

/// The line that reports an error, byte by byte: `cannot remove '<path>': `
/// and then the system's own words for an error it reported, or
/// `cannot remove '<path>': is a directory`.
pub proof fn lemma_error_lines(path: Seq<u8>, code: i32, description: Seq<u8>)
    ensures
        crate::error::spec_message(RumErrorView::Io { path, source: IoCause::Os { code } }, description) == seq![
            99u8,
            97u8,
            110u8,
            110u8,
            111u8,
            116u8,
            32u8,
            114u8,
            101u8,
            109u8,
            111u8,
            118u8,
            101u8,
            32u8,
            39u8,
        ] + path + seq![39u8, 58u8, 32u8] + description,
        crate::error::spec_message(RumErrorView::IsDirectory { path }, description) == seq![
            99u8,
            97u8,
            110u8,
            110u8,
            111u8,
            116u8,
            32u8,
            114u8,
            101u8,
            109u8,
            111u8,
            118u8,
            101u8,
            32u8,
            39u8,
        ] + path + seq![
            39u8,
            58u8,
            32u8,
            105u8,
            115u8,
            32u8,
            97u8,
            32u8,
            100u8,
            105u8,
            114u8,
            101u8,
            99u8,
            116u8,
            111u8,
            114u8,
            121u8,
        ],
{
    reveal_strlit("cannot remove '");
    assert(vstd::string::is_ascii("cannot remove '"));
    vstd::string::is_ascii_spec_bytes("cannot remove '");
    reveal_strlit("': ");
    assert(vstd::string::is_ascii("': "));
    vstd::string::is_ascii_spec_bytes("': ");
    reveal_strlit("': is a directory");
    assert(vstd::string::is_ascii("': is a directory"));
    vstd::string::is_ascii_spec_bytes("': is a directory");
    assert("cannot remove '".spec_bytes() =~= seq![
        99u8,
        97u8,
        110u8,
        110u8,
        111u8,
        116u8,
        32u8,
        114u8,
        101u8,
        109u8,
        111u8,
        118u8,
        101u8,
        32u8,
        39u8,
    ]);
    assert("': ".spec_bytes() =~= seq![39u8, 58u8, 32u8]);
    assert("': is a directory".spec_bytes() =~= seq![
        39u8,
        58u8,
        32u8,
        105u8,
        115u8,
        32u8,
        97u8,
        32u8,
        100u8,
        105u8,
        114u8,
        101u8,
        99u8,
        116u8,
        111u8,
        114u8,
        121u8,
    ]);
}

/// The removal of a subdirectory, started for the name `name` of the
/// directory at `dir_path` with the directory's options and run to its end
/// under any answers, is an answer its directory accepts.
pub proof fn lemma_finished_subdirectory_is_accepted(
    dir_path: Seq<u8>,
    name: Seq<u8>,
    opts: Options,
    es: Seq<EventView>,
)
    requires
        opts.recursive,
    ensures
        replay(crate::machine::subdirectory_initial(dir_path, name, opts), es).0.phase is Finished
            ==> crate::machine::answers_subdirectory(
            replay(crate::machine::subdirectory_initial(dir_path, name, opts), es).0,
            opts,
            dir_path,
            name,
        ),
{
    let s0 = crate::machine::subdirectory_initial(dir_path, name, opts);
    assert(Options { recursive: true, ..opts } == opts);
    assert(wf(s0));
    lemma_replay_wf(s0, es);
}

/// A path whose last component cannot be named is not removed: without a
/// last component (such as `/`) the error is about the path, and with a NUL
/// byte in it the error is about that name; nothing is opened and the
/// removal goes on with the next path.
pub proof fn lemma_unnamable_tree_is_refused(s: RemovalView)
    requires
        wf(s),
        s.opts.recursive,
        pending(s) is Inspect,
        s.operands[s.next as int].file_name is None || crate::names::spec_has_nul(
            s.operands[s.next as int].file_name->0,
        ),
    ensures
        ({
            let op = s.operands[s.next as int];
            let t = spec_next(s, EventView::Metadata { is_dir: true }).0;
            &&& t.next == s.next + 1
            &&& open_count(t) == 0
            &&& t.errors == s.errors.push(
                if op.file_name is None {
                    RumErrorView::Io { path: op.path, source: IoCause::NoFileName }
                } else {
                    RumErrorView::Io { path: op.file_name->0, source: IoCause::NulInName }
                },
            )
        }),
{
}

/// A path that is not a directory is removed as a file, whatever the
/// options: the file is removed next, and once it is gone the removal
/// prints `removed '<path>'` in verbose mode and nothing else, records no
/// error, and goes on with the next path.
pub proof fn lemma_file_operand_is_removed(s: RemovalView)
    requires
        wf(s),
        pending(s) is Inspect,
    ensures
        ({
            let path = s.operands[s.next as int].path;
            let t = spec_next(s, EventView::Metadata { is_dir: false }).0;
            let (u, lines) = spec_next(t, EventView::Done);
            &&& pending(t) == ActionView::RemoveFile { path }
            &&& u.errors == s.errors
            &&& u.next == s.next + 1
            &&& lines == (if s.opts.verbose {
                seq![crate::outcome::spec_removed_line(path)]
            } else {
                Seq::<Seq<u8>>::empty()
            })
        }),
{
}

/// An entry whose kind the listing left open goes, once looked at, with the
/// subdirectories when it is a directory and with the files when it is not,
/// after those already there; when it is found gone under `force` it is
/// dropped. The entries still to be looked at keep their order.
pub proof fn lemma_unknown_entry_goes_by_its_kind(s: RemovalView, e: EventView)
    requires
        wf(s),
        pending(s) is InspectEntry,
    ensures
        ({
            let f = s.dir->0;
            let x = f.unknown[0];
            let t = spec_next(s, e).0;
            let g = t.dir->0;
            &&& e == (EventView::Metadata { is_dir: true }) ==> g.subdirs == f.subdirs.push(x) && g.files
                == f.files && g.unknown == f.unknown.drop_first()
            &&& e == (EventView::Metadata { is_dir: false }) ==> g.files == f.files.push(x) && g.subdirs
                == f.subdirs && g.unknown == f.unknown.drop_first()
            &&& (s.opts.force && e == (EventView::Failed { cause: IoCause::Os { code: 2i32 } })) ==> g.files
                == f.files && g.subdirs == f.subdirs && g.unknown == f.unknown.drop_first() && t.errors == s.errors
                && t.phase is Walking
        }),
{
}

/// With `force`, a directory that is gone by the time it is listed is
/// closed and left alone: no error is recorded, nothing is printed, and
/// once it is closed the removal of its path is over but for closing the
/// directory it was opened from, where there is one.
pub proof fn lemma_vanished_directory_is_closed_and_skipped(s: RemovalView)
    requires
        wf(s),
        s.opts.force,
        pending(s) is ReadDir,
    ensures
        ({
            let (t, l1) = spec_next(s, EventView::Failed { cause: IoCause::Os { code: 2i32 } });
            let (u, l2) = spec_next(t, EventView::Done);
            &&& pending(t) == ActionView::CloseDir
            &&& l1.len() == 0 && l2.len() == 0
            &&& u.errors == s.errors
            &&& open_count(u) + 1 == open_count(s)
            &&& if s.parent_open {
                pending(u) == ActionView::CloseDir && !(u.phase is Unwinding) && u.next == s.next
            } else {
                u.next == s.next + 1
            }
        }),
{
}

/// With `force`, removing a path that is not there does nothing: no error,
/// no line, nothing opened, and the removal goes on with the next path. So
/// removing a path a second time, once it is gone, leaves all as it was.
pub proof fn lemma_forced_missing_path_is_skipped(s: RemovalView)
    requires
        wf(s),
        s.opts.force,
        pending(s) is Inspect,
    ensures
        ({
            let r = spec_next(s, EventView::Failed { cause: IoCause::Os { code: crate::errno::ENOENT } });
            &&& r.0.errors == s.errors
            &&& r.1.len() == 0
            &&& r.0.next == s.next + 1
            &&& open_count(r.0) == 0
            &&& pending(r.0) == (if r.0.next < r.0.operands.len() {
                ActionView::Inspect { path: r.0.operands[r.0.next as int].path }
            } else {
                ActionView::Finish
            })
        }),
{
}

/// With `force`, removing a path alone once it is gone asks for nothing but
/// its inspection, records no error and prints nothing: the removal of that
/// path is over after that one answer. So a second forced removal of a path
/// that a first one removed changes nothing and succeeds.
pub proof fn lemma_second_forced_removal_does_nothing(opts: Options, op: OperandView)
    requires
        opts.force,
    ensures
        ({
            let b = initial(opts, seq![op]);
            let es = seq![EventView::Failed { cause: IoCause::Os { code: crate::errno::ENOENT } }];
            &&& pending(b) == ActionView::Inspect { path: op.path }
            &&& removes_path(opts, op, es)
            &&& path_errors(opts, op, es) == Seq::<RumErrorView>::empty()
            &&& path_lines(opts, op, es) == Seq::<Seq<u8>>::empty()
            &&& pending(replay(b, es).0) == ActionView::Finish
        }),
{
    let b = initial(opts, seq![op]);
    let es = seq![EventView::Failed { cause: IoCause::Os { code: crate::errno::ENOENT } }];
    lemma_initial_wf(opts, seq![op]);
    lemma_forced_missing_path_is_skipped(b);
    let t = spec_next(b, es[0]).0;
    assert(es.drop_first() =~= Seq::<EventView>::empty());
    assert(replay(t, es.drop_first()) == (t, Seq::<Seq<u8>>::empty()));
    assert(es.take(0) =~= Seq::<EventView>::empty());
    assert(replay(b, es.take(0)) == (b, Seq::<Seq<u8>>::empty()));
    assert(spec_next(b, es[0]).1 + Seq::<Seq<u8>>::empty() =~= spec_next(b, es[0]).1);
}

} // verus!
