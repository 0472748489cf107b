use vstd::prelude::*;
use crate::bytes::{bytes_eq, copy_bytes};
use crate::errno::spec_not_found;
use crate::error::{IoCause, RumError, RumErrorView};
use crate::names::{has_nul, is_dot_or_dotdot, join_child, spec_has_nul, spec_is_dot_or_dotdot, spec_join, DOT};
use crate::options::Options;
use crate::outcome::{outcome_view, settle, spec_settle, unlink_child};

verus! {

// ---------------------------------------------------------------------------
// Values exchanged with the driver
// ---------------------------------------------------------------------------

/// One path to remove, with its last component and the path of its
/// directory as the platform's path rules split them.
#[derive(Debug, PartialEq, Eq)]
pub struct Operand {
    pub path: Vec<u8>,
    pub file_name: Option<Vec<u8>>,
    pub parent: Option<Vec<u8>>,
}

/// The value of a byte vector that may be absent.
pub open spec fn opt_bytes(o: Option<Vec<u8>>) -> Option<Seq<u8>> {
    match o {
        Some(v) => Some(v@),
        None => None,
    }
}

/// The value of an [`Operand`].
pub struct OperandView {
    pub path: Seq<u8>,
    pub file_name: Option<Seq<u8>>,
    pub parent: Option<Seq<u8>>,
}

impl View for Operand {
    type V = OperandView;

    open spec fn view(&self) -> OperandView {
        OperandView { path: self.path@, file_name: opt_bytes(self.file_name), parent: opt_bytes(self.parent) }
    }
}

/// What a directory listing says an entry is.
#[derive(Debug, Clone, Copy, PartialEq, Eq, Structural)]
pub enum EntryKind {
    Directory,
    NotDirectory,
    /// The listing does not say; the entry's own metadata must be read.
    Unknown,
}

/// One entry read from a directory.
#[derive(Debug, PartialEq, Eq)]
pub struct Entry {
    pub name: Vec<u8>,
    pub kind: EntryKind,
}

impl View for Entry {
    type V = (Seq<u8>, EntryKind);

    open spec fn view(&self) -> (Seq<u8>, EntryKind) {
        (self.name@, self.kind)
    }
}

/// The values of a list of names.
pub open spec fn names_view(v: Seq<Vec<u8>>) -> Seq<Seq<u8>> {
    v.map_values(|x: Vec<u8>| x@)
}

/// What the driver reports back after performing an [`Action`].
pub enum Event {
    /// The metadata (links are not followed) says whether it is a directory.
    Metadata { is_dir: bool },
    /// The operation succeeded.
    Done,
    /// The operation failed.
    Failed { cause: IoCause },
    /// Every entry of the directory, in the order read.
    Entries { entries: Vec<Entry> },
    /// How unlinking each of the files went, in the order they were asked for.
    FilesRemoved { results: Vec<Result<(), IoCause>> },
    /// The removal of each of the subdirectories, run to its end, in the
    /// order they were asked for.
    SubdirsRemoved { removals: Vec<Removal> },
}

/// The value of an [`Event`].
pub enum EventView {
    Metadata { is_dir: bool },
    Done,
    Failed { cause: IoCause },
    Entries { entries: Seq<(Seq<u8>, EntryKind)> },
    FilesRemoved { results: Seq<Result<(), IoCause>> },
    SubdirsRemoved { removals: Seq<RemovalView> },
}

impl View for Event {
    type V = EventView;

    open spec fn view(&self) -> EventView {
        match self {
            Event::Metadata { is_dir } => EventView::Metadata { is_dir: *is_dir },
            Event::Done => EventView::Done,
            Event::Failed { cause } => EventView::Failed { cause: *cause },
            Event::Entries { entries } => EventView::Entries {
                entries: entries@.map_values(|e: Entry| e@),
            },
            Event::FilesRemoved { results } => EventView::FilesRemoved { results: results@ },
            Event::SubdirsRemoved { removals } => EventView::SubdirsRemoved {
                removals: removals@.map_values(|r: Removal| r@),
            },
        }
    }
}

/// The operation the driver is asked to perform next. Directory operations
/// act on the most recently opened directory that is still open, or on the
/// directory the removal was started from when none is.
#[derive(Debug, PartialEq, Eq)]
pub enum Action {
    /// Read the metadata of `path` without following a final link.
    Inspect { path: Vec<u8> },
    /// Remove the non-directory `path`.
    RemoveFile { path: Vec<u8> },
    /// Open the directory `path` and keep it open.
    OpenParent { path: Vec<u8> },
    /// Open the directory `name`, not following a link, and keep it open.
    OpenDir { name: Vec<u8> },
    /// List the entries of the open directory.
    ReadDir,
    /// Read the metadata of the entry `name` of the open directory, without
    /// following a link.
    InspectEntry { name: Vec<u8> },
    /// Unlink each of `names` from the open directory, whose path is
    /// `dir_path`, and report how each went.
    UnlinkFiles { dir_path: Vec<u8>, names: Vec<Vec<u8>> },
    /// Remove each of the subdirectories `names` of the open directory, whose
    /// path is `dir_path`, each by a removal of its own (see
    /// [`Removal::subdirectory`]) run to its end, and hand those back.
    RemoveSubdirs { dir_path: Vec<u8>, names: Vec<Vec<u8>> },
    /// Close the open directory.
    CloseDir,
    /// Remove the empty directory `name`.
    RemoveDir { name: Vec<u8> },
    /// Nothing is left to do.
    Finish,
}

/// The value of an [`Action`].
pub enum ActionView {
    Inspect { path: Seq<u8> },
    RemoveFile { path: Seq<u8> },
    OpenParent { path: Seq<u8> },
    OpenDir { name: Seq<u8> },
    ReadDir,
    InspectEntry { name: Seq<u8> },
    UnlinkFiles { dir_path: Seq<u8>, names: Seq<Seq<u8>> },
    RemoveSubdirs { dir_path: Seq<u8>, names: Seq<Seq<u8>> },
    CloseDir,
    RemoveDir { name: Seq<u8> },
    Finish,
}

impl View for Action {
    type V = ActionView;

    open spec fn view(&self) -> ActionView {
        match self {
            Action::Inspect { path } => ActionView::Inspect { path: path@ },
            Action::RemoveFile { path } => ActionView::RemoveFile { path: path@ },
            Action::OpenParent { path } => ActionView::OpenParent { path: path@ },
            Action::OpenDir { name } => ActionView::OpenDir { name: name@ },
            Action::ReadDir => ActionView::ReadDir,
            Action::InspectEntry { name } => ActionView::InspectEntry { name: name@ },
            Action::UnlinkFiles { dir_path, names } => ActionView::UnlinkFiles {
                dir_path: dir_path@,
                names: names_view(names@),
            },
            Action::RemoveSubdirs { dir_path, names } => ActionView::RemoveSubdirs {
                dir_path: dir_path@,
                names: names_view(names@),
            },
            Action::CloseDir => ActionView::CloseDir,
            Action::RemoveDir { name } => ActionView::RemoveDir { name: name@ },
            Action::Finish => ActionView::Finish,
        }
    }
}

/// The lines to print, in order, and the next operation.
#[derive(Debug, PartialEq, Eq)]
pub struct Step {
    pub lines: Vec<Vec<u8>>,
    pub action: Action,
}

// ---------------------------------------------------------------------------
// The state of a removal
// ---------------------------------------------------------------------------

/// Where the removal of one directory stands.
#[derive(Debug, Clone, Copy, PartialEq, Eq, Structural)]
pub enum Stage {
    /// Waiting for the directory to be opened.
    Opening,
    /// Waiting for its entries.
    Reading,
    /// Finding out, entry by entry, what the listing left unknown.
    Classifying,
    /// Waiting for its files to be unlinked.
    RemovingFiles,
    /// Waiting for its subdirectories to be removed.
    RemovingSubdirs,
    /// Waiting for it to be closed.
    Closing,
    /// Waiting for it to be removed from its parent.
    Removing,
    /// It vanished while being listed; waiting for it to be closed.
    Abandoning,
}

/// The value of the directory being removed.
pub struct FrameView {
    pub name: Seq<u8>,
    pub path: Seq<u8>,
    pub stage: Stage,
    pub files: Seq<Seq<u8>>,
    pub subdirs: Seq<Seq<u8>>,
    /// Entries whose kind is still to be found out, in order.
    pub unknown: Seq<Seq<u8>>,
}

/// Where the removal stands.
pub enum PhaseView {
    Inspecting,
    RemovingFile,
    OpeningParent { parent: Seq<u8> },
    Walking,
    ClosingParent,
    Unwinding { error: RumErrorView },
    Finished,
}

/// The value of a removal of a list of paths.
pub struct RemovalView {
    pub opts: Options,
    pub operands: Seq<OperandView>,
    /// The index of the path being removed.
    pub next: nat,
    pub phase: PhaseView,
    /// The directory being removed, if any.
    pub dir: Option<FrameView>,
    /// Whether the directory holding it is open.
    pub parent_open: bool,
    pub errors: Seq<RumErrorView>,
}

/// Whether a directory in `stage` is open.
pub open spec fn holds_fd(stage: Stage) -> bool {
    !(stage == Stage::Opening || stage == Stage::Removing)
}

/// The number of directories the driver holds open.
pub open spec fn open_count(s: RemovalView) -> nat {
    (if s.parent_open { 1nat } else { 0nat }) + (if s.dir is Some && holds_fd(s.dir->0.stage) {
        1nat
    } else {
        0nat
    })
}

/// A directory about to be opened.
pub open spec fn new_frame(name: Seq<u8>, path: Seq<u8>) -> FrameView {
    FrameView { name, path, stage: Stage::Opening, files: seq![], subdirs: seq![], unknown: seq![] }
}

/// The names of the entries of `kind` among `entries`, in order, without
/// `.` and `..`.
pub open spec fn names_of(entries: Seq<(Seq<u8>, EntryKind)>, kind: EntryKind) -> Seq<Seq<u8>>
    decreases entries.len(),
{
    if entries.len() == 0 {
        seq![]
    } else {
        let rest = names_of(entries.drop_last(), kind);
        let e = entries.last();
        if e.1 == kind && !spec_is_dot_or_dotdot(e.0) {
            rest.push(e.0)
        } else {
            rest
        }
    }
}

/// The names of the files among `entries`.
pub open spec fn file_names(entries: Seq<(Seq<u8>, EntryKind)>) -> Seq<Seq<u8>> {
    names_of(entries, EntryKind::NotDirectory)
}

/// The names of the directories among `entries`.
pub open spec fn dir_names(entries: Seq<(Seq<u8>, EntryKind)>) -> Seq<Seq<u8>> {
    names_of(entries, EntryKind::Directory)
}

/// The names of the entries of unknown kind among `entries`.
pub open spec fn unknown_names(entries: Seq<(Seq<u8>, EntryKind)>) -> Seq<Seq<u8>> {
    names_of(entries, EntryKind::Unknown)
}

/// The directory to open before the walk: none when the path's directory is
/// missing, empty or `.`, and the walk starts in the working directory.
pub open spec fn useful_parent(parent: Option<Seq<u8>>) -> Option<Seq<u8>> {
    match parent {
        Some(p) => if p.len() == 0 || p == seq![DOT] {
            None
        } else {
            Some(p)
        },
        None => None,
    }
}

/// The error an outcome ends in, if any.
pub open spec fn error_of(r: Result<Option<Seq<u8>>, RumErrorView>) -> Option<RumErrorView> {
    match r {
        Ok(_) => None,
        Err(e) => Some(e),
    }
}

/// The lines an outcome prints.
pub open spec fn lines_of(r: Result<Option<Seq<u8>>, RumErrorView>) -> Seq<Seq<u8>> {
    match r {
        Ok(Some(line)) => seq![line],
        _ => seq![],
    }
}

/// Starts on the path at `s.next`, or finishes when none is left.
pub open spec fn begin(s: RemovalView) -> RemovalView {
    if s.next < s.operands.len() {
        RemovalView { phase: PhaseView::Inspecting, ..s }
    } else {
        RemovalView { phase: PhaseView::Finished, ..s }
    }
}

/// Ends the current path, recording `err` if it failed, and moves on.
pub open spec fn finish(s: RemovalView, err: Option<RumErrorView>) -> RemovalView {
    begin(
        RemovalView {
            next: s.next + 1,
            dir: None,
            parent_open: false,
            errors: match err {
                Some(e) => s.errors.push(e),
                None => s.errors,
            },
            ..s
        },
    )
}

/// Stops the walk with `e`: what is still open is closed first.
pub open spec fn fail(s: RemovalView, e: RumErrorView) -> RemovalView {
    let dir = match s.dir {
        Some(f) => if holds_fd(f.stage) {
            Some(f)
        } else {
            None
        },
        None => None,
    };
    if dir is Some || s.parent_open {
        RemovalView { phase: PhaseView::Unwinding { error: e }, dir, ..s }
    } else {
        finish(RemovalView { dir, ..s }, Some(e))
    }
}

/// Goes on once the directory is done with.
pub open spec fn resume(s: RemovalView) -> RemovalView {
    if s.parent_open {
        RemovalView { phase: PhaseView::ClosingParent, dir: None, ..s }
    } else {
        finish(s, None)
    }
}

/// What follows the unlinking of a directory's files: removing its
/// subdirectories if it has any, else closing it.
pub open spec fn after_files(subdirs: Seq<Seq<u8>>) -> Stage {
    if subdirs.len() > 0 {
        Stage::RemovingSubdirs
    } else {
        Stage::Closing
    }
}

/// What follows once every entry's kind is known: unlinking the files if
/// there are any, else what follows that.
pub open spec fn after_classifying(files: Seq<Seq<u8>>, subdirs: Seq<Seq<u8>>) -> Stage {
    if files.len() > 0 {
        Stage::RemovingFiles
    } else {
        after_files(subdirs)
    }
}

/// `s` with the directory moved on to `stage`.
pub open spec fn at_stage(s: RemovalView, stage: Stage) -> RemovalView {
    RemovalView { dir: Some(FrameView { stage, ..s.dir->0 }), ..s }
}

/// `s` with the directory's first entry of unknown kind dealt with: kept as
/// a directory, as a file, or, when it turned out to be gone, dropped.
pub open spec fn classified(s: RemovalView, kind: Option<bool>) -> RemovalView {
    let f = s.dir->0;
    let name = f.unknown[0];
    let files = if kind == Some(false) { f.files.push(name) } else { f.files };
    let subdirs = if kind == Some(true) { f.subdirs.push(name) } else { f.subdirs };
    let unknown = f.unknown.drop_first();
    let stage = if unknown.len() > 0 { Stage::Classifying } else { after_classifying(files, subdirs) };
    RemovalView { dir: Some(FrameView { files, subdirs, unknown, stage, ..f }), ..s }
}

/// Starts removing the directory tree of the current path.
pub open spec fn start_tree(s: RemovalView) -> RemovalView {
    let op = s.operands[s.next as int];
    match op.file_name {
        None => finish(s, Some(RumErrorView::Io { path: op.path, source: IoCause::NoFileName })),
        Some(name) => if spec_has_nul(name) {
            finish(s, Some(RumErrorView::Io { path: name, source: IoCause::NulInName }))
        } else {
            match useful_parent(op.parent) {
                Some(p) => RemovalView {
                    phase: PhaseView::OpeningParent { parent: p },
                    dir: Some(new_frame(name, op.path)),
                    ..s
                },
                None => RemovalView { phase: PhaseView::Walking, dir: Some(new_frame(name, op.path)), ..s },
            }
        },
    }
}

/// The result of an operation that either succeeded or failed with a cause.
pub open spec fn op_result(e: EventView) -> Result<(), IoCause> {
    match e {
        EventView::Failed { cause } => Err(cause),
        _ => Ok(()),
    }
}

/// Whether `e` answers an operation that succeeds or fails.
pub open spec fn is_op_answer(e: EventView) -> bool {
    e is Done || e is Failed
}

/// The lines printed for a batch of files of the directory `dir` unlinked
/// with `results`: one for each file removed, in verbose mode.
pub open spec fn batch_lines(
    dir: Seq<u8>,
    opts: Options,
    names: Seq<Seq<u8>>,
    results: Seq<Result<(), IoCause>>,
) -> Seq<Seq<u8>>
    decreases names.len(),
{
    if names.len() == 0 || results.len() == 0 {
        seq![]
    } else {
        batch_lines(dir, opts, names.drop_last(), results.drop_last()) + lines_of(
            spec_settle(spec_join(dir, names.last()), opts, false, results.last()),
        )
    }
}

/// The first error of a batch of files of the directory `dir` unlinked with
/// `results`: about the file's own path, unless `force` forgives it.
pub open spec fn batch_error(
    dir: Seq<u8>,
    opts: Options,
    names: Seq<Seq<u8>>,
    results: Seq<Result<(), IoCause>>,
) -> Option<RumErrorView>
    decreases names.len(),
{
    if names.len() == 0 || results.len() == 0 {
        None
    } else {
        match batch_error(dir, opts, names.drop_last(), results.drop_last()) {
            Some(e) => Some(e),
            None => error_of(spec_settle(spec_join(dir, names.last()), opts, false, results.last())),
        }
    }
}

/// The removal a driver must hand back for the subdirectory `name` of the
/// directory at `dir_path`, removed with `opts`: one started by
/// [`Removal::subdirectory`] for it with those options and run to its end.
pub open spec fn answers_subdirectory(r: RemovalView, opts: Options, dir_path: Seq<u8>, name: Seq<u8>) -> bool {
    &&& wf(r)
    &&& r.opts == opts
    &&& r.phase is Finished
    &&& r.operands == seq![OperandView { path: spec_join(dir_path, name), file_name: Some(name), parent: None }]
}

/// Whether `removals` answer the removal of `names`, one for each, in order.
pub open spec fn answers_subdirectories(
    removals: Seq<RemovalView>,
    opts: Options,
    dir_path: Seq<u8>,
    names: Seq<Seq<u8>>,
) -> bool {
    &&& removals.len() == names.len()
    &&& forall|i: int| 0 <= i < names.len() ==> answers_subdirectory(#[trigger] removals[i], opts, dir_path, names[i])
}

/// The first error met by any of `removals`, in order.
pub open spec fn first_error(removals: Seq<RemovalView>) -> Option<RumErrorView>
    decreases removals.len(),
{
    if removals.len() == 0 {
        None
    } else {
        match first_error(removals.drop_last()) {
            Some(e) => Some(e),
            None => if removals.last().errors.len() > 0 {
                Some(removals.last().errors[0])
            } else {
                None
            },
        }
    }
}

/// What the walk does with `e`, which answers the directory's pending
/// operation; the lines to print come with it.
pub open spec fn walk(s: RemovalView, e: EventView) -> (RemovalView, Seq<Seq<u8>>) {
    let f = s.dir->0;
    match f.stage {
        Stage::Opening => match e {
            EventView::Done => (at_stage(s, Stage::Reading), seq![]),
            EventView::Failed { cause } => match spec_settle(f.path, s.opts, true, Err(cause)) {
                Ok(_) => (resume(s), seq![]),
                Err(err) => (fail(s, err), seq![]),
            },
            _ => (s, seq![]),
        },
        Stage::Reading => match e {
            EventView::Entries { entries } => {
                let files = file_names(entries);
                let subdirs = dir_names(entries);
                let unknown = unknown_names(entries);
                let stage = if unknown.len() > 0 {
                    Stage::Classifying
                } else {
                    after_classifying(files, subdirs)
                };
                (RemovalView { dir: Some(FrameView { files, subdirs, unknown, stage, ..f }), ..s }, seq![])
            },
            EventView::Failed { cause } => match spec_settle(f.path, s.opts, true, Err(cause)) {
                Ok(_) => (at_stage(s, Stage::Abandoning), seq![]),
                Err(err) => (fail(s, err), seq![]),
            },
            _ => (s, seq![]),
        },
        Stage::Classifying => match e {
            EventView::Metadata { is_dir } => (classified(s, Some(is_dir)), seq![]),
            EventView::Failed { cause } => match spec_settle(
                spec_join(f.path, f.unknown[0]),
                s.opts,
                false,
                Err(cause),
            ) {
                Ok(_) => (classified(s, None), seq![]),
                Err(err) => (fail(s, err), seq![]),
            },
            _ => (s, seq![]),
        },
        Stage::RemovingFiles => match e {
            EventView::FilesRemoved { results } => if results.len() == f.files.len() {
                let lines = batch_lines(f.path, s.opts, f.files, results);
                match batch_error(f.path, s.opts, f.files, results) {
                    None => (at_stage(s, after_files(f.subdirs)), lines),
                    Some(err) => (fail(s, err), lines),
                }
            } else {
                (s, seq![])
            },
            _ => (s, seq![]),
        },
        Stage::RemovingSubdirs => match e {
            EventView::SubdirsRemoved { removals } => if answers_subdirectories(removals, s.opts, f.path, f.subdirs) {
                match first_error(removals) {
                    None => (at_stage(s, Stage::Closing), seq![]),
                    Some(err) => (fail(s, err), seq![]),
                }
            } else {
                (s, seq![])
            },
            _ => (s, seq![]),
        },
        Stage::Closing => match e {
            EventView::Done => (at_stage(s, Stage::Removing), seq![]),
            _ => (s, seq![]),
        },
        Stage::Removing => if is_op_answer(e) {
            let r = spec_settle(f.path, s.opts, true, op_result(e));
            match r {
                Ok(_) => (resume(s), lines_of(r)),
                Err(err) => (fail(s, err), seq![]),
            }
        } else {
            (s, seq![])
        },
        Stage::Abandoning => match e {
            EventView::Done => (resume(s), seq![]),
            _ => (s, seq![]),
        },
    }
}

/// What the removal does with event `e`: the next state and the lines to
/// print. An event that does not answer the pending action changes nothing.
pub open spec fn spec_next(s: RemovalView, e: EventView) -> (RemovalView, Seq<Seq<u8>>) {
    match s.phase {
        PhaseView::Inspecting => {
            let path = s.operands[s.next as int].path;
            match e {
                EventView::Metadata { is_dir } => if !is_dir {
                    (RemovalView { phase: PhaseView::RemovingFile, ..s }, seq![])
                } else if s.opts.recursive {
                    (start_tree(s), seq![])
                } else {
                    (finish(s, Some(RumErrorView::IsDirectory { path })), seq![])
                },
                EventView::Failed { cause } => (
                    finish(s, error_of(spec_settle(path, s.opts, false, Err(cause)))),
                    seq![],
                ),
                _ => (s, seq![]),
            }
        },
        PhaseView::RemovingFile => if is_op_answer(e) {
            let r = spec_settle(s.operands[s.next as int].path, s.opts, false, op_result(e));
            (finish(s, error_of(r)), lines_of(r))
        } else {
            (s, seq![])
        },
        PhaseView::OpeningParent { parent } => match e {
            EventView::Done => (RemovalView { phase: PhaseView::Walking, parent_open: true, ..s }, seq![]),
            EventView::Failed { cause } => (
                finish(s, error_of(spec_settle(parent, s.opts, true, Err(cause)))),
                seq![],
            ),
            _ => (s, seq![]),
        },
        PhaseView::Walking => walk(s, e),
        PhaseView::ClosingParent => match e {
            EventView::Done => (finish(s, None), seq![]),
            _ => (s, seq![]),
        },
        PhaseView::Unwinding { error } => match e {
            EventView::Done => {
                let t = if s.dir is Some {
                    RemovalView { dir: None, ..s }
                } else {
                    RemovalView { parent_open: false, ..s }
                };
                if t.dir is None && !t.parent_open {
                    (finish(t, Some(error)), seq![])
                } else {
                    (t, seq![])
                }
            },
            _ => (s, seq![]),
        },
        PhaseView::Finished => (s, seq![]),
    }
}

/// The operation the removal waits for in state `s`.
pub open spec fn pending(s: RemovalView) -> ActionView {
    match s.phase {
        PhaseView::Inspecting => ActionView::Inspect { path: s.operands[s.next as int].path },
        PhaseView::RemovingFile => ActionView::RemoveFile { path: s.operands[s.next as int].path },
        PhaseView::OpeningParent { parent } => ActionView::OpenParent { path: parent },
        PhaseView::Walking => {
            let f = s.dir->0;
            match f.stage {
                Stage::Opening => ActionView::OpenDir { name: f.name },
                Stage::Reading => ActionView::ReadDir,
                Stage::Classifying => ActionView::InspectEntry { name: f.unknown[0] },
                Stage::RemovingFiles => ActionView::UnlinkFiles { dir_path: f.path, names: f.files },
                Stage::RemovingSubdirs => ActionView::RemoveSubdirs { dir_path: f.path, names: f.subdirs },
                Stage::Closing => ActionView::CloseDir,
                Stage::Removing => ActionView::RemoveDir { name: f.name },
                Stage::Abandoning => ActionView::CloseDir,
            }
        },
        PhaseView::ClosingParent => ActionView::CloseDir,
        PhaseView::Unwinding { .. } => ActionView::CloseDir,
        PhaseView::Finished => ActionView::Finish,
    }
}

/// No name among `names` is `.` or `..`.
pub open spec fn no_dots(names: Seq<Seq<u8>>) -> bool {
    forall|i: int| 0 <= i < names.len() ==> !spec_is_dot_or_dotdot(#[trigger] names[i])
}

/// What holds of the directory being removed.
pub open spec fn frame_wf(f: FrameView) -> bool {
    &&& f.stage == Stage::Opening ==> f.files.len() == 0 && f.subdirs.len() == 0 && f.unknown.len() == 0
    &&& f.stage == Stage::Classifying <==> f.unknown.len() > 0
    &&& f.stage == Stage::RemovingFiles ==> f.files.len() > 0
    &&& f.stage == Stage::RemovingSubdirs ==> f.subdirs.len() > 0
    &&& no_dots(f.files)
    &&& no_dots(f.subdirs)
    &&& no_dots(f.unknown)
}

/// Whether `err` is an error that a removal with `opts` can end in: not a
/// missing path under `force`, and not a directory under `recursive`.
pub open spec fn owed_error(opts: Options, err: RumErrorView) -> bool {
    &&& !(opts.force && err is Io && spec_not_found(err->source))
    &&& !(opts.recursive && err is IsDirectory)
}

/// The invariant of a removal.
pub open spec fn wf(s: RemovalView) -> bool {
    &&& s.next <= s.operands.len()
    &&& s.errors.len() <= s.next
    &&& forall|i: int| 0 <= i < s.errors.len() ==> owed_error(s.opts, #[trigger] s.errors[i])
    &&& s.phase matches PhaseView::Unwinding { error } ==> owed_error(s.opts, error)
    &&& (s.phase is Finished <==> s.next == s.operands.len())
    &&& s.dir matches Some(f) ==> frame_wf(f) && s.next < s.operands.len() && f.path == s.operands[s.next as int].path
    &&& !s.opts.recursive ==> (s.phase is Inspecting || s.phase is RemovingFile || s.phase is Finished)
    &&& match s.phase {
        PhaseView::Inspecting | PhaseView::RemovingFile | PhaseView::Finished => s.dir is None && !s.parent_open,
        PhaseView::OpeningParent { .. } => s.dir matches Some(f) && f.stage == Stage::Opening && !s.parent_open,
        PhaseView::Walking => s.dir is Some,
        PhaseView::ClosingParent => s.dir is None && s.parent_open,
        PhaseView::Unwinding { .. } => (s.dir is Some || s.parent_open) && (s.dir matches Some(f) ==> holds_fd(
            f.stage,
        )),
    }
}

// ---------------------------------------------------------------------------
// The executable removal
// ---------------------------------------------------------------------------

proof fn lemma_map_push<A, B>(s: Seq<A>, x: A, f: spec_fn(A) -> B)
    ensures
        s.push(x).map_values(f) == s.map_values(f).push(f(x)),
{
    assert(s.push(x).map_values(f) =~= s.map_values(f).push(f(x)));
}

/// No lines.
fn no_lines() -> (r: Vec<Vec<u8>>)
    ensures
        names_view(r@) == Seq::<Seq<u8>>::empty(),
{
    let r: Vec<Vec<u8>> = Vec::new();
    assert(names_view(r@) =~= Seq::<Seq<u8>>::empty());
    r
}

/// The lines an outcome prints.
fn lines_from(r: &Result<Option<Vec<u8>>, RumError>) -> (lines: Vec<Vec<u8>>)
    ensures
        names_view(lines@) == lines_of(outcome_view(*r)),
{
    let mut lines = no_lines();
    if let Ok(Some(line)) = r {
        let c = copy_bytes(line.as_slice());
        proof { lemma_map_push(lines@, c, |x: Vec<u8>| x@); }
        lines.push(c);
        assert(names_view(lines@) =~= seq![line@]);
    }
    lines
}

/// A fresh copy of a list of names.
fn copy_names(names: &Vec<Vec<u8>>) -> (r: Vec<Vec<u8>>)
    ensures
        names_view(r@) == names_view(names@),
{
    let mut r: Vec<Vec<u8>> = Vec::new();
    let mut i: usize = 0;
    while i < names.len()
        invariant
            i <= names@.len(),
            names_view(r@) == names_view(names@.take(i as int)),
        decreases names@.len() - i,
    {
        let c = copy_bytes(names[i].as_slice());
        proof {
            lemma_map_push(r@, c, |x: Vec<u8>| x@);
            assert(names@.take(i + 1) == names@.take(i as int).push(names@[i as int]));
            lemma_map_push(names@.take(i as int), names@[i as int], |x: Vec<u8>| x@);
        }
        r.push(c);
        i = i + 1;
    }
    assert(names@.take(i as int) == names@);
    r
}

/// The names of the entries of `kind` among `entries`.
fn select_entries(entries: &Vec<Entry>, kind: EntryKind) -> (r: Vec<Vec<u8>>)
    ensures
        names_view(r@) == names_of(entries@.map_values(|e: Entry| e@), kind),
{
    let ghost ev = entries@.map_values(|e: Entry| e@);
    let mut out: Vec<Vec<u8>> = Vec::new();
    let mut i: usize = 0;
    while i < entries.len()
        invariant
            i <= entries@.len(),
            ev == entries@.map_values(|e: Entry| e@),
            names_view(out@) == names_of(ev.take(i as int), kind),
        decreases entries@.len() - i,
    {
        let e = &entries[i];
        proof {
            assert(ev.take(i + 1).drop_last() == ev.take(i as int));
            assert(ev.take(i + 1).last() == ev[i as int]);
            assert(ev[i as int] == (e.name@, e.kind));
        }
        let dots = is_dot_or_dotdot(e.name.as_slice());
        if !dots && e.kind == kind {
            let c = copy_bytes(e.name.as_slice());
            proof { lemma_map_push(out@, c, |x: Vec<u8>| x@); }
            out.push(c);
        }
        i = i + 1;
    }
    assert(ev.take(i as int) == ev);
    out
}

/// The lines and the first error of a batch of files of the directory at
/// `dir` unlinked with `results`.
fn settle_batch(dir: &[u8], opts: Options, names: &Vec<Vec<u8>>, results: &Vec<Result<(), IoCause>>) -> (r: (
    Vec<Vec<u8>>,
    Option<RumError>,
))
    requires
        names@.len() == results@.len(),
    ensures
        names_view(r.0@) == batch_lines(dir@, opts, names_view(names@), results@),
        opt_error(&r.1) == batch_error(dir@, opts, names_view(names@), results@),
{
    let ghost nv = names_view(names@);
    let mut lines = no_lines();
    let mut first: Option<RumError> = None;
    let mut i: usize = 0;
    while i < names.len()
        invariant
            i <= names@.len(),
            names@.len() == results@.len(),
            nv == names_view(names@),
            names_view(lines@) == batch_lines(dir@, opts, nv.take(i as int), results@.take(i as int)),
            opt_error(&first) == batch_error(dir@, opts, nv.take(i as int), results@.take(i as int)),
        decreases names@.len() - i,
    {
        let outcome = unlink_child(names[i].as_slice(), dir, opts, false, results[i]);
        let new_lines = lines_from(&outcome);
        proof {
            assert(nv.take(i + 1).drop_last() =~= nv.take(i as int));
            assert(results@.take(i + 1).drop_last() =~= results@.take(i as int));
            assert(nv.take(i + 1).last() == names@[i as int]@);
            assert(results@.take(i + 1).last() == results@[i as int]);
        }
        let mut k: usize = 0;
        let ghost before = lines@;
        while k < new_lines.len()
            invariant
                k <= new_lines@.len(),
                names_view(lines@) == names_view(before) + names_view(new_lines@).take(k as int),
            decreases new_lines@.len() - k,
        {
            let c = copy_bytes(new_lines[k].as_slice());
            proof {
                lemma_map_push(lines@, c, |x: Vec<u8>| x@);
                assert(names_view(new_lines@).take(k + 1) =~= names_view(new_lines@).take(k as int).push(
                    new_lines@[k as int]@,
                ));
            }
            lines.push(c);
            k = k + 1;
        }
        assert(names_view(new_lines@).take(k as int) =~= names_view(new_lines@));
        if first.is_none() {
            match outcome {
                Err(e) => {
                    first = Some(e);
                },
                Ok(_) => {},
            }
        }
        i = i + 1;
    }
    assert(nv.take(i as int) =~= nv);
    assert(results@.take(i as int) =~= results@);
    (lines, first)
}

/// The directory being removed.
struct Frame {
    name: Vec<u8>,
    path: Vec<u8>,
    stage: Stage,
    files: Vec<Vec<u8>>,
    subdirs: Vec<Vec<u8>>,
    unknown: Vec<Vec<u8>>,
}

impl View for Frame {
    type V = FrameView;

    closed spec fn view(&self) -> FrameView {
        FrameView {
            name: self.name@,
            path: self.path@,
            stage: self.stage,
            files: names_view(self.files@),
            subdirs: names_view(self.subdirs@),
            unknown: names_view(self.unknown@),
        }
    }
}

impl Frame {
    fn fresh(name: Vec<u8>, path: Vec<u8>) -> (r: Frame)
        ensures
            r@ == new_frame(name@, path@),
    {
        let r = Frame {
            name,
            path,
            stage: Stage::Opening,
            files: Vec::new(),
            subdirs: Vec::new(),
            unknown: Vec::new(),
        };
        assert(r@.files =~= seq![]);
        assert(r@.subdirs =~= seq![]);
        assert(r@.unknown =~= seq![]);
        r
    }
}

/// Where the removal stands.
enum Phase {
    Inspecting,
    RemovingFile,
    OpeningParent { parent: Vec<u8> },
    Walking,
    ClosingParent,
    Unwinding { error: RumError },
    Finished,
}

impl View for Phase {
    type V = PhaseView;

    closed spec fn view(&self) -> PhaseView {
        match self {
            Phase::Inspecting => PhaseView::Inspecting,
            Phase::RemovingFile => PhaseView::RemovingFile,
            Phase::OpeningParent { parent } => PhaseView::OpeningParent { parent: parent@ },
            Phase::Walking => PhaseView::Walking,
            Phase::ClosingParent => PhaseView::ClosingParent,
            Phase::Unwinding { error } => PhaseView::Unwinding { error: error@ },
            Phase::Finished => PhaseView::Finished,
        }
    }
}

/// The state of a removal, with no invariant attached.
struct Core {
    opts: Options,
    operands: Vec<Operand>,
    next: usize,
    phase: Phase,
    dir: Option<Frame>,
    parent_open: bool,
    errors: Vec<RumError>,
}

impl View for Core {
    type V = RemovalView;

    closed spec fn view(&self) -> RemovalView {
        RemovalView {
            opts: self.opts,
            operands: self.operands@.map_values(|o: Operand| o@),
            next: self.next as nat,
            phase: self.phase@,
            dir: match self.dir {
                Some(f) => Some(f@),
                None => None,
            },
            parent_open: self.parent_open,
            errors: self.errors@.map_values(|e: RumError| e@),
        }
    }
}

/// The value of an error that may be absent.
pub open spec fn opt_error(o: &Option<RumError>) -> Option<RumErrorView> {
    match o {
        Some(e) => Some(e@),
        None => None,
    }
}

/// The removal of `operands` before anything has been done.
pub open spec fn initial(opts: Options, operands: Seq<OperandView>) -> RemovalView {
    begin(
        RemovalView {
            opts,
            operands,
            next: 0,
            phase: PhaseView::Finished,
            dir: None,
            parent_open: false,
            errors: seq![],
        },
    )
}

/// The removal, by a machine of its own, of the subdirectory `name` of the
/// directory at `dir_path`, opened from the directory the driver hands it.
pub open spec fn subdirectory_initial(dir_path: Seq<u8>, name: Seq<u8>, opts: Options) -> RemovalView {
    let path = spec_join(dir_path, name);
    RemovalView {
        opts: Options { recursive: true, ..opts },
        operands: seq![OperandView { path, file_name: Some(name), parent: None }],
        next: 0,
        phase: PhaseView::Walking,
        dir: Some(new_frame(name, path)),
        parent_open: false,
        errors: seq![],
    }
}

impl Core {
    fn begin(&mut self)
        ensures
            final(self)@ == begin(old(self)@),
    {
        if self.next < self.operands.len() {
            self.phase = Phase::Inspecting;
        } else {
            self.phase = Phase::Finished;
        }
    }

    fn finish(&mut self, err: Option<RumError>)
        requires
            old(self)@.next < old(self)@.operands.len(),
        ensures
            final(self)@ == finish(old(self)@, opt_error(&err)),
    {
        let ghost old_errors = self.errors@;
        let count = self.operands.len();
        assert(self@.operands.len() == count);
        self.next = self.next + 1;
        self.dir = None;
        self.parent_open = false;
        match err {
            Some(e) => {
                proof { lemma_map_push(old_errors, e, |x: RumError| x@); }
                self.errors.push(e);
            },
            None => {},
        }
        self.begin();
    }

    fn fail(&mut self, e: RumError)
        requires
            old(self)@.next < old(self)@.operands.len(),
        ensures
            final(self)@ == fail(old(self)@, e@),
    {
        let holds = match &self.dir {
            Some(f) => match f.stage {
                Stage::Opening | Stage::Removing => false,
                _ => true,
            },
            None => false,
        };
        if !holds {
            self.dir = None;
        }
        if self.dir.is_some() || self.parent_open {
            self.phase = Phase::Unwinding { error: e };
        } else {
            self.finish(Some(e));
        }
    }

    fn resume(&mut self)
        requires
            old(self)@.next < old(self)@.operands.len(),
        ensures
            final(self)@ == resume(old(self)@),
    {
        if self.parent_open {
            self.phase = Phase::ClosingParent;
            self.dir = None;
        } else {
            self.finish(None);
        }
    }

    fn set_stage(&mut self, stage: Stage)
        requires
            old(self)@.dir is Some,
        ensures
            final(self)@ == at_stage(old(self)@, stage),
    {
        let mut f = self.dir.take().unwrap();
        f.stage = stage;
        self.dir = Some(f);
    }

    fn classify(&mut self, kind: Option<bool>)
        requires
            old(self)@.dir is Some,
            old(self)@.dir->0.unknown.len() > 0,
        ensures
            final(self)@ == classified(old(self)@, kind),
    {
        let mut f = self.dir.take().unwrap();
        let ghost g = f@;
        let name = f.unknown.remove(0);
        assert(names_view(f.unknown@) =~= g.unknown.drop_first());
        match kind {
            Some(true) => {
                proof { lemma_map_push(f.subdirs@, name, |x: Vec<u8>| x@); }
                f.subdirs.push(name);
            },
            Some(false) => {
                proof { lemma_map_push(f.files@, name, |x: Vec<u8>| x@); }
                f.files.push(name);
            },
            None => {},
        }
        f.stage = if f.unknown.len() > 0 {
            Stage::Classifying
        } else if f.files.len() > 0 {
            Stage::RemovingFiles
        } else if f.subdirs.len() > 0 {
            Stage::RemovingSubdirs
        } else {
            Stage::Closing
        };
        self.dir = Some(f);
    }

    fn start_tree(&mut self)
        requires
            old(self)@.next < old(self)@.operands.len(),
        ensures
            final(self)@ == start_tree(old(self)@),
    {
        let i = self.next;
        let path = copy_bytes(self.operands[i].path.as_slice());
        let file_name = match &self.operands[i].file_name {
            Some(n) => Some(copy_bytes(n.as_slice())),
            None => None,
        };
        let parent = parent_to_open(&self.operands[i].parent);
        match file_name {
            None => {
                self.finish(Some(RumError::Io { path, source: IoCause::NoFileName }));
            },
            Some(name) => {
                if has_nul(name.as_slice()) {
                    self.finish(Some(RumError::Io { path: name, source: IoCause::NulInName }));
                } else {
                    self.dir = Some(Frame::fresh(name, path));
                    match parent {
                        Some(p) => {
                            self.phase = Phase::OpeningParent { parent: p };
                        },
                        None => {
                            self.phase = Phase::Walking;
                        },
                    }
                }
            },
        }
    }

    fn walk(&mut self, e: Event) -> (r: Vec<Vec<u8>>)
        requires
            wf(old(self)@),
            old(self)@.phase is Walking,
        ensures
            (final(self)@, names_view(r@)) == walk(old(self)@, e@),
    {
        let opts = self.opts;
        let (stage, path, has_subdirs) = match &self.dir {
            Some(f) => (f.stage, copy_bytes(f.path.as_slice()), f.subdirs.len() > 0),
            None => {
                return no_lines();
            },
        };
        match stage {
            Stage::Opening => match e {
                Event::Done => {
                    self.set_stage(Stage::Reading);
                    no_lines()
                },
                Event::Failed { cause } => {
                    match settle(path.as_slice(), opts, true, Err(cause)) {
                        Ok(_) => self.resume(),
                        Err(err) => self.fail(err),
                    }
                    no_lines()
                },
                _ => no_lines(),
            },
            Stage::Reading => match e {
                Event::Entries { entries } => {
                    let files = select_entries(&entries, EntryKind::NotDirectory);
                    let subdirs = select_entries(&entries, EntryKind::Directory);
                    let unknown = select_entries(&entries, EntryKind::Unknown);
                    let mut f = self.dir.take().unwrap();
                    let stage = if unknown.len() > 0 {
                        Stage::Classifying
                    } else if files.len() > 0 {
                        Stage::RemovingFiles
                    } else if subdirs.len() > 0 {
                        Stage::RemovingSubdirs
                    } else {
                        Stage::Closing
                    };
                    f.files = files;
                    f.subdirs = subdirs;
                    f.unknown = unknown;
                    f.stage = stage;
                    self.dir = Some(f);
                    no_lines()
                },
                Event::Failed { cause } => {
                    match settle(path.as_slice(), opts, true, Err(cause)) {
                        Ok(_) => self.set_stage(Stage::Abandoning),
                        Err(err) => self.fail(err),
                    }
                    no_lines()
                },
                _ => no_lines(),
            },
            Stage::Classifying => match e {
                Event::Metadata { is_dir } => {
                    self.classify(Some(is_dir));
                    no_lines()
                },
                Event::Failed { cause } => {
                    let child = match &self.dir {
                        Some(f) => join_child(path.as_slice(), f.unknown[0].as_slice()),
                        None => {
                            return no_lines();
                        },
                    };
                    match settle(child.as_slice(), opts, false, Err(cause)) {
                        Ok(_) => self.classify(None),
                        Err(err) => self.fail(err),
                    }
                    no_lines()
                },
                _ => no_lines(),
            },
            Stage::RemovingFiles => match e {
                Event::FilesRemoved { results } => {
                    let (lines, first) = match &self.dir {
                        Some(f) => {
                            if results.len() != f.files.len() {
                                return no_lines();
                            }
                            settle_batch(path.as_slice(), opts, &f.files, &results)
                        },
                        None => {
                            return no_lines();
                        },
                    };
                    match first {
                        None => {
                            if has_subdirs {
                                self.set_stage(Stage::RemovingSubdirs);
                            } else {
                                self.set_stage(Stage::Closing);
                            }
                        },
                        Some(err) => self.fail(err),
                    }
                    lines
                },
                _ => no_lines(),
            },
            Stage::RemovingSubdirs => match e {
                Event::SubdirsRemoved { removals } => {
                    let ok = match &self.dir {
                        Some(f) => answer_matches(&removals, self.opts, path.as_slice(), &f.subdirs),
                        None => false,
                    };
                    if !ok {
                        return no_lines();
                    }
                    match first_error_of(&removals) {
                        None => self.set_stage(Stage::Closing),
                        Some(err) => self.fail(err),
                    }
                    no_lines()
                },
                _ => no_lines(),
            },
            Stage::Closing => match e {
                Event::Done => {
                    self.set_stage(Stage::Removing);
                    no_lines()
                },
                _ => no_lines(),
            },
            Stage::Removing => {
                let result = match e {
                    Event::Done => Ok(()),
                    Event::Failed { cause } => Err(cause),
                    _ => {
                        return no_lines();
                    },
                };
                let outcome = settle(path.as_slice(), opts, true, result);
                let lines = lines_from(&outcome);
                match outcome {
                    Ok(_) => {
                        self.resume();
                        lines
                    },
                    Err(err) => {
                        self.fail(err);
                        no_lines()
                    },
                }
            },
            Stage::Abandoning => match e {
                Event::Done => {
                    self.resume();
                    no_lines()
                },
                _ => no_lines(),
            },
        }
    }

    fn advance(&mut self, e: Event) -> (r: Vec<Vec<u8>>)
        requires
            wf(old(self)@),
        ensures
            (final(self)@, names_view(r@)) == spec_next(old(self)@, e@),
    {
        let opts = self.opts;
        match &self.phase {
            Phase::Inspecting => {
                let path = copy_bytes(self.operands[self.next].path.as_slice());
                match e {
                    Event::Metadata { is_dir } => {
                        if !is_dir {
                            self.phase = Phase::RemovingFile;
                        } else if opts.recursive {
                            self.start_tree();
                        } else {
                            self.finish(Some(RumError::IsDirectory { path }));
                        }
                        no_lines()
                    },
                    Event::Failed { cause } => {
                        match settle(path.as_slice(), opts, false, Err(cause)) {
                            Ok(_) => self.finish(None),
                            Err(err) => self.finish(Some(err)),
                        }
                        no_lines()
                    },
                    _ => no_lines(),
                }
            },
            Phase::RemovingFile => {
                let result = match e {
                    Event::Done => Ok(()),
                    Event::Failed { cause } => Err(cause),
                    _ => {
                        return no_lines();
                    },
                };
                let path = copy_bytes(self.operands[self.next].path.as_slice());
                let outcome = settle(path.as_slice(), opts, false, result);
                let lines = lines_from(&outcome);
                match outcome {
                    Ok(_) => self.finish(None),
                    Err(err) => self.finish(Some(err)),
                }
                lines
            },
            Phase::OpeningParent { parent } => {
                let parent = copy_bytes(parent.as_slice());
                match e {
                    Event::Done => {
                        self.phase = Phase::Walking;
                        self.parent_open = true;
                        no_lines()
                    },
                    Event::Failed { cause } => {
                        match settle(parent.as_slice(), opts, true, Err(cause)) {
                            Ok(_) => self.finish(None),
                            Err(err) => self.finish(Some(err)),
                        }
                        no_lines()
                    },
                    _ => no_lines(),
                }
            },
            Phase::Walking => self.walk(e),
            Phase::ClosingParent => match e {
                Event::Done => {
                    self.finish(None);
                    no_lines()
                },
                _ => no_lines(),
            },
            Phase::Unwinding { error } => {
                let error = error.duplicate();
                match e {
                    Event::Done => {
                        if self.dir.is_some() {
                            self.dir = None;
                        } else {
                            self.parent_open = false;
                        }
                        if self.dir.is_none() && !self.parent_open {
                            self.finish(Some(error));
                        }
                        no_lines()
                    },
                    _ => no_lines(),
                }
            },
            Phase::Finished => no_lines(),
        }
    }

    fn pending(&self) -> (r: Action)
        requires
            wf(self@),
        ensures
            r@ == pending(self@),
    {
        match &self.phase {
            Phase::Inspecting => Action::Inspect { path: copy_bytes(self.operands[self.next].path.as_slice()) },
            Phase::RemovingFile => Action::RemoveFile {
                path: copy_bytes(self.operands[self.next].path.as_slice()),
            },
            Phase::OpeningParent { parent } => Action::OpenParent { path: copy_bytes(parent.as_slice()) },
            Phase::Walking => match &self.dir {
                Some(f) => match f.stage {
                    Stage::Opening => Action::OpenDir { name: copy_bytes(f.name.as_slice()) },
                    Stage::Reading => Action::ReadDir,
                    Stage::Classifying => Action::InspectEntry { name: copy_bytes(f.unknown[0].as_slice()) },
                    Stage::RemovingFiles => Action::UnlinkFiles {
                        dir_path: copy_bytes(f.path.as_slice()),
                        names: copy_names(&f.files),
                    },
                    Stage::RemovingSubdirs => Action::RemoveSubdirs {
                        dir_path: copy_bytes(f.path.as_slice()),
                        names: copy_names(&f.subdirs),
                    },
                    Stage::Closing => Action::CloseDir,
                    Stage::Removing => Action::RemoveDir { name: copy_bytes(f.name.as_slice()) },
                    Stage::Abandoning => Action::CloseDir,
                },
                None => Action::Finish,
            },
            Phase::ClosingParent => Action::CloseDir,
            Phase::Unwinding { .. } => Action::CloseDir,
            Phase::Finished => Action::Finish,
        }
    }

    /// A finished removal of nothing.
    fn parked(opts: Options) -> (r: Core)
        ensures
            wf(r@),
    {
        Core {
            opts,
            operands: Vec::new(),
            next: 0,
            phase: Phase::Finished,
            dir: None,
            parent_open: false,
            errors: Vec::new(),
        }
    }
}

/// The directory to open before the walk, as a fresh vector.
fn parent_to_open(parent: &Option<Vec<u8>>) -> (r: Option<Vec<u8>>)
    ensures
        opt_bytes(r) == useful_parent(opt_bytes(*parent)),
{
    match parent {
        None => None,
        Some(p) => {
            let n = p.len();
            if n == 0 {
                None
            } else if n == 1 && p[0] == DOT {
                assert(p@ =~= seq![DOT]);
                None
            } else {
                proof {
                    if p@ == seq![DOT] {
                        assert(p@[0] == DOT);
                    }
                }
                Some(copy_bytes(p.as_slice()))
            }
        },
    }
}

/// Whether `removals` answer the removal of the subdirectories `names` of
/// the directory at `dir_path`.
fn answer_matches(removals: &Vec<Removal>, opts: Options, dir_path: &[u8], names: &Vec<Vec<u8>>) -> (r: bool)
    ensures
        r == answers_subdirectories(removals@.map_values(|x: Removal| x@), opts, dir_path@, names_view(names@)),
{
    let ghost rv = removals@.map_values(|x: Removal| x@);
    let ghost nv = names_view(names@);
    if removals.len() != names.len() {
        return false;
    }
    let mut i: usize = 0;
    while i < names.len()
        invariant
            i <= names@.len(),
            removals@.len() == names@.len(),
            rv == removals@.map_values(|x: Removal| x@),
            nv == names_view(names@),
            forall|j: int| 0 <= j < i ==> answers_subdirectory(#[trigger] rv[j], opts, dir_path@, nv[j]),
        decreases names@.len() - i,
    {
        let r = &removals[i];
        proof { use_type_invariant(r); }
        let expected = join_child(dir_path, names[i].as_slice());
        let same_opts = r.core.opts.recursive == opts.recursive && r.core.opts.force == opts.force
            && r.core.opts.verbose == opts.verbose;
        let good = same_opts && r.is_finished() && r.core.operands.len() == 1 && bytes_eq(
            r.core.operands[0].path.as_slice(),
            expected.as_slice(),
        ) && match &r.core.operands[0].file_name {
            Some(n) => bytes_eq(n.as_slice(), names[i].as_slice()),
            None => false,
        } && r.core.operands[0].parent.is_none();
        proof {
            assert(rv[i as int] == r@);
            if good {
                assert(r@.operands =~= seq![
                    OperandView { path: spec_join(dir_path@, nv[i as int]), file_name: Some(nv[i as int]), parent: None },
                ]);
            } else if r@.phase is Finished && r@.operands.len() == 1 {
                let o = r@.operands[0];
                assert(o == r.core.operands@[0]@);
            }
        }
        if !good {
            return false;
        }
        i = i + 1;
    }
    true
}

/// The first error met by any of `removals`, in order.
fn first_error_of(removals: &Vec<Removal>) -> (r: Option<RumError>)
    ensures
        opt_error(&r) == first_error(removals@.map_values(|x: Removal| x@)),
{
    let ghost rv = removals@.map_values(|x: Removal| x@);
    let mut i: usize = 0;
    while i < removals.len()
        invariant
            i <= removals@.len(),
            rv == removals@.map_values(|x: Removal| x@),
            first_error(rv.take(i as int)) is None,
        decreases removals@.len() - i,
    {
        let r = &removals[i];
        proof {
            assert(rv.take(i + 1).drop_last() =~= rv.take(i as int));
            assert(rv.take(i + 1).last() == r@);
        }
        if r.core.errors.len() > 0 {
            let e = r.core.errors[0].duplicate();
            proof {
                lemma_first_error_prefix(rv, i as int + 1);
            }
            return Some(e);
        }
        i = i + 1;
    }
    assert(rv.take(i as int) =~= rv);
    None
}

/// Once an error is found among the first removals, it is the first error
/// of them all.
proof fn lemma_first_error_prefix(rs: Seq<RemovalView>, k: int)
    requires
        0 <= k <= rs.len(),
        first_error(rs.take(k)) is Some,
    ensures
        first_error(rs) == first_error(rs.take(k)),
    decreases rs.len() - k,
{
    if k < rs.len() {
        assert(rs.take(k + 1).drop_last() =~= rs.take(k));
        lemma_first_error_prefix(rs, k + 1);
    } else {
        assert(rs.take(k) =~= rs);
    }
}

/// The removal of a list of paths, one after another, as a machine that asks
/// a driver for one operation at a time and is told how it went.
pub struct Removal {
    core: Core,
}

impl Removal {
    #[verifier::type_invariant]
    spec fn inv(self) -> bool {
        wf(self.core@)
    }
}

impl View for Removal {
    type V = RemovalView;

    closed spec fn view(&self) -> RemovalView {
        self.core@
    }
}

impl Removal {
    /// A removal of `operands`, in order, that has done nothing yet.
    pub fn new(operands: Vec<Operand>, opts: Options) -> (r: Removal)
        ensures
            r@ == initial(opts, operands@.map_values(|o: Operand| o@)),
            wf(r@),
    {
        let mut core = Core {
            opts,
            operands,
            next: 0,
            phase: Phase::Finished,
            dir: None,
            parent_open: false,
            errors: Vec::new(),
        };
        core.begin();
        assert(core@.errors =~= seq![]);
        Removal { core }
    }

    /// The removal of the subdirectory `name` of the directory at `dir_path`,
    /// which the driver has open: a walk of its own, recursive whatever
    /// `opts` says, that starts by opening `name` from that directory.
    pub fn subdirectory(dir_path: &[u8], name: &[u8], opts: Options) -> (r: Removal)
        ensures
            r@ == subdirectory_initial(dir_path@, name@, opts),
            wf(r@),
    {
        let path = join_child(dir_path, name);
        let operand = Operand { path: copy_bytes(path.as_slice()), file_name: Some(copy_bytes(name)), parent: None };
        let mut operands: Vec<Operand> = Vec::new();
        operands.push(operand);
        let core = Core {
            opts: Options { recursive: true, force: opts.force, verbose: opts.verbose },
            operands,
            next: 0,
            phase: Phase::Walking,
            dir: Some(Frame::fresh(copy_bytes(name), path)),
            parent_open: false,
            errors: Vec::new(),
        };
        assert(core@.operands =~= seq![
            OperandView { path: spec_join(dir_path@, name@), file_name: Some(name@), parent: None },
        ]);
        assert(core@.errors =~= seq![]);
        Removal { core }
    }

    /// The operation the removal waits for.
    pub fn next_action(&self) -> (r: Action)
        ensures
            r@ == pending(self@),
            wf(self@),
    {
        proof { use_type_invariant(self); }
        self.core.pending()
    }

    /// Takes in how the pending operation went; returns the lines to print
    /// and the next operation.
    pub fn step(&mut self, event: Event) -> (r: Step)
        ensures
            final(self)@ == spec_next(old(self)@, event@).0,
            names_view(r.lines@) == spec_next(old(self)@, event@).1,
            r.action@ == pending(final(self)@),
            wf(final(self)@),
    {
        proof { use_type_invariant(&*self); }
        let ghost s = self.core@;
        let ghost ev = event@;
        let opts = self.core.opts;
        let mut core = Core::parked(opts);
        std::mem::swap(&mut core, &mut self.core);
        let lines = core.advance(event);
        proof { crate::laws::lemma_step_preserves_wf(s, ev); }
        self.core = core;
        let action = self.core.pending();
        Step { lines, action }
    }

    /// Whether every path has been dealt with.
    pub fn is_finished(&self) -> (r: bool)
        ensures
            r == (self@.phase is Finished),
    {
        match self.core.phase {
            Phase::Finished => true,
            _ => false,
        }
    }

    /// The errors met so far, in the order of the paths they belong to; none
    /// is about a missing path under `force`, nor an "is a directory" error
    /// under `recursive`.
    pub fn errors(&self) -> (r: &Vec<RumError>)
        ensures
            r@.map_values(|e: RumError| e@) == self@.errors,
            forall|i: int| 0 <= i < self@.errors.len() ==> owed_error(self@.opts, #[trigger] self@.errors[i]),
    {
        proof { use_type_invariant(&self); }
        &self.core.errors
    }

    /// The errors met, giving up the removal.
    pub fn into_errors(self) -> (r: Vec<RumError>)
        ensures
            r@.map_values(|e: RumError| e@) == self@.errors,
            forall|i: int| 0 <= i < self@.errors.len() ==> owed_error(self@.opts, #[trigger] self@.errors[i]),
    {
        proof { use_type_invariant(&self); }
        self.core.errors
    }
}

} // verus!
