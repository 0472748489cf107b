//! The library's single-step decisions, on concrete values.

use rum::errno::{not_found, ENOENT};
use rum::error::{io_err, IoCause, RumError};
use rum::machine::{Action, Entry, EntryKind, Event, Operand, Removal, Step};
use rum::names::{has_nul, is_dot_or_dotdot, join_child};
use rum::options::Options;
use rum::outcome::{exit_code, log_removed_dir, remove_file_path, unlink_child};

fn verbose() -> Options {
    Options { recursive: false, force: false, verbose: true }
}

fn forced() -> Options {
    Options { recursive: false, force: true, verbose: false }
}

#[test]
fn dot_names_are_recognised() {
    assert!(is_dot_or_dotdot(b"."));
    assert!(is_dot_or_dotdot(b".."));
    assert!(!is_dot_or_dotdot(b"..."));
    assert!(!is_dot_or_dotdot(b".a"));
    assert!(!is_dot_or_dotdot(b""));
}

#[test]
fn nul_bytes_are_found() {
    assert!(has_nul(b"a\0b"));
    assert!(!has_nul(b"abc"));
    assert!(!has_nul(b""));
}

#[test]
fn join_inserts_one_separator() {
    assert_eq!(join_child(b"a", b"b"), b"a/b".to_vec());
    assert_eq!(join_child(b"a/", b"b"), b"a/b".to_vec());
    assert_eq!(join_child(b"", b"b"), b"b".to_vec());
    assert_eq!(join_child(b"a", b"/abs"), b"/abs".to_vec());
}

#[test]
fn not_found_is_enoent_only() {
    assert!(not_found(IoCause::Os { code: ENOENT }));
    assert!(!not_found(IoCause::Os { code: 13 }));
    assert!(!not_found(IoCause::Os { code: 0 }));
    assert!(!not_found(IoCause::Os { code: 70000 }));
    assert!(!not_found(IoCause::Other));
    assert!(!not_found(IoCause::NulInName));
}

#[test]
fn error_messages() {
    let e = io_err(b"x/y", 13);
    assert_eq!(e.path(), b"x/y");
    assert_eq!(e.source(), Some(IoCause::Os { code: 13 }));
    assert_eq!(
        String::from_utf8(e.message(b"Permission denied (os error 13)")).unwrap(),
        "cannot remove 'x/y': Permission denied (os error 13)"
    );
    let d = RumError::IsDirectory { path: b"d".to_vec() };
    assert_eq!(d.source(), None);
    assert_eq!(d.path(), b"d");
    let n = RumError::Io { path: b"a\0b".to_vec(), source: IoCause::NulInName };
    assert_eq!(String::from_utf8(n.message(b"ignored")).unwrap(), "cannot remove 'a\0b': path contains NUL byte");
    assert_eq!(n.duplicate(), n);
}

#[test]
fn removed_directory_line_only_when_verbose() {
    assert_eq!(log_removed_dir(b"d/e", verbose()), Some(b"removed directory 'd/e'".to_vec()));
    assert_eq!(log_removed_dir(b"d/e", Options::default()), None);
}

#[test]
fn file_outcomes() {
    assert_eq!(remove_file_path(b"f", verbose(), Ok(())), Ok(Some(b"removed 'f'".to_vec())));
    assert_eq!(remove_file_path(b"f", Options::default(), Ok(())), Ok(None));
    assert_eq!(remove_file_path(b"f", forced(), Err(IoCause::Os { code: 2 })), Ok(None));
    assert_eq!(
        remove_file_path(b"f", forced(), Err(IoCause::Os { code: 13 })),
        Err(RumError::Io { path: b"f".to_vec(), source: IoCause::Os { code: 13 } })
    );
    assert_eq!(
        remove_file_path(b"f", Options::default(), Err(IoCause::Os { code: 2 })),
        Err(RumError::Io { path: b"f".to_vec(), source: IoCause::Os { code: 2 } })
    );
}

#[test]
fn child_outcomes_speak_of_the_full_path() {
    assert_eq!(unlink_child(b"c", b"p", verbose(), false, Ok(())), Ok(Some(b"removed 'p/c'".to_vec())));
    assert_eq!(unlink_child(b"c", b"p", verbose(), true, Ok(())), Ok(Some(b"removed directory 'p/c'".to_vec())));
    assert_eq!(unlink_child(b"c", b"p", forced(), false, Err(IoCause::Os { code: 2 })), Ok(None));
    assert_eq!(
        unlink_child(b"c", b"p/", Options::default(), false, Err(IoCause::Os { code: 21 })),
        Err(RumError::Io { path: b"p/c".to_vec(), source: IoCause::Os { code: 21 } })
    );
}

#[test]
fn exit_status() {
    assert_eq!(exit_code(&[]), 0);
    assert_eq!(exit_code(&[RumError::IsDirectory { path: b"d".to_vec() }]), 1);
}

#[test]
fn default_options_are_all_off() {
    let o = Options::default();
    assert!(!o.recursive && !o.force && !o.verbose);
}

#[test]
fn machine_with_nothing_to_do_is_finished() {
    let m = Removal::new(Vec::new(), Options::default());
    assert!(m.is_finished());
    assert_eq!(m.next_action(), Action::Finish);
    assert!(m.errors().is_empty());
}

#[test]
fn subdirectory_removal_starts_by_opening_it() {
    let mut m = Removal::subdirectory(b"top", b"sub", Options::default());
    assert!(!m.is_finished());
    assert_eq!(m.next_action(), Action::OpenDir { name: b"sub".to_vec() });
    assert_eq!(m.step(Event::Done), Step { lines: Vec::new(), action: Action::ReadDir });
    let step = m.step(Event::Failed { cause: IoCause::Os { code: 13 } });
    assert_eq!(step.action, Action::CloseDir);
    let step = m.step(Event::Done);
    assert_eq!(step.action, Action::Finish);
    assert_eq!(m.into_errors(), vec![RumError::Io { path: b"top/sub".to_vec(), source: IoCause::Os { code: 13 } }]);
}

#[test]
fn a_mismatched_answer_changes_nothing() {
    let op = Operand { path: b"f".to_vec(), file_name: Some(b"f".to_vec()), parent: Some(Vec::new()) };
    let mut m = Removal::new(vec![op], Options::default());
    let step = m.step(Event::Done);
    assert_eq!(step.action, Action::Inspect { path: b"f".to_vec() });
    assert!(step.lines.is_empty());
}

/// A removal of the directory `d` holding the one subdirectory `s`, brought
/// to the point where it asks for that subdirectory to be removed.
fn parent_waiting_for_subdirectory(opts: Options) -> Removal {
    let op = Operand { path: b"d".to_vec(), file_name: Some(b"d".to_vec()), parent: None };
    let mut m = Removal::new(vec![op], opts);
    assert_eq!(m.step(Event::Metadata { is_dir: true }).action, Action::OpenDir { name: b"d".to_vec() });
    assert_eq!(m.step(Event::Done).action, Action::ReadDir);
    let entries = vec![Entry { name: b"s".to_vec(), kind: EntryKind::Directory }];
    let step = m.step(Event::Entries { entries });
    assert_eq!(step.action, Action::RemoveSubdirs { dir_path: b"d".to_vec(), names: vec![b"s".to_vec()] });
    m
}

#[test]
fn subdirectory_answer_must_share_the_options() {
    let opts = Options { recursive: true, force: true, verbose: false };
    let mut parent = parent_waiting_for_subdirectory(opts);

    // A removal of `d/s` run without `force` records the missing path.
    let strict = Options { recursive: true, force: false, verbose: false };
    let mut other = Removal::subdirectory(b"d", b"s", strict);
    assert_eq!(other.next_action(), Action::OpenDir { name: b"s".to_vec() });
    let step = other.step(Event::Failed { cause: IoCause::Os { code: ENOENT } });
    assert_eq!(step.action, Action::Finish);
    assert_eq!(other.errors().len(), 1);
    let step = parent.step(Event::SubdirsRemoved { removals: vec![other] });
    assert_eq!(step.action, Action::RemoveSubdirs { dir_path: b"d".to_vec(), names: vec![b"s".to_vec()] });
    assert!(parent.errors().is_empty());

    // The one run with the parent's options forgives it.
    let mut child = Removal::subdirectory(b"d", b"s", opts);
    let step = child.step(Event::Failed { cause: IoCause::Os { code: ENOENT } });
    assert_eq!(step.action, Action::Finish);
    assert!(child.errors().is_empty());
    let step = parent.step(Event::SubdirsRemoved { removals: vec![child] });
    assert_eq!(step.action, Action::CloseDir);
    assert_eq!(parent.step(Event::Done).action, Action::RemoveDir { name: b"d".to_vec() });
    assert_eq!(parent.step(Event::Done).action, Action::Finish);
    assert!(parent.errors().is_empty());
}

#[test]
fn forced_run_keeps_no_missing_path_error() {
    let opts = Options { recursive: true, force: true, verbose: false };
    let ops = vec![
        Operand { path: b"a".to_vec(), file_name: Some(b"a".to_vec()), parent: None },
        Operand { path: b"b".to_vec(), file_name: Some(b"b".to_vec()), parent: None },
    ];
    let mut m = Removal::new(ops, opts);
    let missing = || Event::Failed { cause: IoCause::Os { code: ENOENT } };
    assert_eq!(m.step(missing()).action, Action::Inspect { path: b"b".to_vec() });
    assert_eq!(m.step(Event::Metadata { is_dir: true }).action, Action::OpenDir { name: b"b".to_vec() });
    assert_eq!(m.step(Event::Done).action, Action::ReadDir);
    assert_eq!(m.step(missing()).action, Action::CloseDir);
    assert_eq!(m.step(Event::Done).action, Action::Finish);
    assert!(m.errors().is_empty());
}

#[test]
fn subdirectory_order_does_not_change_the_outcome() {
    let opts = Options { recursive: true, force: false, verbose: false };
    let run = |names: [&[u8]; 2]| {
        let op = Operand { path: b"d".to_vec(), file_name: Some(b"d".to_vec()), parent: None };
        let mut m = Removal::new(vec![op], opts);
        m.step(Event::Metadata { is_dir: true });
        m.step(Event::Done);
        let entries = names.iter().map(|n| Entry { name: n.to_vec(), kind: EntryKind::Directory }).collect();
        m.step(Event::Entries { entries });
        let removals = names
            .iter()
            .map(|n| {
                let mut c = Removal::subdirectory(b"d", n, opts);
                c.step(Event::Done);
                c.step(Event::Entries { entries: Vec::new() });
                c.step(Event::Done);
                c.step(Event::Done);
                c
            })
            .collect();
        let step = m.step(Event::SubdirsRemoved { removals });
        (step.action, m.errors().len())
    };
    assert_eq!(run([b"x", b"y"]), (Action::CloseDir, 0));
    assert_eq!(run([b"y", b"x"]), (Action::CloseDir, 0));
}

#[test]
fn file_order_does_not_change_the_outcome() {
    let opts = Options { recursive: true, force: false, verbose: true };
    let run = |names: [&[u8]; 2], results: [Result<(), IoCause>; 2]| {
        let op = Operand { path: b"d".to_vec(), file_name: Some(b"d".to_vec()), parent: None };
        let mut m = Removal::new(vec![op], opts);
        m.step(Event::Metadata { is_dir: true });
        m.step(Event::Done);
        let entries = names.iter().map(|n| Entry { name: n.to_vec(), kind: EntryKind::NotDirectory }).collect();
        m.step(Event::Entries { entries });
        let step = m.step(Event::FilesRemoved { results: results.to_vec() });
        let lines: Vec<String> = step.lines.iter().map(|l| String::from_utf8(l.clone()).unwrap()).collect();
        (step.action, lines)
    };
    let (a1, l1) = run([b"p", b"q"], [Ok(()), Ok(())]);
    let (a2, l2) = run([b"q", b"p"], [Ok(()), Ok(())]);
    assert_eq!(a1, Action::CloseDir);
    assert_eq!(a2, Action::CloseDir);
    assert_eq!(l1, vec!["removed 'd/p'".to_string(), "removed 'd/q'".to_string()]);
    assert_eq!(l2, vec!["removed 'd/q'".to_string(), "removed 'd/p'".to_string()]);
    let denied = Err(IoCause::Os { code: 13 });
    let (b1, _) = run([b"p", b"q"], [Ok(()), denied]);
    let (b2, _) = run([b"q", b"p"], [denied, Ok(())]);
    assert_eq!(b1, Action::CloseDir);
    assert_eq!(b2, Action::CloseDir);
}
