//! Drives the removal machine against an in-memory file system.

use std::collections::BTreeMap;
use std::path::Path;

use rum::error::{IoCause, RumError};
use rum::machine::{Action, Entry, EntryKind, Event, Operand, Removal};
use rum::options::Options;
use rum::outcome::exit_code;

const ENOENT: i32 = 2;
const ENOTDIR: i32 = 20;
const EISDIR: i32 = 21;
const ENOTEMPTY: i32 = 39;
const ELOOP: i32 = 40;
const EACCES: i32 = 13;

#[derive(Debug, Clone)]
enum Node {
    File,
    Link,
    Dir(BTreeMap<Vec<u8>, Node>),
    /// A directory whose own removal is refused.
    Locked(BTreeMap<Vec<u8>, Node>),
    /// A file that cannot be unlinked.
    Pinned,
    /// A directory that is removed by someone else once it has been opened,
    /// before it can be listed.
    Vanishing,
}

struct Fs {
    cwd: BTreeMap<Vec<u8>, Node>,
    /// Whether listings leave the kind of every entry unknown.
    untyped: bool,
    /// How many directories are open, over every removal running.
    open: usize,
    max_open: usize,
    out: Vec<String>,
}

fn split(path: &[u8]) -> Vec<Vec<u8>> {
    path.split(|b| *b == b'/').filter(|c| !c.is_empty() && *c != b".").map(|c| c.to_vec()).collect()
}

impl Fs {
    fn new() -> Fs {
        Fs { cwd: BTreeMap::new(), untyped: false, open: 0, max_open: 0, out: Vec::new() }
    }

    fn dir_at(&mut self, comps: &[Vec<u8>]) -> Option<&mut BTreeMap<Vec<u8>, Node>> {
        let mut cur = &mut self.cwd;
        for c in comps {
            cur = match cur.get_mut(c) {
                Some(Node::Dir(m)) | Some(Node::Locked(m)) => m,
                _ => return None,
            };
        }
        Some(cur)
    }

    fn node(&self, comps: &[Vec<u8>]) -> Option<&Node> {
        let mut cur = &self.cwd;
        let (last, init) = comps.split_last()?;
        for c in init {
            cur = match cur.get(c) {
                Some(Node::Dir(m)) | Some(Node::Locked(m)) => m,
                _ => return None,
            };
        }
        cur.get(last)
    }

    fn present(&self, path: &str) -> bool {
        self.node(&split(path.as_bytes())).is_some()
    }

    fn add(&mut self, path: &str, node: Node) {
        let comps = split(path.as_bytes());
        let (last, init) = comps.split_last().unwrap();
        let mut cur = &mut self.cwd;
        for c in init {
            cur = match cur.entry(c.clone()).or_insert_with(|| Node::Dir(BTreeMap::new())) {
                Node::Dir(m) | Node::Locked(m) => m,
                _ => panic!("not a directory"),
            };
        }
        cur.insert(last.clone(), node);
    }

    fn file(&mut self, path: &str) {
        self.add(path, Node::File);
    }

    fn dir(&mut self, path: &str) {
        self.add(path, Node::Dir(BTreeMap::new()));
    }

    fn tree(&mut self, path: &str, wide: usize, deep: usize, files: usize) {
        self.dir(path);
        for i in 0..files {
            self.file(&format!("{path}/f{i}.bin"));
        }
        if deep > 0 {
            for i in 0..wide {
                self.tree(&format!("{path}/d{i}"), wide, deep - 1, files);
            }
        }
    }

    fn inspect(&self, path: &[u8]) -> Event {
        let comps = split(path);
        if comps.is_empty() {
            return Event::Metadata { is_dir: true };
        }
        self.inspect_comps(&comps)
    }

    fn inspect_comps(&self, comps: &[Vec<u8>]) -> Event {
        match self.node(comps) {
            None => Event::Failed { cause: IoCause::Os { code: ENOENT } },
            Some(Node::Dir(_)) | Some(Node::Locked(_)) | Some(Node::Vanishing) => Event::Metadata { is_dir: true },
            Some(_) => Event::Metadata { is_dir: false },
        }
    }

    fn unlink(&mut self, dir: &[Vec<u8>], name: &[u8], want_dir: bool) -> Result<(), IoCause> {
        let locked = matches!(self.node(&[dir.to_vec(), vec![name.to_vec()]].concat()), Some(Node::Locked(_)));
        let m = match self.dir_at(dir) {
            Some(m) => m,
            None => return Err(IoCause::Os { code: ENOENT }),
        };
        match m.get(name) {
            None => Err(IoCause::Os { code: ENOENT }),
            Some(Node::Vanishing) => Err(IoCause::Os { code: EISDIR }),
            Some(Node::Pinned) => Err(IoCause::Os { code: EACCES }),
            Some(Node::Dir(c)) | Some(Node::Locked(c)) => {
                if !want_dir {
                    Err(IoCause::Os { code: EISDIR })
                } else if !c.is_empty() {
                    Err(IoCause::Os { code: ENOTEMPTY })
                } else if locked {
                    Err(IoCause::Os { code: EACCES })
                } else {
                    m.remove(name);
                    Ok(())
                }
            }
            Some(_) => {
                if want_dir {
                    Err(IoCause::Os { code: ENOTDIR })
                } else {
                    m.remove(name);
                    Ok(())
                }
            }
        }
    }

    fn open_dir(&mut self, stack: &mut Vec<Vec<Vec<u8>>>, comps: Vec<Vec<u8>>, follow: bool) -> Event {
        match self.node(&comps) {
            None => Event::Failed { cause: IoCause::Os { code: ENOENT } },
            Some(Node::Dir(_)) | Some(Node::Locked(_)) | Some(Node::Vanishing) => {
                stack.push(comps);
                self.open += 1;
                self.max_open = self.max_open.max(self.open);
                Event::Done
            }
            Some(Node::Link) if !follow => Event::Failed { cause: IoCause::Os { code: ELOOP } },
            Some(_) => Event::Failed { cause: IoCause::Os { code: ENOTDIR } },
        }
    }

    fn perform(&mut self, action: Action, opts: Options, base: &[Vec<u8>], stack: &mut Vec<Vec<Vec<u8>>>) -> Event {
        let top = stack.last().cloned().unwrap_or_else(|| base.to_vec());
        match action {
            Action::Finish => unreachable!(),
            Action::Inspect { path } => self.inspect(&path),
            Action::RemoveFile { path } => {
                let comps = split(&path);
                let (last, init) = comps.split_last().unwrap();
                match self.unlink(init, last, false) {
                    Ok(()) => Event::Done,
                    Err(cause) => Event::Failed { cause },
                }
            }
            Action::OpenParent { path } => self.open_dir(stack, split(&path), true),
            Action::OpenDir { name } => {
                let mut comps = top;
                comps.push(name);
                self.open_dir(stack, comps, false)
            }
            Action::ReadDir => {
                if matches!(self.node(&top), Some(Node::Vanishing)) {
                    let (last, init) = top.split_last().unwrap();
                    self.dir_at(init).unwrap().remove(last);
                    return Event::Failed { cause: IoCause::Os { code: ENOENT } };
                }
                let m = self.dir_at(&top).unwrap().clone();
                let mut entries = vec![
                    Entry { name: b".".to_vec(), kind: EntryKind::Directory },
                    Entry { name: b"..".to_vec(), kind: EntryKind::Directory },
                ];
                for (name, node) in m {
                    let kind = if self.untyped {
                        EntryKind::Unknown
                    } else if matches!(node, Node::Dir(_) | Node::Locked(_) | Node::Vanishing) {
                        EntryKind::Directory
                    } else {
                        EntryKind::NotDirectory
                    };
                    entries.push(Entry { name, kind });
                }
                Event::Entries { entries }
            }
            Action::InspectEntry { name } => {
                let mut comps = top;
                comps.push(name);
                self.inspect_comps(&comps)
            }
            Action::UnlinkFiles { names, .. } => {
                let results = names.iter().map(|name| self.unlink(&top, name, false)).collect();
                Event::FilesRemoved { results }
            }
            Action::RemoveSubdirs { dir_path, names } => {
                let removals = names
                    .iter()
                    .map(|name| self.drive(Removal::subdirectory(&dir_path, name, opts), &top, opts))
                    .collect();
                Event::SubdirsRemoved { removals }
            }
            Action::CloseDir => {
                stack.pop().expect("a directory to close");
                self.open -= 1;
                Event::Done
            }
            Action::RemoveDir { name } => match self.unlink(&top, &name, true) {
                Ok(()) => Event::Done,
                Err(cause) => Event::Failed { cause },
            },
        }
    }

    fn drive(&mut self, mut removal: Removal, base: &[Vec<u8>], opts: Options) -> Removal {
        let mut stack: Vec<Vec<Vec<u8>>> = Vec::new();
        let mut action = removal.next_action();
        let mut steps = 0;
        while !matches!(action, Action::Finish) {
            let event = self.perform(action, opts, base, &mut stack);
            let step = removal.step(event);
            for line in step.lines {
                self.out.push(String::from_utf8(line).unwrap());
            }
            action = step.action;
            steps += 1;
            assert!(steps < 1_000_000, "the removal does not end");
        }
        assert!(removal.is_finished());
        assert!(stack.is_empty(), "every directory opened is closed again");
        removal
    }

    fn run(&mut self, paths: &[&str], opts: Options) -> Vec<RumError> {
        let operands = paths
            .iter()
            .map(|p| {
                let path = Path::new(p);
                Operand {
                    path: p.as_bytes().to_vec(),
                    file_name: path.file_name().map(|n| n.to_str().unwrap().as_bytes().to_vec()),
                    parent: path.parent().map(|n| n.to_str().unwrap().as_bytes().to_vec()),
                }
            })
            .collect();
        let errors = self.drive(Removal::new(operands, opts), &[], opts).into_errors();
        assert_eq!(self.open, 0);
        errors
    }
}

fn recursive() -> Options {
    Options { recursive: true, force: false, verbose: false }
}

fn plain() -> Options {
    Options::default()
}

fn os_error(path: &str, code: i32) -> RumError {
    RumError::Io { path: path.as_bytes().to_vec(), source: IoCause::Os { code } }
}

#[test]
fn recursive_removes_small_tree() {
    let mut fs = Fs::new();
    fs.tree("tree", 3, 2, 4);
    let errors = fs.run(&["tree"], recursive());
    assert!(errors.is_empty());
    assert!(!fs.present("tree"));
}

#[test]
fn recursive_removes_large_flat_dir() {
    let mut fs = Fs::new();
    fs.dir("flat");
    for i in 0..500 {
        fs.file(&format!("flat/f{i}"));
    }
    let errors = fs.run(&["flat"], recursive());
    assert!(errors.is_empty());
    assert!(!fs.present("flat"));
}

#[test]
fn recursive_removes_deep_tree() {
    let mut fs = Fs::new();
    fs.tree("deep", 2, 5, 3);
    let errors = fs.run(&["deep"], recursive());
    assert!(errors.is_empty());
    assert!(!fs.present("deep"));
    assert_eq!(fs.max_open, 6);
}

// `-R` is declared as a short alias of `-r` in the command's clap
// arguments, so it sets `recursive`; what the library is then asked for is
// the recursive removal checked here.
#[test]
fn recursive_capital_r_alias() {
    let mut fs = Fs::new();
    fs.tree("cap", 2, 2, 2);
    let errors = fs.run(&["cap"], Options { recursive: true, ..Options::default() });
    assert!(errors.is_empty());
    assert!(!fs.present("cap"));
}

#[test]
fn removes_empty_directory() {
    let mut fs = Fs::new();
    fs.dir("empty");
    let errors = fs.run(&["empty"], recursive());
    assert!(errors.is_empty());
    assert!(!fs.present("empty"));
}

#[test]
fn missing_file_without_force_errors() {
    let mut fs = Fs::new();
    let errors = fs.run(&["does-not-exist"], plain());
    assert_eq!(errors, vec![os_error("does-not-exist", ENOENT)]);
    let line = errors[0].message(b"No such file or directory (os error 2)");
    assert_eq!(
        String::from_utf8(line).unwrap(),
        "cannot remove 'does-not-exist': No such file or directory (os error 2)"
    );
    assert_eq!(exit_code(&errors), 1);
    assert!(fs.out.is_empty());
}

#[test]
fn missing_file_with_force_is_silent() {
    let mut fs = Fs::new();
    let errors = fs.run(&["does-not-exist"], Options { force: true, ..Options::default() });
    assert!(errors.is_empty());
    assert_eq!(exit_code(&errors), 0);
    assert!(fs.out.is_empty());
}

#[test]
fn directory_without_recursive_errors() {
    let mut fs = Fs::new();
    fs.dir("tmp/subdir");
    let errors = fs.run(&["tmp/subdir"], plain());
    assert_eq!(errors, vec![RumError::IsDirectory { path: b"tmp/subdir".to_vec() }]);
    assert_eq!(String::from_utf8(errors[0].message(b"")).unwrap(), "cannot remove 'tmp/subdir': is a directory");
    assert_eq!(exit_code(&errors), 1);
    assert!(fs.present("tmp/subdir"), "directory must survive without -r");
}

#[test]
fn continues_after_individual_failure() {
    let mut fs = Fs::new();
    fs.file("good.txt");
    let errors = fs.run(&["missing-one", "good.txt"], plain());
    assert_eq!(exit_code(&errors), 1);
    assert!(!fs.present("good.txt"), "good file must still be removed");
    assert_eq!(errors.len(), 1);
    let line = String::from_utf8(errors[0].message(b"No such file or directory (os error 2)")).unwrap();
    assert!(line.contains("missing-one"), "stderr: {line}");
}

#[test]
fn no_operand_with_force_is_silent() {
    let mut fs = Fs::new();
    let errors = fs.run(&[], Options { force: true, ..Options::default() });
    assert!(errors.is_empty());
    assert_eq!(exit_code(&errors), 0);
    assert!(fs.out.is_empty());
}

#[test]
fn removes_single_file() {
    let mut fs = Fs::new();
    fs.file("a.txt");
    let errors = fs.run(&["a.txt"], plain());
    assert!(errors.is_empty());
    assert!(fs.out.is_empty());
    assert!(!fs.present("a.txt"));
}

#[test]
fn removes_large_file() {
    let mut fs = Fs::new();
    fs.file("big.bin");
    let errors = fs.run(&["big.bin"], plain());
    assert!(errors.is_empty());
    assert!(!fs.present("big.bin"));
}

#[test]
fn removes_many_files_in_one_invocation() {
    let mut fs = Fs::new();
    let paths: Vec<String> = (0..20).map(|i| format!("f{i}.bin")).collect();
    for p in &paths {
        fs.file(p);
    }
    let refs: Vec<&str> = paths.iter().map(|p| p.as_str()).collect();
    let errors = fs.run(&refs, plain());
    assert!(errors.is_empty());
    for p in &paths {
        assert!(!fs.present(p), "{p} should be gone");
    }
}

#[test]
fn verbose_prints_each_removal() {
    let mut fs = Fs::new();
    fs.file("note.txt");
    let errors = fs.run(&["note.txt"], Options { verbose: true, ..Options::default() });
    assert!(errors.is_empty());
    let stdout = fs.out.join("\n");
    assert!(stdout.contains("removed"), "expected 'removed' in output, got: {stdout}");
    assert!(stdout.contains("note.txt"));
    assert_eq!(fs.out, vec!["removed 'note.txt'".to_string()]);
    assert!(!fs.present("note.txt"));
}

#[test]
fn removes_symlink_not_target() {
    let mut fs = Fs::new();
    fs.file("target");
    fs.add("link", Node::Link);
    let errors = fs.run(&["link"], plain());
    assert!(errors.is_empty());
    assert!(!fs.present("link"));
    assert!(fs.present("target"), "symlink target must survive");
}

#[test]
fn verbose_tree_reports_children_before_parent() {
    let mut fs = Fs::new();
    fs.file("t/a");
    fs.file("t/s/b");
    let errors = fs.run(&["t"], Options { recursive: true, force: false, verbose: true });
    assert!(errors.is_empty());
    assert_eq!(
        fs.out,
        vec![
            "removed 't/a'".to_string(),
            "removed 't/s/b'".to_string(),
            "removed directory 't/s'".to_string(),
            "removed directory 't'".to_string(),
        ]
    );
}

#[test]
fn tree_under_a_parent_directory_is_removed() {
    let mut fs = Fs::new();
    fs.tree("outer/inner", 2, 1, 2);
    fs.file("outer/keep");
    let errors = fs.run(&["outer/inner"], recursive());
    assert!(errors.is_empty());
    assert!(!fs.present("outer/inner"));
    assert!(fs.present("outer/keep"));
}

#[test]
fn symlink_inside_tree_is_unlinked_not_followed() {
    let mut fs = Fs::new();
    fs.tree("keep", 1, 1, 1);
    fs.dir("t");
    fs.add("t/link", Node::Link);
    let errors = fs.run(&["t"], recursive());
    assert!(errors.is_empty());
    assert!(!fs.present("t"));
    assert!(fs.present("keep/d0/f0.bin"));
}

#[test]
fn failure_deep_in_tree_stops_that_path_and_closes_everything() {
    let mut fs = Fs::new();
    fs.add("t/s/locked", Node::Locked(BTreeMap::new()));
    fs.file("t/s/x");
    fs.file("other");
    let errors = fs.run(&["t", "other"], recursive());
    assert_eq!(errors, vec![os_error("t/s/locked", EACCES)]);
    assert!(fs.present("t/s"));
    assert!(!fs.present("t/s/x"));
    assert!(!fs.present("other"), "the next path is still removed");
}

#[test]
fn missing_parent_with_force_is_silent() {
    let mut fs = Fs::new();
    let errors = fs.run(&["nowhere/at/all"], Options { recursive: true, force: true, verbose: false });
    assert!(errors.is_empty());
}

#[test]
fn root_has_no_file_name() {
    let mut fs = Fs::new();
    fs.dir("x");
    let errors = fs.run(&["/"], Options { recursive: true, ..Options::default() });
    assert_eq!(errors, vec![RumError::Io { path: b"/".to_vec(), source: IoCause::NoFileName }]);
    assert_eq!(String::from_utf8(errors[0].message(b"")).unwrap(), "cannot remove '/': path has no file name");
}

#[test]
fn name_with_nul_byte_is_refused() {
    let mut fs = Fs::new();
    fs.dir("a\0b");
    let errors = fs.run(&["a\0b"], recursive());
    assert_eq!(errors, vec![RumError::Io { path: b"a\0b".to_vec(), source: IoCause::NulInName }]);
    assert!(fs.present("a\0b"));
}

#[test]
fn missing_path_without_force_names_the_path() {
    let mut fs = Fs::new();
    let errors = fs.run(&["nowhere/at/all"], recursive());
    assert_eq!(errors, vec![os_error("nowhere/at/all", ENOENT)]);
}

#[test]
fn directory_vanishing_before_listing_is_forgiven_with_force() {
    let mut fs = Fs::new();
    fs.add("t/gone", Node::Vanishing);
    fs.file("t/f");
    let errors = fs.run(&["t"], Options { recursive: true, force: true, verbose: false });
    assert!(errors.is_empty());
    assert!(!fs.present("t"));
}

#[test]
fn directory_vanishing_before_listing_is_an_error_without_force() {
    let mut fs = Fs::new();
    fs.add("t/gone", Node::Vanishing);
    let errors = fs.run(&["t"], recursive());
    assert_eq!(errors, vec![os_error("t/gone", ENOENT)]);
    assert!(fs.present("t"));
}

#[test]
fn entries_of_unknown_kind_are_looked_at() {
    let mut fs = Fs::new();
    fs.untyped = true;
    fs.tree("t", 2, 2, 2);
    fs.add("t/link", Node::Link);
    fs.file("keep");
    let errors = fs.run(&["t"], Options { recursive: true, force: false, verbose: true });
    assert!(errors.is_empty());
    assert!(!fs.present("t"));
    assert!(fs.present("keep"));
    assert!(fs.out.contains(&"removed 't/link'".to_string()));
    assert!(fs.out.contains(&"removed directory 't/d1/d0'".to_string()));
    assert_eq!(fs.out.last().unwrap(), "removed directory 't'");
}

#[test]
fn failing_file_in_batch_names_its_path_and_others_are_removed() {
    let mut fs = Fs::new();
    fs.file("t/a");
    fs.add("t/b", Node::Pinned);
    fs.file("t/c");
    let errors = fs.run(&["t"], Options { recursive: true, force: false, verbose: true });
    assert_eq!(errors, vec![os_error("t/b", EACCES)]);
    assert!(!fs.present("t/a"));
    assert!(!fs.present("t/c"));
    assert!(fs.present("t/b"));
    assert_eq!(fs.out, vec!["removed 't/a'".to_string(), "removed 't/c'".to_string()]);
}

#[test]
fn verbose_prints_one_line_per_removed_entry() {
    let mut fs = Fs::new();
    fs.tree("t", 2, 1, 2);
    let errors = fs.run(&["t"], Options { recursive: true, force: false, verbose: true });
    assert!(errors.is_empty());
    // 2 files and 2 subdirectories with 2 files each, and t itself.
    assert_eq!(fs.out.len(), 2 + 2 * 3 + 1);
    assert_eq!(fs.out.last().unwrap(), "removed directory 't'");
}

#[test]
fn second_forced_removal_changes_nothing() {
    let mut fs = Fs::new();
    fs.tree("gone", 2, 2, 2);
    fs.file("keep.txt");
    let opts = Options { recursive: true, force: true, verbose: true };
    let first = fs.run(&["gone"], opts);
    assert!(first.is_empty());
    assert!(!fs.present("gone"));
    let before = format!("{:?}", fs.cwd);
    let printed = fs.out.len();
    let second = fs.run(&["gone"], opts);
    assert!(second.is_empty());
    assert_eq!(format!("{:?}", fs.cwd), before);
    assert_eq!(fs.out.len(), printed);
    assert!(fs.present("keep.txt"));
}

#[test]
fn several_paths_are_each_path_in_turn() {
    let build = || {
        let mut fs = Fs::new();
        fs.file("a.txt");
        fs.tree("t", 2, 1, 2);
        fs.dir("d");
        fs.file("z.txt");
        fs
    };
    let paths = ["a.txt", "missing", "t", "d", "z.txt"];
    let opts = Options { recursive: false, force: false, verbose: true };

    let mut together = build();
    let all_errors = together.run(&paths, opts);

    let mut one_by_one = build();
    let mut each_errors = Vec::new();
    for p in paths {
        each_errors.extend(one_by_one.run(&[p], opts));
    }

    assert_eq!(all_errors, each_errors);
    assert_eq!(together.out, one_by_one.out);
    assert_eq!(format!("{:?}", together.cwd), format!("{:?}", one_by_one.cwd));
    assert_eq!(
        all_errors,
        vec![
            os_error("missing", ENOENT),
            RumError::IsDirectory { path: b"t".to_vec() },
            RumError::IsDirectory { path: b"d".to_vec() },
        ]
    );
    assert!(!together.present("a.txt") && !together.present("z.txt"));
    assert!(together.present("t") && together.present("d"));
}
