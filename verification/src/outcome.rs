use vstd::prelude::*;
use vstd::string::StringSliceAdditionalSpecFns;
use crate::bytes::{append_bytes, copy_bytes};
use crate::errno::{not_found, spec_not_found};
use crate::error::{IoCause, RumError, RumErrorView};
use crate::names::{join_child, spec_join};
use crate::options::Options;

verus! {

/// The line that reports a removed file.
pub open spec fn spec_removed_line(path: Seq<u8>) -> Seq<u8> {
    "removed '".spec_bytes() + path + "'".spec_bytes()
}

/// The line that reports a removed directory.
pub open spec fn spec_removed_dir_line(path: Seq<u8>) -> Seq<u8> {
    "removed directory '".spec_bytes() + path + "'".spec_bytes()
}

/// What is printed once `path` is gone: a line in verbose mode, else nothing.
pub open spec fn spec_report(path: Seq<u8>, opts: Options, is_dir: bool) -> Option<Seq<u8>> {
    if !opts.verbose {
        None
    } else if is_dir {
        Some(spec_removed_dir_line(path))
    } else {
        Some(spec_removed_line(path))
    }
}

/// How one removal of `path` ends, given what the system call returned:
/// success with its report, a missing path forgiven by `force`, or an error
/// about `path`.
pub open spec fn spec_settle(
    path: Seq<u8>,
    opts: Options,
    is_dir: bool,
    result: Result<(), IoCause>,
) -> Result<Option<Seq<u8>>, RumErrorView> {
    match result {
        Ok(_) => Ok(spec_report(path, opts, is_dir)),
        Err(cause) => if opts.force && spec_not_found(cause) {
            Ok(None)
        } else {
            Err(RumErrorView::Io { path, source: cause })
        },
    }
}

/// The value of an outcome.
pub open spec fn outcome_view(r: Result<Option<Vec<u8>>, RumError>) -> Result<Option<Seq<u8>>, RumErrorView> {
    match r {
        Ok(None) => Ok(None),
        Ok(Some(line)) => Ok(Some(line@)),
        Err(e) => Err(e@),
    }
}

/// The `'`-quoted line `head` + `path` + `'`.
fn quoted_line(head: &str, path: &[u8]) -> (r: Vec<u8>)
    ensures
        r@ == head.spec_bytes() + path@ + "'".spec_bytes(),
{
    let mut r: Vec<u8> = Vec::new();
    append_bytes(&mut r, head.as_bytes());
    append_bytes(&mut r, path);
    append_bytes(&mut r, "'".as_bytes());
    r
}

/// The report printed once `path` is gone.
pub fn report(path: &[u8], opts: Options, is_dir: bool) -> (r: Option<Vec<u8>>)
    ensures
        match r {
            Some(line) => spec_report(path@, opts, is_dir) == Some(line@),
            None => spec_report(path@, opts, is_dir) is None,
        },
{
    if !opts.verbose {
        None
    } else if is_dir {
        Some(quoted_line("removed directory '", path))
    } else {
        Some(quoted_line("removed '", path))
    }
}

/// The line printed, in verbose mode, once the directory `path` is removed.
pub fn log_removed_dir(path: &[u8], opts: Options) -> (r: Option<Vec<u8>>)
    ensures
        match r {
            Some(line) => opts.verbose && line@ == spec_removed_dir_line(path@),
            None => !opts.verbose,
        },
{
    report(path, opts, true)
}

/// Settles one removal of `path` from the system call's result.
pub fn settle(path: &[u8], opts: Options, is_dir: bool, result: Result<(), IoCause>) -> (r: Result<Option<Vec<u8>>, RumError>)
    ensures
        outcome_view(r) == spec_settle(path@, opts, is_dir, result),
{
    match result {
        Ok(()) => Ok(report(path, opts, is_dir)),
        Err(cause) => {
            if opts.force && not_found(cause) {
                Ok(None)
            } else {
                Err(RumError::Io { path: copy_bytes(path), source: cause })
            }
        },
    }
}

/// Settles the removal of the non-directory `path`, given what removing the
/// file returned.
pub fn remove_file_path(path: &[u8], opts: Options, result: Result<(), IoCause>) -> (r: Result<Option<Vec<u8>>, RumError>)
    ensures
        outcome_view(r) == spec_settle(path@, opts, false, result),
{
    settle(path, opts, false, result)
}

/// Settles the unlinking of the entry `name` of the directory at
/// `parent_path`, given what `unlinkat` returned; reports and errors speak of
/// the entry's full path.
pub fn unlink_child(
    name: &[u8],
    parent_path: &[u8],
    opts: Options,
    is_dir: bool,
    result: Result<(), IoCause>,
) -> (r: Result<Option<Vec<u8>>, RumError>)
    ensures
        outcome_view(r) == spec_settle(spec_join(parent_path@, name@), opts, is_dir, result),
{
    let child = join_child(parent_path, name);
    settle(child.as_slice(), opts, is_dir, result)
}

/// The exit status after a run that met `errors`: 0 when there were none,
/// else 1.
pub fn exit_code(errors: &[RumError]) -> (r: u8)
    ensures
        r == (if errors@.len() == 0 { 0u8 } else { 1u8 }),
{
    if errors.len() == 0 {
        0
    } else {
        1
    }
}

} // verus!
