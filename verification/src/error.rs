use vstd::prelude::*;
use crate::bytes::{append_bytes, copy_bytes};
use vstd::string::StringSliceAdditionalSpecFns;

verus! {

/// Why an operation on the file system failed.
#[derive(Debug, Clone, Copy, PartialEq, Eq, Structural)]
pub enum IoCause {
    /// The operating system refused the call with this error number.
    Os { code: i32 },
    /// A name to be handed to the operating system holds a NUL byte.
    NulInName,
    /// The path has no final component that could be removed.
    NoFileName,
    /// An error that carries no operating-system error number.
    Other,
}

/// An error met while removing one path.
#[derive(Debug, Clone, PartialEq, Eq)]
pub enum RumError {
    /// An operation on `path` failed.
    Io { path: Vec<u8>, source: IoCause },
    /// `path` is a directory and recursive removal was not asked for.
    IsDirectory { path: Vec<u8> },
}

/// The mathematical value of a [`RumError`].
pub enum RumErrorView {
    Io { path: Seq<u8>, source: IoCause },
    IsDirectory { path: Seq<u8> },
}

impl RumErrorView {
    /// The path the error is about.
    pub open spec fn path(self) -> Seq<u8> {
        match self {
            RumErrorView::Io { path, .. } => path,
            RumErrorView::IsDirectory { path } => path,
        }
    }
}

impl View for RumError {
    type V = RumErrorView;

    open spec fn view(&self) -> RumErrorView {
        match self {
            RumError::Io { path, source } => RumErrorView::Io { path: path@, source: *source },
            RumError::IsDirectory { path } => RumErrorView::IsDirectory { path: path@ },
        }
    }
}

/// The words that describe `cause`; `description` is what the operating
/// system says of an error it reported.
pub open spec fn spec_cause_text(cause: IoCause, description: Seq<u8>) -> Seq<u8> {
    match cause {
        IoCause::Os { .. } => description,
        IoCause::Other => description,
        IoCause::NulInName => "path contains NUL byte".spec_bytes(),
        IoCause::NoFileName => "path has no file name".spec_bytes(),
    }
}

/// The line that reports `e`.
pub open spec fn spec_message(e: RumErrorView, description: Seq<u8>) -> Seq<u8> {
    match e {
        RumErrorView::Io { path, source } => "cannot remove '".spec_bytes() + path + "': ".spec_bytes()
            + spec_cause_text(source, description),
        RumErrorView::IsDirectory { path } => "cannot remove '".spec_bytes() + path
            + "': is a directory".spec_bytes(),
    }
}

impl RumError {
    /// The path the error is about.
    pub fn path(&self) -> (r: &[u8])
        ensures
            r@ == self@.path(),
    {
        match self {
            RumError::Io { path, .. } => path.as_slice(),
            RumError::IsDirectory { path } => path.as_slice(),
        }
    }

    /// The failure underneath, where there is one.
    pub fn source(&self) -> (r: Option<IoCause>)
        ensures
            r == (match self@ {
                RumErrorView::Io { source, .. } => Some(source),
                RumErrorView::IsDirectory { .. } => None,
            }),
    {
        match self {
            RumError::Io { source, .. } => Some(*source),
            RumError::IsDirectory { .. } => None,
        }
    }

    /// The line that reports this error. `description` is the operating
    /// system's wording of the underlying error, used where the cause is one
    /// the operating system reported.
    pub fn message(&self, description: &[u8]) -> (r: Vec<u8>)
        ensures
            r@ == spec_message(self@, description@),
    {
        let mut r: Vec<u8> = Vec::new();
        append_bytes(&mut r, "cannot remove '".as_bytes());
        match self {
            RumError::Io { path, source } => {
                append_bytes(&mut r, path.as_slice());
                append_bytes(&mut r, "': ".as_bytes());
                match source {
                    IoCause::Os { .. } => append_bytes(&mut r, description),
                    IoCause::Other => append_bytes(&mut r, description),
                    IoCause::NulInName => append_bytes(&mut r, "path contains NUL byte".as_bytes()),
                    IoCause::NoFileName => append_bytes(&mut r, "path has no file name".as_bytes()),
                }
            },
            RumError::IsDirectory { path } => {
                append_bytes(&mut r, path.as_slice());
                append_bytes(&mut r, "': is a directory".as_bytes());
            },
        }
        r
    }
}

impl RumError {
    /// An error equal to this one.
    pub fn duplicate(&self) -> (r: RumError)
        ensures
            r@ == self@,
    {
        match self {
            RumError::Io { path, source } => RumError::Io { path: copy_bytes(path.as_slice()), source: *source },
            RumError::IsDirectory { path } => RumError::IsDirectory { path: copy_bytes(path.as_slice()) },
        }
    }
}

/// The error for a failed operation on `path` that the OS reported as `code`.
pub fn io_err(path: &[u8], code: i32) -> (r: RumError)
    ensures
        r@ == (RumErrorView::Io { path: path@, source: IoCause::Os { code } }),
{
    RumError::Io { path: copy_bytes(path), source: IoCause::Os { code } }
}

} // verus!
