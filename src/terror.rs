use vstd::prelude::*;

verus! {

/// The family an error belongs to.
#[derive(Debug, Clone, Copy, PartialEq, Eq, Structural)]
pub enum ErrorKind {
    /// Filesystem or storage-open failures.
    Io,
    /// Anything that fits no other family.
    Misc,
    /// Query or constraint failures of the task store.
    Sql,
    /// A canonical timestamp that does not have the form `YYYY-MM-DD HH:MM:SS`.
    Parse,
    /// A user-supplied clock time outside the strict 24-hour form.
    InvalidTimestamp,
    /// No task matches the request.
    NotFound,
    /// An operation needed a running task and none runs.
    NoTaskRunning,
    /// An operation is refused because its task is still running.
    TaskRunning,
}

pub open spec fn kind_description(kind: ErrorKind) -> Seq<char> {
    match kind {
        ErrorKind::Io => "io error"@,
        ErrorKind::Misc => "misc error"@,
        ErrorKind::Sql => "sql error"@,
        ErrorKind::Parse => "parse error"@,
        ErrorKind::InvalidTimestamp => "invalid timestamp"@,
        ErrorKind::NotFound => "not found"@,
        ErrorKind::NoTaskRunning => "no task running"@,
        ErrorKind::TaskRunning => "task running"@,
    }
}

/// An error of the tracker: its family and a human-readable message.
#[derive(Debug)]
pub struct TError {
    pub kind: ErrorKind,
    pub message: String,
}

impl TError {
    pub fn new(kind: ErrorKind, message: String) -> (r: TError)
        ensures
            r.kind == kind,
            r.message@ == message@,
    {
        TError { kind, message }
    }

    /// A short name of the error's family.
    pub fn description(&self) -> (r: &'static str)
        ensures
            r@ == kind_description(self.kind),
    {
        match self.kind {
            ErrorKind::Io => "io error",
            ErrorKind::Misc => "misc error",
            ErrorKind::Sql => "sql error",
            ErrorKind::Parse => "parse error",
            ErrorKind::InvalidTimestamp => "invalid timestamp",
            ErrorKind::NotFound => "not found",
            ErrorKind::NoTaskRunning => "no task running",
            ErrorKind::TaskRunning => "task running",
        }
    }

    /// The message shown to the user.
    pub fn to_message(&self) -> (r: String)
        ensures
            r@ == self.message@,
    {
        self.message.clone()
    }
}

} // verus!
