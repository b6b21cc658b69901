//! Errors of the backup and restore commands, and the conversions that turn
//! lower-level failures into them.
use vstd::prelude::*;
use vstd::string::StringExecFns;

use crate::util::text::{push_char, push_decimal, decimal_text};

verus! {

/// What kind of failure a command error reports.
#[derive(Debug, Clone, Copy, PartialEq, Eq, Structural)]
pub enum CommandErrorKind {
    /// An error that is caused by the user.
    User,
    /// Operation was aborted due to conflicting files or directories.
    FileSystemConflict,
    /// An error that is caused by invalid backup data.
    Corrupt,
    /// An error that is caused by the program.
    Program,
    /// An error that is caused by the system.
    System,
}

/// The cause of a command error.
pub enum ErrorSource {
    /// Another command error, which this one adds context to.
    Command(Box<CommandError>),
    /// A failure from outside the commands (the file system, a decoder), by
    /// its description.
    Other(String),
}

/// An error of a command: its kind, a message and an optional cause.
pub struct CommandError {
    error_type: CommandErrorKind,
    message: String,
    source: Option<Box<ErrorSource>>,
}

/// The result of a command step.
pub type CommandResult<T = ()> = Result<T, CommandError>;

impl CommandError {
    /// The kind of the error.
    pub closed spec fn error_kind(&self) -> CommandErrorKind {
        self.error_type
    }

    /// The message of the error.
    pub closed spec fn error_message(&self) -> Seq<char> {
        self.message@
    }

    /// The cause of the error, if it has one.
    pub closed spec fn error_source(&self) -> Option<ErrorSource> {
        match self.source {
            Some(b) => Some(*b),
            None => None,
        }
    }

    /// An error of the given kind and message, caused by `source`.
    pub fn with_source(error_type: CommandErrorKind, message: String, source: ErrorSource) -> (e: Self)
        ensures
            e.error_kind() == error_type,
            e.error_message() == message@,
            e.error_source() == Some(source),
    {
        CommandError { error_type, message, source: Some(Box::new(source)) }
    }

    /// An error of the given kind and message, without a cause.
    pub fn new(error_type: CommandErrorKind, message: String) -> (e: Self)
        ensures
            e.error_kind() == error_type,
            e.error_message() == message@,
            e.error_source() is None,
    {
        CommandError { error_type, message, source: None }
    }

    /// Wraps this error in a new one of the same kind with the given message;
    /// this error becomes the cause.
    pub fn with_message(self: Self, message: String) -> (e: Self)
        ensures
            e.error_kind() == self.error_kind(),
            e.error_message() == message@,
            e.error_source() == Some(ErrorSource::Command(Box::new(self))),
    {
        CommandError::with_source(self.error_type, message, ErrorSource::Command(Box::new(self)))
    }

    /// The kind of the error.
    pub fn kind(&self) -> (k: CommandErrorKind)
        ensures
            k == self.error_kind(),
    {
        self.error_type
    }

    /// The message of the error: what it displays as.
    pub fn message(&self) -> (m: &str)
        ensures
            m@ == self.error_message(),
    {
        self.message.as_str()
    }

    /// The cause of the error, if it has one.
    pub fn source(&self) -> (s: Option<&ErrorSource>)
        ensures
            match s {
                Some(src) => self.error_source() == Some(*src),
                None => self.error_source() is None,
            },
    {
        match self.source {
            Some(ref source) => Some(&**source),
            None => None,
        }
    }
}

/// Turns a failure into a command error of a given kind and message, the
/// failure becoming its cause.
pub trait IntoCommandError: Sized {
    /// The failure as the cause of a command error.
    spec fn as_error_source(self) -> ErrorSource;

    fn into_command_error(self, kind: CommandErrorKind, message: &str) -> (e: CommandError)
        ensures
            e.error_kind() == kind,
            e.error_message() == message@,
            e.error_source() == Some(self.as_error_source()),
    ;
}

impl IntoCommandError for ErrorSource {
    open spec fn as_error_source(self) -> ErrorSource {
        self
    }

    fn into_command_error(self, kind: CommandErrorKind, message: &str) -> (e: CommandError) {
        CommandError::with_source(kind, message.to_owned(), self)
    }
}

impl IntoCommandError for CommandError {
    open spec fn as_error_source(self) -> ErrorSource {
        ErrorSource::Command(Box::new(self))
    }

    fn into_command_error(self, kind: CommandErrorKind, message: &str) -> (e: CommandError) {
        CommandError::with_source(kind, message.to_owned(), ErrorSource::Command(Box::new(self)))
    }
}

/// Turns the failure of a result into a command error of a given kind and
/// message; a success passes through.
pub trait IntoCommandResult<T>: Sized {
    /// The outcome as a command result, for a given kind and message.
    spec fn command_result_of(self, kind: CommandErrorKind, message: Seq<char>) -> CommandResultView<T>;

    fn into_command_result(self, kind: CommandErrorKind, message: &str) -> (r: CommandResult<T>)
        ensures
            self.command_result_of(kind, message@) == view_command_result(r),
    ;
}

/// A command result seen through the contents of its error.
pub enum CommandResultView<T> {
    Success(T),
    Failure(CommandErrorKind, Seq<char>, Option<ErrorSource>),
}

/// The view of a command result.
pub open spec fn view_command_result<T>(r: CommandResult<T>) -> CommandResultView<T> {
    match r {
        Ok(v) => CommandResultView::Success(v),
        Err(e) => CommandResultView::Failure(e.error_kind(), e.error_message(), e.error_source()),
    }
}

impl<T, E: IntoCommandError> IntoCommandResult<T> for Result<T, E> {
    open spec fn command_result_of(self, kind: CommandErrorKind, message: Seq<char>) -> CommandResultView<T> {
        match self {
            Ok(v) => CommandResultView::Success(v),
            Err(e) => CommandResultView::Failure(kind, message, Some(e.as_error_source())),
        }
    }

    fn into_command_result(self, kind: CommandErrorKind, message: &str) -> (r: CommandResult<T>) {
        match self {
            Ok(v) => Ok(v),
            Err(e) => Err(e.into_command_error(kind, message)),
        }
    }
}

/// Decides whether a failed step stops the command. The step's error is
/// turned by `f` into a report, handed back to be logged; when
/// `keep_going` is set the command goes on, otherwise it is aborted.
pub trait KeepGoingOrErr<E>: Sized {
    /// The failure of the step, if it failed.
    spec fn failure(self) -> Option<E>;

    fn keep_going_or_err<F>(self, keep_going: bool, f: F) -> (res: (CommandResult, Option<CommandError>)) where
        F: FnOnce(E) -> CommandError,

        requires
            self.failure() matches Some(e) ==> call_requires(f, (e,)),
        ensures
            self.failure() is None ==> res.0 is Ok && res.1 is None,
            self.failure() matches Some(e) ==> (res.1 matches Some(report) && call_ensures(
                f,
                (e,),
                report,
            )),
            self.failure() is Some && keep_going ==> res.0 is Ok,
            self.failure() is Some && !keep_going ==> (res.0 matches Err(err) && err.error_kind()
                == CommandErrorKind::Program && err.error_message() == "Aborted"@
                && err.error_source() is None),
    ;
}

impl<T, E> KeepGoingOrErr<E> for Result<T, E> {
    open spec fn failure(self) -> Option<E> {
        match self {
            Ok(_) => None,
            Err(e) => Some(e),
        }
    }

    fn keep_going_or_err<F>(self, keep_going: bool, f: F) -> (res: (CommandResult, Option<CommandError>)) where
        F: FnOnce(E) -> CommandError,
     {
        match self {
            Ok(_) => (Ok(()), None),
            Err(e) => {
                let report = f(e);
                if keep_going {
                    (Ok(()), Some(report))
                } else {
                    (Err(CommandError::new(CommandErrorKind::Program, "Aborted".to_owned())), Some(report))
                }
            },
        }
    }
}

/// The storage key of a snapshot of an archive: `<archive>/<snapshot>`.
pub open spec fn snapshot_key_text(archive: Seq<char>, snapshot: Seq<char>) -> Seq<char> {
    archive + seq!['/'] + snapshot
}

/// The storage key of a snapshot of an archive: `<archive>/<snapshot>`.
pub fn snapshot_key(archive_name: &str, snapshot: &str) -> (key: String)
    ensures
        key@ == snapshot_key_text(archive_name@, snapshot@),
{
    let mut key = archive_name.to_owned();
    push_char(&mut key, '/');
    key.append(snapshot);
    key
}

/// The storage key of the snapshot numbered `number`:
/// `<archive>/<number>`.
pub fn numbered_snapshot_key(archive_name: &str, number: u32) -> (key: String)
    ensures
        key@ == snapshot_key_text(archive_name@, decimal_text(number as nat)),
{
    let mut key = archive_name.to_owned();
    push_char(&mut key, '/');
    push_decimal(&mut key, number);
    key
}

/// The storage key of the snapshot after the highest one: numbered
/// `highest + 1`.
pub fn next_snapshot_key(archive_name: &str, highest: u32) -> (key: String)
    requires
        highest < u32::MAX,
    ensures
        key@ == snapshot_key_text(archive_name@, decimal_text(highest as nat + 1)),
{
    numbered_snapshot_key(archive_name, highest + 1)
}

} // verus!
