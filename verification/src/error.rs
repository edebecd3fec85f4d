use vstd::prelude::*;

verus! {

/// Everything that can stop a run: failing to locate the launcher's data
/// directory, filesystem access, decoding either dataset, or rendering the
/// report. Messages from outside the library arrive already turned to text.
#[derive(Debug, Clone, PartialEq, Eq)]
pub enum Error {
    NoLauncherDirFound,
    /// An I/O failure, with a context line naming the operation that failed.
    FileError(String, String),
    /// The add-on catalog document could not be decoded.
    AddonsParsingFailed(String),
    /// One preset document could not be decoded; the second field names it.
    PresetParsingFailed(String, String),
    ReportGenerationFailed(String),
    ReportGenerationFailedUtf8(String),
    InvalidPresetPath(String),
}

/// A filesystem failure already rendered to text at the edge of the program.
#[derive(Debug, Clone, PartialEq, Eq)]
pub struct IoFailure(pub String);

/// A preset decode failure already rendered to text at the edge.
#[derive(Debug, Clone, PartialEq, Eq)]
pub struct DecodeFailure(pub String);

/// Attaches a context value to a failure, turning it into an [`Error`].
pub trait Contextualize<Context>: Sized {
    type Output;

    /// What the attached result must look like: success is passed through
    /// untouched, and a failure becomes an [`Error`] carrying the context.
    spec fn context_ok(self, ctx: Context, r: Self::Output) -> bool;

    fn context(self, ctx: Context) -> (r: Self::Output)
        ensures
            self.context_ok(ctx, r),
    ;
}

impl<T> Contextualize<&str> for Result<T, IoFailure> {
    type Output = Result<T, Error>;

    open spec fn context_ok(self, ctx: &str, r: Result<T, Error>) -> bool {
        match (self, r) {
            (Ok(v), Ok(w)) => v == w,
            (Err(e), Err(Error::FileError(detail, c))) => detail == e.0 && c@ == ctx@,
            _ => false,
        }
    }

    fn context(self, ctx: &str) -> (r: Result<T, Error>) {
        match self {
            Ok(v) => Ok(v),
            Err(e) => Err(Error::FileError(e.0, ctx.to_owned())),
        }
    }
}

impl<T> Contextualize<&str> for Result<T, DecodeFailure> {
    type Output = Result<T, Error>;

    open spec fn context_ok(self, ctx: &str, r: Result<T, Error>) -> bool {
        match (self, r) {
            (Ok(v), Ok(w)) => v == w,
            (Err(e), Err(Error::PresetParsingFailed(detail, name))) => detail == e.0 && name@
                == ctx@,
            _ => false,
        }
    }

    fn context(self, ctx: &str) -> (r: Result<T, Error>) {
        match self {
            Ok(v) => Ok(v),
            Err(e) => Err(Error::PresetParsingFailed(e.0, ctx.to_owned())),
        }
    }
}

} // verus!
