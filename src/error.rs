use vstd::prelude::*;

verus! {

/// Errors reported by the command engine.
#[derive(Debug)]
pub enum CmdError {
    /// Malformed command text; `start` and `end` are the byte offsets of the
    /// first and last bytes of the offending span.
    ParsingError { message: String, start: usize, end: usize },
    /// A command alias that nothing resolves to.
    NotFound { name: String },
    /// No path of the command tree matches the fragments.
    NoPathFound,
    /// The caller lacks the permission level required.
    MissingPerm { level: u32 },
    /// A builder was finalized without any node or branch.
    EmptyCmdBuilder,
    /// A textual declaration names a type tag that no matcher handles.
    CreatorUnknownMatcher { ty: String },
}

pub type CmdResult<T> = Result<T, CmdError>;

} // verus!
