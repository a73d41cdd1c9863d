//! What a command reports when it fails: the kind of failure and a message
//! for the user.

use vstd::prelude::*;

verus! {

/// The kinds of failure a command can end in.
#[derive(Clone, Copy, Debug, PartialEq, Eq, Structural)]
pub enum ErrorKind {
    /// The platform's configuration directory cannot be resolved.
    ConfigDirUnavailable,
    /// A file could not be read, written or created.
    Io,
    /// Malformed JSON on read, or a value that JSON cannot carry on write.
    Serialization,
    /// A malformed data URL or base64 body.
    Decode,
    /// An upload was asked for with no configuration stored.
    ConfigMissing,
    /// The user dismissed the folder picker.
    UserCancelled,
    /// The object storage refused or failed.
    Remote,
}

/// A failed command: its kind, and the message that crosses the boundary.
#[derive(Debug, PartialEq, Eq)]
pub struct CommandError {
    pub kind: ErrorKind,
    pub message: String,
}

/// A message made of what failed and why, as the user reads it.
pub open spec fn labelled(label: Seq<char>, detail: Seq<char>) -> Seq<char> {
    label + ": "@ + detail
}

impl CommandError {
    /// The failure of `kind` whose message is `text`.
    pub fn new(kind: ErrorKind, text: &str) -> (e: CommandError)
        ensures
            e.kind == kind,
            e.message@ == text@,
    {
        CommandError { kind, message: text.to_owned() }
    }

    /// The failure of `kind` whose message says what failed, then why.
    pub fn with_detail(kind: ErrorKind, label: &str, detail: &str) -> (e: CommandError)
        ensures
            e.kind == kind,
            e.message@ == labelled(label@, detail@),
    {
        let mut message = label.to_owned();
        message.append(": ");
        message.append(detail);
        CommandError { kind, message }
    }
}

} // verus!
