//! What can go wrong with a command.

use vstd::prelude::*;
use vstd::string::StringExecFns;

verus! {

/// Why a command failed. Each kind carries the words that describe the
/// failure.
#[derive(Debug)]
pub enum CommandError {
    /// The image could not be decoded or encoded.
    ImageError(String),
    /// A file could not be read, written or removed.
    IOError(String),
    /// The metadata of the image could not be read.
    Exif(String),
    /// Another failure of the gallery itself.
    Other(String),
    /// A failure, with a note of what was being done when it came up.
    Trace(String, Box<CommandError>),
}

/// A failure as contracts speak of it.
pub enum Failure {
    ImageError(Seq<char>),
    IOError(Seq<char>),
    Exif(Seq<char>),
    Other(Seq<char>),
    Trace(Seq<char>, Box<Failure>),
}

impl Failure {
    /// The words in which the failure is reported: its own, or for a trace the
    /// note, a line break and the words of the failure below.
    pub open spec fn text(self) -> Seq<char>
        decreases self,
    {
        match self {
            Failure::ImageError(m) => m,
            Failure::IOError(m) => m,
            Failure::Exif(m) => m,
            Failure::Other(m) => m,
            Failure::Trace(note, cause) => note + seq!['\n'] + cause.text(),
        }
    }
}

impl CommandError {
    /// The failure as contracts speak of it.
    pub open spec fn failure(&self) -> Failure
        decreases self,
    {
        match self {
            CommandError::ImageError(m) => Failure::ImageError(m@),
            CommandError::IOError(m) => Failure::IOError(m@),
            CommandError::Exif(m) => Failure::Exif(m@),
            CommandError::Other(m) => Failure::Other(m@),
            CommandError::Trace(note, cause) => Failure::Trace(note@, Box::new(cause.failure())),
        }
    }
}

impl View for CommandError {
    type V = Failure;

    open spec fn view(&self) -> Failure {
        self.failure()
    }
}

impl CommandError {
    /// The words in which the failure is reported.
    pub fn message(&self) -> (text: String)
        ensures
            text@ == self@.text(),
        decreases self,
    {
        match self {
            CommandError::ImageError(m) => m.clone(),
            CommandError::IOError(m) => m.clone(),
            CommandError::Exif(m) => m.clone(),
            CommandError::Other(m) => m.clone(),
            CommandError::Trace(note, cause) => {
                let below = cause.message();
                proof {
                    reveal_strlit("\n");
                    assert("\n"@ =~= seq!['\n']);
                }
                note.clone().concat("\n").concat(below.as_str())
            },
        }
    }
}

/// A failure that sets `message` before the failure `cause`.
pub fn trace(message: &str, cause: CommandError) -> (e: CommandError)
    ensures
        e@ == Failure::Trace(message@, Box::new(cause@)),
{
    CommandError::Trace(String::from_str(message), Box::new(cause))
}

/// A failure of the gallery itself, described by `message`.
pub fn error(message: &str) -> (e: CommandError)
    ensures
        e@ == Failure::Other(message@),
{
    CommandError::Other(String::from_str(message))
}

} // verus!
