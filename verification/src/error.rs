//! What goes wrong before there is anything to show.

use vstd::prelude::*;

use crate::config::ConfigError;
use crate::text::{append, literal};

verus! {

/// What ends the program.
#[derive(Debug, PartialEq, Eq)]
pub enum Error {
    /// There is no folder at a path.
    FolderNotFound(String),
    NoStdout,
    /// The config file at a path is wrong.
    Config { path: String, source: ConfigError },
    /// Something could not be read or written.
    Io(String),
}

impl Error {
    /// The error in words.
    pub open spec fn words(self) -> Seq<char> {
        match self {
            Error::FolderNotFound(folder) => ("Folder '"@ + folder@) + "' does not exist"@,
            Error::NoStdout => "Failed to get stdout: are you trying to pipe 'diskonaut'?"@,
            Error::Config { path, source } => (("config error in "@ + path@) + ": "@)
                + source.words(),
            Error::Io(error) => error@,
        }
    }

    /// The error in words.
    pub fn message(&self) -> (message: String)
        ensures
            message@ == self.words(),
    {
        match self {
            Error::FolderNotFound(folder) => {
                let mut message = literal("Folder '");
                append(&mut message, folder.as_str());
                append(&mut message, "' does not exist");
                message
            },
            Error::NoStdout => literal(
                "Failed to get stdout: are you trying to pipe 'diskonaut'?",
            ),
            Error::Config { path, source } => {
                let mut message = literal("config error in ");
                append(&mut message, path.as_str());
                append(&mut message, ": ");
                let why = source.message();
                append(&mut message, why.as_str());
                message
            },
            Error::Io(error) => literal(error.as_str()),
        }
    }
}

} // verus!
