//! `mono init` — scaffold a root project.

use vstd::prelude::*;
use vstd::string::StringExecFns;

use crate::config::{config_path, CONFIG_FILE_NAME};
use crate::io::{IoError, IoErrorKind, IoErrorView};
use crate::path::join_path;
use crate::text::optional_text;

verus! {

/// What can go wrong with `init`.
#[derive(Debug, PartialEq, Eq)]
pub enum InitError {
    AlreadyInitialized(String),
    CreateDir { dir: String, source: IoError },
    WriteConfig { path: String, source: IoError },
}

/// What an `InitError` says.
pub enum InitFault {
    AlreadyInitialized(Seq<char>),
    CreateDir { dir: Seq<char>, source: IoErrorView },
    WriteConfig { path: Seq<char>, source: IoErrorView },
}

impl View for InitError {
    type V = InitFault;

    open spec fn view(&self) -> InitFault {
        match *self {
            InitError::AlreadyInitialized(path) => InitFault::AlreadyInitialized(path@),
            InitError::CreateDir { dir, source } => InitFault::CreateDir {
                dir: dir@,
                source: source@,
            },
            InitError::WriteConfig { path, source } => InitFault::WriteConfig {
                path: path@,
                source: source@,
            },
        }
    }
}

/// The text that reports a fault.
pub open spec fn init_fault_text(fault: InitFault) -> Seq<char> {
    match fault {
        InitFault::AlreadyInitialized(path) => path
            + " already exists \u{2014} refusing to overwrite"@,
        InitFault::CreateDir { dir, source } => "could not create directory "@ + dir + ": "@
            + source.message,
        InitFault::WriteConfig { path, source } => "could not write "@ + path + ": "@
            + source.message,
    }
}

impl InitError {
    /// The text that reports the error.
    pub fn message(&self) -> (r: String)
        ensures
            r@ == init_fault_text(self@),
    {
        match self {
            InitError::AlreadyInitialized(path) => {
                let mut text = path.clone();
                text.append(" already exists \u{2014} refusing to overwrite");
                text
            },
            InitError::CreateDir { dir, source } => {
                let mut text = "could not create directory ".to_owned();
                text.append(dir.as_str());
                text.append(": ");
                text.append(source.message.as_str());
                text
            },
            InitError::WriteConfig { path, source } => {
                let mut text = "could not write ".to_owned();
                text.append(path.as_str());
                text.append(": ");
                text.append(source.message.as_str());
                text
            },
        }
    }

    /// The text of the failure that this one wraps, where it wraps one.
    pub fn source(&self) -> (r: Option<String>)
        ensures
            optional_text(r) == (match self@ {
                InitFault::AlreadyInitialized(_) => None,
                InitFault::CreateDir { source, .. } => Some(source.message),
                InitFault::WriteConfig { source, .. } => Some(source.message),
            }),
    {
        match self {
            InitError::AlreadyInitialized(_) => None,
            InitError::CreateDir { source, .. } => Some(source.message.clone()),
            InitError::WriteConfig { source, .. } => Some(source.message.clone()),
        }
    }
}

/// What creating a manifest in `dir` comes to, given what came of creating the
/// directory and of writing the file where there was none: the path of the
/// manifest.
pub fn init(dir: &str, created: Result<(), IoError>, written: Result<(), IoError>) -> (r: Result<
    String,
    InitError,
>)
    ensures
        match r {
            Ok(path) => created is Ok && written is Ok && path@ == join_path(
                dir@,
                CONFIG_FILE_NAME@,
            ),
            Err(e) => match (created, written) {
                (Err(source), _) => e@ == (InitFault::CreateDir { dir: dir@, source: source@ }),
                (Ok(_), Err(source)) => e@ == if source.kind == IoErrorKind::AlreadyExists {
                    InitFault::AlreadyInitialized(join_path(dir@, CONFIG_FILE_NAME@))
                } else {
                    InitFault::WriteConfig {
                        path: join_path(dir@, CONFIG_FILE_NAME@),
                        source: source@,
                    }
                },
                (Ok(_), Ok(_)) => false,
            },
        },
{
    if let Err(source) = created {
        return Err(InitError::CreateDir { dir: dir.to_owned(), source });
    }
    let path = config_path(dir);
    match written {
        Ok(_) => Ok(path),
        Err(source) => {
            if source.kind == IoErrorKind::AlreadyExists {
                Err(InitError::AlreadyInitialized(path))
            } else {
                Err(InitError::WriteConfig { path, source })
            }
        },
    }
}

} // verus!
