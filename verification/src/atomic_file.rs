//! Where a file is written before it is published.

use vstd::prelude::*;
use vstd::string::StringExecFns;

use crate::io::{IoError, IoErrorKind};
use crate::path::{
    file_name, file_name_of, join_path, law_a_file_is_named_in_its_directory, parent, parent_of,
};

verus! {

/// How a temporary file is published.
#[derive(Debug, Clone, Copy, PartialEq, Eq, Structural)]
pub enum WriteMode {
    /// Replace the destination, if it exists.
    Replace,
    /// Create the destination, failing if it already exists.
    New,
}

/// Where the temporary file goes, and how its name begins and ends.
#[derive(Debug, PartialEq, Eq)]
pub struct Temporary {
    pub directory: String,
    pub prefix: String,
    pub suffix: String,
}

/// The directory of the destination: publishing is a rename within it.
pub open spec fn directory_of(path: Seq<char>) -> Seq<char> {
    match parent(path) {
        Some(above) => if above.len() > 0 {
            above
        } else {
            "."@
        },
        None => "."@,
    }
}

/// Where the contents of `path` are written before they are published.
pub fn temporary_for(path: &str) -> (r: Temporary)
    ensures
        r.directory@ == directory_of(path@),
        r.prefix@ == "."@ + (match file_name(path@) {
            Some(name) => name,
            None => "mono"@,
        }) + "."@,
        r.suffix@ == ".tmp"@,
{
    let directory = match parent_of(path) {
        Some(above) => if above.as_str().is_empty() {
            ".".to_owned()
        } else {
            above
        },
        None => ".".to_owned(),
    };
    let name = match file_name_of(path) {
        Some(name) => name,
        None => "mono".to_owned(),
    };
    let mut prefix = ".".to_owned();
    prefix.append(name.as_str());
    prefix.append(".");
    Temporary { directory, prefix, suffix: ".tmp".to_owned() }
}

/// The permissions of a file that replaces nothing.
pub const DEFAULT_FILE_MODE: u32 = 0o644;

/// The permissions of a published file: those of what it replaces.
pub fn published_mode(destination: Result<u32, IoError>) -> (r: Result<u32, IoError>)
    ensures
        match destination {
            Ok(mode) => r == Ok::<u32, IoError>(mode & 0o7777),
            Err(error) => if error.kind == IoErrorKind::NotFound {
                r == Ok::<u32, IoError>(DEFAULT_FILE_MODE)
            } else {
                r == Err::<u32, IoError>(error)
            },
        },
{
    match destination {
        Ok(mode) => Ok(mode & 0o7777),
        Err(error) => {
            if error.kind == IoErrorKind::NotFound {
                Ok(DEFAULT_FILE_MODE)
            } else {
                Err(error)
            }
        },
    }
}

/// The contents of a file in a directory are written in that directory first.
pub proof fn law_contents_are_first_written_beside_the_file(dir: Seq<char>, name: Seq<char>)
    requires
        dir.len() > 0,
        dir.last() != '/',
        dir.len() > 1 && dir.last() == '.' ==> dir[dir.len() - 2] != '/',
        name.len() > 0,
        !name.contains('/'),
        name != "."@,
        name != ".."@,
    ensures
        directory_of(join_path(dir, name)) == dir,
{
    law_a_file_is_named_in_its_directory(dir, name);
}

} // verus!
