//! Decisions behind the filesystem pre-checks.
//!
//! The callers look at the filesystem (does the path name a directory,
//! does the directory hold an entry) and pass what they saw; here the
//! observation is turned into the exact success-or-error outcome.

use vstd::prelude::*;

use crate::config::ROOT_PATH;
use crate::err::Error;

verus! {

/// What kind of filesystem object a path was expected to name.
#[derive(Debug, Clone, Copy, PartialEq, Eq, Structural)]
pub enum ExpectedType {
    File,
    Directory,
}

impl ExpectedType {
    /// The other kind.
    pub fn invert(&self) -> (r: ExpectedType)
        ensures
            r == (match self {
                ExpectedType::File => ExpectedType::Directory,
                ExpectedType::Directory => ExpectedType::File,
            }),
    {
        match self {
            ExpectedType::File => ExpectedType::Directory,
            ExpectedType::Directory => ExpectedType::File,
        }
    }

    /// The kind's name, as used in messages.
    pub fn describe(&self) -> (r: &'static str)
        ensures
            r@ == (match self {
                ExpectedType::File => "file"@,
                ExpectedType::Directory => "directory"@,
            }),
    {
        match self {
            ExpectedType::File => "file",
            ExpectedType::Directory => "directory",
        }
    }
}

/// An error from the filesystem pre-checks.
#[derive(Debug, Clone)]
pub enum IOError {
    /// A path names a different kind of object than expected.
    IncorrectType(ExpectedType),
    /// The root descriptor is missing from the working directory.
    MissingRoot,
    /// A directory that had to be empty holds an entry.
    DirectoryNotEmpty(String),
    /// Another input/output failure, described by its message.
    IO(String),
}

impl IOError {
    /// The human-readable message for this error.
    pub fn message(&self) -> (r: String)
        ensures
            r@ == (match self {
                IOError::IncorrectType(expected) => "Path doesn't lead to a "@ + (match expected {
                    ExpectedType::File => "file"@,
                    ExpectedType::Directory => "directory"@,
                }),
                IOError::MissingRoot => "Directory doesn't contain root configuration '"@
                    + ROOT_PATH@ + "'"@,
                IOError::DirectoryNotEmpty(name) => "Directory '"@ + name@ + "' is not empty."@,
                IOError::IO(message) => message@,
            }),
    {
        match self {
            IOError::IncorrectType(expected) => {
                "Path doesn't lead to a ".to_owned().concat(expected.describe())
            },
            IOError::MissingRoot => {
                "Directory doesn't contain root configuration '".to_owned().concat(
                    ROOT_PATH,
                ).concat("'")
            },
            IOError::DirectoryNotEmpty(name) => {
                "Directory '".to_owned().concat(name.as_str()).concat("' is not empty.")
            },
            IOError::IO(message) => message.clone(),
        }
    }
}

/// Success exactly when the root descriptor was found.
pub fn assert_root_present(root_present: bool) -> (r: Result<(), IOError>)
    ensures
        r is Ok <==> root_present,
        !root_present ==> (r matches Err(e) && e is MissingRoot),
{
    if root_present {
        Ok(())
    } else {
        Err(IOError::MissingRoot)
    }
}

/// Success exactly when `dir` names a directory without entries.
/// `has_entries` reports whether the directory's listing held anything.
pub fn assert_empty(is_dir: bool, has_entries: bool, dir: &str) -> (r: Result<(), IOError>)
    ensures
        r is Ok <==> (is_dir && !has_entries),
        !is_dir ==> (r matches Err(e) && e matches IOError::IncorrectType(t) && t
            == ExpectedType::Directory),
        is_dir && has_entries ==> (r matches Err(e) && e matches IOError::DirectoryNotEmpty(
            name,
        ) && name@ == dir@),
{
    if !is_dir {
        Err(IOError::IncorrectType(ExpectedType::Directory))
    } else if !has_entries {
        Ok(())
    } else {
        Err(IOError::DirectoryNotEmpty(dir.to_owned()))
    }
}

/// Success exactly when `dir` names no directory at all, or an empty one.
pub fn check_dir_null_or_empty(exists_dir: bool, has_entries: bool, dir: &str) -> (r: Result<
    (),
    IOError,
>)
    ensures
        r is Ok <==> (!exists_dir || !has_entries),
        exists_dir && has_entries ==> (r matches Err(e) && e matches IOError::DirectoryNotEmpty(
            name,
        ) && name@ == dir@),
{
    if exists_dir {
        match assert_empty(true, has_entries, dir) {
            Ok(u) => Ok(u),
            Err(e) => Err(e),
        }
    } else {
        Ok(())
    }
}

/// Success exactly when `dir` names a directory.
pub fn check_valid_dir(is_dir: bool, dir: &str) -> (r: Result<(), Error>)
    ensures
        r is Ok <==> is_dir,
        !is_dir ==> (r matches Err(e) && e@ == "'"@ + dir@ + "' is not a valid directory"@),
{
    if is_dir {
        Ok(())
    } else {
        Err(
            Error::from_string(
                "'".to_owned().concat(dir).concat("' is not a valid directory"),
            ),
        )
    }
}

/// Success exactly when the root descriptor was found, with the error
/// worded for the command-line flow.
pub fn check_root_present(root_present: bool) -> (r: Result<(), Error>)
    ensures
        r is Ok <==> root_present,
        !root_present ==> (r matches Err(e) && e@ == "Directory doesn't contain root config '"@
            + ROOT_PATH@ + "'."@),
{
    if root_present {
        Ok(())
    } else {
        Err(
            Error::from_string(
                "Directory doesn't contain root config '".to_owned().concat(ROOT_PATH).concat(
                    "'.",
                ),
            ),
        )
    }
}

} // verus!
