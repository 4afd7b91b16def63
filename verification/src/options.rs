//! What the server is started with.

use crate::listener::text::text_eq;
use std::path::PathBuf;
use vstd::prelude::*;

verus! {

/// A path of the file system, as `std::path::PathBuf` holds it. The library
/// carries such a value and never looks into it.
#[verifier::external_type_specification]
#[verifier::external_body]
pub struct ExPathBuf(PathBuf);

/// The options of a server.
#[derive(Clone)]
pub struct ServerOptions {
    /// The directory that the file routes serve, if any.
    pub root: Option<PathBuf>,
}

/// What looking at the directory named on the command line gave.
pub enum Resolved {
    /// The path as the file system spells it, and it is a directory.
    Directory(PathBuf),
    /// The path exists and is no directory.
    NotDirectory,
    /// The path could not be resolved.
    Failed,
}

/// The directory that the arguments name: they are the program's name, then
/// `--directory`, then a path, and nothing else.
pub open spec fn named_directory(args: Seq<Seq<char>>) -> Option<Seq<char>> {
    if args.len() == 3 && args[1] == "--directory"@ {
        Some(args[2])
    } else {
        None
    }
}

/// The texts of a list of arguments.
pub open spec fn arg_texts(args: Seq<String>) -> Seq<Seq<char>> {
    Seq::new(args.len(), |i: int| args[i]@)
}

impl ServerOptions {
    /// The directory that the command line asks to serve, if it names one.
    /// `args` holds the program's name first.
    pub fn requested_directory(args: &Vec<String>) -> (r: Option<&String>)
        requires
            args.len() >= 1,
        ensures
            match named_directory(arg_texts(args@)) {
                Some(path) => r is Some && r->Some_0@ == path,
                None => r is None,
            },
    {
        if args.len() == 3 && text_eq(args[1].as_str(), "--directory") {
            Some(&args[2])
        } else {
            None
        }
    }

    /// The options that follow from what the command line named and what
    /// looking at it gave: files are served only from a directory that resolved.
    pub fn new(resolved: Option<Resolved>) -> (options: Self)
        ensures
            match resolved {
                Some(Resolved::Directory(path)) => options.root == Some(path),
                _ => options.root is None,
            },
    {
        match resolved {
            Some(Resolved::Directory(path)) => ServerOptions { root: Some(path) },
            _ => ServerOptions { root: None },
        }
    }
}

} // verus!
