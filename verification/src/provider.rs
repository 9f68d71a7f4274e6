//! The file-provider scaffolding the core keeps on its own side: the local
//! provider and downloader markers and the cache lookup options.

use vstd::prelude::*;

verus! {

/// Options for one cache lookup: an optional subdirectory of the cache
/// root to keep the resource in.
pub struct Options {
    pub subdir: Option<String>,
}

impl Options {
    /// Options with the given subdirectory, when one is wanted.
    pub fn new(subdir: Option<&str>) -> (r: Options)
        ensures
            match subdir {
                Some(s) => r.subdir matches Some(o) && o@ == s@,
                None => r.subdir is None,
            },
    {
        match subdir {
            Some(s) => Options { subdir: Some(s.to_owned()) },
            None => Options { subdir: None },
        }
    }

    /// The same options, with the subdirectory set.
    pub fn subdir(self, subdir: &str) -> (r: Options)
        ensures
            r.subdir matches Some(o) && o@ == subdir@,
    {
        Options { subdir: Some(subdir.to_owned()) }
    }
}

/// The downloader for resources that are already local files: it never
/// fetches anything itself.
pub struct LocalDownloader {}

impl LocalDownloader {
    /// Marks the downloader as local, so the cache resolves resources to
    /// their own paths instead of fetching.
    pub fn is_local(&self) -> (r: bool)
        ensures
            r,
    {
        true
    }
}

/// The provider serving files straight from the local filesystem; it keeps
/// no cache of its own.
pub struct LocalFileProvider {}

impl LocalFileProvider {
    /// The local provider needs nothing to construct.
    pub fn new() -> (r: LocalFileProvider)
        ensures
            true,
    {
        LocalFileProvider {  }
    }
}

} // verus!
