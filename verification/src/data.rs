//! What is kept about a project: where its repository is, which versions
//! its index spans, and how often it was asked.

use crate::text::{chars_of, ends_with, has_suffix, string_of, substitute_str, substituted};
use vstd::prelude::*;

verus! {

/// The repository of a project.
#[derive(Debug, Clone)]
pub struct ProjectRepo {
    pub name: String,
    pub origin: String,
    /// The address of a page that shows a source file, with `{tag}`,
    /// `{path}` and `{line}` where the version, the file and the line go.
    pub source_viewer: String,
}

/// The versions that the index of a project spans.
#[derive(Debug)]
pub struct ProjectIndex {
    pub initial_ver: String,
    pub latest_ver: String,
}

/// How often a project was asked.
#[derive(Debug)]
pub struct ProjectStats {
    pub searches: u64,
    pub autocompletes: u64,
}

/// A project.
#[derive(Debug)]
pub struct Project {
    pub repo: ProjectRepo,
    pub index: ProjectIndex,
    pub stats: ProjectStats,
}

/// The address `viewer` with `tag`, `path` and the numeral `line` in place of
/// `{tag}`, `{path}` and `{line}`, put in one after the other.
pub open spec fn viewer_address(
    viewer: Seq<char>,
    tag: Seq<char>,
    path: Seq<char>,
    line: Seq<char>,
) -> Seq<char> {
    substituted(
        substituted(substituted(viewer, "{tag}"@, tag), "{path}"@, path),
        "{line}"@,
        line,
    )
}

impl ProjectRepo {
    /// The address of the page that shows line `line` of the file `path` in
    /// the version `tag`. The line is given as it stands in the index.
    pub fn source_address(&self, tag: &str, path: &str, line: &str) -> (r: String)
        ensures
            r@ == viewer_address(self.source_viewer@, tag@, path@, line@),
    {
        let viewer = chars_of(self.source_viewer.as_str());
        let a = substitute_str(&viewer, "{tag}", tag);
        let b = substitute_str(&a, "{path}", path);
        let c = substitute_str(&b, "{line}", line);
        string_of(&c)
    }
}

/// A request to add a repository.
#[derive(Debug)]
pub struct AddRepo {
    repo_url: String,
}

impl AddRepo {
    /// The address of the repository.
    pub closed spec fn url(&self) -> Seq<char> {
        self.repo_url@
    }

    /// A request to add the repository at `repo_url`.
    pub fn new(repo_url: String) -> (r: AddRepo)
        ensures
            r.url() == repo_url@,
    {
        AddRepo { repo_url }
    }

    /// The address of the repository.
    pub fn repo_url(&self) -> (r: &String)
        ensures
            r@ == self.url(),
    {
        &self.repo_url
    }

    /// Whether the address can be that of a repository: it ends with `.git`.
    pub fn is_valid(&self) -> (r: bool)
        ensures
            r == ends_with(self.url(), ".git"@),
    {
        let v = chars_of(self.repo_url.as_str());
        has_suffix(&v, ".git")
    }
}

} // verus!
