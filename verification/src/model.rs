//! The data the service moves around: repositories, import links, scan
//! bookkeeping, git trees and the request payloads, each with a
//! mathematical view over `Seq<char>` and plain integers.

use vstd::prelude::*;
use crate::text::{contains_str, str_contains};

verus! {

/// The characters of an optional string.
pub open spec fn opt_chars(o: Option<String>) -> Option<Seq<char>> {
    o.deep_view()
}

/// The characters of each string of a list.
pub open spec fn chars_list(v: Seq<String>) -> Seq<Seq<char>> {
    v.map_values(|s: String| s@)
}

/// Copies an optional string.
pub fn clone_opt_string(o: &Option<String>) -> (r: Option<String>)
    ensures
        r.deep_view() == o.deep_view(),
{
    match o {
        Some(s) => Some(s.clone()),
        None => None,
    }
}

/// Copies a list of strings.
pub fn clone_strings(v: &Vec<String>) -> (r: Vec<String>)
    ensures
        r.deep_view() == v.deep_view(),
{
    let mut r: Vec<String> = Vec::new();
    let mut i: usize = 0;
    while i < v.len()
        invariant
            i <= v.len(),
            r@.len() == i,
            r.deep_view() == v.deep_view().take(i as int),
        decreases v.len() - i,
    {
        let ghost before = r@;
        let ghost before_dv = r.deep_view();
        let x = v[i].clone();
        r.push(x);
        proof {
            assert forall|j: int| 0 <= j < i + 1 implies #[trigger] r.deep_view()[j]
                == v.deep_view()[j] by {
                if j < i {
                    assert(r@[j] == before[j]);
                    assert(before.len() == i);
                    assert(before_dv[j] == v.deep_view().take(i as int)[j]);
                } else {
                    assert(r@[j] == x);
                }
            }
        }
        i = i + 1;
        assert(r.deep_view() =~= v.deep_view().take(i as int));
    }
    assert(v.deep_view().take(v.len() as int) =~= v.deep_view());
    r
}

/// A search query from the search form.
#[derive(Debug)]
pub struct RepoQuery {
    pub q: String,
}

/// A repository named by its full name (`owner/name`).
#[derive(Debug)]
pub struct RepoItem {
    pub full_name: String,
}

/// A GitHub repository, as listed by search and by the user's repositories.
#[derive(Debug)]
pub struct Repo {
    pub full_name: String,
    pub blobs_url: String,
    pub default_branch: String,
    pub description: Option<String>,
    pub language: Option<String>,
    pub topics: Vec<String>,
}

pub struct RepoView {
    pub full_name: Seq<char>,
    pub blobs_url: Seq<char>,
    pub default_branch: Seq<char>,
    pub description: Option<Seq<char>>,
    pub language: Option<Seq<char>>,
    pub topics: Seq<Seq<char>>,
}

impl View for Repo {
    type V = RepoView;

    open spec fn view(&self) -> RepoView {
        RepoView {
            full_name: self.full_name@,
            blobs_url: self.blobs_url@,
            default_branch: self.default_branch@,
            description: self.description.deep_view(),
            language: self.language.deep_view(),
            topics: self.topics.deep_view(),
        }
    }
}

impl DeepView for Repo {
    type V = RepoView;

    open spec fn deep_view(&self) -> RepoView {
        self@
    }
}

impl Clone for Repo {
    fn clone(&self) -> (r: Self)
        ensures
            r@ == self@,
    {
        Repo {
            full_name: self.full_name.clone(),
            blobs_url: self.blobs_url.clone(),
            default_branch: self.default_branch.clone(),
            description: clone_opt_string(&self.description),
            language: clone_opt_string(&self.language),
            topics: clone_strings(&self.topics),
        }
    }
}

/// Copies a list of repositories.
pub fn clone_repos(v: &Vec<Repo>) -> (r: Vec<Repo>)
    ensures
        r.deep_view() == v.deep_view(),
{
    let mut r: Vec<Repo> = Vec::new();
    let mut i: usize = 0;
    while i < v.len()
        invariant
            i <= v.len(),
            r@.len() == i,
            r.deep_view() == v.deep_view().take(i as int),
        decreases v.len() - i,
    {
        let ghost before = r@;
        let ghost before_dv = r.deep_view();
        let x = v[i].clone();
        r.push(x);
        proof {
            assert forall|j: int| 0 <= j < i + 1 implies #[trigger] r.deep_view()[j]
                == v.deep_view()[j] by {
                if j < i {
                    assert(r@[j] == before[j]);
                    assert(before.len() == i);
                    assert(before_dv[j] == v.deep_view().take(i as int)[j]);
                } else {
                    assert(r@[j] == x);
                }
            }
        }
        i = i + 1;
        assert(r.deep_view() =~= v.deep_view().take(i as int));
    }
    assert(v.deep_view().take(v.len() as int) =~= v.deep_view());
    r
}

/// One page of search results with the total hit count.
#[derive(Debug)]
pub struct RepoItems {
    pub total_count: usize,
    pub items: Vec<Repo>,
}

/// A note about a scan: a task name, the repository it ran on, a number.
#[derive(Debug)]
pub struct ScanStat {
    pub task: String,
    pub name: String,
    pub value: usize,
}

pub struct ScanStatView {
    pub task: Seq<char>,
    pub name: Seq<char>,
    pub value: usize,
}

impl View for ScanStat {
    type V = ScanStatView;

    open spec fn view(&self) -> ScanStatView {
        ScanStatView { task: self.task@, name: self.name@, value: self.value }
    }
}

impl DeepView for ScanStat {
    type V = ScanStatView;

    open spec fn deep_view(&self) -> ScanStatView {
        self@
    }
}

impl Clone for ScanStat {
    fn clone(&self) -> (r: Self)
        ensures
            r@ == self@,
    {
        ScanStat { task: self.task.clone(), name: self.name.clone(), value: self.value }
    }
}

/// An import edge between two source files of a repository.
#[derive(Debug, PartialEq, Eq)]
pub struct Link {
    pub source: String,
    pub target: String,
    pub full_import: String,
    pub full_path: String,
    /// The kind of import (`type` on the wire).
    pub kind: String,
}

pub struct LinkView {
    pub source: Seq<char>,
    pub target: Seq<char>,
    pub full_import: Seq<char>,
    pub full_path: Seq<char>,
    pub kind: Seq<char>,
}

impl View for Link {
    type V = LinkView;

    open spec fn view(&self) -> LinkView {
        LinkView {
            source: self.source@,
            target: self.target@,
            full_import: self.full_import@,
            full_path: self.full_path@,
            kind: self.kind@,
        }
    }
}

impl DeepView for Link {
    type V = LinkView;

    open spec fn deep_view(&self) -> LinkView {
        self@
    }
}

impl Clone for Link {
    fn clone(&self) -> (r: Self)
        ensures
            r@ == self@,
    {
        Link {
            source: self.source.clone(),
            target: self.target.clone(),
            full_import: self.full_import.clone(),
            full_path: self.full_path.clone(),
            kind: self.kind.clone(),
        }
    }
}

/// Copies a list of links.
pub fn clone_links(v: &Vec<Link>) -> (r: Vec<Link>)
    ensures
        r.deep_view() == v.deep_view(),
{
    let mut r: Vec<Link> = Vec::new();
    let mut i: usize = 0;
    while i < v.len()
        invariant
            i <= v.len(),
            r@.len() == i,
            r.deep_view() == v.deep_view().take(i as int),
        decreases v.len() - i,
    {
        let ghost before = r@;
        let ghost before_dv = r.deep_view();
        let x = v[i].clone();
        r.push(x);
        proof {
            assert forall|j: int| 0 <= j < i + 1 implies #[trigger] r.deep_view()[j]
                == v.deep_view()[j] by {
                if j < i {
                    assert(r@[j] == before[j]);
                    assert(before.len() == i);
                    assert(before_dv[j] == v.deep_view().take(i as int)[j]);
                } else {
                    assert(r@[j] == x);
                }
            }
        }
        i = i + 1;
        assert(r.deep_view() =~= v.deep_view().take(i as int));
    }
    assert(v.deep_view().take(v.len() as int) =~= v.deep_view());
    r
}

/// A repository held in the per-user work buffer, with the import links
/// computed for it so far (`None` while it is still being processed).
#[derive(Debug, PartialEq, Eq)]
pub struct Node {
    pub name: String,
    pub links: Option<Vec<Link>>,
    /// Seconds since the Unix epoch of the last change.
    pub last_modified: Option<i64>,
    pub id: usize,
}

pub struct NodeView {
    pub name: Seq<char>,
    pub links: Option<Seq<LinkView>>,
    pub last_modified: Option<i64>,
    pub id: usize,
}

impl View for Node {
    type V = NodeView;

    open spec fn view(&self) -> NodeView {
        NodeView {
            name: self.name@,
            links: self.links.deep_view(),
            last_modified: self.last_modified,
            id: self.id,
        }
    }
}

impl DeepView for Node {
    type V = NodeView;

    open spec fn deep_view(&self) -> NodeView {
        self@
    }
}

impl Node {
    /// Whether the node's repository name contains `pat`.
    pub fn contains(&self, pat: &String) -> (r: bool)
        ensures
            r == contains_str(self.name@, pat@),
    {
        str_contains(self.name.as_str(), pat.as_str())
    }

    /// Whether the node's links have been computed.
    pub fn is_some(&self) -> (r: bool)
        ensures
            r == self.links.is_some(),
    {
        self.links.is_some()
    }

    /// Whether the node is still waiting for its links.
    pub fn is_none(&self) -> (r: bool)
        ensures
            r == self.links.is_none(),
    {
        self.links.is_none()
    }
}

/// Copies optional links.
pub fn clone_opt_links(o: &Option<Vec<Link>>) -> (r: Option<Vec<Link>>)
    ensures
        r.deep_view() == o.deep_view(),
{
    match o {
        Some(v) => Some(clone_links(v)),
        None => None,
    }
}

impl Clone for Node {
    fn clone(&self) -> (r: Self)
        ensures
            r@ == self@,
    {
        Node {
            name: self.name.clone(),
            links: clone_opt_links(&self.links),
            last_modified: self.last_modified,
            id: self.id,
        }
    }
}

/// A git tree: the entries of a repository at one commit.
#[derive(Debug)]
pub struct Tree {
    pub tree: Vec<Blob>,
}

/// A filtered tree handed back with the buffer slot it was given.
#[derive(Debug)]
pub struct RepoTree {
    pub tree: Tree,
    pub id: usize,
}

/// One entry of a git tree.
#[derive(Debug)]
pub struct Blob {
    pub path: String,
    /// `blob`, `tree` or `commit` (`type` on the wire).
    pub kind: String,
    pub url: String,
}

pub struct BlobView {
    pub path: Seq<char>,
    pub kind: Seq<char>,
    pub url: Seq<char>,
}

impl View for Blob {
    type V = BlobView;

    open spec fn view(&self) -> BlobView {
        BlobView { path: self.path@, kind: self.kind@, url: self.url@ }
    }
}

impl DeepView for Blob {
    type V = BlobView;

    open spec fn deep_view(&self) -> BlobView {
        self@
    }
}

impl Clone for Blob {
    fn clone(&self) -> (r: Self)
        ensures
            r@ == self@,
    {
        Blob { path: self.path.clone(), kind: self.kind.clone(), url: self.url.clone() }
    }
}

/// The source languages the service maps.
#[derive(Debug, PartialEq, Eq, Clone, Copy)]
pub enum BlobKind {
    JavaScript,
    Unknown,
}

/// A scan request naming a buffer slot.
#[derive(Debug)]
pub struct ScanItem {
    pub id: usize,
}

/// The state of one buffered repository, as shown on the dashboard.
#[derive(Debug)]
pub struct Scan {
    pub name: String,
    pub class_name: String,
    pub is_done: bool,
    pub is_error: bool,
    pub id: usize,
}

pub struct ScanView {
    pub name: Seq<char>,
    pub class_name: Seq<char>,
    pub is_done: bool,
    pub is_error: bool,
    pub id: usize,
}

impl View for Scan {
    type V = ScanView;

    open spec fn view(&self) -> ScanView {
        ScanView {
            name: self.name@,
            class_name: self.class_name@,
            is_done: self.is_done,
            is_error: self.is_error,
            id: self.id,
        }
    }
}

impl DeepView for Scan {
    type V = ScanView;

    open spec fn deep_view(&self) -> ScanView {
        self@
    }
}

/// The body of a file fetched from the git blob API.
#[derive(Debug)]
pub struct Content {
    pub content: Option<String>,
}

/// The API address of one blob.
#[derive(Debug)]
pub struct BlobUrl {
    pub url: String,
}

/// The dashboard form: an action number and the fields that action uses.
#[derive(Debug)]
pub struct DashBoardQuery {
    pub action: Option<usize>,
    pub query: Option<usize>,
    pub value: Option<usize>,
    pub links: Option<String>,
    pub search: Option<String>,
    pub repo_name: Option<String>,
    pub task: Option<String>,
}

/// A requested page of search results.
#[derive(Debug)]
pub struct PageQuery {
    pub page: usize,
}

/// The OAuth code GitHub sends back to the callback.
#[derive(Debug)]
pub struct UserToken {
    pub code: String,
}

/// The signed-in GitHub user.
#[derive(Debug)]
pub struct User {
    pub login: String,
    pub name: Option<String>,
    pub email: Option<String>,
    pub twitter_username: Option<String>,
}

} // verus!
