//! What the handlers decide on their own: the GitHub addresses they call,
//! the dashboard form's commands, and the size limit on fetched files.

use vstd::prelude::*;
use crate::error::Error;
use crate::model::{Content, DashBoardQuery, Repo, ScanStat};

verus! {

/// The GitHub repository search for `query`.
pub fn search_repos_url(query: &str) -> (r: String)
    ensures
        r@ == "https://api.github.com/search/repositories?q="@ + query@,
{
    String::from_str("https://api.github.com/search/repositories?q=").concat(query)
}

/// The recursive git tree of a repository's default branch.
pub fn tree_url(repo: &Repo) -> (r: String)
    ensures
        r@ == "https://api.github.com/repos/"@ + repo.full_name@ + "/git/trees/"@
            + repo.default_branch@ + "?recursive=1"@,
{
    String::from_str("https://api.github.com/repos/").concat(repo.full_name.as_str()).concat(
        "/git/trees/",
    ).concat(repo.default_branch.as_str()).concat("?recursive=1")
}

/// A user's public repositories, most recently pushed first.
pub fn user_repos_url(user: &str) -> (r: String)
    ensures
        r@ == "https://api.github.com/users/"@ + user@ + "/repos?type=public&sort=pushed"@,
{
    String::from_str("https://api.github.com/users/").concat(user).concat(
        "/repos?type=public&sort=pushed",
    )
}

/// The GitHub sign-in page for the OAuth application `client_id`.
pub fn authorize_url(client_id: &str) -> (r: String)
    ensures
        r@ == "https://github.com/login/oauth/authorize?scope=user:email&client_id="@
            + client_id@,
{
    String::from_str("https://github.com/login/oauth/authorize?scope=user:email&client_id=")
        .concat(client_id)
}

/// The largest file, in bytes, that is not served.
pub open spec fn blob_size_limit() -> u64 {
    900_000
}

/// Whether a file of `content_length` bytes is served: below 900 000 bytes.
pub fn blob_within_limit(content_length: u64) -> (r: bool)
    ensures
        r == (content_length < blob_size_limit()),
{
    content_length < 900_000
}

/// The body served for a fetched file: its content, or nothing.
pub fn blob_body(blob: Content) -> (r: String)
    ensures
        r@ == match blob.content {
            Some(c) => c@,
            None => Seq::<char>::empty(),
        },
{
    match blob.content {
        Some(c) => c,
        None => String::new(),
    }
}

/// What the dashboard form asks for.
pub enum DashboardCommand {
    /// The stored links of a repository (action 1).
    GetLinks { repo_name: String },
    /// Map a repository (action 2).
    GetRepo { repo_name: String },
    /// Store links, given as JSON text, for a repository (action 3).
    PutLinks { repo_name: String, links: String },
    /// Add a scan note (action 4).
    PutStat(ScanStat),
    /// The scan notes (action 5).
    GetStats,
}

/// The command a dashboard form asks for. `Some(Err(BadRequest))` for an
/// action number other than 1 to 5; `None` when the action, or a field
/// the action needs, is missing.
pub fn dashboard_command(query: DashBoardQuery) -> (r: Option<Result<DashboardCommand, Error>>)
    ensures
        match query.action {
            None => r.is_none(),
            Some(1) => match query.repo_name {
                Some(n) => r matches Some(Ok(DashboardCommand::GetLinks { repo_name })) && repo_name@
                    == n@,
                None => r.is_none(),
            },
            Some(2) => match query.repo_name {
                Some(n) => r matches Some(Ok(DashboardCommand::GetRepo { repo_name })) && repo_name@
                    == n@,
                None => r.is_none(),
            },
            Some(3) => match (query.repo_name, query.links) {
                (Some(n), Some(l)) => r matches Some(
                    Ok(DashboardCommand::PutLinks { repo_name, links }),
                ) && repo_name@ == n@ && links@ == l@,
                _ => r.is_none(),
            },
            Some(4) => match (query.task, query.repo_name, query.value) {
                (Some(t), Some(n), Some(v)) => r matches Some(
                    Ok(DashboardCommand::PutStat(stat)),
                ) && stat@.task == t@ && stat@.name == n@ && stat@.value == v,
                _ => r.is_none(),
            },
            Some(5) => r matches Some(Ok(DashboardCommand::GetStats)),
            Some(_) => r == Some(Err::<DashboardCommand, Error>(Error::BadRequest)),
        },
{
    let action = match query.action {
        Some(a) => a,
        None => return None,
    };
    if action == 1 {
        match query.repo_name {
            Some(repo_name) => Some(Ok(DashboardCommand::GetLinks { repo_name })),
            None => None,
        }
    } else if action == 2 {
        match query.repo_name {
            Some(repo_name) => Some(Ok(DashboardCommand::GetRepo { repo_name })),
            None => None,
        }
    } else if action == 3 {
        match (query.repo_name, query.links) {
            (Some(repo_name), Some(links)) => Some(
                Ok(DashboardCommand::PutLinks { repo_name, links }),
            ),
            _ => None,
        }
    } else if action == 4 {
        match (query.task, query.repo_name, query.value) {
            (Some(task), Some(name), Some(value)) => Some(
                Ok(DashboardCommand::PutStat(ScanStat { task, name, value })),
            ),
            _ => None,
        }
    } else if action == 5 {
        Some(Ok(DashboardCommand::GetStats))
    } else {
        Some(Err(Error::BadRequest))
    }
}

} // verus!
