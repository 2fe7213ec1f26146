use rmap::error::Error;
use rmap::model::{BlobKind, Content, DashBoardQuery, Repo};
use rmap::requests::{
    authorize_url, blob_body, blob_within_limit, dashboard_command, search_repos_url, tree_url,
    user_repos_url, DashboardCommand,
};
use rmap::tree::{extension_of, file_name_of};

fn query(action: Option<usize>) -> DashBoardQuery {
    DashBoardQuery {
        action,
        query: None,
        value: Some(7),
        links: Some("[]".to_string()),
        search: None,
        repo_name: Some("o/r".to_string()),
        task: Some("parse".to_string()),
    }
}

#[test]
fn github_addresses() {
    assert_eq!(search_repos_url("verus"), "https://api.github.com/search/repositories?q=verus");
    let repo = Repo {
        full_name: "o/r".to_string(),
        blobs_url: String::new(),
        default_branch: "main".to_string(),
        description: None,
        language: None,
        topics: vec![],
    };
    assert_eq!(tree_url(&repo), "https://api.github.com/repos/o/r/git/trees/main?recursive=1");
    assert_eq!(user_repos_url("octocat"), "https://api.github.com/users/octocat/repos?type=public&sort=pushed");
    assert_eq!(authorize_url("abc"), "https://github.com/login/oauth/authorize?scope=user:email&client_id=abc");
}

#[test]
fn blob_limit_and_body() {
    assert!(blob_within_limit(899_999));
    assert!(!blob_within_limit(900_000));
    assert_eq!(blob_body(Content { content: Some("x".to_string()) }), "x");
    assert_eq!(blob_body(Content { content: None }), "");
}

#[test]
fn dashboard_actions_map_to_commands() {
    assert!(matches!(dashboard_command(query(Some(1))), Some(Ok(DashboardCommand::GetLinks { .. }))));
    assert!(matches!(dashboard_command(query(Some(2))), Some(Ok(DashboardCommand::GetRepo { .. }))));
    match dashboard_command(query(Some(3))) {
        Some(Ok(DashboardCommand::PutLinks { repo_name, links })) => {
            assert_eq!(repo_name, "o/r");
            assert_eq!(links, "[]");
        }
        _ => panic!("expected links"),
    }
    match dashboard_command(query(Some(4))) {
        Some(Ok(DashboardCommand::PutStat(s))) => {
            assert_eq!(s.task, "parse");
            assert_eq!(s.name, "o/r");
            assert_eq!(s.value, 7);
        }
        _ => panic!("expected a stat"),
    }
    assert!(matches!(dashboard_command(query(Some(5))), Some(Ok(DashboardCommand::GetStats))));
    assert!(matches!(dashboard_command(query(Some(6))), Some(Err(Error::BadRequest))));
    assert!(matches!(dashboard_command(query(Some(0))), Some(Err(Error::BadRequest))));
    assert!(dashboard_command(query(None)).is_none());
    let mut q = query(Some(1));
    q.repo_name = None;
    assert!(dashboard_command(q).is_none());
}

#[test]
fn error_redirects() {
    assert_eq!(Error::Unauthorized.redirect_target(), "/");
    assert_eq!(Error::NotFound.redirect_target(), "/badpage");
    assert_eq!(Error::InternalServerError.redirect_target(), "/err");
    assert_eq!(Error::BadRequest.redirect_target(), "/badrequest");
}

#[test]
fn blob_kinds_parse_like_the_enum_names() {
    assert_eq!(BlobKind::parse("js"), Some(BlobKind::JavaScript));
    assert_eq!(BlobKind::parse("ts"), Some(BlobKind::JavaScript));
    assert_eq!(BlobKind::parse("Unknown"), Some(BlobKind::Unknown));
    assert_eq!(BlobKind::parse("rs"), None);
    assert_eq!(BlobKind::parse("JS"), None);
    assert_eq!(BlobKind::JavaScript.display_name(), "JavaScript");
    assert_eq!(BlobKind::default(), BlobKind::Unknown);
}

fn ext(path: &str) -> Option<String> {
    let cs: Vec<char> = path.chars().collect();
    file_name_of(&cs).and_then(|n| extension_of(&n)).map(|e| e.into_iter().collect())
}

#[test]
fn extensions_follow_std_path() {
    for p in ["a/b.js", "b.tar.gz", ".bashrc", "a/.b.ts", "dir/", "a.js/.", "a.js/..", "/", "", "noext", "x.", "a//b.ts//", "./c.js", "..", "."] {
        let expected = std::path::Path::new(p).extension().and_then(|e| e.to_str()).map(|s| s.to_string());
        assert_eq!(ext(p), expected, "path {:?}", p);
    }
}
