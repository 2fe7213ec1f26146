use rmap::dashboard::{dashboard_interests, display_name};
use rmap::model::{Repo, User};
use rmap::state::Database;

fn repo(lang: Option<&str>, topics: &[&str]) -> Repo {
    Repo {
        full_name: "o/r".to_string(),
        blobs_url: String::new(),
        default_branch: "main".to_string(),
        description: None,
        language: lang.map(|l| l.to_string()),
        topics: topics.iter().map(|t| t.to_string()).collect(),
    }
}

#[test]
fn greeting_prefers_the_profile_name() {
    let u = User { login: "octocat".to_string(), name: Some("mona lisa".to_string()), email: None, twitter_username: None };
    assert_eq!(display_name(&u), "Mona lisa");
    let v = User { login: "octocat".to_string(), name: None, email: None, twitter_username: None };
    assert_eq!(display_name(&v), "octocat");
}

#[test]
fn interests_are_distinct_non_empty_languages_and_topics() {
    let repos = vec![
        repo(Some("Rust"), &["cli", "verification"]),
        repo(None, &["cli", ""]),
        repo(Some("Rust"), &[]),
        repo(Some(""), &["web"]),
    ];
    let mut got = dashboard_interests(&repos);
    got.sort();
    assert_eq!(got, vec!["Rust", "cli", "verification", "web"]);
}

#[test]
fn user_repos_are_fetched_until_four_are_shown() {
    let mut db = Database::new();
    assert!(db.needs_user_repos());
    db.record_user_repos(Some((0..6).map(|_| repo(None, &[])).collect()));
    assert_eq!(db.dash_repos.len(), 4);
    assert!(!db.needs_user_repos());
    let mut db2 = Database::new();
    db2.record_user_repos(Some(vec![repo(None, &[])]));
    assert_eq!(db2.dash_repos.len(), 1);
    assert!(db2.needs_user_repos());
    db2.record_user_repos(None);
    assert!(!db2.has_repos);
    assert!(!db2.needs_user_repos());
}

#[test]
fn sign_in_records_user_and_rate_limit() {
    let mut db = Database::new();
    db.sign_in("octocat".to_string(), 4999);
    assert_eq!(db.username, "octocat");
    assert_eq!(db.ratelimit_count, 4999);
}

#[test]
fn rate_limit_is_recorded_alone() {
    let mut db = Database::new();
    db.sign_in("octocat".to_string(), 4999);
    db.record_rate_limit(4998);
    assert_eq!(db.ratelimit_count, 4998);
    assert_eq!(db.username, "octocat");
}
