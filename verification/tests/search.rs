use rmap::model::Repo;
use rmap::search::{first_page, plan_page, quoted, window_after_fetch, PagePlan};
use rmap::state::Database;

fn repo(name: &str) -> Repo {
    Repo {
        full_name: name.to_string(),
        blobs_url: String::new(),
        default_branch: "main".to_string(),
        description: None,
        language: None,
        topics: vec![],
    }
}

fn repos(n: usize) -> Vec<Repo> {
    (0..n).map(|i| repo(&format!("o/r{}", i))).collect()
}

#[test]
fn pages_of_the_fetched_window_are_served() {
    assert_eq!(plan_page(0, 1, 30), PagePlan::Serve { start: 0, end: 10 });
    assert_eq!(plan_page(1, 1, 30), PagePlan::Serve { start: 10, end: 20 });
    assert_eq!(plan_page(2, 1, 30), PagePlan::Serve { start: 20, end: 30 });
    assert_eq!(plan_page(4, 2, 30), PagePlan::Serve { start: 10, end: 20 });
}

#[test]
fn neighbouring_pages_need_a_fetch() {
    assert_eq!(plan_page(3, 1, 30), PagePlan::FetchNext);
    assert_eq!(plan_page(2, 2, 30), PagePlan::FetchPrevious);
    assert_eq!(plan_page(2, 1, 25), PagePlan::FetchNext);
}

#[test]
fn far_pages_are_refused() {
    assert_eq!(plan_page(4, 1, 30), PagePlan::Reject);
    assert_eq!(plan_page(0, 3, 30), PagePlan::Reject);
    assert_eq!(plan_page(5, 3, 30), PagePlan::FetchPrevious);
}

#[test]
fn window_after_fetch_is_cut_at_the_end() {
    assert_eq!(window_after_fetch(3, 30), Some((0, 10)));
    assert_eq!(window_after_fetch(4, 15), Some((10, 15)));
    assert_eq!(window_after_fetch(5, 20), Some((20, 20)));
    assert_eq!(window_after_fetch(5, 10), None);
}

#[test]
fn first_page_has_at_most_ten_results() {
    assert_eq!(first_page(&repos(25)).len(), 10);
    assert_eq!(first_page(&repos(3)).len(), 3);
    assert_eq!(first_page(&repos(25))[9].full_name, "o/r9");
}

#[test]
fn search_text_is_quoted() {
    assert_eq!(quoted("verus"), "\"verus\"");
}

#[test]
fn search_and_page_fetches_move_the_window() {
    let mut db = Database::new();
    db.record_search(repos(30), Some("<l>; rel=\"next\"".to_string()));
    assert_eq!(db.search_current, 1);
    assert_eq!(db.search_link, "<l>; rel=\"next\"");
    db.record_page_fetch(repos(12), None, true);
    assert_eq!(db.search_current, 2);
    assert_eq!(db.search_repos.len(), 12);
    assert_eq!(db.search_link, "<l>; rel=\"next\"");
    db.record_page_fetch(repos(30), Some("x".to_string()), false);
    assert_eq!(db.search_current, 1);
    assert_eq!(db.search_link, "x");
    let page = db.search_page(10, 20);
    assert_eq!(page.len(), 10);
    assert_eq!(page[0].full_name, "o/r10");
}
