use rmap::buffer::{tree_refusal, RepoRefusal};
use rmap::error::Error;
use rmap::model::{Blob, Link, Node, ScanStat, Tree};
use rmap::state::{copy_db, Database};

fn blob(path: &str, kind: &str) -> Blob {
    Blob { path: path.to_string(), kind: kind.to_string(), url: String::new() }
}

fn sample_tree() -> Tree {
    Tree {
        tree: vec![
            blob("src/index.js", "blob"),
            blob("src", "tree"),
            blob("README.md", "blob"),
            blob("lib/types.ts", "blob"),
            blob("lib/.ts", "blob"),
            blob("lib/x.JS", "blob"),
        ],
    }
}

fn link(source: &str) -> Link {
    Link {
        source: source.to_string(),
        target: "b.js".to_string(),
        full_import: "import b from './b'".to_string(),
        full_path: "src/a.js".to_string(),
        kind: "import".to_string(),
    }
}

#[test]
fn new_state_has_four_free_slots() {
    let db = Database::new();
    assert_eq!(db.slots, vec![0, 1, 2, 3]);
    assert!(db.has_repos);
    assert!(db.nodes_items.is_empty());
    assert_eq!(db.search_current, 0);
}

#[test]
fn registering_keeps_source_files_and_notes_the_rest() {
    let mut db = Database::new();
    let r = db.register_tree_at("o/app".to_string(), sample_tree(), 100);
    let t = match r {
        Some(Ok(t)) => t,
        _ => panic!("expected a tree"),
    };
    assert_eq!(t.id, 0);
    let paths: Vec<&str> = t.tree.tree.iter().map(|b| b.path.as_str()).collect();
    assert_eq!(paths, vec!["src/index.js", "lib/types.ts"]);
    assert_eq!(db.slots, vec![1, 2, 3]);
    assert_eq!(db.nodes_items.len(), 1);
    assert_eq!(db.nodes_items[0].name, "o/app");
    assert_eq!(db.nodes_items[0].last_modified, Some(100));
    assert!(db.nodes_items[0].links.is_none());
    assert_eq!(db.scan_stats.len(), 1);
    assert_eq!(db.scan_stats[0].task, "skipped (files)");
    assert_eq!(db.scan_stats[0].value, 4);
}

#[test]
fn registering_a_buffered_repo_is_refused() {
    let mut db = Database::new();
    let _ = db.register_tree_at("o/app".to_string(), sample_tree(), 1);
    let r = db.register_tree_at("app".to_string(), sample_tree(), 2);
    assert!(matches!(r, Some(Err(Error::BadRequest))));
    assert_eq!(db.nodes_items.len(), 1);
}

#[test]
fn fifth_repo_evicts_the_oldest_and_reuses_its_slot() {
    let mut db = Database::new();
    for (i, name) in ["a/1", "b/2", "c/3", "d/4"].iter().enumerate() {
        let r = db.register_tree_at(name.to_string(), sample_tree(), i as i64);
        assert!(matches!(r, Some(Ok(_))));
    }
    assert!(db.slots.is_empty());
    let r = db.register_tree_at("e/5".to_string(), sample_tree(), 9);
    match r {
        Some(Ok(t)) => assert_eq!(t.id, 0),
        _ => panic!("expected a tree"),
    }
    let names: Vec<&str> = db.nodes_items.iter().map(|n| n.name.as_str()).collect();
    assert_eq!(names, vec!["b/2", "c/3", "d/4", "e/5"]);
    assert!(db.scan_stats.iter().all(|s| s.name != "a/1"));
    assert_eq!(db.scan_stats.len(), 4);
    assert!(db.slots.is_empty());
}

#[test]
fn registering_without_free_slot_gives_nothing() {
    let mut db = Database::new();
    db.slots.clear();
    let r = db.register_tree_at("a/1".to_string(), sample_tree(), 0);
    assert!(r.is_none());
}

#[test]
fn clock_registration_stamps_a_time() {
    let mut db = Database::new();
    let r = db.register_tree("a/1".to_string(), sample_tree());
    assert!(matches!(r, Some(Ok(_))));
    assert!(db.nodes_items[0].last_modified.unwrap() > 1_600_000_000);
}

#[test]
fn stored_links_read_back() {
    let mut db = Database::new();
    let _ = db.register_tree_at("o/app".to_string(), sample_tree(), 1);
    let _ = db.register_tree_at("o/lib".to_string(), sample_tree(), 1);
    assert_eq!(db.get_links(&"app".to_string()), None);
    let links = vec![link("a.js"), link("c.js")];
    db.put_links_at(&"app".to_string(), &links, 50);
    assert_eq!(db.get_links(&"app".to_string()), Some(links.clone()));
    assert_eq!(db.get_links(&"o/lib".to_string()), None);
    assert_eq!(db.get_links(&"zzz".to_string()), None);
    assert!(db.nodes_items.iter().all(|n| n.last_modified == Some(50)));
    db.put_links(&"lib".to_string(), &links);
    assert_eq!(db.get_links(&"o/lib".to_string()), Some(links));
}

#[test]
fn request_refusals_follow_the_buffer() {
    let mut db = Database::new();
    assert_eq!(db.repo_request_refusal(&"o/app".to_string()), None);
    for name in ["a/1", "b/2", "c/3", "d/4"] {
        let _ = db.register_tree_at(name.to_string(), sample_tree(), 0);
    }
    assert_eq!(db.repo_request_refusal(&"x/y".to_string()), Some(RepoRefusal::UnprocessedLimit));
    db.put_links_at(&"a/1".to_string(), &vec![], 0);
    assert_eq!(db.repo_request_refusal(&"x/y".to_string()), None);
    assert_eq!(db.repo_request_refusal(&"a/1".to_string()), Some(RepoRefusal::AlreadyProcessed));
    assert_eq!(RepoRefusal::AlreadyProcessed.message(), "Repo already processed and exist in buffer");
    assert_eq!(RepoRefusal::UnprocessedLimit.message(), "Unprocessed repo limit reached, try again in a few");
}

#[test]
fn tree_size_limit_is_one_and_a_half_megabytes() {
    assert_eq!(tree_refusal(1_499_999), None);
    assert_eq!(tree_refusal(1_500_000), Some(RepoRefusal::TooLarge));
    assert_eq!(RepoRefusal::TooLarge.message(), "Too big of a response, try using rtree-cli");
}

#[test]
fn scan_reports_the_slot_holder() {
    let mut db = Database::new();
    let _ = db.register_tree_at("rust-lang/rust".to_string(), sample_tree(), 0);
    let s = db.scan_for(0).ok().unwrap();
    assert_eq!(s.name, "rust-lang/rust");
    assert_eq!(s.class_name, "rustlangrust");
    assert!(!s.is_done);
    assert!(!s.is_error);
    assert_eq!(s.id, 0);
    assert!(matches!(db.scan_for(1), Err(Error::BadRequest)));
    db.put_links_at(&"rust".to_string(), &vec![], 0);
    assert!(db.scan_for(0).ok().unwrap().is_done);
}

#[test]
fn scan_refuses_a_shared_slot() {
    let mut db = Database::new();
    for name in ["a/1", "b/2"] {
        db.nodes_items.push_back(Node { name: name.to_string(), links: None, last_modified: None, id: 3 });
    }
    assert!(matches!(db.scan_for(3), Err(Error::BadRequest)));
}

#[test]
fn dashboard_shows_four_entries() {
    let mut db = Database::new();
    let _ = db.register_tree_at("a/1".to_string(), sample_tree(), 0);
    let _ = db.register_tree_at("b/2".to_string(), sample_tree(), 0);
    db.put_links_at(&"b/2".to_string(), &vec![], 0);
    let scans = db.dashboard_scans();
    assert_eq!(scans.len(), 4);
    let first = scans[0].as_ref().unwrap();
    assert!(first.is_error && !first.is_done);
    let second = scans[1].as_ref().unwrap();
    assert!(second.is_done && !second.is_error);
    assert_eq!(second.class_name, "b2");
    assert!(scans[2].is_none() && scans[3].is_none());
}

#[test]
fn stats_are_appended() {
    let mut db = Database::new();
    let stat = ScanStat { task: "parse".to_string(), name: "o/a".to_string(), value: 3 };
    let stats = db.put_stat(stat);
    assert_eq!(stats.len(), 1);
    assert_eq!(db.get_stats()[0].task, "parse");
    assert_eq!(db.get_stats()[0].value, 3);
}

#[test]
fn copying_a_stored_state_replaces_everything() {
    let mut stored = Database::new();
    let _ = stored.register_tree_at("a/1".to_string(), sample_tree(), 0);
    stored.username = "octocat".to_string();
    let mut db = Database::new();
    copy_db(&Some(stored.clone()), &mut db);
    assert_eq!(db.username, "octocat");
    assert_eq!(db.slots, vec![1, 2, 3]);
    assert_eq!(db.nodes_items.len(), 1);
    copy_db(&None, &mut db);
    assert_eq!(db.username, "octocat");
}

#[test]
fn node_queries() {
    let n = Node { name: "owner/repo".to_string(), links: Some(vec![]), last_modified: None, id: 2 };
    assert!(n.contains(&"r/r".to_string()));
    assert!(!n.contains(&"x".to_string()));
    assert!(n.is_some());
    assert!(!n.is_none());
}
