use docsort::dest::rank_matches;
use docsort::dest::DestError;
use docsort::dest::DestIndex;
use docsort::dest::DirEntry;
use docsort::dest::WalkEntry;
use docsort::dest::MAX_RESULTS;

fn dir(path: &str) -> Option<WalkEntry> {
    Some(WalkEntry {
        path: path.to_string(),
        is_dir: true,
    })
}

fn plain_file(path: &str) -> Option<WalkEntry> {
    Some(WalkEntry {
        path: path.to_string(),
        is_dir: false,
    })
}

/// root/
///   alpha/
///     beta/
///   gamma/
fn setup_tree(root: &str) -> Vec<Option<WalkEntry>> {
    vec![
        dir(&format!("{root}/alpha")),
        dir(&format!("{root}/alpha/beta")),
        plain_file(&format!("{root}/alpha/notes.txt")),
        dir(&format!("{root}/gamma")),
    ]
}

fn file_entry(name: &str) -> DirEntry {
    DirEntry {
        name: name.to_string(),
        is_file: true,
    }
}

#[test]
fn new_collects_subdirs_excluding_root() {
    let index = DestIndex::new("/tmp/archive", setup_tree("/tmp/archive")).expect("index should build");
    let dirs = index.dirs();
    assert!(dirs.contains(&"alpha".to_string()));
    assert!(dirs.contains(&"alpha/beta".to_string()));
    assert!(dirs.contains(&"gamma".to_string()));
    assert!(!dirs.contains(&"".to_string()));
    assert_eq!(dirs, &vec!["alpha", "alpha/beta", "gamma"]);
}

#[test]
fn query_returns_matches_for_pattern() {
    let index = DestIndex::new("/tmp/archive", setup_tree("/tmp/archive")).unwrap();
    let results = index.query("alp");
    assert!(!results.is_empty());
    assert!(results.iter().any(|r| r.contains("alpha")));
    assert!(!results.contains(&"gamma".to_string()));
}

#[test]
fn query_empty_pattern_returns_all_dirs() {
    let index = DestIndex::new("/tmp/archive", setup_tree("/tmp/archive")).unwrap();
    let results = index.query("");
    assert_eq!(results.len(), index.dirs().len());
}

#[test]
fn rebuild_picks_up_new_directory() {
    let root = "/tmp/archive";
    let mut index = DestIndex::new(root, setup_tree(root)).unwrap();
    assert!(!index.dirs().contains(&"delta".to_string()));
    let mut entries = setup_tree(root);
    entries.push(dir("/tmp/archive/delta"));
    index.rebuild(root, entries).unwrap();
    assert!(index.dirs().contains(&"delta".to_string()));
}

#[test]
fn list_files_returns_sorted_filenames() {
    let entries = vec![
        file_entry("c.txt"),
        file_entry("a.txt"),
        file_entry("b.txt"),
        DirEntry {
            name: "nested".to_string(),
            is_file: false,
        },
    ];
    let files = DestIndex::list_files(entries);
    assert_eq!(files, vec!["a.txt", "b.txt", "c.txt"]);
}

// ── further cases ────────────────────────────────────────────────────────

#[test]
fn list_files_orders_by_code_point() {
    let entries = vec![
        file_entry("b"),
        file_entry("B"),
        file_entry("ab"),
        file_entry("a"),
        file_entry("é"),
    ];
    assert_eq!(DestIndex::list_files(entries), vec!["B", "a", "ab", "b", "é"]);
}

#[test]
fn listing_dir_joins_root_and_folder() {
    assert_eq!(DestIndex::listing_dir("/archive", "Finance/2024"), "/archive/Finance/2024");
}

#[test]
fn failed_walk_entry_fails_the_index() {
    let entries = vec![dir("/a/x"), None, dir("/a/y")];
    match DestIndex::new("/a", entries) {
        Err(e) => {
            assert!(matches!(e, DestError::Walk));
            assert_eq!(e.message("/a"), "failed to walk directory: /a");
        }
        Ok(_) => panic!("expected an error"),
    }
}

#[test]
fn entry_outside_root_fails_the_index() {
    let entries = vec![dir("/a/x"), dir("/b/y")];
    match DestIndex::new("/a", entries) {
        Err(e) => assert_eq!(e.message("/a"), "entry /b/y is not under root /a"),
        Ok(_) => panic!("expected an error"),
    }
}

#[test]
fn failed_rebuild_keeps_the_index() {
    let root = "/tmp/archive";
    let mut index = DestIndex::new(root, setup_tree(root)).unwrap();
    assert!(index.rebuild(root, vec![None]).is_err());
    assert_eq!(index.dirs(), &vec!["alpha", "alpha/beta", "gamma"]);
}

#[test]
fn empty_query_caps_at_fifty_in_index_order() {
    let entries: Vec<Option<WalkEntry>> = (0..60).map(|i| dir(&format!("/r/d{i:02}"))).collect();
    let index = DestIndex::new("/r", entries).unwrap();
    let results = index.query("");
    assert_eq!(results.len(), MAX_RESULTS);
    assert_eq!(results[0], "d00");
    assert_eq!(results[49], "d49");
}

#[test]
fn pattern_query_caps_at_fifty() {
    let entries: Vec<Option<WalkEntry>> = (0..60).map(|i| dir(&format!("/r/box{i:02}"))).collect();
    let index = DestIndex::new("/r", entries).unwrap();
    let results = index.query("box");
    assert_eq!(results.len(), MAX_RESULTS);
}

#[test]
fn query_ranks_closer_match_first() {
    let entries = vec![dir("/r/a-x-b-x-c"), dir("/r/abc")];
    let index = DestIndex::new("/r", entries).unwrap();
    let results = index.query("abc");
    assert_eq!(results.len(), 2);
    assert_eq!(results[0], "abc");
}

#[test]
fn query_ignores_case() {
    let entries = vec![dir("/r/Finance"), dir("/r/Health")];
    let index = DestIndex::new("/r", entries).unwrap();
    assert_eq!(index.query("fin"), vec!["Finance"]);
}

fn names(v: &[&str]) -> Vec<String> {
    v.iter().map(|s| s.to_string()).collect()
}

#[test]
fn rank_matches_orders_by_score_and_drops_non_matches() {
    let dirs = names(&["a", "b", "c", "d"]);
    let scores = vec![Some(1), None, Some(5), Some(1)];
    assert_eq!(rank_matches(&dirs, &scores), vec!["c", "a", "d"]);
}

#[test]
fn rank_matches_keeps_the_best_fifty() {
    let dirs: Vec<String> = (0..60).map(|i| format!("d{i:02}")).collect();
    let scores: Vec<Option<u32>> = (0..60).map(|i| Some(i as u32)).collect();
    let ranked = rank_matches(&dirs, &scores);
    assert_eq!(ranked.len(), MAX_RESULTS);
    assert_eq!(ranked[0], "d59");
    assert_eq!(ranked[49], "d10");
}

#[test]
fn rank_matches_of_nothing_is_empty() {
    assert!(rank_matches(&names(&["a"]), &vec![None]).is_empty());
    assert!(rank_matches(&vec![], &vec![]).is_empty());
}
