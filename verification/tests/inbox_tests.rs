use docsort::inbox::Walked;
use docsort::inbox::found_files;
use docsort::inbox::FoundFile;
use docsort::inbox::inbox_files;
use docsort::config::InboxConfig;
use docsort::inbox::compute_subfolder;
use docsort::inbox::group_folder;
use docsort::inbox::inbox_file;
use docsort::inbox::is_hidden_name;
use docsort::inbox::sort_inbox_files;
use docsort::inbox::top_level_dir;
use docsort::inbox::InboxFile;

const SEC: i128 = 1_000_000_000;

#[test]
fn sort_inbox_files_synthetic_ordering() {
    let t1 = SEC;
    let t2 = 2 * SEC;
    let t3 = 3 * SEC;
    let t4 = 4 * SEC;

    let make = |filename: &str, modified: i128, group_sort_key: i128| InboxFile {
        label: "Test".to_string(),
        path: filename.to_string(),
        filename: filename.to_string(),
        modified,
        subfolder: None,
        group_sort_key,
    };

    let sub_old = make("sub_old.txt", t1, t3);
    let sub_new = make("sub_new.txt", t2, t3);
    let top = make("top.txt", t4, t4);
    let old_top = make("old_top.txt", t1, t1);

    let mut files = vec![sub_old, sub_new, top, old_top];
    sort_inbox_files(&mut files);

    let names: Vec<&str> = files.iter().map(|f| f.filename.as_str()).collect();
    assert_eq!(names[0], "top.txt");
    assert_eq!(names[1], "sub_new.txt");
    assert_eq!(names[2], "sub_old.txt");
    assert_eq!(names[3], "old_top.txt");
}

fn file(name: &str, modified: i128, key: i128) -> InboxFile {
    InboxFile {
        label: "In".to_string(),
        path: format!("/in/{name}"),
        filename: name.to_string(),
        modified,
        subfolder: None,
        group_sort_key: key,
    }
}

#[test]
fn sort_keeps_input_order_of_ties() {
    let mut files = vec![file("a", 5, 5), file("b", 5, 5), file("c", 9, 5)];
    sort_inbox_files(&mut files);
    let names: Vec<&str> = files.iter().map(|f| f.filename.as_str()).collect();
    assert_eq!(names, vec!["c", "a", "b"]);
}

/// Two files of one subfolder stay adjacent even when a top-level file's
/// time falls between theirs.
#[test]
fn subfolder_files_stay_grouped_after_sort() {
    let root = "/inbox";
    let group_key = 10;
    let first = inbox_file("Inbox", root, "/inbox/Group/first.txt", "first.txt", 1, Some(group_key));
    let top = inbox_file("Inbox", root, "/inbox/top.txt", "top.txt", 2, None);
    let second = inbox_file("Inbox", root, "/inbox/Group/second.txt", "second.txt", 3, Some(group_key));
    let mut files = vec![first, top, second];
    sort_inbox_files(&mut files);
    let names: Vec<&str> = files.iter().map(|f| f.filename.as_str()).collect();
    assert_eq!(names, vec!["second.txt", "first.txt", "top.txt"]);
}

/// A top-level file modified after its sibling subfolder comes before the
/// subfolder's files.
#[test]
fn subfolder_files_interleaved_with_top_level_by_folder_date() {
    let root = "/inbox";
    let notes = inbox_file("Inbox", root, "/inbox/OldFolder/notes.txt", "notes.txt", 5 * SEC, Some(SEC));
    let top = inbox_file("Inbox", root, "/inbox/top.txt", "top.txt", 2 * SEC, None);
    let mut files = vec![notes, top];
    sort_inbox_files(&mut files);
    assert_eq!(files[0].filename, "top.txt");
    assert_eq!(files[1].filename, "notes.txt");
}

/// Top-level files are listed newest first.
#[test]
fn scan_inboxes_returns_files_sorted_newest_first() {
    let a = inbox_file("Inbox", "/inbox", "/inbox/a.txt", "a.txt", SEC, None);
    let b = inbox_file("Inbox", "/inbox", "/inbox/b.txt", "b.txt", 2 * SEC, None);
    let mut files = vec![a, b];
    sort_inbox_files(&mut files);
    assert_eq!(files[0].filename, "b.txt");
    assert_eq!(files[1].filename, "a.txt");
}

#[test]
fn sort_handles_times_before_the_epoch() {
    let mut files = vec![file("old", -5 * SEC, -5 * SEC), file("new", 0, 0)];
    sort_inbox_files(&mut files);
    assert_eq!(files[0].filename, "new");
}

/// A file nested three levels deep has the subfolder `A/B/C/` and takes
/// its group key from the top-level folder `A`.
#[test]
fn deep_nesting_subfolder_and_group_sort_key() {
    let root = "/inbox";
    let path = "/inbox/A/B/C/file.txt";
    assert_eq!(compute_subfolder(root, path).as_deref(), Some("A/B/C/"));
    assert_eq!(top_level_dir(root, path), "/inbox/A");
    assert_eq!(group_folder(root, path).as_deref(), Some("/inbox/A"));
    let top_level_key = 42 * SEC;
    let f = inbox_file("Inbox", root, path, "file.txt", 7 * SEC, Some(top_level_key));
    assert_eq!(f.filename, "file.txt");
    assert_eq!(f.subfolder.as_deref(), Some("A/B/C/"));
    assert_eq!(f.group_sort_key, top_level_key);
}

#[test]
fn inbox_file_carries_correct_label() {
    let f = inbox_file("MyLabel", "/inbox", "/inbox/doc.txt", "doc.txt", 0, None);
    assert_eq!(f.label, "MyLabel");
}

#[test]
fn top_level_file_has_no_subfolder() {
    assert_eq!(compute_subfolder("/inbox", "/inbox/doc.pdf"), None);
    assert_eq!(compute_subfolder("/inbox/", "/inbox/doc.pdf"), None);
    assert_eq!(group_folder("/inbox", "/inbox/doc.pdf"), None);
    assert_eq!(top_level_dir("/inbox", "/inbox/doc.pdf"), "/inbox/doc.pdf");
}

#[test]
fn file_outside_root_has_no_subfolder() {
    assert_eq!(compute_subfolder("/inbox", "/elsewhere/x/doc.pdf"), None);
    assert_eq!(top_level_dir("/inbox", "/elsewhere/x/doc.pdf"), "/elsewhere/x/doc.pdf");
}

#[test]
fn subfolder_with_spaces() {
    assert_eq!(
        compute_subfolder("/in", "/in/ProjectA/Client Work/x.pdf").as_deref(),
        Some("ProjectA/Client Work/")
    );
}

#[test]
fn hidden_names_start_with_a_dot() {
    assert!(is_hidden_name(".DS_Store"));
    assert!(is_hidden_name(".hidden"));
    assert!(!is_hidden_name("visible.txt"));
    assert!(!is_hidden_name(""));
}

#[test]
fn inbox_file_for_top_level_file_keys_on_its_own_time() {
    let f = inbox_file("Scans", "/in", "/in/a.pdf", "a.pdf", 7, Some(99));
    assert_eq!(f.label, "Scans");
    assert_eq!(f.path, "/in/a.pdf");
    assert_eq!(f.filename, "a.pdf");
    assert_eq!(f.modified, 7);
    assert_eq!(f.subfolder, None);
    assert_eq!(f.group_sort_key, 7);
}

#[test]
fn inbox_file_in_subfolder_keys_on_folder_time() {
    let f = inbox_file("Scans", "/in", "/in/Tax/2024/a.pdf", "a.pdf", 7, Some(99));
    assert_eq!(f.subfolder.as_deref(), Some("Tax/2024/"));
    assert_eq!(f.group_sort_key, 99);
}

#[test]
fn inbox_file_in_subfolder_without_folder_time_keys_on_epoch() {
    let f = inbox_file("Scans", "/in", "/in/Tax/a.pdf", "a.pdf", 7, None);
    assert_eq!(f.group_sort_key, 0);
}


#[test]
fn inbox_files_carry_the_inbox_label() {
    let inbox = InboxConfig {
        label: None,
        path: "/home/u/Scans".to_string(),
    };
    let found = vec![
        FoundFile {
            path: "/home/u/Scans/a.pdf".to_string(),
            filename: "a.pdf".to_string(),
            modified: 5,
            folder_time: None,
        },
        FoundFile {
            path: "/home/u/Scans/Tax/b.pdf".to_string(),
            filename: "b.pdf".to_string(),
            modified: 6,
            folder_time: Some(9),
        },
    ];
    let files = inbox_files(&inbox, found);
    assert_eq!(files.len(), 2);
    assert!(files.iter().all(|f| f.label == "Scans"));
    assert_eq!(files[0].subfolder, None);
    assert_eq!(files[0].group_sort_key, 5);
    assert_eq!(files[1].subfolder.as_deref(), Some("Tax/"));
    assert_eq!(files[1].group_sort_key, 9);
}


fn found(path: &str) -> FoundFile {
    FoundFile {
        path: path.to_string(),
        filename: path.rsplit('/').next().unwrap().to_string(),
        modified: 1,
        folder_time: None,
    }
}

#[test]
fn found_files_keeps_files_and_skips_the_rest() {
    let entries = vec![
        Walked::File(found("/in/a.pdf")),
        Walked::Failed,
        Walked::NotFile,
        Walked::File(found("/in/b.pdf")),
    ];
    let files = found_files(entries).unwrap();
    let names: Vec<&str> = files.iter().map(|f| f.filename.as_str()).collect();
    assert_eq!(names, vec!["a.pdf", "b.pdf"]);
}

#[test]
fn found_files_fails_at_first_unreadable_entry() {
    let entries = vec![
        Walked::File(found("/in/a.pdf")),
        Walked::NoTime("failed to read modification time for /in/x".to_string()),
        Walked::Unreadable("failed to read metadata for /in/y".to_string()),
    ];
    assert_eq!(
        found_files(entries).unwrap_err(),
        "failed to read modification time for /in/x"
    );
}

#[test]
fn subfolder_below_dot_relative_root() {
    assert_eq!(compute_subfolder("./in", "./in/x/f.pdf").as_deref(), Some("x/"));
    assert_eq!(compute_subfolder("in", "./in/x/f.pdf"), None);
}

#[test]
fn subfolder_joined_to_the_root_gives_the_parent() {
    let s = compute_subfolder("/in", "/in/a/b/x.pdf").unwrap();
    assert_eq!(s, "a/b/");
    assert_eq!(docsort::paths::join_path("/in", &s[..s.len() - 1]), "/in/a/b");
}
