use docsort::config::config_candidates;
use docsort::config::inbox_label;
use docsort::config::InboxConfig;

#[test]
fn inbox_label_returns_configured_label_when_set() {
    let inbox = InboxConfig {
        label: Some("My Scans".to_string()),
        path: "/tmp/scans".to_string(),
    };
    assert_eq!(inbox_label(&inbox), "My Scans");
}

#[test]
fn inbox_label_falls_back_to_folder_name_when_absent() {
    let inbox = InboxConfig {
        label: None,
        path: "/tmp/scans".to_string(),
    };
    assert_eq!(inbox_label(&inbox), "scans");
}

#[test]
fn inbox_label_ignores_trailing_slash() {
    let inbox = InboxConfig {
        label: None,
        path: "/tmp/Downloads/".to_string(),
    };
    assert_eq!(inbox_label(&inbox), "Downloads");
}

#[test]
fn inbox_label_of_root_is_whole_path() {
    let inbox = InboxConfig {
        label: None,
        path: "/".to_string(),
    };
    assert_eq!(inbox_label(&inbox), "/");
}

#[test]
fn inbox_label_of_parent_reference_is_whole_path() {
    let inbox = InboxConfig {
        label: None,
        path: "inbox/..".to_string(),
    };
    assert_eq!(inbox_label(&inbox), "inbox/..");
}


#[test]
fn config_is_looked_for_up_to_the_root() {
    assert_eq!(
        config_candidates("/home/user/docs"),
        vec![
            "/home/user/docs/.docsort.toml",
            "/home/user/.docsort.toml",
            "/home/.docsort.toml",
            "/.docsort.toml",
        ]
    );
}

#[test]
fn config_candidates_of_root_and_relative_dirs() {
    assert_eq!(config_candidates("/"), vec!["/.docsort.toml"]);
    assert_eq!(
        config_candidates("a/b/"),
        vec!["a/b/.docsort.toml", "a/.docsort.toml", ".docsort.toml"]
    );
}

#[test]
fn inbox_label_of_current_dir_is_whole_path() {
    let inbox = InboxConfig {
        label: None,
        path: ".".to_string(),
    };
    assert_eq!(inbox_label(&inbox), ".");
}

#[test]
fn config_candidates_from_dot_relative_dir() {
    assert_eq!(
        config_candidates("./a"),
        vec!["./a/.docsort.toml", "./.docsort.toml", ".docsort.toml"]
    );
}
