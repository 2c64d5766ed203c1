use docsort::app::App;
use docsort::app::AppState;
use docsort::config::Config;
use docsort::config::DestinationConfig;
use docsort::dest::DestIndex;
use docsort::dest::WalkEntry;
use docsort::inbox::InboxFile;
use docsort::screen::listing_pane;
use docsort::screen::Accent;
use docsort::screen::NameTail;
use docsort::screen::Tone;
use docsort::ui::LabelColor;

fn inbox_file(label: &str, path: &str, subfolder: Option<&str>) -> InboxFile {
    InboxFile {
        label: label.to_string(),
        path: path.to_string(),
        filename: path.rsplit('/').next().unwrap().to_string(),
        modified: 0,
        subfolder: subfolder.map(|s| s.to_string()),
        group_sort_key: 0,
    }
}

fn app_with(files: Vec<InboxFile>) -> App {
    let config = Config {
        inboxes: vec![],
        destination: DestinationConfig {
            root: "/archive".to_string(),
        },
    };
    let entries = vec![
        Some(WalkEntry {
            path: "/archive/Finance".to_string(),
            is_dir: true,
        }),
        Some(WalkEntry {
            path: "/archive/Health".to_string(),
            is_dir: true,
        }),
    ];
    App::new(files, DestIndex::new("/archive", entries).unwrap(), &config)
}

#[test]
fn file_rows_pad_labels_and_mark_cursor() {
    let app = app_with(vec![
        inbox_file("Scans", "/s/a.pdf", None),
        inbox_file("Downloads", "/d/b.pdf", Some("Tax/")),
    ]);
    let rows = app.file_rows(10, 80);
    assert_eq!(rows.len(), 2);
    assert!(rows[0].highlighted);
    assert!(!rows[1].highlighted);
    assert_eq!(rows[0].marker, "\u{25b6} ");
    assert_eq!(rows[1].marker, "  ");
    assert_eq!(rows[0].label, "Scans     \u{276f} ");
    assert_eq!(rows[1].label, "Downloads \u{276f} ");
    assert_eq!(rows[0].color, LabelColor::Blue);
    assert_eq!(rows[1].color, LabelColor::Green);
    assert_eq!(rows[0].subfolder, "");
    assert_eq!(rows[1].subfolder, "Tax/");
    assert_eq!(rows[1].filename, "b.pdf");
    assert!(!rows[0].moved);
}

#[test]
fn file_rows_shorten_to_width() {
    // Width 20 leaves 20 - (2 + 2 + 3) = 13 characters for folder and name.
    let app = app_with(vec![inbox_file(
        "In",
        "/in/Projects/Client/report.pdf",
        Some("Projects/Client/"),
    )]);
    let rows = app.file_rows(5, 20);
    assert_eq!(rows[0].filename, "report.pdf");
    assert_eq!(rows[0].subfolder, "\u{2026}/");
}

#[test]
fn file_rows_leave_room_for_check_mark_of_moved_file() {
    let mut app = app_with(vec![inbox_file("In", "/in/A/report.pdf", Some("A/"))]);
    // Width 19: 12 characters left, "A/report.pdf" fits exactly.
    assert_eq!(app.file_rows(5, 19)[0].subfolder, "A/");
    app.moved
        .insert("/in/A/report.pdf".to_string(), "/archive/x/report.pdf".to_string());
    let row = &app.file_rows(5, 19)[0];
    assert!(row.moved);
    // 8 characters left: the folder is dropped, the name shortened.
    assert_eq!(row.subfolder, "");
    assert_eq!(row.filename, "r\u{2026}rt.pdf");
}

#[test]
fn file_rows_pad_by_bytes_of_widest_label() {
    // "Réseau" is 7 bytes: "Mail" is padded to 7 characters.
    let app = app_with(vec![
        inbox_file("Réseau", "/r/a.pdf", None),
        inbox_file("Mail", "/m/b.pdf", None),
    ]);
    let rows = app.file_rows(5, 80);
    assert_eq!(rows[0].label, "Réseau  \u{276f} ");
    assert_eq!(rows[1].label, "Mail    \u{276f} ");
}

#[test]
fn file_rows_scroll_with_cursor() {
    let files: Vec<InboxFile> = (0..30)
        .map(|i| inbox_file("In", &format!("/in/f{i:02}.pdf"), None))
        .collect();
    let mut app = app_with(files);
    app.cursor = 20;
    let rows = app.file_rows(10, 80);
    assert_eq!(rows.len(), 10);
    assert_eq!(rows[0].filename, "f15.pdf");
    assert!(rows[5].highlighted);
}

#[test]
fn result_rows_mark_highlighted_result() {
    let mut app = app_with(vec![]);
    app.search_cursor = 1;
    let rows = app.result_rows(5);
    assert_eq!(rows.len(), 2);
    assert_eq!(rows[0].text, "  Finance");
    assert_eq!(rows[1].text, "\u{25b6} Health");
    assert!(rows[1].highlighted);
}

#[test]
fn search_input_shows_placeholder_or_query() {
    let mut app = app_with(vec![]);
    app.state = AppState::Searching;
    let line = app.search_input();
    assert_eq!(line.prompt, "> ");
    assert_eq!(line.accent, Accent::Cyan);
    assert_eq!(line.text, "type to search");
    assert!(line.placeholder);
    app.state = AppState::SubfolderCreation;
    app.search_query = "Q1".to_string();
    let line = app.search_input();
    assert_eq!(line.prompt, "New folder: ");
    assert_eq!(line.accent, Accent::Magenta);
    assert_eq!(line.text, "Q1");
    assert!(!line.placeholder);
    app.search_query.clear();
    assert_eq!(app.search_input().text, "type folder name");
}

#[test]
fn listed_folder_is_highlighted_result_below_root() {
    let mut app = app_with(vec![]);
    app.search_cursor = 1;
    assert_eq!(app.listed_folder().as_deref(), Some("/archive/Health"));
    app.search_results.clear();
    assert_eq!(app.listed_folder(), None);
}

#[test]
fn listing_pane_pads_or_cuts_to_rows() {
    let names = vec!["a.pdf".to_string(), "b.pdf".to_string(), "c.pdf".to_string()];
    assert_eq!(listing_pane(&names, 2), vec!["a.pdf", "b.pdf"]);
    assert_eq!(listing_pane(&names, 5), vec!["a.pdf", "b.pdf", "c.pdf", "", ""]);
    assert_eq!(listing_pane(&vec![], 3), vec!["(no files)", "", ""]);
    assert_eq!(listing_pane(&vec![], 0), vec!["(no files)"]);
}

#[test]
fn naming_form_lists_other_files_as_tree() {
    let mut app = app_with(vec![inbox_file("In", "/in/doc.pdf", None)]);
    app.state = AppState::Naming;
    app.selected_dest = Some("Finance".to_string());
    let listing = vec!["a.pdf".to_string(), "doc.pdf".to_string(), "z.pdf".to_string()];
    let form = app.naming_form(&listing, 10);
    assert_eq!(form.dest, "Finance");
    assert!(form.has_files);
    assert_eq!(
        form.tree,
        vec!["  \u{251c}\u{2500} a.pdf", "  \u{2514}\u{2500} z.pdf"]
    );
    // 10 lines: header, two tree lines, two input lines, five blank.
    assert_eq!(form.blank_rows, 5);
    assert_eq!(form.stem, "doc");
    assert_eq!(form.extension, ".pdf");
    assert_eq!(form.typed, "");
    assert_eq!(form.tail, NameTail::CursorKeep);
}

#[test]
fn naming_form_keeps_latest_files_that_fit() {
    let mut app = app_with(vec![inbox_file("In", "/in/doc", None)]);
    app.selected_dest = Some("Finance".to_string());
    app.name_input = "new".to_string();
    let listing: Vec<String> = (1..=6).map(|i| format!("f{i}")).collect();
    // 5 lines: room for 2 names below the header.
    let form = app.naming_form(&listing, 5);
    assert_eq!(form.tree, vec!["  \u{251c}\u{2500} f5", "  \u{2514}\u{2500} f6"]);
    assert_eq!(form.blank_rows, 0);
    assert_eq!(form.stem, "doc");
    assert_eq!(form.extension, "");
    assert_eq!(form.tail, NameTail::Cursor);
}

#[test]
fn naming_form_without_files_shows_placeholder() {
    let mut app = app_with(vec![inbox_file("In", "/in/doc.pdf", None)]);
    app.name_input = "x".to_string();
    let form = app.naming_form(&vec![], 3);
    assert!(!form.has_files);
    assert_eq!(form.tree, vec!["  \u{2514}\u{2500} (no files)"]);
    assert_eq!(form.dest, "");
    assert_eq!(form.tail, NameTail::DotCursor);
}

#[test]
fn hint_line_follows_mode_and_errors() {
    let mut app = app_with(vec![inbox_file("In", "/in/doc.pdf", None)]);
    let (text, tone) = app.hint_line();
    assert!(text.contains("d delete"));
    assert_eq!(tone, Tone::Muted);
    app.moved
        .insert("/in/doc.pdf".to_string(), "/archive/Finance/doc.pdf".to_string());
    assert!(app.hint_line().0.contains("u undo"));
    app.state = AppState::Searching;
    assert_eq!(
        app.hint_line().0,
        "\u{21b5} confirm  Tab new folder  Esc cancel  ^Spc preview"
    );
    app.state = AppState::SubfolderCreation;
    assert_eq!(app.hint_line().0, "\u{21b5} create  Esc cancel  ^Spc preview");
    app.state = AppState::Naming;
    assert_eq!(app.hint_line().0, "\u{21b5} confirm (empty=keep)  Esc clear/back");
    app.error_message = Some("Move failed: x".to_string());
    assert_eq!(app.hint_line(), ("Move failed: x".to_string(), Tone::Alert));
    app.last_ctrl_c = Some(1);
    assert_eq!(app.hint_line().1, Tone::Muted);
}

#[test]
fn summary_names_the_folder_and_the_new_name() {
    assert_eq!(
        docsort::screen::summary_text("/inbox/scan.pdf", "/archive/Tax/2024/receipt.pdf", "receipt.pdf", "/archive"),
        "scan.pdf \u{2192} Tax/2024/receipt.pdf"
    );
}

#[test]
fn summary_of_a_file_filed_at_the_root_shows_the_name_alone() {
    assert_eq!(
        docsort::screen::summary_text("/inbox/a.txt", "/archive/b.txt", "b.txt", "/archive"),
        "a.txt \u{2192} b.txt"
    );
}

#[test]
fn summary_of_a_file_outside_the_root_shows_the_name_alone() {
    assert_eq!(
        docsort::screen::summary_text("/inbox/a.txt", "/other/x/b.txt", "b.txt", "/archive"),
        "a.txt \u{2192} b.txt"
    );
}
