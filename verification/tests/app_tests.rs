use docsort::app::viewport_height;
use docsort::app::App;
use docsort::app::AppAction;
use docsort::app::AppState;
use docsort::app::Effect;
use docsort::app::Key;
use docsort::app::KeyInput;
use docsort::app::Outcome;
use docsort::app::Step;
use docsort::app::MAX_LIST_HEIGHT;
use docsort::app::MIN_VIEWPORT_HEIGHT;
use docsort::config::Config;
use docsort::config::DestinationConfig;
use docsort::config::InboxConfig;
use docsort::dest::DestIndex;
use docsort::dest::WalkEntry;
use docsort::inbox::InboxFile;
use docsort::quicklook::PreviewCommand;

const ROOT: &str = "/archive";
const SECOND: u64 = 1_000_000_000;

// ── viewport_height ──────────────────────────────────────────────────────

#[test]
fn viewport_height_zero_files_returns_minimum() {
    assert_eq!(viewport_height(0), MIN_VIEWPORT_HEIGHT);
}

#[test]
fn viewport_height_few_files_uses_content_size() {
    assert_eq!(viewport_height(3), 5);
}

#[test]
fn viewport_height_many_files_caps_at_max() {
    assert_eq!(viewport_height(100), MAX_LIST_HEIGHT);
}

#[test]
fn viewport_height_exact_max_boundary() {
    assert_eq!(viewport_height(MAX_LIST_HEIGHT as usize), MAX_LIST_HEIGHT);
}

#[test]
fn viewport_height_just_below_min() {
    assert_eq!(viewport_height(1), MIN_VIEWPORT_HEIGHT);
}

#[test]
fn viewport_height_never_wraps_large_counts() {
    assert_eq!(viewport_height(65_536), MAX_LIST_HEIGHT);
    assert_eq!(viewport_height(65_535), MAX_LIST_HEIGHT);
    assert_eq!(viewport_height(usize::MAX), MAX_LIST_HEIGHT);
    assert_eq!(viewport_height(12), 14);
}

// ── helpers ──────────────────────────────────────────────────────────────

fn make_inbox_file(label: &str, filename: &str, path: &str) -> InboxFile {
    InboxFile {
        label: label.to_string(),
        path: path.to_string(),
        filename: filename.to_string(),
        modified: 0,
        subfolder: None,
        group_sort_key: 0,
    }
}

fn make_config(dest_root: &str) -> Config {
    Config {
        inboxes: vec![InboxConfig {
            label: Some("Test".to_string()),
            path: "/tmp/test-inbox".to_string(),
        }],
        destination: DestinationConfig {
            root: dest_root.to_string(),
        },
    }
}

fn dir(path: &str) -> Option<WalkEntry> {
    Some(WalkEntry {
        path: path.to_string(),
        is_dir: true,
    })
}

fn archive_entries() -> Vec<Option<WalkEntry>> {
    vec![dir("/archive/alpha"), dir("/archive/beta"), dir("/archive/dest")]
}

fn make_app_with_files(files: Vec<InboxFile>) -> App {
    let config = make_config(ROOT);
    let index = DestIndex::new(ROOT, archive_entries()).unwrap();
    App::new(files, index, &config)
}

fn make_key_event(key: Key) -> KeyInput {
    KeyInput {
        key,
        ctrl: false,
        press: true,
    }
}

fn make_ctrl_key_event(key: Key) -> KeyInput {
    KeyInput {
        key,
        ctrl: true,
        press: true,
    }
}

/// Answers each piece of outside work the way a working system would,
/// until the application hands back an action.
fn settle(app: &mut App, mut step: Step, walked: &Vec<Option<WalkEntry>>) -> AppAction {
    loop {
        match step {
            Step::Act(action) => return action,
            Step::Perform(effect) => {
                let outcome = match effect {
                    Effect::Preview(PreviewCommand::Open(_)) => Outcome::PreviewStarted(None),
                    Effect::Preview(PreviewCommand::Close) => Outcome::Done,
                    Effect::Reveal(_) => Outcome::Done,
                    Effect::CreateDir(_) => Outcome::DirCreated(Ok(())),
                    Effect::WalkArchive(_) => Outcome::ArchiveWalked(walked.clone()),
                    Effect::MoveFile { .. } => Outcome::FileMoved(Ok(())),
                };
                step = app.resume(outcome);
            }
        }
    }
}

fn press_at(app: &mut App, event: KeyInput, now: u64) -> AppAction {
    let step = app.handle_event(event, now);
    settle(app, step, &archive_entries())
}

fn press(app: &mut App, event: KeyInput) -> AppAction {
    press_at(app, event, 0)
}

// ── key handling ────────────────────────────────────────────────────────

#[test]
fn initial_state_is_browsing() {
    let files = vec![make_inbox_file("Inbox", "doc.pdf", "/tmp/doc.pdf")];
    let app = make_app_with_files(files);
    assert_eq!(app.state, AppState::Browsing);
    assert_eq!(app.cursor, 0);
}

#[test]
fn browsing_enter_transitions_to_searching() {
    let files = vec![make_inbox_file("Inbox", "doc.pdf", "/tmp/doc.pdf")];
    let mut app = make_app_with_files(files);
    let action = press(&mut app, make_key_event(Key::Enter));
    assert_eq!(action, AppAction::Continue);
    assert_eq!(app.state, AppState::Searching);
}

#[test]
fn browsing_enter_with_no_files_stays_browsing() {
    let mut app = make_app_with_files(vec![]);
    let action = press(&mut app, make_key_event(Key::Enter));
    assert_eq!(action, AppAction::Continue);
    assert_eq!(app.state, AppState::Browsing);
}

#[test]
fn browsing_cursor_down_moves() {
    let files = vec![
        make_inbox_file("A", "a.pdf", "/tmp/a.pdf"),
        make_inbox_file("B", "b.pdf", "/tmp/b.pdf"),
    ];
    let mut app = make_app_with_files(files);
    assert_eq!(app.cursor, 0);
    press(&mut app, make_key_event(Key::Down));
    assert_eq!(app.cursor, 1);
}

#[test]
fn browsing_cursor_up_at_zero_stays() {
    let files = vec![make_inbox_file("A", "a.pdf", "/tmp/a.pdf")];
    let mut app = make_app_with_files(files);
    press(&mut app, make_key_event(Key::Up));
    assert_eq!(app.cursor, 0);
}

#[test]
fn browsing_cursor_down_at_end_stays() {
    let files = vec![make_inbox_file("A", "a.pdf", "/tmp/a.pdf")];
    let mut app = make_app_with_files(files);
    press(&mut app, make_key_event(Key::Down));
    assert_eq!(app.cursor, 0);
}

#[test]
fn searching_esc_returns_to_browsing() {
    let files = vec![make_inbox_file("Inbox", "doc.pdf", "/tmp/doc.pdf")];
    let mut app = make_app_with_files(files);
    app.state = AppState::Searching;
    let action = press(&mut app, make_key_event(Key::Esc));
    assert_eq!(action, AppAction::Continue);
    assert_eq!(app.state, AppState::Browsing);
}

#[test]
fn searching_typing_updates_query() {
    let files = vec![make_inbox_file("Inbox", "doc.pdf", "/tmp/doc.pdf")];
    let mut app = make_app_with_files(files);
    app.state = AppState::Searching;
    press(&mut app, make_key_event(Key::Char('a')));
    assert_eq!(app.search_query, "a");
    press(&mut app, make_key_event(Key::Char('l')));
    assert_eq!(app.search_query, "al");
}

#[test]
fn searching_backspace_removes_char() {
    let files = vec![make_inbox_file("Inbox", "doc.pdf", "/tmp/doc.pdf")];
    let mut app = make_app_with_files(files);
    app.state = AppState::Searching;
    app.search_query = "abc".to_string();
    press(&mut app, make_key_event(Key::Backspace));
    assert_eq!(app.search_query, "ab");
}

#[test]
fn searching_enter_transitions_to_naming() {
    let files = vec![make_inbox_file("Inbox", "doc.pdf", "/tmp/doc.pdf")];
    let mut app = make_app_with_files(files);
    app.state = AppState::Searching;
    app.update_search_results();
    assert!(!app.search_results.is_empty());
    let action = press(&mut app, make_key_event(Key::Enter));
    assert_eq!(action, AppAction::Continue);
    assert_eq!(app.state, AppState::Naming);
    assert!(app.selected_dest.is_some());
}

#[test]
fn searching_tab_transitions_to_subfolder_creation() {
    let files = vec![make_inbox_file("Inbox", "doc.pdf", "/tmp/doc.pdf")];
    let mut app = make_app_with_files(files);
    app.state = AppState::Searching;
    app.update_search_results();
    let action = press(&mut app, make_key_event(Key::Tab));
    assert_eq!(action, AppAction::Continue);
    assert_eq!(app.state, AppState::SubfolderCreation);
}

#[test]
fn subfolder_creation_esc_returns_to_searching() {
    let files = vec![make_inbox_file("Inbox", "doc.pdf", "/tmp/doc.pdf")];
    let mut app = make_app_with_files(files);
    app.state = AppState::SubfolderCreation;
    let action = press(&mut app, make_key_event(Key::Esc));
    assert_eq!(action, AppAction::Continue);
    assert_eq!(app.state, AppState::Searching);
}

#[test]
fn naming_esc_returns_to_searching() {
    let files = vec![make_inbox_file("Inbox", "doc.pdf", "/tmp/doc.pdf")];
    let mut app = make_app_with_files(files);
    app.state = AppState::Naming;
    let action = press(&mut app, make_key_event(Key::Esc));
    assert_eq!(action, AppAction::Continue);
    assert_eq!(app.state, AppState::Searching);
}

#[test]
fn naming_typing_updates_name_input() {
    let files = vec![make_inbox_file("Inbox", "doc.pdf", "/tmp/doc.pdf")];
    let mut app = make_app_with_files(files);
    app.state = AppState::Naming;
    press(&mut app, make_key_event(Key::Char('n')));
    press(&mut app, make_key_event(Key::Char('e')));
    press(&mut app, make_key_event(Key::Char('w')));
    assert_eq!(app.name_input, "new");
}

#[test]
fn naming_ctrl_u_clears_input() {
    let files = vec![make_inbox_file("Inbox", "doc.pdf", "/tmp/doc.pdf")];
    let mut app = make_app_with_files(files);
    app.state = AppState::Naming;
    app.name_input = "some text".to_string();
    press(&mut app, make_ctrl_key_event(Key::Char('u')));
    assert_eq!(app.name_input, "");
}

#[test]
fn double_ctrl_c_quits() {
    let files = vec![make_inbox_file("Inbox", "doc.pdf", "/tmp/doc.pdf")];
    let mut app = make_app_with_files(files);
    let action = press_at(&mut app, make_ctrl_key_event(Key::Char('c')), 5 * SECOND);
    assert_eq!(action, AppAction::Continue);
    assert!(app.error_message.is_some());
    let action = press_at(&mut app, make_ctrl_key_event(Key::Char('c')), 5 * SECOND + 200_000_000);
    assert_eq!(action, AppAction::Quit);
}

#[test]
fn single_ctrl_c_then_other_key_resets() {
    let files = vec![make_inbox_file("Inbox", "doc.pdf", "/tmp/doc.pdf")];
    let mut app = make_app_with_files(files);
    press(&mut app, make_ctrl_key_event(Key::Char('c')));
    assert!(app.last_ctrl_c.is_some());
    press(&mut app, make_key_event(Key::Down));
    assert!(app.last_ctrl_c.is_none());
}

#[test]
fn release_events_are_ignored() {
    let files = vec![make_inbox_file("Inbox", "doc.pdf", "/tmp/doc.pdf")];
    let mut app = make_app_with_files(files);
    let release_event = KeyInput {
        key: Key::Enter,
        ctrl: false,
        press: false,
    };
    let action = press(&mut app, release_event);
    assert_eq!(action, AppAction::Continue);
    assert_eq!(app.state, AppState::Browsing);
}

fn naming_app(name_input: &str) -> App {
    let files = vec![make_inbox_file("Inbox", "doc.pdf", "/inbox/doc.pdf")];
    let mut app = make_app_with_files(files);
    app.state = AppState::Naming;
    app.selected_dest = Some("dest".to_string());
    app.name_input = name_input.to_string();
    app
}

#[test]
fn confirm_move_with_empty_name_keeps_original() {
    let mut app = naming_app("");
    let action = press(&mut app, make_key_event(Key::Enter));
    match action {
        AppAction::CommitMove { name, .. } => {
            assert_eq!(name, "doc.pdf");
        }
        other => panic!("expected CommitMove, got {other:?}"),
    }
    assert_eq!(app.state, AppState::Browsing);
}

#[test]
fn confirm_move_with_custom_name_preserves_extension() {
    let mut app = naming_app("invoice_2024");
    let action = press(&mut app, make_key_event(Key::Enter));
    match action {
        AppAction::CommitMove { name, .. } => {
            assert_eq!(name, "invoice_2024.pdf");
        }
        other => panic!("expected CommitMove, got {other:?}"),
    }
}

#[test]
fn moved_files_are_tracked() {
    let mut app = naming_app("");
    press(&mut app, make_key_event(Key::Enter));
    assert!(app.moved.contains_key("/inbox/doc.pdf"));
}

#[test]
fn effective_path_resolves_moved_files() {
    let files = vec![make_inbox_file("Inbox", "doc.pdf", "/tmp/doc.pdf")];
    let mut app = make_app_with_files(files);
    app.moved
        .insert("/tmp/doc.pdf".to_string(), "/archive/Finance/doc.pdf".to_string());
    assert_eq!(app.effective_path("/tmp/doc.pdf"), "/archive/Finance/doc.pdf");
}

#[test]
fn effective_path_returns_original_if_not_moved() {
    let files = vec![make_inbox_file("Inbox", "doc.pdf", "/tmp/doc.pdf")];
    let app = make_app_with_files(files);
    assert_eq!(app.effective_path("/tmp/doc.pdf"), "/tmp/doc.pdf");
}

#[test]
fn search_cursor_navigation() {
    let files = vec![make_inbox_file("Inbox", "doc.pdf", "/tmp/doc.pdf")];
    let mut app = make_app_with_files(files);
    app.state = AppState::Searching;
    app.update_search_results();
    assert!(app.search_results.len() >= 2);
    assert_eq!(app.search_cursor, 0);
    press(&mut app, make_key_event(Key::Down));
    assert_eq!(app.search_cursor, 1);
    press(&mut app, make_key_event(Key::Up));
    assert_eq!(app.search_cursor, 0);
    press(&mut app, make_key_event(Key::Up));
    assert_eq!(app.search_cursor, 0);
}

#[test]
fn build_final_name_with_extension() {
    let files = vec![make_inbox_file("Inbox", "doc.pdf", "/tmp/doc.pdf")];
    let mut app = make_app_with_files(files);
    app.name_input = "new_name".to_string();
    assert_eq!(app.build_final_name("original.pdf"), "new_name.pdf");
}

#[test]
fn build_final_name_without_extension() {
    let files = vec![make_inbox_file("Inbox", "readme", "/tmp/readme")];
    let mut app = make_app_with_files(files);
    app.name_input = "new_name".to_string();
    assert_eq!(app.build_final_name("readme"), "new_name");
}

#[test]
fn error_message_cleared_on_next_key() {
    let files = vec![make_inbox_file("Inbox", "doc.pdf", "/tmp/doc.pdf")];
    let mut app = make_app_with_files(files);
    app.error_message = Some("some error".to_string());
    press(&mut app, make_key_event(Key::Down));
    assert!(app.error_message.is_none());
}

#[test]
fn subfolder_creation_enter_with_empty_name_returns_to_searching() {
    let files = vec![make_inbox_file("Inbox", "doc.pdf", "/tmp/doc.pdf")];
    let mut app = make_app_with_files(files);
    app.state = AppState::SubfolderCreation;
    app.update_search_results();
    app.search_query.clear();
    press(&mut app, make_key_event(Key::Enter));
    assert_eq!(app.state, AppState::Searching);
}

// ── the work the application asks for ────────────────────────────────────

#[test]
fn enter_in_naming_asks_to_move_the_file() {
    let mut app = naming_app("  Invoice March ");
    match app.handle_event(make_key_event(Key::Enter), 0) {
        Step::Perform(Effect::MoveFile { src, dest_dir, dest }) => {
            assert_eq!(src, "/inbox/doc.pdf");
            assert_eq!(dest_dir, "/archive/dest");
            assert_eq!(dest, "/archive/dest/Invoice March.pdf");
        }
        other => panic!("expected a move, got {other:?}"),
    }
}

#[test]
fn move_of_a_moved_file_starts_from_its_new_place() {
    let mut app = naming_app("");
    app.moved
        .insert("/inbox/doc.pdf".to_string(), "/archive/alpha/doc.pdf".to_string());
    match app.handle_event(make_key_event(Key::Enter), 0) {
        Step::Perform(Effect::MoveFile { src, .. }) => {
            assert_eq!(src, "/archive/alpha/doc.pdf");
        }
        other => panic!("expected a move, got {other:?}"),
    }
}

#[test]
fn successful_move_commits_after_closing_preview() {
    let mut app = naming_app("");
    let step = app.handle_event(make_key_event(Key::Enter), 0);
    assert!(matches!(step, Step::Perform(Effect::MoveFile { .. })));
    let step = app.resume(Outcome::FileMoved(Ok(())));
    assert!(matches!(step, Step::Perform(Effect::Preview(PreviewCommand::Close))));
    assert_eq!(app.state, AppState::Browsing);
    assert_eq!(app.selected_dest, None);
    assert_eq!(app.effective_path("/inbox/doc.pdf"), "/archive/dest/doc.pdf");
    match app.resume(Outcome::Done) {
        Step::Act(AppAction::CommitMove { src, dest, name }) => {
            assert_eq!(src, "/inbox/doc.pdf");
            assert_eq!(dest, "/archive/dest/doc.pdf");
            assert_eq!(name, "doc.pdf");
        }
        other => panic!("expected CommitMove, got {other:?}"),
    }
}

#[test]
fn failed_move_reports_error_and_stays_in_naming() {
    let mut app = naming_app("x");
    let step = app.handle_event(make_key_event(Key::Enter), 0);
    assert!(matches!(step, Step::Perform(Effect::MoveFile { .. })));
    match app.resume(Outcome::FileMoved(Err("disk full".to_string()))) {
        Step::Act(AppAction::Continue) => {}
        other => panic!("expected Continue, got {other:?}"),
    }
    assert_eq!(app.error_message.as_deref(), Some("Move failed: disk full"));
    assert_eq!(app.state, AppState::Naming);
    assert!(!app.moved.contains_key("/inbox/doc.pdf"));
}

#[test]
fn new_subfolder_is_created_and_selected() {
    let files = vec![make_inbox_file("Inbox", "doc.pdf", "/inbox/doc.pdf")];
    let mut app = make_app_with_files(files);
    press(&mut app, make_key_event(Key::Enter));
    assert_eq!(app.search_results, vec!["alpha", "beta", "dest"]);
    press(&mut app, make_key_event(Key::Down));
    press(&mut app, make_key_event(Key::Tab));
    assert_eq!(app.state, AppState::SubfolderCreation);
    for c in " Taxes ".chars() {
        press(&mut app, make_key_event(Key::Char(c)));
    }
    match app.handle_event(make_key_event(Key::Enter), 0) {
        Step::Perform(Effect::CreateDir(path)) => assert_eq!(path, "/archive/beta/Taxes"),
        other => panic!("expected CreateDir, got {other:?}"),
    }
    match app.resume(Outcome::DirCreated(Ok(()))) {
        Step::Perform(Effect::WalkArchive(root)) => assert_eq!(root, "/archive"),
        other => panic!("expected WalkArchive, got {other:?}"),
    }
    let walked = vec![
        dir("/archive/alpha"),
        dir("/archive/beta"),
        dir("/archive/beta/Taxes"),
        dir("/archive/dest"),
    ];
    match app.resume(Outcome::ArchiveWalked(walked)) {
        Step::Act(AppAction::Continue) => {}
        other => panic!("expected Continue, got {other:?}"),
    }
    assert_eq!(app.state, AppState::Searching);
    assert_eq!(app.search_query, "");
    assert_eq!(app.search_results[app.search_cursor], "beta/Taxes");
}

#[test]
fn failed_folder_creation_reports_error() {
    let files = vec![make_inbox_file("Inbox", "doc.pdf", "/inbox/doc.pdf")];
    let mut app = make_app_with_files(files);
    app.state = AppState::SubfolderCreation;
    app.search_query = "New".to_string();
    let step = app.handle_event(make_key_event(Key::Enter), 0);
    assert!(matches!(step, Step::Perform(Effect::CreateDir(_))));
    match app.resume(Outcome::DirCreated(Err("permission denied".to_string()))) {
        Step::Act(AppAction::Continue) => {}
        other => panic!("expected Continue, got {other:?}"),
    }
    assert_eq!(
        app.error_message.as_deref(),
        Some("Failed to create folder: permission denied")
    );
    assert_eq!(app.state, AppState::Searching);
    assert_eq!(app.search_query, "");
}

#[test]
fn failed_rebuild_reports_error_and_keeps_index() {
    let files = vec![make_inbox_file("Inbox", "doc.pdf", "/inbox/doc.pdf")];
    let mut app = make_app_with_files(files);
    app.state = AppState::SubfolderCreation;
    app.search_query = "New".to_string();
    app.handle_event(make_key_event(Key::Enter), 0);
    app.resume(Outcome::DirCreated(Ok(())));
    let walked = vec![dir("/archive/alpha"), None];
    app.resume(Outcome::ArchiveWalked(walked));
    assert_eq!(
        app.error_message.as_deref(),
        Some("Failed to rebuild index: failed to walk directory: /archive")
    );
    assert_eq!(app.dest_index.dirs(), &vec!["alpha", "beta", "dest"]);
}

#[test]
fn ctrl_c_after_more_than_a_second_only_reminds() {
    let files = vec![make_inbox_file("Inbox", "doc.pdf", "/tmp/doc.pdf")];
    let mut app = make_app_with_files(files);
    press_at(&mut app, make_ctrl_key_event(Key::Char('c')), 0);
    let action = press_at(&mut app, make_ctrl_key_event(Key::Char('c')), SECOND);
    assert_eq!(action, AppAction::Continue);
    assert_eq!(app.error_message.as_deref(), Some("Press Ctrl+C again to quit"));
    assert_eq!(app.last_ctrl_c, Some(SECOND));
}

#[test]
fn space_toggles_preview_of_highlighted_file() {
    let files = vec![make_inbox_file("Inbox", "doc.pdf", "/inbox/doc.pdf")];
    let mut app = make_app_with_files(files);
    match app.handle_event(make_key_event(Key::Char(' ')), 0) {
        Step::Perform(Effect::Preview(PreviewCommand::Open(p))) => assert_eq!(p, "/inbox/doc.pdf"),
        other => panic!("expected a preview, got {other:?}"),
    }
    app.resume(Outcome::PreviewStarted(Some(42)));
    assert_eq!(app.quick_look.process, Some(42));
    assert_eq!(app.quick_look.current_path.as_deref(), Some("/inbox/doc.pdf"));
    match app.handle_event(make_key_event(Key::Char(' ')), 0) {
        Step::Perform(Effect::Preview(PreviewCommand::Close)) => {}
        other => panic!("expected the preview to close, got {other:?}"),
    }
    assert_eq!(app.quick_look.process, None);
}

#[test]
fn moving_cursor_closes_preview_of_left_file() {
    let files = vec![
        make_inbox_file("Inbox", "a.pdf", "/inbox/a.pdf"),
        make_inbox_file("Inbox", "b.pdf", "/inbox/b.pdf"),
    ];
    let mut app = make_app_with_files(files);
    app.handle_event(make_key_event(Key::Char(' ')), 0);
    app.resume(Outcome::PreviewStarted(Some(7)));
    match app.handle_event(make_key_event(Key::Down), 0) {
        Step::Perform(Effect::Preview(PreviewCommand::Close)) => {}
        other => panic!("expected the preview to close, got {other:?}"),
    }
    assert_eq!(app.cursor, 1);
}

#[test]
fn exited_preview_is_forgotten() {
    let files = vec![make_inbox_file("Inbox", "doc.pdf", "/inbox/doc.pdf")];
    let mut app = make_app_with_files(files);
    app.handle_event(make_key_event(Key::Char(' ')), 0);
    app.resume(Outcome::PreviewStarted(Some(3)));
    app.preview_exited();
    assert_eq!(app.quick_look.process, None);
    assert_eq!(app.quick_look.current_path, None);
}

#[test]
fn o_reveals_folder_of_last_move() {
    let mut app = naming_app("");
    press(&mut app, make_key_event(Key::Enter));
    match app.handle_event(make_key_event(Key::Char('o')), 0) {
        Step::Perform(Effect::Reveal(folder)) => assert_eq!(folder, "/archive/dest"),
        other => panic!("expected Reveal, got {other:?}"),
    }
}

#[test]
fn o_without_moves_does_nothing() {
    let files = vec![make_inbox_file("Inbox", "doc.pdf", "/inbox/doc.pdf")];
    let mut app = make_app_with_files(files);
    assert!(matches!(
        app.handle_event(make_key_event(Key::Char('o')), 0),
        Step::Act(AppAction::Continue)
    ));
}

#[test]
fn typing_in_search_narrows_results() {
    let files = vec![make_inbox_file("Inbox", "doc.pdf", "/inbox/doc.pdf")];
    let mut app = make_app_with_files(files);
    press(&mut app, make_key_event(Key::Enter));
    for c in "bet".chars() {
        press(&mut app, make_key_event(Key::Char(c)));
    }
    assert_eq!(app.search_results, vec!["beta"]);
}

#[test]
fn recently_used_folder_is_listed_first() {
    let files = vec![
        make_inbox_file("Inbox", "a.pdf", "/inbox/a.pdf"),
        make_inbox_file("Inbox", "b.pdf", "/inbox/b.pdf"),
    ];
    let mut app = make_app_with_files(files);
    press(&mut app, make_key_event(Key::Enter));
    assert_eq!(app.search_results, vec!["alpha", "beta", "dest"]);
    press(&mut app, make_key_event(Key::Down));
    press(&mut app, make_key_event(Key::Enter));
    assert_eq!(app.selected_dest.as_deref(), Some("beta"));
    let action = press(&mut app, make_key_event(Key::Enter));
    assert!(matches!(action, AppAction::CommitMove { .. }));
    assert_eq!(app.recent, vec!["beta"]);
    press(&mut app, make_key_event(Key::Down));
    press(&mut app, make_key_event(Key::Enter));
    assert_eq!(app.search_results, vec!["beta", "alpha", "dest"]);
    assert_eq!(app.search_cursor, 0);
}

#[test]
fn typing_searches_all_folders_not_only_recent_ones() {
    let mut app = naming_app("");
    press(&mut app, make_key_event(Key::Enter));
    assert_eq!(app.recent, vec!["dest"]);
    press(&mut app, make_key_event(Key::Enter));
    press(&mut app, make_key_event(Key::Char('a')));
    press(&mut app, make_key_event(Key::Char('l')));
    assert_eq!(app.search_results, vec!["alpha"]);
}

#[test]
fn current_file_follows_cursor() {
    let files = vec![
        make_inbox_file("A", "a.pdf", "/tmp/a.pdf"),
        make_inbox_file("B", "b.pdf", "/tmp/b.pdf"),
    ];
    let mut app = make_app_with_files(files);
    assert_eq!(app.current_file().map(|f| f.filename.as_str()), Some("a.pdf"));
    press(&mut app, make_key_event(Key::Down));
    assert_eq!(app.current_file().map(|f| f.filename.as_str()), Some("b.pdf"));
    let empty = make_app_with_files(vec![]);
    assert!(empty.current_file().is_none());
}

#[test]
fn long_query_over_short_folders_is_searched() {
    let files = vec![make_inbox_file("Inbox", "doc.pdf", "/inbox/doc.pdf")];
    let mut app = make_app_with_files(files);
    press(&mut app, make_key_event(Key::Enter));
    app.search_query = "a".repeat(3000);
    press(&mut app, make_key_event(Key::Char('l')));
    assert!(app.search_results.is_empty());
}

#[test]
fn query_that_could_overflow_the_score_is_not_searched() {
    let long_folder = format!("/archive/{}", "a".repeat(3000));
    let entries = vec![dir("/archive/alpha"), dir(&long_folder)];
    let index = DestIndex::new(ROOT, entries).unwrap();
    let files = vec![make_inbox_file("Inbox", "doc.pdf", "/inbox/doc.pdf")];
    let mut app = App::new(files, index, &make_config(ROOT));
    press(&mut app, make_key_event(Key::Enter));
    assert_eq!(app.search_results.len(), 2);
    app.search_query = "a".repeat(2621);
    press(&mut app, make_key_event(Key::Char('a')));
    assert_eq!(app.search_query.len(), 2622);
    assert_eq!(app.search_results.len(), 2);
    assert_eq!(app.search_results[0], "alpha");
    assert!(!app.dest_index.can_query(&app.search_query));
    assert!(app.dest_index.can_query(&"a".repeat(2621)));
}

#[test]
fn longest_scorable_query_is_searched() {
    let long_folder = format!("/archive/{}", "a".repeat(3000));
    let entries = vec![dir("/archive/alpha"), dir(&long_folder)];
    let index = DestIndex::new(ROOT, entries).unwrap();
    let files = vec![make_inbox_file("Inbox", "doc.pdf", "/inbox/doc.pdf")];
    let mut app = App::new(files, index, &make_config(ROOT));
    press(&mut app, make_key_event(Key::Enter));
    app.search_query = "a".repeat(2620);
    press(&mut app, make_key_event(Key::Char('a')));
    assert_eq!(app.search_query.len(), 2621);
    assert_eq!(app.search_results, vec!["a".repeat(3000)]);
}
