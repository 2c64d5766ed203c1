use docsort::inbox::InboxFile;
use docsort::ui::label_color;
use docsort::ui::truncate_file_row;
use docsort::ui::truncate_filename;
use docsort::ui::truncate_single_segment;
use docsort::ui::truncate_subfolder;
use docsort::ui::unique_labels;
use docsort::ui::visible_content_len;
use docsort::ui::visible_window;
use docsort::ui::LabelColor;

// ── truncate_file_row ────────────────────────────────────────────────────

#[test]
fn truncate_fits_no_subfolder() {
    let (sub, name) = truncate_file_row(None, "report.pdf", 100);
    assert_eq!(sub, "");
    assert_eq!(name, "report.pdf");
}

#[test]
fn truncate_fits_with_subfolder() {
    let (sub, name) = truncate_file_row(Some("ProjectA/"), "report.pdf", 100);
    assert_eq!(sub, "ProjectA/");
    assert_eq!(name, "report.pdf");
}

#[test]
fn truncate_empty_subfolder_treated_as_none() {
    let (sub, name) = truncate_file_row(Some(""), "report.pdf", 100);
    assert_eq!(sub, "");
    assert_eq!(name, "report.pdf");
}

#[test]
fn truncate_subfolder_multi_segment_first_ellipsis_last() {
    let subfolder = "ProjectA/ClientWork/Invoices/";
    let filename = "report.pdf";
    let budget = 35;
    let (sub, name) = truncate_file_row(Some(subfolder), filename, budget);
    assert_eq!(name, filename);
    assert_eq!(sub, "ProjectA/\u{2026}/Invoices/");
}

#[test]
fn truncate_subfolder_multi_segment_first_ellipsis_only() {
    let subfolder = "ProjectA/ClientWork/Invoices/";
    let filename = "report.pdf";
    let budget = 25;
    let (sub, name) = truncate_file_row(Some(subfolder), filename, budget);
    assert_eq!(name, filename);
    assert_eq!(sub, "ProjectA/\u{2026}/");
}

#[test]
fn truncate_subfolder_multi_segment_ellipsis_slash_only() {
    let subfolder = "ProjectA/ClientWork/";
    let filename = "report.pdf";
    let budget = 14;
    let (sub, name) = truncate_file_row(Some(subfolder), filename, budget);
    assert_eq!(name, filename);
    assert_eq!(sub, "\u{2026}/");
}

#[test]
fn truncate_subfolder_single_segment_middle_truncated() {
    let subfolder = "VeryLongFolderName/";
    let filename = "doc.pdf";
    let budget = 20;
    let (sub, name) = truncate_file_row(Some(subfolder), filename, budget);
    assert_eq!(name, filename);
    assert_eq!(sub, "VeryL\u{2026}erName/");
}

#[test]
fn truncate_subfolder_single_segment_falls_back_to_ellipsis_slash() {
    let subfolder = "LongName/";
    let filename = "doc.pdf";
    let budget = 14;
    let (sub, name) = truncate_file_row(Some(subfolder), filename, budget);
    assert_eq!(name, filename);
    assert_eq!(sub, "\u{2026}/");
}

#[test]
fn truncate_filename_last_resort() {
    let subfolder = "A/";
    let filename = "VeryLongDocumentName.pdf";
    let budget = 20;
    let (sub, name) = truncate_file_row(Some(subfolder), filename, budget);
    assert_eq!(sub, "");
    assert!(
        name.chars().count() <= 20,
        "name too long: {name:?} ({} chars)",
        name.chars().count()
    );
    assert!(
        name.contains('\u{2026}'),
        "expected ellipsis in name: {name:?}"
    );
}

#[test]
fn truncate_very_narrow_budget() {
    let (sub, name) = truncate_file_row(Some("Deep/Path/"), "file.txt", 3);
    assert_eq!(sub, "");
    assert!(name.chars().count() <= 3);
}

#[test]
fn truncate_budget_exactly_fits() {
    let subfolder = "Proj/";
    let filename = "doc.pdf";
    let budget = subfolder.len() + filename.len();
    let (sub, name) = truncate_file_row(Some(subfolder), filename, budget);
    assert_eq!(sub, subfolder);
    assert_eq!(name, filename);
}

#[test]
fn truncate_non_ascii_subfolder_no_spurious_truncation() {
    let subfolder = "Réseau/";
    let filename = "rapport.pdf";
    let budget = subfolder.chars().count() + filename.chars().count();
    let (sub, name) = truncate_file_row(Some(subfolder), filename, budget);
    assert_eq!(
        sub, subfolder,
        "non-ASCII subfolder should not be truncated when it fits by char count"
    );
    assert_eq!(name, filename);
}

#[test]
fn truncate_cjk_subfolder_no_spurious_truncation() {
    let subfolder = "文書/";
    let filename = "doc.pdf";
    let budget = subfolder.chars().count() + filename.chars().count();
    let (sub, name) = truncate_file_row(Some(subfolder), filename, budget);
    assert_eq!(
        sub, subfolder,
        "CJK subfolder should not be truncated when it fits by char count"
    );
    assert_eq!(name, filename);
}

// ── visible_window ───────────────────────────────────────────────────────

#[test]
fn visible_window_empty_list() {
    assert_eq!(visible_window(0, 0, 10), (0, 0));
}

#[test]
fn visible_window_fits_entirely() {
    assert_eq!(visible_window(2, 5, 10), (0, 5));
}

#[test]
fn visible_window_scrolled_to_end() {
    let (start, end) = visible_window(99, 100, 10);
    assert_eq!(end, 100);
    assert_eq!(start, 90);
}

#[test]
fn visible_window_cursor_in_middle() {
    let (start, end) = visible_window(50, 100, 10);
    assert_eq!(start, 45);
    assert_eq!(end, 55);
}

#[test]
fn visible_window_cursor_near_start() {
    let (start, end) = visible_window(2, 100, 10);
    assert_eq!(start, 0);
    assert_eq!(end, 10);
}

// ── further cases ────────────────────────────────────────────────────────

#[test]
fn visible_window_zero_rows_is_empty() {
    assert_eq!(visible_window(3, 10, 0), (0, 0));
}

#[test]
fn visible_window_keeps_cursor_visible_with_odd_rows() {
    let (start, end) = visible_window(7, 20, 5);
    assert_eq!((start, end), (5, 10));
    assert!(start <= 7 && 7 < end);
}

#[test]
fn single_segment_kept_whole_when_it_fits() {
    assert_eq!(truncate_single_segment("Taxes", 6), "Taxes/");
}

#[test]
fn single_segment_too_narrow_for_ellipsis_is_dropped() {
    assert_eq!(truncate_single_segment("Taxes", 1), "");
}

#[test]
fn single_segment_exact_middle_cut() {
    // budget 9: 7 characters of content, 3 in front and 4 behind.
    assert_eq!(truncate_single_segment("Correspondence", 9), "Cor\u{2026}ence/");
}

#[test]
fn subfolder_of_only_slashes_is_empty() {
    assert_eq!(truncate_subfolder("///", 10), "");
}

#[test]
fn subfolder_short_first_segment_skips_to_ellipsis() {
    // "A/…/B/" shows fewer than six characters, so only "…/" is offered.
    assert_eq!(truncate_subfolder("A/X/B/", 5), "\u{2026}/");
}

#[test]
fn subfolder_nothing_fits() {
    assert_eq!(truncate_subfolder("Alpha/Beta/", 1), "");
}

#[test]
fn visible_content_len_ignores_slashes() {
    assert_eq!(visible_content_len("ab/\u{2026}/cd/"), 5);
    assert_eq!(visible_content_len("///"), 0);
}

#[test]
fn filename_kept_when_it_fits() {
    assert_eq!(truncate_filename("report.pdf", 10), "report.pdf");
}

#[test]
fn filename_stem_cut_in_the_middle() {
    // 12 - ".pdf" - "…" leaves 7 stem characters: 3 in front, 4 behind.
    assert_eq!(truncate_filename("VeryLongDocumentName.pdf", 12), "Ver\u{2026}Name.pdf");
}

#[test]
fn filename_without_room_for_stem_gets_trailing_ellipsis() {
    // Budget 5 leaves no room for two stem characters beside ".pdf" and
    // the ellipsis; the name is cut to what fits before a trailing "…".
    assert_eq!(truncate_filename("document.pdf", 5), "docu\u{2026}");
    assert_eq!(truncate_filename("file.txt", 4), "fil\u{2026}");
}

#[test]
fn filename_degenerate_budget_keeps_what_fits() {
    assert_eq!(truncate_filename("document.pdf", 2), "d\u{2026}");
    assert_eq!(truncate_filename("document.pdf", 1), "\u{2026}");
    assert_eq!(truncate_filename("document.pdf", 0), "");
}

#[test]
fn file_row_last_resort_keeps_extension() {
    let (sub, name) = truncate_file_row(Some("Inbox/"), "VeryLongDocumentName.pdf", 12);
    assert_eq!(sub, "");
    assert_eq!(name, "Ver\u{2026}Name.pdf");
}

// ── labels ───────────────────────────────────────────────────────────────

fn file_with_label(label: &str, name: &str) -> InboxFile {
    InboxFile {
        label: label.to_string(),
        path: format!("/in/{name}"),
        filename: name.to_string(),
        modified: 0,
        subfolder: None,
        group_sort_key: 0,
    }
}

#[test]
fn unique_labels_in_first_appearance_order() {
    let files = vec![
        file_with_label("Scans", "a.pdf"),
        file_with_label("Downloads", "b.pdf"),
        file_with_label("Scans", "c.pdf"),
        file_with_label("Mail", "d.pdf"),
        file_with_label("Downloads", "e.pdf"),
    ];
    assert_eq!(unique_labels(&files), vec!["Scans", "Downloads", "Mail"]);
}

#[test]
fn unique_labels_of_no_files_is_empty() {
    assert!(unique_labels(&[]).is_empty());
}

#[test]
fn label_colors_cycle_through_palette() {
    assert_eq!(label_color(0), LabelColor::Blue);
    assert_eq!(label_color(1), LabelColor::Green);
    assert_eq!(label_color(2), LabelColor::Magenta);
    assert_eq!(label_color(3), LabelColor::Cyan);
    assert_eq!(label_color(4), LabelColor::Blue);
    assert_eq!(label_color(9), LabelColor::Green);
}
