//! What each screen shows, line by line: the rows of the file list and of
//! the search results, the listing of a destination, the naming form and
//! the hint bar. The terminal front end only draws them.
use vstd::prelude::*;
use crate::app::find_position;
use crate::app::log_lookup;
use crate::app::opt_text;
use crate::app::position;
use crate::app::App;
use crate::app::AppState;
use crate::app::AppView;
use crate::dest::texts;
use crate::dest::DestIndex;
use crate::names::dotted_extension;
use crate::names::file_stem;
use crate::names::stem_and_extension;
use crate::paths::joined;
use crate::paths::components;
use crate::paths::file_name;
use crate::paths::parent_components;
use crate::paths::path_components;
use crate::paths::path_file_name;
use crate::paths::render;
use crate::paths::render_range;
use crate::paths::root_component;
use crate::paths::starts_with_components;
use crate::paths::views;
use crate::ui::append_chars;
use crate::text::byte_len;
use crate::text::chars_of;
use crate::text::string_of;
use crate::text::without;
use crate::text::without_text;
use crate::ui::distinct_labels;
use crate::ui::file_labels;
use crate::ui::fit_row;
use crate::ui::label_color;
use crate::ui::lemma_window;
use crate::ui::palette;
use crate::ui::truncate_file_row;
use crate::ui::unique_labels;
use crate::ui::visible_window;
use crate::ui::window;
use crate::ui::window_fits;
use crate::ui::LabelColor;

verus! {

// ---------------------------------------------------------------------
// Shared pieces
// ---------------------------------------------------------------------

/// The marker in front of a list row: an arrow on the highlighted row.
pub open spec fn marker(highlighted: bool) -> Seq<char> {
    if highlighted {
        "\u{25b6} "@
    } else {
        "  "@
    }
}

fn marker_text(highlighted: bool) -> (r: String)
    ensures
        r@ == marker(highlighted),
{
    if highlighted {
        String::from_str("\u{25b6} ")
    } else {
        String::from_str("  ")
    }
}

/// `a - b`, or 0 when `b` is larger.
pub open spec fn less(a: nat, b: nat) -> nat {
    if a > b {
        (a - b) as nat
    } else {
        0
    }
}

/// `s` padded with spaces on the right to `width` characters.
pub open spec fn padded(s: Seq<char>, width: nat) -> Seq<char> {
    if s.len() < width {
        s + Seq::new((width - s.len()) as nat, |_i: int| ' ')
    } else {
        s
    }
}

// ---------------------------------------------------------------------
// The file list
// ---------------------------------------------------------------------

/// Length in UTF-8 bytes of the longest of `labels` (0 when there is none).
pub open spec fn widest(labels: Seq<Seq<char>>) -> nat
    decreases labels.len(),
{
    if labels.len() == 0 {
        0
    } else {
        let rest = widest(labels.drop_last());
        let n = byte_len(labels.last());
        if n > rest {
            n
        } else {
            rest
        }
    }
}

/// Characters of a row left for the folder and file name: the width less
/// the marker (2), the padded label, the chevron (3) and, for a moved
/// file, the check mark (4).
pub open spec fn row_budget(width: nat, widest: nat, moved: bool) -> nat {
    less(
        width,
        2 + widest + 3 + if moved {
            4nat
        } else {
            0nat
        },
    )
}

/// One row of the file list, in terms of text.
pub struct FileRowView {
    pub highlighted: bool,
    pub moved: bool,
    pub color: LabelColor,
    pub marker: Seq<char>,
    pub label: Seq<char>,
    pub subfolder: Seq<char>,
    pub filename: Seq<char>,
}

/// One row of the file list: the marker, the inbox label padded to the
/// widest label and followed by a chevron, and the (shortened) folder and
/// file name. A moved file is dimmed and checked off.
#[derive(Debug)]
pub struct FileRow {
    pub highlighted: bool,
    pub moved: bool,
    pub color: LabelColor,
    pub marker: String,
    pub label: String,
    pub subfolder: String,
    pub filename: String,
}

impl View for FileRow {
    type V = FileRowView;

    open spec fn view(&self) -> FileRowView {
        FileRowView {
            highlighted: self.highlighted,
            moved: self.moved,
            color: self.color,
            marker: self.marker@,
            label: self.label@,
            subfolder: self.subfolder@,
            filename: self.filename@,
        }
    }
}

/// The row of the file list for the file at `i`, `width` characters wide.
pub open spec fn file_row(v: AppView, i: int, width: nat) -> FileRowView {
    let f = v.files[i];
    let labels = distinct_labels(file_labels(v.files));
    let w = widest(labels);
    let moved = log_lookup(v.moved, f.path@) is Some;
    let slot = match position(labels, f.label@) {
        Some(k) => k,
        None => 0,
    };
    let cells = fit_row(opt_text(f.subfolder), f.filename@, row_budget(width, w, moved));
    FileRowView {
        highlighted: i == v.cursor,
        moved,
        color: palette(slot),
        marker: marker(i == v.cursor),
        label: padded(f.label@, w) + " \u{276f} "@,
        subfolder: cells.0,
        filename: cells.1,
    }
}

fn widest_label(labels: &Vec<String>) -> (r: usize)
    ensures
        r == widest(texts(labels@)),
{
    let ghost t = texts(labels@);
    let mut best: usize = 0;
    let mut i: usize = 0;
    assert(t.take(0) =~= seq![]);
    while i < labels.len()
        invariant
            i <= labels.len(),
            t == texts(labels@),
            best == widest(t.take(i as int)),
        decreases labels.len() - i,
    {
        assert(t.take(i + 1).drop_last() =~= t.take(i as int));
        assert(t.take(i + 1).last() == labels@[i as int]@);
        let n = labels[i].as_str().len();
        if n > best {
            best = n;
        }
        i += 1;
    }
    assert(t.take(labels.len() as int) =~= t);
    best
}

fn budget_for(width: usize, widest: usize, moved: bool) -> (r: usize)
    ensures
        r == row_budget(width as nat, widest as nat, moved),
{
    let extra: usize = if moved {
        9
    } else {
        5
    };
    if widest <= usize::MAX - extra {
        let used = widest + extra;
        if width > used {
            width - used
        } else {
            0
        }
    } else {
        0
    }
}

fn padded_label(label: &String, width: usize) -> (r: String)
    ensures
        r@ == padded(label@, width as nat) + " \u{276f} "@,
{
    let mut cs = chars_of(label.as_str());
    let n = cs.len();
    if n < width {
        let mut k: usize = n;
        while k < width
            invariant
                n <= k <= width,
                cs@ == label@ + Seq::new((k - n) as nat, |_i: int| ' '),
            decreases width - k,
        {
            cs.push(' ');
            k += 1;
            assert(cs@ =~= label@ + Seq::new((k - n) as nat, |_i: int| ' '));
        }
    }
    string_of(cs.as_slice()).concat(" \u{276f} ")
}

impl App {
    /// The rows of the file list shown in `height` lines `width` characters
    /// wide: the window of files around the cursor, each row as `file_row`.
    pub fn file_rows(&self, height: usize, width: usize) -> (r: Vec<FileRow>)
        requires
            self.files.len() == 0 || height == 0 || window_fits(self.cursor as nat, height as nat),
        ensures
            r.len() == window(self.cursor as nat, self.files.len() as nat, height as nat).1
                - window(self.cursor as nat, self.files.len() as nat, height as nat).0,
            forall|k: int|
                0 <= k < r.len() ==> (#[trigger] r[k])@ == file_row(
                    self@,
                    window(self.cursor as nat, self.files.len() as nat, height as nat).0 + k,
                    width as nat,
                ),
    {
        let (start, end) = visible_window(self.cursor, self.files.len(), height);
        proof {
            lemma_window(self.cursor as nat, self.files.len() as nat, height as nat);
        }
        let labels = unique_labels(self.files.as_slice());
        let w = widest_label(&labels);
        let ghost v = self@;
        let mut rows: Vec<FileRow> = Vec::new();
        let mut i: usize = start;
        while i < end
            invariant
                start <= i <= end <= self.files.len(),
                v == self@,
                texts(labels@) == distinct_labels(file_labels(v.files)),
                w == widest(texts(labels@)),
                rows.len() == i - start,
                forall|k: int|
                    0 <= k < rows.len() ==> (#[trigger] rows[k])@ == file_row(
                        v,
                        start + k,
                        width as nat,
                    ),
            decreases end - i,
        {
            let f = &self.files[i];
            assert(file_labels(v.files)[i as int] == f.label@);
            let moved = self.moved.contains_key(f.path.as_str());
            let slot = match find_position(&labels, &f.label) {
                Some(k) => k,
                None => 0,
            };
            let budget = budget_for(width, w, moved);
            let sub: Option<&str> = match &f.subfolder {
                Some(s) => Some(s.as_str()),
                None => None,
            };
            let (folder, name) = truncate_file_row(sub, f.filename.as_str(), budget);
            let row = FileRow {
                highlighted: i == self.cursor,
                moved,
                color: label_color(slot),
                marker: marker_text(i == self.cursor),
                label: padded_label(&f.label, w),
                subfolder: folder,
                filename: name,
            };
            assert(row@ == file_row(v, i as int, width as nat));
            rows.push(row);
            i += 1;
        }
        rows
    }
}

// ---------------------------------------------------------------------
// The search pane
// ---------------------------------------------------------------------

/// One row of the search results: the marker and the folder path.
#[derive(Debug)]
pub struct ResultRow {
    pub highlighted: bool,
    pub text: String,
}

/// The row of the search results for the result at `i`.
pub open spec fn result_row(v: AppView, i: int) -> (bool, Seq<char>) {
    (i == v.search_cursor, marker(i == v.search_cursor) + v.search_results[i])
}

/// Colour of the prompt of the search pane.
#[derive(Debug, Clone, Copy, PartialEq, Eq, Structural)]
pub enum Accent {
    Cyan,
    Magenta,
}

/// The input line below the search results: a prompt, then the typed text
/// followed by the cursor, or a placeholder while nothing is typed.
#[derive(Debug)]
pub struct InputLine {
    pub prompt: String,
    pub accent: Accent,
    pub text: String,
    pub placeholder: bool,
}

/// Prompt, its colour, text and whether the text is the placeholder: for a
/// new folder's name in SubfolderCreation mode, for the search otherwise.
pub open spec fn input_line(v: AppView) -> (Seq<char>, Accent, Seq<char>, bool) {
    let creating = v.state == AppState::SubfolderCreation;
    let empty = v.search_query.len() == 0;
    (
        if creating {
            "New folder: "@
        } else {
            "> "@
        },
        if creating {
            Accent::Magenta
        } else {
            Accent::Cyan
        },
        if !empty {
            v.search_query
        } else if creating {
            "type folder name"@
        } else {
            "type to search"@
        },
        empty,
    )
}

/// The lines of the listing pane for the files of a folder, `rows` lines
/// high: the first names that fit, or a placeholder when there is none,
/// padded with empty lines.
pub open spec fn listing_lines(files: Seq<Seq<char>>, rows: nat) -> Seq<Seq<char>> {
    let lines = if files.len() == 0 {
        seq!["(no files)"@]
    } else if files.len() <= rows {
        files
    } else {
        files.take(rows as int)
    };
    lines + Seq::new(less(rows, lines.len()), |_i: int| Seq::<char>::empty())
}

impl App {
    /// The rows of the search results shown in `height` lines: the window
    /// of results around the result cursor.
    pub fn result_rows(&self, height: usize) -> (r: Vec<ResultRow>)
        requires
            self.search_results.len() == 0 || height == 0 || window_fits(
                self.search_cursor as nat,
                height as nat,
            ),
        ensures
            r.len() == window(
                self.search_cursor as nat,
                self.search_results.len() as nat,
                height as nat,
            ).1 - window(
                self.search_cursor as nat,
                self.search_results.len() as nat,
                height as nat,
            ).0,
            forall|k: int|
                0 <= k < r.len() ==> ((#[trigger] r[k]).highlighted, r[k].text@) == result_row(
                    self@,
                    window(
                        self.search_cursor as nat,
                        self.search_results.len() as nat,
                        height as nat,
                    ).0 + k,
                ),
    {
        let (start, end) = visible_window(self.search_cursor, self.search_results.len(), height);
        proof {
            lemma_window(self.search_cursor as nat, self.search_results.len() as nat, height as nat);
        }
        let ghost v = self@;
        let mut rows: Vec<ResultRow> = Vec::new();
        let mut i: usize = start;
        while i < end
            invariant
                start <= i <= end <= self.search_results.len(),
                v == self@,
                rows.len() == i - start,
                forall|k: int|
                    0 <= k < rows.len() ==> ((#[trigger] rows[k]).highlighted, rows[k].text@)
                        == result_row(v, start + k),
            decreases end - i,
        {
            let hl = i == self.search_cursor;
            let text = marker_text(hl).concat(self.search_results[i].as_str());
            rows.push(ResultRow { highlighted: hl, text });
            i += 1;
        }
        rows
    }

    /// The input line of the search pane.
    pub fn search_input(&self) -> (r: InputLine)
        ensures
            (r.prompt@, r.accent, r.text@, r.placeholder) == input_line(self@),
    {
        let creating = self.state == AppState::SubfolderCreation;
        let empty = self.search_query.as_str().is_empty();
        let text = if !empty {
            self.search_query.clone()
        } else if creating {
            String::from_str("type folder name")
        } else {
            String::from_str("type to search")
        };
        InputLine {
            prompt: if creating {
                String::from_str("New folder: ")
            } else {
                String::from_str("> ")
            },
            accent: if creating {
                Accent::Magenta
            } else {
                Accent::Cyan
            },
            text,
            placeholder: empty,
        }
    }

    /// The folder whose files the listing pane shows: the highlighted
    /// result below the archive root, if there is one.
    pub fn listed_folder(&self) -> (r: Option<String>)
        ensures
            self.search_cursor < self.search_results.len() ==> (r matches Some(d) && d@ == joined(
                self.dest_root@,
                self.search_results@[self.search_cursor as int]@,
            )),
            self.search_cursor >= self.search_results.len() ==> r is None,
    {
        if self.search_cursor < self.search_results.len() {
            Some(
                DestIndex::listing_dir(
                    self.dest_root.as_str(),
                    self.search_results[self.search_cursor].as_str(),
                ),
            )
        } else {
            None
        }
    }
}

/// The lines of the listing pane for `files` (the sorted file names of the
/// listed folder; none when it could not be read), `rows` lines high.
pub fn listing_pane(files: &Vec<String>, rows: usize) -> (r: Vec<String>)
    ensures
        texts(r@) == listing_lines(texts(files@), rows as nat),
{
    let ghost t = texts(files@);
    let ghost head = if t.len() == 0 {
        seq!["(no files)"@]
    } else if t.len() <= rows {
        t
    } else {
        t.take(rows as int)
    };
    let mut lines: Vec<String> = Vec::new();
    if files.len() == 0 {
        lines.push(String::from_str("(no files)"));
        assert(texts(lines@) =~= head);
    } else {
        let n = if files.len() <= rows {
            files.len()
        } else {
            rows
        };
        let mut i: usize = 0;
        assert(texts(lines@) =~= t.take(0));
        while i < n
            invariant
                i <= n <= files.len(),
                t == texts(files@),
                texts(lines@) == t.take(i as int),
            decreases n - i,
        {
            let ghost before = lines@;
            lines.push(files[i].clone());
            assert(texts(lines@) =~= texts(before).push(t[i as int]));
            i += 1;
            assert(texts(lines@) =~= t.take(i as int));
        }
        assert(t.take(n as int) =~= head);
    }
    let m = lines.len();
    assert(texts(lines@) =~= head + Seq::new(0, |_i: int| Seq::<char>::empty()));
    while lines.len() < rows
        invariant
            m <= lines.len(),
            m < rows ==> lines.len() <= rows,
            m >= rows ==> lines.len() == m,
            texts(lines@) == head + Seq::new(
                (lines.len() - m) as nat,
                |_i: int| Seq::<char>::empty(),
            ),
        decreases rows - lines.len(),
    {
        let ghost before = lines@;
        lines.push(String::new());
        assert(texts(lines@) =~= texts(before).push(Seq::<char>::empty()));
        assert(texts(lines@) =~= head + Seq::new(
            (lines.len() - m) as nat,
            |_i: int| Seq::<char>::empty(),
        ));
    }
    assert(m == head.len());
    assert(texts(lines@) =~= listing_lines(texts(files@), rows as nat));
    lines
}

// ---------------------------------------------------------------------
// The naming form
// ---------------------------------------------------------------------

/// The branch drawn in front of a listed name; the last one closes the
/// tree.
pub open spec fn branch(last: bool) -> Seq<char> {
    if last {
        "  \u{2514}\u{2500} "@
    } else {
        "  \u{251c}\u{2500} "@
    }
}

/// The tree of listed names, or a placeholder line when there is none.
pub open spec fn tree_lines(shown: Seq<Seq<char>>) -> Seq<Seq<char>> {
    if shown.len() == 0 {
        seq!["  \u{2514}\u{2500} (no files)"@]
    } else {
        Seq::new(shown.len(), |i: int| branch(i == shown.len() - 1) + shown[i])
    }
}

/// What follows the typed name on the "New name" line: the cursor as a
/// blank, the blank and a `<keep>` hint, or the cursor on the extension's
/// dot with the rest of the extension after it.
#[derive(Debug, Clone, Copy, PartialEq, Eq, Structural)]
pub enum NameTail {
    Cursor,
    CursorKeep,
    DotCursor,
}

/// The naming form in terms of text.
pub struct NamingFormView {
    pub dest: Seq<char>,
    pub tree: Seq<Seq<char>>,
    pub has_files: bool,
    pub blank_rows: nat,
    pub stem: Seq<char>,
    pub extension: Seq<char>,
    pub typed: Seq<char>,
    pub tail: NameTail,
}

/// The naming form: the chosen destination, the tree of the files already
/// there (the latest that fit), blank lines that push the two input lines
/// to the bottom, the original stem and extension, and the typed name.
#[derive(Debug)]
pub struct NamingForm {
    pub dest: String,
    pub tree: Vec<String>,
    pub has_files: bool,
    pub blank_rows: usize,
    pub stem: String,
    pub extension: String,
    pub typed: String,
    pub tail: NameTail,
}

impl View for NamingForm {
    type V = NamingFormView;

    open spec fn view(&self) -> NamingFormView {
        NamingFormView {
            dest: self.dest@,
            tree: texts(self.tree@),
            has_files: self.has_files,
            blank_rows: self.blank_rows as nat,
            stem: self.stem@,
            extension: self.extension@,
            typed: self.typed@,
            tail: self.tail,
        }
    }
}

/// The name of the highlighted file, or nothing.
pub open spec fn current_name(v: AppView) -> Seq<char> {
    if v.cursor < v.files.len() {
        v.files[v.cursor as int].filename@
    } else {
        seq![]
    }
}

/// The naming form `height` lines high, given the sorted names of the files
/// in the chosen destination (none when it could not be read).
pub open spec fn naming_form(v: AppView, listing: Seq<Seq<char>>, height: nat) -> NamingFormView {
    let rest = without(listing, current_name(v));
    let shown = rest.skip(less(rest.len(), less(height, 3)) as int);
    let tree = tree_lines(shown);
    let ext = if v.cursor < v.files.len() {
        dotted_extension(current_name(v))
    } else {
        seq![]
    };
    NamingFormView {
        dest: match v.selected_dest {
            Some(d) => d,
            None => seq![],
        },
        tree,
        has_files: shown.len() > 0,
        blank_rows: less(height, 1 + tree.len() + 2),
        stem: if v.cursor < v.files.len() {
            match file_stem(current_name(v)) {
                Some(s) => s,
                None => seq![],
            }
        } else {
            seq![]
        },
        extension: ext,
        typed: v.name_input,
        tail: if v.name_input.len() == 0 {
            if ext.len() > 0 {
                NameTail::CursorKeep
            } else {
                NameTail::Cursor
            }
        } else if ext.len() > 0 {
            NameTail::DotCursor
        } else {
            NameTail::Cursor
        },
    }
}

fn branch_text(last: bool) -> (r: String)
    ensures
        r@ == branch(last),
{
    if last {
        String::from_str("  \u{2514}\u{2500} ")
    } else {
        String::from_str("  \u{251c}\u{2500} ")
    }
}

impl App {
    /// The naming form `height` lines high; `listing` holds the sorted
    /// names of the files in the chosen destination (empty when it could
    /// not be read).
    pub fn naming_form(&self, listing: &Vec<String>, height: usize) -> (r: NamingForm)
        ensures
            r@ == naming_form(self@, texts(listing@), height as nat),
    {
        let ghost v = self@;
        let has_file = self.cursor < self.files.len();
        let current = if has_file {
            self.files[self.cursor].filename.clone()
        } else {
            String::new()
        };
        assert(current@ == current_name(v));
        let rest = without_text(listing, &current);
        let avail = if height > 3 {
            height - 3
        } else {
            0
        };
        let skip = if rest.len() > avail {
            rest.len() - avail
        } else {
            0
        };
        let ghost shown = texts(rest@).skip(skip as int);
        let mut tree: Vec<String> = Vec::new();
        if skip == rest.len() {
            tree.push(String::from_str("  \u{2514}\u{2500} (no files)"));
            assert(texts(tree@) =~= tree_lines(shown));
        } else {
            let mut i: usize = skip;
            while i < rest.len()
                invariant
                    skip <= i <= rest.len(),
                    skip < rest.len(),
                    shown == texts(rest@).skip(skip as int),
                    texts(tree@) == tree_lines(shown).take(i - skip),
                decreases rest.len() - i,
            {
                let ghost before = tree@;
                let line = branch_text(i == rest.len() - 1).concat(rest[i].as_str());
                tree.push(line);
                assert(shown[i - skip] == rest@[i as int]@);
                assert(texts(tree@) =~= texts(before).push(line@));
                i += 1;
                assert(texts(tree@) =~= tree_lines(shown).take(i - skip));
            }
            assert(tree_lines(shown).take(rest.len() - skip) =~= tree_lines(shown));
        }
        let blank_rows = if height > 3 && tree.len() < height - 3 {
            height - 3 - tree.len()
        } else {
            0
        };
        let (stem_part, ext_part) = if has_file {
            stem_and_extension(self.files[self.cursor].filename.as_str())
        } else {
            (None, None)
        };
        let stem = match stem_part {
            Some(s) => string_of(s.as_slice()),
            None => String::new(),
        };
        let extension = match ext_part {
            Some(e) => String::from_str(".").concat(string_of(e.as_slice()).as_str()),
            None => String::new(),
        };
        proof {
            reveal_strlit(".");
        }
        let has_ext = !extension.as_str().is_empty();
        let tail = if self.name_input.as_str().is_empty() {
            if has_ext {
                NameTail::CursorKeep
            } else {
                NameTail::Cursor
            }
        } else if has_ext {
            NameTail::DotCursor
        } else {
            NameTail::Cursor
        };
        let dest = match &self.selected_dest {
            Some(d) => d.clone(),
            None => String::new(),
        };
        let r = NamingForm {
            dest,
            tree,
            has_files: skip < rest.len(),
            blank_rows,
            stem,
            extension,
            typed: self.name_input.clone(),
            tail,
        };
        let ghost want = naming_form(v, texts(listing@), height as nat);
        assert(r@.tree == want.tree);
        assert(r@.has_files == want.has_files);
        assert(r@.blank_rows == want.blank_rows);
        assert(r@.stem == want.stem);
        assert(r@.extension == want.extension);
        assert(r@.tail == want.tail);
        assert(r@.dest == want.dest);
        assert(r@.typed == want.typed);
        assert(r@ =~= naming_form(v, texts(listing@), height as nat));
        r
    }
}

// ---------------------------------------------------------------------
// The hint bar
// ---------------------------------------------------------------------

/// Colour of the hint bar's text.
#[derive(Debug, Clone, Copy, PartialEq, Eq, Structural)]
pub enum Tone {
    Muted,
    Alert,
}

/// Whether the highlighted file was moved in this session.
pub open spec fn current_moved(v: AppView) -> bool {
    v.cursor < v.files.len() && log_lookup(v.moved, v.files[v.cursor as int].path@) is Some
}

/// The hint bar: the error message when there is one (muted when it is the
/// Ctrl+C reminder, alarming otherwise), else the keys of the current mode.
pub open spec fn hint(v: AppView) -> (Seq<char>, Tone) {
    match v.error_message {
        Some(e) => (
            e,
            if v.last_ctrl_c is Some {
                Tone::Muted
            } else {
                Tone::Alert
            },
        ),
        None => (
            match v.state {
                AppState::Browsing => if current_moved(v) {
                    "\u{2191}\u{2193} navigate  \u{21b5} file  u undo  r refresh  Space preview  o open  f finder  ^C quit"@
                } else {
                    "\u{2191}\u{2193} navigate  \u{21b5} file  d delete  r refresh  Space preview  o open  f finder  ^C quit"@
                },
                AppState::Searching => "\u{21b5} confirm  Tab new folder  Esc cancel  ^Spc preview"@,
                AppState::SubfolderCreation => "\u{21b5} create  Esc cancel  ^Spc preview"@,
                AppState::Naming => "\u{21b5} confirm (empty=keep)  Esc clear/back"@,
            },
            Tone::Muted,
        ),
    }
}

impl App {
    /// The text of the hint bar and its colour.
    pub fn hint_line(&self) -> (r: (String, Tone))
        ensures
            (r.0@, r.1) == hint(self@),
    {
        match &self.error_message {
            Some(e) => (
                e.clone(),
                if self.last_ctrl_c.is_some() {
                    Tone::Muted
                } else {
                    Tone::Alert
                },
            ),
            None => {
                let text = match self.state {
                    AppState::Browsing => {
                        let moved = self.cursor < self.files.len() && self.moved.contains_key(
                            self.files[self.cursor].path.as_str(),
                        );
                        if moved {
                            String::from_str(
                                "\u{2191}\u{2193} navigate  \u{21b5} file  u undo  r refresh  Space preview  o open  f finder  ^C quit",
                            )
                        } else {
                            String::from_str(
                                "\u{2191}\u{2193} navigate  \u{21b5} file  d delete  r refresh  Space preview  o open  f finder  ^C quit",
                            )
                        }
                    },
                    AppState::Searching => String::from_str(
                        "\u{21b5} confirm  Tab new folder  Esc cancel  ^Spc preview",
                    ),
                    AppState::SubfolderCreation => String::from_str(
                        "\u{21b5} create  Esc cancel  ^Spc preview",
                    ),
                    AppState::Naming => String::from_str(
                        "\u{21b5} confirm (empty=keep)  Esc clear/back",
                    ),
                };
                (text, Tone::Muted)
            },
        }
    }
}

/// The folder of `dest` below `root`, written out: empty when `dest` has
/// no parent or its parent is not below `root`.
pub open spec fn folder_below(dest: Seq<char>, root: Seq<char>) -> Seq<char> {
    match parent_components(dest) {
        Some(pc) => {
            let rc = components(root);
            if rc.len() <= pc.len() && pc.take(rc.len() as int) == rc {
                render(pc.skip(rc.len() as int))
            } else {
                seq![]
            }
        },
        None => seq![],
    }
}

/// The line shown after a move: the file's name, an arrow, and where it
/// went below the destination root (the folder and the new name, or the
/// name alone for a file filed at the root).
pub open spec fn summary_line(
    src: Seq<char>,
    dest: Seq<char>,
    name: Seq<char>,
    root: Seq<char>,
) -> Seq<char> {
    let filename = match file_name(src) {
        Some(n) => n,
        None => seq![],
    };
    let folder = folder_below(dest, root);
    let target = if folder.len() == 0 {
        name
    } else {
        folder + seq!['/'] + name
    };
    filename + seq![' ', '\u{2192}', ' '] + target
}

/// The summary of a move of `src` to `dest` (named `name`) under the
/// destination root `root`: `filename → folder/name`.
pub fn summary_text(src: &str, dest: &str, name: &str, root: &str) -> (r: String)
    ensures
        r@ == summary_line(src@, dest@, name@, root@),
{
    let mut out: Vec<char> = match path_file_name(src) {
        Some(n) => chars_of(n.as_str()),
        None => Vec::new(),
    };
    out.push(' ');
    out.push('\u{2192}');
    out.push(' ');
    let mut pc = path_components(dest);
    let mut folder: Vec<char> = Vec::new();
    if pc.len() > 0 && !(pc[pc.len() - 1].len() == 1 && pc[pc.len() - 1][0] == '/') {
        proof {
            let l = views(pc@).last();
            assert(l == pc@[pc@.len() - 1]@);
            if l == root_component() {
                assert(l.len() == 1 && l[0] == '/');
            }
        }
        let ghost full = pc@;
        pc.pop();
        assert(views(pc@) =~= views(full).drop_last());
        let rc = path_components(root);
        if starts_with_components(&pc, &rc) {
            folder = render_range(&pc, rc.len(), pc.len());
            assert(views(pc@).subrange(rc.len() as int, pc.len() as int) =~= views(pc@).skip(
                rc.len() as int,
            ));
        }
    } else {
        proof {
            if pc.len() > 0 {
                let l = views(pc@).last();
                assert(l == pc@[pc@.len() - 1]@);
                assert(l =~= root_component());
            }
        }
    }
    assert(folder@ == folder_below(dest@, root@));
    append_chars(&mut out, &folder, 0, folder.len());
    if folder.len() > 0 {
        out.push('/');
    }
    let nv = chars_of(name);
    append_chars(&mut out, &nv, 0, nv.len());
    proof {
        assert(folder@.subrange(0, folder@.len() as int) =~= folder@);
        assert(nv@.subrange(0, nv@.len() as int) =~= nv@);
    }
    assert(out@ =~= summary_line(src@, dest@, name@, root@));
    string_of(out.as_slice())
}

} // verus!
