//! The application state machine.
//!
//! `App::handle_event` takes a key press and the current time and either
//! answers with an `AppAction` for the event loop or asks for outside work
//! (an `Effect`: previews, folders, moves). The caller performs the work
//! and hands the outcome to `App::resume`, which answers in the same way,
//! until an action comes back.
use vstd::prelude::*;
use crate::config::Config;
use crate::dest::fault_text;
use crate::dest::query_result;
use crate::dest::top;
use crate::dest::query_fits;
use crate::dest::MAX_RESULTS;
use crate::dest::subdirs;
use crate::dest::texts;
use crate::dest::DestIndex;
use crate::dest::WalkEntry;
use crate::inbox::InboxFile;
use crate::names::dotted_extension;
use crate::names::stem_and_extension;
use crate::paths::join_path;
use crate::paths::joined;
use crate::paths::parent_components;
use crate::paths::path_components;
use crate::paths::render;
use crate::paths::render_range;
use crate::paths::root_component;
use crate::paths::views;
use crate::quicklook::is_same_path;
use crate::quicklook::same_path;
use crate::quicklook::PreviewCommand;
use crate::quicklook::QuickLook;
use crate::text::chars_of;
use crate::text::pop_char;
use crate::text::push_char;
use crate::text::string_of;
use crate::text::trim_chars;
use crate::text::trimmed;
use crate::text::without;
use crate::text::without_text;

verus! {

/// Maximum number of rows of the inline viewport.
pub const MAX_LIST_HEIGHT: u16 = 15;

/// Minimum number of rows of the inline viewport.
pub const MIN_VIEWPORT_HEIGHT: u16 = 4;

/// Rows of the inline viewport for `file_count` files: one per file plus a
/// separator and a hint bar, between `MIN_VIEWPORT_HEIGHT` and
/// `MAX_LIST_HEIGHT`.
pub open spec fn viewport_rows(file_count: nat) -> u16 {
    let needed = file_count + 2;
    if needed < MIN_VIEWPORT_HEIGHT {
        MIN_VIEWPORT_HEIGHT
    } else if needed > MAX_LIST_HEIGHT {
        MAX_LIST_HEIGHT
    } else {
        needed as u16
    }
}

/// Computes the inline viewport height for a given number of inbox files:
/// `min(MAX_LIST_HEIGHT, max(MIN_VIEWPORT_HEIGHT, files + 2))`.
pub fn viewport_height(file_count: usize) -> (r: u16)
    ensures
        r == viewport_rows(file_count as nat),
{
    let count: u16 = if file_count > 65535 {
        65535
    } else {
        file_count as u16
    };
    let needed = count.saturating_add(2);
    if needed < MIN_VIEWPORT_HEIGHT {
        MIN_VIEWPORT_HEIGHT
    } else if needed > MAX_LIST_HEIGHT {
        MAX_LIST_HEIGHT
    } else {
        needed
    }
}

/// The four modes of the application.
#[derive(Debug, Clone, Copy, PartialEq, Eq, Structural)]
pub enum AppState {
    /// Browsing the file list.
    Browsing,
    /// Searching for a destination folder.
    Searching,
    /// Naming a new subfolder of the selected destination.
    SubfolderCreation,
    /// Entering a new name for the file being filed.
    Naming,
}

/// What the event loop must do after an event.
#[derive(Debug, Clone, PartialEq, Eq)]
pub enum AppAction {
    /// Nothing special; continue the event loop.
    Continue,
    /// A file was moved; the event loop prints a summary line.
    CommitMove {
        /// Original inbox path of the moved file.
        src: String,
        /// Path of the file after the move.
        dest: String,
        /// Name the file has at its destination.
        name: String,
    },
    /// The user asked to quit.
    Quit,
}

/// A key of the keyboard, as far as the application tells keys apart.
#[derive(Debug, Clone, Copy, PartialEq, Eq, Structural)]
pub enum Key {
    Up,
    Down,
    Enter,
    Tab,
    Esc,
    Backspace,
    Char(char),
    Other,
}

/// A key event: the key, whether Ctrl was held, and whether the key went
/// down (a press) rather than up.
#[derive(Debug, Clone, Copy, PartialEq, Eq, Structural)]
pub struct KeyInput {
    pub key: Key,
    pub ctrl: bool,
    pub press: bool,
}

/// Outside work the application asks for.
#[derive(Debug, Clone, PartialEq, Eq)]
pub enum Effect {
    /// Stop or start the Quick Look preview.
    Preview(PreviewCommand),
    /// Show this folder in the file manager.
    Reveal(String),
    /// Create this directory and any missing parents.
    CreateDir(String),
    /// Walk the archive tree below this root and report its entries.
    WalkArchive(String),
    /// Create `dest_dir` with its parents and move `src` to `dest`.
    MoveFile { src: String, dest_dir: String, dest: String },
}

/// The outcome of an `Effect`, handed back to `App::resume`.
#[derive(Debug)]
pub enum Outcome {
    /// The work is done (stopping a preview, revealing a folder).
    Done,
    /// A preview was asked to start: the id of its process, or `None`
    /// when it could not be started.
    PreviewStarted(Option<u32>),
    /// The directory was created, or the error text.
    DirCreated(Result<(), String>),
    /// The entries met walking the archive; `None` for a failed entry.
    ArchiveWalked(Vec<Option<WalkEntry>>),
    /// The file was moved, or the error text.
    FileMoved(Result<(), String>),
}

/// What `handle_event` and `resume` answer.
#[derive(Debug)]
pub enum Step {
    /// Done with the event: the action for the event loop.
    Act(AppAction),
    /// Perform this work and hand its outcome to `resume`.
    Perform(Effect),
}

/// What the application waits for while an effect is under way.
#[derive(Debug)]
pub enum Pending {
    Idle,
    Finish,
    Preview(String),
    Create { parent: String, folder: String },
    Rebuild { parent: String, folder: String },
    Move { src: String, dest: String, name: String, folder: String },
    Commit { src: String, dest: String, name: String },
}

/// Files moved during the session: `(original path, new path)` pairs in
/// the order of the moves.
#[derive(Debug)]
pub struct MoveLog {
    entries: Vec<(String, String)>,
}

/// The new path recorded for `p` by the latest move of `p`, if any.
pub open spec fn log_lookup(log: Seq<(Seq<char>, Seq<char>)>, p: Seq<char>) -> Option<Seq<char>>
    decreases log.len(),
{
    if log.len() == 0 {
        None
    } else if same_path(log.last().0, p) {
        Some(log.last().1)
    } else {
        log_lookup(log.drop_last(), p)
    }
}

impl View for MoveLog {
    type V = Seq<(Seq<char>, Seq<char>)>;

    closed spec fn view(&self) -> Seq<(Seq<char>, Seq<char>)> {
        self.entries@.map_values(|e: (String, String)| (e.0@, e.1@))
    }
}

impl MoveLog {
    /// An empty log.
    pub fn new() -> (r: Self)
        ensures
            r@ == Seq::<(Seq<char>, Seq<char>)>::empty(),
    {
        let r = MoveLog { entries: Vec::new() };
        assert(r@ =~= Seq::<(Seq<char>, Seq<char>)>::empty());
        r
    }

    /// Records that the file at `src` now lies at `dest`.
    pub fn insert(&mut self, src: String, dest: String)
        ensures
            final(self)@ == old(self)@.push((src@, dest@)),
    {
        let ghost before = self.entries@;
        self.entries.push((src, dest));
        assert(self@ =~= old(self)@.push((src@, dest@)));
    }

    /// The path the file at `p` was last moved to, if it was moved.
    pub fn get(&self, p: &str) -> (r: Option<String>)
        ensures
            r matches Some(d) ==> log_lookup(self@, p@) == Some(d@),
            r is None ==> log_lookup(self@, p@) is None,
    {
        let mut i = self.entries.len();
        assert(self@.take(i as int) =~= self@);
        while i > 0
            invariant
                i <= self.entries.len(),
                log_lookup(self@, p@) == log_lookup(self@.take(i as int), p@),
            decreases i,
        {
            let ghost pre = self@.take(i as int);
            assert(pre.last() == (self.entries@[i - 1].0@, self.entries@[i - 1].1@));
            assert(pre.drop_last() =~= self@.take(i - 1));
            if is_same_path(self.entries[i - 1].0.as_str(), p) {
                return Some(self.entries[i - 1].1.clone());
            }
            i -= 1;
        }
        None
    }

    /// Whether the file at `p` was moved.
    pub fn contains_key(&self, p: &str) -> (r: bool)
        ensures
            r == log_lookup(self@, p@) is Some,
    {
        self.get(p).is_some()
    }

    /// The path the latest move went to, if any.
    pub fn last_dest(&self) -> (r: Option<String>)
        ensures
            r matches Some(d) ==> self@.len() > 0 && d@ == self@.last().1,
            r is None ==> self@.len() == 0,
    {
        if self.entries.len() == 0 {
            None
        } else {
            Some(self.entries[self.entries.len() - 1].1.clone())
        }
    }
}

// ---------------------------------------------------------------------
// The model
// ---------------------------------------------------------------------

/// What the application waits for, in terms of path text.
pub enum PendingView {
    Idle,
    Finish,
    Preview(Seq<char>),
    Create { parent: Seq<char>, folder: Seq<char> },
    Rebuild { parent: Seq<char>, folder: Seq<char> },
    Move { src: Seq<char>, dest: Seq<char>, name: Seq<char>, folder: Seq<char> },
    Commit { src: Seq<char>, dest: Seq<char>, name: Seq<char> },
}

/// An action in terms of path text.
pub enum ActionView {
    Continue,
    CommitMove { src: Seq<char>, dest: Seq<char>, name: Seq<char> },
    Quit,
}

/// An effect in terms of path text.
pub enum EffectView {
    ClosePreview,
    OpenPreview(Seq<char>),
    Reveal(Seq<char>),
    CreateDir(Seq<char>),
    WalkArchive(Seq<char>),
    MoveFile { src: Seq<char>, dest_dir: Seq<char>, dest: Seq<char> },
}

/// A step in terms of path text.
pub enum StepView {
    Act(ActionView),
    Perform(EffectView),
}

/// The application state in terms of values and text.
#[verifier::ext_equal]
pub struct AppView {
    pub files: Seq<InboxFile>,
    pub cursor: nat,
    pub moved: Seq<(Seq<char>, Seq<char>)>,
    pub folders: Seq<Seq<char>>,
    pub preview_process: Option<u32>,
    pub preview_path: Option<Seq<char>>,
    pub state: AppState,
    pub search_query: Seq<char>,
    pub search_results: Seq<Seq<char>>,
    pub search_cursor: nat,
    pub name_input: Seq<char>,
    pub last_ctrl_c: Option<u64>,
    pub error_message: Option<Seq<char>>,
    pub dest_root: Seq<char>,
    pub selected_dest: Option<Seq<char>>,
    pub recent: Seq<Seq<char>>,
    pub pending: PendingView,
}

/// The text of an optional string.
pub open spec fn opt_text(s: Option<String>) -> Option<Seq<char>> {
    match s {
        Some(x) => Some(x@),
        None => None,
    }
}

impl AppAction {
    pub open spec fn view(self) -> ActionView {
        match self {
            AppAction::Continue => ActionView::Continue,
            AppAction::CommitMove { src, dest, name } => ActionView::CommitMove {
                src: src@,
                dest: dest@,
                name: name@,
            },
            AppAction::Quit => ActionView::Quit,
        }
    }
}

impl Effect {
    pub open spec fn view(self) -> EffectView {
        match self {
            Effect::Preview(PreviewCommand::Close) => EffectView::ClosePreview,
            Effect::Preview(PreviewCommand::Open(p)) => EffectView::OpenPreview(p@),
            Effect::Reveal(p) => EffectView::Reveal(p@),
            Effect::CreateDir(p) => EffectView::CreateDir(p@),
            Effect::WalkArchive(p) => EffectView::WalkArchive(p@),
            Effect::MoveFile { src, dest_dir, dest } => EffectView::MoveFile {
                src: src@,
                dest_dir: dest_dir@,
                dest: dest@,
            },
        }
    }
}

impl Step {
    pub open spec fn view(self) -> StepView {
        match self {
            Step::Act(a) => StepView::Act(a.view()),
            Step::Perform(e) => StepView::Perform(e.view()),
        }
    }
}

impl Pending {
    pub open spec fn view(self) -> PendingView {
        match self {
            Pending::Idle => PendingView::Idle,
            Pending::Finish => PendingView::Finish,
            Pending::Preview(p) => PendingView::Preview(p@),
            Pending::Create { parent, folder } => PendingView::Create {
                parent: parent@,
                folder: folder@,
            },
            Pending::Rebuild { parent, folder } => PendingView::Rebuild {
                parent: parent@,
                folder: folder@,
            },
            Pending::Move { src, dest, name, folder } => PendingView::Move {
                src: src@,
                dest: dest@,
                name: name@,
                folder: folder@,
            },
            Pending::Commit { src, dest, name } => PendingView::Commit {
                src: src@,
                dest: dest@,
                name: name@,
            },
        }
    }
}

// ---------------------------------------------------------------------
// Transitions
// ---------------------------------------------------------------------

/// Nothing more to do: continue, waiting for nothing.
pub open spec fn go_on(v: AppView) -> (AppView, StepView) {
    (AppView { pending: PendingView::Idle, ..v }, StepView::Act(ActionView::Continue))
}

/// Ask for `e`, remembering `p` until its outcome comes back.
pub open spec fn ask(v: AppView, p: PendingView, e: EffectView) -> (AppView, StepView) {
    (AppView { pending: p, ..v }, StepView::Perform(e))
}

/// The path the file at `p` has now: where it was moved to, if it was.
pub open spec fn effective(v: AppView, p: Seq<char>) -> Seq<char> {
    match log_lookup(v.moved, p) {
        Some(d) => d,
        None => p,
    }
}

/// Whether the preview shows the file at `p`.
pub open spec fn previewing(v: AppView, p: Seq<char>) -> bool {
    v.preview_path matches Some(q) && same_path(q, p)
}

/// The state with the preview stopped.
pub open spec fn without_preview(v: AppView) -> AppView {
    AppView { preview_process: None, preview_path: None, ..v }
}

/// The recently used folders that are in the index, most recent first.
pub open spec fn recent_in(recent: Seq<Seq<char>>, folders: Seq<Seq<char>>) -> Seq<Seq<char>>
    decreases recent.len(),
{
    if recent.len() == 0 {
        seq![]
    } else {
        let r = recent_in(recent.drop_last(), folders);
        if folders.contains(recent.last()) {
            r.push(recent.last())
        } else {
            r
        }
    }
}

/// The folders of the index not used recently, in index order.
pub open spec fn not_recent(folders: Seq<Seq<char>>, recent: Seq<Seq<char>>) -> Seq<Seq<char>>
    decreases folders.len(),
{
    if folders.len() == 0 {
        seq![]
    } else {
        let r = not_recent(folders.drop_last(), recent);
        if recent.contains(folders.last()) {
            r
        } else {
            r.push(folders.last())
        }
    }
}

/// The folders in the order an empty search lists them: the recently used
/// ones first, most recent first, then the others in index order.
pub open spec fn recent_first(folders: Seq<Seq<char>>, recent: Seq<Seq<char>>) -> Seq<
    Seq<char>,
> {
    recent_in(recent, folders) + not_recent(folders, recent)
}

/// The search results for the state's query: with no query the first
/// folders with the recently used ones on top, otherwise the best matches.
pub open spec fn results_for(v: AppView) -> Seq<Seq<char>> {
    if v.search_query.len() == 0 {
        top(recent_first(v.folders, v.recent))
    } else {
        query_result(v.folders, v.search_query)
    }
}

/// The state with fresh search results for its query, the result cursor
/// kept within them. A query that some folder cannot be scored against
/// (see `query_fits`) is not searched: the results stay as they were.
pub open spec fn refreshed(v: AppView) -> AppView {
    let results = results_for(v);
    if !query_fits(v.folders, v.search_query) {
        v
    } else {
        AppView {
            search_results: results,
            search_cursor: if results.len() == 0 {
                0
            } else if v.search_cursor >= results.len() {
                (results.len() - 1) as nat
            } else {
                v.search_cursor
            },
            ..v
        }
    }
}

/// `s` without its last character (unchanged when empty).
pub open spec fn backspaced(s: Seq<char>) -> Seq<char> {
    if s.len() == 0 {
        s
    } else {
        s.drop_last()
    }
}

/// Moves the file cursor to `to`, stopping the preview when it shows the
/// file the cursor leaves.
pub open spec fn cursor_to(v: AppView, to: nat) -> (AppView, StepView) {
    let closes = v.cursor < v.files.len() && previewing(
        v,
        effective(v, v.files[v.cursor as int].path@),
    );
    if closes {
        ask(
            AppView { cursor: to, ..without_preview(v) },
            PendingView::Finish,
            EffectView::ClosePreview,
        )
    } else {
        go_on(AppView { cursor: to, ..v })
    }
}

/// Toggles the preview of the highlighted file.
pub open spec fn toggle_preview(v: AppView) -> (AppView, StepView) {
    if v.cursor < v.files.len() {
        let p = effective(v, v.files[v.cursor as int].path@);
        if previewing(v, p) {
            ask(without_preview(v), PendingView::Finish, EffectView::ClosePreview)
        } else {
            ask(without_preview(v), PendingView::Preview(p), EffectView::OpenPreview(p))
        }
    } else {
        go_on(v)
    }
}

/// Shows the folder of the latest move in the file manager.
pub open spec fn reveal_last(v: AppView) -> (AppView, StepView) {
    if v.moved.len() > 0 {
        match parent_components(v.moved.last().1) {
            Some(pc) => ask(v, PendingView::Finish, EffectView::Reveal(render(pc))),
            None => go_on(v),
        }
    } else {
        go_on(v)
    }
}

/// A key in Browsing mode.
pub open spec fn browse_step(v: AppView, ev: KeyInput) -> (AppView, StepView) {
    match ev.key {
        Key::Up => if v.cursor > 0 {
            cursor_to(v, (v.cursor - 1) as nat)
        } else {
            go_on(v)
        },
        Key::Down => if v.cursor + 1 < v.files.len() {
            cursor_to(v, v.cursor + 1)
        } else {
            go_on(v)
        },
        Key::Enter => if v.files.len() == 0 {
            go_on(v)
        } else {
            go_on(
                refreshed(
                    AppView {
                        state: AppState::Searching,
                        search_query: seq![],
                        search_cursor: 0,
                        ..v
                    },
                ),
            )
        },
        Key::Char(' ') => toggle_preview(v),
        Key::Char('o') => reveal_last(v),
        _ => go_on(v),
    }
}

/// A key in Searching mode.
pub open spec fn search_step(v: AppView, ev: KeyInput) -> (AppView, StepView) {
    match ev.key {
        Key::Up => go_on(
            if v.search_cursor > 0 {
                AppView { search_cursor: (v.search_cursor - 1) as nat, ..v }
            } else {
                v
            },
        ),
        Key::Down => go_on(
            if v.search_cursor + 1 < v.search_results.len() {
                AppView { search_cursor: v.search_cursor + 1, ..v }
            } else {
                v
            },
        ),
        Key::Enter => if v.search_cursor < v.search_results.len() {
            go_on(
                AppView {
                    selected_dest: Some(v.search_results[v.search_cursor as int]),
                    state: AppState::Naming,
                    name_input: seq![],
                    ..v
                },
            )
        } else {
            go_on(v)
        },
        Key::Tab => if v.search_results.len() == 0 {
            go_on(v)
        } else {
            go_on(AppView { state: AppState::SubfolderCreation, search_query: seq![], ..v })
        },
        Key::Esc => go_on(
            AppView {
                state: AppState::Browsing,
                search_query: seq![],
                search_results: seq![],
                search_cursor: 0,
                ..v
            },
        ),
        Key::Char(c) => if c == ' ' && ev.ctrl {
            toggle_preview(v)
        } else {
            go_on(refreshed(AppView { search_query: v.search_query.push(c), ..v }))
        },
        Key::Backspace => go_on(
            refreshed(AppView { search_query: backspaced(v.search_query), ..v }),
        ),
        _ => go_on(v),
    }
}

/// Back to Searching with an empty query.
pub open spec fn back_to_search(v: AppView) -> AppView {
    AppView { state: AppState::Searching, search_query: seq![], ..v }
}

/// Enter in SubfolderCreation mode: create the folder named by the query
/// inside the highlighted result.
pub open spec fn create_subfolder(v: AppView) -> (AppView, StepView) {
    let name = trimmed(v.search_query);
    if name.len() == 0 || v.search_cursor >= v.search_results.len() {
        go_on(back_to_search(v))
    } else {
        let parent = v.search_results[v.search_cursor as int];
        ask(
            v,
            PendingView::Create { parent, folder: name },
            EffectView::CreateDir(joined(joined(v.dest_root, parent), name)),
        )
    }
}

/// A key in SubfolderCreation mode.
pub open spec fn create_step(v: AppView, ev: KeyInput) -> (AppView, StepView) {
    match ev.key {
        Key::Enter => create_subfolder(v),
        Key::Esc => go_on(refreshed(back_to_search(v))),
        Key::Char(c) => go_on(AppView { search_query: v.search_query.push(c), ..v }),
        Key::Backspace => go_on(AppView { search_query: backspaced(v.search_query), ..v }),
        _ => go_on(v),
    }
}

/// The name a file is filed under: the typed name, trimmed, with the
/// original's extension.
pub open spec fn final_name(input: Seq<char>, original: Seq<char>) -> Seq<char> {
    trimmed(input) + dotted_extension(original)
}

/// Enter in Naming mode: move the highlighted file to the selected
/// destination under the typed name (the original name when none is
/// typed).
pub open spec fn confirm_move(v: AppView) -> (AppView, StepView) {
    if v.cursor >= v.files.len() {
        go_on(v)
    } else {
        match v.selected_dest {
            None => go_on(v),
            Some(rel) => {
                let file = v.files[v.cursor as int];
                let dest_dir = joined(v.dest_root, rel);
                let name = if trimmed(v.name_input).len() == 0 {
                    file.filename@
                } else {
                    final_name(v.name_input, file.filename@)
                };
                let dest = joined(dest_dir, name);
                ask(
                    v,
                    PendingView::Move { src: file.path@, dest, name, folder: rel },
                    EffectView::MoveFile { src: effective(v, file.path@), dest_dir, dest },
                )
            },
        }
    }
}

/// A key in Naming mode.
pub open spec fn name_step(v: AppView, ev: KeyInput) -> (AppView, StepView) {
    match ev.key {
        Key::Enter => confirm_move(v),
        Key::Esc => go_on(
            refreshed(
                AppView {
                    state: AppState::Searching,
                    name_input: seq![],
                    search_query: seq![],
                    ..v
                },
            ),
        ),
        Key::Char(c) => if c == 'u' && ev.ctrl {
            go_on(AppView { name_input: seq![], ..v })
        } else if c == ' ' && ev.ctrl {
            toggle_preview(v)
        } else {
            go_on(AppView { name_input: v.name_input.push(c), ..v })
        },
        Key::Backspace => go_on(AppView { name_input: backspaced(v.name_input), ..v }),
        _ => go_on(v),
    }
}

/// Nanoseconds within which a second Ctrl+C quits.
pub open spec fn quit_window() -> u64 {
    1_000_000_000
}

/// The reminder shown after a first Ctrl+C.
pub open spec fn ctrl_c_hint() -> Seq<char> {
    "Press Ctrl+C again to quit"@
}

/// Ctrl+C at time `now`: quits when it follows another within a second,
/// otherwise shows the reminder.
pub open spec fn ctrl_c_step(v: AppView, now: u64) -> (AppView, StepView) {
    match v.last_ctrl_c {
        Some(t) if (if now >= t {
            now - t
        } else {
            0
        }) < quit_window() => (
            AppView { pending: PendingView::Idle, ..v },
            StepView::Act(ActionView::Quit),
        ),
        _ => go_on(AppView { last_ctrl_c: Some(now), error_message: Some(ctrl_c_hint()), ..v }),
    }
}

/// A key event at time `now`.
pub open spec fn key_step(v: AppView, ev: KeyInput, now: u64) -> (AppView, StepView) {
    if !ev.press {
        (v, StepView::Act(ActionView::Continue))
    } else if ev.key == Key::Char('c') && ev.ctrl {
        ctrl_c_step(v, now)
    } else {
        let w = AppView { error_message: None, last_ctrl_c: None, ..v };
        match v.state {
            AppState::Browsing => browse_step(w, ev),
            AppState::Searching => search_step(w, ev),
            AppState::SubfolderCreation => create_step(w, ev),
            AppState::Naming => name_step(w, ev),
        }
    }
}

/// The position of `x` in `s`, if it occurs.
pub open spec fn position(s: Seq<Seq<char>>, x: Seq<char>) -> Option<nat>
    decreases s.len(),
{
    if s.len() == 0 {
        None
    } else if s[0] == x {
        Some(0)
    } else {
        match position(s.drop_first(), x) {
            Some(i) => Some(i + 1),
            None => None,
        }
    }
}

proof fn lemma_position(s: Seq<Seq<char>>, x: Seq<char>, i: int)
    requires
        0 <= i <= s.len(),
        forall|k: int| 0 <= k < i ==> s[k] != x,
        i < s.len() ==> s[i] == x,
    ensures
        i < s.len() ==> position(s, x) == Some(i as nat),
        i == s.len() ==> position(s, x) is None,
    decreases i,
{
    if i > 0 {
        let t = s.drop_first();
        assert forall|k: int| 0 <= k < i - 1 implies t[k] != x by {
            assert(t[k] == s[k + 1]);
        }
        if i - 1 < t.len() {
            assert(t[i - 1] == s[i]);
        }
        lemma_position(t, x, i - 1);
    }
}

pub(crate) fn find_position(s: &Vec<String>, x: &String) -> (r: Option<usize>)
    ensures
        r matches Some(i) ==> position(texts(s@), x@) == Some(i as nat) && i < s.len(),
        r is None ==> position(texts(s@), x@) is None,
{
    let ghost t = texts(s@);
    let mut i: usize = 0;
    while i < s.len()
        invariant
            i <= s.len(),
            t == texts(s@),
            forall|k: int| 0 <= k < i ==> t[k] != x@,
        decreases s.len() - i,
    {
        if s[i] == *x {
            proof {
                lemma_position(t, x@, i as int);
            }
            return Some(i);
        }
        i += 1;
    }
    proof {
        lemma_position(t, x@, i as int);
    }
    None
}

/// Whether `x` is one of `v`'s strings.
fn holds(v: &Vec<String>, x: &String) -> (r: bool)
    ensures
        r == texts(v@).contains(x@),
{
    let ghost t = texts(v@);
    let mut i: usize = 0;
    while i < v.len()
        invariant
            i <= v.len(),
            t == texts(v@),
            forall|k: int| 0 <= k < i ==> t[k] != x@,
        decreases v.len() - i,
    {
        if v[i] == *x {
            assert(t[i as int] == x@);
            return true;
        }
        i += 1;
    }
    false
}

/// The text of an outcome's error, if it has one.
pub open spec fn failure(r: Result<(), String>) -> Option<Seq<char>> {
    match r {
        Ok(_) => None,
        Err(e) => Some(e@),
    }
}

/// After the archive was walked for a new subfolder `parent/folder`:
/// rebuild the index (or report why it could not be), refresh the results
/// and put the result cursor on the new folder when it is listed.
pub open spec fn after_walk(
    v: AppView,
    parent: Seq<char>,
    folder: Seq<char>,
    entries: Seq<Option<WalkEntry>>,
) -> (AppView, StepView) {
    let v1 = match subdirs(v.dest_root, entries) {
        Ok(ds) => AppView { folders: ds, ..v },
        Err(f) => AppView {
            error_message: Some("Failed to rebuild index: "@ + fault_text(f, v.dest_root)),
            ..v
        },
    };
    let v2 = refreshed(AppView { search_query: seq![], ..v1 });
    let new_rel = parent + seq!['/'] + folder;
    let v3 = match position(v2.search_results, new_rel) {
        Some(i) => AppView { search_cursor: i, ..v2 },
        None => v2,
    };
    go_on(AppView { state: AppState::Searching, ..v3 })
}

/// The outcome of the work the application asked for.
pub open spec fn resume_step(
    v: AppView,
    outcome: Outcome,
) -> (AppView, StepView) {
    match (v.pending, outcome) {
        (PendingView::Preview(p), Outcome::PreviewStarted(id)) => go_on(
            AppView {
                preview_process: id,
                preview_path: if id is Some {
                    Some(p)
                } else {
                    None
                },
                ..v
            },
        ),
        (PendingView::Create { parent, folder }, Outcome::DirCreated(r)) => match failure(r) {
            Some(e) => go_on(
                AppView {
                    error_message: Some("Failed to create folder: "@ + e),
                    ..back_to_search(v)
                },
            ),
            None => ask(
                v,
                PendingView::Rebuild { parent, folder },
                EffectView::WalkArchive(v.dest_root),
            ),
        },
        (PendingView::Rebuild { parent, folder }, Outcome::ArchiveWalked(entries)) => after_walk(
            v,
            parent,
            folder,
            entries@,
        ),
        (PendingView::Move { src, dest, name, folder }, Outcome::FileMoved(r)) => match failure(r) {
            Some(e) => go_on(AppView { error_message: Some("Move failed: "@ + e), ..v }),
            None => ask(
                AppView {
                    moved: v.moved.push((src, dest)),
                    recent: seq![folder] + without(v.recent, folder),
                    state: AppState::Browsing,
                    name_input: seq![],
                    search_query: seq![],
                    selected_dest: None,
                    ..without_preview(v)
                },
                PendingView::Commit { src, dest, name },
                EffectView::ClosePreview,
            ),
        },
        (PendingView::Commit { src, dest, name }, _) => (
            AppView { pending: PendingView::Idle, ..v },
            StepView::Act(ActionView::CommitMove { src, dest, name }),
        ),
        _ => go_on(v),
    }
}

// ---------------------------------------------------------------------
// The application
// ---------------------------------------------------------------------

/// The application state driving the TUI.
#[derive(Debug)]
pub struct App {
    /// Inbox files, newest first.
    pub files: Vec<InboxFile>,
    /// Index into `files` of the highlighted row.
    pub cursor: usize,
    /// Files moved during this session.
    pub moved: MoveLog,
    /// Searchable index of the destination folders.
    pub dest_index: DestIndex,
    /// The Quick Look preview.
    pub quick_look: QuickLook,
    /// Current mode.
    pub state: AppState,
    /// Search text in Searching mode; folder name in SubfolderCreation mode.
    pub search_query: String,
    /// Current search results (relative folder paths).
    pub search_results: Vec<String>,
    /// Index into `search_results` of the highlighted result.
    pub search_cursor: usize,
    /// Text of the name field in Naming mode.
    pub name_input: String,
    /// Time of the last Ctrl+C, in nanoseconds of a monotonic clock.
    pub last_ctrl_c: Option<u64>,
    /// Error message shown in the hint bar.
    pub error_message: Option<String>,
    /// Root of the destination archive.
    pub dest_root: String,
    /// The destination chosen in Searching mode, carried into Naming.
    pub selected_dest: Option<String>,
    /// Destination folders used in this session, most recent first.
    pub recent: Vec<String>,
    /// What the application waits for while an effect is under way.
    pub pending: Pending,
}

impl View for App {
    type V = AppView;

    open spec fn view(&self) -> AppView {
        AppView {
            files: self.files@,
            cursor: self.cursor as nat,
            moved: self.moved@,
            folders: self.dest_index.folders(),
            preview_process: self.quick_look.process,
            preview_path: opt_text(self.quick_look.current_path),
            state: self.state,
            search_query: self.search_query@,
            search_results: texts(self.search_results@),
            search_cursor: self.search_cursor as nat,
            name_input: self.name_input@,
            last_ctrl_c: self.last_ctrl_c,
            error_message: opt_text(self.error_message),
            dest_root: self.dest_root@,
            selected_dest: opt_text(self.selected_dest),
            recent: texts(self.recent@),
            pending: self.pending.view(),
        }
    }
}

impl App {
    /// The cursors can be stepped forward.
    pub open spec fn steppable(&self) -> bool {
        self.cursor < usize::MAX && self.search_cursor < usize::MAX
    }

    /// Creates the application from scanned inbox files, a destination
    /// index and the configuration: Browsing, cursor on the first file,
    /// the whole index as search results.
    pub fn new(files: Vec<InboxFile>, dest_index: DestIndex, config: &Config) -> (r: Self)
        ensures
            r@ == (AppView {
                files: files@,
                cursor: 0,
                moved: seq![],
                folders: dest_index.folders(),
                preview_process: None,
                preview_path: None,
                state: AppState::Browsing,
                search_query: seq![],
                search_results: query_result(dest_index.folders(), seq![]),
                search_cursor: 0,
                name_input: seq![],
                last_ctrl_c: None,
                error_message: None,
                dest_root: config.destination.root@,
                selected_dest: None,
                recent: seq![],
                pending: PendingView::Idle,
            }),
            r.steppable(),
    {
        let empty = String::new();
        let search_results = dest_index.query(empty.as_str());
        let r = App {
            files,
            cursor: 0,
            moved: MoveLog::new(),
            dest_index,
            quick_look: QuickLook::new(),
            state: AppState::Browsing,
            search_query: String::new(),
            search_results,
            search_cursor: 0,
            name_input: String::new(),
            last_ctrl_c: None,
            error_message: None,
            dest_root: config.destination.root.clone(),
            selected_dest: None,
            recent: Vec::new(),
            pending: Pending::Idle,
        };
        assert(r@ =~= (AppView {
            files: files@,
            cursor: 0,
            moved: seq![],
            folders: dest_index.folders(),
            preview_process: None,
            preview_path: None,
            state: AppState::Browsing,
            search_query: seq![],
            search_results: query_result(dest_index.folders(), seq![]),
            search_cursor: 0,
            name_input: seq![],
            last_ctrl_c: None,
            error_message: None,
            dest_root: config.destination.root@,
            selected_dest: None,
            recent: seq![],
            pending: PendingView::Idle,
        }));
        r
    }

    /// Returns the effective path of a file, resolving any move recorded
    /// in the session.
    pub fn effective_path(&self, original: &str) -> (r: String)
        ensures
            r@ == effective(self@, original@),
    {
        match self.moved.get(original) {
            Some(d) => d,
            None => string_of(chars_of(original).as_slice()),
        }
    }

    /// Returns the highlighted file, if any.
    pub fn current_file(&self) -> (r: Option<&InboxFile>)
        ensures
            self.cursor < self.files.len() ==> r == Some(&self.files@[self.cursor as int]),
            self.cursor >= self.files.len() ==> r is None,
    {
        if self.cursor < self.files.len() {
            Some(&self.files[self.cursor])
        } else {
            None
        }
    }

    /// Builds the final file name from the typed name (trimmed) and the
    /// extension of `original`.
    pub fn build_final_name(&self, original: &str) -> (r: String)
        ensures
            r@ == final_name(self.name_input@, original@),
    {
        let mut out = trim_chars(self.name_input.as_str());
        let (_, ext) = stem_and_extension(original);
        match ext {
            Some(e) => {
                let ghost before = out@;
                out.push('.');
                let mut i: usize = 0;
                while i < e.len()
                    invariant
                        i <= e.len(),
                        out@ == before.push('.') + e@.take(i as int),
                    decreases e.len() - i,
                {
                    out.push(e[i]);
                    i += 1;
                    assert(out@ =~= before.push('.') + e@.take(i as int));
                }
                assert(out@ =~= final_name(self.name_input@, original@));
            },
            None => {
                assert(out@ =~= final_name(self.name_input@, original@));
            },
        }
        string_of(out.as_slice())
    }

    /// The first `MAX_RESULTS` folders of the index with the recently used
    /// ones on top.
    fn recent_first_results(&self) -> (r: Vec<String>)
        ensures
            texts(r@) == top(recent_first(self.dest_index.folders(), texts(self.recent@))),
    {
        let dirs = self.dest_index.dirs();
        let ghost folders = texts(dirs@);
        let ghost recent = texts(self.recent@);
        let mut out: Vec<String> = Vec::new();
        let mut i: usize = 0;
        assert(recent.take(0) =~= seq![]);
        assert(texts(out@) =~= seq![]);
        while i < self.recent.len()
            invariant
                i <= self.recent.len(),
                folders == texts(dirs@),
                recent == texts(self.recent@),
                texts(out@) == recent_in(recent.take(i as int), folders),
            decreases self.recent.len() - i,
        {
            assert(recent.take(i + 1).drop_last() =~= recent.take(i as int));
            assert(recent.take(i + 1).last() == self.recent@[i as int]@);
            if holds(dirs, &self.recent[i]) {
                let ghost before = out@;
                out.push(self.recent[i].clone());
                assert(texts(out@) =~= texts(before).push(self.recent@[i as int]@));
            }
            i += 1;
        }
        assert(recent.take(self.recent.len() as int) =~= recent);
        let ghost head = texts(out@);
        let mut j: usize = 0;
        assert(folders.take(0) =~= seq![]);
        assert(texts(out@) =~= head + not_recent(folders.take(0), recent));
        while j < dirs.len()
            invariant
                j <= dirs.len(),
                folders == texts(dirs@),
                recent == texts(self.recent@),
                texts(out@) == head + not_recent(folders.take(j as int), recent),
            decreases dirs.len() - j,
        {
            assert(folders.take(j + 1).drop_last() =~= folders.take(j as int));
            assert(folders.take(j + 1).last() == dirs@[j as int]@);
            if !holds(&self.recent, &dirs[j]) {
                let ghost before = out@;
                out.push(dirs[j].clone());
                assert(texts(out@) =~= texts(before).push(dirs@[j as int]@));
            }
            j += 1;
        }
        assert(folders.take(dirs.len() as int) =~= folders);
        let ghost all = out@;
        out.truncate(MAX_RESULTS);
        assert(texts(out@) =~= top(texts(all)));
        out
    }

    /// Updates the search results from the current query, keeping the
    /// result cursor within them.
    pub fn update_search_results(&mut self)
        ensures
            final(self)@ == refreshed(old(self)@),
            final(self).cursor == old(self).cursor,
            final(self).search_cursor <= old(self).search_cursor,
    {
        if !self.dest_index.can_query(self.search_query.as_str()) {
            return;
        }
        self.search_results = if self.search_query.as_str().is_empty() {
            self.recent_first_results()
        } else {
            self.dest_index.query(self.search_query.as_str())
        };
        if self.search_results.len() == 0 {
            self.search_cursor = 0;
        } else if self.search_cursor >= self.search_results.len() {
            self.search_cursor = self.search_results.len() - 1;
        }
        assert(self@ =~= refreshed(old(self)@));
    }

    /// Records that the preview process has exited on its own.
    pub fn preview_exited(&mut self)
        ensures
            final(self)@ == (if old(self).quick_look.process is Some {
                without_preview(old(self)@)
            } else {
                old(self)@
            }),
            final(self).cursor == old(self).cursor,
            final(self).search_cursor == old(self).search_cursor,
    {
        self.quick_look.poll(true);
        assert(self@ =~= (if old(self).quick_look.process is Some {
            without_preview(old(self)@)
        } else {
            old(self)@
        }));
    }

    fn go_on(&mut self) -> (r: Step)
        ensures
            final(self)@ == go_on(old(self)@).0,
            r.view() == go_on(old(self)@).1,
            final(self).cursor == old(self).cursor,
            final(self).search_cursor == old(self).search_cursor,
    {
        self.pending = Pending::Idle;
        assert(self@ =~= go_on(old(self)@).0);
        Step::Act(AppAction::Continue)
    }

    fn close_preview(&mut self, then: Pending) -> (r: Step)
        ensures
            final(self)@ == ask(
                without_preview(old(self)@),
                then.view(),
                EffectView::ClosePreview,
            ).0,
            r.view() == StepView::Perform(EffectView::ClosePreview),
            final(self).cursor == old(self).cursor,
            final(self).search_cursor == old(self).search_cursor,
    {
        let cmd = self.quick_look.close();
        self.pending = then;
        assert(self@ =~= ask(without_preview(old(self)@), then.view(), EffectView::ClosePreview).0);
        Step::Perform(Effect::Preview(cmd))
    }

    fn move_cursor(&mut self, to: usize) -> (r: Step)
        ensures
            final(self)@ == cursor_to(old(self)@, to as nat).0,
            r.view() == cursor_to(old(self)@, to as nat).1,
            final(self).cursor == to,
            final(self).search_cursor == old(self).search_cursor,
    {
        let closes = if self.cursor < self.files.len() {
            let eff = self.effective_path(self.files[self.cursor].path.as_str());
            self.quick_look.is_open_for(eff.as_str())
        } else {
            false
        };
        self.cursor = to;
        if closes {
            self.close_preview(Pending::Finish)
        } else {
            self.go_on()
        }
    }

    fn toggle_preview(&mut self) -> (r: Step)
        ensures
            final(self)@ == toggle_preview(old(self)@).0,
            r.view() == toggle_preview(old(self)@).1,
            final(self).cursor == old(self).cursor,
            final(self).search_cursor == old(self).search_cursor,
    {
        if self.cursor < self.files.len() {
            let p = self.effective_path(self.files[self.cursor].path.as_str());
            let cmd = self.quick_look.toggle(p.as_str());
            match &cmd {
                PreviewCommand::Close => {
                    self.pending = Pending::Finish;
                },
                PreviewCommand::Open(_) => {
                    self.pending = Pending::Preview(p);
                },
            }
            assert(self@ =~= toggle_preview(old(self)@).0);
            Step::Perform(Effect::Preview(cmd))
        } else {
            self.go_on()
        }
    }

    fn reveal_last(&mut self) -> (r: Step)
        ensures
            final(self)@ == reveal_last(old(self)@).0,
            r.view() == reveal_last(old(self)@).1,
            final(self).cursor == old(self).cursor,
            final(self).search_cursor == old(self).search_cursor,
    {
        match self.moved.last_dest() {
            Some(d) => {
                let pc = path_components(d.as_str());
                if pc.len() > 0 && !(pc[pc.len() - 1].len() == 1 && pc[pc.len() - 1][0] == '/') {
                    proof {
                        let l = views(pc@).last();
                        assert(l == pc@[pc@.len() - 1]@);
                        if l == root_component() {
                            assert(l.len() == 1 && l[0] == '/');
                        }
                    }
                    let parent = render_range(&pc, 0, pc.len() - 1);
                    assert(views(pc@).subrange(0, pc.len() - 1) =~= views(pc@).drop_last());
                    self.pending = Pending::Finish;
                    assert(self@ =~= reveal_last(old(self)@).0);
                    Step::Perform(Effect::Reveal(string_of(parent.as_slice())))
                } else {
                    proof {
                        if pc.len() > 0 {
                            let l = views(pc@).last();
                            assert(l == pc@[pc@.len() - 1]@);
                            assert(l =~= root_component());
                        }
                    }
                    self.go_on()
                }
            },
            None => self.go_on(),
        }
    }

    fn browse(&mut self, event: KeyInput) -> (r: Step)
        requires
            old(self).steppable(),
        ensures
            final(self)@ == browse_step(old(self)@, event).0,
            r.view() == browse_step(old(self)@, event).1,
            final(self).steppable(),
    {
        match event.key {
            Key::Up => {
                if self.cursor > 0 {
                    let to = self.cursor - 1;
                    self.move_cursor(to)
                } else {
                    self.go_on()
                }
            },
            Key::Down => {
                if self.cursor + 1 < self.files.len() {
                    let to = self.cursor + 1;
                    self.move_cursor(to)
                } else {
                    self.go_on()
                }
            },
            Key::Enter => {
                if self.files.len() == 0 {
                    return self.go_on();
                }
                self.state = AppState::Searching;
                self.search_query = String::new();
                self.search_cursor = 0;
                self.update_search_results();
                self.go_on()
            },
            Key::Char(' ') => self.toggle_preview(),
            Key::Char('o') => self.reveal_last(),
            _ => self.go_on(),
        }
    }

    fn search(&mut self, event: KeyInput) -> (r: Step)
        requires
            old(self).steppable(),
        ensures
            final(self)@ == search_step(old(self)@, event).0,
            r.view() == search_step(old(self)@, event).1,
            final(self).steppable(),
    {
        match event.key {
            Key::Up => {
                if self.search_cursor > 0 {
                    self.search_cursor = self.search_cursor - 1;
                }
                self.go_on()
            },
            Key::Down => {
                if self.search_cursor + 1 < self.search_results.len() {
                    self.search_cursor = self.search_cursor + 1;
                }
                self.go_on()
            },
            Key::Enter => {
                if self.search_cursor < self.search_results.len() {
                    self.selected_dest = Some(self.search_results[self.search_cursor].clone());
                    self.state = AppState::Naming;
                    self.name_input = String::new();
                }
                self.go_on()
            },
            Key::Tab => {
                if self.search_results.len() > 0 {
                    self.state = AppState::SubfolderCreation;
                    self.search_query = String::new();
                }
                self.go_on()
            },
            Key::Esc => {
                self.state = AppState::Browsing;
                self.search_query = String::new();
                self.search_results = Vec::new();
                self.search_cursor = 0;
                assert(texts(self.search_results@) =~= seq![]);
                self.go_on()
            },
            Key::Char(c) => {
                if c == ' ' && event.ctrl {
                    self.toggle_preview()
                } else {
                    push_char(&mut self.search_query, c);
                    self.update_search_results();
                    self.go_on()
                }
            },
            Key::Backspace => {
                pop_char(&mut self.search_query);
                self.update_search_results();
                self.go_on()
            },
            _ => self.go_on(),
        }
    }

    fn create_subfolder(&mut self) -> (r: Step)
        requires
            old(self).steppable(),
        ensures
            final(self)@ == create_subfolder(old(self)@).0,
            r.view() == create_subfolder(old(self)@).1,
            final(self).steppable(),
    {
        let name = trim_chars(self.search_query.as_str());
        if name.len() == 0 || self.search_cursor >= self.search_results.len() {
            self.state = AppState::Searching;
            self.search_query = String::new();
            return self.go_on();
        }
        let parent = self.search_results[self.search_cursor].clone();
        let folder = string_of(name.as_slice());
        let base = join_path(self.dest_root.as_str(), parent.as_str());
        let dir = join_path(base.as_str(), folder.as_str());
        self.pending = Pending::Create { parent, folder };
        assert(self@ =~= create_subfolder(old(self)@).0);
        Step::Perform(Effect::CreateDir(dir))
    }

    fn create(&mut self, event: KeyInput) -> (r: Step)
        requires
            old(self).steppable(),
        ensures
            final(self)@ == create_step(old(self)@, event).0,
            r.view() == create_step(old(self)@, event).1,
            final(self).steppable(),
    {
        match event.key {
            Key::Enter => self.create_subfolder(),
            Key::Esc => {
                self.state = AppState::Searching;
                self.search_query = String::new();
                self.update_search_results();
                self.go_on()
            },
            Key::Char(c) => {
                push_char(&mut self.search_query, c);
                self.go_on()
            },
            Key::Backspace => {
                pop_char(&mut self.search_query);
                self.go_on()
            },
            _ => self.go_on(),
        }
    }

    fn confirm_move(&mut self) -> (r: Step)
        requires
            old(self).steppable(),
        ensures
            final(self)@ == confirm_move(old(self)@).0,
            r.view() == confirm_move(old(self)@).1,
            final(self).steppable(),
    {
        if self.cursor >= self.files.len() {
            return self.go_on();
        }
        let rel = match &self.selected_dest {
            Some(r) => r.clone(),
            None => {
                return self.go_on();
            },
        };
        let file_path = self.files[self.cursor].path.clone();
        let filename = self.files[self.cursor].filename.clone();
        let src = self.effective_path(file_path.as_str());
        let dest_dir = join_path(self.dest_root.as_str(), rel.as_str());
        let typed = trim_chars(self.name_input.as_str());
        let name = if typed.len() == 0 {
            filename
        } else {
            self.build_final_name(filename.as_str())
        };
        let dest = join_path(dest_dir.as_str(), name.as_str());
        self.pending = Pending::Move { src: file_path, dest: dest.clone(), name, folder: rel };
        assert(self@ =~= confirm_move(old(self)@).0);
        Step::Perform(Effect::MoveFile { src, dest_dir, dest })
    }

    fn name(&mut self, event: KeyInput) -> (r: Step)
        requires
            old(self).steppable(),
        ensures
            final(self)@ == name_step(old(self)@, event).0,
            r.view() == name_step(old(self)@, event).1,
            final(self).steppable(),
    {
        match event.key {
            Key::Enter => self.confirm_move(),
            Key::Esc => {
                self.state = AppState::Searching;
                self.name_input = String::new();
                self.search_query = String::new();
                self.update_search_results();
                self.go_on()
            },
            Key::Char(c) => {
                if c == 'u' && event.ctrl {
                    self.name_input = String::new();
                    self.go_on()
                } else if c == ' ' && event.ctrl {
                    self.toggle_preview()
                } else {
                    push_char(&mut self.name_input, c);
                    self.go_on()
                }
            },
            Key::Backspace => {
                pop_char(&mut self.name_input);
                self.go_on()
            },
            _ => self.go_on(),
        }
    }

    /// Processes one key event at time `now` (nanoseconds of a monotonic
    /// clock): the action for the event loop, or the outside work to do
    /// first.
    pub fn handle_event(&mut self, event: KeyInput, now: u64) -> (r: Step)
        requires
            old(self).steppable(),
        ensures
            final(self)@ == key_step(old(self)@, event, now).0,
            r.view() == key_step(old(self)@, event, now).1,
            final(self).steppable(),
    {
        if !event.press {
            return Step::Act(AppAction::Continue);
        }
        if event.key == Key::Char('c') && event.ctrl {
            return self.handle_ctrl_c(now);
        }
        self.error_message = None;
        self.last_ctrl_c = None;
        match self.state {
            AppState::Browsing => self.browse(event),
            AppState::Searching => self.search(event),
            AppState::SubfolderCreation => self.create(event),
            AppState::Naming => self.name(event),
        }
    }

    fn handle_ctrl_c(&mut self, now: u64) -> (r: Step)
        ensures
            final(self)@ == ctrl_c_step(old(self)@, now).0,
            r.view() == ctrl_c_step(old(self)@, now).1,
            final(self).cursor == old(self).cursor,
            final(self).search_cursor == old(self).search_cursor,
    {
        if let Some(last) = self.last_ctrl_c {
            let elapsed = if now >= last {
                now - last
            } else {
                0
            };
            if elapsed < 1_000_000_000 {
                self.pending = Pending::Idle;
                return Step::Act(AppAction::Quit);
            }
        }
        self.last_ctrl_c = Some(now);
        self.error_message = Some(String::from_str("Press Ctrl+C again to quit"));
        self.go_on()
    }

    fn after_walk(&mut self, parent: String, folder: String, entries: Vec<Option<WalkEntry>>) -> (r: Step)
        requires
            old(self).steppable(),
        ensures
            final(self)@ == after_walk(old(self)@, parent@, folder@, entries@).0,
            r.view() == after_walk(old(self)@, parent@, folder@, entries@).1,
            final(self).steppable(),
    {
        let ghost v0 = self@;
        let ghost w = after_walk(v0, parent@, folder@, entries@);
        let ghost es = entries@;
        let root = self.dest_root.clone();
        match self.dest_index.rebuild(root.as_str(), entries) {
            Ok(()) => {},
            Err(e) => {
                self.error_message = Some(
                    String::from_str("Failed to rebuild index: ").concat(
                        e.message(root.as_str()).as_str(),
                    ),
                );
            },
        }
        let ghost v1 = match subdirs(v0.dest_root, es) {
            Ok(ds) => AppView { folders: ds, ..v0 },
            Err(f) => AppView {
                error_message: Some("Failed to rebuild index: "@ + fault_text(f, v0.dest_root)),
                ..v0
            },
        };
        assert(self@ =~= v1);
        let new_rel = parent.concat("/").concat(folder.as_str());
        proof {
            reveal_strlit("/");
            assert(new_rel@ =~= parent@ + seq!['/'] + folder@);
        }
        self.search_query = String::new();
        assert(self@ =~= AppView { search_query: seq![], ..v1 });
        self.update_search_results();
        let ghost v2 = self@;
        match find_position(&self.search_results, &new_rel) {
            Some(i) => {
                self.search_cursor = i;
                assert(self@ =~= AppView { search_cursor: i as nat, ..v2 });
            },
            None => {},
        }
        self.state = AppState::Searching;
        self.go_on()
    }

    /// Takes the outcome of the work asked for by the last step: the
    /// action for the event loop, or more work to do first.
    pub fn resume(&mut self, outcome: Outcome) -> (r: Step)
        requires
            old(self).steppable(),
        ensures
            final(self)@ == resume_step(old(self)@, outcome).0,
            r.view() == resume_step(old(self)@, outcome).1,
            final(self).steppable(),
    {
        let mut pending = Pending::Idle;
        std::mem::swap(&mut self.pending, &mut pending);
        match (pending, outcome) {
            (Pending::Preview(p), Outcome::PreviewStarted(id)) => {
                self.quick_look.opened(p.as_str(), id);
                self.go_on()
            },
            (Pending::Create { parent, folder }, Outcome::DirCreated(r)) => match r {
                Err(e) => {
                    self.error_message = Some(
                        String::from_str("Failed to create folder: ").concat(e.as_str()),
                    );
                    self.state = AppState::Searching;
                    self.search_query = String::new();
                    self.go_on()
                },
                Ok(()) => {
                    self.pending = Pending::Rebuild { parent, folder };
                    Step::Perform(Effect::WalkArchive(self.dest_root.clone()))
                },
            },
            (Pending::Rebuild { parent, folder }, Outcome::ArchiveWalked(entries)) => {
                self.after_walk(parent, folder, entries)
            },
            (Pending::Move { src, dest, name, folder }, Outcome::FileMoved(r)) => match r {
                Err(e) => {
                    self.error_message = Some(String::from_str("Move failed: ").concat(e.as_str()));
                    self.go_on()
                },
                Ok(()) => {
                    let cmd = self.quick_look.close();
                    self.moved.insert(src.clone(), dest.clone());
                    let mut recent = without_text(&self.recent, &folder);
                    recent.insert(0, folder);
                    self.recent = recent;
                    self.state = AppState::Browsing;
                    self.name_input = String::new();
                    self.search_query = String::new();
                    self.selected_dest = None;
                    self.pending = Pending::Commit { src, dest, name };
                    Step::Perform(Effect::Preview(cmd))
                },
            },
            (Pending::Commit { src, dest, name }, _) => {
                Step::Act(AppAction::CommitMove { src, dest, name })
            },
            _ => self.go_on(),
        }
    }
}

} // verus!
