//! Properties of the application that span several events: what every
//! step keeps, and what a sequence of steps leads to.
use vstd::prelude::*;
use crate::app::after_walk;
use crate::app::browse_step;
use crate::app::create_step;
use crate::app::ctrl_c_hint;
use crate::app::effective;
use crate::app::key_step;
use crate::app::not_recent;
use crate::app::recent_first;
use crate::app::recent_in;
use crate::app::log_lookup;
use crate::app::name_step;
use crate::app::position;
use crate::app::previewing;
use crate::app::quit_window;
use crate::app::resume_step;
use crate::app::search_step;
use crate::app::ActionView;
use crate::app::AppState;
use crate::app::AppView;
use crate::app::EffectView;
use crate::app::Key;
use crate::app::KeyInput;
use crate::app::Outcome;
use crate::app::PendingView;
use crate::app::StepView;
use crate::dest::top;
use crate::dest::occurrences;
use crate::dest::lemma_occurrences_append;
use crate::app::results_for;
use crate::text::without;
use crate::names::dotted_extension;
use crate::paths::joined;
use crate::text::trimmed;
use crate::text::is_space;
use crate::text::leading_space;
use crate::text::trailing_space;

verus! {

/// The key event of pressing Ctrl+C.
pub open spec fn ctrl_c_press() -> KeyInput {
    KeyInput { key: Key::Char('c'), ctrl: true, press: true }
}

/// The key event of pressing Enter.
pub open spec fn enter_press() -> KeyInput {
    KeyInput { key: Key::Enter, ctrl: false, press: true }
}

/// The key event of pressing Space.
pub open spec fn space_press() -> KeyInput {
    KeyInput { key: Key::Char(' '), ctrl: false, press: true }
}

/// Whether each cursor points into its list, or is 0 when the list is
/// empty.
pub open spec fn cursors_in_range(v: AppView) -> bool {
    &&& if v.files.len() == 0 {
        v.cursor == 0
    } else {
        v.cursor < v.files.len()
    }
    &&& if v.search_results.len() == 0 {
        v.search_cursor == 0
    } else {
        v.search_cursor < v.search_results.len()
    }
}

/// Releasing a key changes nothing.
pub proof fn lemma_release_ignored(v: AppView, ev: KeyInput, now: u64)
    requires
        !ev.press,
    ensures
        key_step(v, ev, now) == (v, StepView::Act(ActionView::Continue)),
{
}

/// A first Ctrl+C shows a reminder, and a second one less than a second
/// later quits (when the first press did not already quit, following an
/// earlier one).
pub proof fn lemma_double_ctrl_c_quits(v: AppView, t1: u64, t2: u64)
    requires
        t1 <= t2,
        t2 - t1 < quit_window(),
    ensures
        key_step(v, ctrl_c_press(), t1).1 == StepView::Act(ActionView::Quit) || (key_step(
            v,
            ctrl_c_press(),
            t1,
        ).0.error_message == Some(ctrl_c_hint()) && key_step(
            key_step(v, ctrl_c_press(), t1).0,
            ctrl_c_press(),
            t2,
        ).1 == StepView::Act(ActionView::Quit)),
{
}

/// Any other key press clears the error message and forgets an earlier
/// Ctrl+C.
pub proof fn lemma_other_key_resets(v: AppView, ev: KeyInput, now: u64)
    requires
        ev.press,
        !(ev.key == Key::Char('c') && ev.ctrl),
    ensures
        key_step(v, ev, now).0.error_message is None,
        key_step(v, ev, now).0.last_ctrl_c is None,
{
}

/// Key events keep the cursors within their lists.
pub proof fn lemma_key_keeps_cursors(v: AppView, ev: KeyInput, now: u64)
    requires
        cursors_in_range(v),
    ensures
        cursors_in_range(key_step(v, ev, now).0),
{
    if ev.press && !(ev.key == Key::Char('c') && ev.ctrl) {
        let w = AppView { error_message: None, last_ctrl_c: None, ..v };
        match v.state {
            AppState::Browsing => {
                let r = browse_step(w, ev).0;
                assert(cursors_in_range(r));
            },
            AppState::Searching => {
                let r = search_step(w, ev).0;
                assert(cursors_in_range(r));
            },
            AppState::SubfolderCreation => {
                let r = create_step(w, ev).0;
                assert(cursors_in_range(r));
            },
            AppState::Naming => {
                let r = name_step(w, ev).0;
                assert(cursors_in_range(r));
            },
        }
    }
}

proof fn lemma_position_in(s: Seq<Seq<char>>, x: Seq<char>)
    ensures
        position(s, x) matches Some(i) ==> i < s.len(),
    decreases s.len(),
{
    if s.len() > 0 {
        lemma_position_in(s.drop_first(), x);
    }
}

/// Outcomes of outside work keep the cursors within their lists.
pub proof fn lemma_resume_keeps_cursors(v: AppView, outcome: Outcome)
    requires
        cursors_in_range(v),
    ensures
        cursors_in_range(resume_step(v, outcome).0),
{
    match (v.pending, outcome) {
        (PendingView::Rebuild { parent, folder }, Outcome::ArchiveWalked(entries)) => {
            let w = after_walk(v, parent, folder, entries@).0;
            lemma_position_in(w.search_results, parent + seq!['/'] + folder);
            assert(cursors_in_range(w));
        },
        _ => {},
    }
}

/// After a successful move the file is recorded at its new path, its
/// folder heads the recently used ones, its preview is stopped, and then
/// the event loop is told to commit the move whatever that outcome was.
pub proof fn lemma_move_recorded(
    v: AppView,
    src: Seq<char>,
    dest: Seq<char>,
    name: Seq<char>,
    folder: Seq<char>,
    next: Outcome,
)
    requires
        v.pending == (PendingView::Move { src, dest, name, folder }),
    ensures
        log_lookup(resume_step(v, Outcome::FileMoved(Ok(()))).0.moved, src) == Some(dest),
        effective(resume_step(v, Outcome::FileMoved(Ok(()))).0, src) == dest,
        resume_step(v, Outcome::FileMoved(Ok(()))).0.state == AppState::Browsing,
        resume_step(v, Outcome::FileMoved(Ok(()))).0.recent[0] == folder,
        resume_step(v, Outcome::FileMoved(Ok(()))).1 == StepView::Perform(
            EffectView::ClosePreview,
        ),
        resume_step(resume_step(v, Outcome::FileMoved(Ok(()))).0, next).1 == StepView::Act(
            ActionView::CommitMove { src, dest, name },
        ),
{
    let w = resume_step(v, Outcome::FileMoved(Ok(()))).0;
    assert(w.moved.drop_last() == v.moved);
    assert(w.moved.last() == (src, dest));
}

/// Space opens the preview of the highlighted file and, once it shows,
/// Space again closes it.
pub proof fn lemma_space_toggles_preview(v: AppView, id: u32, t1: u64, t2: u64)
    requires
        v.state == AppState::Browsing,
        v.cursor < v.files.len(),
        !previewing(v, effective(v, v.files[v.cursor as int].path@)),
    ensures
        key_step(v, space_press(), t1).1 == StepView::Perform(
            EffectView::OpenPreview(effective(v, v.files[v.cursor as int].path@)),
        ),
        resume_step(key_step(v, space_press(), t1).0, Outcome::PreviewStarted(Some(id))).1
            == StepView::Act(ActionView::Continue),
        key_step(
            resume_step(key_step(v, space_press(), t1).0, Outcome::PreviewStarted(Some(id))).0,
            space_press(),
            t2,
        ).1 == StepView::Perform(EffectView::ClosePreview),
        key_step(
            resume_step(key_step(v, space_press(), t1).0, Outcome::PreviewStarted(Some(id))).0,
            space_press(),
            t2,
        ).0.preview_path is None,
{
    let p = effective(v, v.files[v.cursor as int].path@);
    let v1 = key_step(v, space_press(), t1).0;
    let v2 = resume_step(v1, Outcome::PreviewStarted(Some(id))).0;
    assert(v2.preview_path == Some(p));
    assert(effective(v2, v2.files[v2.cursor as int].path@) == p);
    assert(previewing(v2, p));
}

/// With no query, a recently used folder that is in the index is listed
/// before every folder that was not used, and the most recent one first.
pub proof fn lemma_recent_folders_first(folders: Seq<Seq<char>>, recent: Seq<Seq<char>>)
    ensures
        recent.len() > 0 && folders.contains(recent[0]) ==> top(recent_first(folders, recent)).len()
            > 0 && top(recent_first(folders, recent))[0] == recent[0],
        forall|i: int, j: int|
            0 <= i < recent_first(folders, recent).len() && 0 <= j < recent_first(
                folders,
                recent,
            ).len() && recent.contains(#[trigger] recent_first(folders, recent)[j])
                && !recent.contains(#[trigger] recent_first(folders, recent)[i]) ==> j < i,
{
    lemma_recent_in(recent, folders);
    lemma_not_recent(folders, recent);
    let a = recent_in(recent, folders);
    let b = not_recent(folders, recent);
    let r = recent_first(folders, recent);
    assert forall|i: int, j: int|
        0 <= i < r.len() && 0 <= j < r.len() && recent.contains(#[trigger] r[j]) && !recent.contains(
            #[trigger] r[i],
        ) implies j < i by {
        if i < a.len() {
            assert(r[i] == a[i]);
        } else {
            assert(r[i] == b[i - a.len()]);
            if j >= a.len() {
                assert(r[j] == b[j - a.len()]);
            }
        }
    }
    if recent.len() > 0 && folders.contains(recent[0]) {
        assert(a.len() > 0 && a[0] == recent[0]);
        assert(r[0] == a[0]);
    }
}

proof fn lemma_recent_in(recent: Seq<Seq<char>>, folders: Seq<Seq<char>>)
    ensures
        forall|k: int|
            0 <= k < recent_in(recent, folders).len() ==> recent.contains(
                #[trigger] recent_in(recent, folders)[k],
            ),
        recent.len() > 0 && folders.contains(recent[0]) ==> recent_in(recent, folders).len() > 0
            && recent_in(recent, folders)[0] == recent[0],
    decreases recent.len(),
{
    if recent.len() > 0 {
        let init = recent.drop_last();
        lemma_recent_in(init, folders);
        let r = recent_in(recent, folders);
        let p = recent_in(init, folders);
        assert forall|k: int| 0 <= k < r.len() implies recent.contains(#[trigger] r[k]) by {
            if k < p.len() {
                assert(r[k] == p[k]);
                let w = choose|w: int| 0 <= w < init.len() && init[w] == p[k];
                assert(recent[w] == init[w]);
            } else {
                assert(r[k] == recent[recent.len() - 1]);
            }
        }
        if folders.contains(recent[0]) && init.len() > 0 {
            assert(init[0] == recent[0]);
            assert(r[0] == p[0]);
        }
    }
}

proof fn lemma_not_recent(folders: Seq<Seq<char>>, recent: Seq<Seq<char>>)
    ensures
        forall|k: int|
            0 <= k < not_recent(folders, recent).len() ==> !recent.contains(
                #[trigger] not_recent(folders, recent)[k],
            ),
    decreases folders.len(),
{
    if folders.len() > 0 {
        lemma_not_recent(folders.drop_last(), recent);
        let r = not_recent(folders, recent);
        let p = not_recent(folders.drop_last(), recent);
        assert forall|k: int| 0 <= k < r.len() implies !recent.contains(#[trigger] r[k]) by {
            if k < p.len() {
                assert(r[k] == p[k]);
            }
        }
    }
}

/// Enter on the naming form asks to move the highlighted file (from where
/// it is now) into the chosen folder, under the typed name with the file's
/// extension kept, or under its own name when no name is typed.
pub proof fn lemma_enter_files_under_typed_name(v: AppView, now: u64)
    requires
        v.state == AppState::Naming,
        v.cursor < v.files.len(),
        v.selected_dest is Some,
    ensures
        ({
            let file = v.files[v.cursor as int];
            let dir = joined(v.dest_root, v.selected_dest->0);
            let name = if trimmed(v.name_input).len() == 0 {
                file.filename@
            } else {
                trimmed(v.name_input) + dotted_extension(file.filename@)
            };
            key_step(v, enter_press(), now).1 == StepView::Perform(
                EffectView::MoveFile {
                    src: effective(v, file.path@),
                    dest_dir: dir,
                    dest: joined(dir, name),
                },
            )
        }),
{
}

/// Whether no entry of `s` occurs twice.
pub open spec fn no_repeats(s: Seq<Seq<char>>) -> bool {
    forall|i: int, j: int| 0 <= i < j < s.len() ==> s[i] != s[j]
}

proof fn lemma_occurrences_contains(s: Seq<Seq<char>>, x: Seq<char>)
    ensures
        occurrences(s, x) > 0 <==> s.contains(x),
    decreases s.len(),
{
    if s.len() > 0 {
        lemma_occurrences_contains(s.drop_last(), x);
        if s.drop_last().contains(x) {
            let k = choose|k: int| 0 <= k < s.drop_last().len() && s.drop_last()[k] == x;
            assert(s[k] == x);
        }
        if s.contains(x) && s.last() != x {
            let k = choose|k: int| 0 <= k < s.len() && s[k] == x;
            assert(s.drop_last()[k] == x);
        }
        if s.last() == x {
            assert(s[s.len() - 1] == x);
        }
    }
}

proof fn lemma_no_repeats_at_most_once(s: Seq<Seq<char>>, x: Seq<char>)
    requires
        no_repeats(s),
    ensures
        occurrences(s, x) <= 1,
    decreases s.len(),
{
    if s.len() > 0 {
        let init = s.drop_last();
        assert(no_repeats(init)) by {
            assert forall|i: int, j: int| 0 <= i < j < init.len() implies init[i] != init[j] by {
                assert(init[i] == s[i] && init[j] == s[j]);
            }
        }
        lemma_no_repeats_at_most_once(init, x);
        if s.last() == x {
            lemma_occurrences_contains(init, x);
            if init.contains(x) {
                let k = choose|k: int| 0 <= k < init.len() && init[k] == x;
                assert(s[k] == s[s.len() - 1]);
            }
        }
    }
}

proof fn lemma_take_occurrences(s: Seq<Seq<char>>, n: int, x: Seq<char>)
    requires
        0 <= n <= s.len(),
    ensures
        occurrences(s.take(n), x) <= occurrences(s, x),
{
    assert(s =~= s.take(n) + s.skip(n));
    lemma_occurrences_append(s.take(n), s.skip(n), x);
}

proof fn lemma_recent_in_occurrences(recent: Seq<Seq<char>>, folders: Seq<Seq<char>>, x: Seq<char>)
    ensures
        occurrences(recent_in(recent, folders), x) == if folders.contains(x) {
            occurrences(recent, x)
        } else {
            0
        },
    decreases recent.len(),
{
    if recent.len() > 0 {
        lemma_recent_in_occurrences(recent.drop_last(), folders, x);
        let p = recent_in(recent.drop_last(), folders);
        if folders.contains(recent.last()) {
            assert(p.push(recent.last()).drop_last() =~= p);
        }
    }
}

proof fn lemma_not_recent_occurrences(folders: Seq<Seq<char>>, recent: Seq<Seq<char>>, x: Seq<char>)
    ensures
        occurrences(not_recent(folders, recent), x) == if recent.contains(x) {
            0
        } else {
            occurrences(folders, x)
        },
    decreases folders.len(),
{
    if folders.len() > 0 {
        lemma_not_recent_occurrences(folders.drop_last(), recent, x);
        let p = not_recent(folders.drop_last(), recent);
        if !recent.contains(folders.last()) {
            assert(p.push(folders.last()).drop_last() =~= p);
        }
    }
}

/// With no query and no repeats among the recently used folders, the
/// search lists no folder more often than the index holds it.
pub proof fn lemma_empty_search_lists_folders_once(v: AppView, x: Seq<char>)
    requires
        v.search_query.len() == 0,
        no_repeats(v.recent),
    ensures
        occurrences(results_for(v), x) <= occurrences(v.folders, x),
{
    let a = recent_in(v.recent, v.folders);
    let b = not_recent(v.folders, v.recent);
    lemma_occurrences_append(a, b, x);
    lemma_recent_in_occurrences(v.recent, v.folders, x);
    lemma_not_recent_occurrences(v.folders, v.recent, x);
    lemma_no_repeats_at_most_once(v.recent, x);
    lemma_occurrences_contains(v.folders, x);
    lemma_occurrences_contains(v.recent, x);
    let r = a + b;
    if r.len() > crate::dest::MAX_RESULTS {
        lemma_take_occurrences(r, crate::dest::MAX_RESULTS as int, x);
    }
}

proof fn lemma_without_occurrences(s: Seq<Seq<char>>, f: Seq<char>, x: Seq<char>)
    ensures
        occurrences(without(s, f), x) == if x == f {
            0
        } else {
            occurrences(s, x)
        },
    decreases s.len(),
{
    if s.len() > 0 {
        lemma_without_occurrences(s.drop_last(), f, x);
        let p = without(s.drop_last(), f);
        if s.last() != f {
            assert(p.push(s.last()).drop_last() =~= p);
        }
    }
}

proof fn lemma_at_most_once_no_repeats(s: Seq<Seq<char>>)
    requires
        forall|x: Seq<char>| occurrences(s, x) <= 1,
    ensures
        no_repeats(s),
{
    assert forall|i: int, j: int| 0 <= i < j < s.len() implies s[i] != s[j] by {
        if s[i] == s[j] {
            let x = s[i];
            assert(s =~= s.take(i + 1) + s.skip(i + 1));
            lemma_occurrences_append(s.take(i + 1), s.skip(i + 1), x);
            lemma_occurrences_contains(s.take(i + 1), x);
            lemma_occurrences_contains(s.skip(i + 1), x);
            assert(s.take(i + 1)[i] == x);
            assert(s.skip(i + 1)[j - i - 1] == x);
            assert(occurrences(s, x) == occurrences(s, s[i]));
        }
    }
}

/// A successful move puts its folder at the head of the recently used
/// folders, once, keeps the others and adds no repeats; an empty search
/// after it lists no folder more often than the index holds it.
pub proof fn lemma_move_keeps_recent_distinct(
    v: AppView,
    src: Seq<char>,
    dest: Seq<char>,
    name: Seq<char>,
    folder: Seq<char>,
    x: Seq<char>,
)
    requires
        v.pending == (PendingView::Move { src, dest, name, folder }),
        no_repeats(v.recent),
    ensures
        resume_step(v, Outcome::FileMoved(Ok(()))).0.recent[0] == folder,
        occurrences(resume_step(v, Outcome::FileMoved(Ok(()))).0.recent, folder) == 1,
        x != folder ==> occurrences(resume_step(v, Outcome::FileMoved(Ok(()))).0.recent, x)
            == occurrences(v.recent, x),
        no_repeats(resume_step(v, Outcome::FileMoved(Ok(()))).0.recent),
        occurrences(
            results_for(
                AppView { search_query: seq![], ..resume_step(v, Outcome::FileMoved(Ok(()))).0 },
            ),
            x,
        ) <= occurrences(v.folders, x),
{
    let w = resume_step(v, Outcome::FileMoved(Ok(()))).0;
    let r = w.recent;
    let rest = without(v.recent, folder);
    assert(r == seq![folder] + rest);
    assert forall|y: Seq<char>| occurrences(r, y) <= 1 && (y != folder ==> occurrences(r, y)
        == occurrences(v.recent, y)) && (y == folder ==> occurrences(r, y) == 1) by {
        lemma_occurrences_append(seq![folder], rest, y);
        assert(seq![folder].drop_last() =~= Seq::<Seq<char>>::empty());
        assert(occurrences(Seq::<Seq<char>>::empty(), y) == 0);
        assert(occurrences(seq![folder], y) == if seq![folder].last() == y { 1nat } else { 0nat });
        lemma_without_occurrences(v.recent, folder, y);
        lemma_no_repeats_at_most_once(v.recent, y);
    }
    lemma_at_most_once_no_repeats(r);
    lemma_empty_search_lists_folders_once(AppView { search_query: seq![], ..w }, x);
}

/// In Browsing, Up moves the cursor to the file above and Down to the file
/// below; at either end of the list the cursor stays.
pub proof fn lemma_browse_up_down(v: AppView, now: u64)
    requires
        v.state == AppState::Browsing,
    ensures
        v.cursor > 0 ==> key_step(v, KeyInput { key: Key::Up, ctrl: false, press: true }, now).0.cursor
            == v.cursor - 1,
        v.cursor == 0 ==> key_step(v, KeyInput { key: Key::Up, ctrl: false, press: true }, now).0.cursor
            == 0,
        v.cursor + 1 < v.files.len() ==> key_step(
            v,
            KeyInput { key: Key::Down, ctrl: false, press: true },
            now,
        ).0.cursor == v.cursor + 1,
        v.cursor + 1 >= v.files.len() ==> key_step(
            v,
            KeyInput { key: Key::Down, ctrl: false, press: true },
            now,
        ).0.cursor == v.cursor,
{
}

/// In Searching with results, Tab starts naming a new subfolder of the
/// highlighted result with an empty name field; the results and the
/// highlighted one are kept.
pub proof fn lemma_tab_starts_empty_folder_name(v: AppView, now: u64)
    requires
        v.state == AppState::Searching,
        v.search_results.len() > 0,
    ensures
        key_step(v, KeyInput { key: Key::Tab, ctrl: false, press: true }, now).0.state
            == AppState::SubfolderCreation,
        key_step(v, KeyInput { key: Key::Tab, ctrl: false, press: true }, now).0.search_query
            == Seq::<char>::empty(),
        key_step(v, KeyInput { key: Key::Tab, ctrl: false, press: true }, now).0.search_results
            == v.search_results,
        key_step(v, KeyInput { key: Key::Tab, ctrl: false, press: true }, now).0.search_cursor
            == v.search_cursor,
{
}

/// Typing `c` in the new-folder field and then Enter asks to create the
/// folder named `c` inside the highlighted result, right after Tab.
pub proof fn lemma_tab_then_name_creates_inside_highlighted(v: AppView, c: char, t1: u64, t2: u64, t3: u64)
    requires
        v.state == AppState::Searching,
        v.search_cursor < v.search_results.len(),
        !is_space(c),
    ensures
        ({
            let v1 = key_step(v, KeyInput { key: Key::Tab, ctrl: false, press: true }, t1).0;
            let v2 = key_step(v1, KeyInput { key: Key::Char(c), ctrl: false, press: true }, t2).0;
            key_step(v2, enter_press(), t3).1 == StepView::Perform(
                EffectView::CreateDir(
                    joined(joined(v.dest_root, v.search_results[v.search_cursor as int]), seq![c]),
                ),
            )
        }),
{
    let v1 = key_step(v, KeyInput { key: Key::Tab, ctrl: false, press: true }, t1).0;
    let v2 = key_step(v1, KeyInput { key: Key::Char(c), ctrl: false, press: true }, t2).0;
    assert(v2.search_query =~= seq![c]);
    assert(leading_space(seq![c]) == 0);
    assert(seq![c].skip(0) =~= seq![c]);
    assert(trailing_space(seq![c]) == 0);
    assert(seq![c].take(1) =~= seq![c]);
    assert(trimmed(seq![c]) =~= seq![c]);
}

/// In Searching, Ctrl+Space opens the preview of the highlighted file
/// (closes it when that file is shown) and leaves the query as it was.
pub proof fn lemma_ctrl_space_previews_while_searching(v: AppView, now: u64)
    requires
        v.state == AppState::Searching,
        v.cursor < v.files.len(),
    ensures
        !previewing(v, effective(v, v.files[v.cursor as int].path@)) ==> key_step(
            v,
            KeyInput { key: Key::Char(' '), ctrl: true, press: true },
            now,
        ).1 == StepView::Perform(
            EffectView::OpenPreview(effective(v, v.files[v.cursor as int].path@)),
        ),
        previewing(v, effective(v, v.files[v.cursor as int].path@)) ==> key_step(
            v,
            KeyInput { key: Key::Char(' '), ctrl: true, press: true },
            now,
        ).1 == StepView::Perform(EffectView::ClosePreview),
        key_step(v, KeyInput { key: Key::Char(' '), ctrl: true, press: true }, now).0.search_query
            == v.search_query,
        key_step(v, KeyInput { key: Key::Char(' '), ctrl: true, press: true }, now).0.search_results
            == v.search_results,
{
    let w = AppView { error_message: None, last_ctrl_c: None, ..v };
    assert(effective(w, w.files[w.cursor as int].path@) == effective(v, v.files[v.cursor as int].path@));
}

/// On the naming form, Backspace removes the last typed character (none
/// when the field is empty), Ctrl+U clears the field, and typing a
/// character adds it at the end.
pub proof fn lemma_naming_edits(v: AppView, c: char, now: u64)
    requires
        v.state == AppState::Naming,
    ensures
        v.name_input.len() > 0 ==> key_step(
            v,
            KeyInput { key: Key::Backspace, ctrl: false, press: true },
            now,
        ).0.name_input + seq![v.name_input.last()] == v.name_input,
        v.name_input.len() > 0 ==> key_step(
            v,
            KeyInput { key: Key::Backspace, ctrl: false, press: true },
            now,
        ).0.name_input.len() == v.name_input.len() - 1,
        v.name_input.len() == 0 ==> key_step(
            v,
            KeyInput { key: Key::Backspace, ctrl: false, press: true },
            now,
        ).0.name_input.len() == 0,
        key_step(v, KeyInput { key: Key::Char('u'), ctrl: true, press: true }, now).0.name_input.len()
            == 0,
        !(c == 'u' || c == ' ' || c == 'c') ==> key_step(
            v,
            KeyInput { key: Key::Char(c), ctrl: true, press: true },
            now,
        ).0.name_input == v.name_input + seq![c],
        key_step(v, KeyInput { key: Key::Char(c), ctrl: false, press: true }, now).0.name_input
            == v.name_input + seq![c],
{
    if v.name_input.len() > 0 {
        assert(v.name_input.drop_last() + seq![v.name_input.last()] =~= v.name_input);
    }
    assert(v.name_input.push(c) =~= v.name_input + seq![c]);
}

/// Pressing `key` (without Ctrl).
pub open spec fn press_of(key: Key) -> KeyInput {
    KeyInput { key, ctrl: false, press: true }
}

/// While searching, a typed character goes at the end of the query and
/// Backspace removes the last one; Up and Down move the highlighted result
/// by one within the results. In the new-folder field, typing and
/// Backspace edit the name the same way.
pub proof fn lemma_query_edits(v: AppView, c: char, now: u64)
    requires
        v.state == AppState::Searching || v.state == AppState::SubfolderCreation,
    ensures
        key_step(v, press_of(Key::Char(c)), now).0.search_query == v.search_query + seq![c],
        v.search_query.len() > 0 ==> key_step(v, press_of(Key::Backspace), now).0.search_query
            + seq![v.search_query.last()] == v.search_query,
        v.search_query.len() > 0 ==> key_step(
            v,
            press_of(Key::Backspace),
            now,
        ).0.search_query.len() == v.search_query.len() - 1,
        v.search_query.len() == 0 ==> key_step(
            v,
            press_of(Key::Backspace),
            now,
        ).0.search_query.len() == 0,
        v.state == AppState::Searching && v.search_cursor > 0 ==> key_step(
            v,
            press_of(Key::Up),
            now,
        ).0.search_cursor == v.search_cursor - 1,
        v.state == AppState::Searching && v.search_cursor + 1 < v.search_results.len() ==> key_step(
            v,
            press_of(Key::Down),
            now,
        ).0.search_cursor == v.search_cursor + 1,
{
    assert(v.search_query.push(c) =~= v.search_query + seq![c]);
    if v.search_query.len() > 0 {
        assert(v.search_query.drop_last() + seq![v.search_query.last()] =~= v.search_query);
    }
    if v.state == AppState::Searching {
        let w = AppView { error_message: None, last_ctrl_c: None, ..v };
        let q1 = AppView { search_query: w.search_query.push(c), ..w };
        assert(q1.search_query == v.search_query.push(c));
        let q2 = AppView { search_query: crate::app::backspaced(w.search_query), ..w };
        assert(crate::app::refreshed(q2).search_query == q2.search_query);
        assert(crate::app::refreshed(q1).search_query == q1.search_query);
    }
}

/// How the screens lead into each other: Enter on a file starts a search
/// with an empty query at the first result; Enter on a result opens the
/// naming form for it with an empty name; Esc while naming goes back to
/// searching with an empty query and name; Esc while searching goes back
/// to the file list.
pub proof fn lemma_screen_changes(v: AppView, now: u64)
    ensures
        v.state == AppState::Browsing && v.files.len() > 0 ==> key_step(
            v,
            enter_press(),
            now,
        ).0.state == AppState::Searching && key_step(v, enter_press(), now).0.search_query.len()
            == 0 && key_step(v, enter_press(), now).0.search_cursor == 0,
        v.state == AppState::Searching && v.search_cursor < v.search_results.len() ==> key_step(
            v,
            enter_press(),
            now,
        ).0.state == AppState::Naming && key_step(v, enter_press(), now).0.selected_dest == Some(
            v.search_results[v.search_cursor as int],
        ) && key_step(v, enter_press(), now).0.name_input.len() == 0,
        v.state == AppState::Naming ==> key_step(v, press_of(Key::Esc), now).0.state
            == AppState::Searching && key_step(v, press_of(Key::Esc), now).0.name_input.len() == 0
            && key_step(v, press_of(Key::Esc), now).0.search_query.len() == 0,
        v.state == AppState::Searching ==> key_step(v, press_of(Key::Esc), now).0.state
            == AppState::Browsing && key_step(v, press_of(Key::Esc), now).0.search_query.len()
            == 0,
{
    let w = AppView { error_message: None, last_ctrl_c: None, ..v };
    let a = AppView { state: AppState::Searching, search_query: seq![], search_cursor: 0, ..w };
    let b = AppView {
        state: AppState::Searching,
        name_input: seq![],
        search_query: seq![],
        ..w
    };
    assert(crate::app::refreshed(a).state == a.state && crate::app::refreshed(a).search_query
        == a.search_query);
    assert(crate::app::refreshed(b).state == b.state && crate::app::refreshed(b).search_query
        == b.search_query && crate::app::refreshed(b).name_input == b.name_input);
    if v.state == AppState::Browsing && v.files.len() > 0 {
        let r = crate::app::refreshed(a);
        assert(r.search_cursor == 0);
    }
}

} // verus!
