//! Files found in the inboxes, and the order they are listed in.
use vstd::prelude::*;
use crate::paths::components;
use crate::paths::joined;
use crate::paths::parent_components;
use crate::paths::path_components;
use crate::paths::render;
use crate::paths::render_range;
use crate::paths::root_component;
use crate::paths::same_components;
use crate::paths::starts_with_components;
use crate::paths::strip_prefix;
use crate::paths::views;
use crate::paths::join_path;
use crate::paths::lemma_components_nonempty;
use crate::paths::lemma_render_nonempty;
use crate::paths::cur_dir_component;
use crate::paths::counts;
use crate::paths::is_absolute;
use crate::paths::lemma_components_joined;
use crate::paths::lemma_components_render;
use crate::paths::lemma_components_well_formed;
use crate::paths::lemma_nonempty_path_has_components;
use crate::paths::slash_free;
use crate::paths::starts_at_cur_dir;
use crate::config::inbox_label;
use crate::config::label_of;
use crate::config::InboxConfig;
use crate::text::chars_of;
use crate::text::string_of;

verus! {

/// A point in time, in nanoseconds since the Unix epoch (negative before it).
pub type Timestamp = i128;

/// A file found in an inbox directory.
#[derive(Debug, Clone)]
pub struct InboxFile {
    /// Label of the inbox the file belongs to.
    pub label: String,
    /// Full path of the file.
    pub path: String,
    /// File name only, without a directory.
    pub filename: String,
    /// Last-modified time of the file itself.
    pub modified: Timestamp,
    /// Path from the inbox root to the file's parent directory, ending in
    /// `/`, e.g. `"ProjectA/Client Work/"`; `None` for files directly in the
    /// inbox root.
    pub subfolder: Option<String>,
    /// Key of the group the file is listed in: its own `modified` for a
    /// top-level file, the time of the top-level folder it lies in
    /// otherwise, so that a folder's files share one key.
    pub group_sort_key: Timestamp,
}

/// Whether a directory entry is hidden (its name starts with `.`); hidden
/// files and folders are not scanned.
pub open spec fn hidden(name: Seq<char>) -> bool {
    name.len() > 0 && name[0] == '.'
}

/// Whether a directory entry named `name` is hidden.
pub fn is_hidden_name(name: &str) -> (r: bool)
    ensures
        r == hidden(name@),
{
    let v = chars_of(name);
    v.len() > 0 && v[0] == '.'
}

/// The subfolder of `file` relative to `root`: `None` for a file directly
/// in `root` (or not below it); otherwise the relative path of the file's
/// parent with a trailing `/`.
pub open spec fn subfolder_of(root: Seq<char>, file: Seq<char>) -> Option<Seq<char>> {
    match parent_components(file) {
        None => None,
        Some(pc) => {
            let rc = components(root);
            if pc == rc {
                None
            } else if rc.len() <= pc.len() && pc.take(rc.len() as int) == rc {
                let rel = render(pc.skip(rc.len() as int));
                if rel.len() == 0 {
                    None
                } else {
                    Some(rel.push('/'))
                }
            } else {
                None
            }
        },
    }
}

/// For a file below the inbox root, there is no subfolder exactly when
/// the file's parent is the root itself; otherwise the subfolder is the
/// parent's components below the root, written out, with a trailing `/`.
pub proof fn lemma_subfolder_of_parent(root: Seq<char>, file: Seq<char>)
    requires
        parent_components(file) matches Some(pc) && components(root).len() <= pc.len()
            && pc.take(components(root).len() as int) == components(root),
    ensures
        subfolder_of(root, file) is None <==> parent_components(file) == Some(components(root)),
        subfolder_of(root, file) matches Some(s) ==> parent_components(file) == Some(
            components(root) + parent_components(file)->0.skip(components(root).len() as int),
        ) && s == render(
            parent_components(file)->0.skip(components(root).len() as int),
        ).push('/'),
{
    let pc = parent_components(file)->0;
    let rc = components(root);
    assert(pc =~= rc + pc.skip(rc.len() as int));
    if pc != rc {
        let rest = pc.skip(rc.len() as int);
        assert(rest.len() > 0) by {
            if rest.len() == 0 {
                assert(pc =~= rc);
            }
        }
        lemma_components_nonempty(file);
        let cs = components(file);
        assert forall|i: int| 0 <= i < rest.len() implies (#[trigger] rest[i]).len() > 0 by {
            assert(rest[i] == cs[i + rc.len()]);
        }
        lemma_render_nonempty(rest);
    }
}

/// The subfolder names the file's parent: the inbox root joined with the
/// subfolder (without its trailing `/`) is the file's parent, as a path.
pub proof fn lemma_subfolder_joins_back(root: Seq<char>, file: Seq<char>)
    requires
        subfolder_of(root, file) is Some,
    ensures
        parent_components(file) == Some(
            components(joined(root, subfolder_of(root, file)->0.drop_last())),
        ),
{
    let pc = parent_components(file)->0;
    let rc = components(root);
    let n = rc.len() as int;
    let rest = pc.skip(n);
    let b = render(rest);
    assert(subfolder_of(root, file)->0 == b.push('/'));
    assert(b.push('/').drop_last() =~= b);
    assert(pc =~= rc + rest);
    lemma_components_well_formed(file);
    let cs = components(file);
    assert(pc =~= cs.drop_last());
    if n == 0 {
        if root.len() > 0 {
            lemma_nonempty_path_has_components(root);
        }
        assert(rest =~= pc);
        assert forall|i: int| 0 <= i < rest.len() implies (counts(#[trigger] rest[i])
            && slash_free(rest[i])) || (i == 0 && (rest[i] == root_component() || rest[i]
            == cur_dir_component())) by {
            assert(rest[i] == cs[i]);
        }
        lemma_components_render(rest);
        assert(joined(root, b) == b);
    } else {
        assert forall|i: int| 0 <= i < rest.len() implies counts(#[trigger] rest[i])
            && slash_free(rest[i]) by {
            assert(rest[i] == cs[i + n]);
        }
        lemma_components_render(rest);
        if rest.len() > 0 {
            assert(slash_free(rest[0]));
            assert(rest[0] != root_component()) by {
                if rest[0] == root_component() {
                    assert(rest[0][0] == '/');
                }
            }
            assert(rest[0] != cur_dir_component()) by {
                assert(counts(rest[0]));
            }
        }
        if is_absolute(b) {
            assert(components(b)[0] == root_component());
        }
        if starts_at_cur_dir(b) {
            assert(components(b)[0] == cur_dir_component());
        }
        lemma_components_joined(root, b);
    }
}

/// A file whose parent is the inbox root has no subfolder; nor has a file
/// whose path does not begin with the root's components. A subfolder ends
/// with `/`, and the root joined with it (without that `/`) is the file's
/// parent.
pub proof fn lemma_subfolder_law(root: Seq<char>, file: Seq<char>)
    ensures
        parent_components(file) == Some(components(root)) ==> subfolder_of(root, file) is None,
        strip_prefix(file, root) is None ==> subfolder_of(root, file) is None,
        subfolder_of(root, file) matches Some(s) ==> s.len() > 0 && s.last() == '/'
            && parent_components(file) == Some(components(joined(root, s.drop_last()))),
{
    if subfolder_of(root, file) is Some {
        let s = subfolder_of(root, file)->0;
        let pc = parent_components(file)->0;
        let rc = components(root);
        let cs = components(file);
        let n = rc.len() as int;
        assert(pc == cs.drop_last());
        assert(cs.take(n) =~= pc.take(n));
        assert(strip_prefix(file, root) is Some);
        assert(s == render(pc.skip(n)).push('/'));
        lemma_subfolder_joins_back(root, file);
    }
}

/// Computes the subfolder path relative to `inbox_root` for `file_path`.
///
/// Returns `None` for files directly inside `inbox_root`. For files in
/// subdirectories, returns the relative path with a trailing `/`, e.g.
/// `"ProjectA/Client Work/"`.
pub fn compute_subfolder(inbox_root: &str, file_path: &str) -> (r: Option<String>)
    ensures
        r matches Some(s) ==> subfolder_of(inbox_root@, file_path@) == Some(s@),
        r is None ==> subfolder_of(inbox_root@, file_path@) is None,
{
    let mut pc = path_components(file_path);
    if pc.len() == 0 {
        return None;
    }
    let last_is_root = pc[pc.len() - 1].len() == 1 && pc[pc.len() - 1][0] == '/';
    proof {
        let l = views(pc@).last();
        assert(l == pc@[pc@.len() - 1]@);
        if last_is_root {
            assert(l =~= root_component());
        } else if l == root_component() {
            assert(l.len() == 1 && l[0] == '/');
        }
    }
    if last_is_root {
        return None;
    }
    let ghost full = pc@;
    pc.pop();
    assert(views(pc@) =~= views(full).drop_last());
    let rc = path_components(inbox_root);
    if same_components(&pc, &rc) {
        return None;
    }
    if !starts_with_components(&pc, &rc) {
        return None;
    }
    let mut rel = render_range(&pc, rc.len(), pc.len());
    assert(views(pc@).subrange(rc.len() as int, pc.len() as int) =~= views(pc@).skip(rc.len() as int));
    if rel.len() == 0 {
        return None;
    }
    rel.push('/');
    Some(string_of(rel.as_slice()))
}

/// The child of `root` that holds `file`: `file` itself when it is not
/// below `root` or is `root`; otherwise `root` joined with the first
/// component of `file` below it.
pub open spec fn top_level_of(root: Seq<char>, file: Seq<char>) -> Seq<char> {
    match strip_prefix(file, root) {
        None => file,
        Some(rest) => if rest.len() == 0 {
            file
        } else {
            joined(root, render(seq![rest[0]]))
        },
    }
}

/// Returns the path of the immediate child of `inbox_root` that contains
/// `file_path`: the file itself for a top-level file, the first path
/// component below `inbox_root` for a nested one.
pub fn top_level_dir(inbox_root: &str, file_path: &str) -> (r: String)
    ensures
        r@ == top_level_of(inbox_root@, file_path@),
{
    let fc = path_components(file_path);
    let rc = path_components(inbox_root);
    if !starts_with_components(&fc, &rc) || fc.len() == rc.len() {
        return string_of(chars_of(file_path).as_slice());
    }
    let first = render_range(&fc, rc.len(), rc.len() + 1);
    assert(views(fc@).subrange(rc.len() as int, rc.len() + 1) =~= seq![views(fc@).skip(rc.len() as int)[0]]);
    let first_s = string_of(first.as_slice());
    join_path(inbox_root, first_s.as_str())
}

/// The folder whose time gives the group key of a file: the top-level
/// folder holding it when the file lies in a subfolder, none otherwise.
pub open spec fn group_folder_of(root: Seq<char>, file: Seq<char>) -> Option<Seq<char>> {
    if subfolder_of(root, file) is Some {
        Some(top_level_of(root, file))
    } else {
        None
    }
}

/// The folder whose modification time is the group key of the file at
/// `file_path`, or `None` when the file's own time is its key.
pub fn group_folder(inbox_root: &str, file_path: &str) -> (r: Option<String>)
    ensures
        r matches Some(s) ==> group_folder_of(inbox_root@, file_path@) == Some(s@),
        r is None ==> group_folder_of(inbox_root@, file_path@) is None,
{
    match compute_subfolder(inbox_root, file_path) {
        Some(_) => Some(top_level_dir(inbox_root, file_path)),
        None => None,
    }
}

/// Builds the entry for a file found in an inbox.
///
/// `folder_time` is the time of the folder that `group_folder` names, or
/// `None` when it could not be read; the group key then falls back to the
/// Unix epoch.
pub fn inbox_file(
    label: &str,
    inbox_root: &str,
    path: &str,
    filename: &str,
    modified: Timestamp,
    folder_time: Option<Timestamp>,
) -> (f: InboxFile)
    ensures
        f.label@ == label@,
        f.path@ == path@,
        f.filename@ == filename@,
        f.modified == modified,
        f.subfolder is None <==> subfolder_of(inbox_root@, path@) is None,
        f.subfolder matches Some(s) ==> subfolder_of(inbox_root@, path@) == Some(s@),
        f.group_sort_key == if subfolder_of(inbox_root@, path@) is None {
            modified
        } else {
            match folder_time {
                Some(t) => t,
                None => 0,
            }
        },
{
    let subfolder = compute_subfolder(inbox_root, path);
    let group_sort_key = match &subfolder {
        None => modified,
        Some(_) => match folder_time {
            Some(t) => t,
            None => 0,
        },
    };
    InboxFile {
        label: string_of(chars_of(label).as_slice()),
        path: string_of(chars_of(path).as_slice()),
        filename: string_of(chars_of(filename).as_slice()),
        modified,
        subfolder,
        group_sort_key,
    }
}

/// A file found by walking an inbox: its path and name, its own time, and
/// the time of the folder that `group_folder` names for it (`None` when
/// there is no such folder or its time could not be read).
#[derive(Debug, Clone)]
pub struct FoundFile {
    pub path: String,
    pub filename: String,
    pub modified: Timestamp,
    pub folder_time: Option<Timestamp>,
}

/// What a walk of an inbox met at one entry.
#[derive(Debug, Clone)]
pub enum Walked {
    /// The walk failed at the entry; it is skipped.
    Failed,
    /// The entry's metadata could not be read; the scan fails with this
    /// message.
    Unreadable(String),
    /// A directory or other entry that is not a regular file; it is skipped.
    NotFile,
    /// A regular file whose modification time could not be read; the scan
    /// fails with this message.
    NoTime(String),
    /// A regular file.
    File(FoundFile),
}

/// The files among the entries a walk met, in order; the first entry whose
/// metadata or time could not be read makes the scan fail with its message.
pub open spec fn found_in(entries: Seq<Walked>) -> Result<Seq<FoundFile>, Seq<char>>
    decreases entries.len(),
{
    if entries.len() == 0 {
        Ok(seq![])
    } else {
        match found_in(entries.drop_last()) {
            Err(e) => Err(e),
            Ok(files) => match entries.last() {
                Walked::Failed => Ok(files),
                Walked::NotFile => Ok(files),
                Walked::Unreadable(m) => Err(m@),
                Walked::NoTime(m) => Err(m@),
                Walked::File(f) => Ok(files.push(f)),
            },
        }
    }
}

proof fn lemma_found_in_fail_stays(entries: Seq<Walked>, i: int)
    requires
        0 <= i <= entries.len(),
        found_in(entries.take(i)) is Err,
    ensures
        found_in(entries) == found_in(entries.take(i)),
    decreases entries.len() - i,
{
    if i < entries.len() {
        assert(entries.take(i + 1).drop_last() =~= entries.take(i));
        lemma_found_in_fail_stays(entries, i + 1);
    } else {
        assert(entries.take(i) =~= entries);
    }
}

/// Keeps the regular files among the entries a walk of an inbox met, in
/// order, skipping failed entries and entries that are not files; the
/// first entry whose metadata or modification time could not be read
/// makes the whole scan fail with its message.
pub fn found_files(entries: Vec<Walked>) -> (r: Result<Vec<FoundFile>, String>)
    ensures
        r matches Ok(v) ==> found_in(entries@) == Ok::<Seq<FoundFile>, Seq<char>>(v@),
        r matches Err(e) ==> found_in(entries@) == Err::<Seq<FoundFile>, Seq<char>>(e@),
{
    let mut files: Vec<FoundFile> = Vec::new();
    let mut i: usize = 0;
    assert(entries@.take(0) =~= seq![]);
    while i < entries.len()
        invariant
            i <= entries.len(),
            found_in(entries@.take(i as int)) == Ok::<Seq<FoundFile>, Seq<char>>(files@),
        decreases entries.len() - i,
    {
        assert(entries@.take(i + 1).drop_last() =~= entries@.take(i as int));
        assert(entries@.take(i + 1).last() == entries@[i as int]);
        match &entries[i] {
            Walked::Failed => {},
            Walked::NotFile => {},
            Walked::Unreadable(m) => {
                proof {
                    lemma_found_in_fail_stays(entries@, i + 1);
                }
                return Err(m.clone());
            },
            Walked::NoTime(m) => {
                proof {
                    lemma_found_in_fail_stays(entries@, i + 1);
                }
                return Err(m.clone());
            },
            Walked::File(f) => {
                let copy = FoundFile {
                    path: f.path.clone(),
                    filename: f.filename.clone(),
                    modified: f.modified,
                    folder_time: f.folder_time,
                };
                assert(copy == *f);
                files.push(copy);
            },
        }
        i += 1;
    }
    assert(entries@.take(entries.len() as int) =~= entries@);
    Ok(files)
}

/// Whether `f` is the entry for the file at `path` found in the inbox at
/// `root` with the given label, name and times (as `inbox_file` builds it).
pub open spec fn entry_for(
    f: InboxFile,
    label: Seq<char>,
    root: Seq<char>,
    path: Seq<char>,
    filename: Seq<char>,
    modified: Timestamp,
    folder_time: Option<Timestamp>,
) -> bool {
    &&& f.label@ == label
    &&& f.path@ == path
    &&& f.filename@ == filename
    &&& f.modified == modified
    &&& (f.subfolder is None <==> subfolder_of(root, path) is None)
    &&& (f.subfolder matches Some(s) ==> subfolder_of(root, path) == Some(s@))
    &&& f.group_sort_key == if subfolder_of(root, path) is None {
        modified
    } else {
        match folder_time {
            Some(t) => t,
            None => 0,
        }
    }
}

/// Builds the entries of the files found in `inbox`, in the order they
/// were found: each carries the inbox's label, and a file without a
/// subfolder is keyed on its own time.
pub fn inbox_files(inbox: &InboxConfig, found: Vec<FoundFile>) -> (r: Vec<InboxFile>)
    ensures
        r.len() == found.len(),
        forall|i: int|
            0 <= i < r.len() ==> entry_for(
                #[trigger] r[i],
                label_of(inbox.label, inbox.path@),
                inbox.path@,
                found[i].path@,
                found[i].filename@,
                found[i].modified,
                found[i].folder_time,
            ),
{
    let label = inbox_label(inbox);
    let mut out: Vec<InboxFile> = Vec::new();
    let mut i: usize = 0;
    while i < found.len()
        invariant
            i <= found.len(),
            out.len() == i,
            label@ == label_of(inbox.label, inbox.path@),
            forall|k: int|
                0 <= k < i ==> entry_for(
                    #[trigger] out[k],
                    label@,
                    inbox.path@,
                    found[k].path@,
                    found[k].filename@,
                    found[k].modified,
                    found[k].folder_time,
                ),
        decreases found.len() - i,
    {
        let f = &found[i];
        let e = inbox_file(
            label.as_str(),
            inbox.path.as_str(),
            f.path.as_str(),
            f.filename.as_str(),
            f.modified,
            f.folder_time,
        );
        out.push(e);
        i += 1;
    }
    out
}

// ---------------------------------------------------------------------
// Ordering
// ---------------------------------------------------------------------

/// Whether `a` is listed strictly before `b`: its group is newer, or the
/// groups are equal and `a` itself is newer.
pub open spec fn newer(a: InboxFile, b: InboxFile) -> bool {
    a.group_sort_key > b.group_sort_key || (a.group_sort_key == b.group_sort_key
        && a.modified > b.modified)
}

/// Where `x` goes in the ordered list `s` when it came before all of `s`'s
/// files in the input: ahead of the first file that is not newer than it.
pub open spec fn slot(s: Seq<InboxFile>, x: InboxFile) -> nat
    decreases s.len(),
{
    if s.len() == 0 {
        0
    } else if newer(s[0], x) {
        1 + slot(s.drop_first(), x)
    } else {
        0
    }
}

/// `s` ordered newest group first and, within a group, newest file first;
/// files that tie keep their input order.
pub open spec fn by_recency(s: Seq<InboxFile>) -> Seq<InboxFile>
    decreases s.len(),
{
    if s.len() == 0 {
        seq![]
    } else {
        let rest = by_recency(s.drop_first());
        rest.insert(slot(rest, s[0]) as int, s[0])
    }
}

fn is_newer(a: &InboxFile, b: &InboxFile) -> (r: bool)
    ensures
        r == newer(*a, *b),
{
    a.group_sort_key > b.group_sort_key || (a.group_sort_key == b.group_sort_key && a.modified
        > b.modified)
}

proof fn lemma_slot_is(s: Seq<InboxFile>, x: InboxFile, j: int)
    requires
        0 <= j <= s.len(),
        forall|k: int| 0 <= k < j ==> newer(#[trigger] s[k], x),
        j < s.len() ==> !newer(s[j], x),
    ensures
        slot(s, x) == j,
    decreases j,
{
    if j > 0 {
        let t = s.drop_first();
        assert forall|k: int| 0 <= k < j - 1 implies newer(#[trigger] t[k], x) by {
            assert(t[k] == s[k + 1]);
        }
        if j - 1 < t.len() {
            assert(t[j - 1] == s[j]);
        }
        assert(newer(s[0], x));
        lemma_slot_is(t, x, j - 1);
    }
}

proof fn lemma_slot_props(s: Seq<InboxFile>, x: InboxFile)
    ensures
        slot(s, x) <= s.len(),
        forall|k: int| 0 <= k < slot(s, x) ==> newer(#[trigger] s[k], x),
        slot(s, x) < s.len() ==> !newer(s[slot(s, x) as int], x),
    decreases s.len(),
{
    if s.len() > 0 && newer(s[0], x) {
        let t = s.drop_first();
        lemma_slot_props(t, x);
        assert forall|k: int| 0 <= k < slot(s, x) implies newer(#[trigger] s[k], x) by {
            if k > 0 {
                assert(s[k] == t[k - 1]);
            }
        }
        if slot(s, x) < s.len() {
            assert(s[slot(s, x) as int] == t[slot(t, x) as int]);
        }
    }
}

/// Whether `s` lists no file after one that is older than it.
pub open spec fn recency_ordered(s: Seq<InboxFile>) -> bool {
    forall|i: int, j: int| 0 <= i < j < s.len() ==> !newer(#[trigger] s[j], #[trigger] s[i])
}

/// The listing order is a reordering of the input that puts newer groups
/// first and, within a group, newer files first.
pub proof fn lemma_recency_order(s: Seq<InboxFile>)
    ensures
        recency_ordered(by_recency(s)),
        by_recency(s).to_multiset() == s.to_multiset(),
        by_recency(s).len() == s.len(),
    decreases s.len(),
{
    broadcast use vstd::seq_lib::group_to_multiset_ensures;

    if s.len() > 0 {
        let rest = by_recency(s.drop_first());
        let x = s[0];
        lemma_recency_order(s.drop_first());
        lemma_slot_props(rest, x);
        let k = slot(rest, x) as int;
        let r = rest.insert(k, x);
        rest.insert_ensures(k, x);
        assert forall|i: int, j: int| 0 <= i < j < r.len() implies !newer(
            #[trigger] r[j],
            #[trigger] r[i],
        ) by {
            if j < k {
                assert(r[i] == rest[i] && r[j] == rest[j]);
            } else if j == k {
                assert(r[i] == rest[i]);
            } else if i > k {
                assert(r[i] == rest[i - 1] && r[j] == rest[j - 1]);
            } else if i == k {
                assert(r[j] == rest[j - 1]);
                assert(!newer(rest[k], x));
                if j - 1 > k {
                    assert(!newer(rest[j - 1], rest[k]));
                }
            } else {
                assert(r[i] == rest[i] && r[j] == rest[j - 1]);
            }
        }
        assert(s =~= seq![x] + s.drop_first());
        assert(s.drop_first().to_multiset().insert(x) =~= s.to_multiset()) by {
            assert(s =~= s.drop_first().insert(0, x));
        }
    }
}

/// In the listing order, the files that share a group key stand together:
/// no file of another group comes between two of them.
pub proof fn lemma_groups_stay_together(s: Seq<InboxFile>, i: int, j: int, k: int)
    requires
        0 <= i < j < k < s.len(),
        by_recency(s)[i].group_sort_key == by_recency(s)[k].group_sort_key,
    ensures
        by_recency(s)[j].group_sort_key == by_recency(s)[i].group_sort_key,
{
    lemma_recency_order(s);
    let r = by_recency(s);
    assert(!newer(r[j], r[i]));
    assert(!newer(r[k], r[j]));
}

/// The files of `s` whose group key is `group` and whose own time is
/// `modified`, in order.
pub open spec fn with_keys(s: Seq<InboxFile>, group: Timestamp, modified: Timestamp) -> Seq<
    InboxFile,
>
    decreases s.len(),
{
    if s.len() == 0 {
        seq![]
    } else {
        (if s[0].group_sort_key == group && s[0].modified == modified {
            seq![s[0]]
        } else {
            seq![]
        }) + with_keys(s.drop_first(), group, modified)
    }
}

proof fn lemma_with_keys_append(a: Seq<InboxFile>, b: Seq<InboxFile>, g: Timestamp, m: Timestamp)
    ensures
        with_keys(a + b, g, m) == with_keys(a, g, m) + with_keys(b, g, m),
    decreases a.len(),
{
    if a.len() == 0 {
        assert(a + b =~= b);
        assert(with_keys(a, g, m) + with_keys(b, g, m) =~= with_keys(b, g, m));
    } else {
        assert((a + b).drop_first() =~= a.drop_first() + b);
        lemma_with_keys_append(a.drop_first(), b, g, m);
        assert((a + b)[0] == a[0]);
        let h = if a[0].group_sort_key == g && a[0].modified == m {
            seq![a[0]]
        } else {
            Seq::<InboxFile>::empty()
        };
        assert(h + (with_keys(a.drop_first(), g, m) + with_keys(b, g, m)) =~= (h + with_keys(
            a.drop_first(),
            g,
            m,
        )) + with_keys(b, g, m));
    }
}

proof fn lemma_with_keys_none(s: Seq<InboxFile>, g: Timestamp, m: Timestamp)
    requires
        forall|i: int|
            0 <= i < s.len() ==> !((#[trigger] s[i]).group_sort_key == g && s[i].modified == m),
    ensures
        with_keys(s, g, m) == Seq::<InboxFile>::empty(),
    decreases s.len(),
{
    if s.len() > 0 {
        assert forall|i: int|
            0 <= i < s.drop_first().len() implies !((#[trigger] s.drop_first()[i]).group_sort_key
            == g && s.drop_first()[i].modified == m) by {
            assert(s.drop_first()[i] == s[i + 1]);
        }
        lemma_with_keys_none(s.drop_first(), g, m);
        assert(with_keys(s, g, m) =~= Seq::<InboxFile>::empty());
    }
}

/// Sorting is stable: the files that share both the group key and their
/// own time come out in the order they went in.
pub proof fn lemma_ties_keep_order(s: Seq<InboxFile>, group: Timestamp, modified: Timestamp)
    ensures
        with_keys(by_recency(s), group, modified) == with_keys(s, group, modified),
    decreases s.len(),
{
    if s.len() > 0 {
        let x = s[0];
        let rest = by_recency(s.drop_first());
        lemma_ties_keep_order(s.drop_first(), group, modified);
        lemma_slot_props(rest, x);
        let k = slot(rest, x) as int;
        let a = rest.take(k);
        let b = rest.skip(k);
        assert(rest.insert(k, x) =~= a + (seq![x] + b));
        assert(rest =~= a + b);
        lemma_with_keys_append(a, seq![x] + b, group, modified);
        lemma_with_keys_append(seq![x], b, group, modified);
        lemma_with_keys_append(a, b, group, modified);
        assert(seq![x].drop_first() =~= Seq::<InboxFile>::empty());
        let hx = if x.group_sort_key == group && x.modified == modified {
            seq![x]
        } else {
            Seq::<InboxFile>::empty()
        };
        assert(with_keys(Seq::<InboxFile>::empty(), group, modified) =~= Seq::<InboxFile>::empty());
        assert(with_keys(seq![x], group, modified) =~= hx);
        assert(with_keys(s, group, modified) == hx + with_keys(s.drop_first(), group, modified));
        assert(by_recency(s) == rest.insert(k, x));
        if x.group_sort_key == group && x.modified == modified {
            assert forall|i: int| 0 <= i < a.len() implies !((#[trigger] a[i]).group_sort_key
                == group && a[i].modified == modified) by {
                assert(a[i] == rest[i]);
                assert(newer(rest[i], x));
            }
            lemma_with_keys_none(a, group, modified);
            assert(with_keys(a, group, modified) + with_keys(b, group, modified) =~= with_keys(
                b,
                group,
                modified,
            ));
            assert(with_keys(by_recency(s), group, modified) =~= hx + with_keys(rest, group, modified));
        } else {
            assert(with_keys(by_recency(s), group, modified) =~= with_keys(rest, group, modified));
            assert(with_keys(s, group, modified) =~= with_keys(s.drop_first(), group, modified));
        }
    }
}

/// Where the file at index `i` of `s` lands in `by_recency(s)`.
pub open spec fn sorted_position(s: Seq<InboxFile>, i: int) -> int
    decreases s.len(),
{
    if s.len() == 0 {
        0
    } else {
        let k = slot(by_recency(s.drop_first()), s[0]) as int;
        if i == 0 {
            k
        } else {
            let p = sorted_position(s.drop_first(), i - 1);
            if p < k {
                p
            } else {
                p + 1
            }
        }
    }
}

/// Sorting moves each file to its own place: the file at index `i` is
/// found at `sorted_position(s, i)` of the result, and no two files share
/// a place.
pub proof fn lemma_sorted_position(s: Seq<InboxFile>)
    ensures
        by_recency(s).len() == s.len(),
        forall|i: int|
            0 <= i < s.len() ==> 0 <= #[trigger] sorted_position(s, i) < s.len() && by_recency(
                s,
            )[sorted_position(s, i)] == s[i],
        forall|i: int, j: int|
            0 <= i < s.len() && 0 <= j < s.len() && i != j ==> #[trigger] sorted_position(s, i)
                != #[trigger] sorted_position(s, j),
    decreases s.len(),
{
    lemma_recency_order(s);
    if s.len() > 0 {
        let t = s.drop_first();
        lemma_sorted_position(t);
        lemma_recency_order(t);
        let rest = by_recency(t);
        let x = s[0];
        lemma_slot_props(rest, x);
        let k = slot(rest, x) as int;
        let r = rest.insert(k, x);
        assert(by_recency(s) == r);
        rest.insert_ensures(k, x);
        assert forall|i: int| 0 <= i < s.len() implies 0 <= #[trigger] sorted_position(s, i)
            < s.len() && by_recency(s)[sorted_position(s, i)] == s[i] by {
            if i > 0 {
                let p = sorted_position(t, i - 1);
                assert(t[i - 1] == s[i]);
                if p < k {
                    assert(r[p] == rest[p]);
                } else {
                    assert(r[p + 1] == rest[p]);
                }
            }
        }
        assert forall|i: int, j: int|
            0 <= i < s.len() && 0 <= j < s.len() && i != j implies #[trigger] sorted_position(
                s,
                i,
            ) != #[trigger] sorted_position(s, j) by {
            if i > 0 && j > 0 {
                assert(sorted_position(t, i - 1) != sorted_position(t, j - 1));
            }
        }
    }
}

/// Sorting is stable: of two files that share both the group key and
/// their own time, the one that came first in the input comes first in
/// the result.
pub proof fn lemma_sort_is_stable(s: Seq<InboxFile>, i: int, j: int)
    requires
        0 <= i < j < s.len(),
        s[i].group_sort_key == s[j].group_sort_key,
        s[i].modified == s[j].modified,
    ensures
        sorted_position(s, i) < sorted_position(s, j),
        by_recency(s)[sorted_position(s, i)] == s[i],
        by_recency(s)[sorted_position(s, j)] == s[j],
    decreases s.len(),
{
    lemma_sorted_position(s);
    let t = s.drop_first();
    let rest = by_recency(t);
    let k = slot(rest, s[0]) as int;
    lemma_sorted_position(t);
    if i == 0 {
        let q = sorted_position(t, j - 1);
        assert(t[j - 1] == s[j]);
        lemma_slot_props(rest, s[0]);
        assert(rest[q] == s[j]);
        if q < k {
            assert(newer(rest[q], s[0]));
            assert(false);
        }
    } else {
        assert(t[i - 1] == s[i] && t[j - 1] == s[j]);
        lemma_sort_is_stable(t, i - 1, j - 1);
    }
}

/// Sorts inbox files so that top-level files and subfolders are interleaved
/// newest-first by `group_sort_key`; within a group sharing a key, files
/// are sorted newest-first by `modified`. Ties keep their order.
pub fn sort_inbox_files(files: &mut Vec<InboxFile>)
    ensures
        final(files)@ == by_recency(old(files)@),
{
    let ghost input = files@;
    let mut rest: Vec<InboxFile> = Vec::new();
    std::mem::swap(files, &mut rest);
    assert(input.skip(input.len() as int) =~= seq![]);
    while rest.len() > 0
        invariant
            rest@ == input.take(rest@.len() as int),
            rest@.len() <= input.len(),
            files@ == by_recency(input.skip(rest@.len() as int)),
        decreases rest@.len(),
    {
        let ghost n = rest@.len();
        let x = rest.pop().unwrap();
        assert(input.skip(n - 1).drop_first() =~= input.skip(n as int));
        assert(input.skip(n - 1)[0] == x);
        assert(rest@ =~= input.take(n - 1));
        let mut j: usize = 0;
        while j < files.len() && is_newer(&files[j], &x)
            invariant
                j <= files@.len(),
                forall|k: int| 0 <= k < j ==> newer(#[trigger] files@[k], x),
            decreases files@.len() - j,
        {
            j += 1;
        }
        proof {
            lemma_slot_is(files@, x, j as int);
        }
        files.insert(j, x);
    }
    assert(input.skip(0) =~= input);
}

} // verus!
