//! The configuration: inboxes to file from and the archive to file into.
use vstd::prelude::*;
use crate::dest::texts;
use crate::paths::components;
use crate::paths::file_name;
use crate::paths::is_absolute;
use crate::paths::join_path;
use crate::paths::joined;
use crate::paths::path_components;
use crate::paths::path_file_name;
use crate::paths::render;
use crate::paths::render_range;
use crate::paths::views;
use crate::text::chars_of;
use crate::text::string_of;

verus! {

/// An inbox directory with an optional display label.
#[derive(Debug, Clone)]
pub struct InboxConfig {
    /// Label shown in the UI; the folder name stands in when it is absent.
    pub label: Option<String>,
    /// Path of the inbox directory.
    pub path: String,
}

/// Where filed documents go.
#[derive(Debug, Clone)]
pub struct DestinationConfig {
    /// Root directory of the archive tree.
    pub root: String,
}

/// The whole configuration, as read from `.docsort.toml`.
#[derive(Debug, Clone)]
pub struct Config {
    /// Inbox directories to scan for unsorted files.
    pub inboxes: Vec<InboxConfig>,
    /// The archive.
    pub destination: DestinationConfig,
}

/// The label an inbox is shown with: its configured label, else the last
/// component of its path, else the whole path.
pub open spec fn label_of(label: Option<String>, path: Seq<char>) -> Seq<char> {
    match label {
        Some(l) => l@,
        None => match file_name(path) {
            Some(n) => n,
            None => path,
        },
    }
}

/// Returns the display label for an inbox.
///
/// Uses the configured label if present, otherwise the last path component
/// (the folder name), otherwise the full path.
pub fn inbox_label(inbox: &InboxConfig) -> (r: String)
    ensures
        r@ == label_of(inbox.label, inbox.path@),
{
    match &inbox.label {
        Some(label) => label.clone(),
        None => match path_file_name(inbox.path.as_str()) {
            Some(name) => name,
            None => inbox.path.clone(),
        },
    }
}

/// The places the configuration file is looked for from the directory
/// `dir`: `dir` itself, then each of its ancestors up to the root, nearest
/// first, each joined with `.docsort.toml`.
pub open spec fn config_candidates_of(dir: Seq<char>) -> Seq<Seq<char>> {
    let cs = components(dir);
    let low: int = if is_absolute(dir) {
        1
    } else {
        0
    };
    Seq::new(
        (cs.len() - low + 1) as nat,
        |i: int| joined(render(cs.take(cs.len() - i)), ".docsort.toml"@),
    )
}

/// Lists where to look for `.docsort.toml` when searching up from `dir`
/// (the current directory): the first of these that exists is the
/// configuration file.
pub fn config_candidates(dir: &str) -> (r: Vec<String>)
    ensures
        texts(r@) == config_candidates_of(dir@),
{
    let cs = path_components(dir);
    let dv = chars_of(dir);
    let low: usize = if dv.len() > 0 && dv[0] == '/' {
        1
    } else {
        0
    };
    let ghost want = config_candidates_of(dir@);
    assert(low == 1 ==> views(cs@).len() >= 1);
    let mut out: Vec<String> = Vec::new();
    let mut k: usize = cs.len();
    assert(texts(out@) =~= want.take(0));
    while k >= low
        invariant_except_break
            low <= k + 1,
            k <= cs.len(),
            texts(out@) == want.take(cs.len() - k),
            want == config_candidates_of(dir@),
            views(cs@) == components(dir@),
            low == (if is_absolute(dir@) {
                1usize
            } else {
                0usize
            }),
            low <= cs.len(),
        ensures
            texts(out@) == want,
        decreases k + 1 - low,
    {
        let prefix = render_range(&cs, 0, k);
        assert(views(cs@).subrange(0, k as int) =~= components(dir@).take(k as int));
        let base = string_of(prefix.as_slice());
        let candidate = join_path(base.as_str(), ".docsort.toml");
        let ghost before = out@;
        out.push(candidate);
        assert(want[cs.len() - k] == candidate@);
        assert(texts(out@) =~= texts(before).push(candidate@));
        assert(texts(out@) =~= want.take(cs.len() - k + 1));
        if k == low {
            assert(want.take(cs.len() - k + 1) =~= want);
            break;
        }
        k -= 1;
    }
    out
}

} // verus!
