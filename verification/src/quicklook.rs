//! The state of the Quick Look preview: which file is shown, by which
//! preview process.
//!
//! Only one file can be previewed at a time. The process itself is run by
//! the caller; this type decides when to start and stop it and records the
//! outcome.
use vstd::prelude::*;
use crate::paths::components;
use crate::paths::path_components;
use crate::paths::same_components;

verus! {

/// Whether two paths name the same path (have the same components).
pub open spec fn same_path(a: Seq<char>, b: Seq<char>) -> bool {
    components(a) == components(b)
}

/// Whether the paths `a` and `b` are the same path.
pub fn is_same_path(a: &str, b: &str) -> (r: bool)
    ensures
        r == same_path(a@, b@),
{
    same_components(&path_components(a), &path_components(b))
}

/// What the caller must do to the preview process.
#[derive(Debug, Clone, PartialEq, Eq)]
pub enum PreviewCommand {
    /// Stop the running preview, if any.
    Close,
    /// Stop the running preview, if any, and start one for this path.
    Open(String),
}

/// The Quick Look preview state.
#[derive(Debug)]
pub struct QuickLook {
    /// Id of the running preview process, if any.
    pub process: Option<u32>,
    /// Path of the previewed file, while a preview runs.
    pub current_path: Option<String>,
}

/// Whether a preview of `path` is open.
pub open spec fn open_for(ql: QuickLook, path: Seq<char>) -> bool {
    ql.current_path matches Some(p) && same_path(p@, path)
}

impl QuickLook {
    /// Creates a `QuickLook` with no active preview.
    pub fn new() -> (r: Self)
        ensures
            r.process is None,
            r.current_path is None,
    {
        QuickLook { process: None, current_path: None }
    }

    /// Records whether the preview process has exited on its own (e.g. the
    /// user closed the window); if a process ran and has exited, no preview
    /// is open any more.
    pub fn poll(&mut self, exited: bool)
        ensures
            exited && old(self).process is Some ==> final(self).process is None
                && final(self).current_path is None,
            !(exited && old(self).process is Some) ==> final(self).process == old(self).process
                && final(self).current_path == old(self).current_path,
    {
        if exited && self.process.is_some() {
            self.process = None;
            self.current_path = None;
        }
    }

    /// Returns `true` if a preview is currently open for `path`.
    pub fn is_open_for(&self, path: &str) -> (r: bool)
        ensures
            r == open_for(*self, path@),
    {
        match &self.current_path {
            Some(p) => is_same_path(p.as_str(), path),
            None => false,
        }
    }

    /// Stops the active preview, if any; the caller kills the process.
    pub fn close(&mut self) -> (r: PreviewCommand)
        ensures
            final(self).process is None,
            final(self).current_path is None,
            r == PreviewCommand::Close,
    {
        self.process = None;
        self.current_path = None;
        PreviewCommand::Close
    }

    /// Opens a preview for `path`, replacing any existing one: the caller
    /// stops the old process, starts the new one and reports back through
    /// `opened`.
    pub fn open(&mut self, path: &str) -> (r: PreviewCommand)
        ensures
            final(self).process is None,
            final(self).current_path is None,
            r matches PreviewCommand::Open(p) && p@ == path@,
    {
        self.close();
        PreviewCommand::Open(crate::text::string_of(crate::text::chars_of(path).as_slice()))
    }

    /// Records the outcome of starting a preview of `path`: the id of the
    /// started process, or `None` when it could not be started.
    pub fn opened(&mut self, path: &str, process: Option<u32>)
        ensures
            final(self).process == process,
            process is Some ==> (final(self).current_path matches Some(p) && p@ == path@),
            process is None ==> final(self).current_path is None,
    {
        match process {
            Some(id) => {
                self.process = Some(id);
                self.current_path = Some(
                    crate::text::string_of(crate::text::chars_of(path).as_slice()),
                );
            },
            None => {
                self.process = None;
                self.current_path = None;
            },
        }
    }

    /// Toggles the preview of `path`: closes it when it is open for
    /// `path`, and opens it otherwise (switching from any other file).
    pub fn toggle(&mut self, path: &str) -> (r: PreviewCommand)
        ensures
            final(self).process is None,
            final(self).current_path is None,
            open_for(*old(self), path@) ==> r == PreviewCommand::Close,
            !open_for(*old(self), path@) ==> (r matches PreviewCommand::Open(p) && p@ == path@),
    {
        if self.is_open_for(path) {
            self.close()
        } else {
            self.open(path)
        }
    }
}

impl Default for QuickLook {
    fn default() -> (r: Self)
        ensures
            r.process is None,
            r.current_path is None,
    {
        Self::new()
    }
}

} // verus!
