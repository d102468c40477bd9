//! A plain-value snapshot of an operating-system window: what the lifecycle
//! logic reads of a window. The host gathers these values from its window
//! source and hands them in; the logic itself never touches the OS.

use vstd::prelude::*;

verus! {

/// What the profile logic reads of a window at one moment.
pub struct WindowSnapshot {
    /// The name of the process that owns the window, when known.
    pub process_name: Option<String>,
    /// The window's title.
    pub title: String,
    /// Whether the window still exists.
    pub exists: bool,
    /// Whether the window is visible.
    pub is_visible: bool,
}

impl WindowSnapshot {
    /// A snapshot of an existing, visible window of the given process.
    pub fn new(process_name: &str, title: &str) -> (r: WindowSnapshot)
        ensures
            r.process_name matches Some(n) && n@ == process_name@,
            r.title@ == title@,
            r.exists,
            r.is_visible,
    {
        WindowSnapshot {
            process_name: Some(process_name.to_owned()),
            title: title.to_owned(),
            exists: true,
            is_visible: true,
        }
    }

    /// A snapshot of a window that is gone: it no longer exists and is not
    /// visible.
    pub fn gone() -> (r: WindowSnapshot)
        ensures
            r.process_name is None,
            r.title@ == Seq::<char>::empty(),
            !r.exists,
            !r.is_visible,
    {
        WindowSnapshot { process_name: None, title: String::new(), exists: false, is_visible: false }
    }
}

} // verus!
