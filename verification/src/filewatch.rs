//! The file watcher's decisions: which file-system events are logged, what
//! they are called, and the texts that name them.

use vstd::prelude::*;
use crate::render::{debug_path, path_debug_text};

verus! {

/// The kind of a file-system event, as the notification source reports it.
#[derive(Clone, Copy, Debug, PartialEq, Eq, Structural)]
pub enum FileEventKind {
    Any,
    Access,
    Create,
    Modify,
    Remove,
    Other,
}

/// What happened to the file: `None` for the kinds that are not logged.
pub fn file_event_action(kind: FileEventKind) -> (action: Option<&'static str>)
    ensures
        match kind {
            FileEventKind::Create => action matches Some(a) && a@ == "created"@,
            FileEventKind::Modify => action matches Some(a) && a@ == "modified"@,
            FileEventKind::Remove => action matches Some(a) && a@ == "deleted"@,
            FileEventKind::Access => action matches Some(a) && a@ == "accessed"@,
            FileEventKind::Any | FileEventKind::Other => action is None,
        },
{
    match kind {
        FileEventKind::Create => Some("created"),
        FileEventKind::Modify => Some("modified"),
        FileEventKind::Remove => Some("deleted"),
        FileEventKind::Access => Some("accessed"),
        FileEventKind::Any | FileEventKind::Other => None,
    }
}

/// The path an event is about: its first path, or `<unknown path>`.
pub fn event_path_label(paths: &Vec<String>) -> (label: String)
    ensures
        label@ == (if paths@.len() > 0 { paths@[0]@ } else { "<unknown path>"@ }),
{
    if paths.len() > 0 {
        paths[0].clone()
    } else {
        String::from_str("<unknown path>")
    }
}

/// The details of an error reported by the notification source.
pub fn file_watch_error_details(error: &String) -> (details: String)
    ensures
        details@ == "File watcher error: "@ + error@,
{
    let mut s = String::from_str("File watcher error: ");
    s.append(error.as_str());
    s
}

/// The line announcing that the file watcher runs on `dir`, stamped with
/// `timestamp`; the directory is quoted as `{:?}` prints a path.
pub fn file_watcher_started_message(timestamp: &String, dir: &String) -> (msg: String)
    ensures
        msg@ == "["@ + timestamp@ + "] Filewatcher started, watching "@ + path_debug_text(dir@) + " directory."@,
{
    let mut s = String::from_str("[");
    s.append(timestamp.as_str());
    s.append("] Filewatcher started, watching ");
    let quoted = debug_path(dir.as_str());
    s.append(quoted.as_str());
    s.append(" directory.");
    s
}

} // verus!
