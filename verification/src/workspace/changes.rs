//! Which filesystem changes in the watched directories make the sidebar and
//! the open document reload.
use vstd::prelude::*;

verus! {

/// The kind of a filesystem event, as the watcher reports it.
#[derive(Clone, Copy, Debug, PartialEq, Eq, Structural)]
pub enum FsChange {
    /// An event of unknown kind.
    Any,
    /// A file was read or opened.
    Access,
    /// A file or directory was created.
    Create,
    /// A file or directory was changed (content, metadata or name).
    Modify,
    /// A file or directory was removed.
    Remove,
    /// Any other event.
    Other,
}

/// Does a filesystem event of this kind call for a reload? Creations,
/// removals and modifications do; other events do not.
pub fn triggers_reload(kind: FsChange) -> (res: bool)
    ensures
        res == (kind == FsChange::Create || kind == FsChange::Remove || kind == FsChange::Modify),
{
    match kind {
        FsChange::Create | FsChange::Remove | FsChange::Modify => true,
        _ => false,
    }
}

} // verus!
