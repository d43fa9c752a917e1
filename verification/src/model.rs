//! The workspace as a mathematical value, and what each operation makes of
//! it.  Entries are taken in scan order; where two of them compete for one
//! name, the earlier one wins and the later one is left alone.

use crate::entry::{ActionView, EntryView, FailureView, NodeView};
use crate::paths::{
    name_of, in_hidden_store_of, is_image, placeholder_path_of, store_path_of, tree_path_of,
    PLACEHOLDER_IMAGE,
};
use vstd::prelude::*;

verus! {

/// Mathematical value of a workspace: the working tree outside the hidden
/// store, the hidden store if it exists, and the actions decided so far.
pub struct WorkspaceView {
    pub tree: Seq<EntryView>,
    pub store: Option<Seq<EntryView>>,
    pub journal: Seq<ActionView>,
}

/// Whether some entry of `s` sits at `p`.
pub open spec fn has_path(s: Seq<EntryView>, p: Seq<char>) -> bool {
    exists|i: int| 0 <= i < s.len() && (#[trigger] s[i]).path == p
}

/// The tree entries that Archive works on: real image files outside the
/// hidden store.
pub open spec fn archive_selects(e: EntryView) -> bool {
    &&& e.node is File
    &&& is_image(e.path)
    &&& !in_hidden_store_of(e.path)
}

/// Where the hidden store keeps the tree entry `e`: under its file name,
/// whatever directory it came from.
pub open spec fn store_slot(e: EntryView) -> Seq<char> {
    store_path_of(name_of(e.path))
}

/// The tree entry `e` once it rests in the hidden store.
pub open spec fn stored(e: EntryView) -> EntryView {
    EntryView { path: store_slot(e), node: e.node }
}

/// The action that moves the tree entry `e` into the hidden store.
pub open spec fn archive_action(e: EntryView) -> ActionView {
    ActionView::Relocate { from: e.path, to: store_slot(e) }
}

/// A tree parted by Archive: the entries taken into the store and the
/// entries left where they were, each in scan order.
pub struct Parted {
    pub taken: Seq<EntryView>,
    pub left: Seq<EntryView>,
}

/// How Archive parts `tree`: an entry is taken when it is selected and the
/// store, as it stands when the entry's turn comes, holds nothing at its
/// slot. Of two selected entries with one file name only the first is taken.
pub open spec fn archive_parts(tree: Seq<EntryView>, store: Seq<EntryView>) -> Parted
    decreases tree.len(),
{
    if tree.len() == 0 {
        Parted { taken: Seq::empty(), left: Seq::empty() }
    } else {
        let before = archive_parts(tree.drop_last(), store);
        let e = tree.last();
        let store_then = store + before.taken.map_values(|x: EntryView| stored(x));
        if archive_selects(e) && !has_path(store_then, store_slot(e)) {
            Parted { taken: before.taken.push(e), left: before.left }
        } else {
            Parted { taken: before.taken, left: before.left.push(e) }
        }
    }
}

/// The path of the first entry of `tree` that Archive works on, if any.
pub open spec fn first_archivable(tree: Seq<EntryView>) -> Option<Seq<char>>
    decreases tree.len(),
{
    if tree.len() == 0 {
        None
    } else if archive_selects(tree.first()) {
        Some(tree.first().path)
    } else {
        first_archivable(tree.drop_first())
    }
}

/// The store entries that Link and Restore work on: real image files other
/// than the placeholder.
pub open spec fn store_selects(e: EntryView) -> bool {
    &&& e.node is File
    &&& is_image(e.path)
    &&& name_of(e.path) != PLACEHOLDER_IMAGE@
}

/// Where the working tree shows the store entry `e`.
pub open spec fn tree_slot(e: EntryView) -> Seq<char> {
    tree_path_of(name_of(e.path))
}

/// A link at `at` to the placeholder image.
pub open spec fn placeholder_link(at: Seq<char>) -> EntryView {
    EntryView { path: at, node: NodeView::Symlink { target: placeholder_path_of() } }
}

/// The action that creates [`placeholder_link`] at `at`.
pub open spec fn link_action(at: Seq<char>) -> ActionView {
    ActionView::Link { target: placeholder_path_of(), link: at }
}

/// The places at which Link creates a link, in scan order of `store`: the
/// slot of each selected store entry, unless the tree already holds an entry
/// there or an earlier store entry claimed the slot.
pub open spec fn new_links(store: Seq<EntryView>, tree: Seq<EntryView>) -> Seq<Seq<char>>
    decreases store.len(),
{
    if store.len() == 0 {
        Seq::empty()
    } else {
        let before = new_links(store.drop_last(), tree);
        let e = store.last();
        if store_selects(e) && !has_path(tree, tree_slot(e)) && !before.contains(tree_slot(e)) {
            before.push(tree_slot(e))
        } else {
            before
        }
    }
}

/// The tree entries that Unlink works on: links with an image's name outside
/// the hidden store. A real file is never one of them.
pub open spec fn unlink_selects(e: EntryView) -> bool {
    &&& e.node is Symlink
    &&& is_image(e.path)
    &&& !in_hidden_store_of(e.path)
}

/// The action that removes the link `e`.
pub open spec fn unlink_action(e: EntryView) -> ActionView {
    ActionView::Remove { path: e.path }
}

/// How Unlink parts `tree`: the selected links are taken, all else is left.
pub open spec fn unlink_parts(tree: Seq<EntryView>) -> Parted
    decreases tree.len(),
{
    if tree.len() == 0 {
        Parted { taken: Seq::empty(), left: Seq::empty() }
    } else {
        let before = unlink_parts(tree.drop_last());
        let e = tree.last();
        if unlink_selects(e) {
            Parted { taken: before.taken.push(e), left: before.left }
        } else {
            Parted { taken: before.taken, left: before.left.push(e) }
        }
    }
}

/// The placeholder image in the hidden store, holding `data`.
pub open spec fn placeholder_entry(data: Seq<u8>) -> EntryView {
    EntryView { path: placeholder_path_of(), node: NodeView::File { data } }
}

/// Whether a directory sits at `p` in `s`.
pub open spec fn has_directory_at(s: Seq<EntryView>, p: Seq<char>) -> bool {
    exists|i: int| 0 <= i < s.len() && (#[trigger] s[i]).path == p && s[i].node is Directory
}

/// `s` without the entries at `p`.
pub open spec fn without_path(s: Seq<EntryView>, p: Seq<char>) -> Seq<EntryView>
    decreases s.len(),
{
    if s.len() == 0 {
        s
    } else if s.last().path == p {
        without_path(s.drop_last(), p)
    } else {
        without_path(s.drop_last(), p).push(s.last())
    }
}

/// The store entry `e` once it is back in the working tree.
pub open spec fn restored(e: EntryView) -> EntryView {
    EntryView { path: tree_slot(e), node: e.node }
}

/// The action that moves the store entry `e` back into the working tree.
pub open spec fn restore_action(e: EntryView) -> ActionView {
    ActionView::Relocate { from: e.path, to: tree_slot(e) }
}

/// A store emptied by Restore: the entries taken back, the entries left in
/// the store, the working tree that results, and the path of the entry at
/// which the operation failed, if it did.
pub struct Returned {
    pub taken: Seq<EntryView>,
    pub left: Seq<EntryView>,
    pub tree: Seq<EntryView>,
    pub failed: Option<Seq<char>>,
}

/// How Restore empties `store` into `tree`. Each selected entry goes to its
/// slot at the root of the tree and replaces a file or link found there. At
/// the first one whose slot holds a directory the operation fails; that entry
/// and all after it stay in the store.
pub open spec fn restore_parts(store: Seq<EntryView>, tree: Seq<EntryView>) -> Returned
    decreases store.len(),
{
    if store.len() == 0 {
        Returned { taken: Seq::empty(), left: Seq::empty(), tree: tree, failed: None }
    } else {
        let before = restore_parts(store.drop_last(), tree);
        let e = store.last();
        if before.failed is Some || !store_selects(e) {
            Returned {
                taken: before.taken,
                left: before.left.push(e),
                tree: before.tree,
                failed: before.failed,
            }
        } else if has_directory_at(before.tree, tree_slot(e)) {
            Returned {
                taken: before.taken,
                left: before.left.push(e),
                tree: before.tree,
                failed: Some(e.path),
            }
        } else {
            Returned {
                taken: before.taken.push(e),
                left: before.left,
                tree: without_path(before.tree, tree_slot(e)).push(restored(e)),
                failed: None,
            }
        }
    }
}

impl WorkspaceView {
    /// The workspace once the hidden store has been created: what the store
    /// held stays, and a store that was missing is there and empty.
    pub open spec fn create_store(self) -> WorkspaceView {
        WorkspaceView {
            tree: self.tree,
            store: Some(
                match self.store {
                    Some(store) => store,
                    None => Seq::empty(),
                },
            ),
            journal: self.journal.push(ActionView::CreateStore),
        }
    }

    /// Whether the hidden store holds an entry at the placeholder's path.
    pub open spec fn has_placeholder(self) -> bool {
        self.store matches Some(store) && has_path(store, placeholder_path_of())
    }

    /// The workspace once the placeholder `image` has been put into a store
    /// that lacked one. A placeholder that is there is never overwritten.
    pub open spec fn add_placeholder(self, image: Option<Seq<u8>>) -> WorkspaceView {
        match (self.store, image) {
            (Some(store), Some(data)) => if has_path(store, placeholder_path_of()) {
                self
            } else {
                WorkspaceView {
                    tree: self.tree,
                    store: Some(store.push(placeholder_entry(data))),
                    journal: self.journal.push(
                        ActionView::WritePlaceholder { path: placeholder_path_of(), data },
                    ),
                }
            },
            _ => self,
        }
    }

    /// Why putting the placeholder `image` in place fails, if it does: one
    /// is needed, and there is no image or no store to hold it.
    pub open spec fn placeholder_failure(self, image: Option<Seq<u8>>) -> Option<FailureView> {
        if !self.has_placeholder() && (self.store is None || image is None) {
            Some(FailureView::Placeholder)
        } else {
            None
        }
    }

    /// The workspace after Archive: the taken entries rest in the store
    /// under their file names, the others stay in the tree. Without a hidden
    /// store nothing moves.
    pub open spec fn archive(self) -> WorkspaceView {
        match self.store {
            None => self,
            Some(store) => {
                let parts = archive_parts(self.tree, store);
                WorkspaceView {
                    tree: parts.left,
                    store: Some(store + parts.taken.map_values(|x: EntryView| stored(x))),
                    journal: self.journal + parts.taken.map_values(
                        |x: EntryView| archive_action(x),
                    ),
                }
            },
        }
    }

    /// Why Archive fails, if it does: there is no hidden store to move the
    /// first selected entry into.
    pub open spec fn archive_failure(self) -> Option<FailureView> {
        match (self.store, first_archivable(self.tree)) {
            (None, Some(path)) => Some(FailureView::Move { path }),
            _ => None,
        }
    }

    /// The workspace after Link: every archived image without an entry of
    /// its name at the root of the working tree gets a link to the
    /// placeholder there. Without a hidden store nothing happens.
    pub open spec fn link(self) -> WorkspaceView {
        match self.store {
            None => self,
            Some(store) => {
                let at = new_links(store, self.tree);
                WorkspaceView {
                    tree: self.tree + at.map_values(|p: Seq<char>| placeholder_link(p)),
                    store: self.store,
                    journal: self.journal + at.map_values(|p: Seq<char>| link_action(p)),
                }
            },
        }
    }

    /// The workspace after Unlink: the selected links are gone from the
    /// tree, and nothing else has changed.
    pub open spec fn unlink(self) -> WorkspaceView {
        let parts = unlink_parts(self.tree);
        WorkspaceView {
            tree: parts.left,
            store: self.store,
            journal: self.journal + parts.taken.map_values(|x: EntryView| unlink_action(x)),
        }
    }

    /// The workspace after Restore: the taken entries are back at the root
    /// of the working tree, the others stay in the store. Without a hidden
    /// store nothing moves.
    pub open spec fn restore(self) -> WorkspaceView {
        match self.store {
            None => self,
            Some(store) => {
                let parts = restore_parts(store, self.tree);
                WorkspaceView {
                    tree: parts.tree,
                    store: Some(parts.left),
                    journal: self.journal + parts.taken.map_values(
                        |x: EntryView| restore_action(x),
                    ),
                }
            },
        }
    }

    /// Why Restore fails, if it does: the slot of an archived image holds a
    /// directory.
    pub open spec fn restore_failure(self) -> Option<FailureView> {
        match self.store {
            None => None,
            Some(store) => match restore_parts(store, self.tree).failed {
                Some(path) => Some(FailureView::Restore { path }),
                None => None,
            },
        }
    }

    /// The workspace after `init` with the placeholder `image` at hand:
    /// create the store, put the placeholder in place, Archive, Link.
    pub open spec fn init(self, image: Option<Seq<u8>>) -> WorkspaceView {
        let made = self.create_store();
        if made.placeholder_failure(image) is Some {
            made
        } else {
            made.add_placeholder(image).archive().link()
        }
    }

    /// Why `init` fails, if it does.
    pub open spec fn init_failure(self, image: Option<Seq<u8>>) -> Option<FailureView> {
        self.create_store().placeholder_failure(image)
    }

    /// The workspace after `update`: Archive, then Link unless Archive
    /// failed.
    pub open spec fn update(self) -> WorkspaceView {
        if self.archive_failure() is Some {
            self.archive()
        } else {
            self.archive().link()
        }
    }

    /// Why `update` fails, if it does.
    pub open spec fn update_failure(self) -> Option<FailureView> {
        self.archive_failure()
    }

    /// The workspace after `switch`: Unlink and Restore where the hidden
    /// store exists, Link where it does not.
    pub open spec fn switch(self) -> WorkspaceView {
        if self.store is Some {
            self.unlink().restore()
        } else {
            self.link()
        }
    }

    /// Why `switch` fails, if it does.
    pub open spec fn switch_failure(self) -> Option<FailureView> {
        if self.store is Some {
            self.unlink().restore_failure()
        } else {
            None
        }
    }
}

} // verus!
