//! The workspace in memory: a snapshot of the working tree and of the hidden
//! store, the four operations on it, and the three commands made of them.
//! Each operation changes the snapshot and appends to the journal the actions
//! that make the same change on disk.

use crate::entry::{action_views, entry_views, Action, ActionView, Entry, EntryView, Failure, Node};
use crate::model::{placeholder_entry, WorkspaceView};
use crate::passes::{
    archive_tree, first_for_archive, holds_path, link_store, restore_store, unlink_tree,
};
use crate::paths::{placeholder_path, placeholder_path_of};
use crate::placeholder::{placeholder_image, placeholder_png};
use vstd::prelude::*;

verus! {

/// What the working tree shows after a switch.
#[derive(Clone, Copy, Debug, PartialEq, Eq)]
pub enum Shown {
    /// The original images, back from the hidden store.
    Originals,
    /// Links to the placeholder image.
    Placeholders,
}

/// A snapshot of a working tree and its hidden store.
#[derive(Clone, Debug, PartialEq, Eq)]
pub struct Workspace {
    /// The entries of the working tree outside the hidden store, in scan
    /// order.
    pub tree: Vec<Entry>,
    /// The entries of the hidden store in scan order; `None` while the
    /// store does not exist.
    pub store: Option<Vec<Entry>>,
    /// The actions decided so far and not yet carried out.
    pub journal: Vec<Action>,
}

impl View for Workspace {
    type V = WorkspaceView;

    open spec fn view(&self) -> WorkspaceView {
        WorkspaceView {
            tree: entry_views(self.tree@),
            store: match self.store {
                Some(s) => Some(entry_views(s@)),
                None => None,
            },
            journal: action_views(self.journal@),
        }
    }
}

/// The bytes of an image that may be missing.
pub open spec fn image_bytes(image: Option<Vec<u8>>) -> Option<Seq<u8>> {
    match image {
        Some(data) => Some(data@),
        None => None,
    }
}

impl Workspace {
    /// A workspace with the given working tree and hidden store, and an
    /// empty journal.
    pub fn new(tree: Vec<Entry>, store: Option<Vec<Entry>>) -> (ws: Workspace)
        ensures
            ws.tree == tree,
            ws.store == store,
            ws.journal@ == Seq::<Action>::empty(),
    {
        Workspace { tree, store, journal: Vec::new() }
    }

    /// Whether the hidden store exists. This is all that `switch` looks at.
    pub fn store_exists(&self) -> (b: bool)
        ensures
            b == (self@.store is Some),
    {
        self.store.is_some()
    }

    /// Creates the hidden store if it is missing. The action is journalled
    /// either way: creating a directory that exists changes nothing.
    pub fn create_store(&mut self)
        ensures
            final(self)@ == old(self)@.create_store(),
    {
        if self.store.is_none() {
            self.store = Some(Vec::new());
            assert(entry_views(Seq::<Entry>::empty()) =~= Seq::<EntryView>::empty());
        }
        let ghost journal_before = action_views(self.journal@);
        self.journal.push(Action::CreateStore);
        assert(action_views(self.journal@) =~= journal_before.push(ActionView::CreateStore));
    }

    /// Whether the hidden store holds an entry at the placeholder's path.
    pub fn has_placeholder(&self) -> (b: bool)
        ensures
            b == self@.has_placeholder(),
    {
        match &self.store {
            Some(store) => {
                let at = placeholder_path();
                holds_path(store, &at)
            },
            None => false,
        }
    }

    /// Puts the placeholder `image` into the hidden store, unless the store
    /// holds one already: a placeholder is written once and never
    /// overwritten. `None` stands for an image that could not be encoded.
    ///
    /// Fails, with nothing changed, when a placeholder is needed and there
    /// is no image, or no store to hold it.
    pub fn add_placeholder(&mut self, image: Option<Vec<u8>>) -> (r: Result<(), Failure>)
        ensures
            final(self)@ == old(self)@.add_placeholder(image_bytes(image)),
            match r {
                Ok(_) => old(self)@.placeholder_failure(image_bytes(image)) is None,
                Err(f) => old(self)@.placeholder_failure(image_bytes(image)) == Some(f@),
            },
    {
        if self.has_placeholder() {
            return Ok(());
        }
        match (&mut self.store, image) {
            (Some(store), Some(data)) => {
                let ghost store_before = entry_views(store@);
                let ghost journal_before = action_views(self.journal@);
                let path = placeholder_path();
                let copy = data.clone();
                self.journal.push(Action::WritePlaceholder { path: path.clone(), data: copy });
                store.push(Entry { path, node: Node::File { data } });
                assert(entry_views(store@) =~= store_before.push(placeholder_entry(data@)));
                assert(action_views(self.journal@) =~= journal_before.push(
                    ActionView::WritePlaceholder { path: placeholder_path_of(), data: data@ },
                ));
                Ok(())
            },
            _ => Err(Failure::Placeholder),
        }
    }

    /// Sees to it that the hidden store holds a placeholder image: where it
    /// lacks one, the image is encoded and put in place.
    ///
    /// Fails, with nothing changed, when a placeholder is needed and the
    /// image cannot be encoded or there is no store to hold it.
    pub fn ensure_placeholder(&mut self) -> (r: Result<(), Failure>)
        ensures
            final(self)@ == old(self)@.add_placeholder(placeholder_png()),
            match r {
                Ok(_) => old(self)@.placeholder_failure(placeholder_png()) is None,
                Err(f) => old(self)@.placeholder_failure(placeholder_png()) == Some(f@),
            },
    {
        if self.has_placeholder() {
            Ok(())
        } else {
            match placeholder_image() {
                Ok(image) => self.add_placeholder(Some(image)),
                Err(_) => self.add_placeholder(None),
            }
        }
    }

    /// Archive: moves every real image file of the working tree into the
    /// hidden store, under its file name, unless the store already holds an
    /// entry of that name. An entry that stays is not touched.
    ///
    /// Fails, with nothing moved, when there is an entry to move and no
    /// hidden store to receive it.
    pub fn archive(&mut self) -> (r: Result<(), Failure>)
        ensures
            final(self)@ == old(self)@.archive(),
            match r {
                Ok(_) => old(self)@.archive_failure() is None,
                Err(f) => old(self)@.archive_failure() == Some(f@),
            },
    {
        match &mut self.store {
            Some(store) => {
                let mut tree: Vec<Entry> = Vec::new();
                core::mem::swap(&mut self.tree, &mut tree);
                let left = archive_tree(tree, store, &mut self.journal);
                self.tree = left;
                Ok(())
            },
            None => {
                match first_for_archive(&self.tree) {
                    Some(path) => Err(Failure::Move { path }),
                    None => Ok(()),
                }
            },
        }
    }

    /// Link: gives every archived image a link to the placeholder at the
    /// root of the working tree, unless an entry of that name is already
    /// there. The placeholder itself gets none.
    pub fn link(&mut self)
        ensures
            final(self)@ == old(self)@.link(),
    {
        match &self.store {
            None => {},
            Some(store) => {
                link_store(store, &mut self.tree, &mut self.journal);
            },
        }
    }

    /// Unlink: removes from the working tree every link that bears an
    /// image's name. Real files stay, whatever their name, and so does what
    /// the links pointed at.
    pub fn unlink(&mut self)
        ensures
            final(self)@ == old(self)@.unlink(),
    {
        let mut tree: Vec<Entry> = Vec::new();
        core::mem::swap(&mut self.tree, &mut tree);
        let left = unlink_tree(tree, &mut self.journal);
        self.tree = left;
    }

    /// Restore: moves every archived image back to the root of the working
    /// tree, under its file name. A file or link found at that place is
    /// replaced; nothing checks beforehand that the place is free. The
    /// placeholder stays in the store.
    ///
    /// Fails at the first archived image whose place holds a directory.
    /// The images before it are then restored, that one and those after it
    /// are not.
    pub fn restore(&mut self) -> (r: Result<(), Failure>)
        ensures
            final(self)@ == old(self)@.restore(),
            match r {
                Ok(_) => old(self)@.restore_failure() is None,
                Err(f) => old(self)@.restore_failure() == Some(f@),
            },
    {
        match self.store.take() {
            None => Ok(()),
            Some(store) => {
                let (left, failed) = restore_store(store, &mut self.tree, &mut self.journal);
                self.store = Some(left);
                match failed {
                    Some(path) => Err(Failure::Restore { path }),
                    None => Ok(()),
                }
            },
        }
    }

    /// The command `init`: creates the hidden store, sees to the
    /// placeholder, then runs Archive and Link.
    ///
    /// Fails, with only the store created, when the placeholder is missing
    /// and cannot be encoded.
    pub fn init(&mut self) -> (r: Result<(), Failure>)
        ensures
            final(self)@ == old(self)@.init(placeholder_png()),
            match r {
                Ok(_) => old(self)@.init_failure(placeholder_png()) is None,
                Err(f) => old(self)@.init_failure(placeholder_png()) == Some(f@),
            },
    {
        self.create_store();
        match self.ensure_placeholder() {
            Err(f) => Err(f),
            Ok(_) => {
                let archived = self.archive();
                self.link();
                archived
            },
        }
    }

    /// The command `update`: runs Archive and Link, to take in images that
    /// were added since.
    ///
    /// Fails, with nothing changed, when there is an image to archive and no
    /// hidden store.
    pub fn update(&mut self) -> (r: Result<(), Failure>)
        ensures
            final(self)@ == old(self)@.update(),
            match r {
                Ok(_) => old(self)@.update_failure() is None,
                Err(f) => old(self)@.update_failure() == Some(f@),
            },
    {
        match self.archive() {
            Err(f) => Err(f),
            Ok(_) => {
                self.link();
                Ok(())
            },
        }
    }

    /// The command `switch`: where the hidden store exists, runs Unlink and
    /// Restore and reports that the originals are shown; where it does not,
    /// runs Link and reports that placeholders are shown.
    ///
    /// No operation ever removes the store, so once it exists every switch
    /// takes the first branch, also when the originals are shown already.
    ///
    /// Fails as Restore does.
    pub fn switch(&mut self) -> (r: Result<Shown, Failure>)
        ensures
            final(self)@ == old(self)@.switch(),
            match r {
                Ok(shown) => old(self)@.switch_failure() is None && (shown is Originals <==> old(
                    self,
                )@.store is Some),
                Err(f) => old(self)@.switch_failure() == Some(f@),
            },
    {
        if self.store_exists() {
            self.unlink();
            match self.restore() {
                Err(f) => Err(f),
                Ok(_) => Ok(Shown::Originals),
            }
        } else {
            self.link();
            Ok(Shown::Placeholders)
        }
    }
}

} // verus!
