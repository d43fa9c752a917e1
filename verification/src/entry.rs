//! What a scan of a directory tree yields, and what an operation asks the
//! caller to do on disk.

use crate::paths::{in_hidden_store, in_hidden_store_of};
use vstd::prelude::*;
use vstd::string::StringExecFns;

verus! {

/// What sits at a path.
#[derive(Clone, Debug, PartialEq, Eq)]
pub enum Node {
    /// A real file. `data` is what the model holds as its contents; no
    /// operation reads it, and a relocation carries it along unchanged.
    File { data: Vec<u8> },
    /// A symbolic link pointing at `target`.
    Symlink { target: String },
    /// A directory, or anything else that is neither file nor link.
    Directory,
}

/// One entry of a scan: a path and what sits there.
#[derive(Clone, Debug, PartialEq, Eq)]
pub struct Entry {
    pub path: String,
    pub node: Node,
}

/// A step for the caller to carry out on disk.
#[derive(Clone, Debug, PartialEq, Eq)]
pub enum Action {
    /// Create the hidden store, a directory.
    CreateStore,
    /// Write the placeholder image `data` to `path`.
    WritePlaceholder { path: String, data: Vec<u8> },
    /// Rename the file at `from` to `to`.
    Relocate { from: String, to: String },
    /// Create at `link` a symbolic link pointing at `target`.
    Link { target: String, link: String },
    /// Remove the symbolic link at `path`, not what it points at.
    Remove { path: String },
}

/// Why an operation stopped before its end.
#[derive(Clone, Debug, PartialEq, Eq)]
pub enum Failure {
    /// The file at `path` could not be moved into the hidden store.
    Move { path: String },
    /// The archived file at `path` could not be moved back.
    Restore { path: String },
    /// The placeholder image could not be produced.
    Placeholder,
}

/// Mathematical value of a [`Node`].
pub enum NodeView {
    File { data: Seq<u8> },
    Symlink { target: Seq<char> },
    Directory,
}

/// Mathematical value of an [`Entry`].
pub struct EntryView {
    pub path: Seq<char>,
    pub node: NodeView,
}

/// Mathematical value of an [`Action`].
pub enum ActionView {
    CreateStore,
    WritePlaceholder { path: Seq<char>, data: Seq<u8> },
    Relocate { from: Seq<char>, to: Seq<char> },
    Link { target: Seq<char>, link: Seq<char> },
    Remove { path: Seq<char> },
}

/// Mathematical value of a [`Failure`].
pub enum FailureView {
    Move { path: Seq<char> },
    Restore { path: Seq<char> },
    Placeholder,
}

impl View for Node {
    type V = NodeView;

    open spec fn view(&self) -> NodeView {
        match *self {
            Node::File { data } => NodeView::File { data: data@ },
            Node::Symlink { target } => NodeView::Symlink { target: target@ },
            Node::Directory => NodeView::Directory,
        }
    }
}

impl View for Entry {
    type V = EntryView;

    open spec fn view(&self) -> EntryView {
        EntryView { path: self.path@, node: self.node@ }
    }
}

impl View for Action {
    type V = ActionView;

    open spec fn view(&self) -> ActionView {
        match *self {
            Action::CreateStore => ActionView::CreateStore,
            Action::WritePlaceholder { path, data } => ActionView::WritePlaceholder {
                path: path@,
                data: data@,
            },
            Action::Relocate { from, to } => ActionView::Relocate { from: from@, to: to@ },
            Action::Link { target, link } => ActionView::Link { target: target@, link: link@ },
            Action::Remove { path } => ActionView::Remove { path: path@ },
        }
    }
}

impl View for Failure {
    type V = FailureView;

    open spec fn view(&self) -> FailureView {
        match *self {
            Failure::Move { path } => FailureView::Move { path: path@ },
            Failure::Restore { path } => FailureView::Restore { path: path@ },
            Failure::Placeholder => FailureView::Placeholder,
        }
    }
}

impl ActionView {
    /// What to tell the user when the action cannot be carried out: what was
    /// attempted and, where there is one, on which path. A file on its way
    /// out of the hidden store is being restored, any other is being moved.
    pub open spec fn failure_message(self) -> Seq<char> {
        match self {
            ActionView::CreateStore => "Failed to create hidden folder"@,
            ActionView::WritePlaceholder { .. } => "Failed to create placeholder image"@,
            ActionView::Relocate { from, .. } => if in_hidden_store_of(from) {
                "Failed to restore "@ + from
            } else {
                "Failed to move "@ + from
            },
            ActionView::Link { link, .. } => "Failed to create symlink for "@ + link,
            ActionView::Remove { path } => "Failed to remove symlink "@ + path,
        }
    }
}

impl Action {
    /// What to tell the user when the action cannot be carried out.
    pub fn failure_message(&self) -> (text: String)
        ensures
            text@ == self@.failure_message(),
    {
        match self {
            Action::CreateStore => String::from_str("Failed to create hidden folder"),
            Action::WritePlaceholder { .. } => String::from_str(
                "Failed to create placeholder image",
            ),
            Action::Relocate { from, .. } => {
                if in_hidden_store(from.as_str()) {
                    String::from_str("Failed to restore ").concat(from.as_str())
                } else {
                    String::from_str("Failed to move ").concat(from.as_str())
                }
            },
            Action::Link { link, .. } => String::from_str("Failed to create symlink for ").concat(
                link.as_str(),
            ),
            Action::Remove { path } => String::from_str("Failed to remove symlink ").concat(
                path.as_str(),
            ),
        }
    }
}

impl FailureView {
    /// The failure in words: the action that failed and, where there is
    /// one, the path it failed on.
    pub open spec fn message(self) -> Seq<char> {
        match self {
            FailureView::Move { path } => "Failed to move "@ + path,
            FailureView::Restore { path } => "Failed to restore "@ + path,
            FailureView::Placeholder => "Failed to create placeholder image"@,
        }
    }
}

impl Failure {
    /// The failure in words, for the user to read.
    pub fn message(&self) -> (text: String)
        ensures
            text@ == self@.message(),
    {
        match self {
            Failure::Move { path } => String::from_str("Failed to move ").concat(path.as_str()),
            Failure::Restore { path } => String::from_str("Failed to restore ").concat(
                path.as_str(),
            ),
            Failure::Placeholder => String::from_str("Failed to create placeholder image"),
        }
    }
}

/// The values of the entries of `v`, in order.
pub open spec fn entry_views(v: Seq<Entry>) -> Seq<EntryView> {
    v.map_values(|e: Entry| e@)
}

/// The values of the actions of `v`, in order.
pub open spec fn action_views(v: Seq<Action>) -> Seq<ActionView> {
    v.map_values(|a: Action| a@)
}

} // verus!
