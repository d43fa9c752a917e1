//! Keeps the heavy images of a document tree out of the way of repeated
//! builds: the originals rest in a hidden store while the working tree holds
//! links to one small placeholder image, and a switch brings them back.
//!
//! The crate works on a snapshot of the tree, a [`workspace::Workspace`].
//! The four operations Archive, Link, Unlink and Restore, and the commands
//! `init`, `update` and `switch` made of them, change the snapshot and record
//! in its journal the file-system actions that make the same change on disk.
//! The caller takes the snapshot, carries the journal out in order, and
//! reports a failure if there was one.
//!
//! Every operation is specified over the mathematical value of the snapshot
//! ([`model`]) and proved to compute it. What the operations have in common
//! is proved once and for all: each of them may be run twice without harm
//! ([`laws`]), nothing is lost ([`effects`]), and the way through the store
//! and back restores every file ([`round_trip`]).

pub mod effects;
pub mod entry;
pub mod laws;
pub mod model;
pub mod passes;
pub mod paths;
pub mod placeholder;
pub mod round_trip;
pub mod workspace;

pub use entry::{Action, Entry, Failure, Node};
pub use paths::is_image_file;
pub use workspace::{Shown, Workspace};
