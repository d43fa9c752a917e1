//! The passes over the entries of a scan that make up the operations: which
//! entries each operation selects, and what it does with them one by one.

use crate::entry::{action_views, entry_views, Action, Entry, EntryView, Node};
use crate::model::{
    archive_action, archive_parts, archive_selects, first_archivable, has_directory_at, has_path,
    link_action, new_links, placeholder_link, restore_action, restore_parts, store_selects,
    stored, tree_slot, unlink_action, unlink_parts, unlink_selects, without_path,
};
use crate::paths::{
    file_name, in_hidden_store, is_image_file, name_of, placeholder_path, store_path, tree_path,
    PLACEHOLDER_IMAGE,
};
use vstd::prelude::*;

verus! {

/// The file name of `e`, or the empty name where its path has none.
pub fn entry_name(e: &Entry) -> (name: String)
    ensures
        name@ == name_of(e@.path),
{
    match file_name(e.path.as_str()) {
        Some(name) => name,
        None => String::new(),
    }
}

/// Whether `e` is a tree entry that Archive works on: a real image file
/// outside the hidden store.
pub fn selected_for_archive(e: &Entry) -> (b: bool)
    ensures
        b == archive_selects(e@),
{
    match e.node {
        Node::File { .. } => is_image_file(e.path.as_str()) && !in_hidden_store(e.path.as_str()),
        _ => false,
    }
}

/// Whether `e` is a tree entry that Unlink works on: a link with an image's
/// name outside the hidden store.
pub fn selected_for_unlink(e: &Entry) -> (b: bool)
    ensures
        b == unlink_selects(e@),
{
    match e.node {
        Node::Symlink { .. } => is_image_file(e.path.as_str()) && !in_hidden_store(
            e.path.as_str(),
        ),
        _ => false,
    }
}

/// Whether `e` is a store entry that Link and Restore work on: a real image
/// file that does not bear the placeholder's name.
pub fn selected_in_store(e: &Entry) -> (b: bool)
    ensures
        b == store_selects(e@),
{
    match e.node {
        Node::File { .. } => {
            if is_image_file(e.path.as_str()) {
                let name = entry_name(e);
                let placeholder = String::from_str(PLACEHOLDER_IMAGE);
                name != placeholder
            } else {
                false
            }
        },
        _ => false,
    }
}

/// Whether some entry of `entries` sits at `path`.
pub(crate) fn holds_path(entries: &Vec<Entry>, path: &String) -> (b: bool)
    ensures
        b == has_path(entry_views(entries@), path@),
{
    let mut i: usize = 0;
    while i < entries.len()
        invariant
            i <= entries.len(),
            forall|j: int| 0 <= j < i ==> (#[trigger] entry_views(entries@)[j]).path != path@,
        decreases entries.len() - i,
    {
        if entries[i].path == *path {
            assert(entry_views(entries@)[i as int].path == path@);
            return true;
        }
        i = i + 1;
    }
    false
}

/// Whether a directory sits at `path` in `entries`.
pub(crate) fn holds_directory(entries: &Vec<Entry>, path: &String) -> (b: bool)
    ensures
        b == has_directory_at(entry_views(entries@), path@),
{
    let mut i: usize = 0;
    while i < entries.len()
        invariant
            i <= entries.len(),
            forall|j: int|
                0 <= j < i ==> !((#[trigger] entry_views(entries@)[j]).path == path@
                    && entry_views(entries@)[j].node is Directory),
        decreases entries.len() - i,
    {
        let is_directory = match entries[i].node {
            Node::Directory => true,
            _ => false,
        };
        if is_directory && entries[i].path == *path {
            assert(entry_views(entries@)[i as int].path == path@);
            return true;
        }
        i = i + 1;
    }
    false
}

/// `entries` without those at `path`.
pub(crate) fn drop_path(entries: Vec<Entry>, path: &String) -> (kept: Vec<Entry>)
    ensures
        entry_views(kept@) == without_path(entry_views(entries@), path@),
{
    let ghost all = entry_views(entries@);
    let mut kept: Vec<Entry> = Vec::new();
    for e in it: entries
        invariant
            all == entry_views(it.seq()),
            entry_views(kept@) == without_path(all.take(it.index()), path@),
    {
        assert(all.take(it.index() + 1).drop_last() == all.take(it.index()));
        if e.path != *path {
            kept.push(e);
        }
    }
    assert(all.take(all.len() as int) == all);
    kept
}

/// The path of the first entry of `tree` that Archive works on, if any.
pub(crate) fn first_for_archive(tree: &Vec<Entry>) -> (r: Option<String>)
    ensures
        match r {
            Some(path) => first_archivable(entry_views(tree@)) == Some(path@),
            None => first_archivable(entry_views(tree@)) is None,
        },
{
    let ghost all = entry_views(tree@);
    let mut i: usize = 0;
    assert(all.skip(0) == all);
    while i < tree.len()
        invariant
            i <= tree.len(),
            all == entry_views(tree@),
            first_archivable(all) == first_archivable(all.skip(i as int)),
        decreases tree.len() - i,
    {
        assert(all.skip(i as int).drop_first() == all.skip(i + 1));
        if selected_for_archive(&tree[i]) {
            return Some(tree[i].path.clone());
        }
        i = i + 1;
    }
    None
}

/// Archive for the entries of `tree`, on the store and journal of a
/// workspace; returns the entries left in the tree.
pub(crate) fn archive_tree(
    tree: Vec<Entry>,
    store: &mut Vec<Entry>,
    journal: &mut Vec<Action>,
) -> (left: Vec<Entry>)
    ensures
        entry_views(left@) == archive_parts(entry_views(tree@), entry_views(old(store)@)).left,
        entry_views(final(store)@) == entry_views(old(store)@) + archive_parts(
            entry_views(tree@),
            entry_views(old(store)@),
        ).taken.map_values(|x: EntryView| stored(x)),
        action_views(final(journal)@) == action_views(old(journal)@) + archive_parts(
            entry_views(tree@),
            entry_views(old(store)@),
        ).taken.map_values(|x: EntryView| archive_action(x)),
{
    let ghost all = entry_views(tree@);
    let ghost store0 = entry_views(store@);
    let ghost journal0 = action_views(journal@);
    let mut left: Vec<Entry> = Vec::new();
    for e in it: tree
        invariant
            all == entry_views(it.seq()),
            entry_views(left@) == archive_parts(all.take(it.index()), store0).left,
            entry_views(store@) == store0 + archive_parts(
                all.take(it.index()),
                store0,
            ).taken.map_values(|x: EntryView| stored(x)),
            action_views(journal@) == journal0 + archive_parts(
                all.take(it.index()),
                store0,
            ).taken.map_values(|x: EntryView| archive_action(x)),
    {
        let ghost store_before = entry_views(store@);
        let ghost journal_before = action_views(journal@);
        assert(all.take(it.index() + 1).drop_last() == all.take(it.index()));
        if selected_for_archive(&e) {
            let name = entry_name(&e);
            let to = store_path(name.as_str());
            if !holds_path(store, &to) {
                let ghost taken = e@;
                let Entry { path, node } = e;
                journal.push(Action::Relocate { from: path, to: to.clone() });
                store.push(Entry { path: to, node });
                assert(entry_views(store@) =~= store_before.push(stored(taken)));
                assert(action_views(journal@) =~= journal_before.push(archive_action(taken)));
            } else {
                left.push(e);
            }
        } else {
            left.push(e);
        }
    }
    assert(all.take(all.len() as int) == all);
    left
}

/// An entry sits at `p` in a tree extended by links at `at` exactly when one
/// sat there before or `p` is one of the new places.
proof fn lemma_has_path_with_links(tree: Seq<EntryView>, at: Seq<Seq<char>>, p: Seq<char>)
    ensures
        has_path(tree + at.map_values(|q: Seq<char>| placeholder_link(q)), p) <==> has_path(
            tree,
            p,
        ) || at.contains(p),
{
    let both = tree + at.map_values(|q: Seq<char>| placeholder_link(q));
    if has_path(both, p) {
        let i = choose|i: int| 0 <= i < both.len() && (#[trigger] both[i]).path == p;
        if i < tree.len() {
            assert(tree[i].path == p);
        } else {
            assert(at[i - tree.len()] == p);
        }
    }
    if has_path(tree, p) {
        let i = choose|i: int| 0 <= i < tree.len() && (#[trigger] tree[i]).path == p;
        assert(both[i].path == p);
    }
    if at.contains(p) {
        let i = choose|i: int| 0 <= i < at.len() && at[i] == p;
        assert(both[tree.len() + i].path == p);
    }
}

/// Link for the entries of `store`, on the tree and journal of a workspace.
pub(crate) fn link_store(store: &Vec<Entry>, tree: &mut Vec<Entry>, journal: &mut Vec<Action>)
    ensures
        entry_views(final(tree)@) == entry_views(old(tree)@) + new_links(
            entry_views(store@),
            entry_views(old(tree)@),
        ).map_values(|p: Seq<char>| placeholder_link(p)),
        action_views(final(journal)@) == action_views(old(journal)@) + new_links(
            entry_views(store@),
            entry_views(old(tree)@),
        ).map_values(|p: Seq<char>| link_action(p)),
{
    let ghost tree0 = entry_views(tree@);
    let ghost journal0 = action_views(journal@);
    let ghost all = entry_views(store@);
    let mut i: usize = 0;
    while i < store.len()
        invariant
            i <= store.len(),
            all == entry_views(store@),
            entry_views(tree@) == tree0 + new_links(all.take(i as int), tree0).map_values(
                |p: Seq<char>| placeholder_link(p),
            ),
            action_views(journal@) == journal0 + new_links(all.take(i as int), tree0).map_values(
                |p: Seq<char>| link_action(p),
            ),
        decreases store.len() - i,
    {
        let ghost done = new_links(all.take(i as int), tree0);
        assert(all.take(i + 1).drop_last() == all.take(i as int));
        let e = &store[i];
        if selected_in_store(e) {
            let name = entry_name(e);
            let at = tree_path(name.as_str());
            let taken = holds_path(tree, &at);
            proof {
                lemma_has_path_with_links(tree0, done, at@);
            }
            if !taken {
                let ghost slot = tree_slot(e@);
                let ghost tree_before = entry_views(tree@);
                let ghost journal_before = action_views(journal@);
                let target = placeholder_path();
                journal.push(Action::Link { target: target.clone(), link: at.clone() });
                tree.push(Entry { path: at, node: Node::Symlink { target } });
                assert(entry_views(tree@) =~= tree_before.push(placeholder_link(slot)));
                assert(action_views(journal@) =~= journal_before.push(link_action(slot)));
            }
        }
        i = i + 1;
    }
    assert(all.take(store.len() as int) == all);
}

/// Unlink for the entries of `tree`, on the journal of a workspace; returns
/// the entries left in the tree.
pub(crate) fn unlink_tree(tree: Vec<Entry>, journal: &mut Vec<Action>) -> (left: Vec<Entry>)
    ensures
        entry_views(left@) == unlink_parts(entry_views(tree@)).left,
        action_views(final(journal)@) == action_views(old(journal)@) + unlink_parts(
            entry_views(tree@),
        ).taken.map_values(|x: EntryView| unlink_action(x)),
{
    let ghost all = entry_views(tree@);
    let ghost journal0 = action_views(journal@);
    let mut left: Vec<Entry> = Vec::new();
    for e in it: tree
        invariant
            all == entry_views(it.seq()),
            entry_views(left@) == unlink_parts(all.take(it.index())).left,
            action_views(journal@) == journal0 + unlink_parts(
                all.take(it.index()),
            ).taken.map_values(|x: EntryView| unlink_action(x)),
    {
        let ghost journal_before = action_views(journal@);
        assert(all.take(it.index() + 1).drop_last() == all.take(it.index()));
        if selected_for_unlink(&e) {
            journal.push(Action::Remove { path: e.path });
            assert(action_views(journal@) =~= journal_before.push(unlink_action(e@)));
        } else {
            left.push(e);
        }
    }
    assert(all.take(all.len() as int) == all);
    left
}

/// Restore for the entries of `store`, on the tree and journal of a
/// workspace; returns the entries left in the store and the path at which
/// the operation failed, if it did.
pub(crate) fn restore_store(
    store: Vec<Entry>,
    tree: &mut Vec<Entry>,
    journal: &mut Vec<Action>,
) -> (r: (Vec<Entry>, Option<String>))
    ensures
        entry_views(r.0@) == restore_parts(entry_views(store@), entry_views(old(tree)@)).left,
        entry_views(final(tree)@) == restore_parts(
            entry_views(store@),
            entry_views(old(tree)@),
        ).tree,
        action_views(final(journal)@) == action_views(old(journal)@) + restore_parts(
            entry_views(store@),
            entry_views(old(tree)@),
        ).taken.map_values(|x: EntryView| restore_action(x)),
        match r.1 {
            Some(path) => restore_parts(entry_views(store@), entry_views(old(tree)@)).failed
                == Some(path@),
            None => restore_parts(entry_views(store@), entry_views(old(tree)@)).failed is None,
        },
{
    let ghost all = entry_views(store@);
    let ghost tree0 = entry_views(tree@);
    let ghost journal0 = action_views(journal@);
    let mut left: Vec<Entry> = Vec::new();
    let mut failed: Option<String> = None;
    for e in it: store
        invariant
            all == entry_views(it.seq()),
            entry_views(left@) == restore_parts(all.take(it.index()), tree0).left,
            entry_views(tree@) == restore_parts(all.take(it.index()), tree0).tree,
            action_views(journal@) == journal0 + restore_parts(
                all.take(it.index()),
                tree0,
            ).taken.map_values(|x: EntryView| restore_action(x)),
            match failed {
                Some(path) => restore_parts(all.take(it.index()), tree0).failed == Some(path@),
                None => restore_parts(all.take(it.index()), tree0).failed is None,
            },
    {
        let ghost journal_before = action_views(journal@);
        assert(all.take(it.index() + 1).drop_last() == all.take(it.index()));
        if failed.is_some() || !selected_in_store(&e) {
            left.push(e);
        } else {
            let name = entry_name(&e);
            let to = tree_path(name.as_str());
            if holds_directory(tree, &to) {
                failed = Some(e.path.clone());
                left.push(e);
            } else {
                let mut rest: Vec<Entry> = Vec::new();
                core::mem::swap(tree, &mut rest);
                let mut rest = drop_path(rest, &to);
                let ghost taken = e@;
                let Entry { path, node } = e;
                journal.push(Action::Relocate { from: path, to: to.clone() });
                rest.push(Entry { path: to, node });
                *tree = rest;
                assert(action_views(journal@) =~= journal_before.push(restore_action(taken)));
            }
        }
    }
    assert(all.take(all.len() as int) == all);
    (left, failed)
}

} // verus!
