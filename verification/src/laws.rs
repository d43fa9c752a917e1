//! What holds of the operations whatever the workspace: running one twice
//! changes nothing more, links only ever point at the placeholder, and the
//! placeholder itself is never moved, linked or removed.

use crate::effects::{
    archive_takes_what_the_store_has_room_for, lemma_found_in_longer, link_fills_every_slot,
    restore_takes_archived_images_only, unlink_takes_links_only,
};
use crate::entry::{ActionView, EntryView, NodeView};
use crate::model::{
    archive_parts, archive_selects, has_path, new_links, restore_parts, store_selects,
    store_slot, stored, tree_slot, unlink_parts, unlink_selects, Parted, Returned,
    WorkspaceView,
};
use crate::paths::{
    name_of, is_image, lemma_reserved_names_as_files, lemma_slot_file_names,
    lemma_slots_differ, lemma_store_path_in_store, placeholder_path_of, tree_path_of,
    PLACEHOLDER_IMAGE,
};
use vstd::prelude::*;

verus! {

/// The placeholder bears an image's name, and still no operation selects
/// it: not Archive nor Unlink, which pass over all that lies in the hidden
/// store, and not Link nor Restore, which pass over its name.
pub proof fn placeholder_is_never_selected(e: EntryView)
    requires
        e.path == placeholder_path_of(),
    ensures
        is_image(e.path),
        !archive_selects(e),
        !unlink_selects(e),
        !store_selects(e),
{
    lemma_reserved_names_as_files();
    lemma_slot_file_names(PLACEHOLDER_IMAGE@);
    lemma_store_path_in_store(PLACEHOLDER_IMAGE@);
}

/// Link never puts an entry for the placeholder into the working tree.
pub proof fn placeholder_gets_no_link(store: Seq<EntryView>, tree: Seq<EntryView>)
    ensures
        !new_links(store, tree).contains(tree_path_of(PLACEHOLDER_IMAGE@)),
    decreases store.len(),
{
    if store.len() > 0 {
        placeholder_gets_no_link(store.drop_last(), tree);
        let e = store.last();
        if store_selects(e) {
            lemma_slots_differ(name_of(e.path), PLACEHOLDER_IMAGE@);
        }
    }
}

/// Link leaves the hidden store and the entries of the working tree as they
/// are, and each entry and each action that it adds is a link whose target
/// is the placeholder's path, and nothing else.
pub proof fn links_point_at_placeholder(s: WorkspaceView)
    ensures
        s.link().store == s.store,
        s.tree.is_prefix_of(s.link().tree),
        forall|i: int|
            s.tree.len() <= i < s.link().tree.len() ==> (#[trigger] s.link().tree[i]).node
                == (NodeView::Symlink { target: placeholder_path_of() }),
        s.journal.is_prefix_of(s.link().journal),
        forall|i: int|
            s.journal.len() <= i < s.link().journal.len() ==> ((#[trigger] s.link().journal[i])
                matches ActionView::Link { target, .. } && target == placeholder_path_of()),
{
}

/// Whatever Restore does not select stays in the store.
proof fn lemma_restore_keeps_unselected(store: Seq<EntryView>, tree: Seq<EntryView>, p: Seq<char>)
    requires
        exists|i: int| 0 <= i < store.len() && (#[trigger] store[i]).path == p && !store_selects(
            store[i],
        ),
    ensures
        has_path(restore_parts(store, tree).left, p),
    decreases store.len(),
{
    let i = choose|i: int|
        0 <= i < store.len() && (#[trigger] store[i]).path == p && !store_selects(store[i]);
    let front = store.drop_last();
    let before = restore_parts(front, tree);
    let parts = restore_parts(store, tree);
    if i < front.len() {
        assert(front[i] == store[i]);
        lemma_restore_keeps_unselected(front, tree, p);
        lemma_found_in_longer(before.left, parts.left, p);
    } else {
        assert(parts.left[before.left.len() as int].path == p);
    }
}

/// No operation and no command removes the hidden store or the placeholder
/// in it: where they are before, they are after, whether or not the
/// operation succeeds.
pub proof fn store_and_placeholder_persist(s: WorkspaceView, image: Option<Seq<u8>>)
    ensures
        s.create_store().store is Some,
        s.init(image).store is Some,
        s.store is Some ==> {
            &&& s.add_placeholder(image).store is Some
            &&& s.archive().store is Some
            &&& s.link().store is Some
            &&& s.unlink().store is Some
            &&& s.restore().store is Some
            &&& s.update().store is Some
            &&& s.switch().store is Some
        },
        s.has_placeholder() ==> {
            &&& s.create_store().has_placeholder()
            &&& s.add_placeholder(image).has_placeholder()
            &&& s.archive().has_placeholder()
            &&& s.link().has_placeholder()
            &&& s.unlink().has_placeholder()
            &&& s.restore().has_placeholder()
            &&& s.init(image).has_placeholder()
            &&& s.update().has_placeholder()
            &&& s.switch().has_placeholder()
        },
{
    if s.has_placeholder() {
        let store = s.store->0;
        let at = placeholder_path_of();
        let i = choose|i: int| 0 <= i < store.len() && (#[trigger] store[i]).path == at;
        placeholder_is_never_selected(store[i]);
        lemma_restore_keeps_unselected(store, s.tree, at);
        lemma_restore_keeps_unselected(store, s.unlink().tree, at);
        lemma_found_in_longer(store, s.archive().store->0, at);
        lemma_found_in_longer(store, s.create_store().archive().store->0, at);
    }
}

/// Where every selected entry finds its slot occupied, Archive takes nothing.
proof fn lemma_archive_of_blocked(tree: Seq<EntryView>, store: Seq<EntryView>)
    requires
        forall|i: int|
            0 <= i < tree.len() && archive_selects(#[trigger] tree[i]) ==> has_path(
                store,
                store_slot(tree[i]),
            ),
    ensures
        archive_parts(tree, store) == (Parted { taken: Seq::empty(), left: tree }),
    decreases tree.len(),
{
    if tree.len() > 0 {
        lemma_archive_of_blocked(tree.drop_last(), store);
        assert(tree.drop_last().push(tree.last()) =~= tree);
    } else {
        assert(tree =~= Seq::empty());
    }
}

/// Archive run twice in a row leaves the workspace as Archive run once
/// leaves it, the hidden store included, and the second run fails no
/// otherwise than the first.
pub proof fn archive_is_idempotent(s: WorkspaceView)
    ensures
        s.archive().archive() == s.archive(),
        s.archive().archive_failure() == s.archive_failure(),
{
    if let Some(store) = s.store {
        let parts = archive_parts(s.tree, store);
        archive_takes_what_the_store_has_room_for(s.tree, store);
        lemma_archive_of_blocked(
            parts.left,
            store + parts.taken.map_values(|x: EntryView| stored(x)),
        );
    }
}

/// Where every selected store entry finds its slot occupied, Link adds
/// nothing.
pub proof fn lemma_link_of_filled(store: Seq<EntryView>, tree: Seq<EntryView>)
    requires
        forall|i: int|
            0 <= i < store.len() && store_selects(#[trigger] store[i]) ==> has_path(
                tree,
                tree_slot(store[i]),
            ),
    ensures
        new_links(store, tree) == Seq::<Seq<char>>::empty(),
    decreases store.len(),
{
    if store.len() > 0 {
        lemma_link_of_filled(store.drop_last(), tree);
    }
}

/// Link run twice in a row leaves the workspace as Link run once leaves it:
/// the second run adds no link and journals no action, so there is nothing
/// in it that could fail.
pub proof fn link_is_idempotent(s: WorkspaceView)
    ensures
        s.link().link() == s.link(),
{
    if let Some(store) = s.store {
        link_fills_every_slot(store, s.tree);
        lemma_link_of_filled(store, s.link().tree);
    }
}

/// Unlink takes nothing from a tree that holds nothing it selects.
pub proof fn lemma_unlink_of_unselected(tree: Seq<EntryView>)
    requires
        forall|i: int| 0 <= i < tree.len() ==> !unlink_selects(#[trigger] tree[i]),
    ensures
        unlink_parts(tree) == (Parted { taken: Seq::empty(), left: tree }),
    decreases tree.len(),
{
    if tree.len() > 0 {
        lemma_unlink_of_unselected(tree.drop_last());
        assert(tree.drop_last().push(tree.last()) =~= tree);
    } else {
        assert(tree =~= Seq::empty());
    }
}

/// Unlink run twice in a row leaves the workspace as Unlink run once leaves
/// it: on a tree without links to remove it does nothing.
pub proof fn unlink_is_idempotent(s: WorkspaceView)
    ensures
        s.unlink().unlink() == s.unlink(),
{
    unlink_takes_links_only(s.tree);
    lemma_unlink_of_unselected(s.unlink().tree);
}

/// Restore takes nothing from a store that holds nothing it selects.
pub proof fn lemma_restore_of_unselected(store: Seq<EntryView>, tree: Seq<EntryView>)
    requires
        forall|i: int| 0 <= i < store.len() ==> !store_selects(#[trigger] store[i]),
    ensures
        restore_parts(store, tree) == (Returned {
            taken: Seq::empty(),
            left: store,
            tree: tree,
            failed: None,
        }),
    decreases store.len(),
{
    if store.len() > 0 {
        lemma_restore_of_unselected(store.drop_last(), tree);
        assert(store.drop_last().push(store.last()) =~= store);
    } else {
        assert(store =~= Seq::empty());
    }
}

/// Restore run again after it succeeded leaves the workspace as the first
/// run left it, and succeeds: the store then holds nothing to bring back.
pub proof fn restore_is_idempotent(s: WorkspaceView)
    requires
        s.restore_failure() is None,
    ensures
        s.restore().restore() == s.restore(),
        s.restore().restore_failure() is None,
{
    if let Some(store) = s.store {
        restore_takes_archived_images_only(store, s.tree);
        lemma_restore_of_unselected(s.restore().store->0, s.restore().tree);
    }
}

/// After Archive and Link, Archive finds nothing to take: what was left in
/// the tree is blocked, and what Link added are links, not files.
proof fn lemma_archive_after_link(s: WorkspaceView)
    requires
        s.store is Some,
    ensures
        archive_parts(s.archive().link().tree, s.archive().store->0) == (Parted {
            taken: Seq::empty(),
            left: s.archive().link().tree,
        }),
{
    let store = s.store->0;
    let parts = archive_parts(s.tree, store);
    let kept = store + parts.taken.map_values(|x: EntryView| stored(x));
    let tree = s.archive().link().tree;
    archive_takes_what_the_store_has_room_for(s.tree, store);
    assert forall|i: int| 0 <= i < tree.len() && archive_selects(#[trigger] tree[i]) implies has_path(
        kept,
        store_slot(tree[i]),
    ) by {
        if i < parts.left.len() {
            assert(tree[i] == parts.left[i]);
        }
    }
    lemma_archive_of_blocked(tree, kept);
}

/// `update` run twice in a row leaves the workspace as `update` run once
/// leaves it, and the second run fails no otherwise than the first.
pub proof fn update_is_idempotent(s: WorkspaceView)
    ensures
        s.update().update() == s.update(),
        s.update().update_failure() == s.update_failure(),
{
    if s.store is Some {
        let once = s.update();
        lemma_archive_after_link(s);
        assert(once.archive() == once);
        link_is_idempotent(s.archive());
    }
}

/// `init` run again after it succeeded succeeds again and finds nothing to
/// do: it journals the creation of the store, which is there, and leaves
/// the working tree and the hidden store as they are.
pub proof fn init_settles(s: WorkspaceView, image: Option<Seq<u8>>)
    requires
        s.init_failure(image) is None,
    ensures
        s.init(image).init_failure(image) is None,
        s.init(image).init(image) == s.init(image).create_store(),
{
    let ready = s.create_store().add_placeholder(image);
    let once = s.init(image);
    let made = once.create_store();
    store_and_placeholder_persist(ready, image);
    assert(once == ready.update());
    assert(made.add_placeholder(image) == made);
    update_is_idempotent(ready);
    lemma_archive_after_link(ready);
    link_is_idempotent(ready.archive());
    assert(once.archive() == once);
    assert(made.archive() == made);
    assert(new_links(once.store->0, once.tree) =~= Seq::<Seq<char>>::empty()) by {
        link_fills_every_slot(ready.archive().store->0, ready.archive().tree);
        lemma_link_of_filled(once.store->0, once.tree);
    }
    assert(made.link() == made);
}

} // verus!
