//! What each operation does to the entries it is given, said without regard
//! to the order in which it takes them: nothing is lost, only selected
//! entries move, and what stays behind had a reason to stay.

use crate::entry::EntryView;
use crate::model::{
    archive_parts, archive_selects, has_path, new_links, placeholder_link, restore_parts,
    store_selects, store_slot, stored, tree_slot, unlink_parts, unlink_selects,
};
use vstd::prelude::*;

verus! {

/// An entry found at `p` in `a` is found there in any `b` that begins as
/// `a` does.
pub proof fn lemma_found_in_longer(a: Seq<EntryView>, b: Seq<EntryView>, p: Seq<char>)
    requires
        a.len() <= b.len(),
        forall|i: int| 0 <= i < a.len() ==> a[i] == b[i],
        has_path(a, p),
    ensures
        has_path(b, p),
{
    let i = choose|i: int| 0 <= i < a.len() && (#[trigger] a[i]).path == p;
    assert(b[i].path == p);
}

/// Archive parts the tree and loses nothing: every entry is either taken or
/// left. What is taken is a real image file whose slot in the store was
/// free, and no two taken entries share a slot. A real image file is only
/// left where the store, as it is afterwards, holds an entry at its slot.
pub proof fn archive_takes_what_the_store_has_room_for(
    tree: Seq<EntryView>,
    store: Seq<EntryView>,
)
    ensures
        ({
            let parts = archive_parts(tree, store);
            &&& parts.taken.len() + parts.left.len() == tree.len()
            &&& forall|i: int|
                0 <= i < tree.len() ==> parts.taken.contains(#[trigger] tree[i])
                    || parts.left.contains(tree[i])
            &&& forall|k: int|
                0 <= k < parts.taken.len() ==> archive_selects(#[trigger] parts.taken[k])
                    && !has_path(store, store_slot(parts.taken[k]))
            &&& forall|j: int, k: int|
                0 <= j < k < parts.taken.len() ==> store_slot(#[trigger] parts.taken[j])
                    != store_slot(#[trigger] parts.taken[k])
            &&& forall|i: int|
                0 <= i < parts.left.len() && archive_selects(#[trigger] parts.left[i])
                    ==> has_path(
                    store + parts.taken.map_values(|x: EntryView| stored(x)),
                    store_slot(parts.left[i]),
                )
        }),
    decreases tree.len(),
{
    if tree.len() > 0 {
        let front = tree.drop_last();
        let before = archive_parts(front, store);
        let parts = archive_parts(tree, store);
        let e = tree.last();
        let store_then = store + before.taken.map_values(|x: EntryView| stored(x));
        let store_now = store + parts.taken.map_values(|x: EntryView| stored(x));
        let takes = archive_selects(e) && !has_path(store_then, store_slot(e));
        archive_takes_what_the_store_has_room_for(front, store);
        assert forall|i: int| 0 <= i < tree.len() implies parts.taken.contains(#[trigger] tree[i])
            || parts.left.contains(tree[i]) by {
            if i < front.len() {
                if before.taken.contains(front[i]) {
                    let k = choose|k: int|
                        0 <= k < before.taken.len() && before.taken[k] == front[i];
                    assert(parts.taken[k] == tree[i]);
                } else {
                    let k = choose|k: int| 0 <= k < before.left.len() && before.left[k] == front[i];
                    assert(parts.left[k] == tree[i]);
                }
            } else if takes {
                assert(parts.taken[before.taken.len() as int] == tree[i]);
            } else {
                assert(parts.left[before.left.len() as int] == tree[i]);
            }
        }
        assert forall|k: int| 0 <= k < parts.taken.len() implies archive_selects(
            #[trigger] parts.taken[k],
        ) && !has_path(store, store_slot(parts.taken[k])) by {
            if k == before.taken.len() && has_path(store, store_slot(e)) {
                lemma_found_in_longer(store, store_then, store_slot(e));
            }
        }
        assert forall|j: int, k: int| 0 <= j < k < parts.taken.len() implies store_slot(
            #[trigger] parts.taken[j],
        ) != store_slot(#[trigger] parts.taken[k]) by {
            if k == before.taken.len() {
                assert(store_then[store.len() + j].path == store_slot(before.taken[j]));
            }
        }
        assert forall|i: int|
            0 <= i < parts.left.len() && archive_selects(#[trigger] parts.left[i]) implies has_path(
            store_now,
            store_slot(parts.left[i]),
        ) by {
            if i < before.left.len() {
                lemma_found_in_longer(store_then, store_now, store_slot(parts.left[i]));
            }
        }
    }
}

/// Link fills every slot: afterwards the tree holds an entry at the slot of
/// every archived image. Each link that it makes stands at the slot of one
/// of them, at a place that was free, and no two links stand at one place.
pub proof fn link_fills_every_slot(store: Seq<EntryView>, tree: Seq<EntryView>)
    ensures
        ({
            let at = new_links(store, tree);
            &&& forall|i: int|
                0 <= i < store.len() && store_selects(#[trigger] store[i]) ==> has_path(
                    tree + at.map_values(|p: Seq<char>| placeholder_link(p)),
                    tree_slot(store[i]),
                )
            &&& forall|k: int|
                0 <= k < at.len() ==> !has_path(tree, #[trigger] at[k]) && exists|i: int|
                    0 <= i < store.len() && store_selects(#[trigger] store[i]) && tree_slot(
                        store[i],
                    ) == at[k]
            &&& forall|j: int, k: int| 0 <= j < k < at.len() ==> at[j] != at[k]
        }),
    decreases store.len(),
{
    if store.len() > 0 {
        let front = store.drop_last();
        let before = new_links(front, tree);
        let at = new_links(store, tree);
        let slot = tree_slot(store.last());
        let tree_then = tree + before.map_values(|p: Seq<char>| placeholder_link(p));
        let tree_now = tree + at.map_values(|p: Seq<char>| placeholder_link(p));
        link_fills_every_slot(front, tree);
        assert forall|i: int| 0 <= i < store.len() && store_selects(#[trigger] store[i]) implies has_path(
            tree_now,
            tree_slot(store[i]),
        ) by {
            if i < front.len() {
                assert(store[i] == front[i]);
                lemma_found_in_longer(tree_then, tree_now, tree_slot(store[i]));
            } else if has_path(tree, slot) {
                lemma_found_in_longer(tree, tree_now, slot);
            } else if before.contains(slot) {
                let k = choose|k: int| 0 <= k < before.len() && before[k] == slot;
                assert(tree_then[tree.len() + k].path == slot);
                lemma_found_in_longer(tree_then, tree_now, slot);
            } else {
                assert(tree_now[tree.len() as int + before.len()].path == slot);
            }
        }
        assert forall|k: int| 0 <= k < at.len() implies !has_path(tree, #[trigger] at[k])
            && exists|i: int|
            0 <= i < store.len() && store_selects(#[trigger] store[i]) && tree_slot(store[i])
                == at[k] by {
            if k < before.len() {
                let i = choose|i: int|
                    0 <= i < front.len() && store_selects(#[trigger] front[i]) && tree_slot(
                        front[i],
                    ) == before[k];
                assert(store[i] == front[i]);
            }
        }
    }
}

/// Unlink parts the tree and loses nothing but links: every entry is either
/// taken or left, what is taken is a link with an image's name outside the
/// store, and no such link is left. A real file is never taken.
pub proof fn unlink_takes_links_only(tree: Seq<EntryView>)
    ensures
        ({
            let parts = unlink_parts(tree);
            &&& parts.taken.len() + parts.left.len() == tree.len()
            &&& forall|i: int|
                0 <= i < tree.len() ==> parts.taken.contains(#[trigger] tree[i])
                    || parts.left.contains(tree[i])
            &&& forall|k: int|
                0 <= k < parts.taken.len() ==> unlink_selects(#[trigger] parts.taken[k])
                    && parts.taken[k].node is Symlink
            &&& forall|i: int|
                0 <= i < parts.left.len() ==> !unlink_selects(#[trigger] parts.left[i])
            &&& forall|i: int|
                0 <= i < tree.len() && (#[trigger] tree[i]).node is File ==> parts.left.contains(
                    tree[i],
                )
        }),
    decreases tree.len(),
{
    if tree.len() > 0 {
        let front = tree.drop_last();
        let before = unlink_parts(front);
        let parts = unlink_parts(tree);
        unlink_takes_links_only(front);
        assert forall|i: int| 0 <= i < tree.len() implies (parts.taken.contains(#[trigger] tree[i])
            || parts.left.contains(tree[i])) && (tree[i].node is File ==> parts.left.contains(
            tree[i],
        )) by {
            if i < front.len() {
                if before.left.contains(front[i]) {
                    let k = choose|k: int| 0 <= k < before.left.len() && before.left[k] == front[i];
                    assert(parts.left[k] == tree[i]);
                } else {
                    let k = choose|k: int|
                        0 <= k < before.taken.len() && before.taken[k] == front[i];
                    assert(parts.taken[k] == tree[i]);
                }
            } else if unlink_selects(tree.last()) {
                assert(parts.taken[before.taken.len() as int] == tree[i]);
            } else {
                assert(parts.left[before.left.len() as int] == tree[i]);
            }
        }
    }
}

/// Restore parts the store and loses nothing of it: every entry is either
/// taken or left. What is taken is a real image file other than the
/// placeholder. Where Restore does not fail it leaves no such file; where it
/// fails, the entry that it failed on is among those left.
pub proof fn restore_takes_archived_images_only(store: Seq<EntryView>, tree: Seq<EntryView>)
    ensures
        ({
            let parts = restore_parts(store, tree);
            &&& parts.taken.len() + parts.left.len() == store.len()
            &&& forall|i: int|
                0 <= i < store.len() ==> parts.taken.contains(#[trigger] store[i])
                    || parts.left.contains(store[i])
            &&& forall|k: int|
                0 <= k < parts.taken.len() ==> store_selects(#[trigger] parts.taken[k])
            &&& parts.failed is None ==> forall|i: int|
                0 <= i < parts.left.len() ==> !store_selects(#[trigger] parts.left[i])
            &&& parts.failed matches Some(p) ==> exists|i: int|
                0 <= i < parts.left.len() && (#[trigger] parts.left[i]).path == p && store_selects(
                    parts.left[i],
                )
        }),
    decreases store.len(),
{
    if store.len() > 0 {
        let front = store.drop_last();
        let before = restore_parts(front, tree);
        let parts = restore_parts(store, tree);
        restore_takes_archived_images_only(front, tree);
        assert forall|i: int| 0 <= i < store.len() implies parts.taken.contains(
            #[trigger] store[i],
        ) || parts.left.contains(store[i]) by {
            if i < front.len() {
                if before.left.contains(front[i]) {
                    let k = choose|k: int| 0 <= k < before.left.len() && before.left[k] == front[i];
                    assert(parts.left[k] == store[i]);
                } else {
                    let k = choose|k: int|
                        0 <= k < before.taken.len() && before.taken[k] == front[i];
                    assert(parts.taken[k] == store[i]);
                }
            } else if parts.taken.len() > before.taken.len() {
                assert(parts.taken[before.taken.len() as int] == store[i]);
            } else {
                assert(parts.left[before.left.len() as int] == store[i]);
            }
        }
        if before.failed is Some {
            let i = choose|i: int|
                0 <= i < before.left.len() && (#[trigger] before.left[i]).path
                    == before.failed->0 && store_selects(before.left[i]);
            assert(parts.left[i] == before.left[i]);
        } else if parts.failed is Some {
            assert(parts.left[before.left.len() as int] == store.last());
        }
    }
}

} // verus!
