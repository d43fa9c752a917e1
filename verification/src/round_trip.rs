//! The round trip through the hidden store: Archive, Link, Unlink and
//! Restore, one after another, bring every file back.

use crate::effects::{archive_takes_what_the_store_has_room_for, lemma_found_in_longer};
use crate::entry::EntryView;
use crate::laws::{lemma_link_of_filled, lemma_restore_of_unselected, lemma_unlink_of_unselected};
use crate::model::{
    archive_parts, archive_selects, has_path, new_links, placeholder_link, restore_parts,
    restored, store_selects, store_slot, stored, tree_slot, unlink_parts, unlink_selects,
    without_path, Parted, Returned, WorkspaceView,
};
use crate::paths::{
    name_of, lemma_file_name_is_a_name, lemma_reserved_names_as_files, lemma_slot_file_names,
    lemma_slots_differ, lemma_tree_path_outside_store, placeholder_path_of, PLACEHOLDER_IMAGE,
};
use vstd::prelude::*;

verus! {

/// What the round trip needs of the entries `taken` that Archive moved out
/// of a tree, of the entries `left` in it, and of the `store` as it was.
spec fn returnable(taken: Seq<EntryView>, left: Seq<EntryView>, store: Seq<EntryView>) -> bool {
    &&& forall|i: int| 0 <= i < store.len() ==> !store_selects(#[trigger] store[i])
    &&& forall|i: int| 0 <= i < left.len() ==> !unlink_selects(#[trigger] left[i])
    &&& forall|k: int|
        0 <= k < taken.len() ==> archive_selects(#[trigger] taken[k]) && name_of(
            taken[k].path,
        ) != PLACEHOLDER_IMAGE@
    &&& forall|j: int, k: int|
        0 <= j < k < taken.len() ==> store_slot(#[trigger] taken[j]) != store_slot(
            #[trigger] taken[k],
        )
    &&& forall|i: int, k: int|
        0 <= i < left.len() && 0 <= k < taken.len() ==> (#[trigger] left[i]).path != tree_slot(
            #[trigger] taken[k],
        )
}

/// Returnability passes to the taken entries without the last one, and the
/// last one, once stored, is one that Link and Restore select; the link made
/// for it is one that Unlink selects.
proof fn lemma_returnable_last(taken: Seq<EntryView>, left: Seq<EntryView>, store: Seq<EntryView>)
    requires
        returnable(taken, left, store),
        taken.len() > 0,
    ensures
        returnable(taken.drop_last(), left, store),
        store_selects(stored(taken.last())),
        tree_slot(stored(taken.last())) == tree_slot(taken.last()),
        restored(stored(taken.last())) == restored(taken.last()),
        unlink_selects(placeholder_link(tree_slot(taken.last()))),
        forall|k: int|
            0 <= k < taken.len() - 1 ==> tree_slot(#[trigger] taken[k]) != tree_slot(taken.last()),
        forall|i: int| 0 <= i < left.len() ==> (#[trigger] left[i]).path != tree_slot(taken.last()),
{
    let front = taken.drop_last();
    let e = taken.last();
    let name = name_of(e.path);
    assert(forall|k: int| 0 <= k < front.len() ==> front[k] == taken[k]);
    lemma_file_name_is_a_name(e.path);
    lemma_slot_file_names(name);
    lemma_reserved_names_as_files();
    lemma_tree_path_outside_store(name);
    assert forall|k: int| 0 <= k < taken.len() - 1 implies tree_slot(#[trigger] taken[k])
        != tree_slot(e) by {
        lemma_slots_differ(name_of(taken[k].path), name);
    }
}

/// Link gives each returnable entry a link at its slot.
proof fn lemma_link_serves_all(taken: Seq<EntryView>, left: Seq<EntryView>, store: Seq<EntryView>)
    requires
        returnable(taken, left, store),
    ensures
        new_links(store + taken.map_values(|x: EntryView| stored(x)), left) == taken.map_values(
            |x: EntryView| tree_slot(x),
        ),
    decreases taken.len(),
{
    let all = store + taken.map_values(|x: EntryView| stored(x));
    if taken.len() > 0 {
        let front = taken.drop_last();
        let slot = tree_slot(taken.last());
        let before = front.map_values(|x: EntryView| tree_slot(x));
        lemma_returnable_last(taken, left, store);
        lemma_link_serves_all(front, left, store);
        assert(all.drop_last() =~= store + front.map_values(|x: EntryView| stored(x)));
        assert(!before.contains(slot)) by {
            if before.contains(slot) {
                let k = choose|k: int| 0 <= k < before.len() && before[k] == slot;
                assert(front[k] == taken[k]);
            }
        }
        assert(before.push(slot) =~= taken.map_values(|x: EntryView| tree_slot(x)));
    } else {
        assert(all =~= store);
        lemma_link_of_filled(store, left);
    }
}

/// Unlink takes every link that was made for a returnable entry, and
/// nothing else.
proof fn lemma_unlink_takes_links(taken: Seq<EntryView>, left: Seq<EntryView>, store: Seq<EntryView>)
    requires
        returnable(taken, left, store),
    ensures
        unlink_parts(
            left + taken.map_values(|x: EntryView| placeholder_link(tree_slot(x))),
        ).left == left,
    decreases taken.len(),
{
    let links = taken.map_values(|x: EntryView| placeholder_link(tree_slot(x)));
    if taken.len() > 0 {
        let front = taken.drop_last();
        lemma_returnable_last(taken, left, store);
        lemma_unlink_takes_links(front, left, store);
        assert((left + links).drop_last() =~= left + front.map_values(
            |x: EntryView| placeholder_link(tree_slot(x)),
        ));
    } else {
        assert(left + links =~= left);
        lemma_unlink_of_unselected(left);
    }
}

/// Nothing sits at `p`, so nothing goes when `p` is cleared.
proof fn lemma_without_absent_path(s: Seq<EntryView>, p: Seq<char>)
    requires
        !has_path(s, p),
    ensures
        without_path(s, p) == s,
    decreases s.len(),
{
    if s.len() > 0 {
        let front = s.drop_last();
        assert(s[s.len() - 1].path != p);
        assert(!has_path(front, p)) by {
            if has_path(front, p) {
                lemma_found_in_longer(front, s, p);
            }
        }
        lemma_without_absent_path(front, p);
        assert(front.push(s.last()) =~= s);
    }
}

/// Restore brings back each returnable entry, after what was left in the
/// tree, and leaves the store as it was before Archive.
proof fn lemma_restore_returns_all(
    taken: Seq<EntryView>,
    left: Seq<EntryView>,
    store: Seq<EntryView>,
)
    requires
        returnable(taken, left, store),
    ensures
        restore_parts(store + taken.map_values(|x: EntryView| stored(x)), left) == (Returned {
            taken: taken.map_values(|x: EntryView| stored(x)),
            left: store,
            tree: left + taken.map_values(|x: EntryView| restored(x)),
            failed: None,
        }),
    decreases taken.len(),
{
    let all = store + taken.map_values(|x: EntryView| stored(x));
    if taken.len() > 0 {
        let front = taken.drop_last();
        let e = taken.last();
        let slot = tree_slot(e);
        let back = left + front.map_values(|x: EntryView| restored(x));
        lemma_returnable_last(taken, left, store);
        lemma_restore_returns_all(front, left, store);
        assert(all.drop_last() =~= store + front.map_values(|x: EntryView| stored(x)));
        assert(!has_path(back, slot)) by {
            if has_path(back, slot) {
                let k = choose|k: int| 0 <= k < back.len() && (#[trigger] back[k]).path == slot;
                if k >= left.len() {
                    assert(front[k - left.len()] == taken[k - left.len()]);
                }
            }
        }
        lemma_without_absent_path(back, slot);
        assert(front.map_values(|x: EntryView| stored(x)).push(stored(e)) =~= taken.map_values(
            |x: EntryView| stored(x),
        ));
        assert(back.push(restored(e)) =~= left + taken.map_values(|x: EntryView| restored(x)));
    } else {
        assert(all =~= store);
        lemma_restore_of_unselected(store, left);
        assert(taken.map_values(|x: EntryView| stored(x)) =~= Seq::<EntryView>::empty());
        assert(left + taken.map_values(|x: EntryView| restored(x)) =~= left);
    }
}

/// A workspace set for the round trip through the store. The store exists
/// and holds nothing for Restore to take. Of what Archive takes from the
/// tree, nothing bears the placeholder's name; of what it leaves there,
/// nothing is a link for Unlink to remove, and nothing sits where a taken
/// entry comes back to.
pub open spec fn ready_for_round_trip(s: WorkspaceView) -> bool {
    s.store matches Some(store) && {
        let parts = archive_parts(s.tree, store);
        &&& forall|i: int| 0 <= i < store.len() ==> !store_selects(#[trigger] store[i])
        &&& forall|i: int| 0 <= i < parts.left.len() ==> !unlink_selects(#[trigger] parts.left[i])
        &&& forall|k: int|
            0 <= k < parts.taken.len() ==> name_of((#[trigger] parts.taken[k]).path)
                != PLACEHOLDER_IMAGE@
        &&& forall|i: int, k: int|
            0 <= i < parts.left.len() && 0 <= k < parts.taken.len() ==> (
            #[trigger] parts.left[i]).path != tree_slot(#[trigger] parts.taken[k])
    }
}

/// The round trip. In a workspace that is [`ready_for_round_trip`], Archive,
/// Link, Unlink and Restore in this order succeed and leave the hidden store
/// as it was. In the working tree, what Archive left is where it was, and
/// after it stands every file that Archive took, data unchanged, under its
/// own name at the root of the tree: Archive does not keep the directory
/// that a file came from.
pub proof fn round_trip_restores(s: WorkspaceView)
    requires
        ready_for_round_trip(s),
    ensures
        s.archive_failure() is None,
        s.archive().link().unlink().restore_failure() is None,
        s.archive().link().unlink().restore().store == s.store,
        s.archive().link().unlink().restore().tree == archive_parts(s.tree, s.store->0).left
            + archive_parts(s.tree, s.store->0).taken.map_values(|x: EntryView| restored(x)),
{
    let store = s.store->0;
    let parts = archive_parts(s.tree, store);
    let kept = store + parts.taken.map_values(|x: EntryView| stored(x));
    let links = parts.taken.map_values(|x: EntryView| placeholder_link(tree_slot(x)));
    archive_takes_what_the_store_has_room_for(s.tree, store);
    assert(returnable(parts.taken, parts.left, store));
    assert(s.archive().store == Some(kept));
    lemma_link_serves_all(parts.taken, parts.left, store);
    assert(s.archive().link().tree =~= parts.left + links);
    lemma_unlink_takes_links(parts.taken, parts.left, store);
    assert(s.archive().link().unlink().tree == parts.left);
    lemma_restore_returns_all(parts.taken, parts.left, store);
}

/// Archive takes every entry of a tree of image files with names of their
/// own, none of which is taken in the store.
proof fn lemma_archive_takes_all(tree: Seq<EntryView>, store: Seq<EntryView>)
    requires
        forall|i: int| 0 <= i < tree.len() ==> archive_selects(#[trigger] tree[i]),
        forall|i: int| 0 <= i < tree.len() ==> !has_path(store, store_slot(#[trigger] tree[i])),
        forall|i: int, j: int|
            0 <= i < j < tree.len() ==> name_of((#[trigger] tree[i]).path) != name_of(
                (#[trigger] tree[j]).path,
            ),
    ensures
        archive_parts(tree, store) == (Parted { taken: tree, left: Seq::empty() }),
    decreases tree.len(),
{
    if tree.len() > 0 {
        let front = tree.drop_last();
        let e = tree.last();
        let store_then = store + front.map_values(|x: EntryView| stored(x));
        assert(forall|i: int| 0 <= i < front.len() ==> front[i] == tree[i]);
        lemma_archive_takes_all(front, store);
        assert(!has_path(store_then, store_slot(e))) by {
            if has_path(store_then, store_slot(e)) {
                let i = choose|i: int|
                    0 <= i < store_then.len() && (#[trigger] store_then[i]).path == store_slot(e);
                if i < store.len() {
                    assert(store[i].path == store_slot(e));
                } else {
                    let k = i - store.len();
                    assert(front[k] == tree[k]);
                    lemma_slots_differ(name_of(tree[k].path), name_of(e.path));
                }
            }
        }
        assert(front.push(e) =~= tree);
    } else {
        assert(tree =~= Seq::empty());
    }
}

/// The round trip of a flat tree. Where the hidden store holds the
/// placeholder and nothing for Restore to take, and the working tree holds
/// only real image files, each at the root of the tree under a name of its
/// own that is not taken in the store, Archive, Link, Unlink and Restore in
/// this order succeed and leave the working tree and the hidden store
/// exactly as they were, each file with its data. In between, Archive
/// empties the tree, and Link shows a link for every file.
pub proof fn round_trip_restores_flat_tree(s: WorkspaceView)
    requires
        s.store matches Some(store) && has_path(store, placeholder_path_of()) && (forall|i: int|
            0 <= i < store.len() ==> !store_selects(#[trigger] store[i])) && (forall|i: int|
            0 <= i < s.tree.len() ==> !has_path(store, store_slot(#[trigger] s.tree[i]))),
        forall|i: int|
            0 <= i < s.tree.len() ==> archive_selects(#[trigger] s.tree[i]) && s.tree[i].path
                == tree_slot(s.tree[i]),
        forall|i: int, j: int|
            0 <= i < j < s.tree.len() ==> name_of((#[trigger] s.tree[i]).path)
                != name_of((#[trigger] s.tree[j]).path),
    ensures
        s.archive_failure() is None,
        s.archive().link().unlink().restore_failure() is None,
        s.archive().link().unlink().restore().store == s.store,
        s.archive().link().unlink().restore().tree == s.tree,
        s.archive().tree.len() == 0,
        s.archive().link().tree.len() == s.tree.len(),
{
    let store = s.store->0;
    let parts = archive_parts(s.tree, store);
    lemma_archive_takes_all(s.tree, store);
    assert forall|k: int| 0 <= k < parts.taken.len() implies name_of(
        (#[trigger] parts.taken[k]).path,
    ) != PLACEHOLDER_IMAGE@ by {
        assert(store_slot(s.tree[k]) != placeholder_path_of());
    }
    round_trip_restores(s);
    archive_takes_what_the_store_has_room_for(s.tree, store);
    lemma_link_serves_all(s.tree, Seq::empty(), store);
    assert(parts.left + s.tree.map_values(|x: EntryView| restored(x)) =~= s.tree);
}

} // verus!
