use latexoptimizer::entry::{Action, Entry, Failure, Node};
use latexoptimizer::placeholder::placeholder_image;
use latexoptimizer::workspace::{Shown, Workspace};

fn plain(path: &str, data: &[u8]) -> Entry {
    Entry { path: path.to_string(), node: Node::File { data: data.to_vec() } }
}

fn pointer(path: &str) -> Entry {
    Entry {
        path: path.to_string(),
        node: Node::Symlink { target: ".latexoptimizer/placeholder.png".to_string() },
    }
}

fn folder(path: &str) -> Entry {
    Entry { path: path.to_string(), node: Node::Directory }
}

fn grey() -> Entry {
    plain(".latexoptimizer/placeholder.png", &placeholder_image().unwrap())
}

fn write_grey() -> Action {
    Action::WritePlaceholder {
        path: ".latexoptimizer/placeholder.png".to_string(),
        data: placeholder_image().unwrap(),
    }
}

fn relocate(from: &str, to: &str) -> Action {
    Action::Relocate { from: from.to_string(), to: to.to_string() }
}

fn point(at: &str) -> Action {
    Action::Link { target: ".latexoptimizer/placeholder.png".to_string(), link: at.to_string() }
}

fn after_init_with_photo() -> Workspace {
    let mut ws = Workspace::new(vec![plain("./photo.png", b"original bytes")], None);
    assert_eq!(ws.init(), Ok(()));
    ws.journal.clear();
    ws
}

#[test]
fn init_on_an_empty_tree_makes_a_store_with_the_placeholder_only() {
    let mut ws = Workspace::new(vec![], None);
    assert_eq!(ws.init(), Ok(()));
    assert!(ws.store_exists());
    assert_eq!(ws.store, Some(vec![grey()]));
    assert_eq!(ws.tree, vec![]);
    assert_eq!(ws.journal, vec![Action::CreateStore, write_grey()]);
}

#[test]
fn init_on_a_tree_without_images_leaves_the_tree_alone() {
    let tree = vec![folder("."), plain("./paper.tex", b"tex"), folder("./sections")];
    let mut ws = Workspace::new(tree.clone(), None);
    assert_eq!(ws.init(), Ok(()));
    assert_eq!(ws.tree, tree);
    assert_eq!(ws.store, Some(vec![grey()]));
}

#[test]
fn init_archives_a_photo_and_links_it() {
    let mut ws = Workspace::new(vec![plain("./photo.png", b"original bytes")], None);
    assert_eq!(ws.init(), Ok(()));
    assert_eq!(
        ws.store,
        Some(vec![grey(), plain(".latexoptimizer/photo.png", b"original bytes")])
    );
    assert_eq!(ws.tree, vec![pointer("./photo.png")]);
    assert_eq!(
        ws.journal,
        vec![
            Action::CreateStore,
            write_grey(),
            relocate("./photo.png", ".latexoptimizer/photo.png"),
            point("./photo.png"),
        ]
    );
}

#[test]
fn init_keeps_a_placeholder_that_is_there() {
    let mut ws = Workspace::new(
        vec![plain("./photo.png", b"p")],
        Some(vec![plain(".latexoptimizer/placeholder.png", b"hand made")]),
    );
    assert_eq!(ws.init(), Ok(()));
    assert_eq!(
        ws.store,
        Some(vec![
            plain(".latexoptimizer/placeholder.png", b"hand made"),
            plain(".latexoptimizer/photo.png", b"p"),
        ])
    );
    assert_eq!(
        ws.journal,
        vec![
            Action::CreateStore,
            relocate("./photo.png", ".latexoptimizer/photo.png"),
            point("./photo.png"),
        ]
    );
}

#[test]
fn init_twice_changes_nothing_more() {
    let mut ws = after_init_with_photo();
    let before = ws.clone();
    assert_eq!(ws.init(), Ok(()));
    assert_eq!(ws.tree, before.tree);
    assert_eq!(ws.store, before.store);
    assert_eq!(ws.journal, vec![Action::CreateStore]);
}

#[test]
fn update_archives_and_links_a_new_image() {
    let mut ws = after_init_with_photo();
    ws.tree.push(plain("./diagram.jpg", b"diagram"));
    assert_eq!(ws.update(), Ok(()));
    assert_eq!(
        ws.store,
        Some(vec![
            grey(),
            plain(".latexoptimizer/photo.png", b"original bytes"),
            plain(".latexoptimizer/diagram.jpg", b"diagram"),
        ])
    );
    assert_eq!(ws.tree, vec![pointer("./photo.png"), pointer("./diagram.jpg")]);
    assert_eq!(
        ws.journal,
        vec![relocate("./diagram.jpg", ".latexoptimizer/diagram.jpg"), point("./diagram.jpg")]
    );
}

#[test]
fn update_with_nothing_new_changes_nothing() {
    let mut ws = after_init_with_photo();
    let before = ws.clone();
    assert_eq!(ws.update(), Ok(()));
    assert_eq!(ws, before);
}

#[test]
fn update_without_a_store_fails_at_the_first_image() {
    let mut ws = Workspace::new(vec![plain("./photo.png", b"p"), plain("./b.gif", b"b")], None);
    let before = ws.clone();
    assert_eq!(ws.update(), Err(Failure::Move { path: "./photo.png".to_string() }));
    assert_eq!(ws, before);
}

#[test]
fn update_without_a_store_and_without_images_succeeds() {
    let mut ws = Workspace::new(vec![plain("./paper.tex", b"t")], None);
    let before = ws.clone();
    assert_eq!(ws.update(), Ok(()));
    assert_eq!(ws, before);
}

#[test]
fn switch_brings_the_original_back() {
    let mut ws = after_init_with_photo();
    assert_eq!(ws.switch(), Ok(Shown::Originals));
    assert_eq!(ws.tree, vec![plain("./photo.png", b"original bytes")]);
    assert_eq!(ws.store, Some(vec![grey()]));
    assert_eq!(
        ws.journal,
        vec![
            Action::Remove { path: "./photo.png".to_string() },
            relocate(".latexoptimizer/photo.png", "./photo.png"),
        ]
    );
}

#[test]
fn switch_after_switch_still_finds_the_store() {
    // No operation removes the store, so the second switch takes the same
    // branch as the first and finds nothing left to do. It does not go back
    // to placeholders.
    let mut ws = after_init_with_photo();
    assert_eq!(ws.switch(), Ok(Shown::Originals));
    ws.journal.clear();
    let before = ws.clone();
    assert!(ws.store_exists());
    assert_eq!(ws.switch(), Ok(Shown::Originals));
    assert_eq!(ws, before);
}

#[test]
fn switch_without_a_store_reports_placeholders_and_changes_nothing() {
    let mut ws = Workspace::new(vec![plain("./photo.png", b"p")], None);
    let before = ws.clone();
    assert_eq!(ws.switch(), Ok(Shown::Placeholders));
    assert_eq!(ws, before);
}

#[test]
fn switch_fails_where_a_directory_holds_the_slot() {
    let mut ws = Workspace::new(
        vec![folder("./photo.png")],
        Some(vec![plain(".latexoptimizer/photo.png", b"p")]),
    );
    let before = ws.clone();
    assert_eq!(
        ws.switch(),
        Err(Failure::Restore { path: ".latexoptimizer/photo.png".to_string() })
    );
    assert_eq!(ws, before);
}

#[test]
fn update_after_switch_hides_the_images_again() {
    let mut ws = after_init_with_photo();
    assert_eq!(ws.switch(), Ok(Shown::Originals));
    ws.journal.clear();
    assert_eq!(ws.update(), Ok(()));
    assert_eq!(ws.tree, vec![pointer("./photo.png")]);
    assert_eq!(
        ws.store,
        Some(vec![grey(), plain(".latexoptimizer/photo.png", b"original bytes")])
    );
}
