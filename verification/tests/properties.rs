use latexoptimizer::entry::{Action, Entry, Node};
use latexoptimizer::paths::{is_image_file, placeholder_path};
use latexoptimizer::workspace::Workspace;

fn image(path: &str, data: &[u8]) -> Entry {
    Entry { path: path.to_string(), node: Node::File { data: data.to_vec() } }
}

fn symlink(path: &str, target: &str) -> Entry {
    Entry { path: path.to_string(), node: Node::Symlink { target: target.to_string() } }
}

fn directory(path: &str) -> Entry {
    Entry { path: path.to_string(), node: Node::Directory }
}

fn the_placeholder() -> Entry {
    image(".latexoptimizer/placeholder.png", b"grey")
}

fn mixed_workspace() -> Workspace {
    Workspace::new(
        vec![
            directory("."),
            image("./a.png", b"a"),
            image("./notes.txt", b"n"),
            directory("./sub"),
            image("./sub/b.jpg", b"b"),
            image("./sub/a.png", b"a2"),
            symlink("./c.gif", "elsewhere"),
            image("./d.bmp", b"d"),
        ],
        Some(vec![
            directory(".latexoptimizer"),
            the_placeholder(),
            image(".latexoptimizer/d.bmp", b"old d"),
            image(".latexoptimizer/e.jpeg", b"e"),
        ]),
    )
}

#[test]
fn archive_twice_is_archive_once() {
    let mut once = mixed_workspace();
    assert_eq!(once.archive(), Ok(()));
    let mut twice = once.clone();
    assert_eq!(twice.archive(), Ok(()));
    assert_eq!(twice, once);
    assert_eq!(
        once.store,
        Some(vec![
            directory(".latexoptimizer"),
            the_placeholder(),
            image(".latexoptimizer/d.bmp", b"old d"),
            image(".latexoptimizer/e.jpeg", b"e"),
            image(".latexoptimizer/a.png", b"a"),
            image(".latexoptimizer/b.jpg", b"b"),
        ])
    );
}

#[test]
fn link_twice_is_link_once() {
    let mut once = mixed_workspace();
    once.link();
    let mut twice = once.clone();
    twice.link();
    assert_eq!(twice, once);
    assert_eq!(
        once.journal,
        vec![Action::Link {
            target: ".latexoptimizer/placeholder.png".to_string(),
            link: "./e.jpeg".to_string(),
        }]
    );
}

#[test]
fn unlink_twice_is_unlink_once() {
    let mut once = mixed_workspace();
    once.unlink();
    let mut twice = once.clone();
    twice.unlink();
    assert_eq!(twice, once);
}

#[test]
fn restore_twice_is_restore_once() {
    let mut once = mixed_workspace();
    assert_eq!(once.restore(), Ok(()));
    let mut twice = once.clone();
    assert_eq!(twice.restore(), Ok(()));
    assert_eq!(twice, once);
}

#[test]
fn round_trip_restores_a_flat_tree() {
    let tree =
        vec![image("./a.png", b"alpha"), image("./b.jpg", b"beta"), image("./c.gif", b"gamma")];
    let store = Some(vec![the_placeholder()]);
    let mut ws = Workspace::new(tree.clone(), store.clone());
    assert_eq!(ws.archive(), Ok(()));
    assert_eq!(ws.tree, vec![]);
    ws.link();
    assert_eq!(ws.tree.len(), 3);
    ws.unlink();
    assert_eq!(ws.tree, vec![]);
    assert_eq!(ws.restore(), Ok(()));
    assert_eq!(ws.tree, tree);
    assert_eq!(ws.store, store);
}

#[test]
fn round_trip_brings_nested_files_back_to_the_root() {
    let mut ws = Workspace::new(
        vec![
            directory("."),
            directory("./figures"),
            image("./figures/a.png", b"alpha"),
            image("./paper.tex", b"tex"),
            image("./placeholder.png", b"mine"),
            image("./b.bmp", b"beta"),
        ],
        Some(vec![the_placeholder()]),
    );
    assert_eq!(ws.archive(), Ok(()));
    ws.link();
    ws.unlink();
    assert_eq!(ws.restore(), Ok(()));
    assert_eq!(
        ws.tree,
        vec![
            directory("."),
            directory("./figures"),
            image("./paper.tex", b"tex"),
            image("./placeholder.png", b"mine"),
            image("./a.png", b"alpha"),
            image("./b.bmp", b"beta"),
        ]
    );
    assert_eq!(ws.store, Some(vec![the_placeholder()]));
}

#[test]
fn round_trip_loses_a_file_that_sits_where_another_comes_back_to() {
    // Two files of one name, the second at the root: the first is archived
    // and, on its way back, replaces the second.
    let mut ws = Workspace::new(
        vec![image("./sub/x.png", b"first"), image("./x.png", b"second")],
        Some(vec![the_placeholder()]),
    );
    assert_eq!(ws.archive(), Ok(()));
    ws.link();
    ws.unlink();
    assert_eq!(ws.restore(), Ok(()));
    assert_eq!(ws.tree, vec![image("./x.png", b"first")]);
}

#[test]
fn every_link_made_points_at_the_placeholder() {
    let mut ws = mixed_workspace();
    assert_eq!(ws.archive(), Ok(()));
    let tree_before = ws.tree.clone();
    let journal_before = ws.journal.len();
    ws.link();
    assert_eq!(&ws.tree[..tree_before.len()], &tree_before[..]);
    assert!(ws.tree.len() > tree_before.len());
    for e in &ws.tree[tree_before.len()..] {
        assert_eq!(e.node, Node::Symlink { target: placeholder_path() });
    }
    for a in &ws.journal[journal_before..] {
        match a {
            Action::Link { target, .. } => assert_eq!(*target, placeholder_path()),
            other => panic!("unexpected action {:?}", other),
        }
    }
}

#[test]
fn no_operation_touches_the_placeholder() {
    assert!(is_image_file(&placeholder_path()));
    let mut ws = Workspace::new(
        vec![
            image("./.latexoptimizer/placeholder.png", b"grey"),
            symlink(".latexoptimizer/placeholder.png", "x"),
        ],
        Some(vec![the_placeholder(), symlink(".latexoptimizer/placeholder.png", "x")]),
    );
    let before = ws.clone();
    assert_eq!(ws.archive(), Ok(()));
    ws.link();
    ws.unlink();
    assert_eq!(ws.restore(), Ok(()));
    assert_eq!(ws, before);
}

#[test]
fn store_and_placeholder_outlast_every_command() {
    let mut ws = mixed_workspace();
    assert_eq!(ws.init(), Ok(()));
    assert!(ws.store_exists() && ws.has_placeholder());
    assert!(ws.switch().is_ok());
    assert!(ws.store_exists() && ws.has_placeholder());
    assert_eq!(ws.update(), Ok(()));
    assert!(ws.store_exists() && ws.has_placeholder());
    assert!(ws.switch().is_ok());
    assert!(ws.switch().is_ok());
    assert!(ws.store_exists() && ws.has_placeholder());
}

#[test]
fn update_twice_is_update_once() {
    let mut once = mixed_workspace();
    assert_eq!(once.update(), Ok(()));
    let mut twice = once.clone();
    assert_eq!(twice.update(), Ok(()));
    assert_eq!(twice, once);
}

#[test]
fn init_twice_only_journals_the_store_again() {
    let mut once = mixed_workspace();
    assert_eq!(once.init(), Ok(()));
    let mut twice = once.clone();
    assert_eq!(twice.init(), Ok(()));
    assert_eq!(twice.tree, once.tree);
    assert_eq!(twice.store, once.store);
    let mut journal = once.journal.clone();
    journal.push(Action::CreateStore);
    assert_eq!(twice.journal, journal);
}
