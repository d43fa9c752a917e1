use latexoptimizer::entry::{Entry, Node};
use latexoptimizer::passes::{
    entry_name, selected_for_archive, selected_for_unlink, selected_in_store,
};

fn a_file(path: &str) -> Entry {
    Entry { path: path.to_string(), node: Node::File { data: vec![1, 2, 3] } }
}

fn a_link(path: &str) -> Entry {
    Entry { path: path.to_string(), node: Node::Symlink { target: "target".to_string() } }
}

fn a_directory(path: &str) -> Entry {
    Entry { path: path.to_string(), node: Node::Directory }
}

#[test]
fn archive_selects_real_image_files_outside_the_store() {
    assert!(selected_for_archive(&a_file("./photo.png")));
    assert!(selected_for_archive(&a_file("./figures/plot.jpeg")));
    assert!(selected_for_archive(&a_file("photo.gif")));
    assert!(selected_for_archive(&a_file("./placeholder.png")));
    assert!(!selected_for_archive(&a_file("./paper.tex")));
    assert!(!selected_for_archive(&a_file("./photo.PNG")));
    assert!(!selected_for_archive(&a_link("./photo.png")));
    assert!(!selected_for_archive(&a_directory("./photo.png")));
    assert!(!selected_for_archive(&a_file("./.latexoptimizer/photo.png")));
    assert!(!selected_for_archive(&a_file(".latexoptimizer/photo.png")));
}

#[test]
fn unlink_selects_links_with_image_names_outside_the_store() {
    assert!(selected_for_unlink(&a_link("./photo.png")));
    assert!(selected_for_unlink(&a_link("./figures/plot.bmp")));
    assert!(selected_for_unlink(&a_link("./placeholder.png")));
    assert!(!selected_for_unlink(&a_link("./paper.tex")));
    assert!(!selected_for_unlink(&a_link("./photo.Jpg")));
    assert!(!selected_for_unlink(&a_file("./photo.png")));
    assert!(!selected_for_unlink(&a_directory("./photo.png")));
    assert!(!selected_for_unlink(&a_link("./.latexoptimizer/photo.png")));
    assert!(!selected_for_unlink(&a_link(".latexoptimizer/photo.png")));
}

#[test]
fn link_and_restore_select_archived_image_files() {
    assert!(selected_in_store(&a_file(".latexoptimizer/photo.png")));
    assert!(selected_in_store(&a_file(".latexoptimizer/sub/plot.gif")));
    assert!(selected_in_store(&a_file("./photo.png")));
    assert!(!selected_in_store(&a_file(".latexoptimizer/notes.txt")));
    assert!(!selected_in_store(&a_file(".latexoptimizer/photo.BMP")));
    assert!(!selected_in_store(&a_link(".latexoptimizer/photo.png")));
    assert!(!selected_in_store(&a_directory(".latexoptimizer/photo.png")));
    assert!(!selected_in_store(&a_directory(".latexoptimizer")));
}

#[test]
fn nothing_selects_the_placeholder() {
    for path in [".latexoptimizer/placeholder.png", "./.latexoptimizer/placeholder.png"] {
        for entry in [a_file(path), a_link(path), a_directory(path)] {
            assert!(!selected_for_archive(&entry));
            assert!(!selected_for_unlink(&entry));
            assert!(!selected_in_store(&entry));
        }
    }
    assert!(!selected_in_store(&a_file(".latexoptimizer/sub/placeholder.png")));
    assert!(!selected_in_store(&a_file("placeholder.png")));
    assert!(selected_in_store(&a_file(".latexoptimizer/placeholder.jpg")));
    assert!(selected_in_store(&a_file(".latexoptimizer/my-placeholder.png")));
}

#[test]
fn an_entry_goes_by_the_last_component_of_its_path() {
    assert_eq!(entry_name(&a_file("./figures/plot.png")), "plot.png");
    assert_eq!(entry_name(&a_file("./figures/plot.png/")), "plot.png");
    assert_eq!(entry_name(&a_directory("./figures/.")), "figures");
    assert_eq!(entry_name(&a_directory(".")), "");
    assert_eq!(entry_name(&a_directory("./figures/..")), "");
    assert_eq!(entry_name(&a_link("")), "");
}

#[test]
fn selection_does_not_count_separators_at_the_end() {
    assert!(selected_for_archive(&a_file("./photo.png/")));
    assert!(selected_for_unlink(&a_link("./photo.png/.")));
    assert!(selected_in_store(&a_file(".latexoptimizer/photo.png//")));
    assert!(!selected_in_store(&a_file(".latexoptimizer/placeholder.png/")));
    assert!(!selected_for_archive(&a_file("./photo.png/..")));
}
