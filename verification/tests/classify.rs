use latexoptimizer::paths::{
    file_name, in_hidden_store, is_image_file, placeholder_path, store_path, tree_path,
    HIDDEN_FOLDER, PLACEHOLDER_IMAGE,
};
use std::path::Path;

fn std_file_name(path: &str) -> Option<String> {
    Path::new(path).file_name().and_then(|s| s.to_str()).map(str::to_string)
}

fn std_says_image(path: &str) -> bool {
    matches!(
        Path::new(path).extension().and_then(|s| s.to_str()),
        Some("png" | "jpg" | "jpeg" | "gif" | "bmp")
    )
}

#[test]
fn recognised_extensions_are_images() {
    assert!(is_image_file("photo.png"));
    assert!(is_image_file("photo.jpg"));
    assert!(is_image_file("photo.jpeg"));
    assert!(is_image_file("photo.gif"));
    assert!(is_image_file("photo.bmp"));
}

#[test]
fn other_extensions_are_not_images() {
    assert!(!is_image_file("paper.tex"));
    assert!(!is_image_file("paper.pdf"));
    assert!(!is_image_file("photo.tiff"));
    assert!(!is_image_file("photo.svg"));
    assert!(!is_image_file("photo.pn"));
    assert!(!is_image_file("photo.pngx"));
    assert!(!is_image_file("photo.jpe"));
    assert!(!is_image_file("photo.jpegs"));
    assert!(!is_image_file("photo.g"));
    assert!(!is_image_file("photo."));
}

#[test]
fn extension_is_case_sensitive() {
    assert!(!is_image_file("photo.PNG"));
    assert!(!is_image_file("photo.Png"));
    assert!(!is_image_file("photo.JPG"));
    assert!(!is_image_file("photo.Jpeg"));
    assert!(!is_image_file("photo.GIF"));
    assert!(!is_image_file("photo.bmP"));
}

#[test]
fn only_the_last_extension_counts() {
    assert!(is_image_file("archive.tar.png"));
    assert!(!is_image_file("photo.png.bak"));
    assert!(is_image_file("a.b.c.jpeg"));
    assert!(is_image_file("..png"));
}

#[test]
fn a_name_without_extension_is_no_image() {
    assert!(!is_image_file(""));
    assert!(!is_image_file("png"));
    assert!(!is_image_file("photo"));
    assert!(!is_image_file(".png"));
    assert!(!is_image_file("dir/.gif"));
    assert!(!is_image_file(".latexoptimizer"));
}

#[test]
fn the_directory_part_does_not_count() {
    assert!(is_image_file("./photo.png"));
    assert!(is_image_file("./figures/plots/photo.bmp"));
    assert!(is_image_file("/abs/path/photo.gif"));
    assert!(!is_image_file("./figures.png/notes"));
    assert!(!is_image_file("./figures.png/notes.txt"));
    assert!(is_image_file("./figures.txt/notes.jpg"));
}

#[test]
fn separators_and_dots_at_the_end_do_not_count() {
    assert!(is_image_file("photo.png/"));
    assert!(is_image_file("photo.png//"));
    assert!(is_image_file("photo.png/."));
    assert!(is_image_file("photo.png/./"));
    assert!(is_image_file("./figures.png/"));
    assert!(is_image_file("./a/photo.gif/././/"));
    assert!(!is_image_file("notes.txt/"));
    assert!(!is_image_file("photo.png/.."));
    assert!(!is_image_file("photo.png/../"));
    assert!(!is_image_file("photo.png/notes/"));
    assert!(!is_image_file("photo.png."));
    assert!(!is_image_file("photo.png.."));
}

#[test]
fn a_path_without_a_file_name_is_no_image() {
    assert!(!is_image_file(""));
    assert!(!is_image_file("."));
    assert!(!is_image_file(".."));
    assert!(!is_image_file("/"));
    assert!(!is_image_file("//"));
    assert!(!is_image_file("./"));
    assert!(!is_image_file("./."));
    assert!(!is_image_file("/.."));
    assert!(!is_image_file("a.png/.."));
}

#[test]
fn non_ascii_names_are_classified_by_their_extension() {
    assert!(is_image_file("./Übersicht/größe.png"));
    assert!(is_image_file("図.jpeg"));
    assert!(!is_image_file("図.jpég"));
    assert!(!is_image_file("photo.png\u{301}"));
}

fn sample_paths() -> Vec<&'static str> {
    vec![
        "",
        ".",
        "..",
        "...",
        "/",
        "//",
        "./",
        "./.",
        "../",
        "/.",
        "/..",
        "./photo.png",
        "./photo.PNG",
        "photo.png/",
        "photo.png//",
        "photo.png/.",
        "photo.png/./",
        "photo.png/..",
        "photo.png/../",
        "photo.png/./..",
        "photo.png/.hidden",
        "photo.png/..jpg",
        "photo.png.",
        "photo.png..",
        "photo.png./",
        "./a/b/c.jpeg",
        "./a/./b.gif",
        "./a//b.gif",
        "./a/../b.bmp",
        "./a.b/c",
        "./a.png/c.txt",
        "./.hidden",
        "./.hidden.gif",
        "./.png",
        "./..png",
        "./x.",
        "./x..bmp",
        "/abs/photo.jpg",
        "/abs/photo.jpg/",
        "/.png",
        "./.latexoptimizer",
        "./.latexoptimizer/",
        "./.latexoptimizer/placeholder.png",
        ".latexoptimizer/photo.jpg",
        "./notes.txt",
        "./Makefile",
        "./été.png",
        "./été.png/",
        "./y.jpg.jpg",
        "./z.gif ",
        "a/.",
        "a/./",
        "a/..",
        "a./",
        "a../",
        ".a",
        "..a",
        "a/b",
        "a/b/",
        "a/b/.",
        "a/b//.//",
    ]
}

#[test]
fn classification_agrees_with_std() {
    for p in sample_paths() {
        assert_eq!(is_image_file(p), std_says_image(p), "{:?}", p);
    }
}

#[test]
fn file_name_agrees_with_std() {
    for p in sample_paths() {
        assert_eq!(file_name(p), std_file_name(p), "{:?}", p);
    }
}

#[test]
fn file_name_is_the_last_component() {
    assert_eq!(file_name("./photo.png"), Some("photo.png".to_string()));
    assert_eq!(file_name("./a/b/c.jpeg"), Some("c.jpeg".to_string()));
    assert_eq!(file_name("photo.png"), Some("photo.png".to_string()));
    assert_eq!(file_name(".latexoptimizer/x.gif"), Some("x.gif".to_string()));
    assert_eq!(file_name("./é/ü.png"), Some("ü.png".to_string()));
    assert_eq!(file_name("./a/"), Some("a".to_string()));
    assert_eq!(file_name("./a//"), Some("a".to_string()));
    assert_eq!(file_name("./a/."), Some("a".to_string()));
    assert_eq!(file_name("./a/./"), Some("a".to_string()));
    assert_eq!(file_name("./a."), Some("a.".to_string()));
    assert_eq!(file_name("./..."), Some("...".to_string()));
    assert_eq!(file_name("./.hidden"), Some(".hidden".to_string()));
}

#[test]
fn some_paths_have_no_file_name() {
    assert_eq!(file_name(""), None);
    assert_eq!(file_name("/"), None);
    assert_eq!(file_name("//"), None);
    assert_eq!(file_name("."), None);
    assert_eq!(file_name("./"), None);
    assert_eq!(file_name("./."), None);
    assert_eq!(file_name(".."), None);
    assert_eq!(file_name("a/.."), None);
    assert_eq!(file_name("a/../"), None);
    assert_eq!(file_name("a/.././"), None);
}

#[test]
fn reserved_names_are_fixed() {
    assert_eq!(HIDDEN_FOLDER, ".latexoptimizer");
    assert_eq!(PLACEHOLDER_IMAGE, "placeholder.png");
}

#[test]
fn slots_are_built_from_the_name() {
    assert_eq!(store_path("photo.png"), ".latexoptimizer/photo.png");
    assert_eq!(tree_path("photo.png"), "./photo.png");
    assert_eq!(store_path(""), ".latexoptimizer/");
    assert_eq!(tree_path(""), "./");
    assert_eq!(placeholder_path(), ".latexoptimizer/placeholder.png");
    assert_eq!(file_name(&store_path("photo.png")), Some("photo.png".to_string()));
    assert_eq!(file_name(&tree_path("photo.png")), Some("photo.png".to_string()));
}

#[test]
fn the_store_and_what_is_in_it_lie_in_the_store() {
    assert!(in_hidden_store(".latexoptimizer"));
    assert!(in_hidden_store("./.latexoptimizer"));
    assert!(in_hidden_store(".latexoptimizer/photo.png"));
    assert!(in_hidden_store("./.latexoptimizer/photo.png"));
    assert!(in_hidden_store("./.latexoptimizer/sub/photo.png"));
    assert!(in_hidden_store(".latexoptimizer/"));
    assert!(in_hidden_store(&placeholder_path()));
    assert!(in_hidden_store(&store_path("x.gif")));
}

#[test]
fn everything_else_lies_outside_the_store() {
    assert!(!in_hidden_store(""));
    assert!(!in_hidden_store("."));
    assert!(!in_hidden_store("./"));
    assert!(!in_hidden_store("./photo.png"));
    assert!(!in_hidden_store("./.latexoptimizer2/photo.png"));
    assert!(!in_hidden_store("./.latexoptimize"));
    assert!(!in_hidden_store("./sub/.latexoptimizer/photo.png"));
    assert!(!in_hidden_store("././.latexoptimizer"));
    assert!(!in_hidden_store("/.latexoptimizer"));
    assert!(!in_hidden_store(&tree_path("photo.png")));
    assert!(!in_hidden_store(&tree_path("placeholder.png")));
}

#[test]
fn the_placeholder_bears_an_image_name() {
    assert!(is_image_file(PLACEHOLDER_IMAGE));
    assert!(is_image_file(&placeholder_path()));
    assert!(!is_image_file(HIDDEN_FOLDER));
}
