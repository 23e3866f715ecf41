use comic_viewer::image::{
    collect_image_paths, is_supported_file_name, is_supported_image, select_image_paths,
};

#[test]
fn supported_extensions_in_any_case() {
    for name in ["a.png", "b.JPG", "c.Jpeg", "d.webp", "e.GiF", "dir/f.PNG", "dir/p01.PNG", "x.y.webp"] {
        assert!(is_supported_image(name), "{name}");
    }
}

#[test]
fn other_files_are_not_images() {
    for name in ["a.txt", "png", ".png", "dir/.gif", "a.png.bak", "a.pn", "a.", "", "a.pngx", "a.ｐｎｇ"] {
        assert!(!is_supported_image(name), "{name}");
    }
}

#[test]
fn extension_of_dotted_names() {
    assert!(is_supported_file_name("..png"));
    assert!(!is_supported_file_name(".png"));
    assert!(is_supported_file_name("archive.tar.gif"));
}

#[test]
fn trailing_separator_keeps_file_name() {
    assert!(is_supported_image("dir/a.png/"));
    assert!(!is_supported_image("dir/.."));
}

#[test]
fn collect_keeps_images_in_order() {
    let paths: Vec<String> =
        ["/g/03.jpg", "/g/info.txt", "/g/01.PNG", "/g/thumbs.db", "/g/02.webp"].iter().map(|s| s.to_string()).collect();
    assert_eq!(collect_image_paths(&paths), vec!["/g/03.jpg", "/g/01.PNG", "/g/02.webp"]);
    assert!(collect_image_paths(&Vec::new()).is_empty());
}

#[test]
fn select_uses_the_given_file_names() {
    let paths: Vec<String> = ["a", "b", "c"].iter().map(|s| s.to_string()).collect();
    let names = vec![Some("x.gif".to_string()), None, Some("y.doc".to_string())];
    assert_eq!(select_image_paths(&paths, &names), vec!["a"]);
}
