use allviewer::image::{image_extension_of, is_image_file, validate_image_path, FileProbe};

#[test]
fn every_listed_extension_is_an_image() {
    for name in ["a.jpg", "a.jpeg", "a.png", "a.gif", "a.webp", "a.bmp"] {
        assert!(is_image_file(name), "{}", name);
    }
}

#[test]
fn extension_is_matched_in_any_case() {
    assert!(is_image_file("photo.PNG"));
    assert!(is_image_file("photo.JpEg"));
    assert!(is_image_file("PHOTO.WEBP"));
    assert_eq!(image_extension_of("photo.PNG"), Some("png".to_string()));
    assert_eq!(image_extension_of("photo.JpEg"), Some("jpeg".to_string()));
    assert_eq!(image_extension_of("x.Bmp"), Some("bmp".to_string()));
}

#[test]
fn other_extensions_are_no_images() {
    assert!(!is_image_file("note.txt"));
    assert!(!is_image_file("archive.zip"));
    assert!(!is_image_file("photo.pngx"));
    assert!(!is_image_file("photo.pn"));
    assert!(!is_image_file("photo.jpg.bak"));
    assert_eq!(image_extension_of("note.txt"), None);
}

#[test]
fn a_name_without_extension_is_no_image() {
    assert!(!is_image_file(""));
    assert!(!is_image_file("png"));
    assert!(!is_image_file("photo"));
    assert!(!is_image_file("photopng"));
    assert!(!is_image_file("photo."));
}

#[test]
fn a_name_that_is_only_an_extension_is_no_image() {
    assert!(!is_image_file(".png"));
    assert!(!is_image_file(".jpeg"));
    assert!(is_image_file("..png"));
    assert!(is_image_file("a.png"));
}

#[test]
fn only_the_last_extension_counts() {
    assert!(is_image_file("archive.tar.gif"));
    assert!(is_image_file("a.txt.jpg"));
    assert!(!is_image_file("a.jpg.txt"));
}

#[test]
fn names_beyond_ascii_are_handled() {
    assert!(is_image_file("写真.png"));
    assert!(is_image_file("été.JPG"));
    assert!(!is_image_file("photo.pñg"));
    // The Kelvin sign lower-cases to `k` only outside ASCII: it is no letter of any extension.
    assert!(!is_image_file("photo.\u{212A}png"));
}

#[test]
fn a_single_path_is_an_image_when_it_is_a_file_with_an_image_name() {
    let file = FileProbe { exists: true, is_file: true };
    let dir = FileProbe { exists: true, is_file: false };
    let missing = FileProbe { exists: false, is_file: false };
    assert!(validate_image_path("a.png", file));
    assert!(!validate_image_path("a.png", dir));
    assert!(!validate_image_path("a.png", missing));
    assert!(!validate_image_path("a.txt", file));
    assert!(!validate_image_path("a.png", FileProbe { exists: false, is_file: true }));
}

#[test]
fn copy_of_a_record_equals_it() {
    let record = allviewer::image::ImageInfo {
        path: "/a/b.png".to_string(),
        name: "b.png".to_string(),
        size: 12,
        modified: 34,
        extension: "png".to_string(),
    };
    assert_eq!(record.clone(), record);
}
