use spg::paths::extension_of;
use spg::paths::image_names;
use spg::paths::is_heic_extension;
use spg::paths::is_recognized_filename;
use spg::paths::is_under;

#[test]
fn known_extensions_are_recognized() {
    for name in ["a.jpg", "a.JPG", "a.jpeg", "a.JPEG", "a.heic", "a.HEIC"] {
        assert!(is_recognized_filename(&format!("/photos/trip/{}", name)), "{}", name);
    }
}

#[test]
fn other_extensions_are_not_recognized() {
    for name in ["a.png", "a.Jpg", "a.jpg.txt", "a.jpe", "a.heif", "a.", "a", "jpg"] {
        assert!(!is_recognized_filename(&format!("/photos/trip/{}", name)), "{}", name);
    }
}

#[test]
fn hidden_files_are_not_recognized() {
    assert!(!is_recognized_filename("/photos/trip/.a.jpg"));
    assert!(!is_recognized_filename("/photos/trip/._IMG_0001.JPG"));
    assert!(!is_recognized_filename("/photos/trip/.jpg"));
    assert!(!is_recognized_filename(".jpg"));
}

#[test]
fn only_the_file_name_decides() {
    assert!(is_recognized_filename("/photos/.hidden/a.jpg"));
    assert!(is_recognized_filename("/photos.d/a.jpg"));
    assert!(!is_recognized_filename("/photos.jpg/a"));
    assert!(is_recognized_filename("a.jpg"));
    assert!(!is_recognized_filename(""));
    assert!(!is_recognized_filename("/photos/trip/"));
}

#[test]
fn extension_is_what_follows_the_last_dot() {
    assert_eq!(extension_of("/a/b.jpg"), Some(String::from("jpg")));
    assert_eq!(extension_of("/a/b.tar.gz"), Some(String::from("gz")));
    assert_eq!(extension_of("/a/b."), Some(String::from("")));
    assert_eq!(extension_of("/a/b"), None);
    assert_eq!(extension_of("/a/.profile"), None);
    assert_eq!(extension_of("/a.b/c"), None);
    assert_eq!(extension_of("/a/.b.c"), Some(String::from("c")));
}

#[test]
fn heic_in_any_case() {
    for e in ["heic", "HEIC", "Heic", "hEiC"] {
        assert!(is_heic_extension(e), "{}", e);
    }
    for e in ["heif", "hei", "heics", "jpg", "", "h\u{116}ic"] {
        assert!(!is_heic_extension(e), "{}", e);
    }
}

#[test]
fn title_and_gallery_come_from_the_path() {
    assert_eq!(
        image_names("/home/me/photos/Summer 2020/IMG_0001.JPG"),
        Some((String::from("IMG_0001"), String::from("Summer 2020")))
    );
    assert_eq!(
        image_names("/a/b.c/d.e.jpg"),
        Some((String::from("d.e"), String::from("b.c")))
    );
    assert_eq!(image_names("/a/noext"), Some((String::from("noext"), String::from("a"))));
    assert_eq!(image_names("/a/.hidden"), Some((String::from(".hidden"), String::from("a"))));
    assert_eq!(image_names("a/b.jpg"), Some((String::from("b"), String::from("a"))));
}

#[test]
fn no_title_or_gallery_without_a_named_directory() {
    assert_eq!(image_names("/b.jpg"), None);
    assert_eq!(image_names("b.jpg"), None);
    assert_eq!(image_names("/a/"), None);
    assert_eq!(image_names(""), None);
    assert_eq!(image_names("/a/.."), None);
    assert_eq!(image_names("/../b.jpg"), None);
    assert_eq!(image_names("/./b.jpg"), None);
    assert_eq!(image_names("//b.jpg"), None);
}

#[test]
fn under_a_root_means_at_or_below_it() {
    assert!(is_under("/photos/a/1.jpg", "/photos/a"));
    assert!(is_under("/photos/a/b/4.jpg", "/photos/a"));
    assert!(is_under("/photos/a/1.jpg", "/photos/a/"));
    assert!(is_under("/photos/a/1.jpg", "/photos/a/1.jpg"));
    assert!(is_under("/photos/a/1.jpg", "/"));
    assert!(is_under("/photos/a/1.jpg", ""));
    assert!(!is_under("/photos/ab/1.jpg", "/photos/a"));
    assert!(!is_under("/photos/a", "/photos/a/1.jpg"));
    assert!(!is_under("/other/1.jpg", "/photos"));
    assert!(!is_under("photos/1.jpg", ""));
}
