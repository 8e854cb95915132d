use spg::config::Config;
use spg::error::error;
use spg::error::trace;
use spg::error::CommandError;
use spg::gallery::conversion_done;

#[test]
fn error_is_of_the_gallery_itself() {
    match error("file is not in database") {
        CommandError::Other(words) => assert_eq!(words, "file is not in database"),
        other => panic!("expected another kind, got {:?}", other),
    }
}

#[test]
fn message_is_the_words_of_the_failure() {
    assert_eq!(error("went wrong").message(), "went wrong");
    assert_eq!(CommandError::IOError(String::from("no such file")).message(), "no such file");
    assert_eq!(CommandError::ImageError(String::from("bad image")).message(), "bad image");
    assert_eq!(CommandError::Exif(String::from("bad exif")).message(), "bad exif");
}

#[test]
fn trace_sets_a_note_before_the_failure() {
    let traced = trace("adding a.jpg", CommandError::IOError(String::from("no such file")));
    assert_eq!(traced.message(), "adding a.jpg\nno such file");
    match &traced {
        CommandError::Trace(note, cause) => {
            assert_eq!(note, "adding a.jpg");
            assert!(matches!(**cause, CommandError::IOError(_)));
        },
        other => panic!("expected a trace, got {:?}", other),
    }
    let twice = trace("syncing", traced);
    assert_eq!(twice.message(), "syncing\nadding a.jpg\nno such file");
}

#[test]
fn conversion_needs_both_success_and_output() {
    assert!(conversion_done(true, true).is_ok());
    for (exit, output) in [(true, false), (false, true), (false, false)] {
        match conversion_done(exit, output) {
            Err(CommandError::Other(words)) => {
                assert_eq!(words, "could not convert HEIC to JPEG.")
            },
            other => panic!("expected a failure, got {:?}", other),
        }
    }
}

#[test]
fn config_places_the_catalog_in_the_data_directory() {
    let config = Config::new(String::from("/home/me/.spg"));
    assert_eq!(config.data_dir, "/home/me/.spg");
    assert_eq!(config.image_table_path, "/home/me/.spg/image_table.bincode");
}

#[test]
fn config_places_derivatives_under_www_photos() {
    let config = Config::new(String::from("/data"));
    assert_eq!(config.photo_path("ab12-thumbnail.jpg"), "/data/www/photos/ab12-thumbnail.jpg");
    assert_eq!(config.photo_path(""), "/data/www/photos/");
}
