use rdownloader::headers::{parse_content_length, parse_content_range};
use rdownloader::paths::{filename_from_disposition, get_filename_from_path, get_state_path};

#[test]
fn content_range_gives_complete_length() {
    assert_eq!(parse_content_range("bytes 0-1/5242880"), Some(5242880));
    assert_eq!(parse_content_range("bytes 100-199/200"), Some(200));
}

#[test]
fn content_range_first_match_decides() {
    assert_eq!(parse_content_range("x bytes 0-1/7 bytes 0-1/9"), Some(7));
    assert_eq!(parse_content_range("bytes 0-1/123abc"), Some(123));
}

#[test]
fn content_range_without_length_is_none() {
    assert_eq!(parse_content_range("bytes */5"), None);
    assert_eq!(parse_content_range("bytes 0-1/*"), None);
    assert_eq!(parse_content_range(""), None);
    assert_eq!(parse_content_range("bytes 0-1/99999999999999999999"), None);
}

#[test]
fn content_length_reads_like_from_str() {
    assert_eq!(parse_content_length("5242880"), Some(5242880));
    assert_eq!(parse_content_length("+12"), Some(12));
    assert_eq!(parse_content_length("18446744073709551615"), Some(u64::MAX));
    assert_eq!(parse_content_length("18446744073709551616"), None);
    assert_eq!(parse_content_length(""), None);
    assert_eq!(parse_content_length("+"), None);
    assert_eq!(parse_content_length(" 12"), None);
    assert_eq!(parse_content_length("-1"), None);
    assert_eq!(parse_content_length("12a"), None);
}

#[test]
fn state_path_appends_suffix() {
    assert_eq!(get_state_path("/tmp/file.zip"), "/tmp/file.zip.rdownload");
    assert_eq!(get_state_path("out"), "out.rdownload");
}

#[test]
fn file_name_of_url() {
    assert_eq!(get_filename_from_path("https://example.com/dir/file.zip"), Some("file.zip".to_string()));
    assert_eq!(get_filename_from_path("https://example.com/"), Some("example.com".to_string()));
    assert_eq!(get_filename_from_path("a/./"), Some("a".to_string()));
    assert_eq!(get_filename_from_path("dir/.."), None);
    assert_eq!(get_filename_from_path("/"), None);
    assert_eq!(get_filename_from_path(""), None);
    assert_eq!(get_filename_from_path("."), None);
    assert_eq!(get_filename_from_path("name."), Some("name.".to_string()));
}

#[test]
fn file_name_from_disposition() {
    assert_eq!(filename_from_disposition("attachment; filename=\"a.zip\""), Some("a.zip".to_string()));
    assert_eq!(filename_from_disposition("attachment; filename=b.tar.gz; size=3"), Some("b.tar.gz;".to_string()));
    assert_eq!(filename_from_disposition("inline"), None);
    assert_eq!(filename_from_disposition("filename=\"\" filename=c"), Some("c".to_string()));
}
