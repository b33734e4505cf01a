use std::path::{Path, PathBuf};

use splitype_editor::paste_path::{
    file_path_from_url_parts, file_url_path, is_supported_image_extension, pasted_image_candidate, pasted_image_path_candidates,
};

#[test]
fn candidate_trims_and_unquotes() {
    assert_eq!(pasted_image_candidate("  /tmp/a.png \n").as_deref(), Some("/tmp/a.png"));
    assert_eq!(pasted_image_candidate("\"/tmp/quoted image.png\"").as_deref(), Some("/tmp/quoted image.png"));
    assert_eq!(pasted_image_candidate("\u{3000}file:///tmp/a.png\u{a0}").as_deref(), Some("file:///tmp/a.png"));
    assert_eq!(pasted_image_candidate("\"").as_deref(), Some("\""));
    assert_eq!(pasted_image_candidate("\"\"").as_deref(), Some(""));
    assert_eq!(pasted_image_candidate("\"a.png").as_deref(), Some("\"a.png"));
}

#[test]
fn candidate_rejects_empty_and_multiline() {
    assert_eq!(pasted_image_candidate(""), None);
    assert_eq!(pasted_image_candidate(" \t\r\n "), None);
    assert_eq!(pasted_image_candidate("a.png\nb.png"), None);
    assert_eq!(pasted_image_candidate("a.png\rb.png"), None);
}

#[test]
fn image_extensions_ignore_ascii_case() {
    for ext in ["png", "jpg", "jpeg", "gif", "webp", "svg", "bmp", "tif", "tiff"] {
        assert!(is_supported_image_extension(ext), "{ext}");
        assert!(is_supported_image_extension(&ext.to_uppercase()), "{ext}");
    }
    assert!(is_supported_image_extension("JpEg"));
    assert!(!is_supported_image_extension("txt"));
    assert!(!is_supported_image_extension(""));
    assert!(!is_supported_image_extension("pngx"));
    assert!(!is_supported_image_extension("ṗng"));
}

fn image_path(name: &str) -> PathBuf {
    PathBuf::from(format!("/tmp/splitype-paste/{name}"))
}

fn names_image(path: &Path) -> bool {
    path.extension().and_then(|ext| ext.to_str()).is_some_and(is_supported_image_extension)
}

#[test]
fn paste_image_text_accepts_plain_local_image_path() {
    let path = image_path("copied.png");
    let text = path.to_string_lossy().to_string();
    let (candidate, _) = pasted_image_path_candidates(&text).expect("a candidate");
    assert_eq!(PathBuf::from(candidate), path);
    assert!(names_image(&path));
}

#[test]
fn paste_image_text_accepts_quoted_local_image_path() {
    let path = image_path("quoted image.png");
    let text = format!("\"{}\"", path.display());
    let (candidate, _) = pasted_image_path_candidates(&text).expect("a candidate");
    assert_eq!(PathBuf::from(candidate), path);
}

#[test]
fn paste_image_text_accepts_file_url() {
    let path = image_path("url image.png");
    let url = url::Url::from_file_path(&path).expect("temp image path should form file URL");
    let (candidate, url_path) = pasted_image_path_candidates(url.as_str()).expect("a candidate");
    assert_eq!(candidate, url.as_str());
    assert_eq!(url_path, Some(path));
}

#[test]
fn paste_image_text_rejects_non_image_path() {
    let path = image_path("notes.txt");
    let text = path.to_string_lossy().to_string();
    let (candidate, _) = pasted_image_path_candidates(&text).expect("a candidate");
    assert!(!names_image(Path::new(&candidate)));
}

#[test]
fn only_file_urls_name_a_path() {
    assert_eq!(file_url_path("https://example.com/a.png"), None);
    assert_eq!(file_url_path("not a url"), None);
    assert_eq!(pasted_image_path_candidates("  "), None);
}

#[test]
fn url_parts_name_a_path_only_for_the_file_scheme() {
    assert_eq!(
        file_path_from_url_parts(Some(("file".to_string(), Some(PathBuf::from("/tmp/a.png"))))),
        Some(PathBuf::from("/tmp/a.png"))
    );
    assert_eq!(file_path_from_url_parts(Some(("https".to_string(), Some(PathBuf::from("/tmp/a.png"))))), None);
    assert_eq!(file_path_from_url_parts(Some(("file".to_string(), None))), None);
    assert_eq!(file_path_from_url_parts(None), None);
}

#[test]
fn candidate_trims_unicode_white_space() {
    assert_eq!(pasted_image_candidate("\u{3000}\u{a0}/tmp/a.png\u{2003}\t").as_deref(), Some("/tmp/a.png"));
    assert_eq!(pasted_image_candidate("\u{85}\u{2028}"), None);
}
