use download_engine::filename::{extract_filename_from_url, parse_content_disposition, resolve_filename, unescape_quoted_string};

#[test]
fn extended_filename_is_percent_decoded() {
    assert_eq!(
        parse_content_disposition("attachment; filename*=UTF-8''r%C3%A9sum%C3%A9.pdf"),
        Some("résumé.pdf".to_string())
    );
}

#[test]
fn extended_filename_wins_over_plain() {
    assert_eq!(
        parse_content_disposition("attachment; filename=\"plain.txt\"; filename*=UTF-8''fancy%20name.txt"),
        Some("fancy name.txt".to_string())
    );
}

#[test]
fn quoted_filename_is_unescaped() {
    assert_eq!(
        parse_content_disposition(r#"attachment; filename="a \"quoted\" name.iso"; size=3"#),
        Some("a \"quoted\" name.iso".to_string())
    );
    assert_eq!(parse_content_disposition(r#"attachment; filename="unterminated"#), None);
}

#[test]
fn unquoted_filename_is_trimmed_and_decoded() {
    assert_eq!(parse_content_disposition("attachment; filename= my%20file.zip ; x=1"), Some("my file.zip".to_string()));
    assert_eq!(parse_content_disposition("attachment; filename=bad%FF.bin"), Some("bad%FF.bin".to_string()));
    assert_eq!(parse_content_disposition("inline"), None);
}

#[test]
fn unescape_rules() {
    assert_eq!(unescape_quoted_string(r#"a\"b\\c\d\"#), "a\"b\\c\\d\\");
    assert_eq!(unescape_quoted_string(""), "");
}

#[test]
fn filename_from_url_path() {
    assert_eq!(extract_filename_from_url("https://example.com/files/Win%20PE.iso?x=1"), Some("Win PE.iso".to_string()));
    assert_eq!(extract_filename_from_url("https://example.com/files/"), Some("files".to_string()));
    assert_eq!(extract_filename_from_url("https://h/dir/file.iso//"), Some("file.iso".to_string()));
    assert_eq!(extract_filename_from_url("https://h/"), None);
    assert_eq!(extract_filename_from_url("https://h//"), None);
    assert_eq!(extract_filename_from_url("not a url"), None);
}

#[test]
fn resolve_falls_back_in_order() {
    assert_eq!(resolve_filename(Some("attachment; filename=\"x.bin\""), "https://h/y.bin"), "x.bin");
    assert_eq!(resolve_filename(None, "https://h/dir/y.bin"), "y.bin");
    assert_eq!(resolve_filename(Some("attachment; filename=\"\""), "https://h/y.bin"), "y.bin");
    assert_eq!(resolve_filename(None, "https://h/"), "download");
}
