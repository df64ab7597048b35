use aliyun_tools::error::ToolError;
use aliyun_tools::options::RefreshType;
use aliyun_tools::urls::parse_refresh_urls;

#[test]
fn parses_directory_urls_with_trailing_slashes() {
    let urls = parse_refresh_urls(
        "https://example.com/a, https://example.com/b/",
        &RefreshType::Directory,
    )
    .unwrap();

    assert_eq!(
        urls,
        vec![
            "https://example.com/a/".to_string(),
            "https://example.com/b/".to_string()
        ]
    );
}

#[test]
fn rejects_empty_refresh_urls() {
    assert!(parse_refresh_urls(" , ", &RefreshType::File).is_err());
}

#[test]
fn says_that_a_url_is_needed() {
    for text in ["", ",", " \t\n", ",,\u{3000},"] {
        let error = parse_refresh_urls(text, &RefreshType::Directory).unwrap_err();
        assert!(matches!(error, ToolError::NoUrls));
        assert_eq!(error.message(), "--urls must include at least one URL");
    }
}

#[test]
fn leaves_file_urls_as_they_are() {
    let urls = parse_refresh_urls(",a b ,,\u{a0}/\u{2003}, c//,", &RefreshType::File).unwrap();
    assert_eq!(urls, vec!["a b".to_string(), "/".to_string(), "c//".to_string()]);
    let urls = parse_refresh_urls(",a b ,,\u{a0}/\u{2003}, c//,", &RefreshType::Directory).unwrap();
    assert_eq!(urls, vec!["a b/".to_string(), "/".to_string(), "c//".to_string()]);
}

#[test]
fn trims_the_white_space_of_unicode() {
    for code in 0..=0x10_ffffu32 {
        if let Some(c) = char::from_u32(code) {
            let text = format!("{c}x{c}");
            let expected: Vec<String> = text
                .split(',')
                .map(str::trim)
                .filter(|url| !url.is_empty())
                .map(ToString::to_string)
                .collect();
            assert_eq!(parse_refresh_urls(&text, &RefreshType::File).unwrap(), expected);
        }
    }
}

#[test]
fn reads_its_own_urls_again() {
    for refresh_type in [RefreshType::File, RefreshType::Directory] {
        let urls = parse_refresh_urls(" a ,b/, \u{e9} ,, c d", &refresh_type).unwrap();
        assert_eq!(urls.len(), 4);
        let again = parse_refresh_urls(&urls.join(","), &refresh_type).unwrap();
        assert_eq!(again, urls);
    }
}

#[test]
fn directories_are_files_with_slashes() {
    let text = " a ,b/,, c";
    let files = parse_refresh_urls(text, &RefreshType::File).unwrap();
    let directories = parse_refresh_urls(text, &RefreshType::Directory).unwrap();
    assert_eq!(files.len(), directories.len());
    for (file, directory) in files.iter().zip(&directories) {
        assert_eq!(file.trim_end_matches('/'), directory.trim_end_matches('/'));
        assert!(directory.ends_with('/'));
    }
}
