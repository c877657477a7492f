use columnar_ipc::hf::{
    find_link, sort_entries_by_path, HFAPIResponse, HFPathParts, HFRepoLocation, HfError,
};

#[test]
fn test_hf_path_from_uri() {
    let uri = "hf://datasets/pola-rs/polars/README.md";
    let expect = HFPathParts {
        bucket: "datasets".into(),
        repository: "pola-rs/polars".into(),
        revision: "main".into(),
        path: "README.md".into(),
    };

    assert_eq!(HFPathParts::try_from_uri(uri).unwrap(), expect);

    let uri = "hf://spaces/pola-rs/polars@~parquet/";
    let expect = HFPathParts {
        bucket: "spaces".into(),
        repository: "pola-rs/polars".into(),
        revision: "~parquet".into(),
        path: "".into(),
    };

    assert_eq!(HFPathParts::try_from_uri(uri).unwrap(), expect);

    let uri = "hf://spaces/pola-rs/polars@~parquet";
    let expect = HFPathParts {
        bucket: "spaces".into(),
        repository: "pola-rs/polars".into(),
        revision: "~parquet".into(),
        path: "".into(),
    };

    assert_eq!(HFPathParts::try_from_uri(uri).unwrap(), expect);

    for uri in [
        "://",
        "s3://",
        "https://",
        "hf://",
        "hf:///",
        "hf:////",
        "hf://datasets/a",
        "hf://datasets/a/",
        "hf://bucket/a/b/c", // Invalid bucket name
    ] {
        let out = HFPathParts::try_from_uri(uri);
        if out.is_err() {
            continue;
        }
        panic!("expected err result for uri {uri} instead of {out:?}");
    }
}

#[test]
fn test_get_pages_find_next_link() {
    let link = r#"<https://api.github.com/repositories/263727855/issues?page=3>; rel="next", <https://api.github.com/repositories/263727855/issues?page=7>; rel="last""#.as_bytes().to_vec();

    assert_eq!(
        find_link(&link, &"next".as_bytes().to_vec()).map(Result::unwrap),
        Some("https://api.github.com/repositories/263727855/issues?page=3".into()),
    );

    assert_eq!(
        find_link(&link, &"last".as_bytes().to_vec()).map(Result::unwrap),
        Some("https://api.github.com/repositories/263727855/issues?page=7".into()),
    );

    assert_eq!(
        find_link(&link, &"non-existent".as_bytes().to_vec()).map(Result::unwrap),
        None,
    );
}

#[test]
fn repo_location_builds_both_base_uris() {
    let loc = HFRepoLocation::new("datasets", "pola-rs/polars", "main");
    assert_eq!(
        loc.api_base_path,
        "https://huggingface.co/api/datasets/pola-rs/polars/tree/main/"
    );
    assert_eq!(
        loc.download_base_path,
        "https://huggingface.co/datasets/pola-rs/polars/resolve/main/"
    );
    assert_eq!(
        loc.get_file_uri("README.md"),
        "https://huggingface.co/datasets/pola-rs/polars/resolve/main/README.md"
    );
    assert_eq!(
        loc.get_api_uri("data"),
        "https://huggingface.co/api/datasets/pola-rs/polars/tree/main/data"
    );
}

#[test]
fn api_response_classification() {
    let f = HFAPIResponse { type_: "file".into(), path: "a".into(), size: 3 };
    let empty = HFAPIResponse { type_: "file".into(), path: "b".into(), size: 0 };
    let d = HFAPIResponse { type_: "directory".into(), path: "c".into(), size: 0 };
    assert!(f.is_file() && !f.is_directory());
    assert!(d.is_directory() && !d.is_file());
    assert!(f.keep_entry());
    assert!(!empty.keep_entry());
    assert!(d.keep_entry());
}

#[test]
fn find_link_reports_non_text_uris() {
    let mut link: Vec<u8> = Vec::new();
    link.extend_from_slice(b"<");
    link.extend_from_slice(&[0xFF, 0xFE]);
    link.extend_from_slice(b">; rel=\"next\"");
    assert_eq!(
        find_link(&link, &b"next".to_vec()),
        Some(Err(HfError::InvalidLinkEncoding))
    );
}

#[test]
fn control_characters_are_percent_encoded() {
    let loc = HFRepoLocation::new("datasets", "r", "main");
    let uri = loc.get_file_uri("a\u{1}b");
    assert_eq!(
        uri,
        "https://huggingface.co/datasets/r/resolve/main/a%01b"
    );
}

#[test]
fn url_special_characters_are_percent_encoded() {
    let loc = HFRepoLocation::new("datasets", "r", "main");
    assert_eq!(
        loc.get_file_uri("my data.txt"),
        "https://huggingface.co/datasets/r/resolve/main/my%20data.txt"
    );
    assert_eq!(
        loc.get_file_uri("a?b#c"),
        "https://huggingface.co/datasets/r/resolve/main/a%3Fb%23c"
    );
    // non-ASCII text is escaped byte by byte through its UTF-8 form
    assert_eq!(
        loc.get_file_uri("caf\u{e9}"),
        "https://huggingface.co/datasets/r/resolve/main/caf%C3%A9"
    );
}

#[test]
fn listing_entries_sort_by_path_stably() {
    let e = |t: &str, p: &str, size: u64| HFAPIResponse {
        type_: t.into(),
        path: p.into(),
        size,
    };
    let sorted = sort_entries_by_path(vec![
        e("file", "b.txt", 1),
        e("directory", "a", 0),
        e("file", "a/x", 2),
        e("file", "a", 9),
    ]);
    let paths: Vec<&str> = sorted.iter().map(|x| x.path.as_str()).collect();
    assert_eq!(paths, vec!["a", "a", "a/x", "b.txt"]);
    // equal paths keep their original order
    assert_eq!(sorted[0].type_, "directory");
    assert_eq!(sorted[1].size, 9);
}
