use tdbtk::error::Error;
use tdbtk::io::uri::{chars_of, contains_scheme_mark, ends_with, resolve, URIType, URI};

#[test]
fn uri_tests() -> Result<(), Error> {
    let tests = vec![
        ("azure://bucket/path/to/array", "azure", "bucket", "/path/to/array"),
        ("file:///path/to/array", "file", "", "/path/to/array"),
        ("file:///C:/path/to/array", "file", "", "/C:/path/to/array"),
        ("gs://bucket/path/to/array", "gs", "bucket", "/path/to/array"),
        ("gcs://bucket/path/to/array", "gcs", "bucket", "/path/to/array"),
        ("hdfs:///path/to/array", "hdfs", "", "/path/to/array"),
        ("mem:///path/to/array", "mem", "", "/path/to/array"),
        ("s3://bucket/path/to/array", "s3", "bucket", "/path/to/array"),
        ("tiledb://namespace/array_name", "tiledb", "namespace", "/array_name"),
    ];

    for test in tests {
        let uri = URI::from_string(test.0, "/")?;
        assert_eq!(uri.scheme(), test.1);
        assert_eq!(uri.authority(), test.2);
        assert_eq!(uri.path(), test.3);
    }

    Ok(())
}

#[test]
fn text_without_scheme_is_a_local_path() {
    let uri = URI::from_string("data/array", "/home/user").unwrap();
    assert_eq!(uri.scheme(), "file");
    assert_eq!(uri.authority(), "");
    assert_eq!(uri.path(), "/home/user/data/array");
    let uri = URI::from_string("/abs/array", "/home/user").unwrap();
    assert_eq!(uri.path(), "/abs/array");
    let uri = URI::from_string("x", "/").unwrap();
    assert_eq!(uri.path(), "/x");
    let uri = URI::from_string("", "/tmp").unwrap();
    assert_eq!(uri.path(), "/tmp/");
}

#[test]
fn paths_are_resolved_against_the_directory() {
    assert_eq!(resolve("/a", "b"), "/a/b");
    assert_eq!(resolve("/a/", "b"), "/a/b");
    assert_eq!(resolve("/a", "/b"), "/b");
    assert_eq!(resolve("", "b"), "b");
    assert_eq!(resolve("/a", ""), "/a/");
    assert_eq!(resolve("/", ""), "/");
}

#[test]
fn query_and_fragment_are_rejected() {
    assert_eq!(URI::from_string("s3://bucket/key?version=1", "/"), Err(Error::InvalidUri));
    assert_eq!(URI::from_string("s3://bucket/key#part", "/"), Err(Error::InvalidUri));
    assert_eq!(URI::from_string("s3://bucket/key?", "/"), Err(Error::InvalidUri));
    assert_eq!(URI::from_string("1s3://bucket/key", "/"), Err(Error::InvalidUri));
    assert_eq!(URI::from_string("s3://bucket/a b", "/"), Err(Error::InvalidUri));
    assert_eq!(URI::from_string("a b", "/tmp"), Err(Error::InvalidUri));
}

#[test]
fn scheme_mark_is_found_anywhere() {
    assert!(contains_scheme_mark("s3://b"));
    assert!(contains_scheme_mark("://"));
    assert!(contains_scheme_mark("a/b://"));
    assert!(!contains_scheme_mark(""));
    assert!(!contains_scheme_mark(":/"));
    assert!(!contains_scheme_mark("a:/b/"));
    assert!(!contains_scheme_mark("/path/to:/x"));
}

#[test]
fn new_uri_is_the_local_root() {
    let uri = URI::new();
    assert_eq!(uri.scheme(), "file");
    assert_eq!(uri.authority(), "");
    assert_eq!(uri.path(), "/");
    assert_eq!(uri.path_ref(), "/");
    assert_eq!(uri.clone(), uri);
}

#[test]
fn last_path_part_stands_behind_the_last_slash() {
    let cases = [
        ("file:///a/b/c.tdb", "c.tdb"),
        ("file:///a/b/", ""),
        ("file:///", ""),
        ("file:///name", "name"),
        ("s3://bucket/x/__fragments/f_1", "f_1"),
    ];
    for (text, part) in cases {
        assert_eq!(URI::from_string(text, "/").unwrap().last_path_part(), part);
    }
    assert_eq!(URI::new().join("h\u{e9}/\u{fc}ber").last_path_part(), "\u{fc}ber");
    // Without the mark of a scheme the text is a path.
    assert_eq!(URI::from_string("urn:a:b", "/").unwrap().last_path_part(), "urn:a:b");
}

#[test]
fn trailing_slashes_are_removed() {
    let cases = [
        ("file:///a/b///", "/a/b"),
        ("file:///a/b", "/a/b"),
        ("file:///", ""),
        ("file:////", ""),
        ("s3://bucket/x/", "/x"),
    ];
    for (text, path) in cases {
        let uri = URI::from_string(text, "/").unwrap();
        let trimmed = uri.remove_trailing_slash();
        assert_eq!(trimmed.path(), path);
        assert_eq!(trimmed.scheme(), uri.scheme());
        assert_eq!(trimmed.authority(), uri.authority());
    }
}

#[test]
fn join_puts_one_slash_between() {
    let uri = URI::from_string("s3://bucket/array", "/").unwrap();
    let joined = uri.join("__schema");
    assert_eq!(joined.path(), "/array/__schema");
    assert_eq!(joined.scheme(), "s3");
    assert_eq!(joined.authority(), "bucket");
    assert_eq!(uri.join("__schema").join("x").path(), "/array/__schema/x");
    let slash = URI::from_string("s3://bucket/array/", "/").unwrap();
    assert_eq!(slash.join("__schema").path(), "/array/__schema");
    assert_eq!(slash.join("/abs").path(), "/array//abs");
    assert_eq!(uri.join("").path(), "/array/");
    assert_eq!(URI::new().join("a").path(), "/a");
}

#[test]
fn scheme_names_the_kind_of_storage() {
    let cases = [
        ("azure://b/p", URIType::Azure),
        ("file:///p", URIType::File),
        ("gcs://b/p", URIType::Gcs),
        ("gs://b/p", URIType::Gcs),
        ("hdfs:///p", URIType::Hdfs),
        ("mem:///p", URIType::Mem),
        ("tiledb://n/a", URIType::TileDB),
        ("s3://b/p", URIType::Unknown),
        ("files:///p", URIType::Unknown),
    ];
    for (text, kind) in cases {
        assert_eq!(URI::from_string(text, "/").unwrap().uri_type(), kind);
    }
    assert_eq!(URI::new().uri_type(), URIType::File);
}

#[test]
fn uri_is_written_as_text() {
    for text in [
        "azure://bucket/path/to/array",
        "s3://bucket/",
        "tiledb://namespace/array_name",
    ] {
        assert_eq!(URI::from_string(text, "/").unwrap().to_string(), text);
    }
    // An empty authority is left out.
    assert_eq!(
        URI::from_string("file:///path/to/array", "/").unwrap().to_string(),
        "file:/path/to/array"
    );
    assert_eq!(URI::new().to_string(), "file:/");
    assert_eq!(URI::from_string("rel/x", "/cwd").unwrap().to_string(), "file:/cwd/rel/x");
    assert_eq!(URI::new().join("a b").to_string(), "<INVALID_URI_PATH:/a b>");
}

#[test]
fn text_ends_are_compared_by_characters() {
    assert!(ends_with("fragment.ok", ".ok"));
    assert!(ends_with(".ok", ".ok"));
    assert!(ends_with("anything", ""));
    assert!(ends_with("", ""));
    assert!(!ends_with("ok", ".ok"));
    assert!(!ends_with("fragment.ok ", ".ok"));
    assert!(!ends_with("fragment.wrt", ".ok"));
    assert!(ends_with("h\u{e9}", "\u{e9}"));
    assert_eq!(chars_of("h\u{e9}!"), vec!['h', '\u{e9}', '!']);
    assert!(chars_of("").is_empty());
}
