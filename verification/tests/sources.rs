use qt_sources_gen::file_hashes::FileHashes;
use qt_sources_gen::sources::{parse_sources, SourcesFile};

#[test]
fn parse_empty() {
    let f = parse_sources("");
    assert!(f.sentinel.is_none());
    assert!(f.sha512s.is_empty());
}

#[test]
fn parse_full() {
    let content = "\
SHA512 (md5sums.txt) = abc123
SHA512 (qtbase-everywhere-src-6.11.0.tar.xz) = def456
SHA512 (qtsvg-everywhere-src-6.11.0.tar.xz) = 789abc";

    let f = parse_sources(content);
    assert_eq!(f.sentinel.as_deref(), Some("abc123"));
    assert_eq!(f.sha512s.len(), 2);
    assert_eq!(f.sha512s.get("qtbase-everywhere-src-6.11.0.tar.xz").unwrap(), "def456");
    assert_eq!(f.sha512s.get("qtsvg-everywhere-src-6.11.0.tar.xz").unwrap(), "789abc");
}

#[test]
fn serialize_ordered_roundtrip() {
    let entries = vec![
        ("qtbase-everywhere-src-6.11.0.tar.xz".into(), "def456".into()),
        ("qtsvg-everywhere-src-6.11.0.tar.xz".into(), "789abc".into()),
    ];
    let text = SourcesFile::serialize_ordered("abc123", &entries);
    assert_eq!(
        text,
        "SHA512 (md5sums.txt) = abc123\n\
         SHA512 (qtbase-everywhere-src-6.11.0.tar.xz) = def456\n\
         SHA512 (qtsvg-everywhere-src-6.11.0.tar.xz) = 789abc"
    );
}

// ---------------------------------------------------------------------------

#[test]
fn serialize_ordered_reads_back() {
    let entries: Vec<(String, String)> = vec![
        ("b.tar.xz".into(), "h1".into()),
        ("a (x).tar.xz".into(), "h2".into()),
        ("b.tar.xz".into(), "h3".into()),
    ];
    let text = SourcesFile::serialize_ordered("sent", &entries);
    let f = parse_sources(&text);
    assert_eq!(f.sentinel.as_deref(), Some("sent"));
    assert_eq!(f.sha512s.len(), 2);
    assert_eq!(f.sha512s.get("b.tar.xz").unwrap(), "h3");
    assert_eq!(f.sha512s.get("a (x).tar.xz").unwrap(), "h2");
}

#[test]
fn serialize_lists_entries_in_insertion_order() {
    let entries: Vec<(String, String)> = vec![
        ("z.tar.xz".into(), "1".into()),
        ("a.tar.xz".into(), "2".into()),
    ];
    let f = SourcesFile::from_entries("s", &entries);
    assert_eq!(f.sentinel.as_deref(), Some("s"));
    let text = f.serialize("s");
    assert_eq!(text, "SHA512 (md5sums.txt) = s\nSHA512 (z.tar.xz) = 1\nSHA512 (a.tar.xz) = 2");
    let back = parse_sources(&text);
    assert_eq!(back.sha512s.get("z.tar.xz").unwrap(), "1");
    assert_eq!(back.sha512s.get("a.tar.xz").unwrap(), "2");
    assert_eq!(SourcesFile::default().serialize("h"), "SHA512 (md5sums.txt) = h");
}

#[test]
fn parse_tolerates_whitespace_and_other_lines() {
    let content = "  SHA512 (md5sums.txt) =   first  \r\n\
                   # a comment\n\
                   SHA512 (x.tar.xz)=nospace\n\
                   sha512 (y.tar.xz) = lower\n\
                   SHA512 (z.tar.xz) = zz\n\
                   SHA512 (md5sums.txt) = second\n";
    let f = parse_sources(content);
    assert_eq!(f.sentinel.as_deref(), Some("second"));
    assert_eq!(f.sha512s.len(), 1);
    assert_eq!(f.sha512s.get("z.tar.xz").unwrap(), "zz");
}

#[test]
fn file_hashes_insert_replaces() {
    let mut m = FileHashes::new();
    assert_eq!(m.insert("k".into(), "v1".into()), None);
    assert_eq!(m.insert("k".into(), "v2".into()), Some("v1".to_string()));
    assert_eq!(m.len(), 1);
    assert_eq!(m.get("k").unwrap(), "v2");
    assert!(m.get("other").is_none());
    assert_eq!(m.keys(), vec!["k".to_string()]);
}
