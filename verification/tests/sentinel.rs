use qt_sources_gen::error::Error;
use qt_sources_gen::file_hashes::FileHashes;
use qt_sources_gen::sentinel::{
    compare_sentinel, md5sums_location, parse_md5sums, Sentinel, SentinelStatus,
};
use qt_sources_gen::sources::SourcesFile;

#[test]
fn parse_md5sums_valid() {
    let body = b"d41d8cd98f00b204e9800998ecf8427e  qtbase-everywhere-src-6.11.0.tar.xz\n\
                  0cc175b9c0f1b6a831c399e269772661  qtsvg-everywhere-src-6.11.0.tar.xz\n";
    let map = parse_md5sums(body);
    assert_eq!(map.len(), 2);
    assert_eq!(map.get("qtbase-everywhere-src-6.11.0.tar.xz").unwrap(), "d41d8cd98f00b204e9800998ecf8427e");
}

#[test]
fn parse_md5sums_ignores_bad_lines() {
    let body = b"short  file.tar.xz\n\
                  not-a-valid-line\n\
                  d41d8cd98f00b204e9800998ecf8427e  good.tar.xz\n";
    let map = parse_md5sums(body);
    assert_eq!(map.len(), 1);
    assert!(map.contains_key("good.tar.xz"));
}

#[test]
fn compare_sentinel_unchanged() {
    let sentinel = Sentinel {
        hash: "abc123".into(),
        expected_md5s: FileHashes::new(),
    };
    let sources = SourcesFile {
        sentinel: Some("abc123".into()),
        sha512s: FileHashes::new(),
    };
    assert_eq!(compare_sentinel(&sentinel, &sources), SentinelStatus::Unchanged);
}

#[test]
fn compare_sentinel_changed() {
    let sentinel = Sentinel {
        hash: "abc123".into(),
        expected_md5s: FileHashes::new(),
    };
    let sources = SourcesFile {
        sentinel: Some("old_hash".into()),
        sha512s: FileHashes::new(),
    };
    assert_eq!(compare_sentinel(&sentinel, &sources), SentinelStatus::Changed);
}

#[test]
fn compare_sentinel_missing() {
    let sentinel = Sentinel {
        hash: "abc123".into(),
        expected_md5s: FileHashes::new(),
    };
    let sources = SourcesFile::default();
    assert_eq!(compare_sentinel(&sentinel, &sources), SentinelStatus::Missing);
}

// ---------------------------------------------------------------------------

#[test]
fn parse_md5sums_invalid_utf8_gives_nothing() {
    let mut body = b"d41d8cd98f00b204e9800998ecf8427e  good.tar.xz\n".to_vec();
    body.push(0xff);
    assert!(parse_md5sums(&body).is_empty());
}

#[test]
fn parse_md5sums_line_endings_and_whitespace() {
    let body = "d41d8cd98f00b204e9800998ecf8427e  a.tar.xz\r\n\
                \u{a0}0cc175b9c0f1b6a831c399e269772661   b.tar.xz \n\
                0cc175b9c0f1b6a831c399e269772661  \n\
                900150983cd24fb0d6963f7d28e17f72  a.tar.xz"
        .as_bytes();
    let map = parse_md5sums(body);
    assert_eq!(map.len(), 2);
    // the later line for a file wins
    assert_eq!(map.get("a.tar.xz").unwrap(), "900150983cd24fb0d6963f7d28e17f72");
    assert_eq!(map.get("b.tar.xz").unwrap(), "0cc175b9c0f1b6a831c399e269772661");
}

#[test]
fn parse_md5sums_counts_bytes_of_hash() {
    // 30 ASCII characters and one two-byte character make 32 bytes;
    // 29 and one make 31
    let body = "d41d8cd98f00b204e9800998ecf842\u{e9}  x.tar.xz\n\
                d41d8cd98f00b204e9800998ecf84\u{e9}  y.tar.xz\n"
        .as_bytes();
    let map = parse_md5sums(body);
    assert_eq!(map.len(), 1);
    assert!(map.contains_key("x.tar.xz"));
    assert!(!map.contains_key("y.tar.xz"));
}

#[test]
fn parse_md5sums_empty() {
    assert!(parse_md5sums(b"").is_empty());
}

#[test]
fn sentinel_from_body_hashes_and_parses() {
    let body = b"900150983cd24fb0d6963f7d28e17f72  qtbase-everywhere-src-6.11.0.tar.xz\n";
    let s = Sentinel::from_body(body);
    assert_eq!(s.expected_md5s.len(), 1);
    assert_eq!(s.hash.len(), 128);
    let abc = Sentinel::from_body(b"abc");
    assert_eq!(
        abc.hash,
        "ddaf35a193617abacc417349ae20413112e6fa4e89a97ea20a9eeee64b55d39a\
         2192992a274fc1a836ba3c23a3feebbd454d4423643ce80e2a9ac94fa54ca49f"
    );
    assert!(abc.expected_md5s.is_empty());
}

#[test]
fn md5sums_location_values() {
    assert_eq!(
        md5sums_location("6.11.0").unwrap(),
        "https://download.qt.io/official_releases/qt/6.11/6.11.0/submodules/md5sums.txt"
    );
    match md5sums_location("611") {
        Err(Error::InvalidVersion(v)) => assert_eq!(v, "611"),
        other => panic!("unexpected {:?}", other),
    }
}

#[test]
fn empty_sources_file_has_missing_sentinel() {
    let current = Sentinel::from_body(b"d41d8cd98f00b204e9800998ecf8427e  qtbase-everywhere-src-6.11.0.tar.xz\n");
    let existing = qt_sources_gen::sources::parse_sources("");
    assert_eq!(compare_sentinel(&current, &existing), SentinelStatus::Missing);
    assert!(!current.hash.is_empty());
}

#[test]
fn written_sentinel_line_reads_back_unchanged() {
    let current = Sentinel::from_body(b"d41d8cd98f00b204e9800998ecf8427e  qtbase-everywhere-src-6.11.0.tar.xz\n");
    let sentinel_line = format!("SHA512 (md5sums.txt) = {}", current.hash);
    let existing = qt_sources_gen::sources::parse_sources(&sentinel_line);
    assert_eq!(compare_sentinel(&current, &existing), SentinelStatus::Unchanged);
    assert!(existing.sha512s.is_empty());
}
