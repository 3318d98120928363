use qt_sources_gen::file_hashes::FileHashes;
use qt_sources_gen::modules::{
    archive_filename, archive_filenames, archive_url, md5sums_url, module_name, modules_match,
    split_version, BASE_URL,
};
use qt_sources_gen::sources::SourcesFile;

#[test]
fn split_version_valid() {
    assert_eq!(split_version("6.11.0"), Some(("6.11", "0")));
}

#[test]
fn split_version_no_dot() {
    assert_eq!(split_version("611"), None);
}

#[test]
fn archive_filename_format() {
    assert_eq!(archive_filename("qtbase", "6.11.0"), "qtbase-everywhere-src-6.11.0.tar.xz");
}

#[test]
fn archive_url_format() {
    let url = archive_url("6.11", "6.11.0", "qtbase-everywhere-src-6.11.0.tar.xz");
    assert_eq!(
        url,
        "https://download.qt.io/official_releases/qt/6.11/6.11.0/submodules/qtbase-everywhere-src-6.11.0.tar.xz"
    );
}

#[test]
fn md5sums_url_format() {
    assert_eq!(
        md5sums_url("6.11", "6.11.0"),
        "https://download.qt.io/official_releases/qt/6.11/6.11.0/submodules/md5sums.txt"
    );
}

#[test]
fn archive_filenames_filters_and_sorts() {
    let mut entries = FileHashes::new();
    entries.insert("qtsvg-everywhere-src-6.11.0.tar.xz".into(), "aaa".into());
    entries.insert("qtbase-everywhere-src-6.11.0.tar.xz".into(), "bbb".into());
    // mega-bundle should be excluded
    entries.insert("qt-everywhere-src-6.11.0.tar.xz".into(), "ccc".into());
    // non-archive should be excluded
    entries.insert("sha256sums.txt".into(), "ddd".into());

    let result = archive_filenames(&entries);
    assert_eq!(
        result,
        vec!["qtbase-everywhere-src-6.11.0.tar.xz", "qtsvg-everywhere-src-6.11.0.tar.xz",]
    );
}

#[test]
fn module_name_extracts_prefix() {
    assert_eq!(module_name("qtbase-everywhere-src-6.11.0.tar.xz"), "qtbase");
    assert_eq!(module_name("qt5compat-everywhere-src-6.11.0.tar.xz"), "qt5compat");
}

#[test]
fn module_name_fallback() {
    assert_eq!(module_name("unknown-file.tar.xz"), "unknown-file.tar.xz");
}

#[test]
fn modules_match_identical() {
    let mut md5s = FileHashes::new();
    md5s.insert("qtbase-everywhere-src-6.11.0.tar.xz".into(), "aaa".into());
    md5s.insert("qtsvg-everywhere-src-6.11.0.tar.xz".into(), "bbb".into());

    let mut sha512s = FileHashes::new();
    sha512s.insert("qtbase-everywhere-src-6.11.0.tar.xz".into(), "hash1".into());
    sha512s.insert("qtsvg-everywhere-src-6.11.0.tar.xz".into(), "hash2".into());

    let existing = SourcesFile {
        sentinel: Some("sentinel".into()),
        sha512s,
    };
    assert!(modules_match(&md5s, &existing));
}

#[test]
fn modules_match_extra_upstream() {
    let mut md5s = FileHashes::new();
    md5s.insert("qtbase-everywhere-src-6.11.0.tar.xz".into(), "aaa".into());
    md5s.insert("qtsvg-everywhere-src-6.11.0.tar.xz".into(), "bbb".into());
    md5s.insert("qtnew-everywhere-src-6.11.0.tar.xz".into(), "ccc".into());

    let mut sha512s = FileHashes::new();
    sha512s.insert("qtbase-everywhere-src-6.11.0.tar.xz".into(), "hash1".into());
    sha512s.insert("qtsvg-everywhere-src-6.11.0.tar.xz".into(), "hash2".into());

    let existing = SourcesFile {
        sentinel: Some("sentinel".into()),
        sha512s,
    };
    assert!(!modules_match(&md5s, &existing));
}

#[test]
fn modules_match_extra_stored() {
    let mut md5s = FileHashes::new();
    md5s.insert("qtbase-everywhere-src-6.11.0.tar.xz".into(), "aaa".into());

    let mut sha512s = FileHashes::new();
    sha512s.insert("qtbase-everywhere-src-6.11.0.tar.xz".into(), "hash1".into());
    sha512s.insert("qtsvg-everywhere-src-6.11.0.tar.xz".into(), "hash2".into());

    let existing = SourcesFile {
        sentinel: Some("sentinel".into()),
        sha512s,
    };
    assert!(!modules_match(&md5s, &existing));
}

#[test]
fn modules_match_ignores_mega_bundle() {
    let mut md5s = FileHashes::new();
    md5s.insert("qtbase-everywhere-src-6.11.0.tar.xz".into(), "aaa".into());
    // mega-bundle in md5sums but not in sources — should still match
    md5s.insert("qt-everywhere-src-6.11.0.tar.xz".into(), "bbb".into());

    let mut sha512s = FileHashes::new();
    sha512s.insert("qtbase-everywhere-src-6.11.0.tar.xz".into(), "hash1".into());

    let existing = SourcesFile {
        sentinel: Some("sentinel".into()),
        sha512s,
    };
    assert!(modules_match(&md5s, &existing));
}

// ---------------------------------------------------------------------------

#[test]
fn base_url_value() {
    assert_eq!(BASE_URL, "https://download.qt.io/official_releases/qt");
}

#[test]
fn split_version_requires_three_parts() {
    assert_eq!(split_version("a.b.c"), Some(("a.b", "c")));
    assert_eq!(split_version("10.0.12"), Some(("10.0", "12")));
    assert_eq!(split_version("6.11"), None);
    assert_eq!(split_version("6.11.0.1"), None);
    assert_eq!(split_version("6.11."), None);
    assert_eq!(split_version(".11.0"), None);
    assert_eq!(split_version("6..0"), None);
    assert_eq!(split_version("6."), None);
    assert_eq!(split_version(""), None);
}

#[test]
fn module_name_of_archive_filename() {
    for m in ["qtbase", "qt5compat", "a-everywhere", "x-everywhere-sr", ""] {
        assert_eq!(module_name(&archive_filename(m, "6.11.0")), m);
    }
    // a module ending in "-everywhere-src" is cut short
    assert_eq!(module_name(&archive_filename("a-everywhere-src", "1")), "a");
}

#[test]
fn archive_filenames_order_does_not_depend_on_insertion() {
    let names = [
        "qtwebview-everywhere-src-6.11.0.tar.xz",
        "qt5compat-everywhere-src-6.11.0.tar.xz",
        "qtbase-everywhere-src-6.11.0.tar.xz",
        "qtquickeffectmaker-everywhere-src-6.11.0.tar.xz",
    ];
    let mut forward = FileHashes::new();
    for n in names.iter() {
        forward.insert(n.to_string(), "x".into());
    }
    let mut backward = FileHashes::new();
    for n in names.iter().rev() {
        backward.insert(n.to_string(), "y".into());
    }
    let a = archive_filenames(&forward);
    let b = archive_filenames(&backward);
    assert_eq!(a, b);
    assert_eq!(
        a,
        vec![
            "qt5compat-everywhere-src-6.11.0.tar.xz",
            "qtbase-everywhere-src-6.11.0.tar.xz",
            "qtquickeffectmaker-everywhere-src-6.11.0.tar.xz",
            "qtwebview-everywhere-src-6.11.0.tar.xz",
        ]
    );
}

#[test]
fn archive_filenames_edge_cases() {
    let mut entries = FileHashes::new();
    // not .tar.xz
    entries.insert("qtbase-everywhere-src-6.11.0.zip".into(), "a".into());
    // no -everywhere-src-
    entries.insert("qtbase-6.11.0.tar.xz".into(), "b".into());
    // a prefix ordered before its extension
    entries.insert("qtb-everywhere-src-1.tar.xz".into(), "c".into());
    entries.insert("qt-everywhere-src-1.tar.xz".into(), "d".into());
    entries.insert("qta-everywhere-src-1.tar.xz".into(), "e".into());
    assert_eq!(
        archive_filenames(&entries),
        vec!["qta-everywhere-src-1.tar.xz", "qtb-everywhere-src-1.tar.xz"]
    );
    assert!(archive_filenames(&FileHashes::new()).is_empty());
}

#[test]
fn module_name_splits_at_first_marker() {
    assert_eq!(
        module_name("a-everywhere-src-b-everywhere-src-c.tar.xz"),
        "a"
    );
    assert_eq!(module_name(""), "");
}

#[test]
fn modules_match_empty_sets() {
    let md5s = FileHashes::new();
    let existing = SourcesFile::default();
    assert!(modules_match(&md5s, &existing));
}
