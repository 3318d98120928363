use qt_sources_gen::client::{ArchiveHasher, DownloadHashes};
use qt_sources_gen::error::Error;
use qt_sources_gen::file_hashes::FileHashes;
use qt_sources_gen::plan::{conclude, plan, Step};
use qt_sources_gen::sentinel::Sentinel;
use qt_sources_gen::sources::SourcesFile;
use qt_sources_gen::verify::{check_download, download_plan, summarize, ModuleHash};
use qt_sources_gen::{exit_code, CheckResult};

fn md5s() -> FileHashes {
    let mut m = FileHashes::new();
    m.insert("qtsvg-everywhere-src-6.11.0.tar.xz".into(), "m-svg".into());
    m.insert("qtbase-everywhere-src-6.11.0.tar.xz".into(), "m-base".into());
    m.insert("qt-everywhere-src-6.11.0.tar.xz".into(), "m-all".into());
    m
}

fn stored(sentinel: Option<&str>, names: &[&str]) -> SourcesFile {
    let mut sha512s = FileHashes::new();
    for n in names {
        sha512s.insert(n.to_string(), format!("s-{n}"));
    }
    SourcesFile { sentinel: sentinel.map(|s| s.to_string()), sha512s }
}

fn hashes(md5: &str, sha512: &str) -> DownloadHashes {
    DownloadHashes { md5: md5.into(), sha512: sha512.into() }
}

const BOTH: [&str; 2] = ["qtbase-everywhere-src-6.11.0.tar.xz", "qtsvg-everywhere-src-6.11.0.tar.xz"];

#[test]
fn plan_up_to_date_without_force() {
    let current = Sentinel { hash: "h".into(), expected_md5s: md5s() };
    let existing = stored(Some("h"), &BOTH);
    assert!(matches!(plan(&current, &existing, false, false), Step::Finish(CheckResult::UpToDate)));
    assert!(matches!(plan(&current, &existing, false, true), Step::Finish(CheckResult::UpToDate)));
}

#[test]
fn plan_force_verifies_only() {
    let current = Sentinel { hash: "h".into(), expected_md5s: md5s() };
    let existing = stored(Some("h"), &BOTH);
    assert!(matches!(plan(&current, &existing, true, false), Step::Download { verify_only: true }));
}

#[test]
fn plan_changed_sentinel_regenerates() {
    let current = Sentinel { hash: "new".into(), expected_md5s: md5s() };
    let existing = stored(Some("old"), &BOTH);
    assert!(matches!(plan(&current, &existing, false, false), Step::Download { verify_only: false }));
    assert!(matches!(plan(&current, &existing, true, false), Step::Download { verify_only: false }));
    let missing = stored(None, &BOTH);
    assert!(matches!(plan(&current, &missing, false, false), Step::Download { verify_only: false }));
}

#[test]
fn plan_module_set_change_regenerates() {
    let current = Sentinel { hash: "h".into(), expected_md5s: md5s() };
    let existing = stored(Some("h"), &["qtbase-everywhere-src-6.11.0.tar.xz"]);
    assert!(matches!(plan(&current, &existing, false, false), Step::Download { verify_only: false }));
}

#[test]
fn plan_dry_run_reports_sentinel_line() {
    let current = Sentinel { hash: "abc".into(), expected_md5s: md5s() };
    let existing = stored(Some("old"), &BOTH);
    match plan(&current, &existing, false, true) {
        Step::Finish(CheckResult::Changed { new_sources }) => {
            assert_eq!(new_sources, "SHA512 (md5sums.txt) = abc")
        }
        _ => panic!("expected a dry-run result"),
    }
    // a dry run with nothing changed is up to date, forced or not
    let same = stored(Some("abc"), &BOTH);
    assert!(matches!(plan(&current, &same, true, true), Step::Finish(CheckResult::UpToDate)));
    assert!(matches!(plan(&current, &same, false, true), Step::Finish(CheckResult::UpToDate)));
    // a changed module set is reported by a dry run too
    let fewer = stored(Some("abc"), &BOTH[..1]);
    assert!(matches!(plan(&current, &fewer, true, true), Step::Finish(CheckResult::Changed { .. })));
}

#[test]
fn conclude_results() {
    let hs = vec![
        ModuleHash { filename: "a.tar.xz".into(), sha512: "1".into() },
        ModuleHash { filename: "b.tar.xz".into(), sha512: "2".into() },
    ];
    assert_eq!(
        conclude(false, "h", hs),
        CheckResult::Changed {
            new_sources: "SHA512 (md5sums.txt) = h\nSHA512 (a.tar.xz) = 1\nSHA512 (b.tar.xz) = 2".into()
        }
    );
    assert_eq!(conclude(true, "h", Vec::new()), CheckResult::UpToDate);
}

#[test]
fn download_plan_lists_sorted_archives() {
    let p = download_plan("6.11.0", &md5s()).unwrap();
    assert_eq!(p.len(), 2);
    assert_eq!(p[0].filename, "qtbase-everywhere-src-6.11.0.tar.xz");
    assert_eq!(
        p[0].url,
        "https://download.qt.io/official_releases/qt/6.11/6.11.0/submodules/qtbase-everywhere-src-6.11.0.tar.xz"
    );
    assert_eq!(p[1].filename, "qtsvg-everywhere-src-6.11.0.tar.xz");
    match download_plan("6", &md5s()) {
        Err(Error::InvalidVersion(v)) => assert_eq!(v, "6"),
        _ => panic!("expected InvalidVersion"),
    }
    match download_plan("6.11", &md5s()) {
        Err(Error::InvalidVersion(v)) => assert_eq!(v, "6.11"),
        _ => panic!("expected InvalidVersion"),
    }
}

#[test]
fn check_download_outcomes() {
    let expected = md5s();
    let name = "qtbase-everywhere-src-6.11.0.tar.xz";
    let ok = check_download(name, Ok(hashes("m-base", "sha")), &expected, None).unwrap();
    assert_eq!(ok.filename, name);
    assert_eq!(ok.sha512, "sha");

    match check_download(name, Ok(hashes("bad", "sha")), &expected, None) {
        Err(Error::Md5Mismatch { filename, expected, actual }) => {
            assert_eq!(filename, name);
            assert_eq!(expected, "m-base");
            assert_eq!(actual, "bad");
        }
        _ => panic!("expected Md5Mismatch"),
    }

    let st = stored(None, &[name]);
    match check_download(name, Ok(hashes("m-base", "other")), &expected, Some(&st.sha512s)) {
        Err(Error::Sha512Mismatch { filename }) => assert_eq!(filename, name),
        _ => panic!("expected Sha512Mismatch"),
    }
    let same = check_download(name, Ok(hashes("m-base", &format!("s-{name}"))), &expected, Some(&st.sha512s));
    assert!(same.is_ok());

    // no MD5 listed and no stored hash: nothing to compare against
    let lone = check_download("new.tar.xz", Ok(hashes("x", "y")), &expected, Some(&st.sha512s)).unwrap();
    assert_eq!(lone.sha512, "y");

    let failed = Error::HttpStatus { url: "u".into(), status: 404 };
    match check_download(name, Err(failed), &expected, None) {
        Err(Error::HttpStatus { url, status }) => {
            assert_eq!(url, "u");
            assert_eq!(status, 404);
        }
        _ => panic!("expected the download error"),
    }
}

#[test]
fn summarize_outcomes() {
    let good = vec![
        Ok(ModuleHash { filename: "a".into(), sha512: "1".into() }),
        Ok(ModuleHash { filename: "b".into(), sha512: "2".into() }),
    ];
    let out = summarize(good).unwrap();
    assert_eq!(out.len(), 2);
    assert_eq!(out[1].filename, "b");

    let bad = vec![
        Ok(ModuleHash { filename: "a".into(), sha512: "1".into() }),
        Err(Error::Io("broken".into())),
        Err(Error::Sha512Mismatch { filename: "c".into() }),
        Err(Error::HttpClient("timeout".into())),
    ];
    match summarize(bad) {
        Err(Error::VerificationFailed { count }) => assert_eq!(count, 3),
        _ => panic!("expected VerificationFailed"),
    }
    assert!(summarize(Vec::new()).unwrap().is_empty());
}

#[test]
fn archive_hasher_digests_chunks() {
    let mut h = ArchiveHasher::new();
    h.update(b"a");
    h.update(b"");
    h.update(b"bc");
    let d = h.finish();
    assert_eq!(d.md5, "900150983cd24fb0d6963f7d28e17f72");
    assert_eq!(
        d.sha512,
        "ddaf35a193617abacc417349ae20413112e6fa4e89a97ea20a9eeee64b55d39a\
         2192992a274fc1a836ba3c23a3feebbd454d4423643ce80e2a9ac94fa54ca49f"
    );
    let empty = ArchiveHasher::new().finish();
    assert_eq!(empty.md5, "d41d8cd98f00b204e9800998ecf8427e");
}

#[test]
fn regenerated_sources_are_up_to_date() {
    let body = b"900150983cd24fb0d6963f7d28e17f72  qtsvg-everywhere-src-6.11.0.tar.xz\n\
                 d41d8cd98f00b204e9800998ecf8427e  qtbase-everywhere-src-6.11.0.tar.xz\n\
                 0cc175b9c0f1b6a831c399e269772661  qt-everywhere-src-6.11.0.tar.xz\n";
    let current = Sentinel::from_body(body);
    let missing = SourcesFile::default();
    assert!(matches!(plan(&current, &missing, false, false), Step::Download { verify_only: false }));

    let downloads = download_plan("6.11.0", &current.expected_md5s).unwrap();
    let hashes: Vec<ModuleHash> = downloads
        .iter()
        .map(|d| {
            let mut h = ArchiveHasher::new();
            h.update(d.filename.as_bytes());
            ModuleHash { filename: d.filename.clone(), sha512: h.finish().sha512 }
        })
        .collect();
    let text = match conclude(false, &current.hash, hashes) {
        CheckResult::Changed { new_sources } => new_sources,
        _ => panic!("expected new sources"),
    };
    let written = qt_sources_gen::sources::parse_sources(&text);
    assert_eq!(written.sha512s.len(), 2);
    assert!(matches!(plan(&current, &written, false, false), Step::Finish(CheckResult::UpToDate)));
    assert!(matches!(plan(&current, &written, true, false), Step::Download { verify_only: true }));
}

#[test]
fn exit_codes() {
    assert_eq!(exit_code(&CheckResult::UpToDate), 0);
    assert_eq!(exit_code(&CheckResult::Changed { new_sources: "x".into() }), 1);
    assert_eq!(exit_code(&CheckResult::Error("e".into())), 2);
}
