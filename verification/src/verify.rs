//! Verification of downloaded archives against `md5sums.txt` and the stored
//! SHA-512 hashes. Downloading is the caller's part: it follows the plan that
//! `download_plan` gives, hands each outcome to `check_download`, and hands
//! all the checked outcomes to `summarize`.
use vstd::prelude::*;

use crate::client::DownloadHashes;
use crate::error::Error;
use crate::file_hashes::FileHashes;
use crate::modules::{
    archive_filenames, archive_set, archive_url, split_version, string_views, strictly_sorted,
    submodule_url, version_parts,
};
use crate::text::str_eq;

verus! {

/// Result of verifying/hashing a single module.
pub struct ModuleHash {
    pub filename: String,
    pub sha512: String,
}

/// An archive to download: its name and its address.
pub struct ArchiveDownload {
    pub filename: String,
    pub url: String,
}

/// The archives of a release to download, in order of their names: one for
/// each archive that `md5sums.txt` lists, or `InvalidVersion` when `version`
/// is not of the form `X.Y.Z`.
pub fn download_plan(version: &str, expected_md5s: &FileHashes) -> (res: Result<Vec<ArchiveDownload>, Error>)
    ensures
        match version_parts(version@) {
            None => res matches Err(Error::InvalidVersion(v)) && v@ == version@,
            Some((major_minor, _)) => res matches Ok(plan) && {
                let names = plan@.map_values(|d: ArchiveDownload| d.filename@);
                &&& strictly_sorted(names)
                &&& forall|f: Seq<char>| names.contains(f) <==> archive_set(expected_md5s@).contains(f)
                &&& forall|i: int|
                    0 <= i < plan@.len() ==> (#[trigger] plan@[i]).url@ == submodule_url(
                        major_minor,
                        version@,
                        plan@[i].filename@,
                    )
            },
        },
{
    let major_minor = match split_version(version) {
        Some((major_minor, _)) => major_minor,
        None => return Err(Error::InvalidVersion(String::from_str(version))),
    };
    let filenames = archive_filenames(expected_md5s);
    let mut plan: Vec<ArchiveDownload> = Vec::new();
    let mut i: usize = 0;
    while i < filenames.len()
        invariant
            i <= filenames@.len(),
            plan@.len() == i,
            forall|j: int|
                0 <= j < i ==> (#[trigger] plan@[j]).filename@ == filenames@[j]@ && plan@[j].url@
                    == submodule_url(major_minor@, version@, filenames@[j]@),
        decreases filenames@.len() - i,
    {
        let url = archive_url(major_minor, version, filenames[i].as_str());
        plan.push(ArchiveDownload { filename: filenames[i].clone(), url });
        i += 1;
    }
    assert(plan@.map_values(|d: ArchiveDownload| d.filename@) =~= string_views(filenames@));
    Ok(plan)
}

/// The outcome for one archive, given what its download gave: a download
/// error stands; otherwise the MD5 must be the one `md5sums.txt` lists for
/// the file, if any, and, when stored hashes are given, the SHA-512 must be
/// the stored one, if any.
pub fn check_download(
    filename: &str,
    download: Result<DownloadHashes, Error>,
    expected_md5s: &FileHashes,
    stored_sha512s: Option<&FileHashes>,
) -> (res: Result<ModuleHash, Error>)
    ensures
        match download {
            Err(e) => res == Err::<ModuleHash, Error>(e),
            Ok(h) => if expected_md5s@.contains_key(filename@) && expected_md5s@[filename@]
                != h.md5@ {
                res matches Err(Error::Md5Mismatch { filename: f, expected, actual }) && f@
                    == filename@ && expected@ == expected_md5s@[filename@] && actual@ == h.md5@
            } else if stored_sha512s matches Some(stored) && stored@.contains_key(filename@)
                && stored@[filename@] != h.sha512@ {
                res matches Err(Error::Sha512Mismatch { filename: f }) && f@ == filename@
            } else {
                res matches Ok(m) && m.filename@ == filename@ && m.sha512@ == h.sha512@
            },
        },
{
    let hashes = match download {
        Ok(h) => h,
        Err(e) => return Err(e),
    };
    // Verify MD5 against md5sums.txt
    if let Some(expected_md5) = expected_md5s.get(filename) {
        if !str_eq(hashes.md5.as_str(), expected_md5.as_str()) {
            return Err(
                Error::Md5Mismatch {
                    filename: String::from_str(filename),
                    expected: expected_md5.clone(),
                    actual: hashes.md5,
                },
            );
        }
    }
    // Optionally verify SHA-512 against the stored value
    if let Some(stored) = stored_sha512s {
        if let Some(stored_sha512) = stored.get(filename) {
            if !str_eq(hashes.sha512.as_str(), stored_sha512.as_str()) {
                return Err(Error::Sha512Mismatch { filename: String::from_str(filename) });
            }
        }
    }
    Ok(ModuleHash { filename: String::from_str(filename), sha512: hashes.sha512 })
}

/// How many of the outcomes are failures.
pub open spec fn failure_count(outcomes: Seq<Result<ModuleHash, Error>>) -> nat
    decreases outcomes.len(),
{
    if outcomes.len() == 0 {
        0
    } else {
        failure_count(outcomes.drop_last()) + if outcomes.last() is Err {
            1nat
        } else {
            0nat
        }
    }
}

/// The module hashes of all outcomes, in order, when none failed; otherwise
/// `VerificationFailed` with the number of failures.
pub fn summarize(outcomes: Vec<Result<ModuleHash, Error>>) -> (res: Result<Vec<ModuleHash>, Error>)
    ensures
        failure_count(outcomes@) == 0 ==> (res matches Ok(hashes) && hashes@.len()
            == outcomes@.len() && forall|i: int|
            0 <= i < outcomes@.len() ==> outcomes@[i] == Ok::<ModuleHash, Error>(
                #[trigger] hashes@[i],
            )),
        failure_count(outcomes@) > 0 ==> (res matches Err(Error::VerificationFailed { count })
            && count == failure_count(outcomes@)),
{
    let ghost all = outcomes@;
    let mut results: Vec<ModuleHash> = Vec::new();
    let mut failures: usize = 0;
    let n = outcomes.len();
    for r in it: outcomes
        invariant
            it.seq() == all,
            all.len() == n,
            failures == failure_count(all.take(it.index() as int)),
            failures <= it.index(),
            failures == 0 ==> results@.len() == it.index() && forall|j: int|
                0 <= j < it.index() ==> all[j] == Ok::<ModuleHash, Error>(#[trigger] results@[j]),
    {
        let ghost k = it.index();
        assert(all.take(k + 1).drop_last() =~= all.take(k));
        assert(all.take(k + 1).last() == all[k]);
        match r {
            Ok(m) => {
                results.push(m);
            },
            Err(_) => {
                failures = failures + 1;
            },
        }
    }
    assert(all.take(all.len() as int) =~= all);
    if failures > 0 {
        Err(Error::VerificationFailed { count: failures })
    } else {
        Ok(results)
    }
}

} // verus!
