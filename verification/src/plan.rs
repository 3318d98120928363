//! The decisions of a run: whether the sources file is up to date, whether
//! to download the archives, and what the run reports.
use vstd::prelude::*;

use crate::file_hashes::{lemma_map_of_dom, map_of, pair_views};
use crate::hex::is_hex_lower;
use crate::modules::{archive_set, is_archive_name, modules_match};
use crate::sentinel::{compare_sentinel, sentinel_status, Sentinel, SentinelStatus};
use crate::sources::{
    is_listable_entries, is_listable_name, lemma_hex_is_listable, lemma_sources_roundtrip,
    opt_view, parse_sources_spec, render_sources, sentinel_name, sha512_line, SourcesFile,
};
use crate::verify::ModuleHash;
use crate::CheckResult;

verus! {

/// What a run does next.
pub enum Step {
    /// Report this and stop.
    Finish(CheckResult),
    /// Download and hash every archive. With `verify_only`, the stored
    /// SHA-512 hashes are checked and the sources file stays as it is;
    /// otherwise new sources are generated.
    Download { verify_only: bool },
}

/// The sources file must be regenerated: its sentinel is not the current
/// one, or the archives it lists are not those of `md5sums.txt`.
pub open spec fn needs_update(
    current_hash: Seq<char>,
    expected_md5s: Map<Seq<char>, Seq<char>>,
    stored_sentinel: Option<Seq<char>>,
    stored_hashes: Map<Seq<char>, Seq<char>>,
) -> bool {
    ||| sentinel_status(current_hash, stored_sentinel) != SentinelStatus::Unchanged
    ||| archive_set(expected_md5s) != stored_hashes.dom()
}

/// With the current sentinel stored, the sources are up to date exactly when
/// the archive names of `md5sums.txt` and the names of the sources file are
/// the same: a name listed upstream but not stored, or stored but no longer
/// listed upstream, each make the sources outdated. A stored sentinel that
/// differs from the current one always does.
pub proof fn lemma_up_to_date_iff_same_archives(
    current_hash: Seq<char>,
    expected_md5s: Map<Seq<char>, Seq<char>>,
    stored_hashes: Map<Seq<char>, Seq<char>>,
    stored_sentinel: Seq<char>,
)
    ensures
        !needs_update(current_hash, expected_md5s, Some(current_hash), stored_hashes) <==> (
        forall|f: Seq<char>|
            (expected_md5s.contains_key(f) && is_archive_name(f)) <==> #[trigger] stored_hashes.contains_key(f)),
        forall|f: Seq<char>|
            #[trigger] stored_hashes.contains_key(f) && !expected_md5s.contains_key(f) ==> needs_update(
                current_hash,
                expected_md5s,
                Some(current_hash),
                stored_hashes,
            ),
        forall|f: Seq<char>|
            #[trigger] expected_md5s.contains_key(f) && is_archive_name(f)
                && !stored_hashes.contains_key(f) ==> needs_update(
                current_hash,
                expected_md5s,
                Some(current_hash),
                stored_hashes,
            ),
        stored_sentinel != current_hash ==> needs_update(
            current_hash,
            expected_md5s,
            Some(stored_sentinel),
            stored_hashes,
        ),
{
    if forall|f: Seq<char>|
        (expected_md5s.contains_key(f) && is_archive_name(f)) <==> #[trigger] stored_hashes.contains_key(f) {
        assert(archive_set(expected_md5s) =~= stored_hashes.dom());
    }
    assert forall|f: Seq<char>|
        #[trigger] stored_hashes.contains_key(f) && !expected_md5s.contains_key(f) implies needs_update(
            current_hash,
            expected_md5s,
            Some(current_hash),
            stored_hashes,
        ) by {
        assert(stored_hashes.dom().contains(f) && !archive_set(expected_md5s).contains(f));
    }
    assert forall|f: Seq<char>|
        #[trigger] expected_md5s.contains_key(f) && is_archive_name(f)
            && !stored_hashes.contains_key(f) implies needs_update(
            current_hash,
            expected_md5s,
            Some(current_hash),
            stored_hashes,
        ) by {
        assert(!stored_hashes.dom().contains(f) && archive_set(expected_md5s).contains(f));
    }
}

/// `needs_update` for a fetched sentinel and a read sources file.
pub open spec fn sources_outdated(current: Sentinel, existing: SourcesFile) -> bool {
    needs_update(
        current.hash@,
        current.expected_md5s@,
        opt_view(existing.sentinel),
        existing.sha512s@,
    )
}

/// Decides what to do after `md5sums.txt` was fetched and the sources file
/// read: a dry run only checks the sentinel and the set of archives, and
/// reports the new sentinel line when they changed; otherwise nothing is done
/// when the sources are up to date and no check is forced, and the archives
/// are downloaded, only to verify them when nothing changed.
pub fn plan(current: &Sentinel, existing: &SourcesFile, force: bool, dry_run: bool) -> (res: Step)
    ensures
        !sources_outdated(*current, *existing) && (!force || dry_run) ==> res == Step::Finish(
            CheckResult::UpToDate,
        ),
        sources_outdated(*current, *existing) && dry_run ==> (res matches Step::Finish(
            CheckResult::Changed { new_sources },
        ) && new_sources@ == sha512_line(sentinel_name(), current.hash@)),
        (sources_outdated(*current, *existing) || force) && !dry_run ==> (res == (Step::Download {
            verify_only: !sources_outdated(*current, *existing),
        })),
{
    let sentinel_changed = match compare_sentinel(current, existing) {
        SentinelStatus::Unchanged => false,
        SentinelStatus::Changed => true,
        SentinelStatus::Missing => true,
    };
    // Already regenerating when the sentinel changed; otherwise check the
    // module set too.
    let modules_changed = if sentinel_changed {
        false
    } else {
        !modules_match(&current.expected_md5s, existing)
    };
    let needs = sentinel_changed || modules_changed;
    if !needs && (!force || dry_run) {
        return Step::Finish(CheckResult::UpToDate);
    }
    if dry_run {
        let mut line = String::from_str("SHA512 (md5sums.txt) = ");
        line.append(current.hash.as_str());
        proof {
            reveal_strlit("SHA512 (md5sums.txt) = ");
            reveal_strlit("SHA512 (");
            reveal_strlit("md5sums.txt");
            reveal_strlit(") = ");
        }
        assert(line@ =~= sha512_line(sentinel_name(), current.hash@));
        return Step::Finish(CheckResult::Changed { new_sources: line });
    }
    Step::Download { verify_only: !needs }
}

/// What a run reports once every archive was downloaded and verified: up to
/// date when it only verified, otherwise the new sources text, the sentinel
/// line followed by one line per module, in order.
pub fn conclude(verify_only: bool, sentinel_hash: &str, module_hashes: Vec<ModuleHash>) -> (res: CheckResult)
    ensures
        verify_only ==> res == CheckResult::UpToDate,
        !verify_only ==> (res matches CheckResult::Changed { new_sources } && new_sources@
            == render_sources(
            sentinel_hash@,
            module_hashes@.map_values(|m: ModuleHash| (m.filename@, m.sha512@)),
        )),
{
    if verify_only {
        return CheckResult::UpToDate;
    }
    let ghost all = module_hashes@;
    let mut entries: Vec<(String, String)> = Vec::new();
    for m in it: module_hashes
        invariant
            it.seq() == all,
            entries@.len() == it.index(),
            forall|j: int|
                0 <= j < it.index() ==> (#[trigger] entries@[j]).0@ == all[j].filename@
                    && entries@[j].1@ == all[j].sha512@,
    {
        entries.push((m.filename, m.sha512));
    }
    assert(pair_views(entries@) =~= all.map_values(|m: ModuleHash| (m.filename@, m.sha512@)));
    CheckResult::Changed { new_sources: SourcesFile::serialize_ordered(sentinel_hash, entries.as_slice()) }
}

/// A file that ends in `.tar.xz` is not named `md5sums.txt`.
proof fn lemma_archive_not_sentinel(f: Seq<char>)
    requires
        is_archive_name(f),
    ensures
        f != sentinel_name(),
{
    reveal_strlit("md5sums.txt");
    reveal_strlit(".tar.xz");
    if f == sentinel_name() {
        assert(f =~= seq!['m', 'd', '5', 's', 'u', 'm', 's', '.', 't', 'x', 't']);
        // the last character would have to be both 't' and 'z'
        assert(f.skip(f.len() - 7)[6] == f[10]);
        assert(".tar.xz"@[6] == 'z');
    }
}

/// After a regeneration the sources are up to date: the text that
/// `conclude` gives for the current sentinel hash and one hexadecimal
/// SHA-512 for each archive that `md5sums.txt` lists, read back, makes
/// `needs_update` false, so that the next run without `--force` reports
/// `UpToDate`. Archive names must pass through the `sources` format
/// unchanged (no newline and no `) = ` in them).
pub proof fn lemma_regenerated_sources_up_to_date(
    current_hash: Seq<char>,
    expected_md5s: Map<Seq<char>, Seq<char>>,
    module_hashes: Seq<(Seq<char>, Seq<char>)>,
)
    requires
        current_hash.len() > 0,
        is_hex_lower(current_hash),
        forall|f: Seq<char>|
            archive_set(expected_md5s).contains(f) <==> exists|i: int|
                0 <= i < module_hashes.len() && #[trigger] module_hashes[i].0 == f,
        forall|i: int|
            0 <= i < module_hashes.len() ==> is_listable_name(#[trigger] module_hashes[i].0)
                && module_hashes[i].1.len() > 0 && is_hex_lower(module_hashes[i].1),
    ensures
        ({
            let parsed = parse_sources_spec(render_sources(current_hash, module_hashes));
            &&& parsed.0 == Some(current_hash)
            &&& !needs_update(current_hash, expected_md5s, parsed.0, parsed.1)
        }),
{
    lemma_hex_is_listable(current_hash);
    assert(is_listable_entries(module_hashes)) by {
        assert forall|i: int| 0 <= i < module_hashes.len() implies {
            &&& is_listable_name(#[trigger] module_hashes[i].0)
            &&& module_hashes[i].0 != sentinel_name()
            &&& crate::sources::is_listable_hash(module_hashes[i].1)
        } by {
            assert(is_listable_name(module_hashes[i].0));
            lemma_hex_is_listable(module_hashes[i].1);
            assert(archive_set(expected_md5s).contains(module_hashes[i].0));
            lemma_archive_not_sentinel(module_hashes[i].0);
        }
    }
    lemma_sources_roundtrip(current_hash, module_hashes);
    assert(archive_set(expected_md5s) =~= map_of(module_hashes).dom()) by {
        assert forall|f: Seq<char>| archive_set(expected_md5s).contains(f) <==> map_of(module_hashes).dom().contains(f) by {
            lemma_map_of_dom(module_hashes, f);
        }
    }
}

} // verus!
