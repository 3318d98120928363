//! Qt archive names and download locations, derived from `md5sums.txt`.
use vstd::prelude::*;

use crate::file_hashes::FileHashes;
use crate::sources::SourcesFile;
use crate::text::{
    contains, contains_exec, ends_with, ends_with_exec, find, lemma_lex_lt_asymmetric,
    lemma_lex_lt_irreflexive, lemma_lex_lt_total,
    lemma_find_some, lemma_lex_lt_transitive, lex_lt, is_first_match, matches_at, rsplit_once, rsplit_once_exec, split_once_exec, starts_with,
    starts_with_exec, str_lt,
};

verus! {

/// Where Qt's official releases are published.
pub const BASE_URL: &'static str = "https://download.qt.io/official_releases/qt";

/// The views of a list of strings.
pub open spec fn string_views(v: Seq<String>) -> Seq<Seq<char>> {
    v.map_values(|s: String| s@)
}

/// A source archive of one Qt submodule: a `*-everywhere-src-*.tar.xz`
/// file that is not the `qt-everywhere-src` bundle of all of them.
pub open spec fn is_archive_name(f: Seq<char>) -> bool {
    &&& ends_with(f, ".tar.xz"@)
    &&& contains(f, "-everywhere-src-"@)
    &&& !starts_with(f, "qt-everywhere-src-"@)
}

/// Each element of `s` comes strictly before the next ones.
pub open spec fn strictly_sorted(s: Seq<Seq<char>>) -> bool {
    forall|i: int, j: int| 0 <= i < j < s.len() ==> lex_lt(#[trigger] s[i], #[trigger] s[j])
}

/// The archive names among the files of `md5s`.
pub open spec fn archive_set(md5s: Map<Seq<char>, Seq<char>>) -> Set<Seq<char>> {
    Set::new(|f: Seq<char>| md5s.contains_key(f) && is_archive_name(f))
}

/// The module that an archive holds: its name up to `-everywhere-src-`,
/// or the whole name when that does not occur.
pub open spec fn module_of(filename: Seq<char>) -> Seq<char> {
    match find(filename, "-everywhere-src-"@) {
        Some(i) => filename.take(i),
        None => filename,
    }
}

/// The name of the source archive of `module` at `version`.
pub open spec fn archive_filename_of(module: Seq<char>, version: Seq<char>) -> Seq<char> {
    module + "-everywhere-src-"@ + version + ".tar.xz"@
}

/// The address of the file `filename` among the submodules of a release.
pub open spec fn submodule_url(major_minor: Seq<char>, version: Seq<char>, filename: Seq<char>) -> Seq<char> {
    BASE_URL@ + "/"@ + major_minor + "/"@ + version + "/submodules/"@ + filename
}

/// A strictly sorted list is determined by the set of its elements: the
/// archive names come out in the same order whatever order the map holds
/// them in.
pub proof fn lemma_sorted_listing_unique(a: Seq<Seq<char>>, b: Seq<Seq<char>>)
    requires
        strictly_sorted(a),
        strictly_sorted(b),
        forall|f: Seq<char>| a.contains(f) <==> b.contains(f),
    ensures
        a == b,
    decreases a.len(),
{
    if a.len() == 0 {
        if b.len() > 0 {
            assert(b.contains(b[0]));
        }
        assert(a =~= b);
    } else {
        assert(a.contains(a[0]));
        let j = choose|j: int| 0 <= j < b.len() && b[j] == a[0];
        assert(b.contains(b[0]));
        let i = choose|i: int| 0 <= i < a.len() && a[i] == b[0];
        if j > 0 {
            assert(lex_lt(b[0], b[j]));
            if i > 0 {
                assert(lex_lt(a[0], a[i]));
                lemma_lex_lt_asymmetric(b[0], a[0]);
            } else {
                lemma_lex_lt_irreflexive(b[0]);
            }
        }
        assert(a[0] == b[0]);
        let a1 = a.drop_first();
        let b1 = b.drop_first();
        assert(strictly_sorted(a1)) by {
            assert forall|x: int, y: int| 0 <= x < y < a1.len() implies lex_lt(#[trigger] a1[x], #[trigger] a1[y]) by {
                assert(a1[x] == a[x + 1] && a1[y] == a[y + 1]);
            }
        }
        assert(strictly_sorted(b1)) by {
            assert forall|x: int, y: int| 0 <= x < y < b1.len() implies lex_lt(#[trigger] b1[x], #[trigger] b1[y]) by {
                assert(b1[x] == b[x + 1] && b1[y] == b[y + 1]);
            }
        }
        assert forall|f: Seq<char>| a1.contains(f) <==> b1.contains(f) by {
            if a1.contains(f) {
                let x = choose|x: int| 0 <= x < a1.len() && a1[x] == f;
                assert(a.contains(f)) by { assert(a[x + 1] == f); }
                assert(lex_lt(a[0], a[x + 1]));
                let y = choose|y: int| 0 <= y < b.len() && b[y] == f;
                if y == 0 {
                    lemma_lex_lt_irreflexive(f);
                }
                assert(b1[y - 1] == f);
            }
            if b1.contains(f) {
                let x = choose|x: int| 0 <= x < b1.len() && b1[x] == f;
                assert(b.contains(f)) by { assert(b[x + 1] == f); }
                assert(lex_lt(b[0], b[x + 1]));
                let y = choose|y: int| 0 <= y < a.len() && a[y] == f;
                if y == 0 {
                    lemma_lex_lt_irreflexive(f);
                }
                assert(a1[y - 1] == f);
            }
        }
        lemma_sorted_listing_unique(a1, b1);
        assert(a =~= seq![a[0]] + a1);
        assert(b =~= seq![b[0]] + b1);
    }
}

/// Inserts `x` into a strictly sorted list that does not hold it.
fn insert_sorted(out: &mut Vec<String>, x: String)
    requires
        strictly_sorted(string_views(old(out)@)),
        !string_views(old(out)@).contains(x@),
    ensures
        strictly_sorted(string_views(final(out)@)),
        final(out)@.len() == old(out)@.len() + 1,
        forall|f: Seq<char>|
            string_views(final(out)@).contains(f) <==> (string_views(old(out)@).contains(f) || f
                == x@),
{
    let ghost old_v = string_views(out@);
    let mut k: usize = 0;
    while k < out.len() && !str_lt(x.as_str(), out[k].as_str())
        invariant
            old_v == string_views(out@),
            strictly_sorted(old_v),
            !old_v.contains(x@),
            k <= out@.len(),
            forall|m: int| 0 <= m < k ==> lex_lt(#[trigger] old_v[m], x@),
        decreases out@.len() - k,
    {
        proof {
            assert(old_v[k as int] != x@);
            lemma_lex_lt_total(old_v[k as int], x@);
        }
        k += 1;
    }
    out.insert(k, x);
    let ghost new_v = string_views(out@);
    assert(new_v =~= old_v.insert(k as int, x@));
    assert forall|i: int, j: int| 0 <= i < j < new_v.len() implies lex_lt(
        #[trigger] new_v[i],
        #[trigger] new_v[j],
    ) by {
        if j < k {
        } else if j == k {
        } else if i < k {
            assert(new_v[j] == old_v[j - 1]);
            assert(lex_lt(old_v[i], x@));
            assert(lex_lt(x@, old_v[k as int]));
            if j - 1 > k {
                lemma_lex_lt_transitive(x@, old_v[k as int], old_v[j - 1]);
            }
            lemma_lex_lt_transitive(old_v[i], x@, old_v[j - 1]);
        } else if i == k {
            assert(lex_lt(x@, old_v[k as int]));
            if j - 1 > k {
                lemma_lex_lt_transitive(x@, old_v[k as int], old_v[j - 1]);
            }
        } else {
            assert(new_v[i] == old_v[i - 1] && new_v[j] == old_v[j - 1]);
        }
    }
    assert forall|f: Seq<char>| new_v.contains(f) <==> (old_v.contains(f) || f == x@) by {
        if new_v.contains(f) {
            let i = choose|i: int| 0 <= i < new_v.len() && new_v[i] == f;
            if i < k {
                assert(old_v[i] == f);
            } else if i > k {
                assert(old_v[i - 1] == f);
            }
        }
        if old_v.contains(f) {
            let i = choose|i: int| 0 <= i < old_v.len() && old_v[i] == f;
            if i < k {
                assert(new_v[i] == f);
            } else {
                assert(new_v[i + 1] == f);
            }
        }
        if f == x@ {
            assert(new_v[k as int] == f);
        }
    }
}

/// Extract sorted archive filenames from md5sums.txt entries.
///
/// Filters to files matching the `*-everywhere-src-*.tar.xz` pattern,
/// excluding the `qt-everywhere-src` mega-bundle.
pub fn archive_filenames(md5_entries: &FileHashes) -> (res: Vec<String>)
    ensures
        strictly_sorted(string_views(res@)),
        forall|f: Seq<char>|
            string_views(res@).contains(f) <==> archive_set(md5_entries@).contains(f),
{
    let keys = md5_entries.keys();
    let mut out: Vec<String> = Vec::new();
    let mut i: usize = 0;
    while i < keys.len()
        invariant
            i <= keys@.len(),
            forall|a: int, b: int|
                0 <= a < keys@.len() && 0 <= b < keys@.len() && a != b ==> #[trigger] keys@[a]@
                    != #[trigger] keys@[b]@,
            strictly_sorted(string_views(out@)),
            forall|f: Seq<char>|
                string_views(out@).contains(f) <==> exists|j: int|
                    0 <= j < i && #[trigger] keys@[j]@ == f && is_archive_name(f),
        decreases keys@.len() - i,
    {
        let name = &keys[i];
        let keep = ends_with_exec(name.as_str(), ".tar.xz") && contains_exec(
            name.as_str(),
            "-everywhere-src-",
        ) && !starts_with_exec(name.as_str(), "qt-everywhere-src-");
        let ghost before = string_views(out@);
        if keep {
            assert(!before.contains(name@)) by {
                if before.contains(name@) {
                    let j = choose|j: int| 0 <= j < i && #[trigger] keys@[j]@ == name@ && is_archive_name(name@);
                    assert(keys@[j]@ != keys@[i as int]@);
                }
            }
            insert_sorted(&mut out, name.clone());
        }
        assert forall|f: Seq<char>|
            string_views(out@).contains(f) <==> exists|j: int|
                0 <= j < i + 1 && #[trigger] keys@[j]@ == f && is_archive_name(f) by {
            if exists|j: int| 0 <= j < i + 1 && #[trigger] keys@[j]@ == f && is_archive_name(f) {
                let j = choose|j: int| 0 <= j < i + 1 && #[trigger] keys@[j]@ == f && is_archive_name(f);
                if j < i {
                    assert(before.contains(f));
                }
            }
        }
        i += 1;
    }
    assert forall|f: Seq<char>|
        string_views(out@).contains(f) <==> archive_set(md5_entries@).contains(f) by {
        if md5_entries@.contains_key(f) && is_archive_name(f) {
            let j = choose|j: int| 0 <= j < keys@.len() && #[trigger] keys@[j]@ == f;
            assert(keys@[j]@ == f);
        }
    }
    out
}

/// Compare the set of modules in the existing sources file against what
/// md5sums.txt lists. Returns `true` if they match exactly.
pub fn modules_match(expected_md5s: &FileHashes, existing: &SourcesFile) -> (res: bool)
    ensures
        res == (archive_set(expected_md5s@) == existing.sha512s@.dom()),
{
    let upstream = archive_filenames(expected_md5s);
    let mut i: usize = 0;
    while i < upstream.len()
        invariant
            i <= upstream@.len(),
            forall|f: Seq<char>|
                string_views(upstream@).contains(f) <==> archive_set(expected_md5s@).contains(f),
            forall|j: int| 0 <= j < i ==> existing.sha512s@.contains_key(#[trigger] upstream@[j]@),
        decreases upstream@.len() - i,
    {
        if !existing.sha512s.contains_key(upstream[i].as_str()) {
            proof {
                let f = upstream@[i as int]@;
                assert(string_views(upstream@).contains(f)) by {
                    assert(string_views(upstream@)[i as int] == f);
                }
                assert(archive_set(expected_md5s@).contains(f));
            }
            return false;
        }
        i += 1;
    }
    let stored = existing.sha512s.keys();
    let mut k: usize = 0;
    while k < stored.len()
        invariant
            k <= stored@.len(),
            forall|j: int| 0 <= j < stored@.len() ==> existing.sha512s@.contains_key(#[trigger] stored@[j]@),
            forall|j: int|
                0 <= j < k ==> #[trigger] archive_set(expected_md5s@).contains(stored@[j]@),
        decreases stored@.len() - k,
    {
        let name = stored[k].as_str();
        if !(ends_with_exec(name, ".tar.xz") && contains_exec(name, "-everywhere-src-")
            && !starts_with_exec(name, "qt-everywhere-src-") && expected_md5s.contains_key(name)) {
            proof {
                assert(existing.sha512s@.contains_key(stored@[k as int]@));
                assert(!archive_set(expected_md5s@).contains(stored@[k as int]@));
            }
            return false;
        }
        k += 1;
    }
    assert(archive_set(expected_md5s@) =~= existing.sha512s@.dom()) by {
        assert forall|f: Seq<char>| archive_set(expected_md5s@).contains(f) implies existing.sha512s@.dom().contains(f) by {
            assert(string_views(upstream@).contains(f));
            let j = choose|j: int| 0 <= j < upstream@.len() && string_views(upstream@)[j] == f;
            assert(existing.sha512s@.contains_key(upstream@[j]@));
        }
        assert forall|f: Seq<char>| existing.sha512s@.dom().contains(f) implies archive_set(expected_md5s@).contains(f) by {
            assert(existing.sha512s@.contains_key(f));
            let j = choose|j: int| 0 <= j < stored@.len() && #[trigger] stored@[j]@ == f;
            assert(archive_set(expected_md5s@).contains(stored@[j]@));
        }
    }
    true
}

/// Extract the module name from an archive filename.
///
/// e.g. `"qtbase-everywhere-src-6.11.0.tar.xz"` → `"qtbase"`
pub fn module_name(filename: &str) -> (res: &str)
    ensures
        res@ == module_of(filename@),
{
    match split_once_exec(filename, "-everywhere-src-") {
        Some((before, _)) => before,
        None => filename,
    }
}

/// A version `X.Y.Z` split into `X.Y` and `Z`, where `X`, `Y` and `Z` are
/// not empty and hold no `.`; nothing for a string of any other form.
pub open spec fn version_parts(version: Seq<char>) -> Option<(Seq<char>, Seq<char>)> {
    match rsplit_once(version, '.') {
        Some((major_minor, patch)) => match rsplit_once(major_minor, '.') {
            Some((major, minor)) => if major.len() > 0 && rsplit_once(major, '.') is None
                && minor.len() > 0 && patch.len() > 0 {
                Some((major_minor, patch))
            } else {
                None
            },
            None => None,
        },
        None => None,
    }
}

/// Split "X.Y.Z" into ("X.Y", "Z"). Returns `None` if the format is invalid.
pub fn split_version(version: &str) -> (res: Option<(&str, &str)>)
    ensures
        match res {
            Some((a, b)) => version_parts(version@) == Some((a@, b@)),
            None => version_parts(version@) is None,
        },
{
    let (major_minor, patch) = match rsplit_once_exec(version, '.') {
        Some(parts) => parts,
        None => return None,
    };
    let (major, minor) = match rsplit_once_exec(major_minor, '.') {
        Some(parts) => parts,
        None => return None,
    };
    if major.is_empty() || rsplit_once_exec(major, '.').is_some() || minor.is_empty()
        || patch.is_empty() {
        return None;
    }
    Some((major_minor, patch))
}

/// Inside `-everywhere-src-`, the only `-` that is neither first nor last
/// is followed by `s`.
proof fn lemma_marker_inner_dash(p: Seq<char>)
    requires
        p == seq!['-', 'e', 'v', 'e', 'r', 'y', 'w', 'h', 'e', 'r', 'e', '-', 's', 'r', 'c', '-'],
    ensures
        forall|i: int| 1 <= i < 15 && p[i] == '-' ==> i == 11,
        p[12] == 's',
        p.len() == 16,
{
}

/// No `-everywhere-src-` starts in `module` before the appended one.
proof fn lemma_no_marker_in_module(module: Seq<char>, p: Seq<char>, j: int)
    requires
        p == seq!['-', 'e', 'v', 'e', 'r', 'y', 'w', 'h', 'e', 'r', 'e', '-', 's', 'r', 'c', '-'],
        !contains(module + seq!['-'], p),
        0 <= j < module.len(),
    ensures
        !matches_at(module + p, p, j),
{
    lemma_marker_inner_dash(p);
    let t = module + p;
    let n = module.len() as int;
    let head = module + seq!['-'];
    if matches_at(t, p, j) {
        if j + 16 <= n + 1 {
            assert(head.subrange(j, j + 16) =~= t.subrange(j, j + 16));
            assert(matches_at(head, p, j));
        } else {
            let k = n + 1 - j;
            assert(t[n] == '-' && t[n + 1] == 'e');
            assert(t.subrange(j, j + 16)[k - 1] == t[n]);
            assert(t.subrange(j, j + 16)[k] == t[n + 1]);
            assert(p[k - 1] == '-');
            assert(k - 1 == 11);
        }
    }
}

/// In `module` followed by `-everywhere-src-`, the marker occurs first where
/// it was appended, when `module` followed by `-` does not hold it.
proof fn lemma_marker_first_after_module(module: Seq<char>, p: Seq<char>)
    requires
        p == seq!['-', 'e', 'v', 'e', 'r', 'y', 'w', 'h', 'e', 'r', 'e', '-', 's', 'r', 'c', '-'],
        !contains(module + seq!['-'], p),
    ensures
        is_first_match(module + p, p, module.len() as int),
{
    let t = module + p;
    let n = module.len() as int;
    assert(t.subrange(n, n + 16) =~= p);
    assert forall|j: int| 0 <= j < n implies !matches_at(t, p, j) by {
        lemma_no_marker_in_module(module, p, j);
    }
}

/// The module of an archive is the module it was named for, whenever the
/// module name followed by `-` holds no `-everywhere-src-`:
/// `module_name(&archive_filename(m, v)) == m` for every version `v`.
pub proof fn lemma_module_of_archive_filename(module: Seq<char>, version: Seq<char>)
    requires
        !contains(module + seq!['-'], "-everywhere-src-"@),
    ensures
        module_of(archive_filename_of(module, version)) == module,
{
    reveal_strlit("-everywhere-src-");
    let p = "-everywhere-src-"@;
    assert(p =~= seq!['-', 'e', 'v', 'e', 'r', 'y', 'w', 'h', 'e', 'r', 'e', '-', 's', 'r', 'c', '-']);
    let s = archive_filename_of(module, version);
    let n = module.len() as int;
    let t = module + p;
    lemma_marker_first_after_module(module, p);
    assert(s.take(n + 16) =~= t);
    assert forall|j: int| 0 <= j < n implies !matches_at(s, p, j) by {
        if matches_at(s, p, j) {
            assert(s.subrange(j, j + 16) =~= t.subrange(j, j + 16));
            assert(matches_at(t, p, j));
        }
    }
    assert(s.subrange(n, n + 16) =~= p);
    assert(is_first_match(s, p, n));
    lemma_find_some(s, p, n);
    assert(s.take(n) =~= module);
}

/// In `qt-everywhere-src-`, the `-` before the last one are at 2 and 13.
proof fn lemma_bundle_prefix_dashes(q: Seq<char>)
    requires
        q == seq!['q', 't', '-', 'e', 'v', 'e', 'r', 'y', 'w', 'h', 'e', 'r', 'e', '-', 's', 'r', 'c', '-'],
    ensures
        forall|i: int| 0 <= i < 17 && q[i] == '-' ==> i == 2 || i == 13,
        q[14] == 's',
        q.len() == 18,
{
}

/// Every archive named for a module other than the `qt` bundle is an
/// archive of a submodule: `<module>-everywhere-src-<version>.tar.xz` passes
/// the filter for every version, whenever the module is not `qt` and the
/// module followed by `-` holds no `-everywhere-src-`. Only the names that
/// begin with `qt-everywhere-src-` are left out, so a module such as
/// `qtactiveqt` is kept.
pub proof fn lemma_submodule_archive_kept(module: Seq<char>, version: Seq<char>)
    requires
        module != "qt"@,
        !contains(module + seq!['-'], "-everywhere-src-"@),
    ensures
        is_archive_name(archive_filename_of(module, version)),
{
    reveal_strlit("-everywhere-src-");
    reveal_strlit("qt-everywhere-src-");
    reveal_strlit(".tar.xz");
    reveal_strlit("qt");
    let p = "-everywhere-src-"@;
    let q = "qt-everywhere-src-"@;
    let t = ".tar.xz"@;
    assert(p =~= seq!['-', 'e', 'v', 'e', 'r', 'y', 'w', 'h', 'e', 'r', 'e', '-', 's', 'r', 'c', '-']);
    assert(q =~= seq!['q', 't', '-', 'e', 'v', 'e', 'r', 'y', 'w', 'h', 'e', 'r', 'e', '-', 's', 'r', 'c', '-']);
    assert(t.len() == 7);
    let f = archive_filename_of(module, version);
    let n = module.len() as int;
    let head = module + seq!['-'];
    // ends with ".tar.xz"
    assert(f.skip(f.len() - 7) =~= t);
    // holds the marker after the module
    assert(f.subrange(n, n + 16) =~= p);
    assert(matches_at(f, p, n));
    // does not begin with the bundle's prefix
    if starts_with(f, q) {
        lemma_bundle_prefix_dashes(q);
        assert(f[n] == '-' && f[n + 1] == 'e');
        if n >= 17 {
            assert(head.subrange(2, 18) =~= f.subrange(2, 18));
            assert(f.subrange(2, 18) =~= q.subrange(2, 18));
            assert(q.subrange(2, 18) =~= p);
            assert(matches_at(head, p, 2));
        } else {
            assert(f.take(18)[n] == f[n]);
            assert(q[n] == '-');
            if n == 13 {
                assert(f.take(18)[14] == f[14]);
            } else {
                assert(n == 2);
                assert(module =~= f.take(18).take(2));
                assert(q.take(2) =~= "qt"@);
            }
        }
    }
}

/// The archive name of `module` at `version`.
pub fn archive_filename(module: &str, version: &str) -> (res: String)
    ensures
        res@ == archive_filename_of(module@, version@),
{
    let mut s = String::from_str(module);
    s.append("-everywhere-src-");
    s.append(version);
    s.append(".tar.xz");
    s
}

/// The address of an archive of a release.
pub fn archive_url(major_minor: &str, version: &str, filename: &str) -> (res: String)
    ensures
        res@ == submodule_url(major_minor@, version@, filename@),
{
    let mut s = String::from_str(BASE_URL);
    s.append("/");
    s.append(major_minor);
    s.append("/");
    s.append(version);
    s.append("/submodules/");
    s.append(filename);
    s
}

/// The address of a release's `md5sums.txt`.
pub fn md5sums_url(major_minor: &str, version: &str) -> (res: String)
    ensures
        res@ == submodule_url(major_minor@, version@, "md5sums.txt"@),
{
    archive_url(major_minor, version, "md5sums.txt")
}

} // verus!
