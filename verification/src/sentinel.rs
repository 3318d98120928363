//! The sentinel: the SHA-512 of `md5sums.txt` and the MD5s that it lists.
use vstd::prelude::*;
use vstd::utf8::{decode_utf8, encode_utf8, encode_utf8_decode_utf8, encode_utf8_valid_utf8, valid_utf8};

use crate::digest::{sha512_digest, Sha512Stream};
use crate::error::Error;
use crate::file_hashes::{listing_insert, FileHashes};
use crate::hex::{encode, hex_lower, is_hex_lower};
use crate::modules::{md5sums_url, split_version, submodule_url, version_parts};
use crate::sources::{
    lemma_hex_is_listable, lemma_sources_roundtrip, opt_view, parse_sources_spec, render_sources,
    sentinel_name, sha512_line, SourcesFile,
};
use crate::text::{
    is_first_match, is_whitespace, join_lines, lemma_find_some, lemma_lines_join,
    lemma_trim_unchanged, lines, lines_exec, matches_at, split_once, split_once_exec, str_eq,
    trim, trim_exec, utf8_len_is,
};

verus! {

/// The result of fetching and hashing `md5sums.txt`.
pub struct Sentinel {
    /// SHA-512 hash of the raw md5sums.txt content.
    pub hash: String,
    /// Parsed per-file MD5 expectations from md5sums.txt.
    pub expected_md5s: FileHashes,
}

/// How the stored sentinel relates to the current one.
#[derive(Debug, PartialEq, Eq, Structural)]
pub enum SentinelStatus {
    Unchanged,
    Changed,
    Missing,
}

/// The status of a stored sentinel against the current hash.
pub open spec fn sentinel_status(current: Seq<char>, stored: Option<Seq<char>>) -> SentinelStatus {
    match stored {
        Some(s) => if s == current {
            SentinelStatus::Unchanged
        } else {
            SentinelStatus::Changed
        },
        None => SentinelStatus::Missing,
    }
}

/// The file name and MD5 that a line `<md5>  <filename>` of `md5sums.txt`
/// gives: the parts around the first two spaces, trimmed, when the MD5 has
/// 32 bytes and the name is not empty.
pub open spec fn md5_line_parts(line: Seq<char>) -> Option<(Seq<char>, Seq<char>)> {
    match split_once(line, "  "@) {
        Some((hash, name)) => {
            let hash = trim(hash);
            let name = trim(name);
            if encode_utf8(hash).len() == 32 && name.len() > 0 {
                Some((name, hash))
            } else {
                None
            }
        },
        None => None,
    }
}

/// The map that lines of `md5sums.txt` give: for each file, the MD5 of the
/// last line that lists it.
pub open spec fn md5_entries(ls: Seq<Seq<char>>) -> Map<Seq<char>, Seq<char>>
    decreases ls.len(),
{
    if ls.len() == 0 {
        Map::empty()
    } else {
        let m = md5_entries(ls.drop_last());
        match md5_line_parts(ls.last()) {
            Some((name, hash)) => m.insert(name, hash),
            None => m,
        }
    }
}

/// The order in which the lines of `md5sums.txt` list the files: by first
/// appearance, with the last MD5 given for each.
pub open spec fn md5_listing(ls: Seq<Seq<char>>) -> Seq<(Seq<char>, Seq<char>)>
    decreases ls.len(),
{
    if ls.len() == 0 {
        Seq::empty()
    } else {
        let l = md5_listing(ls.drop_last());
        match md5_line_parts(ls.last()) {
            Some((name, hash)) => listing_insert(l, name, hash),
            None => l,
        }
    }
}

/// The text of `md5sums.txt`: its bytes decoded as UTF-8, or nothing when
/// they are not UTF-8.
pub open spec fn md5sums_text(body: Seq<u8>) -> Seq<char> {
    if valid_utf8(body) {
        decode_utf8(body)
    } else {
        Seq::empty()
    }
}

/// What the bytes of `md5sums.txt` give.
pub open spec fn parse_md5sums_spec(body: Seq<u8>) -> Map<Seq<char>, Seq<char>> {
    md5_entries(lines(md5sums_text(body)))
}

/// `std::str::from_utf8`: the text that `body` encodes, when it is UTF-8.
#[verifier::external_body]
fn utf8_str(body: &[u8]) -> (res: Option<&str>)
    ensures
        match res {
            Some(s) => encode_utf8(s@) == body@,
            None => !valid_utf8(body@),
        },
{
    match std::str::from_utf8(body) {
        Ok(s) => Some(s),
        Err(_) => None,
    }
}

/// Parse md5sums.txt content into a filename → MD5 map.
pub fn parse_md5sums(body: &[u8]) -> (res: FileHashes)
    ensures
        res@ == parse_md5sums_spec(body@),
        res.listing() == md5_listing(lines(md5sums_text(body@))),
{
    let text: &str = match utf8_str(body) {
        Some(s) => {
            proof {
                encode_utf8_decode_utf8(s@);
                encode_utf8_valid_utf8(s@);
            }
            s
        },
        None => {
            proof {
                reveal_strlit("");
            }
            ""
        },
    };
    assert(text@ == md5sums_text(body@));
    let ls = lines_exec(text);
    let ghost lv = ls@.map_values(|l: &str| l@);
    let mut map = FileHashes::new();
    let mut i: usize = 0;
    assert(lv.take(0) =~= Seq::<Seq<char>>::empty());
    while i < ls.len()
        invariant
            lv == ls@.map_values(|l: &str| l@),
            i <= ls@.len(),
            map@ == md5_entries(lv.take(i as int)),
            map.listing() == md5_listing(lv.take(i as int)),
        decreases ls@.len() - i,
    {
        assert(lv.take(i + 1).drop_last() =~= lv.take(i as int));
        assert(lv.take(i + 1).last() == ls@[i as int]@);
        // Format: "<md5hash>  <filename>" (two spaces between hash and name)
        if let Some((hash, name)) = split_once_exec(ls[i], "  ") {
            let hash = trim_exec(hash);
            let name = trim_exec(name);
            if utf8_len_is(hash, 32) && !name.is_empty() {
                map.insert(String::from_str(name), String::from_str(hash));
            }
        }
        i += 1;
    }
    assert(lv.take(ls@.len() as int) =~= lv);
    map
}

impl Sentinel {
    /// The sentinel of the bytes of `md5sums.txt`: their SHA-512 in
    /// hexadecimal, and the MD5s they list.
    pub fn from_body(body: &[u8]) -> (res: Sentinel)
        ensures
            res.hash@ == hex_lower(sha512_digest(body@)),
            res.hash@.len() == 128,
            is_hex_lower(res.hash@),
            res.expected_md5s@ == parse_md5sums_spec(body@),
            res.expected_md5s.listing() == md5_listing(lines(md5sums_text(body@))),
    {
        let mut hasher = Sha512Stream::new();
        hasher.update(body);
        assert(Seq::<u8>::empty() + body@ =~= body@);
        let digest = hasher.finalize();
        Sentinel { hash: encode(digest.as_slice()), expected_md5s: parse_md5sums(body) }
    }
}

/// Where a release's `md5sums.txt` is, or `InvalidVersion` when `version`
/// is not of the form `X.Y.Z`.
pub fn md5sums_location(version: &str) -> (res: Result<String, Error>)
    ensures
        match version_parts(version@) {
            Some((major_minor, _)) => res matches Ok(url) && url@ == submodule_url(
                major_minor,
                version@,
                "md5sums.txt"@,
            ),
            None => res matches Err(Error::InvalidVersion(v)) && v@ == version@,
        },
{
    match split_version(version) {
        Some((major_minor, _)) => Ok(md5sums_url(major_minor, version)),
        None => Err(Error::InvalidVersion(String::from_str(version))),
    }
}

/// A sources file that holds only the sentinel line of a hash (what a dry
/// run reports) reads back with that hash as its sentinel and no archives,
/// and so compares as unchanged against that hash; a file with no sentinel
/// line compares as missing.
pub proof fn lemma_sentinel_line_read_back(hash: Seq<char>)
    requires
        hash.len() > 0,
        is_hex_lower(hash),
    ensures
        parse_sources_spec(sha512_line(sentinel_name(), hash)) == (
            Some(hash),
            Map::<Seq<char>, Seq<char>>::empty(),
        ),
        sentinel_status(hash, Some(hash)) == SentinelStatus::Unchanged,
        sentinel_status(hash, None) == SentinelStatus::Missing,
{
    lemma_hex_is_listable(hash);
    let none = Seq::<(Seq<char>, Seq<char>)>::empty();
    lemma_sources_roundtrip(hash, none);
    assert(render_sources(hash, none) == sha512_line(sentinel_name(), hash)) by {
        let parts = seq![sha512_line(sentinel_name(), hash)] + none.map_values(
            |e: (Seq<char>, Seq<char>)| sha512_line(e.0, e.1),
        );
        assert(parts =~= seq![sha512_line(sentinel_name(), hash)]);
    }
}

/// A stored sentinel compares as unchanged exactly when it is the current
/// hash: any other stored hash, whatever its length or content, is a change,
/// and no stored hash is missing.
pub proof fn lemma_status_by_equality(current: Seq<char>, stored: Seq<char>)
    ensures
        sentinel_status(current, Some(stored)) == SentinelStatus::Unchanged <==> stored == current,
        stored != current ==> sentinel_status(current, Some(stored)) == SentinelStatus::Changed,
        sentinel_status(current, None) == SentinelStatus::Missing,
{
}

/// A line `<hash>  <name>` of `md5sums.txt` gives `name` with `hash`,
/// whatever the name: for a hash of 32 bytes without whitespace and a
/// non-empty name without a newline and without whitespace at its ends, the
/// line alone parses to the map with just that entry.
pub proof fn lemma_md5_line_read(hash: Seq<char>, name: Seq<char>)
    requires
        encode_utf8(hash).len() == 32,
        forall|i: int| 0 <= i < hash.len() ==> !is_whitespace(#[trigger] hash[i]),
        name.len() > 0,
        !is_whitespace(name[0]),
        !is_whitespace(name.last()),
        !name.contains('\n'),
    ensures
        md5_line_parts(hash + "  "@ + name) == Some((name, hash)),
        parse_md5sums_spec(encode_utf8(hash + "  "@ + name)) == Map::<Seq<char>, Seq<char>>::empty().insert(
            name,
            hash,
        ),
{
    reveal_strlit("  ");
    let sep = "  "@;
    assert(sep =~= seq![' ', ' ']);
    let line = hash + sep + name;
    let k = hash.len() as int;
    assert(hash.len() > 0) by {
        if hash.len() == 0 {
            assert(hash =~= Seq::<char>::empty());
        }
    }
    assert(line.subrange(k, k + 2) =~= sep);
    assert forall|j: int| 0 <= j < k implies !matches_at(line, sep, j) by {
        if matches_at(line, sep, j) {
            assert(line.subrange(j, j + 2)[0] == line[j]);
            assert(line[j] == hash[j]);
            assert(!is_whitespace(hash[j]));
        }
    }
    assert(is_first_match(line, sep, k));
    lemma_find_some(line, sep, k);
    assert(line.take(k) =~= hash);
    assert(line.skip(k + 2) =~= name);
    assert(!is_whitespace(hash[0]));
    assert(!is_whitespace(hash[hash.len() - 1]));
    lemma_trim_unchanged(hash);
    lemma_trim_unchanged(name);
    // the line alone
    assert(!line.contains('\n')) by {
        assert forall|i: int| 0 <= i < line.len() implies line[i] != '\n' by {
            if i < k {
                assert(line[i] == hash[i]);
                assert(!is_whitespace(hash[i]));
            } else if i >= k + 2 {
                assert(line[i] == name[i - k - 2]);
            }
        }
    }
    let parts = seq![line];
    assert(join_lines(parts) == line);
    lemma_lines_join(parts);
    encode_utf8_valid_utf8(line);
    encode_utf8_decode_utf8(line);
    assert(md5sums_text(encode_utf8(line)) == line);
    assert(lines(line) == parts);
    assert(parts.drop_last() =~= Seq::<Seq<char>>::empty());
    assert(md5_entries(parts.drop_last()) == Map::<Seq<char>, Seq<char>>::empty());
}

/// Compares the stored sentinel with the current one.
pub fn compare_sentinel(sentinel: &Sentinel, sources: &SourcesFile) -> (res: SentinelStatus)
    ensures
        res == sentinel_status(sentinel.hash@, opt_view(sources.sentinel)),
{
    match &sources.sentinel {
        Some(stored) => if str_eq(stored.as_str(), sentinel.hash.as_str()) {
            SentinelStatus::Unchanged
        } else {
            SentinelStatus::Changed
        },
        None => SentinelStatus::Missing,
    }
}

} // verus!
