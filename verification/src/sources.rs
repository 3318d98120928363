//! The `sources` file: a sentinel line and one SHA-512 line per archive.
use vstd::prelude::*;

use crate::file_hashes::{
    lemma_map_of_value, listing_insert, listing_of, map_of, pair_views, FileHashes,
};
use crate::hex::is_hex_lower;
use crate::text::{
    contains, is_first_match, is_whitespace, join_lines, lemma_find_some, lemma_lines_join,
    lemma_trim_unchanged, lines, lines_exec, matches_at, split_once, split_once_exec, str_eq,
    strip_cr, strip_prefix, strip_prefix_exec, trim, trim_exec,
};

verus! {

/// The view of an optional string.
pub open spec fn opt_view(o: Option<String>) -> Option<Seq<char>> {
    match o {
        Some(s) => Some(s@),
        None => None,
    }
}

/// The name under which the sentinel is stored.
pub open spec fn sentinel_name() -> Seq<char> {
    "md5sums.txt"@
}

/// A line `SHA512 (<name>) = <hash>`.
pub open spec fn sha512_line(name: Seq<char>, hash: Seq<char>) -> Seq<char> {
    "SHA512 ("@ + name + ") = "@ + hash
}

/// The name and hash that a line of the `sources` file gives, if it is a
/// `SHA512 (<name>) = <hash>` line (surrounding whitespace allowed).
pub open spec fn sha512_line_parts(line: Seq<char>) -> Option<(Seq<char>, Seq<char>)> {
    match strip_prefix(trim(line), "SHA512 ("@) {
        Some(rest) => match split_once(rest, ") = "@) {
            Some((name, hash)) => Some((name, trim(hash))),
            None => None,
        },
        None => None,
    }
}

/// What the lines of a `sources` file give: the last sentinel hash, and for
/// every other name the last hash given for it.
pub open spec fn parse_lines(ls: Seq<Seq<char>>) -> (Option<Seq<char>>, Map<Seq<char>, Seq<char>>)
    decreases ls.len(),
{
    if ls.len() == 0 {
        (None, Map::empty())
    } else {
        let (sentinel, hashes) = parse_lines(ls.drop_last());
        match sha512_line_parts(ls.last()) {
            Some((name, hash)) => if name == sentinel_name() {
                (Some(hash), hashes)
            } else {
                (sentinel, hashes.insert(name, hash))
            },
            None => (sentinel, hashes),
        }
    }
}

/// The order in which the lines of a `sources` file list the archives: by
/// first appearance of each name, with the last hash given for it.
pub open spec fn parse_listing(ls: Seq<Seq<char>>) -> Seq<(Seq<char>, Seq<char>)>
    decreases ls.len(),
{
    if ls.len() == 0 {
        Seq::empty()
    } else {
        let l = parse_listing(ls.drop_last());
        match sha512_line_parts(ls.last()) {
            Some((name, hash)) => if name == sentinel_name() {
                l
            } else {
                listing_insert(l, name, hash)
            },
            None => l,
        }
    }
}

/// What the text of a `sources` file gives.
pub open spec fn parse_sources_spec(content: Seq<char>) -> (Option<Seq<char>>, Map<Seq<char>, Seq<char>>) {
    parse_lines(lines(content))
}

/// The text of a `sources` file: the sentinel line, then one line per entry,
/// in order, separated by newlines.
pub open spec fn render_sources(sentinel_hash: Seq<char>, entries: Seq<(Seq<char>, Seq<char>)>) -> Seq<char> {
    join_lines(render_lines(sentinel_hash, entries))
}

/// The lines of a `sources` file.
pub open spec fn render_lines(sentinel_hash: Seq<char>, entries: Seq<(Seq<char>, Seq<char>)>) -> Seq<Seq<char>> {
    seq![sha512_line(sentinel_name(), sentinel_hash)] + entries.map_values(
        |e: (Seq<char>, Seq<char>)| sha512_line(e.0, e.1),
    )
}

/// A file name that a `SHA512 (<name>) = <hash>` line carries unchanged.
pub open spec fn is_listable_name(name: Seq<char>) -> bool {
    &&& !name.contains('\n')
    &&& !contains(name, ") = "@)
}

/// A hash that a `SHA512 (<name>) = <hash>` line carries unchanged: not
/// empty, no newline, and no whitespace at either end.
pub open spec fn is_listable_hash(hash: Seq<char>) -> bool {
    &&& hash.len() > 0
    &&& !hash.contains('\n')
    &&& !is_whitespace(hash[0])
    &&& !is_whitespace(hash.last())
}

/// The entries can be written to a `sources` file and read back.
pub open spec fn is_listable_entries(entries: Seq<(Seq<char>, Seq<char>)>) -> bool {
    forall|i: int|
        0 <= i < entries.len() ==> {
            &&& is_listable_name(#[trigger] entries[i].0)
            &&& entries[i].0 != sentinel_name()
            &&& is_listable_hash(entries[i].1)
        }
}

/// Every entry of the map can be written to a `sources` file and read back.
pub open spec fn is_listable_map(m: Map<Seq<char>, Seq<char>>) -> bool {
    forall|k: Seq<char>|
        #[trigger] m.contains_key(k) ==> {
            &&& is_listable_name(k)
            &&& k != sentinel_name()
            &&& is_listable_hash(m[k])
        }
}

/// Hexadecimal digests pass through the `sources` format unchanged.
pub proof fn lemma_hex_is_listable(hash: Seq<char>)
    requires
        hash.len() > 0,
        is_hex_lower(hash),
    ensures
        is_listable_hash(hash),
{
    assert(!hash.contains('\n')) by {
        if hash.contains('\n') {
            let i = choose|i: int| 0 <= i < hash.len() && hash[i] == '\n';
            assert('0' <= hash[i] <= '9' || 'a' <= hash[i] <= 'f');
        }
    }
    assert('0' <= hash[0] <= '9' || 'a' <= hash[0] <= 'f');
    assert('0' <= hash[hash.len() - 1] <= '9' || 'a' <= hash[hash.len() - 1] <= 'f');
}

proof fn lemma_sentinel_name_listable()
    ensures
        is_listable_name(sentinel_name()),
{
    reveal_strlit("md5sums.txt");
    reveal_strlit(") = ");
    let n = sentinel_name();
    assert(n =~= seq!['m', 'd', '5', 's', 'u', 'm', 's', '.', 't', 'x', 't']);
    assert forall|j: int| !matches_at(n, ") = "@, j) by {
        if matches_at(n, ") = "@, j) {
            assert(n.subrange(j, j + 4)[0] == ')');
        }
    }
}

/// The shape of a `SHA512 (<name>) = <hash>` line.
proof fn lemma_sha512_line_shape(name: Seq<char>, hash: Seq<char>)
    requires
        is_listable_name(name),
        is_listable_hash(hash),
    ensures
        !sha512_line(name, hash).contains('\n'),
        sha512_line(name, hash).len() > 0,
        strip_cr(sha512_line(name, hash)) == sha512_line(name, hash),
        sha512_line_parts(sha512_line(name, hash)) == Some((name, hash)),
{
    reveal_strlit("SHA512 (");
    reveal_strlit(") = ");
    let pre = "SHA512 ("@;
    let sep = ") = "@;
    let line = sha512_line(name, hash);
    assert(pre =~= seq!['S', 'H', 'A', '5', '1', '2', ' ', '(']);
    assert(sep =~= seq![')', ' ', '=', ' ']);
    let n = name.len() as int;
    assert(line.len() == 12 + n + hash.len());
    assert(!line.contains('\n')) by {
        assert forall|k: int| 0 <= k < line.len() implies line[k] != '\n' by {
            if 8 <= k < 8 + n {
                assert(line[k] == name[k - 8]);
            } else if 12 + n <= k {
                assert(line[k] == hash[k - 12 - n]);
            }
        }
    }
    assert(line.last() == hash.last());
    assert(line[0] == 'S');
    lemma_trim_unchanged(line);
    let rest = name + sep + hash;
    assert(strip_prefix(trim(line), pre) == Some(rest)) by {
        assert(line.take(8) =~= pre);
        assert(line.skip(8) =~= rest);
    }
    lemma_first_separator(name, hash);
    lemma_find_some(rest, sep, n);
    assert(rest.take(n) =~= name);
    assert(rest.skip(n + 4) =~= hash);
    lemma_trim_unchanged(hash);
}

/// The first `) = ` after a listable name is the one that follows it.
proof fn lemma_first_separator(name: Seq<char>, hash: Seq<char>)
    requires
        is_listable_name(name),
    ensures
        is_first_match(name + ") = "@ + hash, ") = "@, name.len() as int),
{
    reveal_strlit(") = ");
    let sep = ") = "@;
    assert(sep =~= seq![')', ' ', '=', ' ']);
    let n = name.len() as int;
    let rest = name + sep + hash;
    assert(rest.subrange(n, n + 4) =~= sep);
    assert forall|j: int| 0 <= j < n implies !matches_at(rest, sep, j) by {
        if matches_at(rest, sep, j) {
            if j + 4 <= n {
                assert(name.subrange(j, j + 4) =~= rest.subrange(j, j + 4));
                assert(matches_at(name, sep, j));
            } else {
                assert(rest.subrange(j, j + 4)[n - j] == rest[n]);
                assert(rest[n] == ')');
            }
        }
    }
}

/// What the lines of a rendered `sources` file give.
proof fn lemma_parse_render(sentinel_hash: Seq<char>, entries: Seq<(Seq<char>, Seq<char>)>)
    requires
        is_listable_hash(sentinel_hash),
        is_listable_entries(entries),
    ensures
        parse_lines(render_lines(sentinel_hash, entries)) == (Some(sentinel_hash), map_of(entries)),
    decreases entries.len(),
{
    let ls = render_lines(sentinel_hash, entries);
    lemma_sentinel_name_listable();
    if entries.len() == 0 {
        lemma_sha512_line_shape(sentinel_name(), sentinel_hash);
        assert(ls.len() == 1);
        assert(ls.last() == sha512_line(sentinel_name(), sentinel_hash));
        assert(ls.drop_last() =~= Seq::<Seq<char>>::empty());
        assert(parse_lines(ls.drop_last()) == (None::<Seq<char>>, Map::<Seq<char>, Seq<char>>::empty()));
        assert(map_of(entries) == Map::<Seq<char>, Seq<char>>::empty());
    } else {
        let init = entries.drop_last();
        assert(is_listable_entries(init)) by {
            assert forall|i: int| 0 <= i < init.len() implies {
                &&& is_listable_name(#[trigger] init[i].0)
                &&& init[i].0 != sentinel_name()
                &&& is_listable_hash(init[i].1)
            } by {
                assert(init[i] == entries[i]);
            }
        }
        lemma_parse_render(sentinel_hash, init);
        assert(ls.drop_last() =~= render_lines(sentinel_hash, init));
        let e = entries.last();
        assert(e == entries[entries.len() - 1]);
        lemma_sha512_line_shape(e.0, e.1);
        assert(ls.last() == sha512_line(e.0, e.1));
        assert(e.0 != sentinel_name());
        assert(parse_lines(ls.drop_last()) == (Some(sentinel_hash), map_of(init)));
        assert(map_of(entries) == map_of(init).insert(e.0, e.1));
    }
}

/// The text of a `sources` file is the sentinel line
/// `SHA512 (md5sums.txt) = <hash>` followed, for each entry in order, by a
/// newline and the line `SHA512 (<name>) = <hash>` with the entry's name and
/// hash as they are.
pub proof fn lemma_render_sources_text(
    sentinel_hash: Seq<char>,
    entries: Seq<(Seq<char>, Seq<char>)>,
    entry: (Seq<char>, Seq<char>),
)
    ensures
        render_sources(sentinel_hash, Seq::empty()) == "SHA512 ("@ + "md5sums.txt"@ + ") = "@
            + sentinel_hash,
        render_sources(sentinel_hash, entries.push(entry)) == render_sources(sentinel_hash, entries)
            + seq!['\n'] + "SHA512 ("@ + entry.0 + ") = "@ + entry.1,
{
    let e = Seq::<(Seq<char>, Seq<char>)>::empty();
    assert(render_lines(sentinel_hash, e) =~= seq![sha512_line(sentinel_name(), sentinel_hash)]);
    let before = render_lines(sentinel_hash, entries);
    let after = render_lines(sentinel_hash, entries.push(entry));
    assert(after =~= before.push(sha512_line(entry.0, entry.1)));
    assert(after.drop_last() =~= before);
    assert(after.len() >= 2);
}

/// One line `SHA512 (<name>) = <hash>` alone reads as the map from `name`
/// to `hash`, the hash taken as it is, with no sentinel; for every name and
/// hash that such a line carries unchanged.
pub proof fn lemma_parse_one_sha512_line(name: Seq<char>, hash: Seq<char>)
    requires
        is_listable_name(name),
        name != sentinel_name(),
        is_listable_hash(hash),
    ensures
        parse_sources_spec("SHA512 ("@ + name + ") = "@ + hash) == (
            None::<Seq<char>>,
            Map::<Seq<char>, Seq<char>>::empty().insert(name, hash),
        ),
{
    let line = sha512_line(name, hash);
    lemma_sha512_line_shape(name, hash);
    let parts = seq![line];
    assert(join_lines(parts) == line);
    lemma_lines_join(parts);
    assert(parts.drop_last() =~= Seq::<Seq<char>>::empty());
    assert(parse_lines(parts.drop_last()) == (None::<Seq<char>>, Map::<Seq<char>, Seq<char>>::empty()));
}

/// Reading back a written `sources` file gives its sentinel and entries:
/// `parse_sources(serialize_ordered(h, entries))` has sentinel `h` and the
/// map of the entries, for every sentinel hash and entries that such lines
/// carry unchanged.
pub proof fn lemma_sources_roundtrip(sentinel_hash: Seq<char>, entries: Seq<(Seq<char>, Seq<char>)>)
    requires
        is_listable_hash(sentinel_hash),
        is_listable_entries(entries),
    ensures
        parse_sources_spec(render_sources(sentinel_hash, entries)) == (
            Some(sentinel_hash),
            map_of(entries),
        ),
{
    let ls = render_lines(sentinel_hash, entries);
    lemma_sentinel_name_listable();
    lemma_sha512_line_shape(sentinel_name(), sentinel_hash);
    assert forall|i: int| 0 <= i < ls.len() implies !(#[trigger] ls[i]).contains('\n') && strip_cr(
        ls[i],
    ) == ls[i] && ls[i].len() > 0 by {
        if i > 0 {
            assert(ls[i] == sha512_line(entries[i - 1].0, entries[i - 1].1));
            lemma_sha512_line_shape(entries[i - 1].0, entries[i - 1].1);
        }
    }
    assert(ls.last() == ls[ls.len() - 1]);
    lemma_lines_join(ls);
    lemma_parse_render(sentinel_hash, entries);
}

/// Parsed representation of the `sources` file.
#[derive(Debug)]
pub struct SourcesFile {
    /// The sentinel line value: SHA-512 hash of md5sums.txt (without prefix).
    pub sentinel: Option<String>,
    /// Map of filename → SHA-512 hash for each archive.
    pub sha512s: FileHashes,
}

impl Default for SourcesFile {
    fn default() -> (res: Self)
        ensures
            res.sentinel is None,
            res.sha512s@ == Map::<Seq<char>, Seq<char>>::empty(),
            res.sha512s.listing() == Seq::<(Seq<char>, Seq<char>)>::empty(),
    {
        SourcesFile { sentinel: None, sha512s: FileHashes::new() }
    }
}

/// Appends the line `SHA512 (<name>) = <hash>`.
fn push_sha512_line(out: &mut String, name: &str, hash: &str)
    ensures
        final(out)@ == old(out)@ + sha512_line(name@, hash@),
{
    out.append("SHA512 (");
    out.append(name);
    out.append(") = ");
    out.append(hash);
}

/// Renders the sentinel line and then the entries, in order.
fn render(sentinel_hash: &str, entries: &[(String, String)]) -> (res: String)
    ensures
        res@ == render_sources(sentinel_hash@, pair_views(entries@)),
{
    let ghost parts = render_lines(sentinel_hash@, pair_views(entries@));
    let mut out = String::new();
    push_sha512_line(&mut out, "md5sums.txt", sentinel_hash);
    assert(parts.take(1) =~= seq![parts[0]]);
    let mut i: usize = 0;
    while i < entries.len()
        invariant
            parts == render_lines(sentinel_hash@, pair_views(entries@)),
            i <= entries@.len(),
            out@ == join_lines(parts.take(i + 1)),
        decreases entries@.len() - i,
    {
        proof {
            reveal_strlit("\n");
        }
        assert("\n"@ =~= seq!['\n']);
        out.append("\n");
        push_sha512_line(&mut out, entries[i].0.as_str(), entries[i].1.as_str());
        assert(parts.take(i + 2).drop_last() =~= parts.take(i + 1));
        assert(parts[i + 1] == sha512_line(entries@[i as int].0@, entries@[i as int].1@));
        assert(parts.take(i + 2).last() == parts[i + 1]);
        assert(out@ =~= join_lines(parts.take(i + 2)));
        i += 1;
    }
    assert(parts.take(entries@.len() + 1int) =~= parts);
    out
}

impl SourcesFile {
    /// Serialize back to the on-disk format, listing the entries in the
    /// order of `sha512s.listing()`.
    pub fn serialize(&self, sentinel_hash: &str) -> (res: String)
        ensures
            res@ == render_sources(sentinel_hash@, self.sha512s.listing()),
            is_listable_hash(sentinel_hash@) && is_listable_map(self.sha512s@) ==> parse_sources_spec(
                res@,
            ) == (Some(sentinel_hash@), self.sha512s@),
    {
        let pairs = self.sha512s.pairs();
        proof {
            let l = self.sha512s.listing();
            if is_listable_hash(sentinel_hash@) && is_listable_map(self.sha512s@) {
                assert forall|i: int| 0 <= i < l.len() implies {
                    &&& is_listable_name(#[trigger] l[i].0)
                    &&& l[i].0 != sentinel_name()
                    &&& is_listable_hash(l[i].1)
                } by {
                    lemma_map_of_value(l, i);
                }
                lemma_sources_roundtrip(sentinel_hash@, l);
            }
        }
        render(sentinel_hash, pairs.as_slice())
    }

    /// Build a sources file from a sentinel hash and an ordered list of (filename, sha512) pairs.
    pub fn from_entries(sentinel_hash: &str, entries: &[(String, String)]) -> (res: Self)
        ensures
            opt_view(res.sentinel) == Some(sentinel_hash@),
            res.sha512s@ == map_of(pair_views(entries@)),
            res.sha512s.listing() == listing_of(pair_views(entries@)),
    {
        let mut sha512s = FileHashes::new();
        let mut i: usize = 0;
        assert(pair_views(entries@).take(0) =~= Seq::<(Seq<char>, Seq<char>)>::empty());
        while i < entries.len()
            invariant
                i <= entries@.len(),
                sha512s@ == map_of(pair_views(entries@).take(i as int)),
                sha512s.listing() == listing_of(pair_views(entries@).take(i as int)),
            decreases entries@.len() - i,
        {
            sha512s.insert(entries[i].0.clone(), entries[i].1.clone());
            assert(pair_views(entries@).take(i + 1).drop_last() =~= pair_views(entries@).take(
                i as int,
            ));
            i += 1;
        }
        assert(pair_views(entries@).take(entries@.len() as int) =~= pair_views(entries@));
        SourcesFile { sentinel: Some(String::from_str(sentinel_hash)), sha512s }
    }

    /// Serialize from a sentinel hash and ordered entries, preserving insertion order.
    pub fn serialize_ordered(sentinel_hash: &str, entries: &[(String, String)]) -> (res: String)
        ensures
            res@ == render_sources(sentinel_hash@, pair_views(entries@)),
            is_listable_hash(sentinel_hash@) && is_listable_entries(pair_views(entries@))
                ==> parse_sources_spec(res@) == (Some(sentinel_hash@), map_of(pair_views(entries@))),
    {
        proof {
            if is_listable_hash(sentinel_hash@) && is_listable_entries(pair_views(entries@)) {
                lemma_sources_roundtrip(sentinel_hash@, pair_views(entries@));
            }
        }
        render(sentinel_hash, entries)
    }
}

/// Parse the text of a `sources` file: the `SHA512 (md5sums.txt) = ...`
/// line gives the sentinel, the other `SHA512 (<name>) = <hash>` lines the
/// archive hashes; other lines are ignored.
pub fn parse_sources(content: &str) -> (res: SourcesFile)
    ensures
        (opt_view(res.sentinel), res.sha512s@) == parse_sources_spec(content@),
        res.sha512s.listing() == parse_listing(lines(content@)),
{
    let ls = lines_exec(content);
    let ghost lv = ls@.map_values(|l: &str| l@);
    let mut file = SourcesFile { sentinel: None, sha512s: FileHashes::new() };
    let mut i: usize = 0;
    assert(lv.take(0) =~= Seq::<Seq<char>>::empty());
    while i < ls.len()
        invariant
            lv == ls@.map_values(|l: &str| l@),
            i <= ls@.len(),
            (opt_view(file.sentinel), file.sha512s@) == parse_lines(lv.take(i as int)),
            file.sha512s.listing() == parse_listing(lv.take(i as int)),
        decreases ls@.len() - i,
    {
        assert(lv.take(i + 1).drop_last() =~= lv.take(i as int));
        assert(lv.take(i + 1).last() == ls@[i as int]@);
        let line = trim_exec(ls[i]);
        if let Some(rest) = strip_prefix_exec(line, "SHA512 (") {
            if let Some((name, hash)) = split_once_exec(rest, ") = ") {
                let hash = String::from_str(trim_exec(hash));
                if str_eq(name, "md5sums.txt") {
                    file.sentinel = Some(hash);
                } else {
                    file.sha512s.insert(String::from_str(name), hash);
                }
            }
        }
        i += 1;
    }
    assert(lv.take(ls@.len() as int) =~= lv);
    file
}

} // verus!
