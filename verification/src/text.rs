//! Character-level string operations with their specifications.
//!
//! Strings are modelled by their views, sequences of `char`. Each executable
//! function here is specified by the open spec function of the same meaning.
use vstd::prelude::*;
use vstd::utf8::{char_is_scalar, encode_scalar, encode_utf8};

verus! {

// ---------------------------------------------------------------------------
// Specifications
// ---------------------------------------------------------------------------

/// `p` occurs in `s` starting at index `i`.
pub open spec fn matches_at(s: Seq<char>, p: Seq<char>, i: int) -> bool {
    0 <= i && i + p.len() <= s.len() && s.subrange(i, i + p.len()) == p
}

/// `i` is the first index at which `p` occurs in `s`.
pub open spec fn is_first_match(s: Seq<char>, p: Seq<char>, i: int) -> bool {
    &&& matches_at(s, p, i)
    &&& forall|j: int| 0 <= j < i ==> !matches_at(s, p, j)
}

/// The index of the first occurrence of `p` in `s`, if any.
pub open spec fn find(s: Seq<char>, p: Seq<char>) -> Option<int> {
    if exists|i: int| is_first_match(s, p, i) {
        Some(choose|i: int| is_first_match(s, p, i))
    } else {
        None
    }
}

/// `s` contains `p` somewhere.
pub open spec fn contains(s: Seq<char>, p: Seq<char>) -> bool {
    exists|i: int| matches_at(s, p, i)
}

/// `s` begins with `p`.
pub open spec fn starts_with(s: Seq<char>, p: Seq<char>) -> bool {
    p.len() <= s.len() && s.take(p.len() as int) == p
}

/// `s` ends with `p`.
pub open spec fn ends_with(s: Seq<char>, p: Seq<char>) -> bool {
    p.len() <= s.len() && s.skip(s.len() - p.len()) == p
}

/// The part of `s` after the prefix `p`, when `s` begins with `p`.
pub open spec fn strip_prefix(s: Seq<char>, p: Seq<char>) -> Option<Seq<char>> {
    if starts_with(s, p) {
        Some(s.skip(p.len() as int))
    } else {
        None
    }
}

/// `s` split around the first occurrence of `p`: what comes before it and
/// what comes after it.
pub open spec fn split_once(s: Seq<char>, p: Seq<char>) -> Option<(Seq<char>, Seq<char>)> {
    match find(s, p) {
        Some(i) => Some((s.take(i), s.skip(i + p.len()))),
        None => None,
    }
}

/// `i` is the index of the last `c` in `s`.
pub open spec fn is_last_index(s: Seq<char>, c: char, i: int) -> bool {
    &&& 0 <= i < s.len()
    &&& s[i] == c
    &&& forall|j: int| i < j < s.len() ==> s[j] != c
}

/// `s` split around the last occurrence of the character `c`.
pub open spec fn rsplit_once(s: Seq<char>, c: char) -> Option<(Seq<char>, Seq<char>)> {
    if exists|i: int| is_last_index(s, c, i) {
        let i = choose|i: int| is_last_index(s, c, i);
        Some((s.take(i), s.skip(i + 1)))
    } else {
        None
    }
}

/// The characters that Unicode gives the `White_Space` property
/// (`char::is_whitespace`).
pub open spec fn is_whitespace(c: char) -> bool {
    ||| '\u{9}' <= c <= '\u{d}'
    ||| c == ' '
    ||| c == '\u{85}'
    ||| c == '\u{a0}'
    ||| c == '\u{1680}'
    ||| '\u{2000}' <= c <= '\u{200a}'
    ||| c == '\u{2028}'
    ||| c == '\u{2029}'
    ||| c == '\u{202f}'
    ||| c == '\u{205f}'
    ||| c == '\u{3000}'
}

/// `s` without its leading whitespace.
pub open spec fn trim_start(s: Seq<char>) -> Seq<char>
    decreases s.len(),
{
    if s.len() > 0 && is_whitespace(s[0]) {
        trim_start(s.drop_first())
    } else {
        s
    }
}

/// `s` without its trailing whitespace.
pub open spec fn trim_end(s: Seq<char>) -> Seq<char>
    decreases s.len(),
{
    if s.len() > 0 && is_whitespace(s.last()) {
        trim_end(s.drop_last())
    } else {
        s
    }
}

/// `s` without leading and trailing whitespace (`str::trim`).
pub open spec fn trim(s: Seq<char>) -> Seq<char> {
    trim_end(trim_start(s))
}

/// The pieces of `s` between newline characters: `s` split at every `'\n'`.
/// There is always at least one piece.
pub open spec fn split_newlines(s: Seq<char>) -> Seq<Seq<char>>
    decreases s.len(),
{
    if s.len() == 0 {
        seq![Seq::empty()]
    } else if s.last() == '\n' {
        split_newlines(s.drop_last()).push(Seq::empty())
    } else {
        let r = split_newlines(s.drop_last());
        r.update(r.len() - 1, r.last().push(s.last()))
    }
}

/// A line that was ended by a newline, without a carriage return before it.
pub open spec fn strip_cr(line: Seq<char>) -> Seq<char> {
    if line.len() > 0 && line.last() == '\r' {
        line.drop_last()
    } else {
        line
    }
}

/// The lines of `s` as `str::lines` gives them: split at `'\n'`, a `'\r'`
/// just before a `'\n'` removed, and no empty line after a final newline.
pub open spec fn lines(s: Seq<char>) -> Seq<Seq<char>> {
    let parts = split_newlines(s);
    let ended = parts.drop_last().map_values(|p: Seq<char>| strip_cr(p));
    if parts.last().len() == 0 {
        ended
    } else {
        ended.push(parts.last())
    }
}

/// Strict lexicographic order on character sequences (the order of `str`,
/// whose bytes compare as their code points do).
pub open spec fn lex_lt(a: Seq<char>, b: Seq<char>) -> bool
    decreases a.len(),
{
    if a.len() == 0 {
        b.len() > 0
    } else if b.len() == 0 {
        false
    } else if a[0] != b[0] {
        a[0] < b[0]
    } else {
        lex_lt(a.drop_first(), b.drop_first())
    }
}

/// The lines of `parts`, each but the last followed by a newline
/// (`[..].join("\n")`).
pub open spec fn join_lines(parts: Seq<Seq<char>>) -> Seq<char>
    decreases parts.len(),
{
    if parts.len() == 0 {
        Seq::empty()
    } else if parts.len() == 1 {
        parts[0]
    } else {
        join_lines(parts.drop_last()) + seq!['\n'] + parts.last()
    }
}

// ---------------------------------------------------------------------------
// Lemmas
// ---------------------------------------------------------------------------

/// There is at most one first match.
pub proof fn lemma_first_match_unique(s: Seq<char>, p: Seq<char>, i: int, j: int)
    requires
        is_first_match(s, p, i),
        is_first_match(s, p, j),
    ensures
        i == j,
{
}

/// `find` gives the first match when there is one.
pub proof fn lemma_find_some(s: Seq<char>, p: Seq<char>, i: int)
    requires
        is_first_match(s, p, i),
    ensures
        find(s, p) == Some(i),
{
    let k = choose|k: int| is_first_match(s, p, k);
    lemma_first_match_unique(s, p, i, k);
}

/// `find` gives nothing when `p` does not occur.
pub proof fn lemma_find_none(s: Seq<char>, p: Seq<char>)
    requires
        forall|j: int| !matches_at(s, p, j),
    ensures
        find(s, p) is None,
{
}

/// `rsplit_once` splits at the last occurrence.
pub proof fn lemma_rsplit_some(s: Seq<char>, c: char, i: int)
    requires
        is_last_index(s, c, i),
    ensures
        rsplit_once(s, c) == Some((s.take(i), s.skip(i + 1))),
{
    let k = choose|k: int| is_last_index(s, c, k);
    assert(k == i) by {
        if k < i {
            assert(s[i] != c);
        }
        if i < k {
            assert(s[k] != c);
        }
    }
}

pub proof fn lemma_lex_lt_irreflexive(a: Seq<char>)
    ensures
        !lex_lt(a, a),
    decreases a.len(),
{
    if a.len() > 0 {
        lemma_lex_lt_irreflexive(a.drop_first());
    }
}

pub proof fn lemma_lex_lt_transitive(a: Seq<char>, b: Seq<char>, c: Seq<char>)
    requires
        lex_lt(a, b),
        lex_lt(b, c),
    ensures
        lex_lt(a, c),
    decreases a.len(),
{
    if a.len() > 0 && b.len() > 0 && c.len() > 0 {
        if a[0] == b[0] && b[0] == c[0] {
            lemma_lex_lt_transitive(a.drop_first(), b.drop_first(), c.drop_first());
        }
    }
}

pub proof fn lemma_lex_lt_total(a: Seq<char>, b: Seq<char>)
    requires
        a != b,
    ensures
        lex_lt(a, b) || lex_lt(b, a),
    decreases a.len(),
{
    if a.len() > 0 && b.len() > 0 && a[0] == b[0] {
        if a.drop_first() == b.drop_first() {
            assert(a =~= seq![a[0]] + a.drop_first());
            assert(b =~= seq![b[0]] + b.drop_first());
        }
        lemma_lex_lt_total(a.drop_first(), b.drop_first());
    } else if a.len() == 0 && b.len() == 0 {
        assert(a =~= b);
    }
}

pub proof fn lemma_lex_lt_asymmetric(a: Seq<char>, b: Seq<char>)
    requires
        lex_lt(a, b),
    ensures
        !lex_lt(b, a),
{
    if lex_lt(b, a) {
        lemma_lex_lt_transitive(a, b, a);
        lemma_lex_lt_irreflexive(a);
    }
}

/// Appending text without a newline extends the last piece.
pub proof fn lemma_split_newlines_append(a: Seq<char>, b: Seq<char>)
    requires
        !b.contains('\n'),
    ensures
        split_newlines(a + b) == split_newlines(a).update(
            split_newlines(a).len() - 1,
            split_newlines(a).last() + b,
        ),
        split_newlines(a).len() >= 1,
    decreases b.len(),
{
    lemma_split_newlines_nonempty(a);
    if b.len() == 0 {
        assert(a + b =~= a);
        assert(split_newlines(a).last() + b =~= split_newlines(a).last());
        assert(split_newlines(a).update(split_newlines(a).len() - 1, split_newlines(a).last())
            =~= split_newlines(a));
    } else {
        let b0 = b.drop_last();
        assert(!b0.contains('\n')) by {
            if b0.contains('\n') {
                let i = choose|i: int| 0 <= i < b0.len() && b0[i] == '\n';
                assert(b[i] == '\n');
            }
        }
        lemma_split_newlines_append(a, b0);
        assert((a + b).drop_last() =~= a + b0);
        assert((a + b).last() == b.last());
        assert(b.last() != '\n') by {
            assert(b[b.len() - 1] == b.last());
        }
        lemma_split_newlines_nonempty(a + b0);
        let r = split_newlines(a + b0);
        let s = split_newlines(a);
        assert(r.len() == s.len());
        assert(r.last() == s.last() + b0);
        assert(r.last().push(b.last()) =~= s.last() + b);
        assert(r.update(r.len() - 1, r.last().push(b.last())) =~= s.update(
            s.len() - 1,
            s.last() + b,
        ));
    }
}

/// There is always a piece.
pub proof fn lemma_split_newlines_nonempty(a: Seq<char>)
    ensures
        split_newlines(a).len() >= 1,
    decreases a.len(),
{
    if a.len() > 0 {
        lemma_split_newlines_nonempty(a.drop_last());
    }
}

/// Splitting joined lines that hold no newline gives them back.
pub proof fn lemma_split_newlines_join(parts: Seq<Seq<char>>)
    requires
        parts.len() >= 1,
        forall|i: int| 0 <= i < parts.len() ==> !(#[trigger] parts[i]).contains('\n'),
    ensures
        split_newlines(join_lines(parts)) == parts,
    decreases parts.len(),
{
    let e = Seq::<char>::empty();
    if parts.len() == 1 {
        lemma_split_newlines_append(e, parts[0]);
        assert(e + parts[0] =~= parts[0]);
        assert(split_newlines(e) =~= seq![e]);
        assert(e + parts[0] =~= parts[0]);
        assert(seq![e].update(0, e + parts[0]) =~= parts);
    } else {
        let init = parts.drop_last();
        assert forall|i: int| 0 <= i < init.len() implies !(#[trigger] init[i]).contains('\n') by {
            assert(init[i] == parts[i]);
        }
        lemma_split_newlines_join(init);
        let j = join_lines(init) + seq!['\n'];
        assert(j.drop_last() =~= join_lines(init));
        assert(j.last() == '\n');
        assert(split_newlines(j) == init.push(e));
        assert(!parts.last().contains('\n')) by {
            assert(parts[parts.len() - 1] == parts.last());
        }
        lemma_split_newlines_append(j, parts.last());
        assert(join_lines(parts) == j + parts.last());
        assert(init.push(e).update(init.len() as int, e + parts.last()) =~= parts);
    }
}

/// The lines of joined lines that hold no newline, whose last one is not
/// empty and of which none but the last ends with a carriage return, are
/// those lines.
pub proof fn lemma_lines_join(parts: Seq<Seq<char>>)
    requires
        parts.len() >= 1,
        forall|i: int| 0 <= i < parts.len() ==> !(#[trigger] parts[i]).contains('\n'),
        forall|i: int| 0 <= i < parts.len() - 1 ==> strip_cr(#[trigger] parts[i]) == parts[i],
        parts.last().len() > 0,
    ensures
        lines(join_lines(parts)) == parts,
{
    lemma_split_newlines_join(parts);
    let init = parts.drop_last().map_values(|p: Seq<char>| strip_cr(p));
    assert(init =~= parts.drop_last());
    assert(init.push(parts.last()) =~= parts);
}

/// A string that neither begins nor ends with whitespace is its own trim.
pub proof fn lemma_trim_unchanged(s: Seq<char>)
    requires
        s.len() > 0,
        !is_whitespace(s[0]),
        !is_whitespace(s.last()),
    ensures
        trim(s) == s,
{
}

// ---------------------------------------------------------------------------
// Executable operations
// ---------------------------------------------------------------------------

/// The characters of a string slice, in order.
pub fn chars_of(s: &str) -> (res: Vec<char>)
    ensures
        res@ == s@,
{
    let mut res: Vec<char> = Vec::new();
    for c in it: s.chars()
        invariant
            res@ == it.seq().take(it.index() as int),
            it.seq() == s@,
    {
        res.push(c);
    }
    res
}

/// The number of bytes of the UTF-8 encoding of `c`.
fn utf8_width(c: char) -> (res: usize)
    ensures
        res == encode_scalar(c as u32).len(),
{
    proof {
        char_is_scalar(c);
    }
    let v = c as u32;
    if v <= 0x7f {
        1
    } else if v <= 0x7ff {
        2
    } else if v <= 0xffff {
        3
    } else {
        4
    }
}

/// Whether the UTF-8 encoding of `s` has exactly `n` bytes (`s.len() == n`).
pub fn utf8_len_is(s: &str, n: usize) -> (res: bool)
    ensures
        res == (encode_utf8(s@).len() == n),
{
    let cs = chars_of(s);
    let mut total: usize = 0;
    let mut i: usize = 0;
    assert(cs@.skip(0) =~= cs@);
    while i < cs.len()
        invariant
            cs@ == s@,
            i <= cs@.len(),
            total <= n,
            encode_utf8(s@).len() == total + encode_utf8(cs@.skip(i as int)).len(),
        decreases cs@.len() - i,
    {
        let w = utf8_width(cs[i]);
        assert(cs@.skip(i as int).drop_first() =~= cs@.skip(i + 1));
        assert(cs@.skip(i as int)[0] == cs@[i as int]);
        if w > n - total {
            return false;
        }
        total = total + w;
        i += 1;
    }
    assert(cs@.skip(i as int) =~= Seq::<char>::empty());
    total == n
}

/// Whether `p` occurs in `cs` at index `i`.
fn matches_at_exec(cs: &Vec<char>, p: &Vec<char>, i: usize) -> (res: bool)
    ensures
        res == matches_at(cs@, p@, i as int),
{
    if i > cs.len() || p.len() > cs.len() - i {
        return false;
    }
    let mut k: usize = 0;
    while k < p.len()
        invariant
            i + p.len() <= cs.len(),
            k <= p.len(),
            forall|m: int| 0 <= m < k ==> cs@[i + m] == p@[m],
        decreases p.len() - k,
    {
        if cs[i + k] != p[k] {
            assert(cs@.subrange(i as int, i + p.len())[k as int] != p@[k as int]);
            return false;
        }
        k += 1;
    }
    assert(cs@.subrange(i as int, i + p.len()) =~= p@);
    true
}

/// The index of the first occurrence of `p` in `cs`.
fn find_exec(cs: &Vec<char>, p: &Vec<char>) -> (res: Option<usize>)
    ensures
        match res {
            Some(i) => find(cs@, p@) == Some(i as int) && is_first_match(cs@, p@, i as int),
            None => find(cs@, p@) is None && !contains(cs@, p@),
        },
{
    if p.len() > cs.len() {
        assert forall|j: int| !matches_at(cs@, p@, j) by {}
        proof { lemma_find_none(cs@, p@); }
        return None;
    }
    let last = cs.len() - p.len();
    let mut i: usize = 0;
    while i < last
        invariant
            last == cs.len() - p.len(),
            p.len() <= cs.len(),
            i <= last,
            forall|j: int| 0 <= j < i ==> !matches_at(cs@, p@, j),
        decreases last - i,
    {
        if matches_at_exec(cs, p, i) {
            proof { lemma_find_some(cs@, p@, i as int); }
            return Some(i);
        }
        i += 1;
    }
    if matches_at_exec(cs, p, last) {
        proof { lemma_find_some(cs@, p@, last as int); }
        return Some(last);
    }
    assert forall|j: int| !matches_at(cs@, p@, j) by {}
    proof { lemma_find_none(cs@, p@); }
    None
}

/// Whether `s` contains `p`.
pub fn contains_exec(s: &str, p: &str) -> (res: bool)
    ensures
        res == contains(s@, p@),
{
    let cs = chars_of(s);
    let ps = chars_of(p);
    find_exec(&cs, &ps).is_some()
}

/// Whether `s` begins with `p`.
pub fn starts_with_exec(s: &str, p: &str) -> (res: bool)
    ensures
        res == starts_with(s@, p@),
{
    let cs = chars_of(s);
    let ps = chars_of(p);
    let r = matches_at_exec(&cs, &ps, 0);
    proof {
        if r {
            assert(cs@.take(ps@.len() as int) =~= cs@.subrange(0, ps@.len() as int));
        }
        if starts_with(s@, p@) {
            assert(cs@.take(ps@.len() as int) =~= cs@.subrange(0, ps@.len() as int));
        }
    }
    r
}

/// Whether `s` ends with `p`.
pub fn ends_with_exec(s: &str, p: &str) -> (res: bool)
    ensures
        res == ends_with(s@, p@),
{
    let cs = chars_of(s);
    let ps = chars_of(p);
    if ps.len() > cs.len() {
        return false;
    }
    let r = matches_at_exec(&cs, &ps, cs.len() - ps.len());
    proof {
        assert(cs@.skip(cs@.len() - ps@.len()) =~= cs@.subrange(
            cs@.len() - ps@.len(),
            cs@.len() - ps@.len() + ps@.len(),
        ));
    }
    r
}

/// Whether two strings are equal.
pub fn str_eq(a: &str, b: &str) -> (res: bool)
    ensures
        res == (a@ == b@),
{
    let x = chars_of(a);
    let y = chars_of(b);
    if x.len() != y.len() {
        return false;
    }
    let mut i: usize = 0;
    while i < x.len()
        invariant
            x@ == a@,
            y@ == b@,
            x@.len() == y@.len(),
            i <= x.len(),
            forall|k: int| 0 <= k < i ==> x@[k] == y@[k],
        decreases x.len() - i,
    {
        if x[i] != y[i] {
            assert(x@[i as int] != y@[i as int]);
            return false;
        }
        i += 1;
    }
    assert(x@ =~= y@);
    true
}

/// Whether `a` comes strictly before `b` in lexicographic order.
pub fn str_lt(a: &str, b: &str) -> (res: bool)
    ensures
        res == lex_lt(a@, b@),
{
    let x = chars_of(a);
    let y = chars_of(b);
    let mut i: usize = 0;
    assert(x@.skip(0) =~= x@);
    assert(y@.skip(0) =~= y@);
    while i < x.len() && i < y.len()
        invariant
            x@ == a@,
            y@ == b@,
            i <= x.len(),
            i <= y.len(),
            lex_lt(x@, y@) == lex_lt(x@.skip(i as int), y@.skip(i as int)),
        decreases x.len() - i,
    {
        if x[i] != y[i] {
            assert(x@.skip(i as int)[0] == x@[i as int]);
            assert(y@.skip(i as int)[0] == y@[i as int]);
            return x[i] < y[i];
        }
        assert(x@.skip(i as int).drop_first() =~= x@.skip(i + 1));
        assert(y@.skip(i as int).drop_first() =~= y@.skip(i + 1));
        i += 1;
    }
    i < y.len()
}

/// `s` with its leading and trailing whitespace removed.
pub fn trim_exec(s: &str) -> (res: &str)
    ensures
        res@ == trim(s@),
{
    let cs = chars_of(s);
    let n = cs.len();
    let mut i: usize = 0;
    assert(cs@.skip(0) =~= cs@);
    while i < n && is_whitespace_exec(cs[i])
        invariant
            cs@ == s@,
            n == cs@.len(),
            i <= n,
            trim_start(cs@) == trim_start(cs@.skip(i as int)),
        decreases n - i,
    {
        assert(cs@.skip(i as int).drop_first() =~= cs@.skip(i + 1));
        i += 1;
    }
    assert(trim_start(cs@) == cs@.skip(i as int));
    let mut j: usize = n;
    while j > i && is_whitespace_exec(cs[j - 1])
        invariant
            cs@ == s@,
            n == cs@.len(),
            i <= j <= n,
            trim_end(cs@.skip(i as int)) == trim_end(cs@.subrange(i as int, j as int)),
        decreases j,
    {
        assert(cs@.subrange(i as int, j as int).drop_last() =~= cs@.subrange(i as int, j - 1));
        j -= 1;
    }
    assert(cs@.skip(i as int) =~= cs@.subrange(i as int, n as int));
    s.substring_char(i, j)
}

/// `char::is_whitespace`.
pub fn is_whitespace_exec(c: char) -> (res: bool)
    ensures
        res == is_whitespace(c),
{
    ('\u{9}' <= c && c <= '\u{d}') || c == ' ' || c == '\u{85}' || c == '\u{a0}' || c == '\u{1680}'
        || ('\u{2000}' <= c && c <= '\u{200a}') || c == '\u{2028}' || c == '\u{2029}' || c
        == '\u{202f}' || c == '\u{205f}' || c == '\u{3000}'
}

/// The part of `s` after the prefix `p`.
pub fn strip_prefix_exec<'a>(s: &'a str, p: &str) -> (res: Option<&'a str>)
    ensures
        match res {
            Some(r) => strip_prefix(s@, p@) == Some(r@),
            None => strip_prefix(s@, p@) is None,
        },
{
    if starts_with_exec(s, p) {
        let n = s.unicode_len();
        let m = p.unicode_len();
        Some(s.substring_char(m, n))
    } else {
        None
    }
}

/// `s` split around the first occurrence of `p`.
pub fn split_once_exec<'a>(s: &'a str, p: &str) -> (res: Option<(&'a str, &'a str)>)
    ensures
        match res {
            Some((a, b)) => split_once(s@, p@) == Some((a@, b@)),
            None => split_once(s@, p@) is None,
        },
{
    let cs = chars_of(s);
    let ps = chars_of(p);
    match find_exec(&cs, &ps) {
        Some(i) => {
            assert(matches_at(cs@, ps@, i as int));
            assert(i + ps.len() <= cs.len());
            let a = s.substring_char(0, i);
            let b = s.substring_char(i + ps.len(), cs.len());
            assert(a@ =~= s@.take(i as int));
            assert(b@ =~= s@.skip(i + ps@.len()));
            Some((a, b))
        },
        None => None,
    }
}

/// `s` split around the last occurrence of the character `c`.
pub fn rsplit_once_exec(s: &str, c: char) -> (res: Option<(&str, &str)>)
    ensures
        match res {
            Some((a, b)) => rsplit_once(s@, c) == Some((a@, b@)),
            None => rsplit_once(s@, c) is None,
        },
{
    let cs = chars_of(s);
    let mut i: usize = cs.len();
    while i > 0
        invariant
            cs@ == s@,
            i <= cs.len(),
            forall|j: int| i <= j < cs.len() ==> cs@[j] != c,
        decreases i,
    {
        if cs[i - 1] == c {
            proof { lemma_rsplit_some(cs@, c, i - 1); }
            let a = s.substring_char(0, i - 1);
            let b = s.substring_char(i, cs.len());
            assert(a@ =~= s@.take(i - 1));
            assert(b@ =~= s@.skip(i as int));
            return Some((a, b));
        }
        i -= 1;
    }
    None
}

/// The lines of `s`, as `str::lines` gives them.
pub fn lines_exec(s: &str) -> (res: Vec<&str>)
    ensures
        res@.map_values(|l: &str| l@) == lines(s@),
{
    let cs = chars_of(s);
    let n = cs.len();
    let mut out: Vec<&str> = Vec::new();
    let mut start: usize = 0;
    let mut j: usize = 0;
    let ghost mut done: Seq<Seq<char>> = Seq::empty();
    assert(cs@.take(0) =~= Seq::<char>::empty());
    assert(cs@.subrange(0, 0) =~= Seq::<char>::empty());
    assert(done.push(Seq::<char>::empty()) =~= seq![Seq::<char>::empty()]);
    assert(out@.map_values(|l: &str| l@) =~= done.map_values(|p: Seq<char>| strip_cr(p)));
    while j < n
        invariant
            n == cs@.len(),
            cs@ == s@,
            start <= j <= n,
            split_newlines(cs@.take(j as int)) == done.push(cs@.subrange(start as int, j as int)),
            out@.map_values(|l: &str| l@) == done.map_values(|p: Seq<char>| strip_cr(p)),
        decreases n - j,
    {
        assert(cs@.take(j + 1).drop_last() =~= cs@.take(j as int));
        if cs[j] == '\n' {
            let end = if j > start && cs[j - 1] == '\r' {
                j - 1
            } else {
                j
            };
            let line = s.substring_char(start, end);
            let ghost old_out = out@;
            let ghost old_done = done;
            proof {
                let piece = cs@.subrange(start as int, j as int);
                assert(line@ =~= strip_cr(piece));
                assert(cs@.subrange(j + 1, j + 1) =~= Seq::<char>::empty());
                done = done.push(piece);
            }
            out.push(line);
            start = j + 1;
            assert(old_out.len() == old_done.len()) by {
                assert(old_out.map_values(|l: &str| l@).len() == old_done.map_values(|p: Seq<char>| strip_cr(p)).len());
            }
            assert(out@.len() == done.len());
            assert forall|k: int| 0 <= k < out@.len() implies #[trigger] out@[k]@ == strip_cr(done[k]) by {
                if k < old_out.len() {
                    assert(old_out.map_values(|l: &str| l@)[k] == old_done.map_values(|p: Seq<char>| strip_cr(p))[k]);
                }
            }
            assert(out@.map_values(|l: &str| l@) =~= done.map_values(|p: Seq<char>| strip_cr(p)));
        } else {
            assert(cs@.subrange(start as int, j as int).push(cs@[j as int]) =~= cs@.subrange(
                start as int,
                j + 1,
            ));
            assert(done.push(cs@.subrange(start as int, j as int)).update(
                done.len() as int,
                cs@.subrange(start as int, j + 1),
            ) =~= done.push(cs@.subrange(start as int, j + 1)));
        }
        j += 1;
    }
    assert(cs@.take(n as int) =~= cs@);
    let ghost parts = split_newlines(cs@);
    assert(parts.drop_last() =~= done);
    if start < n {
        let last = s.substring_char(start, n);
        out.push(last);
        assert(out@.map_values(|l: &str| l@) =~= lines(s@));
    } else {
        assert(out@.map_values(|l: &str| l@) =~= lines(s@));
    }
    out
}

} // verus!
