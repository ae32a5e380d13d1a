//! Classification of raw build-tool output lines into typed events.
//!
//! A line is matched against two full-line, anchored patterns in fixed
//! priority order: first the copy pattern
//! `copying path '<path>' from '<cache>'...`, then the build pattern
//! `building '<drv>'...`; a line matching neither is kept verbatim as an
//! informational event.  The `<path>` and `<drv>` captures are lazy (they
//! end at the first position where the rest of the pattern can match), the
//! `<cache>` capture is greedy, and everything outside the captures is
//! literal, the trailing ellipsis included.  Captures never span a
//! newline; the closing quote sits exactly four characters before the
//! end, right before the three dots.

use vstd::prelude::*;

use crate::{BinaryCache, DrvFile, StorePath};
use crate::Error;

verus! {

/// A classified line: a typed event carrying the raw text it came from.
#[derive(Debug, PartialEq)]
pub enum Line {
    Info(String),
    Copied(String, StorePath, BinaryCache),
    Built(String, DrvFile),
}

/// The mathematical value of a classified line, over character sequences.
pub enum LineV {
    Info(Seq<char>),
    Copied(Seq<char>, Seq<char>, Seq<char>),
    Built(Seq<char>, Seq<char>),
}

impl View for Line {
    type V = LineV;

    open spec fn view(&self) -> LineV {
        match self {
            Line::Info(raw) => LineV::Info(raw@),
            Line::Copied(raw, path, cache) => LineV::Copied(raw@, path@, cache@),
            Line::Built(raw, drv) => LineV::Built(raw@, drv@),
        }
    }
}

impl LineV {
    /// The raw text an event was classified from.
    pub open spec fn raw(self) -> Seq<char> {
        match self {
            LineV::Info(raw) => raw,
            LineV::Copied(raw, _, _) => raw,
            LineV::Built(raw, _) => raw,
        }
    }
}

/// The literal prefix of the copy pattern.
pub open spec fn copy_prefix() -> Seq<char> {
    "copying path '"@
}

/// The literal separator between the two captures of the copy pattern.
pub open spec fn copy_sep() -> Seq<char> {
    "' from '"@
}

/// The literal prefix of the build pattern.
pub open spec fn build_prefix() -> Seq<char> {
    "building '"@
}

/// The pattern `p` occurs in `s` starting at position `i`.
pub open spec fn seq_match_at(s: Seq<char>, i: int, p: Seq<char>) -> bool {
    &&& 0 <= i
    &&& i + p.len() <= s.len()
    &&& forall|j: int| 0 <= j < p.len() ==> s[i + j] == p[j]
}

/// No newline stands in `s` at a position of `[a, b)`.
pub open spec fn no_newline(s: Seq<char>, a: int, b: int) -> bool {
    forall|i: int| a <= i < b ==> s[i] != '\n'
}

/// The line ends with the literal ellipsis of the patterns.
pub open spec fn literal_dots(s: Seq<char>) -> bool {
    &&& s.len() >= 3
    &&& s[s.len() - 3] == '.'
    &&& s[s.len() - 2] == '.'
    &&& s[s.len() - 1] == '.'
}

/// The first position at or after `i` where the separator occurs with room
/// left for the closing quote and the three trailing characters; `s.len()`
/// when there is none.  This is where the lazy `<path>` capture ends.
pub open spec fn sep_search(s: Seq<char>, i: int) -> int
    decreases s.len() - i,
    when 0 <= i
{
    if i + copy_sep().len() + 4 > s.len() {
        s.len() as int
    } else if seq_match_at(s, i, copy_sep()) {
        i
    } else {
        sep_search(s, i + 1)
    }
}

/// The line matches the copy pattern as a whole:
/// `copying path '<path>' from '<cache>'...` with the literal ellipsis at
/// the end, the closing quote right before it, and no newline inside a
/// capture.
pub open spec fn copy_match(s: Seq<char>) -> bool {
    let p = sep_search(s, copy_prefix().len() as int);
    &&& seq_match_at(s, 0, copy_prefix())
    &&& s.len() >= 4
    &&& s[s.len() - 4] == '\''
    &&& p < s.len()
    &&& no_newline(s, copy_prefix().len() as int, p)
    &&& no_newline(s, p + copy_sep().len(), s.len() - 4)
    &&& literal_dots(s)
}

/// The `<path>` capture of a line matching the copy pattern.
pub open spec fn copy_path_of(s: Seq<char>) -> Seq<char> {
    s.subrange(copy_prefix().len() as int, sep_search(s, copy_prefix().len() as int))
}

/// The `<cache>` capture of a line matching the copy pattern.
pub open spec fn copy_cache_of(s: Seq<char>) -> Seq<char> {
    s.subrange(sep_search(s, copy_prefix().len() as int) + copy_sep().len(), s.len() - 4)
}

/// The line matches the build pattern as a whole: `building '<drv>'...`
/// with the literal ellipsis at the end, the closing quote right before
/// it, and no newline inside the capture.
pub open spec fn build_match(s: Seq<char>) -> bool {
    &&& seq_match_at(s, 0, build_prefix())
    &&& s.len() >= build_prefix().len() + 4
    &&& s[s.len() - 4] == '\''
    &&& no_newline(s, build_prefix().len() as int, s.len() - 4)
    &&& literal_dots(s)
}

/// The `<drv>` capture of a line matching the build pattern.
pub open spec fn build_drv_of(s: Seq<char>) -> Seq<char> {
    s.subrange(build_prefix().len() as int, s.len() - 4)
}

/// What any raw line classifies to: the copy pattern takes priority over
/// the build pattern, and everything else is informational, verbatim.
pub open spec fn classify(s: Seq<char>) -> LineV {
    if copy_match(s) {
        LineV::Copied(s, copy_path_of(s), copy_cache_of(s))
    } else if build_match(s) {
        LineV::Built(s, build_drv_of(s))
    } else {
        LineV::Info(s)
    }
}

/// Classification is total and yields exactly one event kind, settled by
/// the two pattern predicates in priority order.
pub proof fn classify_total(s: Seq<char>)
    ensures
        classify(s) is Copied <==> copy_match(s),
        classify(s) is Built <==> !copy_match(s) && build_match(s),
        classify(s) is Info <==> !copy_match(s) && !build_match(s),
{
}

/// No line matches both patterns: their literal prefixes already differ.
pub proof fn patterns_disjoint(s: Seq<char>)
    ensures
        !(copy_match(s) && build_match(s)),
{
    if copy_match(s) && build_match(s) {
        reveal_strlit("copying path '");
        reveal_strlit("building '");
        assert(s[0] == copy_prefix()[0]);
        assert(s[0] == build_prefix()[0]);
    }
}

/// A line matching neither pattern is kept verbatim as an Info event.
pub proof fn classify_fallback(s: Seq<char>)
    requires
        !copy_match(s),
        !build_match(s),
    ensures
        classify(s) == LineV::Info(s),
{
}

/// Whatever the classification, the raw line is preserved verbatim.
pub proof fn classify_keeps_raw(s: Seq<char>)
    ensures
        classify(s).raw() == s,
{
}

/// The separator search lands exactly on a known occurrence with no
/// earlier one.
proof fn lemma_sep_search_exact(s: Seq<char>, lo: int, target: int)
    requires
        0 <= lo <= target,
        forall|i: int| lo <= i < target ==> !seq_match_at(s, i, copy_sep()),
        seq_match_at(s, target, copy_sep()),
        target + copy_sep().len() + 4 <= s.len(),
    ensures
        sep_search(s, lo) == target,
    decreases target - lo,
{
    if lo == target {
    } else {
        assert(!seq_match_at(s, lo, copy_sep()));
        assert(lo + copy_sep().len() + 4 <= s.len());
        lemma_sep_search_exact(s, lo + 1, target);
    }
}

/// The copy pattern, composed: the literal template around any
/// quote-free, newline-free path text and any newline-free cache text
/// classifies as exactly that Copied event, raw text preserved verbatim.
pub proof fn copy_pattern_law(p: Seq<char>, cache: Seq<char>)
    requires
        forall|i: int| 0 <= i < p.len() ==> p[i] != '\'' && p[i] != '\n',
        forall|i: int| 0 <= i < cache.len() ==> cache[i] != '\n',
    ensures
        ({
            let s = copy_prefix() + p + copy_sep() + cache + "'..."@;
            classify(s) == LineV::Copied(s, p, cache)
        }),
{
    reveal_strlit("copying path '");
    reveal_strlit("' from '");
    reveal_strlit("'...");
    let s = copy_prefix() + p + copy_sep() + cache + "'..."@;
    let plen = p.len() as int;
    let clen = cache.len() as int;
    let sep_at = 14 + plen;
    assert(s.len() == 26 + plen + clen);
    assert forall|j: int| 0 <= j < 14 implies s[j] == copy_prefix()[j] by {
        assert((copy_prefix() + p)[j] == copy_prefix()[j]);
        assert((copy_prefix() + p + copy_sep())[j] == (copy_prefix() + p)[j]);
        assert((copy_prefix() + p + copy_sep() + cache)[j] == (copy_prefix() + p + copy_sep())[j]);
    }
    assert(seq_match_at(s, 0, copy_prefix()));
    assert forall|j: int| 0 <= j < plen implies s[14 + j] == p[j] by {
        assert((copy_prefix() + p)[14 + j] == p[j]);
        assert((copy_prefix() + p + copy_sep())[14 + j] == (copy_prefix() + p)[14 + j]);
        assert((copy_prefix() + p + copy_sep() + cache)[14 + j] == (copy_prefix() + p
            + copy_sep())[14 + j]);
    }
    assert forall|j: int| 0 <= j < 8 implies s[sep_at + j] == copy_sep()[j] by {
        assert((copy_prefix() + p + copy_sep())[sep_at + j] == copy_sep()[j]);
        assert((copy_prefix() + p + copy_sep() + cache)[sep_at + j] == (copy_prefix() + p
            + copy_sep())[sep_at + j]);
    }
    assert forall|j: int| 0 <= j < clen implies s[sep_at + 8 + j] == cache[j] by {
        assert((copy_prefix() + p + copy_sep() + cache)[sep_at + 8 + j] == cache[j]);
    }
    assert forall|j: int| 0 <= j < 4 implies s[sep_at + 8 + clen + j] == "'..."@[j] by {}
    assert(seq_match_at(s, sep_at, copy_sep()));
    assert forall|i: int| 14 <= i < sep_at implies !seq_match_at(s, i, copy_sep()) by {
        assert(s[i] == p[i - 14]);
        assert(p[i - 14] != '\'');
        assert(copy_sep()[0] == '\'');
    }
    lemma_sep_search_exact(s, 14, sep_at);
    assert(sep_search(s, copy_prefix().len() as int) == sep_at);
    assert(s[s.len() - 4] == '\'');
    assert(no_newline(s, 14, sep_at));
    assert(no_newline(s, sep_at + 8, s.len() - 4));
    assert(literal_dots(s));
    assert(copy_match(s));
    assert(copy_path_of(s) =~= p);
    assert(copy_cache_of(s) =~= cache);
}

/// The build pattern, composed: the literal template around any
/// newline-free derivation text classifies as exactly that Built event,
/// raw text preserved verbatim.
pub proof fn build_pattern_law(d: Seq<char>)
    requires
        forall|i: int| 0 <= i < d.len() ==> d[i] != '\n',
    ensures
        ({
            let s = build_prefix() + d + "'..."@;
            classify(s) == LineV::Built(s, d)
        }),
{
    reveal_strlit("building '");
    reveal_strlit("copying path '");
    reveal_strlit("'...");
    let s = build_prefix() + d + "'..."@;
    assert(s.len() == 14 + d.len());
    assert forall|j: int| 0 <= j < build_prefix().len() implies s[j] == build_prefix()[j] by {
        assert((build_prefix() + d)[j] == build_prefix()[j]);
    }
    assert(seq_match_at(s, 0, build_prefix()));
    assert forall|j: int| 0 <= j < d.len() implies s[10 + j] == d[j] by {
        assert((build_prefix() + d)[10 + j] == d[j]);
    }
    assert forall|j: int| 0 <= j < 4 implies s[10 + d.len() + j] == "'..."@[j] by {}
    assert(s[s.len() - 4] == '\'');
    assert(no_newline(s, build_prefix().len() as int, s.len() - 4));
    assert(literal_dots(s));
    assert(build_match(s));
    assert(s[0] != copy_prefix()[0]);
    assert(!copy_match(s));
    assert(build_drv_of(s) =~= d);
}

proof fn lemma_sep_search(s: Seq<char>, i: int)
    requires
        0 <= i,
    ensures
        sep_search(s, i) <= s.len(),
        sep_search(s, i) < s.len() ==> {
            &&& i <= sep_search(s, i)
            &&& sep_search(s, i) + copy_sep().len() + 4 <= s.len()
            &&& seq_match_at(s, sep_search(s, i), copy_sep())
        },
    decreases s.len() - i,
{
    if i + copy_sep().len() + 4 > s.len() {
    } else if seq_match_at(s, i, copy_sep()) {
    } else {
        lemma_sep_search(s, i + 1);
    }
}

/// The characters of `pat` stand in `s` at position `start`.
fn text_match_at(s: &str, start: usize, pat: &str) -> (r: bool)
    requires
        start + pat@.len() <= s@.len() <= usize::MAX,
    ensures
        r == seq_match_at(s@, start as int, pat@),
{
    let n = pat.unicode_len();
    let mut j: usize = 0;
    while j < n
        invariant
            n == pat@.len(),
            start + n <= s@.len() <= usize::MAX,
            0 <= j <= n,
            forall|k: int| 0 <= k < j ==> s@[start + k] == pat@[k],
        decreases n - j,
    {
        if s.get_char(start + j) != pat.get_char(j) {
            assert(s@[start + j as int] != pat@[j as int]);
            return false;
        }
        j += 1;
    }
    true
}

/// The line ends with the literal ellipsis of the patterns.
fn ends_with_dots(s: &str, n: usize) -> (r: bool)
    requires
        n == s@.len(),
        n >= 3,
    ensures
        r == literal_dots(s@),
{
    s.get_char(n - 3) == '.' && s.get_char(n - 2) == '.' && s.get_char(n - 1) == '.'
}

/// No newline stands in `s` at a position of `[a, b)`.
fn region_no_newline(s: &str, a: usize, b: usize) -> (r: bool)
    requires
        a <= b <= s@.len(),
    ensures
        r == no_newline(s@, a as int, b as int),
{
    let mut i: usize = a;
    while i < b
        invariant
            a <= i <= b <= s@.len(),
            forall|k: int| a <= k < i ==> s@[k] != '\n',
        decreases b - i,
    {
        if s.get_char(i) == '\n' {
            assert(s@[i as int] == '\n');
            return false;
        }
        i += 1;
    }
    true
}

/// The position where the lazy `<path>` capture ends: the first separator
/// occurrence with room for the pattern's tail, or the line's length.
fn find_sep(s: &str) -> (r: usize)
    ensures
        r as int == sep_search(s@, copy_prefix().len() as int),
        r <= s@.len(),
{
    proof {
        reveal_strlit("' from '");
        reveal_strlit("copying path '");
    }
    let sep = "' from '";
    let sep_len = sep.unicode_len();
    let n = s.unicode_len();
    let start = "copying path '".unicode_len();
    let mut i: usize = start;
    loop
        invariant
            sep@ == copy_sep(),
            sep_len == copy_sep().len(),
            n == s@.len(),
            start == copy_prefix().len(),
            start <= i,
            sep_search(s@, start as int) == sep_search(s@, i as int),
        decreases n + sep_len + 4 - i,
    {
        proof {
            reveal_strlit("' from '");
        }
        if n < sep_len + 4 || i > n - (sep_len + 4) {
            assert(sep_search(s@, i as int) == n as int);
            return n;
        }
        if text_match_at(s, i, sep) {
            assert(sep_search(s@, i as int) == i as int);
            return i;
        }
        i += 1;
    }
}

impl Line {
    /// Classify a raw line.  Total: every string yields exactly one event,
    /// and the result is always `Ok`.
    pub fn parse(s: &str) -> (r: Result<Line, Error>)
        ensures
            r is Ok,
            r->Ok_0@ == classify(s@),
    {
        proof {
            reveal_strlit("copying path '");
            reveal_strlit("' from '");
            reveal_strlit("building '");
        }
        let n = s.unicode_len();
        let copy_pre = "copying path '";
        let cp_len = copy_pre.unicode_len();
        let sep_len = "' from '".unicode_len();
        let build_pre = "building '";
        let bp_len = build_pre.unicode_len();

        if n >= 4 && n >= cp_len && text_match_at(s, 0, copy_pre) && s.get_char(n - 4) == '\'' {
            let p = find_sep(s);
            proof {
                lemma_sep_search(s@, copy_prefix().len() as int);
            }
            if p < n {
                if region_no_newline(s, cp_len, p) && region_no_newline(s, p + sep_len, n - 4)
                    && ends_with_dots(s, n) {
                    let raw = s.to_owned();
                    let path = s.substring_char(cp_len, p).to_owned();
                    let cache = s.substring_char(p + sep_len, n - 4).to_owned();
                    return Ok(
                        Line::Copied(raw, StorePath::from_text(path), BinaryCache::from_text(cache)),
                    );
                }
            }
        }
        assert(!copy_match(s@));

        if n >= 4 && n >= bp_len + 4 && text_match_at(s, 0, build_pre) && s.get_char(n - 4) == '\'' {
            if region_no_newline(s, bp_len, n - 4) && ends_with_dots(s, n) {
                let raw = s.to_owned();
                let drv = s.substring_char(bp_len, n - 4).to_owned();
                return Ok(Line::Built(raw, DrvFile::from_text(drv)));
            }
        }
        assert(!build_match(s@));

        Ok(Line::Info(s.to_owned()))
    }
}

} // verus!
