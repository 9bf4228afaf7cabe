//! Small verified string utilities shared by the providers and the
//! application index: whitespace trimming, prefix tests, and file-stem
//! extraction for identifier derivation.

use vstd::prelude::*;
use vstd::string::*;

verus! {

/// The Unicode `White_Space` code points, as documented for
/// `char::is_whitespace`.
pub open spec fn spec_is_whitespace(c: char) -> bool {
    let n = c as u32;
    n == 0x20 || (0x9 <= n && n <= 0xd) || n == 0x85 || n == 0xa0 || n == 0x1680 || (0x2000 <= n
        && n <= 0x200a) || n == 0x2028 || n == 0x2029 || n == 0x202f || n == 0x205f || n == 0x3000
}

pub fn is_whitespace_char(c: char) -> (r: bool)
    ensures
        r == spec_is_whitespace(c),
{
    let n = c as u32;
    n == 0x20 || (0x9 <= n && n <= 0xd) || n == 0x85 || n == 0xa0 || n == 0x1680 || (0x2000 <= n
        && n <= 0x200a) || n == 0x2028 || n == 0x2029 || n == 0x202f || n == 0x205f || n == 0x3000
}

/// `s` with its leading whitespace removed.
pub open spec fn trimmed_start(s: Seq<char>) -> Seq<char>
    decreases s.len(),
{
    if s.len() == 0 {
        s
    } else if spec_is_whitespace(s[0]) {
        trimmed_start(s.drop_first())
    } else {
        s
    }
}

/// `s` with its trailing whitespace removed.
pub open spec fn trimmed_end(s: Seq<char>) -> Seq<char>
    decreases s.len(),
{
    if s.len() == 0 {
        s
    } else if spec_is_whitespace(s.last()) {
        trimmed_end(s.drop_last())
    } else {
        s
    }
}

/// `s` with leading and trailing whitespace removed.
pub open spec fn spec_trim(s: Seq<char>) -> Seq<char> {
    trimmed_end(trimmed_start(s))
}

proof fn lemma_trimmed_start_subrange(s: Seq<char>, i: int)
    requires
        0 <= i <= s.len(),
        forall|k: int| 0 <= k < i ==> spec_is_whitespace(s[k]),
        i < s.len() ==> !spec_is_whitespace(s[i]),
    ensures
        trimmed_start(s) =~= s.subrange(i, s.len() as int),
    decreases i,
{
    if i == 0 {
        if s.len() == 0 {
            assert(trimmed_start(s) =~= s.subrange(0, s.len() as int));
        } else {
            assert(trimmed_start(s) =~= s.subrange(0, s.len() as int));
        }
    } else {
        let rest = s.drop_first();
        assert(spec_is_whitespace(s[0]));
        assert(forall|k: int| 0 <= k < i - 1 ==> spec_is_whitespace(rest[k]));
        lemma_trimmed_start_subrange(rest, i - 1);
        assert(rest.subrange(i - 1, rest.len() as int) =~= s.subrange(i, s.len() as int));
    }
}

proof fn lemma_trimmed_end_subrange(s: Seq<char>, j: int)
    requires
        0 <= j <= s.len(),
        forall|k: int| j <= k < s.len() ==> spec_is_whitespace(s[k]),
        j > 0 ==> !spec_is_whitespace(s[j - 1]),
    ensures
        trimmed_end(s) =~= s.subrange(0, j),
    decreases s.len() - j,
{
    if j == s.len() {
        if s.len() == 0 {
            assert(trimmed_end(s) =~= s.subrange(0, j));
        } else {
            assert(trimmed_end(s) =~= s.subrange(0, j));
        }
    } else {
        let rest = s.drop_last();
        assert(spec_is_whitespace(s.last()));
        assert(forall|k: int| j <= k < rest.len() ==> rest[k] == s[k]);
        lemma_trimmed_end_subrange(rest, j);
        assert(rest.subrange(0, j) =~= s.subrange(0, j));
    }
}

proof fn lemma_trimmed_start_head(s: Seq<char>)
    ensures
        trimmed_start(s).len() > 0 ==> !spec_is_whitespace(trimmed_start(s)[0]),
    decreases s.len(),
{
    if s.len() > 0 && spec_is_whitespace(s[0]) {
        lemma_trimmed_start_head(s.drop_first());
    }
}

proof fn lemma_trimmed_end_head(s: Seq<char>)
    ensures
        trimmed_end(s).len() > 0 ==> s.len() > 0 && trimmed_end(s)[0] == s[0],
    decreases s.len(),
{
    if s.len() > 0 && spec_is_whitespace(s.last()) {
        let rest = s.drop_last();
        lemma_trimmed_end_head(rest);
        if trimmed_end(s).len() > 0 {
            assert(rest[0] == s[0]);
        }
    }
}

/// A trimmed string never starts (or ends) with whitespace; in particular
/// a non-empty trim result begins with a non-whitespace character.
pub proof fn lemma_trim_head(s: Seq<char>)
    ensures
        spec_trim(s).len() > 0 ==> !spec_is_whitespace(spec_trim(s)[0]),
{
    lemma_trimmed_start_head(s);
    lemma_trimmed_end_head(trimmed_start(s));
}

/// Removes leading and trailing whitespace, as `str::trim` does.
pub fn trim_str(s: &str) -> (r: String)
    ensures
        r@ == spec_trim(s@),
{
    let len = s.unicode_len();
    let mut i: usize = 0;
    while i < len && is_whitespace_char(s.get_char(i))
        invariant
            0 <= i <= len,
            len == s@.len(),
            forall|k: int| 0 <= k < i ==> spec_is_whitespace(s@[k]),
        decreases len - i,
    {
        i = i + 1;
    }
    proof {
        lemma_trimmed_start_subrange(s@, i as int);
    }
    let mut j: usize = len;
    while j > i && is_whitespace_char(s.get_char(j - 1))
        invariant
            i <= j <= len,
            len == s@.len(),
            forall|k: int| 0 <= k < i ==> spec_is_whitespace(s@[k]),
            i < s@.len() ==> !spec_is_whitespace(s@[i as int]),
            forall|k: int| j <= k < len ==> spec_is_whitespace(s@[k]),
        decreases j,
    {
        j = j - 1;
    }
    let out = s.substring_char(i, j);
    proof {
        let start = s@.subrange(i as int, s@.len() as int);
        assert(forall|k: int| j - i <= k < start.len() ==> spec_is_whitespace(#[trigger] start[k]));
        assert(j > i ==> !spec_is_whitespace(start[j - i - 1]));
        lemma_trimmed_end_subrange(start, j - i);
        assert(start.subrange(0, j - i) =~= s@.subrange(i as int, j as int));
    }
    out.to_owned()
}

/// Character-wise string equality.
pub fn str_eq(a: &str, b: &str) -> (r: bool)
    ensures
        r == (a@ == b@),
{
    let n = a.unicode_len();
    if n != b.unicode_len() {
        return false;
    }
    let mut i: usize = 0;
    while i < n
        invariant
            0 <= i <= n,
            n == a@.len(),
            n == b@.len(),
            forall|k: int| 0 <= k < i ==> a@[k] == b@[k],
        decreases n - i,
    {
        if a.get_char(i) != b.get_char(i) {
            return false;
        }
        i = i + 1;
    }
    assert(a@ =~= b@);
    true
}

/// Index of the last occurrence of `c` in `s`, or -1 when `c` does not
/// occur.
pub open spec fn spec_last_index_of(s: Seq<char>, c: char) -> int
    decreases s.len(),
{
    if s.len() == 0 {
        -1
    } else if s.last() == c {
        s.len() - 1
    } else {
        spec_last_index_of(s.drop_last(), c)
    }
}

pub proof fn lemma_last_index_of_props(s: Seq<char>, c: char)
    ensures
        -1 <= spec_last_index_of(s, c) < s.len(),
        spec_last_index_of(s, c) >= 0 ==> s[spec_last_index_of(s, c)] == c,
        forall|k: int| spec_last_index_of(s, c) < k < s.len() ==> s[k] != c,
    decreases s.len(),
{
    if s.len() > 0 && s.last() != c {
        lemma_last_index_of_props(s.drop_last(), c);
        assert(forall|k: int|
            0 <= k < s.len() - 1 ==> s.drop_last()[k] == s[k]);
    }
}

/// Position of the last occurrence of `c` in `s`, if any.
pub fn last_index_char(s: &str, c: char) -> (r: Option<usize>)
    ensures
        spec_last_index_of(s@, c) == match r {
            Option::None => -1,
            Option::Some(i) => i as int,
        },
        r is Some ==> r->0 < s@.len(),
{
    proof {
        lemma_last_index_of_props(s@, c);
    }
    let len = s.unicode_len();
    let mut j: usize = len;
    while j > 0
        invariant
            0 <= j <= len,
            len == s@.len(),
            forall|k: int| j <= k < len ==> s@[k] != c,
            spec_last_index_of(s@, c) < s@.len(),
            spec_last_index_of(s@, c) >= 0 ==> s@[spec_last_index_of(s@, c)] == c,
            forall|k: int| spec_last_index_of(s@, c) < k < s@.len() ==> s@[k] != c,
        decreases j,
    {
        if s.get_char(j - 1) == c {
            return Some(j - 1);
        }
        j = j - 1;
    }
    None
}

/// The file stem of a path: the base name past the last separator, cut
/// before its last dot (a name with no dot, or a leading dot alone, is kept
/// whole).
pub open spec fn spec_stem(path: Seq<char>) -> Seq<char> {
    let start = spec_last_index_of(path, '/') + 1;
    let base = path.subrange(start, path.len() as int);
    let dot = spec_last_index_of(base, '.');
    if dot <= 0 {
        base
    } else {
        base.subrange(0, dot)
    }
}

/// Derives the identifier stem from a source file path.
pub fn stem_of(path: &str) -> (r: String)
    ensures
        r@ == spec_stem(path@),
{
    let len = path.unicode_len();
    let start: usize = match last_index_char(path, '/') {
        Some(i) => i + 1,
        None => 0,
    };
    let base = path.substring_char(start, len);
    let base_len = base.unicode_len();
    match last_index_char(base, '.') {
        Some(dot) if dot > 0 => base.substring_char(0, dot).to_owned(),
        _ => base.to_owned(),
    }
}

/// `s` without one leading `c`, when it starts with it.
pub open spec fn spec_strip_prefix_char(s: Seq<char>, c: char) -> Seq<char> {
    if s.len() >= 1 && s[0] == c {
        s.drop_first()
    } else {
        s
    }
}

/// Removes one leading occurrence of `c`, as `str::strip_prefix` with a
/// char pattern does when it hits.
pub fn strip_prefix_char<'a>(s: &'a str, c: char) -> (r: &'a str)
    ensures
        r@ == spec_strip_prefix_char(s@, c),
{
    let len = s.unicode_len();
    if len >= 1 && s.get_char(0) == c {
        let r = s.substring_char(1, len);
        assert(r@ =~= s@.drop_first());
        r
    } else {
        s
    }
}

/// True when `pre` is a prefix of `s`.
pub open spec fn spec_starts_with(s: Seq<char>, pre: Seq<char>) -> bool {
    pre.len() <= s.len() && s.subrange(0, pre.len() as int) == pre
}

/// Prefix test over characters, as `str::starts_with` decides it for
/// string prefixes.
pub fn str_starts_with(s: &str, pre: &str) -> (r: bool)
    ensures
        r == spec_starts_with(s@, pre@),
{
    let n = pre.unicode_len();
    if n > s.unicode_len() {
        assert(!spec_starts_with(s@, pre@));
        return false;
    }
    let mut i: usize = 0;
    while i < n
        invariant
            0 <= i <= n,
            n == pre@.len(),
            n <= s@.len(),
            forall|k: int| 0 <= k < i ==> s@[k] == pre@[k],
        decreases n - i,
    {
        if s.get_char(i) != pre.get_char(i) {
            assert(s@.subrange(0, n as int)[i as int] != pre@[i as int]);
            return false;
        }
        i = i + 1;
    }
    assert(s@.subrange(0, n as int) =~= pre@);
    true
}

} // verus!
