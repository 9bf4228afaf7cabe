//! Fuzzy scoring of application entries.
//!
//! An entry's fields are tried in a fixed priority order — name, identifier,
//! generic name, each keyword, description — and the first field the fuzzy
//! matcher accepts decides the score: the raw match score plus that field's
//! fixed bonus. Raw scores are normalized to thousandths of the ceiling
//! constant for ranking.

use vstd::prelude::*;
use vstd::string::*;
use crate::index::{AppEntry, EntryV};

verus! {

/// Bonus added when the primary name matches.
pub const NAME_BONUS: i64 = 1000;

/// Bonus added when the identifier matches.
pub const ID_BONUS: i64 = 750;

/// Bonus added when the generic name matches.
pub const GENERIC_BONUS: i64 = 500;

/// Bonus added when a keyword matches.
pub const KEYWORD_BONUS: i64 = 250;

/// Raw-score ceiling used for normalization; chosen above the highest bonus
/// plus any plausible match score, so realistic queries never saturate.
pub const SCORE_CEILING: i64 = 2000;

/// Thousandths in a full normalized score.
pub const SCORE_UNIT: i64 = 1000;

/// What `str::to_lowercase` returns for a string: a function of its
/// characters alone.
pub uninterp spec fn lower_of(s: Seq<char>) -> Seq<char>;

/// Relies on `str::to_lowercase`: the result depends on the characters
/// alone, and an empty string stays empty.
#[verifier::external_body]
fn lowercase(s: &str) -> (r: String)
    ensures
        r@ == lower_of(s@),
        s@.len() == 0 ==> r@.len() == 0,
{
    s.to_lowercase()
}

/// What the default-configured skim fuzzy matcher returns for a choice
/// string and a pattern: a function of the two strings alone.
pub uninterp spec fn fuzzy_score(choice: Seq<char>, pattern: Seq<char>) -> Option<i64>;

/// Relies on `fuzzy_matcher::skim::SkimMatcherV2::fuzzy_match` with the
/// default configuration: the score depends on the two strings alone, an
/// empty pattern matches everything with score 0, and a reported score is
/// a 32-bit value widened to 64 bits.
#[verifier::external_body]
fn fuzzy_match(choice: &str, pattern: &str) -> (r: Option<i64>)
    ensures
        r == fuzzy_score(choice@, pattern@),
        r is Some ==> i32::MIN as i64 <= r->0 <= i32::MAX as i64,
        pattern@.len() == 0 ==> r == Option::Some(0i64),
{
    let matcher = fuzzy_matcher::skim::SkimMatcherV2::default();
    fuzzy_matcher::FuzzyMatcher::fuzzy_match(&matcher, choice, pattern)
}

/// Score of the first keyword the matcher accepts, with the keyword bonus
/// added; nothing when no keyword matches.
pub open spec fn keyword_score(kws: Seq<Seq<char>>, pattern: Seq<char>) -> Option<int>
    decreases kws.len(),
{
    if kws.len() == 0 {
        Option::None
    } else {
        match fuzzy_score(lower_of(kws[0]), pattern) {
            Option::Some(s) => Option::Some(s + KEYWORD_BONUS),
            Option::None => keyword_score(kws.drop_first(), pattern),
        }
    }
}

/// The raw score of an entry against a query: the first matching field in
/// priority order decides, with its fixed bonus; nothing matches, no score.
pub open spec fn spec_score_entry(e: EntryV, query: Seq<char>) -> Option<int> {
    let p = lower_of(query);
    if fuzzy_score(lower_of(e.name), p) is Some {
        Option::Some(fuzzy_score(lower_of(e.name), p)->0 + NAME_BONUS)
    } else if fuzzy_score(lower_of(e.id), p) is Some {
        Option::Some(fuzzy_score(lower_of(e.id), p)->0 + ID_BONUS)
    } else if e.generic_name is Some && fuzzy_score(lower_of(e.generic_name->0), p) is Some {
        Option::Some(fuzzy_score(lower_of(e.generic_name->0), p)->0 + GENERIC_BONUS)
    } else if keyword_score(e.keywords, p) is Some {
        keyword_score(e.keywords, p)
    } else if e.comment is Some && fuzzy_score(lower_of(e.comment->0), p) is Some {
        Option::Some(fuzzy_score(lower_of(e.comment->0), p)->0 as int)
    } else {
        Option::None
    }
}

/// Computes the raw score of an entry against a query.
pub fn score_entry(e: &AppEntry, query: &str) -> (r: Option<i64>)
    ensures
        match r {
            Option::None => spec_score_entry(e@, query@) is None,
            Option::Some(s) => spec_score_entry(e@, query@) == Option::Some(s as int),
        },
{
    let p = lowercase(query);
    if let Some(s) = fuzzy_match(lowercase(e.name.as_str()).as_str(), p.as_str()) {
        return Some(s + NAME_BONUS);
    }
    if let Some(s) = fuzzy_match(lowercase(e.id.as_str()).as_str(), p.as_str()) {
        return Some(s + ID_BONUS);
    }
    if let Some(generic) = &e.generic_name {
        if let Some(s) = fuzzy_match(lowercase(generic.as_str()).as_str(), p.as_str()) {
            return Some(s + GENERIC_BONUS);
        }
    }
    let ghost kv = e@.keywords;
    let ghost pv = lower_of(query@);
    proof {
        assert(kv.skip(0) =~= kv);
    }
    let n = e.keywords.len();
    let mut i: usize = 0;
    while i < n
        invariant
            0 <= i <= n,
            n == kv.len(),
            kv == e@.keywords,
            pv == lower_of(query@),
            p@ == pv,
            fuzzy_score(lower_of(e@.name), pv) is None,
            fuzzy_score(lower_of(e@.id), pv) is None,
            e@.generic_name is Some ==> fuzzy_score(lower_of(e@.generic_name->0), pv) is None,
            keyword_score(kv, pv) == keyword_score(kv.skip(i as int), pv),
        decreases n - i,
    {
        proof {
            assert(kv.skip(i as int)[0] == kv[i as int]);
            assert(kv.skip(i as int).drop_first() =~= kv.skip(i + 1));
            assert(kv[i as int] == e.keywords@[i as int]@);
        }
        if let Some(s) = fuzzy_match(lowercase(e.keywords[i].as_str()).as_str(), p.as_str()) {
            assert(keyword_score(kv, pv) == Option::Some(s + KEYWORD_BONUS));
            return Some(s + KEYWORD_BONUS);
        }
        i = i + 1;
    }
    proof {
        assert(kv.skip(n as int) =~= Seq::<Seq<char>>::empty());
        assert(keyword_score(kv, pv) is None);
    }
    if let Some(comment) = &e.comment {
        if let Some(s) = fuzzy_match(lowercase(comment.as_str()).as_str(), p.as_str()) {
            return Some(s);
        }
    }
    None
}

/// A raw score mapped to thousandths of the ceiling, clamped to the
/// normalized range.
pub open spec fn spec_normalized(s: int) -> int {
    if s < 0 {
        0
    } else if s >= SCORE_CEILING {
        SCORE_UNIT as int
    } else {
        s * (SCORE_UNIT as int) / (SCORE_CEILING as int)
    }
}

/// Normalizes a raw score to thousandths in `0 ..= 1000`.
pub fn normalize_score(s: i64) -> (r: u32)
    ensures
        r as int == spec_normalized(s as int),
        r <= 1000,
{
    if s < 0 {
        0
    } else if s >= SCORE_CEILING {
        1000
    } else {
        let m = (s * SCORE_UNIT) / SCORE_CEILING;
        assert(0 <= m < 1000) by (nonlinear_arith)
            requires
                0 <= s < 2000,
                m == (s * 1000) / 2000,
        ;
        m as u32
    }
}

/// Ranking law: when one query matches an entry's primary name and another
/// matches that entry only through its keyword list, the name match ranks
/// strictly higher, as long as the matcher does not rate the keyword query's
/// raw match above the name query's. In particular a query equal to the
/// exact primary name outranks a keyword-only query the matcher rates no
/// higher.
pub proof fn lemma_name_match_outranks_keyword_match(e: EntryV, q1: Seq<char>, q2: Seq<char>)
    requires
        fuzzy_score(lower_of(e.name), lower_of(q1)) is Some,
        fuzzy_score(lower_of(e.name), lower_of(q2)) is None,
        fuzzy_score(lower_of(e.id), lower_of(q2)) is None,
        e.generic_name is Some ==> fuzzy_score(lower_of(e.generic_name->0), lower_of(q2)) is None,
        keyword_score(e.keywords, lower_of(q2)) is Some,
        fuzzy_score(lower_of(e.name), lower_of(q1))->0 + KEYWORD_BONUS >= keyword_score(
            e.keywords,
            lower_of(q2),
        )->0,
    ensures
        spec_score_entry(e, q1) is Some,
        spec_score_entry(e, q2) is Some,
        spec_score_entry(e, q1)->0 > spec_score_entry(e, q2)->0,
{
}

} // verus!
