//! Ranking: ordering result items by relevance and application entries by
//! usage.
//!
//! Both sorts repeatedly move the first-encountered maximum of what is left
//! to the output, so items with equal keys keep their relative order.

use vstd::prelude::*;
use vstd::seq_lib::group_to_multiset_ensures;
use crate::index::{AppEntry, EntryV, entries_view};
use crate::item::{Item, ItemV, items_view};

verus! {

broadcast use group_to_multiset_ensures;

/// Scores never increase along the sequence.
pub open spec fn sorted_by_score_desc(s: Seq<ItemV>) -> bool {
    forall|i: int, j: int| 0 <= i <= j < s.len() ==> s[i].score >= s[j].score
}

/// The first index holding a maximal score.
pub open spec fn first_max_score(s: Seq<ItemV>) -> int
    decreases s.len(),
{
    if s.len() <= 1 {
        0
    } else {
        let r = first_max_score(s.drop_first());
        if s.drop_first()[r].score > s[0].score {
            r + 1
        } else {
            0
        }
    }
}

pub proof fn lemma_first_max_score_props(s: Seq<ItemV>)
    requires
        s.len() > 0,
    ensures
        0 <= first_max_score(s) < s.len(),
        forall|k: int| 0 <= k < s.len() ==> s[first_max_score(s)].score >= (#[trigger] s[k]).score,
        forall|k: int| 0 <= k < first_max_score(s) ==> s[first_max_score(s)].score > (#[trigger] s[k]).score,
    decreases s.len(),
{
    if s.len() > 1 {
        let rest = s.drop_first();
        lemma_first_max_score_props(rest);
        let m = first_max_score(s);
        assert(forall|k: int| 0 <= k < s.len() - 1 ==> rest[k] == s[k + 1]);
        assert forall|k: int| 0 <= k < s.len() implies s[m].score >= s[k].score by {
            if k > 0 {
                assert(rest[k - 1] == s[k]);
            }
        }
        assert forall|k: int| 0 <= k < m implies s[m].score > s[k].score by {
            if k > 0 {
                assert(rest[k - 1] == s[k]);
            }
        }
    }
}

/// The order the ranking produces: the first-encountered maximum moves to
/// the front, so items with equal scores keep their relative order.
pub open spec fn spec_ranked(s: Seq<ItemV>) -> Seq<ItemV>
    decreases s.len(),
{
    if s.len() == 0 {
        s
    } else {
        let m = first_max_score(s);
        if 0 <= m < s.len() {
            seq![s[m]] + spec_ranked(s.remove(m))
        } else {
            s
        }
    }
}

/// Usage counters never increase along the sequence.
pub open spec fn sorted_by_usage_desc(s: Seq<EntryV>) -> bool {
    forall|i: int, j: int| 0 <= i <= j < s.len() ==> s[i].launch_count >= s[j].launch_count
}

/// The first index holding a maximal usage counter.
pub open spec fn first_max_usage(s: Seq<EntryV>) -> int
    decreases s.len(),
{
    if s.len() <= 1 {
        0
    } else {
        let r = first_max_usage(s.drop_first());
        if s.drop_first()[r].launch_count > s[0].launch_count {
            r + 1
        } else {
            0
        }
    }
}

pub proof fn lemma_first_max_usage_props(s: Seq<EntryV>)
    requires
        s.len() > 0,
    ensures
        0 <= first_max_usage(s) < s.len(),
        forall|k: int|
            0 <= k < s.len() ==> s[first_max_usage(s)].launch_count >= (
            #[trigger] s[k]).launch_count,
        forall|k: int|
            0 <= k < first_max_usage(s) ==> s[first_max_usage(s)].launch_count > (
            #[trigger] s[k]).launch_count,
    decreases s.len(),
{
    if s.len() > 1 {
        let rest = s.drop_first();
        lemma_first_max_usage_props(rest);
        let m = first_max_usage(s);
        assert(forall|k: int| 0 <= k < s.len() - 1 ==> rest[k] == s[k + 1]);
        assert forall|k: int|
            0 <= k < s.len() implies s[m].launch_count >= s[k].launch_count by {
            if k > 0 {
                assert(rest[k - 1] == s[k]);
            }
        }
        assert forall|k: int| 0 <= k < m implies s[m].launch_count > s[k].launch_count by {
            if k > 0 {
                assert(rest[k - 1] == s[k]);
            }
        }
    }
}

/// The order the browse mode produces: the first-encountered most-used
/// entry moves to the front, so entries with equal counters keep their
/// relative order.
pub open spec fn spec_usage_ranked(s: Seq<EntryV>) -> Seq<EntryV>
    decreases s.len(),
{
    if s.len() == 0 {
        s
    } else {
        let m = first_max_usage(s);
        if 0 <= m < s.len() {
            seq![s[m]] + spec_usage_ranked(s.remove(m))
        } else {
            s
        }
    }
}

pub proof fn lemma_items_view_push(s: Seq<Item>, e: Item)
    ensures
        items_view(s.push(e)) =~= items_view(s).push(e@),
{
}

pub proof fn lemma_items_view_remove(s: Seq<Item>, i: int)
    requires
        0 <= i < s.len(),
    ensures
        items_view(s.remove(i)) =~= items_view(s).remove(i),
{
    assert forall|k: int| 0 <= k < s.len() - 1 implies items_view(s.remove(i))[k] == items_view(
        s,
    ).remove(i)[k] by {
        if k < i {
            assert(s.remove(i)[k] == s[k]);
        } else {
            assert(s.remove(i)[k] == s[k + 1]);
        }
    }
}

/// Sorts items by descending score, the first-encountered maximum first.
pub fn sort_items_desc(items: Vec<Item>) -> (r: Vec<Item>)
    ensures
        r@.len() == items@.len(),
        sorted_by_score_desc(items_view(r@)),
        items_view(r@).to_multiset() == items_view(items@).to_multiset(),
        items_view(r@) == spec_ranked(items_view(items@)),
{
    let ghost orig = items_view(items@);
    let mut rest = items;
    let mut out: Vec<Item> = Vec::new();
    proof {
        assert(items_view(out@) =~= Seq::<ItemV>::empty());
        assert(items_view(out@).to_multiset().add(items_view(rest@).to_multiset())
            =~= orig.to_multiset());
        assert(items_view(out@) + spec_ranked(items_view(rest@)) =~= spec_ranked(orig));
    }
    while rest.len() > 0
        invariant
            out@.len() + rest@.len() == orig.len(),
            sorted_by_score_desc(items_view(out@)),
            items_view(out@).to_multiset().add(items_view(rest@).to_multiset())
                == orig.to_multiset(),
            items_view(out@) + spec_ranked(items_view(rest@)) =~= spec_ranked(orig),
            forall|i: int, j: int|
                0 <= i < out@.len() && 0 <= j < rest@.len() ==> items_view(out@)[i].score
                    >= items_view(rest@)[j].score,
        decreases rest@.len(),
    {
        let n = rest.len();
        let mut m: usize = 0;
        let mut k: usize = 1;
        while k < n
            invariant
                0 <= m < k <= n,
                n == rest@.len(),
                forall|t: int| 0 <= t < k ==> items_view(rest@)[m as int].score >= items_view(
                    rest@,
                )[t].score,
                forall|t: int| 0 <= t < m ==> items_view(rest@)[m as int].score > items_view(
                    rest@,
                )[t].score,
            decreases n - k,
        {
            if rest[k].score > rest[m].score {
                m = k;
            }
            k = k + 1;
        }
        let ghost before = items_view(rest@);
        proof {
            lemma_items_view_remove(rest@, m as int);
            lemma_first_max_score_props(before);
            let fm = first_max_score(before);
            if (m as int) < fm {
                assert(before[fm].score > before[m as int].score);
                assert(before[m as int].score >= before[fm].score);
                assert(false);
            } else if fm < m as int {
                assert(before[m as int].score > before[fm].score);
                assert(before[fm].score >= before[m as int].score);
                assert(false);
            }
            assert(spec_ranked(before) == seq![before[m as int]] + spec_ranked(
                before.remove(m as int),
            ));
        }
        let x = rest.remove(m);
        proof {
            lemma_items_view_push(out@, x);
            assert(before.to_multiset().count(x@) >= 1) by {
                assert(before[m as int] == x@);
                assert(before.contains(x@));
            }
            assert(items_view(out@).to_multiset().insert(x@).add(
                before.to_multiset().remove(x@),
            ) =~= items_view(out@).to_multiset().add(before.to_multiset()));
        }
        out.push(x);
        proof {
            assert(items_view(rest@) =~= before.remove(m as int));
            assert(spec_ranked(items_view(rest@)) == spec_ranked(before.remove(m as int)));
            assert(items_view(out@) + spec_ranked(items_view(rest@)) =~= spec_ranked(orig));
        }
    }
    proof {
        assert(items_view(rest@) =~= Seq::<ItemV>::empty());
        assert(items_view(out@).to_multiset().add(Seq::<ItemV>::empty().to_multiset())
            =~= items_view(out@).to_multiset());
        assert(items_view(out@) =~= spec_ranked(orig));
    }
    out
}

proof fn lemma_entries_seq_push(s: Seq<AppEntry>, e: AppEntry)
    ensures
        entries_view(s.push(e)) =~= entries_view(s).push(e@),
{
}

proof fn lemma_entries_seq_remove(s: Seq<AppEntry>, i: int)
    requires
        0 <= i < s.len(),
    ensures
        entries_view(s.remove(i)) =~= entries_view(s).remove(i),
{
    assert forall|k: int| 0 <= k < s.len() - 1 implies entries_view(s.remove(i))[k] == entries_view(
        s,
    ).remove(i)[k] by {
        if k < i {
            assert(s.remove(i)[k] == s[k]);
        } else {
            assert(s.remove(i)[k] == s[k + 1]);
        }
    }
}

/// Sorts application entries by descending usage counter, the
/// first-encountered maximum first.
pub fn sort_entries_by_usage(entries: Vec<AppEntry>) -> (r: Vec<AppEntry>)
    ensures
        r@.len() == entries@.len(),
        sorted_by_usage_desc(entries_view(r@)),
        entries_view(r@).to_multiset() == entries_view(entries@).to_multiset(),
        entries_view(r@) == spec_usage_ranked(entries_view(entries@)),
{
    let ghost orig = entries_view(entries@);
    let mut rest = entries;
    let mut out: Vec<AppEntry> = Vec::new();
    proof {
        assert(entries_view(out@) =~= Seq::<EntryV>::empty());
        assert(entries_view(out@).to_multiset().add(entries_view(rest@).to_multiset())
            =~= orig.to_multiset());
        assert(entries_view(out@) + spec_usage_ranked(entries_view(rest@)) =~= spec_usage_ranked(
            orig,
        ));
    }
    while rest.len() > 0
        invariant
            out@.len() + rest@.len() == orig.len(),
            sorted_by_usage_desc(entries_view(out@)),
            entries_view(out@).to_multiset().add(entries_view(rest@).to_multiset())
                == orig.to_multiset(),
            entries_view(out@) + spec_usage_ranked(entries_view(rest@)) =~= spec_usage_ranked(
                orig,
            ),
            forall|i: int, j: int|
                0 <= i < out@.len() && 0 <= j < rest@.len() ==> entries_view(out@)[i].launch_count
                    >= entries_view(rest@)[j].launch_count,
        decreases rest@.len(),
    {
        let n = rest.len();
        let mut m: usize = 0;
        let mut k: usize = 1;
        while k < n
            invariant
                0 <= m < k <= n,
                n == rest@.len(),
                forall|t: int|
                    0 <= t < k ==> entries_view(rest@)[m as int].launch_count >= entries_view(
                        rest@,
                    )[t].launch_count,
                forall|t: int|
                    0 <= t < m ==> entries_view(rest@)[m as int].launch_count > entries_view(
                        rest@,
                    )[t].launch_count,
            decreases n - k,
        {
            if rest[k].launch_count > rest[m].launch_count {
                m = k;
            }
            k = k + 1;
        }
        let ghost before = entries_view(rest@);
        proof {
            lemma_entries_seq_remove(rest@, m as int);
            lemma_first_max_usage_props(before);
            let fm = first_max_usage(before);
            if (m as int) < fm {
                assert(before[fm].launch_count > before[m as int].launch_count);
                assert(before[m as int].launch_count >= before[fm].launch_count);
                assert(false);
            } else if fm < m as int {
                assert(before[m as int].launch_count > before[fm].launch_count);
                assert(before[fm].launch_count >= before[m as int].launch_count);
                assert(false);
            }
            assert(spec_usage_ranked(before) == seq![before[m as int]] + spec_usage_ranked(
                before.remove(m as int),
            ));
        }
        let x = rest.remove(m);
        proof {
            lemma_entries_seq_push(out@, x);
            assert(before.to_multiset().count(x@) >= 1) by {
                assert(before[m as int] == x@);
                assert(before.contains(x@));
            }
            assert(entries_view(out@).to_multiset().insert(x@).add(
                before.to_multiset().remove(x@),
            ) =~= entries_view(out@).to_multiset().add(before.to_multiset()));
        }
        out.push(x);
        proof {
            assert(entries_view(rest@) =~= before.remove(m as int));
            assert(spec_usage_ranked(entries_view(rest@)) == spec_usage_ranked(
                before.remove(m as int),
            ));
            assert(entries_view(out@) + spec_usage_ranked(entries_view(rest@))
                =~= spec_usage_ranked(orig));
        }
    }
    proof {
        assert(entries_view(rest@) =~= Seq::<EntryV>::empty());
        assert(entries_view(out@).to_multiset().add(Seq::<EntryV>::empty().to_multiset())
            =~= entries_view(out@).to_multiset());
        assert(entries_view(out@) =~= spec_usage_ranked(orig));
    }
    out
}

} // verus!
