//! Applications provider: serves ranked matches from the application index.

use vstd::prelude::*;
use vstd::string::*;
use vstd::seq_lib::group_to_multiset_ensures;
use crate::index::{
    AppEntry, ApplicationIndex, Candidate, EntryV, FsEvent, IndexV, RawEntry, SourceDir,
    cands_view, dirs_view, entries_view, index_wf, opt_raw_view, spec_apply, spec_load,
};
use crate::item::{
    Action, ActionV, Item, ItemV, ProviderInfo, item_wf, items_view, meta_find, spec_meta_get,
};
use crate::provider::{LaunchPlan, Provider};
use crate::rank::{
    lemma_items_view_push, sort_entries_by_usage, sort_items_desc, sorted_by_score_desc,
    sorted_by_usage_desc, spec_ranked, spec_usage_ranked,
};
use crate::score::{score_entry, normalize_score, spec_normalized, spec_score_entry};
use crate::text::{spec_trim, str_eq, trim_str};

verus! {

broadcast use group_to_multiset_ensures;

/// `s` with every field code removed: a `%` swallows itself and the
/// character after it.
pub open spec fn spec_strip_field_codes(s: Seq<char>) -> Seq<char>
    decreases s.len(),
{
    if s.len() == 0 {
        s
    } else if s[0] == '%' {
        if s.len() == 1 {
            Seq::empty()
        } else {
            spec_strip_field_codes(s.skip(2))
        }
    } else {
        seq![s[0]] + spec_strip_field_codes(s.drop_first())
    }
}

/// A launch command cleaned for execution: field codes removed, then
/// trimmed.
pub open spec fn spec_clean_exec(s: Seq<char>) -> Seq<char> {
    spec_trim(spec_strip_field_codes(s))
}

/// Removes desktop-entry field codes from a launch command and trims it.
pub fn clean_exec(s: &str) -> (r: String)
    ensures
        r@ == spec_clean_exec(s@),
{
    let len = s.unicode_len();
    let mut out = String::new();
    let mut i: usize = 0;
    proof {
        assert(s@.skip(0) =~= s@);
        assert(out@ + spec_strip_field_codes(s@) =~= spec_strip_field_codes(s@));
    }
    while i < len
        invariant
            0 <= i <= len,
            len == s@.len(),
            spec_strip_field_codes(s@) == out@ + spec_strip_field_codes(s@.skip(i as int)),
        decreases len - i,
    {
        let ghost tail = s@.skip(i as int);
        proof {
            assert(tail[0] == s@[i as int]);
        }
        let c = s.get_char(i);
        if c == '%' {
            if len - i >= 2 {
                proof {
                    assert(tail.skip(2) =~= s@.skip(i + 2));
                }
                i = i + 2;
            } else {
                proof {
                    assert(tail.len() == 1);
                    assert(s@.skip(len as int) =~= Seq::<char>::empty());
                    assert(spec_strip_field_codes(tail) =~= Seq::<char>::empty());
                }
                i = len;
            }
        } else {
            let piece = s.substring_char(i, i + 1);
            proof {
                assert(piece@ =~= seq![s@[i as int]]);
                assert(tail.drop_first() =~= s@.skip(i + 1));
            }
            out.append(piece);
            proof {
                assert(out@ + spec_strip_field_codes(s@.skip(i + 1)) =~= (out@.drop_last()
                    + (seq![s@[i as int]] + spec_strip_field_codes(s@.skip(i + 1)))));
            }
            i = i + 1;
        }
    }
    proof {
        assert(s@.skip(len as int) =~= Seq::<char>::empty());
        assert(spec_strip_field_codes(s@) =~= out@);
    }
    trim_str(out.as_str())
}

/// The usage score of an entry, in thousandths: ten per recorded launch,
/// saturating at a full score.
pub open spec fn spec_usage_score(launch_count: u32) -> u32 {
    if launch_count >= 100 {
        1000u32
    } else {
        (launch_count * 10) as u32
    }
}

fn usage_score(launch_count: u32) -> (r: u32)
    ensures
        r == spec_usage_score(launch_count),
        r <= 1000,
{
    if launch_count >= 100 {
        1000
    } else {
        launch_count * 10
    }
}

/// The secondary text an entry is shown with: its description, else its
/// generic name, else nothing.
pub open spec fn spec_subtext(e: EntryV) -> Seq<char> {
    match e.comment {
        Option::Some(c) => c,
        Option::None => match e.generic_name {
            Option::Some(g) => g,
            Option::None => Seq::empty(),
        },
    }
}

/// How a result item presents an application entry: display fields straight
/// from the entry, the cleaned launch command, and the identifying
/// metadata.
pub open spec fn item_for_entry(it: ItemV, e: EntryV, score: u32) -> bool {
    &&& it.text == e.name
    &&& it.subtext == spec_subtext(e)
    &&& it.icon == e.icon
    &&& it.provider == "applications"@
    &&& it.score == score
    &&& it.exec_cmd == spec_clean_exec(e.exec_cmd)
    &&& spec_meta_get(it.metadata, "desktop_id"@) == Option::Some(e.id)
    &&& spec_meta_get(it.metadata, "terminal"@) == Option::Some(
        if e.terminal {
            "true"@
        } else {
            "false"@
        },
    )
}

/// How many entries the scorer accepts for a query.
pub open spec fn spec_match_count(s: Seq<EntryV>, query: Seq<char>) -> int
    decreases s.len(),
{
    if s.len() == 0 {
        0int
    } else {
        spec_match_count(s.drop_last(), query) + if spec_score_entry(s.last(), query) is Some {
            1int
        } else {
            0int
        }
    }
}

/// The entries of `s` the scorer accepts, in order.
pub open spec fn spec_matching(s: Seq<EntryV>, query: Seq<char>) -> Seq<EntryV>
    decreases s.len(),
{
    if s.len() == 0 {
        Seq::empty()
    } else {
        spec_matching(s.drop_last(), query) + if spec_score_entry(s.last(), query) is Some {
            seq![s.last()]
        } else {
            Seq::empty()
        }
    }
}

pub proof fn lemma_matching_len(s: Seq<EntryV>, query: Seq<char>)
    ensures
        spec_matching(s, query).len() == spec_match_count(s, query),
    decreases s.len(),
{
    if s.len() > 0 {
        lemma_matching_len(s.drop_last(), query);
    }
}

proof fn lemma_matching_members(s: Seq<EntryV>, query: Seq<char>)
    ensures
        forall|k: int|
            0 <= k < spec_matching(s, query).len() ==> s.contains(
                #[trigger] spec_matching(s, query)[k],
            ),
    decreases s.len(),
{
    if s.len() > 0 {
        let d = s.drop_last();
        lemma_matching_members(d, query);
        let m = spec_matching(s, query);
        let md = spec_matching(d, query);
        assert forall|k: int| 0 <= k < m.len() implies s.contains(#[trigger] m[k]) by {
            if k < md.len() {
                assert(m[k] == md[k]);
                assert(d.contains(md[k]));
                let j = choose|j: int| 0 <= j < d.len() && d[j] == md[k];
                assert(s[j] == m[k]);
            } else {
                assert(m[k] == s.last());
                assert(s[s.len() - 1] == m[k]);
            }
        }
    }
}

/// No two entries share an identifier.
pub open spec fn entry_ids_unique(s: Seq<EntryV>) -> bool {
    forall|i: int, j: int| 0 <= i < j < s.len() ==> s[i].id != s[j].id
}

proof fn lemma_matching_ids_unique(s: Seq<EntryV>, query: Seq<char>)
    requires
        entry_ids_unique(s),
    ensures
        entry_ids_unique(spec_matching(s, query)),
    decreases s.len(),
{
    if s.len() > 0 {
        let d = s.drop_last();
        assert forall|i: int, j: int| 0 <= i < j < d.len() implies d[i].id != d[j].id by {
            assert(d[i] == s[i]);
            assert(d[j] == s[j]);
        }
        lemma_matching_ids_unique(d, query);
        lemma_matching_members(d, query);
        let m = spec_matching(s, query);
        let md = spec_matching(d, query);
        assert forall|i: int, j: int| 0 <= i < j < m.len() implies m[i].id != m[j].id by {
            if j < md.len() {
                assert(m[i] == md[i] && m[j] == md[j]);
            } else {
                assert(m[j] == s.last());
                assert(m[i] == md[i]);
                assert(d.contains(md[i]));
                let t = choose|t: int| 0 <= t < d.len() && d[t] == md[i];
                assert(s[t] == md[i]);
                assert(s[t].id != s[s.len() - 1].id);
            }
        }
    }
}

/// The single action a search item offers.
pub open spec fn spec_launch_actions() -> Seq<ActionV> {
    seq![ActionV { id: "launch"@, name: "Launch"@, icon: "system-run"@ }]
}

/// `built` presents, in order, exactly the entries the scorer accepts, each
/// at its normalized score and with the launch action.
pub open spec fn is_scored_presentation(
    built: Seq<ItemV>,
    active: Seq<EntryV>,
    query: Seq<char>,
) -> bool {
    &&& built.len() == spec_matching(active, query).len()
    &&& forall|k: int|
        0 <= k < built.len() ==> item_for_entry(
            #[trigger] built[k],
            spec_matching(active, query)[k],
            (spec_normalized(spec_score_entry(spec_matching(active, query)[k], query)->0) as u32),
        ) && built[k].actions == spec_launch_actions()
}

/// The search answer: the stable ranking of an in-order presentation of
/// the accepted entries, truncated to the cap — so exactly the
/// best-scored matches survive, ties keeping their index order.
pub open spec fn ranked_answer(
    r: Seq<ItemV>,
    active: Seq<EntryV>,
    query: Seq<char>,
    max: int,
) -> bool {
    exists|built: Seq<ItemV>|
        #[trigger] is_scored_presentation(built, active, query) && r == spec_ranked(built).take(
            spec_app_count(active, query, max),
        )
}

/// No two answer items present the same identifier.
pub open spec fn distinct_item_ids(r: Seq<ItemV>) -> bool {
    forall|k1: int, k2: int|
        0 <= k1 < k2 < r.len() ==> spec_meta_get((#[trigger] r[k1]).metadata, "desktop_id"@)
            != spec_meta_get((#[trigger] r[k2]).metadata, "desktop_id"@)
}

/// Identifier distinctness carries across any reordering: a sequence with
/// the same multiset as one whose items present pairwise distinct
/// identifiers presents pairwise distinct identifiers too.
proof fn lemma_distinct_ids_transfer(a: Seq<ItemV>, b: Seq<ItemV>)
    requires
        a.to_multiset() == b.to_multiset(),
        distinct_item_ids(b),
    ensures
        distinct_item_ids(a),
{
    assert forall|i: int, j: int|
        0 <= i < b.len() && 0 <= j < b.len() && i != j implies b[i] != b[j] by {
        if i < j {
            assert(spec_meta_get(b[i].metadata, "desktop_id"@) != spec_meta_get(
                b[j].metadata,
                "desktop_id"@,
            ));
        } else {
            assert(spec_meta_get(b[j].metadata, "desktop_id"@) != spec_meta_get(
                b[i].metadata,
                "desktop_id"@,
            ));
        }
    }
    assert(b.no_duplicates());
    b.lemma_multiset_has_no_duplicates();
    assert forall|x: ItemV| a.to_multiset().contains(x) implies a.to_multiset().count(x) == 1 by {
        assert(b.to_multiset().count(x) == 1);
    }
    a.lemma_multiset_has_no_duplicates_conv();
    lemma_ms_elements(a, b);
    assert forall|k1: int, k2: int|
        0 <= k1 < k2 < a.len() implies spec_meta_get(
        (#[trigger] a[k1]).metadata,
        "desktop_id"@,
    ) != spec_meta_get((#[trigger] a[k2]).metadata, "desktop_id"@) by {
        assert(a[k1] != a[k2]);
        assert(b.contains(a[k1]));
        assert(b.contains(a[k2]));
        let m1 = choose|m: int| 0 <= m < b.len() && b[m] == a[k1];
        let m2 = choose|m: int| 0 <= m < b.len() && b[m] == a[k2];
        if m1 == m2 {
            assert(a[k1] == a[k2]);
            assert(false);
        } else if m1 < m2 {
            assert(spec_meta_get(b[m1].metadata, "desktop_id"@) != spec_meta_get(
                b[m2].metadata,
                "desktop_id"@,
            ));
        } else {
            assert(spec_meta_get(b[m2].metadata, "desktop_id"@) != spec_meta_get(
                b[m1].metadata,
                "desktop_id"@,
            ));
        }
    }
}

/// The item presents some active entry the scorer accepted, at that
/// entry's normalized score.
pub open spec fn presents_scored(it: ItemV, active: Seq<EntryV>, query: Seq<char>) -> bool {
    exists|j: int|
        0 <= j < active.len() && spec_score_entry(active[j], query) is Some && item_for_entry(
            it,
            #[trigger] active[j],
            (spec_normalized(spec_score_entry(active[j], query)->0) as u32),
        )
}

/// How many items the applications provider answers with: every active
/// entry in browse mode, every accepted entry in search mode, capped.
pub open spec fn spec_app_count(active: Seq<EntryV>, query: Seq<char>, max: int) -> int {
    let n = if query.len() == 0 {
        active.len() as int
    } else {
        spec_match_count(active, query)
    };
    if n <= max {
        n
    } else {
        max
    }
}

/// Every answer item presents some active entry the scorer accepted.
pub open spec fn scored_answer_ok(r: Seq<ItemV>, active: Seq<EntryV>, query: Seq<char>) -> bool {
    forall|k: int| 0 <= k < r.len() ==> presents_scored(#[trigger] r[k], active, query)
}

/// A sequence whose every element occurs in one that satisfies
/// `scored_answer_ok` satisfies it too.
proof fn lemma_scored_answer_subset(a: Seq<ItemV>, b: Seq<ItemV>, active: Seq<EntryV>, q: Seq<char>)
    requires
        scored_answer_ok(b, active, q),
        forall|i: int| 0 <= i < a.len() ==> b.contains(#[trigger] a[i]),
    ensures
        scored_answer_ok(a, active, q),
{
    assert forall|k: int| 0 <= k < a.len() implies presents_scored(#[trigger] a[k], active, q) by {
        assert(b.contains(a[k]));
        let m = choose|m: int| 0 <= m < b.len() && b[m] == a[k];
        assert(presents_scored(b[m], active, q));
    }
}

/// Appending an item that presents an accepted entry keeps an answer sound.
proof fn lemma_scored_answer_push(
    b: Seq<ItemV>,
    it: ItemV,
    active: Seq<EntryV>,
    q: Seq<char>,
    j: int,
)
    requires
        scored_answer_ok(b, active, q),
        0 <= j < active.len(),
        spec_score_entry(active[j], q) is Some,
        item_for_entry(it, active[j], (spec_normalized(spec_score_entry(active[j], q)->0) as u32)),
    ensures
        scored_answer_ok(b.push(it), active, q),
{
    let b2 = b.push(it);
    assert(presents_scored(it, active, q));
    assert forall|k: int| 0 <= k < b2.len() implies presents_scored(
        #[trigger] b2[k],
        active,
        q,
    ) by {
        if k < b.len() {
            assert(b2[k] == b[k]);
            assert(presents_scored(b[k], active, q));
        } else {
            assert(b2[k] == it);
        }
    }
}

/// Builds the result item for one entry.
fn entry_to_item(e: &AppEntry, score: u32, with_launch_action: bool) -> (r: Item)
    requires
        score <= 1000,
    ensures
        item_for_entry(r@, e@, score),
        item_wf(r@),
        r@.actions == (if with_launch_action {
            spec_launch_actions()
        } else {
            Seq::<ActionV>::empty()
        }),
{
    let subtext: &str = match &e.comment {
        Some(c) => c.as_str(),
        None => match &e.generic_name {
            Some(g) => g.as_str(),
            None => "",
        },
    };
    proof {
        reveal_strlit("");
        assert(""@ =~= Seq::<char>::empty());
    }
    let terminal_value: &str = if e.terminal {
        "true"
    } else {
        "false"
    };
    let item = Item::new(e.name.as_str(), "applications").with_subtext(subtext).with_icon(
        e.icon.as_str(),
    ).with_score(score).with_exec(clean_exec(e.exec_cmd.as_str())).with_metadata(
        "desktop_id",
        e.id.as_str(),
    ).with_metadata("terminal", terminal_value);
    proof {
        reveal_strlit("desktop_id");
        reveal_strlit("terminal");
        assert("desktop_id"@.len() != "terminal"@.len());
        assert("desktop_id"@ != "terminal"@);
        let empty = Seq::<(Seq<char>, Seq<char>)>::empty();
        let m1 = empty.push(("desktop_id"@, e@.id));
        let m2 = m1.push(("terminal"@, terminal_value@));
        assert(meta_find(empty, "terminal"@) == -1);
        assert(m1.drop_first() =~= empty);
        assert(m1[0].0 == "desktop_id"@);
        assert(meta_find(m1, "terminal"@) == -1);
        assert(item@.metadata == m2);
        assert(m2[0].0 == "desktop_id"@);
        assert(meta_find(m2, "desktop_id"@) == 0);
        let tail = m2.drop_first();
        assert(tail =~= empty.push(("terminal"@, terminal_value@)));
        assert(tail[0].0 == "terminal"@);
        assert(meta_find(tail, "terminal"@) == 0);
        assert(meta_find(m2, "terminal"@) == 1);
        assert(m2[1].1 == terminal_value@);
    }
    if with_launch_action {
        let with_launch = item.with_action(
            Action {
                id: String::from_str("launch"),
                name: String::from_str("Launch"),
                icon: String::from_str("system-run"),
            },
        );
        assert(with_launch@.actions =~= spec_launch_actions());
        with_launch
    } else {
        assert(item@.actions =~= Seq::<ActionV>::empty());
        item
    }
}

/// Every element of a sequence with the same multiset as another occurs in
/// that other sequence.
proof fn lemma_ms_elements(a: Seq<ItemV>, b: Seq<ItemV>)
    requires
        a.to_multiset() == b.to_multiset(),
    ensures
        forall|i: int| 0 <= i < a.len() ==> b.contains(#[trigger] a[i]),
{
    assert forall|i: int| 0 <= i < a.len() implies b.contains(#[trigger] a[i]) by {
        assert(a.contains(a[i]));
        assert(a.to_multiset().count(a[i]) > 0);
        assert(b.to_multiset().count(a[i]) > 0);
    }
}

/// Provider for installed applications: wraps the application index and the
/// fuzzy scorer.
pub struct ApplicationsProvider {
    index: ApplicationIndex,
}

impl View for ApplicationsProvider {
    type V = IndexV;

    closed spec fn view(&self) -> IndexV {
        self.index@
    }
}

impl ApplicationsProvider {
    pub open spec fn wf(&self) -> bool {
        index_wf(self@)
    }

    /// A provider over an empty index; entries arrive through `load` and
    /// `apply_event`.
    pub fn new() -> (r: Self)
        ensures
            r@.active =~= Seq::<EntryV>::empty(),
            r@.shadowed =~= Seq::<EntryV>::empty(),
            r.wf(),
    {
        ApplicationsProvider { index: ApplicationIndex::new() }
    }

    /// Full rebuild from a precedence list and the files found under it.
    pub fn load(&mut self, dirs: Vec<SourceDir>, files: Vec<Candidate>)
        ensures
            final(self)@ == spec_load(dirs_view(dirs@), cands_view(files@)),
            final(self).wf(),
    {
        self.index.load(dirs, files);
    }

    /// Folds one filesystem change event into the index.
    pub fn apply_event(&mut self, event: FsEvent, raw: Option<RawEntry>)
        requires
            old(self).wf(),
        ensures
            final(self)@ == spec_apply(old(self)@, event@, opt_raw_view(raw)),
            final(self).wf(),
    {
        self.index.apply_event(event, raw);
    }

    /// Point-in-time copy of the active entries.
    pub fn snapshot(&self) -> (r: Vec<AppEntry>)
        ensures
            entries_view(r@) == self@.active,
    {
        self.index.snapshot()
    }

    /// Whether a directory-creation event concerns a watched application
    /// directory, which asks for a rescan of that directory.
    pub fn is_watched_dir(&self, path: &str) -> (r: bool)
        ensures
            r == exists|i: int| 0 <= i < self@.dirs.len() && (#[trigger] self@.dirs[i]).path
                == path@,
    {
        self.index.is_watched_dir(path)
    }

    /// Answers a query: for an empty query, the most-used entries, capped;
    /// otherwise every entry the scorer accepts, ranked by normalized score
    /// and capped.
    pub fn query_impl(&self, query: &str, max_results: usize) -> (r: Vec<Item>)
        ensures
            r@.len() <= max_results,
            sorted_by_score_desc(items_view(r@)),
            forall|k: int|
                0 <= k < r@.len() ==> item_wf(#[trigger] items_view(r@)[k]) && items_view(
                    r@,
                )[k].provider == "applications"@,
            query@.len() == 0 ==> r@.len() == (if self@.active.len() <= max_results {
                self@.active.len() as int
            } else {
                max_results as int
            }) && forall|k: int|
                0 <= k < r@.len() ==> item_for_entry(
                    #[trigger] items_view(r@)[k],
                    spec_usage_ranked(self@.active)[k],
                    spec_usage_score(spec_usage_ranked(self@.active)[k].launch_count),
                ) && items_view(r@)[k].actions.len() == 0,
            query@.len() > 0 ==> r@.len() == (if spec_match_count(self@.active, query@)
                <= max_results {
                spec_match_count(self@.active, query@)
            } else {
                max_results as int
            }) && scored_answer_ok(items_view(r@), self@.active, query@) && ranked_answer(
                items_view(r@),
                self@.active,
                query@,
                max_results as int,
            ),
            query@.len() > 0 && entry_ids_unique(self@.active) ==> distinct_item_ids(
                items_view(r@),
            ),
    {
        let snap = self.snapshot();
        let ghost active = self@.active;
        if query.is_empty() {
            let sorted = sort_entries_by_usage(snap);
            let ghost sv = entries_view(sorted@);
            let n = sorted.len();
            let cap = if n <= max_results {
                n
            } else {
                max_results
            };
            let mut items: Vec<Item> = Vec::new();
            let mut i: usize = 0;
            while i < cap
                invariant
                    0 <= i <= cap,
                    cap <= n,
                    n == sorted@.len(),
                    sv == entries_view(sorted@),
                    sorted_by_usage_desc(sv),
                    sv.to_multiset() == active.to_multiset(),
                    items@.len() == i,
                    forall|k: int|
                        0 <= k < i ==> item_wf(#[trigger] items_view(items@)[k]) && items_view(
                            items@,
                        )[k].provider == "applications"@ && item_for_entry(
                            items_view(items@)[k],
                            sv[k],
                            spec_usage_score(sv[k].launch_count),
                        ) && items_view(items@)[k].actions.len() == 0,
                decreases cap - i,
            {
                let it = entry_to_item(&sorted[i], usage_score(sorted[i].launch_count), false);
                let ghost old_items = items@;
                proof {
                    lemma_items_view_push(old_items, it);
                }
                items.push(it);
                assert(items_view(items@) =~= items_view(old_items).push(it@));
                i = i + 1;
            }
            proof {
                // Sortedness of the scores follows from the usage order.
                assert forall|a: int, b: int|
                    0 <= a <= b < items@.len() implies items_view(items@)[a].score >= items_view(
                    items@,
                )[b].score by {
                    assert(sv[a].launch_count >= sv[b].launch_count);
                }
                assert(sv == spec_usage_ranked(self@.active));
            }
            return items;
        }
        // Score every entry; keep the matches.
        let ghost q = query@;
        let n = snap.len();
        let mut matched: Vec<Item> = Vec::new();
        let mut i: usize = 0;
        proof {
            assert(items_view(matched@) =~= Seq::<ItemV>::empty());
            assert(active.take(0) =~= Seq::<EntryV>::empty());
            lemma_matching_len(active.take(0), q);
        }
        while i < n
            invariant
                0 <= i <= n,
                n == snap@.len(),
                entries_view(snap@) == active,
                q == query@,
                q.len() > 0,
                matched@.len() == spec_match_count(active.take(i as int), q),
                forall|k: int|
                    0 <= k < matched@.len() ==> item_wf(#[trigger] items_view(matched@)[k])
                        && items_view(matched@)[k].provider == "applications"@,
                scored_answer_ok(items_view(matched@), active, q),
                is_scored_presentation(items_view(matched@), active.take(i as int), q),
            decreases n - i,
        {
            proof {
                assert(active.take(i + 1).drop_last() =~= active.take(i as int));
                assert(active.take(i + 1).last() == active[i as int]);
                assert(snap@[i as int]@ == active[i as int]);
                lemma_matching_len(active.take(i as int), q);
                lemma_matching_len(active.take(i + 1), q);
            }
            match score_entry(&snap[i], query) {
                Some(raw) => {
                    let milli = normalize_score(raw);
                    let it = entry_to_item(&snap[i], milli, true);
                    let ghost old_matched = matched@;
                    proof {
                        lemma_items_view_push(old_matched, it);
                        assert(spec_score_entry(active[i as int], q) == Option::Some(raw as int));
                        assert(item_for_entry(it@, active[i as int], (spec_normalized(
                            spec_score_entry(active[i as int], q)->0,
                        ) as u32)));
                        lemma_scored_answer_push(
                            items_view(old_matched),
                            it@,
                            active,
                            q,
                            i as int,
                        );
                    }
                    matched.push(it);
                    assert(items_view(matched@) =~= items_view(old_matched).push(it@));
                    proof {
                        let mprev = spec_matching(active.take(i as int), q);
                        let mnext = spec_matching(active.take(i + 1), q);
                        assert(mnext == mprev + seq![active[i as int]]);
                        assert(mnext[mprev.len() as int] == active[i as int]);
                        assert forall|k: int|
                            0 <= k < items_view(matched@).len() implies item_for_entry(
                            #[trigger] items_view(matched@)[k],
                            mnext[k],
                            (spec_normalized(spec_score_entry(mnext[k], q)->0) as u32),
                        ) && items_view(matched@)[k].actions == spec_launch_actions() by {
                            if k < mprev.len() {
                                assert(items_view(matched@)[k] == items_view(old_matched)[k]);
                                assert(mnext[k] == mprev[k]);
                            } else {
                                assert(items_view(matched@)[k] == it@);
                            }
                        }
                    }
                },
                None => {
                    proof {
                        let mprev = spec_matching(active.take(i as int), q);
                        let mnext = spec_matching(active.take(i + 1), q);
                        assert(mnext =~= mprev + Seq::<EntryV>::empty());
                        assert(mnext =~= mprev);
                    }
                },
            }
            i = i + 1;
        }
        let ghost built = items_view(matched@);
        proof {
            assert(active.take(n as int) =~= active);
            assert(is_scored_presentation(built, self@.active, query@));
            lemma_matching_len(self@.active, query@);
        }
        let mut out = sort_items_desc(matched);
        let ghost full = items_view(out@);
        if out.len() > max_results {
            out.truncate(max_results);
            assert(items_view(out@) =~= full.subrange(0, max_results as int)) by {
                assert(forall|k: int|
                    0 <= k < out@.len() ==> items_view(out@)[k] == out@[k]@ && out@[k]@ == full[k]);
            }
        }
        proof {
            let outv = items_view(out@);
            assert(forall|k: int| 0 <= k < outv.len() ==> #[trigger] outv[k] == full[k]);
            lemma_ms_elements(full, built);
            assert forall|k: int| 0 <= k < outv.len() implies built.contains(#[trigger] outv[k]) by {
                assert(built.contains(full[k]));
            }
            lemma_scored_answer_subset(outv, built, active, q);
            assert(scored_answer_ok(items_view(out@), self@.active, query@));
            // The answer is the truncated stable ranking of the presentation.
            assert(full == spec_ranked(built));
            let cap = spec_app_count(self@.active, query@, max_results as int);
            assert(outv =~= full.take(cap));
            assert(outv == spec_ranked(built).take(cap));
            assert(ranked_answer(items_view(out@), self@.active, query@, max_results as int));
            // Distinct identifiers, whenever the index serves unique ones.
            if entry_ids_unique(self@.active) {
                lemma_matching_ids_unique(self@.active, query@);
                let matching = spec_matching(self@.active, query@);
                assert forall|k1: int, k2: int|
                    0 <= k1 < k2 < built.len() implies spec_meta_get(
                    (#[trigger] built[k1]).metadata,
                    "desktop_id"@,
                ) != spec_meta_get((#[trigger] built[k2]).metadata, "desktop_id"@) by {
                    assert(spec_meta_get(built[k1].metadata, "desktop_id"@) == Option::Some(
                        matching[k1].id,
                    ));
                    assert(spec_meta_get(built[k2].metadata, "desktop_id"@) == Option::Some(
                        matching[k2].id,
                    ));
                    assert(matching[k1].id != matching[k2].id);
                }
                assert(distinct_item_ids(built));
                lemma_distinct_ids_transfer(full, built);
                assert forall|k1: int, k2: int|
                    0 <= k1 < k2 < outv.len() implies spec_meta_get(
                    (#[trigger] outv[k1]).metadata,
                    "desktop_id"@,
                ) != spec_meta_get((#[trigger] outv[k2]).metadata, "desktop_id"@) by {
                    assert(outv[k1] == full[k1]);
                    assert(outv[k2] == full[k2]);
                }
                assert(distinct_item_ids(outv));
            }
            assert forall|k: int|
                0 <= k < outv.len() implies item_wf(#[trigger] outv[k]) && outv[k].provider
                == "applications"@ by {
                assert(built.contains(outv[k]));
                let m = choose|m: int| 0 <= m < built.len() && built[m] == outv[k];
                assert(item_wf(items_view(matched@)[m]));
            }
        }
        out
    }

    /// Decides activation of an application item: run its cleaned launch
    /// command, inside a terminal when the entry asked for one.
    pub fn activate_impl(&self, item: &Item) -> (r: Result<LaunchPlan, String>)
        ensures
            match r {
                Result::Ok(plan) => plan@.command == item@.exec_cmd && plan@.terminal == (
                spec_meta_get(item@.metadata, "terminal"@) == Option::Some("true"@)),
                Result::Err(_) => false,
            },
    {
        let terminal = match item.meta_get("terminal") {
            Some(v) => str_eq(v.as_str(), "true"),
            None => false,
        };
        Ok(LaunchPlan { command: item.exec_cmd.clone(), terminal })
    }
}

impl Provider for ApplicationsProvider {
    open spec fn spec_name(&self) -> Seq<char> {
        "applications"@
    }

    open spec fn spec_description(&self) -> Seq<char> {
        "Search installed applications"@
    }

    open spec fn spec_prefix(&self) -> Option<Seq<char>> {
        Option::None
    }

    open spec fn spec_enabled(&self) -> bool {
        true
    }

    fn name(&self) -> (r: &'static str) {
        "applications"
    }

    fn description(&self) -> (r: &'static str) {
        "Search installed applications"
    }

    fn prefix(&self) -> (r: Option<&'static str>) {
        None
    }

    fn enabled(&self) -> (r: bool) {
        true
    }

    fn can_handle(&self, query: &str) -> (r: bool) {
        true
    }

    fn query(&self, query: &str, max_results: usize) -> (r: Vec<Item>)
        ensures
            r@.len() == spec_app_count(self@.active, query@, max_results as int),
            query@.len() > 0 ==> ranked_answer(
                items_view(r@),
                self@.active,
                query@,
                max_results as int,
            ),
            query@.len() > 0 && entry_ids_unique(self@.active) ==> distinct_item_ids(
                items_view(r@),
            ),
    {
        self.query_impl(query, max_results)
    }

    fn activate(&self, item: &Item, action_id: Option<&str>) -> (r: Result<LaunchPlan, String>)
        ensures
            match r {
                Result::Ok(plan) => plan@.command == item@.exec_cmd && plan@.terminal == (
                spec_meta_get(item@.metadata, "terminal"@) == Option::Some("true"@)),
                Result::Err(_) => false,
            },
    {
        self.activate_impl(item)
    }

    fn info(&self) -> (r: ProviderInfo) {
        ProviderInfo {
            name: String::from_str("applications"),
            description: String::from_str("Search installed applications"),
            prefix: None,
            enabled: true,
        }
    }
}

} // verus!
