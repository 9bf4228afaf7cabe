//! The provider manager: a registry of providers with fan-out query
//! dispatch, merge, rank and truncate, and targeted activation dispatch.

use vstd::prelude::*;
use vstd::string::*;
use crate::applications::{ApplicationsProvider, spec_app_count};
use crate::calculator::CalculatorProvider;
use crate::command::{CommandProvider, spec_hold_open};
use crate::index::{FsEvent, RawEntry, opt_raw_view, spec_apply};
use crate::item::{Item, ItemV, ProviderInfo, item_wf, items_view, spec_meta_get};
use crate::provider::{LaunchPlan, Provider, spec_can_handle};
use crate::rank::{sort_items_desc, sorted_by_score_desc, spec_ranked};
use crate::text::str_eq;

verus! {

broadcast use vstd::seq_lib::group_to_multiset_ensures;

/// One registered provider.
pub enum RegisteredProvider {
    Applications(ApplicationsProvider),
    Calculator(CalculatorProvider),
    Command(CommandProvider),
}

/// A registered provider is sound when its internal state is; only the
/// applications provider carries state.
pub open spec fn provider_wf(p: RegisteredProvider) -> bool {
    match p {
        RegisteredProvider::Applications(a) => a.wf(),
        RegisteredProvider::Calculator(_) => true,
        RegisteredProvider::Command(_) => true,
    }
}

impl Provider for RegisteredProvider {
    open spec fn spec_name(&self) -> Seq<char> {
        match self {
            RegisteredProvider::Applications(p) => p.spec_name(),
            RegisteredProvider::Calculator(p) => p.spec_name(),
            RegisteredProvider::Command(p) => p.spec_name(),
        }
    }

    open spec fn spec_description(&self) -> Seq<char> {
        match self {
            RegisteredProvider::Applications(p) => p.spec_description(),
            RegisteredProvider::Calculator(p) => p.spec_description(),
            RegisteredProvider::Command(p) => p.spec_description(),
        }
    }

    open spec fn spec_prefix(&self) -> Option<Seq<char>> {
        match self {
            RegisteredProvider::Applications(p) => p.spec_prefix(),
            RegisteredProvider::Calculator(p) => p.spec_prefix(),
            RegisteredProvider::Command(p) => p.spec_prefix(),
        }
    }

    open spec fn spec_enabled(&self) -> bool {
        match self {
            RegisteredProvider::Applications(p) => p.spec_enabled(),
            RegisteredProvider::Calculator(p) => p.spec_enabled(),
            RegisteredProvider::Command(p) => p.spec_enabled(),
        }
    }

    fn name(&self) -> (r: &'static str) {
        match self {
            RegisteredProvider::Applications(p) => p.name(),
            RegisteredProvider::Calculator(p) => p.name(),
            RegisteredProvider::Command(p) => p.name(),
        }
    }

    fn description(&self) -> (r: &'static str) {
        match self {
            RegisteredProvider::Applications(p) => p.description(),
            RegisteredProvider::Calculator(p) => p.description(),
            RegisteredProvider::Command(p) => p.description(),
        }
    }

    fn prefix(&self) -> (r: Option<&'static str>) {
        match self {
            RegisteredProvider::Applications(p) => p.prefix(),
            RegisteredProvider::Calculator(p) => p.prefix(),
            RegisteredProvider::Command(p) => p.prefix(),
        }
    }

    fn enabled(&self) -> (r: bool) {
        match self {
            RegisteredProvider::Applications(p) => p.enabled(),
            RegisteredProvider::Calculator(p) => p.enabled(),
            RegisteredProvider::Command(p) => p.enabled(),
        }
    }

    fn can_handle(&self, query: &str) -> (r: bool) {
        match self {
            RegisteredProvider::Applications(p) => p.can_handle(query),
            RegisteredProvider::Calculator(p) => p.can_handle(query),
            RegisteredProvider::Command(p) => p.can_handle(query),
        }
    }

    fn query(&self, query: &str, max_results: usize) -> (r: Vec<Item>)
        ensures
            r@.len() == spec_result_count(*self, query@, max_results as int),
    {
        match self {
            RegisteredProvider::Applications(p) => p.query(query, max_results),
            RegisteredProvider::Calculator(p) => p.query(query, max_results),
            RegisteredProvider::Command(p) => p.query(query, max_results),
        }
    }

    fn activate(&self, item: &Item, action_id: Option<&str>) -> (r: Result<LaunchPlan, String>)
        ensures
            activate_post(*self, item@, r),
    {
        match self {
            RegisteredProvider::Applications(p) => p.activate(item, action_id),
            RegisteredProvider::Calculator(p) => p.activate(item, action_id),
            RegisteredProvider::Command(p) => p.activate(item, action_id),
        }
    }

    fn info(&self) -> (r: ProviderInfo) {
        match self {
            RegisteredProvider::Applications(p) => p.info(),
            RegisteredProvider::Calculator(p) => p.info(),
            RegisteredProvider::Command(p) => p.info(),
        }
    }
}

/// What activating an item through a given provider yields: applications
/// and commands always produce a launch plan from the item's own fields;
/// calculator items cannot be activated.
pub open spec fn activate_post(
    p: RegisteredProvider,
    item: ItemV,
    r: Result<LaunchPlan, String>,
) -> bool {
    match p {
        RegisteredProvider::Applications(_) => match r {
            Result::Ok(plan) => plan@.command == item.exec_cmd && plan@.terminal == (spec_meta_get(
                item.metadata,
                "terminal"@,
            ) == Option::Some("true"@)),
            Result::Err(_) => false,
        },
        RegisteredProvider::Calculator(_) => r is Err,
        RegisteredProvider::Command(_) => match r {
            Result::Ok(plan) => plan@.terminal && plan@.command == spec_hold_open(
                match spec_meta_get(item.metadata, "command"@) {
                    Option::Some(c) => c,
                    Option::None => item.exec_cmd,
                },
            ),
            Result::Err(_) => false,
        },
    }
}

/// Whether a provider takes part in answering a query: an explicit
/// provider list overrides prefix routing and enabled flags; otherwise
/// every enabled provider whose prefix matches (or that declares none) is
/// dispatched to.
pub open spec fn provider_selected(
    p: RegisteredProvider,
    query: Seq<char>,
    explicit: Seq<Seq<char>>,
) -> bool {
    if explicit.len() > 0 {
        explicit.contains(p.spec_name())
    } else {
        p.spec_enabled() && spec_can_handle(p.spec_prefix(), query)
    }
}

/// Whether provider `i` of the registry takes part in answering a query.
pub open spec fn spec_selected(
    ps: Seq<RegisteredProvider>,
    query: Seq<char>,
    explicit: Seq<Seq<char>>,
    i: int,
) -> bool {
    0 <= i < ps.len() && provider_selected(ps[i], query, explicit)
}

/// How many items one provider answers a query with, under a cap.
pub open spec fn spec_result_count(p: RegisteredProvider, query: Seq<char>, max: int) -> int {
    match p {
        RegisteredProvider::Applications(a) => spec_app_count(a@.active, query, max),
        RegisteredProvider::Calculator(_) => if max >= 1 {
            1int
        } else {
            0int
        },
        RegisteredProvider::Command(_) => if max >= 1 {
            1int
        } else {
            0int
        },
    }
}

/// The items all selected providers contribute to a query, before the
/// merged list is truncated.
pub open spec fn spec_selected_total(
    ps: Seq<RegisteredProvider>,
    query: Seq<char>,
    explicit: Seq<Seq<char>>,
    max: int,
) -> int
    decreases ps.len(),
{
    if ps.len() == 0 {
        0int
    } else {
        spec_selected_total(ps.drop_last(), query, explicit, max) + if provider_selected(
            ps.last(),
            query,
            explicit,
        ) {
            spec_result_count(ps.last(), query, max)
        } else {
            0int
        }
    }
}

/// The items the providers at the given indices contribute.
pub open spec fn spec_count_over(
    ps: Seq<RegisteredProvider>,
    idxs: Seq<usize>,
    query: Seq<char>,
    max: int,
) -> int
    decreases idxs.len(),
{
    if idxs.len() == 0 {
        0int
    } else {
        spec_count_over(ps, idxs.drop_last(), query, max) + spec_result_count(
            ps[idxs.last() as int],
            query,
            max,
        )
    }
}

proof fn lemma_count_over_shrink(
    ps: Seq<RegisteredProvider>,
    idxs: Seq<usize>,
    query: Seq<char>,
    max: int,
)
    requires
        ps.len() > 0,
        forall|t: int| 0 <= t < idxs.len() ==> (#[trigger] idxs[t] as int) < ps.len() - 1,
    ensures
        spec_count_over(ps, idxs, query, max) == spec_count_over(
            ps.drop_last(),
            idxs,
            query,
            max,
        ),
    decreases idxs.len(),
{
    if idxs.len() > 0 {
        let short = idxs.drop_last();
        assert(forall|t: int| 0 <= t < short.len() ==> short[t] == idxs[t]);
        lemma_count_over_shrink(ps, short, query, max);
        assert(ps.drop_last()[idxs.last() as int] == ps[idxs.last() as int]);
    }
}

/// An index list that names exactly the selected providers, in increasing
/// order, contributes exactly what all selected providers contribute.
proof fn lemma_count_over_total(
    ps: Seq<RegisteredProvider>,
    idxs: Seq<usize>,
    query: Seq<char>,
    explicit: Seq<Seq<char>>,
    max: int,
)
    requires
        ps.len() <= usize::MAX,
        forall|t: int| 0 <= t < idxs.len() ==> (#[trigger] idxs[t] as int) < ps.len(),
        forall|t: int, u: int| 0 <= t < u < idxs.len() ==> idxs[t] < idxs[u],
        forall|i: int|
            0 <= i < ps.len() ==> (provider_selected(#[trigger] ps[i], query, explicit)
                <==> idxs.contains(i as usize)),
    ensures
        spec_count_over(ps, idxs, query, max) == spec_selected_total(ps, query, explicit, max),
    decreases ps.len(),
{
    if ps.len() == 0 {
        if idxs.len() > 0 {
            assert((idxs[0] as int) < 0);
        }
    } else {
        let last = ps.len() - 1;
        let pl = ps.drop_last();
        assert(forall|i: int| 0 <= i < pl.len() ==> pl[i] == ps[i]);
        if provider_selected(ps[last], query, explicit) {
            assert(idxs.contains(last as usize));
            let t = choose|t: int| 0 <= t < idxs.len() && idxs[t] == last as usize;
            if t < idxs.len() - 1 {
                assert(idxs[t] < idxs[idxs.len() - 1]);
                assert((idxs[idxs.len() - 1] as int) < ps.len());
                assert(false);
            }
            let short = idxs.drop_last();
            assert(forall|u: int| 0 <= u < short.len() ==> short[u] == idxs[u]);
            assert forall|u: int|
                0 <= u < short.len() implies (#[trigger] short[u] as int) < pl.len() by {
                assert(idxs[u] < idxs[idxs.len() - 1]);
            }
            assert forall|i: int|
                0 <= i < pl.len() implies (provider_selected(#[trigger] pl[i], query, explicit)
                <==> short.contains(i as usize)) by {
                if short.contains(i as usize) {
                    let u = choose|u: int| 0 <= u < short.len() && short[u] == i as usize;
                    assert(idxs[u] == i as usize);
                    assert(idxs.contains(i as usize));
                }
                if provider_selected(pl[i], query, explicit) {
                    assert(idxs.contains(i as usize));
                    let u = choose|u: int| 0 <= u < idxs.len() && idxs[u] == i as usize;
                    if u == idxs.len() - 1 {
                        assert(idxs[u] == last as usize);
                        assert(false);
                    }
                    assert(short[u] == i as usize);
                    assert(short.contains(i as usize));
                }
            }
            lemma_count_over_total(pl, short, query, explicit, max);
            lemma_count_over_shrink(ps, short, query, max);
            assert(idxs.last() == last as usize);
            assert(spec_count_over(ps, idxs, query, max) == spec_count_over(ps, short, query, max)
                + spec_result_count(ps[last], query, max));
        } else {
            assert(!idxs.contains(last as usize));
            assert forall|t: int|
                0 <= t < idxs.len() implies (#[trigger] idxs[t] as int) < pl.len() by {
                if idxs[t] == last as usize {
                    assert(idxs.contains(last as usize));
                }
            }
            assert forall|i: int|
                0 <= i < pl.len() implies (provider_selected(#[trigger] pl[i], query, explicit)
                <==> idxs.contains(i as usize)) by {
                assert(pl[i] == ps[i]);
            }
            lemma_count_over_total(pl, idxs, query, explicit, max);
            lemma_count_over_shrink(ps, idxs, query, max);
        }
    }
}

/// The item carries the name of some selected provider.
pub open spec fn from_selected(
    it: ItemV,
    ps: Seq<RegisteredProvider>,
    query: Seq<char>,
    explicit: Seq<Seq<char>>,
) -> bool {
    exists|i: int| #[trigger]
        spec_selected(ps, query, explicit, i) && it.provider == ps[i].spec_name()
}

/// Index of the first provider with the given name, or -1.
pub open spec fn spec_find_provider(ps: Seq<RegisteredProvider>, name: Seq<char>) -> int
    decreases ps.len(),
{
    if ps.len() == 0 {
        -1
    } else if ps[0].spec_name() == name {
        0
    } else {
        let r = spec_find_provider(ps.drop_first(), name);
        if r < 0 {
            -1
        } else {
            r + 1
        }
    }
}

pub proof fn lemma_find_provider_props(ps: Seq<RegisteredProvider>, name: Seq<char>)
    ensures
        -1 <= spec_find_provider(ps, name) < ps.len(),
        spec_find_provider(ps, name) >= 0 ==> ps[spec_find_provider(ps, name)].spec_name() == name,
        forall|k: int| 0 <= k < spec_find_provider(ps, name) ==> ps[k].spec_name() != name,
        spec_find_provider(ps, name) == -1 ==> forall|k: int|
            0 <= k < ps.len() ==> ps[k].spec_name() != name,
    decreases ps.len(),
{
    if ps.len() > 0 && ps[0].spec_name() != name {
        let rest = ps.drop_first();
        lemma_find_provider_props(rest, name);
        assert forall|k: int|
            0 <= k < spec_find_provider(ps, name) implies ps[k].spec_name() != name by {
            if k > 0 {
                assert(rest[k - 1] == ps[k]);
            }
        }
        if spec_find_provider(ps, name) == -1 {
            assert forall|k: int| 0 <= k < ps.len() implies ps[k].spec_name() != name by {
                if k > 0 {
                    assert(rest[k - 1] == ps[k]);
                }
            }
        }
    }
}

fn name_in(names: &Vec<String>, name: &str) -> (r: bool)
    ensures
        r == names.deep_view().contains(name@),
{
    let n = names.len();
    let mut i: usize = 0;
    while i < n
        invariant
            0 <= i <= n,
            n == names@.len(),
            forall|k: int| 0 <= k < i ==> names.deep_view()[k] != name@,
        decreases n - i,
    {
        if str_eq(names[i].as_str(), name) {
            assert(names.deep_view()[i as int] == name@);
            return true;
        }
        i = i + 1;
    }
    assert forall|k: int| 0 <= k < names.deep_view().len() implies names.deep_view()[k]
        != name@ by {}
    false
}

/// Manages all registered providers.
pub struct ProviderManager {
    providers: Vec<RegisteredProvider>,
}

impl ProviderManager {
    /// The registered providers, in registration order.
    pub closed spec fn spec_providers(&self) -> Seq<RegisteredProvider> {
        self.providers@
    }

    pub open spec fn wf(&self) -> bool {
        forall|i: int|
            0 <= i < self.spec_providers().len() ==> provider_wf(#[trigger] self.spec_providers()[i])
    }

    /// An empty registry.
    pub fn new() -> (r: Self)
        ensures
            r.spec_providers() =~= Seq::<RegisteredProvider>::empty(),
            r.wf(),
    {
        ProviderManager { providers: Vec::new() }
    }

    /// Appends a provider to the registry; registration order has no
    /// query-time significance.
    pub fn register(&mut self, provider: RegisteredProvider)
        requires
            provider_wf(provider),
            old(self).wf(),
        ensures
            final(self).spec_providers() == old(self).spec_providers().push(provider),
            final(self).wf(),
    {
        self.providers.push(provider);
        proof {
            assert forall|i: int|
                0 <= i < self.spec_providers().len() implies provider_wf(
                #[trigger] self.spec_providers()[i],
            ) by {
                if i < old(self).spec_providers().len() {
                    assert(self.spec_providers()[i] == old(self).spec_providers()[i]);
                    assert(provider_wf(old(self).spec_providers()[i]));
                } else {
                    assert(self.spec_providers()[i] == provider);
                }
            }
        }
    }

    /// Descriptors of all registered providers, in registration order.
    pub fn list_providers(&self) -> (r: Vec<ProviderInfo>)
        ensures
            r@.len() == self.spec_providers().len(),
            forall|i: int|
                0 <= i < r@.len() ==> (#[trigger] r@[i]@).name == self.spec_providers()[
                    i
                ].spec_name() && r@[i]@.description == self.spec_providers()[i].spec_description()
                    && r@[i]@.prefix == self.spec_providers()[i].spec_prefix() && r@[i]@.enabled
                    == self.spec_providers()[i].spec_enabled(),
    {
        let n = self.providers.len();
        let mut r: Vec<ProviderInfo> = Vec::new();
        let mut i: usize = 0;
        while i < n
            invariant
                0 <= i <= n,
                n == self.providers@.len(),
                r@.len() == i,
                forall|k: int|
                    0 <= k < i ==> (#[trigger] r@[k]@).name == self.providers@[k].spec_name() && r@[
                        k
                    ]@.description == self.providers@[k].spec_description() && r@[k]@.prefix
                        == self.providers@[k].spec_prefix() && r@[k]@.enabled == self.providers@[
                        k
                    ].spec_enabled(),
            decreases n - i,
        {
            let info = self.providers[i].info();
            r.push(info);
            i = i + 1;
        }
        r
    }

    /// The indices of the providers a query is dispatched to: exactly those
    /// the selection rule picks.
    pub fn selected_indices(&self, query: &str, explicit: &Vec<String>) -> (r: Vec<usize>)
        ensures
            forall|t: int|
                0 <= t < r@.len() ==> spec_selected(
                    self.spec_providers(),
                    query@,
                    explicit.deep_view(),
                    #[trigger] r@[t] as int,
                ),
            forall|i: int|
                0 <= i < self.spec_providers().len() ==> (spec_selected(
                    self.spec_providers(),
                    query@,
                    explicit.deep_view(),
                    i,
                ) <==> r@.contains(i as usize)),
            forall|t: int, u: int| 0 <= t < u < r@.len() ==> r@[t] < r@[u],
    {
        let n = self.providers.len();
        let mut r: Vec<usize> = Vec::new();
        let mut i: usize = 0;
        while i < n
            invariant
                0 <= i <= n,
                n == self.providers@.len(),
                forall|t: int|
                    0 <= t < r@.len() ==> (#[trigger] r@[t]) < i && spec_selected(
                        self.spec_providers(),
                        query@,
                        explicit.deep_view(),
                        r@[t] as int,
                    ),
                forall|k: int|
                    0 <= k < i ==> (spec_selected(
                        self.spec_providers(),
                        query@,
                        explicit.deep_view(),
                        k,
                    ) <==> r@.contains(k as usize)),
                forall|t: int, u: int| 0 <= t < u < r@.len() ==> r@[t] < r@[u],
            decreases n - i,
        {
            let p = &self.providers[i];
            let take = if explicit.len() > 0 {
                name_in(explicit, p.name())
            } else {
                p.enabled() && p.can_handle(query)
            };
            let ghost r0 = r@;
            if take {
                r.push(i);
                proof {
                    assert(r@[r@.len() - 1] == i);
                    assert(r@.contains(i));
                    assert forall|k: int|
                        0 <= k < i + 1 implies (spec_selected(
                        self.spec_providers(),
                        query@,
                        explicit.deep_view(),
                        k,
                    ) <==> r@.contains(k as usize)) by {
                        if k < i {
                            if r0.contains(k as usize) {
                                let t = choose|t: int| 0 <= t < r0.len() && r0[t] == k as usize;
                                assert(r@[t] == k as usize);
                                assert(r@.contains(k as usize));
                            }
                            if r@.contains(k as usize) {
                                let t = choose|t: int| 0 <= t < r@.len() && r@[t] == k as usize;
                                assert(t < r@.len() - 1 ==> r0[t] == k as usize && r0.contains(
                                    k as usize,
                                ));
                            }
                        }
                    }
                }
            } else {
                proof {
                    assert forall|k: int|
                        0 <= k < i + 1 implies (spec_selected(
                        self.spec_providers(),
                        query@,
                        explicit.deep_view(),
                        k,
                    ) <==> r@.contains(k as usize)) by {
                        if k == i {
                            if r@.contains(i) {
                                let t = choose|t: int| 0 <= t < r@.len() && r@[t] == i;
                                assert(r@[t] < i);
                                assert(false);
                            }
                        }
                    }
                }
            }
            i = i + 1;
        }
        r
    }

    /// Queries all selected providers, merges their answers, ranks by
    /// descending score and truncates to the cap.
    pub fn query(&self, query: &str, max_results: usize, explicit: &Vec<String>) -> (r: Vec<Item>)
        ensures
            r@.len() == ({
                let total = spec_selected_total(
                    self.spec_providers(),
                    query@,
                    explicit.deep_view(),
                    max_results as int,
                );
                if total <= max_results {
                    total
                } else {
                    max_results as int
                }
            }),
            sorted_by_score_desc(items_view(r@)),
            forall|k: int|
                0 <= k < r@.len() ==> answer_item_ok(
                    #[trigger] items_view(r@)[k],
                    self.spec_providers(),
                    query@,
                    explicit.deep_view(),
                ),
            ranked_merge(
                items_view(r@),
                self.spec_providers(),
                query@,
                explicit.deep_view(),
                max_results as int,
            ),
    {
        let ghost ps = self.spec_providers();
        let ghost ev = explicit.deep_view();
        let idxs = self.selected_indices(query, explicit);
        proof {
            vstd::std_specs::vec::axiom_spec_len(&self.providers);
            assert forall|i: int|
                0 <= i < ps.len() implies (provider_selected(#[trigger] ps[i], query@, ev)
                <==> idxs@.contains(i as usize)) by {
                assert(spec_selected(ps, query@, ev, i) <==> idxs@.contains(i as usize));
            }
            lemma_count_over_total(ps, idxs@, query@, ev, max_results as int);
        }
        let m = idxs.len();
        let mut all: Vec<Item> = Vec::new();
        let mut t: usize = 0;
        proof {
            assert(items_view(all@) =~= Seq::<ItemV>::empty());
            assert(idxs@.take(0) =~= Seq::<usize>::empty());
        }
        while t < m
            invariant
                0 <= t <= m,
                m == idxs@.len(),
                ps == self.spec_providers(),
                ev == explicit.deep_view(),
                forall|u: int|
                    0 <= u < idxs@.len() ==> spec_selected(ps, query@, ev, #[trigger] idxs@[u] as int),
                all@.len() == spec_count_over(ps, idxs@.take(t as int), query@, max_results as int),
                forall|k: int|
                    0 <= k < items_view(all@).len() ==> answer_item_ok(
                        #[trigger] items_view(all@)[k],
                        ps,
                        query@,
                        ev,
                    ),
            decreases m - t,
        {
            proof {
                assert(idxs@.take(t + 1).drop_last() =~= idxs@.take(t as int));
                assert(idxs@.take(t + 1).last() == idxs@[t as int]);
            }
            let i = idxs[t];
            assert(spec_selected(ps, query@, ev, i as int));
            let mut part = self.providers[i].query(query, max_results);
            let ghost partv = items_view(part@);
            let ghost allv = items_view(all@);
            all.append(&mut part);
            proof {
                assert(items_view(all@) =~= allv + partv) by {
                    assert(forall|k: int|
                        0 <= k < all@.len() ==> #[trigger] items_view(all@)[k] == all@[k]@);
                }
                assert forall|k: int|
                    0 <= k < items_view(all@).len() implies answer_item_ok(
                    #[trigger] items_view(all@)[k],
                    ps,
                    query@,
                    ev,
                ) by {
                    if k < allv.len() {
                        assert(items_view(all@)[k] == allv[k]);
                        assert(answer_item_ok(allv[k], ps, query@, ev));
                    } else {
                        assert(items_view(all@)[k] == partv[k - allv.len()]);
                        assert(item_wf(partv[k - allv.len()]) && partv[k - allv.len()].provider
                            == ps[i as int].spec_name());
                        assert(from_selected(partv[k - allv.len()], ps, query@, ev));
                    }
                }
            }
            t = t + 1;
        }
        proof {
            assert(idxs@.take(m as int) =~= idxs@);
        }
        let ghost built = items_view(all@);
        let mut out = sort_items_desc(all);
        let ghost full = items_view(out@);
        if out.len() > max_results {
            out.truncate(max_results);
            assert(items_view(out@) =~= full.subrange(0, max_results as int)) by {
                assert(forall|k: int|
                    0 <= k < out@.len() ==> items_view(out@)[k] == out@[k]@ && out@[k]@ == full[k]);
            }
        }
        proof {
            let outv = items_view(out@);
            assert(forall|k: int| 0 <= k < outv.len() ==> #[trigger] outv[k] == full[k]);
            lemma_answer_elements(full, built);
            assert forall|k: int|
                0 <= k < outv.len() implies answer_item_ok(
                #[trigger] outv[k],
                self.spec_providers(),
                query@,
                explicit.deep_view(),
            ) by {
                assert(built.contains(full[k]));
                let b = choose|b: int| 0 <= b < built.len() && built[b] == full[k];
                assert(answer_item_ok(built[b], ps, query@, ev));
            }
            // The answer is the truncated stable ranking of the contribution.
            assert(sound_contribution(built, self.spec_providers(), query@, explicit.deep_view(),
            max_results as int));
            assert(full == spec_ranked(built));
            let total = spec_selected_total(ps, query@, ev, max_results as int);
            let cap = if total <= max_results as int {
                total
            } else {
                max_results as int
            };
            assert(outv =~= full.take(cap));
            assert(outv == spec_ranked(built).take(cap));
            assert(ranked_merge(
                items_view(out@),
                self.spec_providers(),
                query@,
                explicit.deep_view(),
                max_results as int,
            ));
        }
        out
    }

    /// Routes an activation to the provider named in the item; an unknown
    /// provider name is a reported failure.
    pub fn activate(&self, item: &Item, action_id: Option<&str>) -> (r: Result<LaunchPlan, String>)
        ensures
            spec_find_provider(self.spec_providers(), item@.provider) < 0 ==> r is Err
                && r->Err_0@ == "Unknown provider: "@ + item@.provider,
            spec_find_provider(self.spec_providers(), item@.provider) >= 0 ==> activate_post(
                self.spec_providers()[spec_find_provider(self.spec_providers(), item@.provider)],
                item@,
                r,
            ),
    {
        let ghost ps = self.spec_providers();
        proof {
            lemma_find_provider_props(ps, item@.provider);
        }
        let n = self.providers.len();
        let mut i: usize = 0;
        while i < n
            invariant
                0 <= i <= n,
                n == self.providers@.len(),
                ps == self.spec_providers(),
                forall|k: int| 0 <= k < i ==> ps[k].spec_name() != item@.provider,
                -1 <= spec_find_provider(ps, item@.provider) < ps.len(),
                spec_find_provider(ps, item@.provider) >= 0 ==> ps[spec_find_provider(
                    ps,
                    item@.provider,
                )].spec_name() == item@.provider,
                forall|k: int|
                    0 <= k < spec_find_provider(ps, item@.provider) ==> ps[k].spec_name()
                        != item@.provider,
                spec_find_provider(ps, item@.provider) == -1 ==> forall|k: int|
                    0 <= k < ps.len() ==> ps[k].spec_name() != item@.provider,
            decreases n - i,
        {
            if str_eq(self.providers[i].name(), item.provider.as_str()) {
                assert(ps[i as int].spec_name() == item@.provider);
                assert(spec_find_provider(ps, item@.provider) == i as int);
                return self.providers[i].activate(item, action_id);
            }
            i = i + 1;
        }
        let mut msg = String::from_str("Unknown provider: ");
        msg.append(item.provider.as_str());
        Err(msg)
    }

    /// Folds one filesystem change event into the first registered
    /// applications provider; a registry without one ignores the event.
    pub fn apply_app_event(&mut self, event: FsEvent, raw: Option<RawEntry>)
        requires
            old(self).wf(),
        ensures
            final(self).wf(),
            event_applied(
                old(self).spec_providers(),
                final(self).spec_providers(),
                event@,
                opt_raw_view(raw),
            ),
    {
        let ghost ps = self.spec_providers();
        proof {
            lemma_first_app_props(ps);
        }
        let n = self.providers.len();
        let mut i: usize = 0;
        while i < n
            invariant
                0 <= i <= n,
                n == self.providers@.len(),
                ps == self.spec_providers(),
                ps == old(self).spec_providers(),
                self.wf(),
                forall|k: int| 0 <= k < i ==> !((#[trigger] ps[k]) is Applications),
                -1 <= spec_first_app(ps) < ps.len(),
                spec_first_app(ps) >= 0 ==> ps[spec_first_app(ps)] is Applications,
                forall|k: int| 0 <= k < spec_first_app(ps) ==> !((#[trigger] ps[k]) is Applications),
                spec_first_app(ps) == -1 ==> forall|k: int|
                    0 <= k < ps.len() ==> !((#[trigger] ps[k]) is Applications),
            decreases n - i,
        {
            let is_app = match &self.providers[i] {
                RegisteredProvider::Applications(_) => true,
                _ => false,
            };
            if is_app {
                assert(spec_first_app(ps) == i as int);
                let taken = self.providers.remove(i);
                match taken {
                    RegisteredProvider::Applications(mut a) => {
                        let ghost a0 = a@;
                        assert(a0 == ps[i as int]->Applications_0@);
                        a.apply_event(event, raw);
                        let ghost af = a@;
                        self.providers.insert(i, RegisteredProvider::Applications(a));
                        proof {
                            let newps = self.spec_providers();
                            assert(newps.len() == ps.len());
                            assert forall|k: int|
                                0 <= k < ps.len() && k != i as int implies newps[k] == ps[k] by {
                                if k < i {
                                    assert(newps[k] == ps.remove(i as int).insert(
                                        i as int,
                                        newps[i as int],
                                    )[k]);
                                }
                            }
                            assert(newps[i as int] is Applications);
                            assert(newps[i as int]->Applications_0@ == af);
                            assert(af == spec_apply(
                                ps[i as int]->Applications_0@,
                                event@,
                                opt_raw_view(raw),
                            ));
                            assert forall|k: int|
                                0 <= k < newps.len() implies provider_wf(#[trigger] newps[k]) by {
                                if k != i {
                                    assert(newps[k] == ps[k]);
                                    assert(provider_wf(ps[k]));
                                }
                            }
                            assert(event_applied(
                                old(self).spec_providers(),
                                self.spec_providers(),
                                event@,
                                opt_raw_view(raw),
                            ));
                        }
                        return ;
                    },
                    other => {
                        // The variant test above saw an applications provider.
                        self.providers.insert(i, other);
                        assert(false);
                    },
                }
            }
            i = i + 1;
        }
    }
}

/// A merged answer item is sound and carries a selected provider's name.
pub open spec fn answer_item_ok(
    it: ItemV,
    ps: Seq<RegisteredProvider>,
    query: Seq<char>,
    explicit: Seq<Seq<char>>,
) -> bool {
    item_wf(it) && from_selected(it, ps, query, explicit)
}

/// A sound contribution: what the selected providers hand the merge —
/// their answers concatenated, one sound item each, at the total count.
pub open spec fn sound_contribution(
    built: Seq<ItemV>,
    ps: Seq<RegisteredProvider>,
    query: Seq<char>,
    explicit: Seq<Seq<char>>,
    max: int,
) -> bool {
    &&& built.len() == spec_selected_total(ps, query, explicit, max)
    &&& forall|k: int| 0 <= k < built.len() ==> answer_item_ok(#[trigger] built[k], ps, query, explicit)
}

/// The merged answer: the stable ranking of some sound contribution of
/// the selected providers, truncated to the cap — so exactly the
/// best-scored items survive, ties keeping concatenation order.
pub open spec fn ranked_merge(
    r: Seq<ItemV>,
    ps: Seq<RegisteredProvider>,
    query: Seq<char>,
    explicit: Seq<Seq<char>>,
    max: int,
) -> bool {
    exists|built: Seq<ItemV>|
        #[trigger] sound_contribution(built, ps, query, explicit, max) && r == spec_ranked(
            built,
        ).take(
            if spec_selected_total(ps, query, explicit, max) <= max {
                spec_selected_total(ps, query, explicit, max)
            } else {
                max
            },
        )
}

/// Every element of a sequence with the same multiset as another occurs in
/// that other sequence.
proof fn lemma_answer_elements(a: Seq<ItemV>, b: Seq<ItemV>)
    requires
        a.to_multiset() == b.to_multiset(),
    ensures
        forall|i: int| 0 <= i < a.len() ==> b.contains(#[trigger] a[i]),
{
    assert forall|i: int| 0 <= i < a.len() implies b.contains(#[trigger] a[i]) by {
        assert(a.contains(a[i]));
        assert(a.to_multiset().count(a[i]) > 0);
        assert(b.to_multiset().count(a[i]) > 0);
    }
}

/// How one filesystem event transforms the registry: the first registered
/// applications provider absorbs it; everything else stays as it was.
pub open spec fn event_applied(
    ps: Seq<RegisteredProvider>,
    newps: Seq<RegisteredProvider>,
    ev: crate::index::EventV,
    rv: Option<crate::index::RawV>,
) -> bool {
    let f = spec_first_app(ps);
    if f < 0 {
        newps == ps
    } else {
        &&& newps.len() == ps.len()
        &&& (forall|i: int| 0 <= i < ps.len() && i != f ==> newps[i] == ps[i])
        &&& newps[f] is Applications
        &&& newps[f]->Applications_0@ == spec_apply(ps[f]->Applications_0@, ev, rv)
    }
}

/// Index of the first registered applications provider, or -1.
pub open spec fn spec_first_app(ps: Seq<RegisteredProvider>) -> int
    decreases ps.len(),
{
    if ps.len() == 0 {
        -1
    } else if ps[0] is Applications {
        0
    } else {
        let r = spec_first_app(ps.drop_first());
        if r < 0 {
            -1
        } else {
            r + 1
        }
    }
}

pub proof fn lemma_first_app_props(ps: Seq<RegisteredProvider>)
    ensures
        -1 <= spec_first_app(ps) < ps.len(),
        spec_first_app(ps) >= 0 ==> ps[spec_first_app(ps)] is Applications,
        forall|k: int| 0 <= k < spec_first_app(ps) ==> !((#[trigger] ps[k]) is Applications),
        spec_first_app(ps) == -1 ==> forall|k: int|
            0 <= k < ps.len() ==> !((#[trigger] ps[k]) is Applications),
    decreases ps.len(),
{
    if ps.len() > 0 && !(ps[0] is Applications) {
        let rest = ps.drop_first();
        lemma_first_app_props(rest);
        assert forall|k: int|
            0 <= k < spec_first_app(ps) implies !((#[trigger] ps[k]) is Applications) by {
            if k > 0 {
                assert(rest[k - 1] == ps[k]);
            }
        }
        if spec_first_app(ps) == -1 {
            assert forall|k: int| 0 <= k < ps.len() implies !((#[trigger] ps[k]) is Applications) by {
                if k > 0 {
                    assert(rest[k - 1] == ps[k]);
                }
            }
        }
    }
}

} // verus!
