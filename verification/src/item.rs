//! Provider-agnostic search results.
//!
//! An `Item` is a value type copied across the provider-manager boundary:
//! identifier, display texts, icon, owning provider, a relevance score in
//! thousandths of the normalized range, a launch command, free-form
//! key/value metadata, and optional named actions.

use vstd::prelude::*;
use vstd::string::*;
use crate::text::str_eq;

verus! {

/// An action that can be performed on an item.
#[derive(Debug)]
pub struct Action {
    pub id: String,
    pub name: String,
    pub icon: String,
}

pub ghost struct ActionV {
    pub id: Seq<char>,
    pub name: Seq<char>,
    pub icon: Seq<char>,
}

impl View for Action {
    type V = ActionV;

    open spec fn view(&self) -> ActionV {
        ActionV { id: self.id@, name: self.name@, icon: self.icon@ }
    }
}

/// One result item from a provider.
#[derive(Debug)]
pub struct Item {
    /// Unique identifier for this item.
    pub id: String,
    /// Primary display text.
    pub text: String,
    /// Secondary display text.
    pub subtext: String,
    /// Icon name or path.
    pub icon: String,
    /// Name of the provider that produced this item.
    pub provider: String,
    /// Relevance score in thousandths: 0 is no relevance, 1000 is full.
    pub score: u32,
    /// Command to execute on activation.
    pub exec_cmd: String,
    /// Additional key/value metadata; keys are unique.
    pub metadata: Vec<(String, String)>,
    /// Available actions.
    pub actions: Vec<Action>,
}

pub ghost struct ItemV {
    pub id: Seq<char>,
    pub text: Seq<char>,
    pub subtext: Seq<char>,
    pub icon: Seq<char>,
    pub provider: Seq<char>,
    pub score: u32,
    pub exec_cmd: Seq<char>,
    pub metadata: Seq<(Seq<char>, Seq<char>)>,
    pub actions: Seq<ActionV>,
}

impl View for Item {
    type V = ItemV;

    open spec fn view(&self) -> ItemV {
        ItemV {
            id: self.id@,
            text: self.text@,
            subtext: self.subtext@,
            icon: self.icon@,
            provider: self.provider@,
            score: self.score,
            exec_cmd: self.exec_cmd@,
            metadata: self.metadata@.map_values(|p: (String, String)| (p.0@, p.1@)),
            actions: self.actions@.map_values(|a: Action| a@),
        }
    }
}

pub open spec fn items_view(s: Seq<Item>) -> Seq<ItemV> {
    s.map_values(|it: Item| it@)
}

/// A sound item: its score stays in the normalized range and its metadata
/// keys are unique.
pub open spec fn item_wf(v: ItemV) -> bool {
    &&& v.score <= 1000
    &&& forall|i: int, j: int|
        0 <= i < j < v.metadata.len() ==> v.metadata[i].0 != v.metadata[j].0
}

/// Index of the first metadata pair with key `k`, or -1.
pub open spec fn meta_find(m: Seq<(Seq<char>, Seq<char>)>, k: Seq<char>) -> int
    decreases m.len(),
{
    if m.len() == 0 {
        -1
    } else if m[0].0 == k {
        0
    } else {
        let r = meta_find(m.drop_first(), k);
        if r < 0 {
            -1
        } else {
            r + 1
        }
    }
}

pub proof fn lemma_meta_find_props(m: Seq<(Seq<char>, Seq<char>)>, k: Seq<char>)
    ensures
        -1 <= meta_find(m, k) < m.len(),
        meta_find(m, k) >= 0 ==> m[meta_find(m, k)].0 == k,
        forall|i: int| 0 <= i < meta_find(m, k) ==> m[i].0 != k,
        meta_find(m, k) == -1 ==> forall|i: int| 0 <= i < m.len() ==> m[i].0 != k,
    decreases m.len(),
{
    if m.len() > 0 && m[0].0 != k {
        let rest = m.drop_first();
        lemma_meta_find_props(rest, k);
        assert forall|i: int| 0 <= i < meta_find(m, k) implies m[i].0 != k by {
            if i > 0 {
                assert(rest[i - 1] == m[i]);
            }
        }
        if meta_find(m, k) == -1 {
            assert forall|i: int| 0 <= i < m.len() implies m[i].0 != k by {
                if i > 0 {
                    assert(rest[i - 1] == m[i]);
                }
            }
        }
    }
}

/// The value stored under key `k`, if any.
pub open spec fn spec_meta_get(m: Seq<(Seq<char>, Seq<char>)>, k: Seq<char>) -> Option<Seq<char>> {
    let i = meta_find(m, k);
    if i < 0 {
        Option::None
    } else {
        Option::Some(m[i].1)
    }
}

/// The metadata after storing `v` under `k`: an existing pair is replaced,
/// a fresh key is appended.
pub open spec fn spec_meta_set(
    m: Seq<(Seq<char>, Seq<char>)>,
    k: Seq<char>,
    v: Seq<char>,
) -> Seq<(Seq<char>, Seq<char>)> {
    let i = meta_find(m, k);
    if i < 0 {
        m.push((k, v))
    } else {
        m.update(i, (k, v))
    }
}

/// Relies on `uuid::Uuid::new_v4` and its hyphenated `Display` form: a
/// freshly drawn random identifier, rendered as 36 characters.
#[verifier::external_body]
pub(crate) fn fresh_id() -> (r: String)
    ensures
        r@.len() == 36,
{
    uuid::Uuid::new_v4().to_string()
}

impl Item {
    /// A new item with the given display text and owning provider, a fresh
    /// unique identifier, and everything else empty.
    pub fn new(text: &str, provider: &str) -> (r: Item)
        ensures
            r@.text == text@,
            r@.provider == provider@,
            r@.id.len() == 36,
            r@.subtext =~= Seq::<char>::empty(),
            r@.icon =~= Seq::<char>::empty(),
            r@.score == 0,
            r@.exec_cmd =~= Seq::<char>::empty(),
            r@.metadata =~= Seq::<(Seq<char>, Seq<char>)>::empty(),
            r@.actions =~= Seq::<ActionV>::empty(),
            item_wf(r@),
    {
        let r = Item {
            id: fresh_id(),
            text: text.to_owned(),
            subtext: String::new(),
            icon: String::new(),
            provider: provider.to_owned(),
            score: 0,
            exec_cmd: String::new(),
            metadata: Vec::new(),
            actions: Vec::new(),
        };
        assert(r@.metadata =~= Seq::<(Seq<char>, Seq<char>)>::empty());
        assert(r@.actions =~= Seq::<ActionV>::empty());
        r
    }

    pub fn with_subtext(self, subtext: &str) -> (r: Item)
        ensures
            r@ == (ItemV { subtext: subtext@, ..self@ }),
    {
        Item { subtext: subtext.to_owned(), ..self }
    }

    pub fn with_icon(self, icon: &str) -> (r: Item)
        ensures
            r@ == (ItemV { icon: icon@, ..self@ }),
    {
        Item { icon: icon.to_owned(), ..self }
    }

    /// Sets the relevance score, in thousandths of the normalized range.
    pub fn with_score(self, score: u32) -> (r: Item)
        requires
            score <= 1000,
        ensures
            r@ == (ItemV { score: score, ..self@ }),
    {
        Item { score, ..self }
    }

    pub fn with_exec(self, exec_cmd: String) -> (r: Item)
        ensures
            r@ == (ItemV { exec_cmd: exec_cmd@, ..self@ }),
    {
        Item { exec_cmd, ..self }
    }

    /// Stores a metadata value: replaces the pair with the same key, or
    /// appends a fresh one.
    pub fn with_metadata(self, key: &str, value: &str) -> (r: Item)
        ensures
            r@ == (ItemV { metadata: spec_meta_set(self@.metadata, key@, value@), ..self@ }),
            item_wf(self@) ==> item_wf(r@),
    {
        let ghost m0 = self@.metadata;
        proof {
            lemma_meta_find_props(m0, key@);
        }
        let mut metadata = self.metadata;
        let n = metadata.len();
        let mut i: usize = 0;
        let mut found: Option<usize> = None;
        while i < n
            invariant
                0 <= i <= n,
                n == metadata@.len(),
                m0 == metadata@.map_values(|p: (String, String)| (p.0@, p.1@)),
                match found {
                    Option::None => forall|k: int| 0 <= k < i ==> m0[k].0 != key@,
                    Option::Some(f) => f < i && m0[f as int].0 == key@ && forall|k: int|
                        0 <= k < f ==> m0[k].0 != key@,
                },
                found is Some ==> found->0 < n,
            decreases n - i,
        {
            if found.is_none() && str_eq(metadata[i].0.as_str(), key) {
                assert(m0[i as int].0 == key@);
                found = Some(i);
            }
            i = i + 1;
        }
        match found {
            Some(f) => {
                proof {
                    if meta_find(m0, key@) != f {
                        assert(m0[meta_find(m0, key@)].0 == key@);
                        assert(false);
                    }
                }
                metadata.remove(f);
                metadata.insert(f, (key.to_owned(), value.to_owned()));
                let r = Item { metadata, ..self };
                assert(r@.metadata =~= spec_meta_set(m0, key@, value@)) by {
                    assert(forall|k: int|
                        0 <= k < r.metadata@.len() ==> r@.metadata[k] == (r.metadata@[k].0@,
                        r.metadata@[k].1@));
                }
                proof {
                    if item_wf(self@) {
                        assert forall|a: int, b: int|
                            0 <= a < b < r@.metadata.len() implies r@.metadata[a].0
                            != r@.metadata[b].0 by {
                            assert(m0[a].0 != m0[b].0);
                        }
                    }
                }
                r
            },
            None => {
                assert(meta_find(m0, key@) == -1);
                metadata.push((key.to_owned(), value.to_owned()));
                let r = Item { metadata, ..self };
                assert(r@.metadata =~= spec_meta_set(m0, key@, value@)) by {
                    assert(forall|k: int|
                        0 <= k < r.metadata@.len() ==> r@.metadata[k] == (r.metadata@[k].0@,
                        r.metadata@[k].1@));
                }
                proof {
                    if item_wf(self@) {
                        assert forall|a: int, b: int|
                            0 <= a < b < r@.metadata.len() implies r@.metadata[a].0
                            != r@.metadata[b].0 by {
                            if b < m0.len() {
                                assert(m0[a].0 != m0[b].0);
                            } else {
                                assert(r@.metadata[b].0 == key@);
                                assert(m0[a].0 != key@);
                            }
                        }
                    }
                }
                r
            },
        }
    }

    pub fn with_action(self, action: Action) -> (r: Item)
        ensures
            r@ == (ItemV { actions: self@.actions.push(action@), ..self@ }),
    {
        let ghost a0 = self@.actions;
        let mut actions = self.actions;
        actions.push(action);
        let r = Item { actions, ..self };
        assert(r@.actions =~= a0.push(action@));
        r
    }

    /// Looks up a metadata value by key.
    pub fn meta_get(&self, key: &str) -> (r: Option<&String>)
        ensures
            match r {
                Option::None => spec_meta_get(self@.metadata, key@) is None,
                Option::Some(v) => spec_meta_get(self@.metadata, key@) == Option::Some(v@),
            },
    {
        let ghost m0 = self@.metadata;
        proof {
            lemma_meta_find_props(m0, key@);
        }
        let n = self.metadata.len();
        let mut i: usize = 0;
        while i < n
            invariant
                0 <= i <= n,
                n == self.metadata@.len(),
                m0 == self@.metadata,
                forall|k: int| 0 <= k < i ==> m0[k].0 != key@,
                -1 <= meta_find(m0, key@) < m0.len(),
                meta_find(m0, key@) >= 0 ==> m0[meta_find(m0, key@)].0 == key@,
                forall|k: int| 0 <= k < meta_find(m0, key@) ==> m0[k].0 != key@,
                meta_find(m0, key@) == -1 ==> forall|k: int| 0 <= k < m0.len() ==> m0[k].0 != key@,
            decreases n - i,
        {
            if str_eq(self.metadata[i].0.as_str(), key) {
                assert(m0[i as int].0 == key@);
                return Some(&self.metadata[i].1);
            }
            i = i + 1;
        }
        None
    }
}

/// Information about a provider, as reported to clients.
#[derive(Debug)]
pub struct ProviderInfo {
    pub name: String,
    pub description: String,
    pub prefix: Option<String>,
    pub enabled: bool,
}

pub ghost struct ProviderInfoV {
    pub name: Seq<char>,
    pub description: Seq<char>,
    pub prefix: Option<Seq<char>>,
    pub enabled: bool,
}

impl View for ProviderInfo {
    type V = ProviderInfoV;

    open spec fn view(&self) -> ProviderInfoV {
        ProviderInfoV {
            name: self.name@,
            description: self.description@,
            prefix: self.prefix.deep_view(),
            enabled: self.enabled,
        }
    }
}

} // verus!
