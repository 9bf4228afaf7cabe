//! The provider abstraction.
//!
//! A provider is a polymorphic data source with the fixed capability set
//! name / description / optional trigger prefix / enabled flag /
//! can-handle-query / query / activate / describe-self. Activation is
//! decided here and carried out by the embedding program: a provider
//! answers with a launch plan, never by spawning anything itself.

use vstd::prelude::*;
use vstd::string::*;
use crate::item::{Item, ItemV, ProviderInfo, item_wf, items_view};
use crate::text::spec_starts_with;

verus! {

/// What activating an item asks the embedding program to run.
#[derive(Debug)]
pub struct LaunchPlan {
    /// Shell command line to run.
    pub command: String,
    /// Run it inside a terminal emulator.
    pub terminal: bool,
}

pub ghost struct LaunchPlanV {
    pub command: Seq<char>,
    pub terminal: bool,
}

impl View for LaunchPlan {
    type V = LaunchPlanV;

    open spec fn view(&self) -> LaunchPlanV {
        LaunchPlanV { command: self.command@, terminal: self.terminal }
    }
}

/// A provider handles a query when it declares no prefix, or when the query
/// starts with its declared prefix.
pub open spec fn spec_can_handle(prefix: Option<Seq<char>>, query: Seq<char>) -> bool {
    match prefix {
        Option::None => true,
        Option::Some(p) => spec_starts_with(query, p),
    }
}

/// A query answer is sound when it respects the cap and every item is
/// well-formed and owned by the provider that produced it.
pub open spec fn query_answer_wf(r: Seq<ItemV>, name: Seq<char>, max_results: int) -> bool {
    &&& r.len() <= max_results
    &&& forall|i: int| 0 <= i < r.len() ==> item_wf(#[trigger] r[i]) && r[i].provider == name
}

/// The core provider capability set.
pub trait Provider: Sized {
    /// The provider's name, as contracts speak of it.
    spec fn spec_name(&self) -> Seq<char>;

    /// The provider's human-readable description.
    spec fn spec_description(&self) -> Seq<char>;

    /// The provider's trigger prefix, if it declares one.
    spec fn spec_prefix(&self) -> Option<Seq<char>>;

    /// Whether the provider is enabled.
    spec fn spec_enabled(&self) -> bool;

    /// The unique name of this provider.
    fn name(&self) -> (r: &'static str)
        ensures
            r@ == self.spec_name(),
    ;

    /// A human-readable description.
    fn description(&self) -> (r: &'static str)
        ensures
            r@ == self.spec_description(),
    ;

    /// The query prefix that routes to this provider, or nothing when it
    /// handles all queries.
    fn prefix(&self) -> (r: Option<&'static str>)
        ensures
            r.deep_view() == self.spec_prefix(),
    ;

    /// Whether this provider is currently enabled.
    fn enabled(&self) -> (r: bool)
        ensures
            r == self.spec_enabled(),
    ;

    /// Whether this provider can handle the given query.
    fn can_handle(&self, query: &str) -> (r: bool)
        ensures
            r == spec_can_handle(self.spec_prefix(), query@),
    ;

    /// Matching items for a query, at most `max_results` of them.
    fn query(&self, query: &str, max_results: usize) -> (r: Vec<Item>)
        ensures
            query_answer_wf(items_view(r@), self.spec_name(), max_results as int),
    ;

    /// Decides how to activate an item: a launch plan for the embedding
    /// program, or an error text.
    fn activate(&self, item: &Item, action_id: Option<&str>) -> (r: Result<LaunchPlan, String>);

    /// The provider's descriptor.
    fn info(&self) -> (r: ProviderInfo)
        ensures
            r@.name == self.spec_name(),
            r@.description == self.spec_description(),
            r@.prefix == self.spec_prefix(),
            r@.enabled == self.spec_enabled(),
    ;
}

} // verus!
