//! Calculator provider: evaluates arithmetic expressions.

use vstd::prelude::*;
use vstd::string::*;
use crate::item::{Item, ProviderInfo, item_wf, items_view, spec_meta_get};
use crate::provider::{LaunchPlan, Provider, spec_can_handle};
use crate::text::{
    lemma_trim_head, spec_is_whitespace, spec_strip_prefix_char, spec_trim, str_starts_with,
    strip_prefix_char, trim_str,
};

verus! {

/// What evaluating an arithmetic expression yields: the rendered numeric
/// result, or the evaluator's error text; a function of the expression
/// alone.
pub uninterp spec fn eval_of(expr: Seq<char>) -> Result<Seq<char>, Seq<char>>;

/// Relies on `meval::eval_str` with its default context: the outcome
/// depends on the expression text alone. The tokenizer aborts on blank
/// input (its catch-all panics once leading whitespace eats everything),
/// so the expression must begin with a non-whitespace character; every
/// other path reports its failure as an error value. The number is
/// rendered with signed infinities and the not-a-number case by name, and
/// everything finite with ten digits, trailing zeros trimmed, so whole
/// numbers read as integers (an exact negative zero as plain zero); the
/// error keeps its display form.
#[verifier::external_body]
fn eval_expression(expr: &str) -> (r: Result<String, String>)
    requires
        expr@.len() > 0,
        !spec_is_whitespace(expr@[0]),
    ensures
        match r {
            Result::Ok(s) => eval_of(expr@) == Result::<Seq<char>, Seq<char>>::Ok(s@),
            Result::Err(e) => eval_of(expr@) == Result::<Seq<char>, Seq<char>>::Err(e@),
        },
{
    match meval::eval_str(expr) {
        Ok(v) => Ok(
            if v.is_infinite() {
                (if v.is_sign_positive() { "Infinity" } else { "-Infinity" }).to_string()
            } else if v.is_nan() {
                "NaN".to_string()
            } else {
                let full = format!("{:.10}", v);
                let t = full.trim_end_matches('0').trim_end_matches('.');
                (if t == "-0" && v == v.trunc() { "0" } else { t }).to_string()
            },
        ),
        Err(e) => Err(format!("{}", e)),
    }
}

/// Routing law: the trigger prefix carries no meaning beyond routing — a
/// query that does not already begin with the prefix evaluates the same
/// expression once the prefix is prepended, so both queries get equal
/// items apart from their fresh identifiers.
pub proof fn lemma_prefix_is_routing_only(q: Seq<char>)
    requires
        q.len() > 0 ==> q[0] != '=',
    ensures
        spec_expr_of(seq!['='] + q) == spec_expr_of(q),
{
    let q2 = seq!['='] + q;
    assert(q2[0] == '=');
    assert(q2.drop_first() =~= q);
}

/// Provider for arithmetic calculations.
#[derive(Debug)]
pub struct CalculatorProvider;

/// The expression a query asks to evaluate: the query without its trigger
/// prefix, trimmed.
pub open spec fn spec_expr_of(query: Seq<char>) -> Seq<char> {
    spec_trim(spec_strip_prefix_char(query, '='))
}

impl CalculatorProvider {
    pub fn new() -> (r: Self) {
        CalculatorProvider
    }

    /// Answers a query with exactly one item: a usage hint for an empty
    /// expression, the rendered result for one the evaluator accepts, and
    /// an error item otherwise. A zero cap yields nothing.
    pub fn query_impl(&self, query: &str, max_results: usize) -> (r: Vec<Item>)
        ensures
            max_results == 0 ==> r@.len() == 0,
            max_results >= 1 ==> {
                let expr = spec_expr_of(query@);
                let it = items_view(r@)[0];
                &&& r@.len() == 1
                &&& item_wf(it)
                &&& it.provider == "calculator"@
                &&& it.exec_cmd.len() == 0
                &&& it.actions.len() == 0
                &&& if expr.len() == 0 {
                    &&& it.text == "Enter an expression (e.g., 2+2)"@
                    &&& it.icon == "accessories-calculator"@
                    &&& it.score == 1000
                    &&& it.metadata.len() == 0
                } else {
                    match eval_of(expr) {
                        Result::Ok(s) => {
                            &&& it.text == s
                            &&& it.subtext == expr + " ="@
                            &&& it.icon == "accessories-calculator"@
                            &&& it.score == 1000
                            &&& it.metadata == seq![("expression"@, expr), ("result"@, s)]
                            &&& spec_meta_get(it.metadata, "expression"@) == Option::Some(expr)
                            &&& spec_meta_get(it.metadata, "result"@) == Option::Some(s)
                        },
                        Result::Err(e) => {
                            &&& it.text == "Invalid expression"@
                            &&& it.subtext == "Error: "@ + e
                            &&& it.icon == "dialog-error"@
                            &&& it.score == 500
                            &&& it.metadata.len() == 0
                        },
                    }
                }
            },
    {
        if max_results == 0 {
            let r: Vec<Item> = Vec::new();
            return r;
        }
        let stripped = strip_prefix_char(query, '=');
        let expr = trim_str(stripped);
        let ghost ev = spec_expr_of(query@);
        assert(expr@ == ev);
        if expr.as_str().is_empty() {
            let item = Item::new("Enter an expression (e.g., 2+2)", "calculator").with_subtext(
                "Supports: +, -, *, /, ^, sqrt(), sin(), cos(), tan(), log(), etc.",
            ).with_icon("accessories-calculator").with_score(1000);
            let mut r: Vec<Item> = Vec::new();
            r.push(item);
            assert(items_view(r@) =~= seq![item@]);
            return r;
        }
        proof {
            lemma_trim_head(spec_strip_prefix_char(query@, '='));
        }
        match eval_expression(expr.as_str()) {
            Ok(result_str) => {
                let mut subtext = expr.clone();
                subtext.append(" =");
                let item = Item::new(result_str.as_str(), "calculator").with_subtext(
                    subtext.as_str(),
                ).with_icon("accessories-calculator").with_score(1000).with_metadata(
                    "expression",
                    expr.as_str(),
                ).with_metadata("result", result_str.as_str());
                proof {
                    reveal_strlit("expression");
                    reveal_strlit("result");
                    assert("expression"@.len() != "result"@.len());
                    assert("expression"@ != "result"@);
                    let empty = Seq::<(Seq<char>, Seq<char>)>::empty();
                    let m1 = empty.push(("expression"@, ev));
                    let m2 = m1.push(("result"@, result_str@));
                    assert(crate::item::meta_find(empty, "result"@) == -1);
                    assert(m1.drop_first() =~= empty);
                    assert(m1[0].0 == "expression"@);
                    assert(crate::item::meta_find(m1, "result"@) == -1);
                    assert(item@.metadata == m2);
                    assert(m2[0].0 == "expression"@);
                    assert(crate::item::meta_find(m2, "expression"@) == 0);
                    let tail = m2.drop_first();
                    assert(tail =~= empty.push(("result"@, result_str@)));
                    assert(tail[0].0 == "result"@);
                    assert(crate::item::meta_find(tail, "result"@) == 0);
                    assert(crate::item::meta_find(m2, "result"@) == 1);
                    assert(m2[1].1 == result_str@);
                    assert(m2 =~= seq![("expression"@, ev), ("result"@, result_str@)]);
                }
                let mut r: Vec<Item> = Vec::new();
                r.push(item);
                assert(items_view(r@) =~= seq![item@]);
                r
            },
            Err(e) => {
                let mut subtext = String::from_str("Error: ");
                subtext.append(e.as_str());
                let item = Item::new("Invalid expression", "calculator").with_subtext(
                    subtext.as_str(),
                ).with_icon("dialog-error").with_score(500);
                let mut r: Vec<Item> = Vec::new();
                r.push(item);
                assert(items_view(r@) =~= seq![item@]);
                r
            },
        }
    }
}

impl Provider for CalculatorProvider {
    open spec fn spec_name(&self) -> Seq<char> {
        "calculator"@
    }

    open spec fn spec_description(&self) -> Seq<char> {
        "Evaluate mathematical expressions"@
    }

    open spec fn spec_prefix(&self) -> Option<Seq<char>> {
        Option::Some("="@)
    }

    open spec fn spec_enabled(&self) -> bool {
        true
    }

    fn name(&self) -> (r: &'static str) {
        "calculator"
    }

    fn description(&self) -> (r: &'static str) {
        "Evaluate mathematical expressions"
    }

    fn prefix(&self) -> (r: Option<&'static str>) {
        Some("=")
    }

    fn enabled(&self) -> (r: bool) {
        true
    }

    fn can_handle(&self, query: &str) -> (r: bool) {
        str_starts_with(query, "=")
    }

    fn query(&self, query: &str, max_results: usize) -> (r: Vec<Item>)
        ensures
            r@.len() == (if max_results == 0 {
                0int
            } else {
                1int
            }),
    {
        self.query_impl(query, max_results)
    }

    fn activate(&self, item: &Item, action_id: Option<&str>) -> (r: Result<LaunchPlan, String>)
        ensures
            r is Err,
    {
        Err(String::from_str("Activation not supported"))
    }

    fn info(&self) -> (r: ProviderInfo) {
        ProviderInfo {
            name: String::from_str("calculator"),
            description: String::from_str("Evaluate mathematical expressions"),
            prefix: Some(String::from_str("=")),
            enabled: true,
        }
    }
}

} // verus!
