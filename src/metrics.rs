//! Decision-structure counters: statement operators, decisions, and the
//! nesting depth of decision scopes.

use vstd::prelude::*;
use crate::decimal::{decimal, decimal_text, ratio_text, ratio_text_of};
use crate::engine::{AnalysisModel, analysis, analyze};
use crate::syntax::Node;
use crate::tally::AnalysisError;

verus! {

/// Mathematical value of a [`Metric`]'s counters.
pub struct MetricModel {
    pub statement_operators: nat,
    pub decisions: nat,
    pub if_depth: nat,
    pub max_if_depth: nat,
    pub properties: Seq<(Seq<char>, Seq<char>)>,
}

/// Counters gathered while walking a program.
pub struct Metric {
    blockscheme_operators: u64,
    amount_of_ifs: u64,
    if_depth: u64,
    max_if_depth: u64,
    properties: Vec<(String, String)>,
}

/// Views of a list of (label, value) pairs.
pub open spec fn pairs_view(v: Seq<(String, String)>) -> Seq<(Seq<char>, Seq<char>)> {
    v.map_values(|p: (String, String)| (p.0@, p.1@))
}

/// Summary of the counters: statement operators, decisions, decision
/// density (decisions over statement operators, zero when there are none)
/// and the deepest nesting of decision scopes.
pub open spec fn metric_report(m: MetricModel) -> Seq<(Seq<char>, Seq<char>)> {
    seq![
        ("Operators count"@, decimal(m.statement_operators)),
        ("Amount of if's"@, decimal(m.decisions)),
        ("If saturation."@, ratio_text(m.decisions, m.statement_operators)),
        ("Max if depth."@, decimal(m.max_if_depth)),
    ]
}

impl View for Metric {
    type V = MetricModel;

    closed spec fn view(&self) -> MetricModel {
        MetricModel {
            statement_operators: self.blockscheme_operators as nat,
            decisions: self.amount_of_ifs as nat,
            if_depth: self.if_depth as nat,
            max_if_depth: self.max_if_depth as nat,
            properties: pairs_view(self.properties@),
        }
    }
}

impl MetricModel {
    /// The deepest nesting seen is never below the current nesting.
    pub open spec fn inv(self) -> bool {
        self.max_if_depth >= self.if_depth
    }

    /// Every counter is at most `bound`.
    pub open spec fn bounded(self, bound: nat) -> bool {
        &&& self.statement_operators <= bound
        &&& self.decisions <= bound
        &&& self.if_depth <= bound
        &&& self.max_if_depth <= bound
    }
}

impl Metric {
    /// All counters at zero, no properties.
    pub fn new() -> (r: Metric)
        ensures
            r@ == (MetricModel {
                statement_operators: 0,
                decisions: 0,
                if_depth: 0,
                max_if_depth: 0,
                properties: Seq::empty(),
            }),
    {
        let r = Metric {
            blockscheme_operators: 0,
            amount_of_ifs: 0,
            if_depth: 0,
            max_if_depth: 0,
            properties: Vec::new(),
        };
        assert(r@.properties =~= Seq::empty());
        r
    }

    pub fn statement_operators(&self) -> (r: u64)
        ensures
            r == self@.statement_operators,
    {
        self.blockscheme_operators
    }

    pub fn decisions(&self) -> (r: u64)
        ensures
            r == self@.decisions,
    {
        self.amount_of_ifs
    }

    pub fn if_depth(&self) -> (r: u64)
        ensures
            r == self@.if_depth,
    {
        self.if_depth
    }

    pub fn max_if_depth(&self) -> (r: u64)
        ensures
            r == self@.max_if_depth,
    {
        self.max_if_depth
    }

    /// The summary written by the last [`Metric::compute_properties`].
    pub fn properties(&self) -> (r: &Vec<(String, String)>)
        ensures
            pairs_view(r@) == self@.properties,
    {
        &self.properties
    }

    /// Fills `properties` with the summary of the counters.
    pub fn compute_properties(&mut self)
        ensures
            final(self)@ == (MetricModel { properties: metric_report(old(self)@), ..old(self)@ }),
    {
        let ops = decimal_text(self.blockscheme_operators as u128);
        let ifs = decimal_text(self.amount_of_ifs as u128);
        let density = ratio_text_of(self.amount_of_ifs, self.blockscheme_operators);
        let depth = decimal_text(self.max_if_depth as u128);
        self.properties = vec![
            ("Operators count".to_string(), ops),
            ("Amount of if's".to_string(), ifs),
            ("If saturation.".to_string(), density),
            ("Max if depth.".to_string(), depth),
        ];
        assert(pairs_view(self.properties@) =~= metric_report(old(self)@));
    }

    /// Enters one decision scope: one more decision, one level deeper.
    pub fn inc_if_depth(&mut self)
        requires
            old(self)@.decisions < u64::MAX,
            old(self)@.if_depth < u64::MAX,
        ensures
            final(self)@.decisions == old(self)@.decisions + 1,
            final(self)@.if_depth == old(self)@.if_depth + 1,
            final(self)@.max_if_depth == if old(self)@.if_depth + 1 > old(self)@.max_if_depth {
                old(self)@.if_depth + 1
            } else {
                old(self)@.max_if_depth
            },
            final(self)@.statement_operators == old(self)@.statement_operators,
            final(self)@.properties == old(self)@.properties,
    {
        self.amount_of_ifs = self.amount_of_ifs + 1;
        self.if_depth = self.if_depth + 1;
        if self.if_depth > self.max_if_depth {
            self.max_if_depth = self.if_depth;
        }
    }

    /// Leaves one decision scope.
    pub fn dec_if_depth(&mut self)
        requires
            old(self)@.if_depth > 0,
        ensures
            final(self)@ == (MetricModel { if_depth: (old(self)@.if_depth - 1) as nat, ..old(self)@ }),
            final(self)@.properties == old(self)@.properties,
    {
        self.if_depth = self.if_depth - 1;
    }

    /// Enters `k` decision scopes at once: `k` more decisions, `k` levels
    /// deeper.
    pub fn raise_if_depth(&mut self, k: u64)
        requires
            old(self)@.decisions + k <= u64::MAX,
            old(self)@.if_depth + k <= u64::MAX,
        ensures
            final(self)@.decisions == old(self)@.decisions + k,
            final(self)@.if_depth == old(self)@.if_depth + k,
            final(self)@.max_if_depth == if old(self)@.if_depth + k > old(self)@.max_if_depth {
                (old(self)@.if_depth + k) as nat
            } else {
                old(self)@.max_if_depth
            },
            final(self)@.statement_operators == old(self)@.statement_operators,
            final(self)@.properties == old(self)@.properties,
    {
        self.amount_of_ifs = self.amount_of_ifs + k;
        self.if_depth = self.if_depth + k;
        if self.if_depth > self.max_if_depth {
            self.max_if_depth = self.if_depth;
        }
    }

    /// Leaves `k` decision scopes at once.
    pub fn lower_if_depth(&mut self, k: u64)
        requires
            old(self)@.if_depth >= k,
        ensures
            final(self)@ == (MetricModel { if_depth: (old(self)@.if_depth - k) as nat, ..old(self)@ }),
            final(self)@.properties == old(self)@.properties,
    {
        self.if_depth = self.if_depth - k;
    }

    /// Counts `k` more statement operators.
    pub fn add_statement_operators(&mut self, k: u64)
        requires
            old(self)@.statement_operators + k <= u64::MAX,
        ensures
            final(self)@ == (MetricModel {
                statement_operators: (old(self)@.statement_operators + k) as nat,
                ..old(self)@
            }),
            final(self)@.properties == old(self)@.properties,
    {
        self.blockscheme_operators = self.blockscheme_operators + k;
    }
}

impl Default for Metric {
    fn default() -> (r: Metric)
        ensures
            r@ == (MetricModel {
                statement_operators: 0,
                decisions: 0,
                if_depth: 0,
                max_if_depth: 0,
                properties: Seq::empty(),
            }),
    {
        Metric::new()
    }
}

/// Counts the decision structure of the program `tree`.
pub fn process_js(tree: &Node) -> (r: Result<Metric, AnalysisError>)
    ensures
        match r {
            Ok(m) => analysis(*tree) matches Ok(a) && m@ == a.metric,
            Err(e) => analysis(*tree) == Err::<AnalysisModel, AnalysisError>(e),
        },
        r matches Ok(m) ==> m@.if_depth == 0 && m@.inv(),
{
    let a = analyze(tree)?;
    let (_, _, m) = a.into_parts();
    Ok(m)
}

} // verus!
