//! Halstead vocabulary of a program: its operator and operand tallies and
//! the sizes derived from them.

use vstd::prelude::*;
use crate::decimal::{decimal, decimal_text};
use crate::engine::{analysis, analyze};
use crate::metrics::pairs_view;
use crate::syntax::Node;
use crate::tally::{AnalysisError, Tally, TallyModel, distinct, total};

verus! {

/// Mathematical value of a [`Dictionary`].
pub struct DictionaryModel {
    pub operators: TallyModel,
    pub operands: TallyModel,
    pub properties: Seq<(Seq<char>, Seq<char>)>,
}

/// Operator and operand tallies with their summary.
pub struct Dictionary {
    operators: Tally,
    operands: Tally,
    properties: Vec<(String, String)>,
}

impl View for Dictionary {
    type V = DictionaryModel;

    closed spec fn view(&self) -> DictionaryModel {
        DictionaryModel {
            operators: self.operators@,
            operands: self.operands@,
            properties: pairs_view(self.properties@),
        }
    }
}

/// Summary of the tallies: unique and total operators and operands, the
/// program dictionary (unique operators plus unique operands) and the
/// program length (total operators plus total operands).
pub open spec fn dictionary_report(d: DictionaryModel) -> Seq<(Seq<char>, Seq<char>)> {
    seq![
        ("Unique operators"@, decimal(distinct(d.operators))),
        ("Unique operands"@, decimal(distinct(d.operands))),
        ("Total operators"@, decimal(total(d.operators))),
        ("Total operands"@, decimal(total(d.operands))),
        ("Program dictionary"@, decimal(distinct(d.operators) + distinct(d.operands))),
        ("Program length"@, decimal(total(d.operators) + total(d.operands))),
    ]
}

impl Dictionary {
    /// Keys of both tallies are unique.
    pub closed spec fn wf(&self) -> bool {
        self.operators.wf() && self.operands.wf()
    }

    /// Tallies of operators and operands, with no summary yet.
    pub fn from_tallies(operators: Tally, operands: Tally) -> (r: Dictionary)
        ensures
            r@.operators == operators@,
            r@.operands == operands@,
            r@.properties.len() == 0,
            operators.wf() && operands.wf() ==> r.wf(),
    {
        let r = Dictionary { operators, operands, properties: Vec::new() };
        assert(r@.properties =~= Seq::empty());
        r
    }

    pub fn operators(&self) -> (r: &Tally)
        ensures
            r@ == self@.operators,
            self.wf() ==> r.wf(),
    {
        &self.operators
    }

    pub fn operands(&self) -> (r: &Tally)
        ensures
            r@ == self@.operands,
            self.wf() ==> r.wf(),
    {
        &self.operands
    }

    /// The summary written by the last [`Dictionary::compute_properties`].
    pub fn properties(&self) -> (r: &Vec<(String, String)>)
        ensures
            pairs_view(r@) == self@.properties,
    {
        &self.properties
    }

    /// Fills `properties` with the summary of the tallies.
    pub fn compute_properties(&mut self)
        requires
            old(self).wf(),
        ensures
            final(self)@ == (DictionaryModel { properties: dictionary_report(old(self)@), ..old(self)@ }),
            final(self).wf(),
    {
        let op_dict = self.operators.distinct();
        let od_dict = self.operands.distinct();
        let op_total = self.operators.total();
        let od_total = self.operands.total();
        self.properties = vec![
            ("Unique operators".to_string(), decimal_text(op_dict as u128)),
            ("Unique operands".to_string(), decimal_text(od_dict as u128)),
            ("Total operators".to_string(), decimal_text(op_total as u128)),
            ("Total operands".to_string(), decimal_text(od_total as u128)),
            ("Program dictionary".to_string(), decimal_text(op_dict as u128 + od_dict as u128)),
            ("Program length".to_string(), decimal_text(op_total as u128 + od_total as u128)),
        ];
        assert(pairs_view(self.properties@) =~= dictionary_report(old(self)@));
    }
}

/// Tallies the operators and operands of the program `tree`.
pub fn process_js(tree: &Node) -> (r: Result<Dictionary, AnalysisError>)
    ensures
        match r {
            Ok(d) => analysis(*tree) matches Ok(a) && d@ == (DictionaryModel {
                operators: a.operators,
                operands: a.operands,
                properties: Seq::empty(),
            }) && d.wf(),
            Err(e) => analysis(*tree) == Err::<crate::engine::AnalysisModel, AnalysisError>(e),
        },
{
    let a = analyze(tree)?;
    let (operators, operands, _) = a.into_parts();
    let d = Dictionary::from_tallies(operators, operands);
    assert(d@.properties =~= Seq::empty());
    Ok(d)
}

} // verus!
