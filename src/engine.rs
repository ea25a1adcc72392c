//! The tree walk: one pass over the syntax tree that tallies operators and
//! operands, tracks decision nesting and builds the identifier graph.

use vstd::prelude::*;
use crate::chepin::{
    Class, connected_to_output, edges_grow, has_edge, lemma_connected_input_neighbour,
    lemma_observe_edges, lemma_unconnected_is_transient,
    GraphModel, IdentGraph, Scope, ScopeModel, finalized, half_link, implied_class, input_name,
    note, observe, observe_full, output_name, seeded_graph,
};
use crate::decimal::decimal;
use crate::metrics::{Metric, MetricModel, metric_report};
use crate::syntax::{Kind, Node};
use crate::tally::{AnalysisError, Tally, TallyModel, has_key, key_index, tally_add, tally_full};

verus! {

/// Mathematical value of the walk's state.
pub struct EngineModel {
    pub operators: TallyModel,
    pub operands: TallyModel,
    pub metric: MetricModel,
    pub scopes: Seq<ScopeModel>,
    pub graph: GraphModel,
}

/// Outcome of a step of the walk.
pub type Step = Result<EngineModel, AnalysisError>;

/// One more occurrence of operator `tok`.
pub open spec fn with_operator(r: Step, tok: Seq<char>) -> Step {
    match r {
        Err(e) => Err(e),
        Ok(s) => if tally_full(s.operators) {
            Err(AnalysisError::CounterOverflow)
        } else {
            Ok(EngineModel { operators: tally_add(s.operators, tok), ..s })
        },
    }
}

/// One more occurrence of operand `tok`.
pub open spec fn with_operand(r: Step, tok: Seq<char>) -> Step {
    match r {
        Err(e) => Err(e),
        Ok(s) => if tally_full(s.operands) {
            Err(AnalysisError::CounterOverflow)
        } else {
            Ok(EngineModel { operands: tally_add(s.operands, tok), ..s })
        },
    }
}

/// `k` more statement operators.
pub open spec fn with_statements(r: Step, k: nat) -> Step {
    match r {
        Err(e) => Err(e),
        Ok(s) => if s.metric.statement_operators + k > u64::MAX {
            Err(AnalysisError::CounterOverflow)
        } else {
            Ok(EngineModel {
                metric: MetricModel {
                    statement_operators: s.metric.statement_operators + k,
                    ..s.metric
                },
                ..s
            })
        },
    }
}

/// The innermost scope.
pub open spec fn current(s: EngineModel) -> ScopeModel {
    s.scopes.last()
}

/// One occurrence of identifier `name` in the innermost scope.
pub open spec fn with_identifier(r: Step, name: Seq<char>) -> Step {
    match r {
        Err(e) => Err(e),
        Ok(s) => if observe_full(s.graph, name) {
            Err(AnalysisError::CounterOverflow)
        } else {
            Ok(EngineModel { graph: observe(s.graph, name, current(s)), ..s })
        },
    }
}

/// Opens scope `sc`.
pub open spec fn entered(r: Step, sc: ScopeModel) -> Step {
    match r {
        Err(e) => Err(e),
        Ok(s) => Ok(EngineModel { scopes: s.scopes.push(sc), ..s }),
    }
}

/// Closes the innermost scope.
pub open spec fn exited(r: Step) -> Step {
    match r {
        Err(e) => Err(e),
        Ok(s) => Ok(EngineModel { scopes: s.scopes.drop_last(), ..s }),
    }
}

/// `k` more decisions and `k` levels deeper; the deepest level follows.
pub open spec fn deepened(r: Step, k: nat) -> Step {
    match r {
        Err(e) => Err(e),
        Ok(s) => if s.metric.decisions + k > u64::MAX || s.metric.if_depth + k > u64::MAX {
            Err(AnalysisError::CounterOverflow)
        } else {
            let d = s.metric.if_depth + k;
            Ok(EngineModel {
                metric: MetricModel {
                    decisions: s.metric.decisions + k,
                    if_depth: d,
                    max_if_depth: if d > s.metric.max_if_depth { d } else { s.metric.max_if_depth },
                    ..s.metric
                },
                ..s
            })
        },
    }
}

/// `k` levels shallower.
pub open spec fn shallowed(r: Step, k: nat) -> Step {
    match r {
        Err(e) => Err(e),
        Ok(s) => Ok(EngineModel {
            metric: MetricModel { if_depth: (s.metric.if_depth - k) as nat, ..s.metric },
            ..s
        }),
    }
}

/// The tokens that one node contributes by its discriminant alone, with
/// the statement operators it counts.
pub open spec fn tallied(node: Node, r: Step) -> Step {
    match node.kind {
        Kind::Arrow => with_operator(r, "=>"@),
        Kind::Block => with_operator(r, "{}"@),
        Kind::If => with_statements(with_operator(r, "if ..."@), 1),
        Kind::ForInit => with_statements(with_operator(r, "for ..."@), 2),
        Kind::While => with_statements(with_operator(r, "while ..."@), 1),
        Kind::DoWhile => with_statements(with_operator(r, "do ... while ..."@), 1),
        Kind::Declarator => with_statements(with_operator(r, "="@), 1),
        Kind::Assign(op) => with_statements(with_operator(r, op@), 1),
        Kind::Dot => with_operator(r, "."@),
        Kind::Grouping => with_operator(r, "( )"@),
        Kind::New => with_operator(r, "new ..."@),
        Kind::Bin(op) => with_operator(r, op@),
        Kind::Unary(op) => with_operator(r, op@),
        Kind::Return => with_statements(with_operator(r, "return ..."@), 1),
        Kind::Throw => with_statements(with_operator(r, "return ..."@), 1),
        Kind::Bracket => with_operator(r, "[ ... ]"@),
        Kind::Name => with_identifier(with_operand(r, node.text@), node.text@),
        Kind::NameRef => with_identifier(with_operand(r, node.text@), node.text@),
        Kind::Literal => with_operand(r, node.text@),
        _ => r,
    }
}

/// Number of `case` clauses among `nodes`.
pub open spec fn case_count(nodes: Seq<Node>) -> nat
    decreases nodes.len(),
{
    if nodes.len() == 0 {
        0
    } else {
        case_count(nodes.drop_last()) + if nodes.last().kind is CaseClause { 1nat } else { 0nat }
    }
}

/// Extra nesting a switch with these children opens: one less than its
/// `case` clauses, none without any.
pub open spec fn switch_extra(nodes: Seq<Node>) -> nat {
    if case_count(nodes) == 0 {
        0
    } else {
        (case_count(nodes) - 1) as nat
    }
}

/// A plain name may stand left of `=`.
pub open spec fn is_simple_target(k: Kind) -> bool {
    k is Name || k is NameRef
}

/// The callee is a path ending in a plain name, such as `console.log`: it
/// is no call itself, and its last part is a `Name` or `NameRef`. That last
/// part gives the call's name; the parts before it are walked.
pub open spec fn splits_name(callee: Node) -> bool {
    let cc = callee.children@;
    &&& cc.len() > 0
    &&& !(callee.kind is Call)
    &&& is_simple_target(cc.last().kind)
}

/// Name a call is made to: the trailing plain name of a callee that
/// [`splits_name`], the callee's whole text otherwise.
pub open spec fn callee_name(callee: Node) -> Seq<char> {
    if splits_name(callee) {
        callee.children@.last().text@
    } else {
        callee.text@
    }
}

/// Walks `node` from state `r`.
///
/// - A call with type arguments fails the run (see [`walked_call`]).
///   Otherwise, when the callee [`splits_name`], its own token is counted
///   and its parts but the trailing name are walked; a callee with parts
///   that does not is walked as a node of its own, so a call in callee
///   position is handled as a call. Then the call's name
///   ([`callee_name`]) followed by `()` is counted as an operator, and so is a
///   statement operator when the innermost scope is a block. `prompt` under
///   an assignment is an occurrence of the input sentinel; the arguments of
///   `print` are walked under an assignment to the output sentinel, those of
///   any other call in the current scope.
/// - A declaration or assignment whose target is not a plain name fails the
///   run. Otherwise its token is counted, the target is an operand and an
///   occurrence in the enclosing scope, and the value is walked under an
///   assignment to the target.
/// - `if` and `switch` go deeper by one, and by one less than their `case`
///   clauses, and count as many decisions. Their condition frame stays open
///   over the whole statement, branches included: the frame is pushed on
///   entering the node and popped on leaving it, and a `{ }` block inside
///   opens no frame of its own. So names used in a branch are met as in a
///   condition, and a call statement in a branch is no statement operator.
/// - Loops and the program root open a block frame.
/// - Every other node contributes its own tokens and its children are
///   walked in order.
pub open spec fn walked(node: Node, r: Step) -> Step
    decreases node, 1nat,
{
    match r {
        Err(e) => Err(e),
        Ok(s) => {
            let ch = node.children@;
            match node.kind {
                Kind::Call { .. } => walked_call(node, s),
                Kind::Declarator | Kind::Assign(_) => if ch.len() == 0 || !is_simple_target(ch[0].kind) {
                    Err(AnalysisError::NotSimpleTarget)
                } else {
                    let t = ch[0].text@;
                    let r1 = with_identifier(with_operand(tallied(node, Ok(s)), t), t);
                    exited(walked_span(ch, 1, ch.len() as int, entered(r1, ScopeModel::Assignment(t))))
                },
                Kind::If => {
                    let r1 = tallied(node, entered(deepened(Ok(s), 1), ScopeModel::ControlCondition));
                    shallowed(exited(walked_span(ch, 0, ch.len() as int, r1)), 1)
                },
                Kind::Switch => {
                    let k = switch_extra(ch);
                    let r1 = tallied(node, entered(deepened(Ok(s), k), ScopeModel::ControlCondition));
                    shallowed(exited(walked_span(ch, 0, ch.len() as int, r1)), k)
                },
                Kind::For | Kind::While | Kind::DoWhile | Kind::Program => {
                    let r1 = tallied(node, entered(Ok(s), ScopeModel::Block));
                    exited(walked_span(ch, 0, ch.len() as int, r1))
                },
                _ => walked_span(ch, 0, ch.len() as int, tallied(node, Ok(s))),
            }
        },
    }
}

/// Walks the call `node` from state `s`: see [`walked`].
pub open spec fn walked_call(node: Node, s: EngineModel) -> Step
    decreases node, 0nat,
{
    let ch = node.children@;
    let type_args = match node.kind {
        Kind::Call { type_args } => type_args,
        _ => false,
    };
    if type_args {
        Err(AnalysisError::TypeArguments)
    } else if ch.len() == 0 {
        Ok(s)
    } else {
        let callee = ch[0];
        let cc = callee.children@;
        let r1 = if splits_name(callee) {
            walked_span(cc, 0, cc.len() - 1, tallied(callee, Ok(s)))
        } else if cc.len() == 0 {
            Ok(s)
        } else {
            walked(callee, Ok(s))
        };
        let name = callee_name(callee);
        let r2 = with_operator(r1, name + "()"@);
        let r3 = if current(s) is Block { with_statements(r2, 1) } else { r2 };
        let r4 = if name == "prompt"@ && current(s) is Assignment {
            with_identifier(r3, input_name())
        } else {
            r3
        };
        if name == "print"@ {
            exited(walked_span(ch, 1, ch.len() as int, entered(r4, ScopeModel::Assignment(output_name()))))
        } else {
            walked_span(ch, 1, ch.len() as int, r4)
        }
    }
}

/// Walks `nodes[i..end]` in order from state `r`.
pub open spec fn walked_span(nodes: Seq<Node>, i: int, end: int, r: Step) -> Step
    decreases nodes, end - i,
{
    match r {
        Err(e) => Err(e),
        Ok(_) => if 0 <= i < end && end <= nodes.len() {
            walked_span(nodes, i + 1, end, walked(nodes[i], r))
        } else {
            r
        },
    }
}

/// Every assignment scope names an identifier that has a record.
pub open spec fn targets_registered(s: EngineModel) -> bool {
    forall|i: int|
        0 <= i < s.scopes.len() && (#[trigger] s.scopes[i]) is Assignment
            ==> has_key(s.graph, s.scopes[i]->Assignment_0)
}

/// An executable step agrees with the model: the same error, or success
/// reaching `new`.
pub open spec fn follows(r: Result<(), AnalysisError>, model: Step, new: EngineModel) -> bool {
    match r {
        Ok(_) => model == Ok::<EngineModel, AnalysisError>(new),
        Err(e) => model == Err::<EngineModel, AnalysisError>(e),
    }
}

/// The scopes and the current nesting are as they were.
pub open spec fn same_frame(a: EngineModel, b: EngineModel) -> bool {
    a.scopes == b.scopes && a.metric.if_depth == b.metric.if_depth
}

/// State of one walk.
pub struct Engine {
    operators: Tally,
    operands: Tally,
    metric: Metric,
    scopes: Vec<Scope>,
    graph: IdentGraph,
}

impl View for Engine {
    type V = EngineModel;

    closed spec fn view(&self) -> EngineModel {
        EngineModel {
            operators: self.operators@,
            operands: self.operands@,
            metric: self.metric@,
            scopes: self.scopes@.map_values(|sc: Scope| sc@),
            graph: self.graph@,
        }
    }
}

impl Engine {
    /// Maps keyed uniquely, a scope always open, the nesting invariant, and
    /// every assignment target registered.
    pub closed spec fn wf(&self) -> bool {
        &&& self.operators.wf()
        &&& self.operands.wf()
        &&& self.graph.wf()
        &&& self.scopes@.len() >= 1
        &&& self.metric@.inv()
        &&& targets_registered(self@)
        &&& has_key(self@.graph, output_name())
    }

    fn operator(&mut self, tok: String) -> (r: Result<(), AnalysisError>)
        requires
            old(self).wf(),
        ensures
            follows(r, with_operator(Ok(old(self)@), tok@), final(self)@),
            r is Ok ==> final(self).wf() && same_frame(old(self)@, final(self)@),
    {
        self.operators.add(tok)
    }

    fn operand(&mut self, tok: String) -> (r: Result<(), AnalysisError>)
        requires
            old(self).wf(),
        ensures
            follows(r, with_operand(Ok(old(self)@), tok@), final(self)@),
            r is Ok ==> final(self).wf() && same_frame(old(self)@, final(self)@),
    {
        self.operands.add(tok)
    }

    fn statements(&mut self, k: u64) -> (r: Result<(), AnalysisError>)
        requires
            old(self).wf(),
        ensures
            follows(r, with_statements(Ok(old(self)@), k as nat), final(self)@),
            r is Ok ==> final(self).wf() && same_frame(old(self)@, final(self)@),
    {
        if self.metric.statement_operators() > u64::MAX - k {
            return Err(AnalysisError::CounterOverflow);
        }
        self.metric.add_statement_operators(k);
        Ok(())
    }

    fn identifier(&mut self, name: &String) -> (r: Result<(), AnalysisError>)
        requires
            old(self).wf(),
        ensures
            follows(r, with_identifier(Ok(old(self)@), name@), final(self)@),
            r is Ok ==> final(self).wf() && same_frame(old(self)@, final(self)@),
            r is Ok ==> has_key(final(self)@.graph, name@),
    {
        let ghost s = self@;
        let n = self.scopes.len() - 1;
        let sc = &self.scopes[n];
        proof {
            if sc@ is Assignment {
                assert(s.scopes[n as int] is Assignment);
            }
        }
        self.graph.observe(name, sc)?;
        proof {
            lemma_observe_keys(s.graph, name@, current(s));
        }
        Ok(())
    }

    fn enter(&mut self, sc: Scope) -> (r: Result<(), AnalysisError>)
        requires
            old(self).wf(),
            sc@ matches ScopeModel::Assignment(t) ==> has_key(old(self)@.graph, t),
        ensures
            r is Ok,
            follows(r, entered(Ok(old(self)@), sc@), final(self)@),
            final(self).wf(),
    {
        let ghost s = self@;
        self.scopes.push(sc);
        assert(self@.scopes =~= s.scopes.push(sc@));
        Ok(())
    }

    fn exit(&mut self) -> (r: Result<(), AnalysisError>)
        requires
            old(self).wf(),
            old(self)@.scopes.len() >= 2,
        ensures
            r is Ok,
            follows(r, exited(Ok(old(self)@)), final(self)@),
            final(self).wf(),
    {
        let ghost s = self@;
        self.scopes.pop();
        assert(self@.scopes =~= s.scopes.drop_last());
        Ok(())
    }

    fn deepen(&mut self, k: u64) -> (r: Result<(), AnalysisError>)
        requires
            old(self).wf(),
        ensures
            follows(r, deepened(Ok(old(self)@), k as nat), final(self)@),
            r is Ok ==> final(self).wf() && final(self)@.scopes == old(self)@.scopes,
    {
        if self.metric.decisions() > u64::MAX - k || self.metric.if_depth() > u64::MAX - k {
            return Err(AnalysisError::CounterOverflow);
        }
        self.metric.raise_if_depth(k);
        Ok(())
    }

    fn shallow(&mut self, k: u64) -> (r: Result<(), AnalysisError>)
        requires
            old(self).wf(),
            old(self)@.metric.if_depth >= k,
        ensures
            r is Ok,
            follows(r, shallowed(Ok(old(self)@), k as nat), final(self)@),
            final(self).wf(),
    {
        self.metric.lower_if_depth(k);
        Ok(())
    }

    fn tally(&mut self, node: &Node) -> (r: Result<(), AnalysisError>)
        requires
            old(self).wf(),
        ensures
            follows(r, tallied(*node, Ok(old(self)@)), final(self)@),
            r is Ok ==> final(self).wf() && same_frame(old(self)@, final(self)@),
    {
        match &node.kind {
            Kind::Arrow => self.operator("=>".to_string()),
            Kind::Block => self.operator("{}".to_string()),
            Kind::If => {
                self.operator("if ...".to_string())?;
                self.statements(1)
            },
            Kind::ForInit => {
                self.operator("for ...".to_string())?;
                self.statements(2)
            },
            Kind::While => {
                self.operator("while ...".to_string())?;
                self.statements(1)
            },
            Kind::DoWhile => {
                self.operator("do ... while ...".to_string())?;
                self.statements(1)
            },
            Kind::Declarator => {
                self.operator("=".to_string())?;
                self.statements(1)
            },
            Kind::Assign(op) => {
                self.operator(op.clone())?;
                self.statements(1)
            },
            Kind::Dot => self.operator(".".to_string()),
            Kind::Grouping => self.operator("( )".to_string()),
            Kind::New => self.operator("new ...".to_string()),
            Kind::Bin(op) => self.operator(op.clone()),
            Kind::Unary(op) => self.operator(op.clone()),
            Kind::Return => {
                self.operator("return ...".to_string())?;
                self.statements(1)
            },
            Kind::Throw => {
                self.operator("return ...".to_string())?;
                self.statements(1)
            },
            Kind::Bracket => self.operator("[ ... ]".to_string()),
            Kind::Name | Kind::NameRef => {
                self.operand(node.text.clone())?;
                self.identifier(&node.text)
            },
            Kind::Literal => self.operand(node.text.clone()),
            _ => Ok(()),
        }
    }

    fn walk_span(&mut self, nodes: &Vec<Node>, i: usize, end: usize) -> (r: Result<(), AnalysisError>)
        requires
            old(self).wf(),
            i <= end <= nodes@.len(),
        ensures
            follows(r, walked_span(nodes@, i as int, end as int, Ok(old(self)@)), final(self)@),
            r is Ok ==> final(self).wf() && same_frame(old(self)@, final(self)@),
        decreases nodes@, end - i, 0nat,
    {
        let mut j = i;
        while j < end
            invariant
                self.wf(),
                i <= j <= end <= nodes@.len(),
                walked_span(nodes@, i as int, end as int, Ok(old(self)@))
                    == walked_span(nodes@, j as int, end as int, Ok(self@)),
                same_frame(old(self)@, self@),
            decreases end - j,
        {
            let r = self.walk(&nodes[j]);
            if let Err(e) = r {
                assert(walked_span(nodes@, j as int + 1, end as int, Err(e)) == Err::<EngineModel, AnalysisError>(e));
                return Err(e);
            }
            j = j + 1;
        }
        Ok(())
    }

    fn walk(&mut self, node: &Node) -> (r: Result<(), AnalysisError>)
        requires
            old(self).wf(),
        ensures
            follows(r, walked(*node, Ok(old(self)@)), final(self)@),
            r is Ok ==> final(self).wf() && same_frame(old(self)@, final(self)@),
        decreases node, 2nat, 0nat,
    {
        let ghost s = self@;
        let r = self.walk_kind(node);
        proof {
            if r is Ok {
                assert(self@.scopes =~= s.scopes);
            }
        }
        r
    }

    fn walk_call(&mut self, node: &Node) -> (r: Result<(), AnalysisError>)
        requires
            old(self).wf(),
            node.kind is Call,
        ensures
            follows(r, walked_call(*node, old(self)@), final(self)@),
            r is Ok ==> final(self).wf() && final(self)@.metric.if_depth == old(self)@.metric.if_depth,
            r is Ok ==> final(self)@.scopes =~= old(self)@.scopes,
        decreases node, 0nat, 0nat,
    {
        let ch = &node.children;
        let type_args = match &node.kind {
            Kind::Call { type_args } => *type_args,
            _ => false,
        };
        if type_args {
            return Err(AnalysisError::TypeArguments);
        }
        if ch.len() == 0 {
            return Ok(());
        }
        let callee = &ch[0];
        let cc = callee.children.len();
        let splits = cc > 0 && !matches!(callee.kind, Kind::Call { .. }) && (matches!(
            callee.children[cc - 1].kind,
            Kind::Name
        ) || matches!(callee.children[cc - 1].kind, Kind::NameRef));
        if splits {
            self.tally(callee)?;
            self.walk_span(&callee.children, 0, cc - 1)?;
        } else if cc > 0 {
            self.walk(callee)?;
        }
        let name: &String = if splits {
            &callee.children[cc - 1].text
        } else {
            &callee.text
        };
        let mut call_token = name.clone();
        call_token.append("()");
        self.operator(call_token)?;
        let top = self.scopes.len() - 1;
        let in_block = matches!(self.scopes[top], Scope::Block);
        let in_assignment = matches!(self.scopes[top], Scope::Assignment(_));
        if in_block {
            self.statements(1)?;
        }
        if *name == "prompt".to_string() && in_assignment {
            self.identifier(&"%INPUT%".to_string())?;
        }
        if *name == "print".to_string() {
            self.enter(Scope::Assignment("%OUTPUT%".to_string()))?;
            self.walk_span(ch, 1, ch.len())?;
            self.exit()
        } else {
            self.walk_span(ch, 1, ch.len())
        }
    }

    fn walk_kind(&mut self, node: &Node) -> (r: Result<(), AnalysisError>)
        requires
            old(self).wf(),
        ensures
            follows(r, walked(*node, Ok(old(self)@)), final(self)@),
            r is Ok ==> final(self).wf() && final(self)@.metric.if_depth == old(self)@.metric.if_depth,
            r is Ok ==> final(self)@.scopes =~= old(self)@.scopes,
        decreases node, 1nat, 0nat,
    {
        let ch = &node.children;
        match &node.kind {
            Kind::Call { .. } => self.walk_call(node),
            Kind::Declarator | Kind::Assign(_) => {
                if ch.len() == 0 || !(matches!(ch[0].kind, Kind::Name) || matches!(ch[0].kind, Kind::NameRef)) {
                    return Err(AnalysisError::NotSimpleTarget);
                }
                let t = &ch[0].text;
                self.tally(node)?;
                self.operand(t.clone())?;
                self.identifier(t)?;
                self.enter(Scope::Assignment(t.clone()))?;
                self.walk_span(ch, 1, ch.len())?;
                self.exit()
            },
            Kind::If => {
                self.deepen(1)?;
                self.enter(Scope::ControlCondition)?;
                self.tally(node)?;
                self.walk_span(ch, 0, ch.len())?;
                self.exit()?;
                self.shallow(1)
            },
            Kind::Switch => {
                let k = switch_extra_of(ch);
                self.deepen(k)?;
                self.enter(Scope::ControlCondition)?;
                self.tally(node)?;
                self.walk_span(ch, 0, ch.len())?;
                self.exit()?;
                self.shallow(k)
            },
            Kind::For | Kind::While | Kind::DoWhile | Kind::Program => {
                self.enter(Scope::Block)?;
                self.tally(node)?;
                self.walk_span(ch, 0, ch.len())?;
                self.exit()
            },
            _ => {
                self.tally(node)?;
                self.walk_span(ch, 0, ch.len())
            },
        }
    }
}

/// One less than the number of `case` clauses among `nodes`, zero without any.
fn switch_extra_of(nodes: &Vec<Node>) -> (k: u64)
    ensures
        k == switch_extra(nodes@),
{
    let mut i: usize = 0;
    let mut count: u64 = 0;
    while i < nodes.len()
        invariant
            i <= nodes@.len(),
            count == case_count(nodes@.take(i as int)),
            count <= i,
        decreases nodes@.len() - i,
    {
        assert(nodes@.take(i as int + 1).drop_last() =~= nodes@.take(i as int));
        if matches!(nodes[i].kind, Kind::CaseClause) {
            count = count + 1;
        }
        i = i + 1;
    }
    assert(nodes@.take(i as int) =~= nodes@);
    if count == 0 {
        0
    } else {
        count - 1
    }
}

proof fn lemma_keys_kept(g: GraphModel, h: GraphModel)
    requires
        g.len() <= h.len(),
        forall|j: int| 0 <= j < g.len() ==> h[j].0 == g[j].0,
    ensures
        forall|k: Seq<char>| has_key(g, k) ==> has_key(h, k),
{
    assert forall|k: Seq<char>| has_key(g, k) implies has_key(h, k) by {
        let j = choose|j: int| 0 <= j < g.len() && g[j].0 == k;
        assert(h[j].0 == k);
    }
}

proof fn lemma_observe_keys(g: GraphModel, name: Seq<char>, sc: ScopeModel)
    ensures
        has_key(observe(g, name, sc), name),
        forall|k: Seq<char>| has_key(g, k) ==> has_key(observe(g, name, sc), k),
{
    let g1 = note(g, name, implied_class(sc));
    if has_key(g, name) {
        let i = key_index(g, name);
        assert(g1[i].0 == name);
    } else {
        assert(g1[g.len() as int].0 == name);
    }
    lemma_keys_kept(g, g1);
    assert(has_key(g1, name));
    match sc {
        ScopeModel::Assignment(t) => {
            let g2 = half_link(g1, name, t);
            let g3 = half_link(g2, t, name);
            lemma_keys_kept(g1, g2);
            lemma_keys_kept(g2, g3);
            lemma_keys_kept(g, g3);
        },
        _ => {},
    }
}

/// State at the start of a run: nothing counted, one open block, the two
/// sentinels seeded.
pub open spec fn initial() -> EngineModel {
    EngineModel {
        operators: Seq::empty(),
        operands: Seq::empty(),
        metric: MetricModel {
            statement_operators: 0,
            decisions: 0,
            if_depth: 0,
            max_if_depth: 0,
            properties: Seq::empty(),
        },
        scopes: seq![ScopeModel::Block],
        graph: seeded_graph(),
    }
}

/// Mathematical value of an [`Analysis`].
pub struct AnalysisModel {
    pub operators: TallyModel,
    pub operands: TallyModel,
    pub metric: MetricModel,
    pub graph: GraphModel,
}

/// Result of one run on `tree`: the walk from the initial state, then the
/// classes made final.
pub open spec fn analysis(tree: Node) -> Result<AnalysisModel, AnalysisError> {
    match walked(tree, Ok(initial())) {
        Err(e) => Err(e),
        Ok(s) => Ok(AnalysisModel {
            operators: s.operators,
            operands: s.operands,
            metric: s.metric,
            graph: finalized(s.graph),
        }),
    }
}

/// Everything one run produced.
pub struct Analysis {
    operators: Tally,
    operands: Tally,
    metric: Metric,
    graph: IdentGraph,
}

impl View for Analysis {
    type V = AnalysisModel;

    closed spec fn view(&self) -> AnalysisModel {
        AnalysisModel {
            operators: self.operators@,
            operands: self.operands@,
            metric: self.metric@,
            graph: self.graph@,
        }
    }
}

impl Analysis {
    /// Maps keyed uniquely.
    pub closed spec fn wf(&self) -> bool {
        self.operators.wf() && self.operands.wf() && self.graph.wf()
    }

    pub fn operators(&self) -> (r: &Tally)
        ensures
            r@ == self@.operators,
            self.wf() ==> r.wf(),
    {
        &self.operators
    }

    pub fn operands(&self) -> (r: &Tally)
        ensures
            r@ == self@.operands,
            self.wf() ==> r.wf(),
    {
        &self.operands
    }

    pub fn metric(&self) -> (r: &Metric)
        ensures
            r@ == self@.metric,
    {
        &self.metric
    }

    pub fn graph(&self) -> (r: &IdentGraph)
        ensures
            r@ == self@.graph,
            self.wf() ==> r.wf(),
    {
        &self.graph
    }

    /// The tallies and the counters, taken apart.
    pub fn into_parts(self) -> (r: (Tally, Tally, Metric))
        ensures
            r.0@ == self@.operators,
            r.1@ == self@.operands,
            r.2@ == self@.metric,
            self.wf() ==> r.0.wf() && r.1.wf(),
    {
        (self.operators, self.operands, self.metric)
    }
}

impl Engine {
    fn new() -> (r: Engine)
        ensures
            r.wf(),
            r@ == initial(),
    {
        let mut scopes: Vec<Scope> = Vec::new();
        scopes.push(Scope::Block);
        let r = Engine {
            operators: Tally::new(),
            operands: Tally::new(),
            metric: Metric::new(),
            scopes,
            graph: IdentGraph::seeded(),
        };
        assert(r@.scopes =~= seq![ScopeModel::Block]);
        assert(r@.graph[1].0 == output_name());
        r
    }
}

/// Runs the engine on `tree`: walks it, then makes every class final. The
/// result is a function of the tree alone; on success no decision scope is
/// left open and the deepest nesting is at least the current one.
pub fn analyze(tree: &Node) -> (r: Result<Analysis, AnalysisError>)
    ensures
        match r {
            Ok(a) => analysis(*tree) == Ok::<AnalysisModel, AnalysisError>(a@) && a.wf(),
            Err(e) => analysis(*tree) == Err::<AnalysisModel, AnalysisError>(e),
        },
        r matches Ok(a) ==> a@.metric.if_depth == 0 && a@.metric.inv(),
{
    let mut e = Engine::new();
    e.walk(tree)?;
    e.graph.finalize();
    Ok(Analysis { operators: e.operators, operands: e.operands, metric: e.metric, graph: e.graph })
}

/// Neither `node` nor any node below it is an `if` or a `switch`.
pub open spec fn decision_free(node: Node) -> bool
    decreases node,
{
    &&& !(node.kind is If)
    &&& !(node.kind is Switch)
    &&& forall|i: int| 0 <= i < node.children@.len() ==> decision_free(#[trigger] node.children@[i])
}

/// The decision counters of a step's outcome equal those of `s`.
pub open spec fn same_decisions(r: Step, s: EngineModel) -> bool {
    r matches Ok(t) ==> t.metric.decisions == s.metric.decisions && t.metric.max_if_depth == s.metric.max_if_depth
}

proof fn lemma_tallied_decisions(node: Node, r: Step)
    ensures
        tallied(node, r) is Err || r is Ok,
        r matches Ok(s) ==> same_decisions(tallied(node, r), s),
        r matches Ok(s) ==> edges_kept(tallied(node, r), s),
{
    lemma_identifier_edges(with_operand(r, node.text@), node.text@);
}

/// A step's outcome has the nesting of `s` and a deepest nesting at least
/// that of `s`, and keeps the deepest nesting at or above the current one.
pub open spec fn nesting_kept(r: Step, s: EngineModel) -> bool {
    r matches Ok(t) ==> {
        &&& t.metric.if_depth == s.metric.if_depth
        &&& t.metric.max_if_depth >= s.metric.max_if_depth
        &&& (s.metric.inv() ==> t.metric.inv())
    }
}

/// What a step keeps when walking `nodes`, one subtree, or a list of them:
/// the nesting as in [`nesting_kept`], and, when no `if` or `switch` stands
/// among them (`free`), the decision counters.
pub open spec fn walk_facts(r: Step, s: EngineModel, free: bool) -> bool {
    nesting_kept(r, s) && (free ==> same_decisions(r, s)) && edges_kept(r, s)
}

/// A step's outcome keeps every edge of the identifier graph of `s`.
pub open spec fn edges_kept(r: Step, s: EngineModel) -> bool {
    r matches Ok(t) ==> edges_grow(s.graph, t.graph)
}

proof fn lemma_identifier_edges(r: Step, name: Seq<char>)
    ensures
        r matches Ok(s) ==> edges_kept(with_identifier(r, name), s),
{
    if let Ok(s) = r {
        lemma_observe_edges(s.graph, name, current(s));
    }
}

/// No node of `nodes` holds an `if` or a `switch`.
pub open spec fn all_decision_free(nodes: Seq<Node>) -> bool {
    forall|j: int| 0 <= j < nodes.len() ==> decision_free(#[trigger] nodes[j])
}

proof fn lemma_span_facts(nodes: Seq<Node>, i: int, end: int, r: Step)
    ensures
        r matches Ok(s) ==> walk_facts(walked_span(nodes, i, end, r), s, all_decision_free(nodes)),
    decreases nodes, end - i, 0nat,
{
    if let Ok(s) = r {
        if 0 <= i < end && end <= nodes.len() {
            let r1 = walked(nodes[i], r);
            lemma_walk_facts(nodes[i], s);
            if let Ok(s1) = r1 {
                lemma_span_facts(nodes, i + 1, end, r1);
            }
        }
    }
}

/// Walking any node leaves the current nesting of decision scopes as it
/// found it, never lowers the deepest nesting, keeps the deepest nesting at
/// or above the current one, and, through a tree without `if` or `switch`,
/// leaves the decision count and the deepest nesting as they were.
pub proof fn lemma_walk_facts(node: Node, s: EngineModel)
    ensures
        walk_facts(walked(node, Ok(s)), s, decision_free(node)),
    decreases node, 1nat, 0nat,
{
    let ch = node.children@;
    assert(decision_free(node) ==> all_decision_free(ch));
    match node.kind {
        Kind::Call { type_args } => {
            if !type_args && ch.len() > 0 {
                let callee = ch[0];
                let cc = callee.children@;
                assert(decision_free(node) ==> decision_free(callee));
                assert(decision_free(callee) ==> all_decision_free(cc));
                let r1 = if splits_name(callee) {
                    lemma_tallied_decisions(callee, Ok(s));
                    let t = tallied(callee, Ok(s));
                    if let Ok(t1) = t {
                        lemma_span_facts(cc, 0, cc.len() - 1, t);
                    }
                    walked_span(cc, 0, cc.len() - 1, t)
                } else if cc.len() == 0 {
                    Ok(s)
                } else {
                    lemma_walk_facts(callee, s);
                    walked(callee, Ok(s))
                };
                let name = callee_name(callee);
                let r2 = with_operator(r1, name + "()"@);
                let r3 = if current(s) is Block { with_statements(r2, 1) } else { r2 };
                let r4 = if name == "prompt"@ && current(s) is Assignment {
                    with_identifier(r3, input_name())
                } else {
                    r3
                };
                lemma_identifier_edges(r3, input_name());
                if let Ok(s4) = r4 {
                    if name == "print"@ {
                        let r5 = entered(r4, ScopeModel::Assignment(output_name()));
                        lemma_span_facts(ch, 1, ch.len() as int, r5);
                    } else {
                        lemma_span_facts(ch, 1, ch.len() as int, r4);
                    }
                }
            }
        },
        Kind::Declarator | Kind::Assign(_) => {
            if ch.len() > 0 && is_simple_target(ch[0].kind) {
                let t = ch[0].text@;
                lemma_tallied_decisions(node, Ok(s));
                lemma_identifier_edges(with_operand(tallied(node, Ok(s)), t), t);
                let r1 = with_identifier(with_operand(tallied(node, Ok(s)), t), t);
                let r2 = entered(r1, ScopeModel::Assignment(t));
                if let Ok(s2) = r2 {
                    lemma_span_facts(ch, 1, ch.len() as int, r2);
                }
            }
        },
        Kind::If | Kind::Switch => {
            let k: nat = if node.kind is If { 1 } else { switch_extra(ch) };
            let r0 = entered(deepened(Ok(s), k), ScopeModel::ControlCondition);
            if let Ok(s0) = r0 {
                lemma_tallied_decisions(node, r0);
                let r1 = tallied(node, r0);
                if let Ok(s1) = r1 {
                    lemma_span_facts(ch, 0, ch.len() as int, r1);
                }
            }
        },
        Kind::For | Kind::While | Kind::DoWhile | Kind::Program => {
            let r0 = entered(Ok(s), ScopeModel::Block);
            lemma_tallied_decisions(node, r0);
            let r1 = tallied(node, r0);
            if let Ok(s1) = r1 {
                lemma_span_facts(ch, 0, ch.len() as int, r1);
            }
        },
        _ => {
            lemma_tallied_decisions(node, Ok(s));
            let r1 = tallied(node, Ok(s));
            if let Ok(s1) = r1 {
                lemma_span_facts(ch, 0, ch.len() as int, r1);
            }
        },
    }
}

/// A `switch` with no `if` or `switch` inside it counts one decision less
/// than its `case` clauses (none without any) and leaves the nesting as it
/// found it.
pub proof fn lemma_switch_decisions(node: Node, s: EngineModel)
    requires
        node.kind is Switch,
        all_decision_free(node.children@),
        walked(node, Ok(s)) is Ok,
    ensures
        walked(node, Ok(s))->Ok_0.metric.decisions == s.metric.decisions + switch_extra(node.children@),
        walked(node, Ok(s))->Ok_0.metric.if_depth == s.metric.if_depth,
        case_count(node.children@) >= 1 ==> walked(node, Ok(s))->Ok_0.metric.decisions
            == s.metric.decisions + case_count(node.children@) - 1,
{
    let ch = node.children@;
    let k = switch_extra(ch);
    lemma_walk_facts(node, s);
    let r0 = entered(deepened(Ok(s), k), ScopeModel::ControlCondition);
    lemma_tallied_decisions(node, r0);
    let r1 = tallied(node, r0);
    lemma_span_facts(ch, 0, ch.len() as int, r1);
}

/// A program without `if` or `switch` has no decisions, a deepest nesting
/// of zero, and a decision density of zero: `"0"` without statement
/// operators, `"0.000"` with some.
pub proof fn lemma_no_decisions(tree: Node)
    requires
        decision_free(tree),
        analysis(tree) is Ok,
    ensures
        ({
            let m = analysis(tree)->Ok_0.metric;
            &&& m.decisions == 0
            &&& m.max_if_depth == 0
            &&& metric_report(m)[2].1 == if m.statement_operators == 0 { "0"@ } else { "0.000"@ }
        }),
{
    lemma_walk_facts(tree, initial());
    let m = analysis(tree)->Ok_0.metric;
    reveal_strlit("0");
    reveal_strlit("0.000");
    if m.statement_operators > 0 {
        assert(0nat / m.statement_operators == 0) by (nonlinear_arith)
            requires m.statement_operators > 0;
        assert(0nat * 1000 / m.statement_operators == 0) by (nonlinear_arith)
            requires m.statement_operators > 0;
        assert(decimal(0) =~= seq!['0']);
        assert(metric_report(m)[2].1 =~= "0.000"@);
    }
}

/// After a successful run no decision scope is open, and the deepest
/// nesting is at or above the current one.
pub proof fn lemma_run_nesting(tree: Node)
    requires
        analysis(tree) is Ok,
    ensures
        analysis(tree)->Ok_0.metric.if_depth == 0,
        analysis(tree)->Ok_0.metric.inv(),
{
    lemma_walk_facts(tree, initial());
}

/// `node` declares or assigns the plain name `x` from a direct call of
/// `prompt` without type arguments: `let x = prompt(..)` or `x = prompt(..)`.
pub open spec fn assigns_prompt(node: Node, x: Seq<char>) -> bool {
    let ch = node.children@;
    &&& (node.kind is Declarator || node.kind is Assign)
    &&& ch.len() >= 2
    &&& is_simple_target(ch[0].kind)
    &&& ch[0].text@ == x
    &&& ch[1].kind == (Kind::Call { type_args: false })
    &&& ch[1].children@.len() >= 1
    &&& ch[1].children@[0].children@.len() == 0
    &&& ch[1].children@[0].text@ == "prompt"@
}

/// Such an assignment of `x` stands in `node` as a statement: reached from
/// `node` through nodes that are no call, declaration or assignment.
pub open spec fn holds_prompt_assignment(node: Node, x: Seq<char>) -> bool
    decreases node,
{
    ||| assigns_prompt(node, x)
    ||| {
        &&& !(node.kind is Call)
        &&& !(node.kind is Declarator)
        &&& !(node.kind is Assign)
        &&& exists|j: int| 0 <= j < node.children@.len() && holds_prompt_assignment(#[trigger] node.children@[j], x)
    }
}

proof fn lemma_span_prompt(nodes: Seq<Node>, i: int, end: int, r: Step, x: Seq<char>)
    requires
        0 <= i,
        end <= nodes.len(),
        exists|j: int| i <= j < end && holds_prompt_assignment(#[trigger] nodes[j], x),
    ensures
        r is Ok && walked_span(nodes, i, end, r) is Ok ==> has_edge(walked_span(nodes, i, end, r)->Ok_0.graph, x, input_name()),
    decreases nodes, end - i, 0nat,
{
    if let Ok(s) = r {
        let r1 = walked(nodes[i], r);
        if let Ok(s1) = r1 {
            if holds_prompt_assignment(nodes[i], x) {
                lemma_prompt_edge(nodes[i], s, x);
                lemma_span_facts(nodes, i + 1, end, r1);
            } else {
                let j = choose|j: int| i <= j < end && holds_prompt_assignment(#[trigger] nodes[j], x);
                assert(j > i);
                lemma_span_prompt(nodes, i + 1, end, r1, x);
            }
        }
    }
}

proof fn lemma_prompt_edge(node: Node, s: EngineModel, x: Seq<char>)
    requires
        holds_prompt_assignment(node, x),
    ensures
        walked(node, Ok(s)) is Ok ==> has_edge(walked(node, Ok(s))->Ok_0.graph, x, input_name()),
    decreases node, 1nat, 0nat,
{
    let ch = node.children@;
    if assigns_prompt(node, x) {
        lemma_tallied_decisions(node, Ok(s));
        let r0 = with_operand(tallied(node, Ok(s)), x);
        let r1 = with_identifier(r0, x);
        let r2 = entered(r1, ScopeModel::Assignment(x));
        assert(walked(node, Ok(s)) == exited(walked_span(ch, 1, ch.len() as int, r2)));
        if let Ok(s1) = r1 {
            let s0 = r0->Ok_0;
            lemma_observe_keys(s0.graph, x, current(s0));
            let s2 = r2->Ok_0;
            let c = ch[1];
            let cc = c.children@;
            let callee = cc[0];
            let r5 = walked(c, Ok(s2));
            assert(walked_span(ch, 1, ch.len() as int, r2) == walked_span(ch, 2, ch.len() as int, r5));
            assert(!splits_name(callee));
            assert(callee_name(callee) == "prompt"@);
            assert(!(current(s2) is Block));
            assert("prompt"@ != "print"@) by {
                reveal_strlit("prompt");
                reveal_strlit("print");
                assert("prompt"@[3] != "print"@[3]);
            }
            let r3 = with_operator(Ok(s2), "prompt"@ + "()"@);
            let r4 = with_identifier(r3, input_name());
            assert(r5 == walked_span(cc, 1, cc.len() as int, r4));
            if let Ok(s5) = r5 {
                let s3 = r3->Ok_0;
                assert(current(s3) == ScopeModel::Assignment(x));
                lemma_observe_edges(s3.graph, input_name(), current(s3));
                assert(has_edge(r4->Ok_0.graph, x, input_name()));
                lemma_span_facts(cc, 1, cc.len() as int, r4);
                lemma_span_facts(ch, 2, ch.len() as int, r5);
            } else {
                assert(walked_span(ch, 2, ch.len() as int, r5) == r5);
            }
        }
    } else {
        let k: nat = if node.kind is If { 1 } else if node.kind is Switch { switch_extra(ch) } else { 0 };
        let r1 = match node.kind {
            Kind::If | Kind::Switch => tallied(node, entered(deepened(Ok(s), k), ScopeModel::ControlCondition)),
            Kind::For | Kind::While | Kind::DoWhile | Kind::Program => tallied(node, entered(Ok(s), ScopeModel::Block)),
            _ => tallied(node, Ok(s)),
        };
        lemma_span_prompt(ch, 0, ch.len() as int, r1, x);
        assert(walked(node, Ok(s)) is Ok ==> has_edge(walked(node, Ok(s))->Ok_0.graph, x, input_name()));
    }
}

/// A name given the result of `prompt` in a statement of the program ends
/// Predicate when a path of used-with edges leads from it to the output
/// sentinel, and Transient when none does: the assignment links it with the
/// input sentinel, and the final classes follow the graph of the walk.
pub proof fn lemma_prompt_target(tree: Node, x: Seq<char>)
    requires
        holds_prompt_assignment(tree, x),
        x != input_name(),
        analysis(tree) is Ok,
    ensures
        ({
            let g = walked(tree, Ok(initial()))->Ok_0.graph;
            exists|i: int| 0 <= i < g.len() && g[i].0 == x && #[trigger] analysis(tree)->Ok_0.graph[i].1.class
                == if connected_to_output(g, x) { Class::Predicate } else { Class::Transient }
        }),
{
    lemma_prompt_edge(tree, initial(), x);
    let g = walked(tree, Ok(initial()))->Ok_0.graph;
    let i = choose|i: int| 0 <= i < g.len() && g[i].0 == x && #[trigger] g[i].1.used_with.contains(input_name());
    if connected_to_output(g, x) {
        lemma_connected_input_neighbour(g, i);
    } else {
        lemma_unconnected_is_transient(g, i);
    }
    assert(analysis(tree)->Ok_0.graph[i].1.class == if connected_to_output(g, x) { Class::Predicate } else { Class::Transient });
}

} // verus!
