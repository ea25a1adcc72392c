use code_metrics::chepin::Class;
use code_metrics::decimal::{decimal_text, ratio_text_of};
use code_metrics::engine::{analyze, Analysis};
use code_metrics::halstead;
use code_metrics::metrics::{self, Metric};
use code_metrics::syntax::{Kind, Node};
use code_metrics::tally::AnalysisError;

fn leaf(kind: Kind, text: &str) -> Node {
    Node::leaf(kind, text.to_string())
}

fn branch(kind: Kind, text: &str, children: Vec<Node>) -> Node {
    Node::branch(kind, text.to_string(), children)
}

fn name(n: &str) -> Node {
    leaf(Kind::Name, n)
}

fn name_ref(n: &str) -> Node {
    leaf(Kind::NameRef, n)
}

fn lit(v: &str) -> Node {
    leaf(Kind::Literal, v)
}

fn call(callee: &str, args: Vec<Node>) -> Node {
    let mut children = vec![name_ref(callee)];
    children.extend(args);
    branch(Kind::Call { type_args: false }, "", children)
}

fn stmt(inner: Node) -> Node {
    branch(Kind::Other, "", vec![inner])
}

fn let_decl(target: &str, value: Node) -> Node {
    branch(Kind::Other, "", vec![branch(Kind::Declarator, "", vec![name(target), value])])
}

fn assign(target: &str, value: Node) -> Node {
    stmt(branch(Kind::Assign("=".to_string()), "", vec![name_ref(target), value]))
}

fn program(items: Vec<Node>) -> Node {
    branch(Kind::Program, "", items)
}

fn s(t: &str) -> String {
    t.to_string()
}

/// let x = prompt(); print(x);
fn prompt_print() -> Node {
    program(vec![
        let_decl("x", call("prompt", vec![])),
        stmt(call("print", vec![name_ref("x")])),
    ])
}

/// let y = 1; let z = y + 2;
fn unused_pair() -> Node {
    program(vec![
        let_decl("y", lit("1")),
        let_decl("z", branch(Kind::Bin("+".to_string()), "", vec![name_ref("y"), lit("2")])),
    ])
}

/// if (a) { if (b) { x = 1; } }
fn nested_ifs() -> Node {
    program(vec![branch(
        Kind::If,
        "",
        vec![
            name_ref("a"),
            branch(
                Kind::Block,
                "",
                vec![branch(
                    Kind::If,
                    "",
                    vec![name_ref("b"), branch(Kind::Block, "", vec![assign("x", lit("1"))])],
                )],
            ),
        ],
    )])
}

/// switch (v) { case 1: a=1; break; case 2: a=2; break; default: a=3; }
fn switch_two_cases() -> Node {
    program(vec![branch(
        Kind::Switch,
        "",
        vec![
            name_ref("v"),
            branch(Kind::CaseClause, "", vec![lit("1"), assign("a", lit("1")), leaf(Kind::Other, "break;")]),
            branch(Kind::CaseClause, "", vec![lit("2"), assign("a", lit("2")), leaf(Kind::Other, "break;")]),
            branch(Kind::DefaultClause, "", vec![assign("a", lit("3"))]),
        ],
    )])
}

fn run(tree: &Node) -> Analysis {
    match analyze(tree) {
        Ok(a) => a,
        Err(e) => panic!("analysis failed: {:?}", e),
    }
}

#[test]
fn prompt_then_print_is_predicate() {
    let a = run(&prompt_print());
    let g = a.graph();
    assert!(g.linked(&s("%INPUT%"), &s("x")));
    assert!(g.linked(&s("x"), &s("%INPUT%")));
    assert!(g.linked(&s("x"), &s("%OUTPUT%")));
    assert!(g.linked(&s("%OUTPUT%"), &s("x")));
    assert_eq!(g.class_of(&s("x")), Some(Class::Predicate));
    assert_eq!(g.group(Class::Predicate), vec![s("x")]);
    assert_eq!(a.operators().count(&s("prompt()")), 1);
    assert_eq!(a.operators().count(&s("print()")), 1);
    assert_eq!(a.operators().count(&s("=")), 1);
    assert_eq!(a.operands().count(&s("x")), 2);
    assert_eq!(a.metric().statement_operators(), 2);
}

#[test]
fn unused_pair_is_transient() {
    let a = run(&unused_pair());
    let g = a.graph();
    assert!(g.linked(&s("y"), &s("z")));
    assert!(g.linked(&s("z"), &s("y")));
    assert!(!g.linked(&s("y"), &s("%OUTPUT%")));
    assert!(!g.linked(&s("z"), &s("%OUTPUT%")));
    assert_eq!(g.class_of(&s("y")), Some(Class::Transient));
    assert_eq!(g.class_of(&s("z")), Some(Class::Transient));
    assert_eq!(g.group(Class::Transient), vec![s("y"), s("z")]);
    assert_eq!(g.occurrences(&s("y")), 2);
    assert_eq!(a.operators().count(&s("+")), 1);
}

#[test]
fn nested_ifs_depth_two() {
    let a = run(&nested_ifs());
    let m = a.metric();
    assert_eq!(m.max_if_depth(), 2);
    assert_eq!(m.decisions(), 2);
    assert_eq!(m.statement_operators(), 3);
    assert_eq!(m.if_depth(), 0);
    assert_eq!(a.operators().count(&s("if ...")), 2);
    assert_eq!(a.operators().count(&s("{}")), 2);
}

#[test]
fn switch_counts_extra_cases() {
    let a = run(&switch_two_cases());
    let m = a.metric();
    assert_eq!(m.decisions(), 1);
    assert_eq!(m.max_if_depth(), 1);
    assert_eq!(m.if_depth(), 0);
    assert_eq!(m.statement_operators(), 3);
}

#[test]
fn switch_without_cases_adds_nothing() {
    let tree = program(vec![branch(
        Kind::Switch,
        "",
        vec![name_ref("v"), branch(Kind::DefaultClause, "", vec![assign("a", lit("3"))])],
    )]);
    let m = metrics::process_js(&tree).unwrap();
    assert_eq!(m.decisions(), 0);
    assert_eq!(m.max_if_depth(), 0);
}

#[test]
fn no_decisions_density_zero() {
    let mut m = metrics::process_js(&unused_pair()).unwrap();
    m.compute_properties();
    assert_eq!(m.decisions(), 0);
    assert_eq!(m.max_if_depth(), 0);
    let props = m.properties();
    assert_eq!(props[0], (s("Operators count"), s("2")));
    assert_eq!(props[1], (s("Amount of if's"), s("0")));
    assert_eq!(props[2], (s("If saturation."), s("0.000")));
    assert_eq!(props[3], (s("Max if depth."), s("0")));
}

#[test]
fn empty_program_density_zero() {
    let mut m = metrics::process_js(&program(vec![])).unwrap();
    m.compute_properties();
    let props = m.properties();
    assert_eq!(props.len(), 4);
    assert_eq!(props[0].1, "0");
    assert_eq!(props[2].1, "0");
    assert_eq!(props[3].1, "0");
}

#[test]
fn nested_ifs_report() {
    let mut m = metrics::process_js(&nested_ifs()).unwrap();
    m.compute_properties();
    let props = m.properties();
    assert_eq!(props[0].1, "3");
    assert_eq!(props[1].1, "2");
    assert_eq!(props[2].1, "0.666");
    assert_eq!(props[3].1, "2");
}

#[test]
fn condition_reaching_output_stays_control() {
    // if (c) { print(c); } if (d) {}
    let tree = program(vec![
        branch(Kind::If, "", vec![name_ref("c"), branch(Kind::Block, "", vec![stmt(call("print", vec![name_ref("c")]))])]),
        branch(Kind::If, "", vec![name_ref("d"), branch(Kind::Block, "", vec![])]),
    ]);
    let a = run(&tree);
    let g = a.graph();
    assert_eq!(g.class_of(&s("c")), Some(Class::Control));
    assert_eq!(g.class_of(&s("d")), Some(Class::Transient));
    assert_eq!(g.group(Class::Control), vec![s("c")]);
    // print inside a condition scope is no statement operator
    assert_eq!(a.metric().statement_operators(), 2);
}

#[test]
fn prompt_without_output_is_transient() {
    // let x = prompt();
    let tree = program(vec![let_decl("x", call("prompt", vec![]))]);
    let a = run(&tree);
    let g = a.graph();
    assert!(g.linked(&s("x"), &s("%INPUT%")));
    assert_eq!(g.class_of(&s("x")), Some(Class::Transient));
}

#[test]
fn input_propagates_one_hop_only() {
    // let x = prompt(); let y = x; print(y);
    let tree = program(vec![
        let_decl("x", call("prompt", vec![])),
        let_decl("y", name_ref("x")),
        stmt(call("print", vec![name_ref("y")])),
    ]);
    let a = run(&tree);
    let g = a.graph();
    assert_eq!(g.class_of(&s("x")), Some(Class::Predicate));
    assert_eq!(g.class_of(&s("y")), Some(Class::Transient));
}

#[test]
fn runs_are_independent() {
    let tree = prompt_print();
    let a = run(&tree);
    let b = run(&tree);
    for t in ["prompt()", "print()", "="] {
        assert_eq!(a.operators().count(&s(t)), b.operators().count(&s(t)));
    }
    assert_eq!(a.operators().distinct(), b.operators().distinct());
    assert_eq!(a.operands().count(&s("x")), b.operands().count(&s("x")));
    assert_eq!(a.graph().class_of(&s("x")), b.graph().class_of(&s("x")));
    let mut ma = metrics::process_js(&tree).unwrap();
    let mut mb = metrics::process_js(&tree).unwrap();
    ma.compute_properties();
    mb.compute_properties();
    assert_eq!(ma.properties(), mb.properties());
}

#[test]
fn member_target_is_rejected() {
    let target = branch(Kind::Dot, "o.p", vec![name_ref("o"), name("p")]);
    let tree = program(vec![stmt(branch(Kind::Assign("=".to_string()), "", vec![target, lit("1")]))]);
    assert_eq!(analyze(&tree).err(), Some(AnalysisError::NotSimpleTarget));
    assert!(matches!(halstead::process_js(&tree), Err(AnalysisError::NotSimpleTarget)));
}

#[test]
fn type_arguments_are_rejected() {
    let tree = program(vec![stmt(branch(Kind::Call { type_args: true }, "", vec![name_ref("f")]))]);
    assert_eq!(analyze(&tree).err(), Some(AnalysisError::TypeArguments));
    assert!(matches!(metrics::process_js(&tree), Err(AnalysisError::TypeArguments)));
}

#[test]
fn method_call_tallies_chain() {
    // console.log(x);
    let callee = branch(Kind::Dot, "console.log", vec![name_ref("console"), name("log")]);
    let tree = program(vec![stmt(branch(Kind::Call { type_args: false }, "", vec![callee, name_ref("x")]))]);
    let a = run(&tree);
    assert_eq!(a.operators().count(&s(".")), 1);
    assert_eq!(a.operators().count(&s("log()")), 1);
    assert_eq!(a.operands().count(&s("console")), 1);
    assert_eq!(a.operands().count(&s("log")), 0);
    assert_eq!(a.metric().statement_operators(), 1);
}

#[test]
fn halstead_dictionary_report() {
    let mut d = halstead::process_js(&prompt_print()).unwrap();
    d.compute_properties();
    let props = d.properties();
    assert_eq!(props.len(), 6);
    assert_eq!(props[0], (s("Unique operators"), s("3")));
    assert_eq!(props[1], (s("Unique operands"), s("1")));
    assert_eq!(props[2], (s("Total operators"), s("3")));
    assert_eq!(props[3], (s("Total operands"), s("2")));
    assert_eq!(props[4], (s("Program dictionary"), s("4")));
    assert_eq!(props[5], (s("Program length"), s("5")));
}

#[test]
fn loops_count_statements() {
    // for (i = 0; ...) {} while (w) {} do {} while (d);
    let tree = program(vec![
        branch(Kind::For, "", vec![branch(Kind::ForInit, "", vec![assign("i", lit("0"))]), branch(Kind::Block, "", vec![])]),
        branch(Kind::While, "", vec![name_ref("w"), branch(Kind::Block, "", vec![])]),
        branch(Kind::DoWhile, "", vec![branch(Kind::Block, "", vec![]), name_ref("d")]),
    ]);
    let a = run(&tree);
    assert_eq!(a.metric().statement_operators(), 5);
    assert_eq!(a.metric().decisions(), 0);
    assert_eq!(a.operators().count(&s("for ...")), 1);
    assert_eq!(a.operators().count(&s("while ...")), 1);
    assert_eq!(a.operators().count(&s("do ... while ...")), 1);
}

#[test]
fn metric_depth_counters() {
    let mut m = Metric::new();
    m.inc_if_depth();
    m.inc_if_depth();
    m.dec_if_depth();
    m.inc_if_depth();
    assert_eq!(m.decisions(), 3);
    assert_eq!(m.if_depth(), 2);
    assert_eq!(m.max_if_depth(), 2);
    m.dec_if_depth();
    m.dec_if_depth();
    assert_eq!(m.if_depth(), 0);
    assert_eq!(m.max_if_depth(), 2);
    let d = Metric::default();
    assert_eq!(d.decisions(), 0);
}

#[test]
fn decimal_formulas() {
    assert_eq!(decimal_text(0), "0");
    assert_eq!(decimal_text(1234), "1234");
    assert_eq!(ratio_text_of(2, 3), "0.666");
    assert_eq!(ratio_text_of(7, 2), "3.500");
    assert_eq!(ratio_text_of(1, 0), "0");
    assert_eq!(ratio_text_of(0, 5), "0.000");
}

#[test]
fn throw_records_return_token() {
    // throw e;
    let tree = program(vec![branch(Kind::Throw, "throw e;", vec![name_ref("e")])]);
    let a = run(&tree);
    assert_eq!(a.operators().count(&s("return ...")), 1);
    assert_eq!(a.operators().count(&s("throw ...")), 0);
    assert_eq!(a.metric().statement_operators(), 1);
}

#[test]
fn type_arguments_in_callee_last_part_are_rejected() {
    // o[g<T>(x)]();
    let inner = branch(Kind::Call { type_args: true }, "g<T>(x)", vec![name_ref("g"), name_ref("x")]);
    let callee = branch(Kind::Bracket, "o[g<T>(x)]", vec![name_ref("o"), inner]);
    let tree = program(vec![stmt(branch(Kind::Call { type_args: false }, "", vec![callee]))]);
    assert_eq!(analyze(&tree).err(), Some(AnalysisError::TypeArguments));
    assert!(matches!(halstead::process_js(&tree), Err(AnalysisError::TypeArguments)));
}

#[test]
fn member_assignment_in_callee_last_part_is_rejected() {
    // o[a.b = 1]();
    let target = branch(Kind::Dot, "a.b", vec![name_ref("a"), name("b")]);
    let assignment = branch(Kind::Assign("=".to_string()), "a.b = 1", vec![target, lit("1")]);
    let callee = branch(Kind::Bracket, "o[a.b = 1]", vec![name_ref("o"), assignment]);
    let tree = program(vec![stmt(branch(Kind::Call { type_args: false }, "", vec![callee]))]);
    assert_eq!(analyze(&tree).err(), Some(AnalysisError::NotSimpleTarget));
}

#[test]
fn callee_last_expression_is_walked() {
    // o[k + 1]();
    let index = branch(Kind::Bin("+".to_string()), "k + 1", vec![name_ref("k"), lit("1")]);
    let callee = branch(Kind::Bracket, "o[k + 1]", vec![name_ref("o"), index]);
    let tree = program(vec![stmt(branch(Kind::Call { type_args: false }, "", vec![callee]))]);
    let a = run(&tree);
    assert_eq!(a.operators().count(&s("[ ... ]")), 1);
    assert_eq!(a.operators().count(&s("+")), 1);
    assert_eq!(a.operators().count(&s("o[k + 1]()")), 1);
    assert_eq!(a.operators().count(&s("k + 1()")), 0);
    assert_eq!(a.operands().count(&s("o")), 1);
    assert_eq!(a.operands().count(&s("k")), 1);
}

#[test]
fn switch_with_three_cases_counts_two() {
    let tree = program(vec![branch(
        Kind::Switch,
        "",
        vec![
            name_ref("v"),
            branch(Kind::CaseClause, "", vec![lit("1")]),
            branch(Kind::CaseClause, "", vec![lit("2")]),
            branch(Kind::CaseClause, "", vec![lit("3")]),
        ],
    )]);
    let m = metrics::process_js(&tree).unwrap();
    assert_eq!(m.decisions(), 2);
    assert_eq!(m.max_if_depth(), 2);
    assert_eq!(m.if_depth(), 0);
}

#[test]
fn path_through_other_names_keeps_predicate() {
    // let x = prompt(); let y = x; print(y);  -- x reaches the output through y
    let tree = program(vec![
        let_decl("x", call("prompt", vec![])),
        let_decl("y", name_ref("x")),
        stmt(call("print", vec![name_ref("y")])),
    ]);
    let a = run(&tree);
    assert!(!a.graph().linked(&s("x"), &s("%OUTPUT%")));
    assert_eq!(a.graph().class_of(&s("x")), Some(Class::Predicate));
}

#[test]
fn type_argument_call_as_callee_is_rejected() {
    // f<T>()();
    let inner = branch(Kind::Call { type_args: true }, "f<T>()", vec![name_ref("f")]);
    let tree = program(vec![stmt(branch(Kind::Call { type_args: false }, "f<T>()()", vec![inner]))]);
    assert_eq!(analyze(&tree).err(), Some(AnalysisError::TypeArguments));
    assert!(matches!(halstead::process_js(&tree), Err(AnalysisError::TypeArguments)));
    assert!(matches!(metrics::process_js(&tree), Err(AnalysisError::TypeArguments)));
}

#[test]
fn call_as_callee_is_handled_as_call() {
    // g(h, y)();
    let inner = branch(Kind::Call { type_args: false }, "g(h, y)", vec![name_ref("g"), name_ref("h"), name_ref("y")]);
    let tree = program(vec![stmt(branch(Kind::Call { type_args: false }, "g(h, y)()", vec![inner]))]);
    let a = run(&tree);
    assert_eq!(a.operators().count(&s("g()")), 1);
    assert_eq!(a.operators().count(&s("g(h, y)()")), 1);
    assert_eq!(a.operators().count(&s("y()")), 0);
    assert_eq!(a.operands().count(&s("h")), 1);
    assert_eq!(a.operands().count(&s("y")), 1);
    assert_eq!(a.metric().statement_operators(), 2);
}

#[test]
fn index_callee_is_named_by_its_text() {
    // a[0]();
    let callee = branch(Kind::Bracket, "a[0]", vec![name_ref("a"), lit("0")]);
    let tree = program(vec![stmt(branch(Kind::Call { type_args: false }, "a[0]()", vec![callee]))]);
    let a = run(&tree);
    assert_eq!(a.operators().count(&s("a[0]()")), 1);
    assert_eq!(a.operators().count(&s("0()")), 0);
    assert_eq!(a.operators().count(&s("[ ... ]")), 1);
    assert_eq!(a.operands().count(&s("a")), 1);
    assert_eq!(a.operands().count(&s("0")), 1);
}

#[test]
fn prompt_call_in_print_of_output_links_target() {
    // x = prompt(); print(x);
    let tree = program(vec![
        assign("x", call("prompt", vec![])),
        stmt(call("print", vec![name_ref("x")])),
    ]);
    let a = run(&tree);
    assert!(a.graph().linked(&s("x"), &s("%INPUT%")));
    assert_eq!(a.graph().class_of(&s("x")), Some(Class::Predicate));
}
