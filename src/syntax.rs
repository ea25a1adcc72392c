//! The syntax tree the engine reads: typed nodes with their source text and
//! ordered children.

use vstd::prelude::*;

verus! {

/// Discriminant of a syntax node.
pub enum Kind {
    /// The whole program.
    Program,
    /// A `{ ... }` statement block.
    Block,
    /// `if (test) cons else alt`; children: test, consequent, alternative.
    If,
    /// `switch (test) { ... }`; children: test, then the clauses.
    Switch,
    /// A `case value:` clause of a switch.
    CaseClause,
    /// The `default:` clause of a switch.
    DefaultClause,
    /// A `for` loop.
    For,
    /// The initializer of a `for` loop.
    ForInit,
    /// A `while` loop.
    While,
    /// A `do ... while` loop.
    DoWhile,
    /// A variable declarator; children: target, then the initial value.
    Declarator,
    /// An assignment with the given operator; children: target, value.
    Assign(String),
    /// A call; children: callee, then the arguments.
    Call { type_args: bool },
    /// A name being introduced.
    Name,
    /// A reference to a name.
    NameRef,
    /// A literal value.
    Literal,
    /// A binary expression with the given operator.
    Bin(String),
    /// A unary expression with the given operator.
    Unary(String),
    /// Member access `object.property`.
    Dot,
    /// A parenthesized expression.
    Grouping,
    /// A constructor call `new ...`.
    New,
    /// A `return` statement.
    Return,
    /// A `throw` statement.
    Throw,
    /// Indexing `object[index]`.
    Bracket,
    /// An arrow function.
    Arrow,
    /// Any other construct.
    Other,
}

/// A node of the syntax tree.
pub struct Node {
    pub kind: Kind,
    pub text: String,
    pub children: Vec<Node>,
}

impl Node {
    /// A node with no children.
    pub fn leaf(kind: Kind, text: String) -> (r: Node)
        ensures
            r.kind == kind,
            r.text == text,
            r.children@.len() == 0,
    {
        Node { kind, text, children: Vec::new() }
    }

    /// A node with the given children.
    pub fn branch(kind: Kind, text: String, children: Vec<Node>) -> (r: Node)
        ensures
            r.kind == kind,
            r.text == text,
            r.children == children,
    {
        Node { kind, text, children }
    }
}

} // verus!
