//! The mathematical model of the syntax tree.
//!
//! The parser's tree types record one level of the precedence hierarchy
//! each, as a first operand and a list of operator and right operand pairs.
//! Their meaning is the expression that the list stands for when read from
//! left to right: that expression, an [`Expr`], is the view of each of them.

use vstd::prelude::*;
use crate::parser::factor::UnaryOperator;

verus! {

/// A binary operator of the source language.
pub enum BinaryOperator {
    Or,
    And,
    Equal,
    NotEqual,
    LessThan,
    LessThanOrEqual,
    GreaterThan,
    GreaterThanOrEqual,
    Addition,
    Subtraction,
    Multiplication,
    Division,
}

/// An expression of the source language.
pub enum Expr {
    Constant(i64),
    Variable(Seq<char>),
    /// An expression in parentheses.
    Group(Box<Expr>),
    Unary(UnaryOperator, Box<Expr>),
    Binary(BinaryOperator, Box<Expr>, Box<Expr>),
    /// An assignment to the variable of the given name.
    Assign(Seq<char>, Box<Expr>),
}

/// An operator and the operand to its right.
pub type Link = (BinaryOperator, Expr);

/// The expression that `first` and the operations after it stand for, read
/// from left to right: each operator joins all that stands before it with
/// the operand to its right.
pub open spec fn chain(first: Expr, links: Seq<Link>) -> Expr
    decreases links.len(),
{
    if links.len() == 0 {
        first
    } else {
        Expr::Binary(
            links.last().0,
            Box::new(chain(first, links.drop_last())),
            Box::new(links.last().1),
        )
    }
}

/// A chain with one more operation at its end joins the chain before it
/// with the new operand.
pub proof fn lemma_chain_push(first: Expr, links: Seq<Link>, link: Link)
    ensures
        chain(first, links.push(link)) == Expr::Binary(
            link.0,
            Box::new(chain(first, links)),
            Box::new(link.1),
        ),
{
    assert(links.push(link).drop_last() =~= links);
}

/// What the first `k + 1` operations of a chain are to the first `k`: they
/// join them with the operand of the next operation. A prefix of a chain
/// takes no more branch scopes than the chain, and uses no variable that
/// the chain does not use.
pub proof fn lemma_chain_prefix(first: Expr, links: Seq<Link>, names: Set<Seq<char>>, k: int)
    requires
        0 <= k < links.len(),
    ensures
        chain(first, links.take(k + 1)) == Expr::Binary(
            links[k].0,
            Box::new(chain(first, links.take(k))),
            Box::new(links[k].1),
        ),
        chain(first, links.take(k + 1)).clauses() <= chain(first, links).clauses(),
        chain(first, links).declared(names) ==> chain(first, links.take(k + 1)).declared(names),
    decreases links.len(),
{
    assert(links.take(k + 1).drop_last() =~= links.take(k));
    if k + 1 == links.len() {
        assert(links.take(k + 1) =~= links);
    } else {
        lemma_chain_prefix(first, links.drop_last(), names, k);
        assert(links.drop_last().take(k + 1) =~= links.take(k + 1));
    }
}

/// A statement of the source language.
pub enum Stmt {
    Return(Expr),
    Expression(Expr),
    /// The declaration of the variable of the given name, with its
    /// initializer if it has one.
    Declaration(Seq<char>, Option<Expr>),
}

/// The symbol table: the offset of each declared variable from the frame
/// base, and the offset given out last.
pub struct Frame {
    pub current_offset: int,
    pub slots: Map<Seq<char>, i64>,
}

/// A function of the source language with its symbol table.
pub struct FunctionModel {
    pub name: Seq<char>,
    pub body: Seq<Stmt>,
    pub frame: Frame,
}

/// The size of a stack slot in bytes.
pub open spec fn slot_size() -> int {
    8
}

impl Frame {
    /// The table of a function in which nothing is declared yet.
    pub open spec fn empty() -> Frame {
        Frame { current_offset: 0, slots: Map::empty() }
    }

    /// The names that are declared.
    pub open spec fn names(self) -> Set<Seq<char>> {
        self.slots.dom()
    }

    /// The table after the declaration of `name`: the cursor moves down by
    /// one slot, and the name is bound to the new offset.
    pub open spec fn declare(self, name: Seq<char>) -> Frame {
        Frame {
            current_offset: self.current_offset - slot_size(),
            slots: self.slots.insert(name, (self.current_offset - slot_size()) as i64),
        }
    }

    /// Every binding of `self` is a binding of `other`.
    pub open spec fn within(self, other: Frame) -> bool {
        forall|name: Seq<char>| #[trigger]
            self.slots.contains_key(name) ==> other.slots.contains_key(name) && other.slots[name]
                == self.slots[name]
    }
}

impl Expr {
    /// Every variable that the expression reads or assigns is in `names`.
    pub open spec fn declared(self, names: Set<Seq<char>>) -> bool
        decreases self,
    {
        match self {
            Expr::Constant(_) => true,
            Expr::Variable(name) => names.contains(name),
            Expr::Group(inner) => inner.declared(names),
            Expr::Unary(_, operand) => operand.declared(names),
            Expr::Binary(_, left, right) => left.declared(names) && right.declared(names),
            Expr::Assign(name, value) => names.contains(name) && value.declared(names),
        }
    }

    /// The number of short-circuit operators in the expression. Each takes
    /// one branch scope when code is generated.
    pub open spec fn clauses(self) -> nat
        decreases self,
    {
        match self {
            Expr::Constant(_) => 0,
            Expr::Variable(_) => 0,
            Expr::Group(inner) => inner.clauses(),
            Expr::Unary(_, operand) => operand.clauses(),
            Expr::Binary(operator, left, right) => left.clauses() + right.clauses() + (if operator
                .short_circuits() {
                1nat
            } else {
                0nat
            }),
            Expr::Assign(_, value) => value.clauses(),
        }
    }
}

impl BinaryOperator {
    /// Whether the operator leaves its right operand alone when the left
    /// one decides the result.
    pub open spec fn short_circuits(self) -> bool {
        self is Or || self is And
    }
}

impl Stmt {
    /// The expression that the statement evaluates, if it has one.
    pub open spec fn expression(self) -> Option<Expr> {
        match self {
            Stmt::Return(value) => Some(value),
            Stmt::Expression(value) => Some(value),
            Stmt::Declaration(_, initial) => initial,
        }
    }

    /// The number of branch scopes that the statement takes.
    pub open spec fn clauses(self) -> nat {
        match self.expression() {
            Some(value) => value.clauses(),
            None => 0,
        }
    }
}

/// The number of branch scopes that the statements take.
pub open spec fn body_clauses(body: Seq<Stmt>) -> nat
    decreases body.len(),
{
    if body.len() == 0 {
        0
    } else {
        body_clauses(body.drop_last()) + body.last().clauses()
    }
}

impl Stmt {
    /// Every variable that the statement's expression reads or assigns is
    /// in `names`.
    pub open spec fn declared(self, names: Set<Seq<char>>) -> bool {
        match self.expression() {
            Some(value) => value.declared(names),
            None => true,
        }
    }
}

impl FunctionModel {
    /// Every variable that a statement reads or assigns is in the symbol
    /// table.
    pub open spec fn declared(self) -> bool {
        forall|i: int|
            0 <= i < self.body.len() ==> (#[trigger] self.body[i]).declared(self.frame.names())
    }

    /// The number of branch scopes that the function takes.
    pub open spec fn clauses(self) -> nat {
        body_clauses(self.body)
    }
}

/// The number of declarations among the statements.
pub open spec fn declarations(body: Seq<Stmt>) -> nat
    decreases body.len(),
{
    if body.len() == 0 {
        0
    } else {
        declarations(body.drop_last()) + (if body.last() is Declaration {
            1nat
        } else {
            0nat
        })
    }
}

/// Whether the variables have their slots in the order in which `body`
/// declares them: the first declaration has the slot next to the frame
/// base, and each other one the slot below that of the declaration before
/// it.
pub open spec fn slotted(body: Seq<Stmt>, slots: Map<Seq<char>, i64>) -> bool {
    forall|i: int|
        0 <= i < body.len() ==> ((#[trigger] body[i]) matches Stmt::Declaration(name, _)
            ==> slots.contains_key(name) && slots[name] == -slot_size() * (declarations(
            body.take(i),
        ) + 1))
}

} // verus!
