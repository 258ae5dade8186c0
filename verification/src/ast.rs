//! The expression tree, and the mathematical tree that contracts speak of.

use vstd::prelude::*;
use crate::chars::is_number_char;

verus! {

/// The unary functions of the language.
#[derive(Clone, Copy, Debug, PartialEq, Eq, Structural)]
pub enum MathFunction {
    Sqrt,
    Sin,
    Cos,
    Tan,
    Asin,
    Acos,
    Atan,
    Log,
    Ln,
    ToRadian,
    ToDegree,
}

/// The named constants of the language.
#[derive(Clone, Copy, Debug, PartialEq, Eq, Structural)]
pub enum MathConst {
    Pi,
    E,
}

/// An expression, as the parser builds it. A `Number` holds the text of its
/// literal; every other node owns its operands.
#[derive(Debug, PartialEq, Eq)]
pub enum Expr {
    Number(String),
    Add(Box<Expr>, Box<Expr>),
    Subtract(Box<Expr>, Box<Expr>),
    Multiply(Box<Expr>, Box<Expr>),
    Divide(Box<Expr>, Box<Expr>),
    Pow(Box<Expr>, Box<Expr>),
    Func(MathFunction, Box<Expr>),
    Consts(MathConst),
}

/// The mathematical model of an [`Expr`]: the same tree, with each literal as
/// a sequence of characters.
pub enum Tree {
    Number(Seq<char>),
    Add(Box<Tree>, Box<Tree>),
    Subtract(Box<Tree>, Box<Tree>),
    Multiply(Box<Tree>, Box<Tree>),
    Divide(Box<Tree>, Box<Tree>),
    Pow(Box<Tree>, Box<Tree>),
    Func(MathFunction, Box<Tree>),
    Consts(MathConst),
}

/// How many points `text` holds.
pub open spec fn point_count(text: Seq<char>) -> nat
    decreases text.len(),
{
    if text.len() == 0 {
        0
    } else {
        point_count(text.drop_last()) + if text.last() == '.' {
            1nat
        } else {
            0nat
        }
    }
}

/// A numeric literal: digits, with at most one point among them, before
/// them or after them. These are the texts made of digits and points that the
/// standard conversion from text to a floating-point number accepts.
pub open spec fn is_literal(text: Seq<char>) -> bool {
    &&& forall|i: int| 0 <= i < text.len() ==> is_number_char(#[trigger] text[i])
    &&& point_count(text) <= 1
    &&& point_count(text) < text.len()
}

impl Tree {
    /// Every literal of the tree is a numeric literal.
    pub open spec fn wf(self) -> bool
        decreases self,
    {
        match self {
            Tree::Number(text) => is_literal(text),
            Tree::Add(left, right) => left.wf() && right.wf(),
            Tree::Subtract(left, right) => left.wf() && right.wf(),
            Tree::Multiply(left, right) => left.wf() && right.wf(),
            Tree::Divide(left, right) => left.wf() && right.wf(),
            Tree::Pow(left, right) => left.wf() && right.wf(),
            Tree::Func(_, argument) => argument.wf(),
            Tree::Consts(_) => true,
        }
    }
}

impl View for Expr {
    type V = Tree;

    open spec fn view(&self) -> Tree {
        self.tree()
    }
}

impl Expr {
    /// The tree that this expression stands for.
    pub open spec fn tree(&self) -> Tree
        decreases self,
    {
        match self {
            Expr::Number(text) => Tree::Number(text@),
            Expr::Add(left, right) => Tree::Add(Box::new(left.tree()), Box::new(right.tree())),
            Expr::Subtract(left, right) => Tree::Subtract(
                Box::new(left.tree()),
                Box::new(right.tree()),
            ),
            Expr::Multiply(left, right) => Tree::Multiply(
                Box::new(left.tree()),
                Box::new(right.tree()),
            ),
            Expr::Divide(left, right) => Tree::Divide(
                Box::new(left.tree()),
                Box::new(right.tree()),
            ),
            Expr::Pow(left, right) => Tree::Pow(Box::new(left.tree()), Box::new(right.tree())),
            Expr::Func(kind, argument) => Tree::Func(*kind, Box::new(argument.tree())),
            Expr::Consts(kind) => Tree::Consts(*kind),
        }
    }

    /// Every literal of the expression is a numeric literal.
    pub open spec fn wf(&self) -> bool {
        self@.wf()
    }
}

} // verus!
