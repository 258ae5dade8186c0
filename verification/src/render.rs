//! Writing a tree out as text, with no more parentheses than the grammar
//! needs to read the same tree again.

use vstd::prelude::*;
use crate::ast::{is_literal, Tree};
use crate::grammar::binary;

verus! {

/// The grammar level of a primary: a number or a group in parentheses.
pub open spec fn primary_level() -> nat {
    0
}

/// The grammar level of a factor.
pub open spec fn factor_level() -> nat {
    1
}

/// The grammar level of a term.
pub open spec fn term_level() -> nat {
    2
}

/// The grammar level of an expression.
pub open spec fn expression_level() -> nat {
    3
}

impl Tree {
    /// The tree is made of numeric literals and the five operators alone.
    pub open spec fn arithmetic(self) -> bool
        decreases self,
    {
        match self {
            Tree::Number(text) => is_literal(text),
            Tree::Add(left, right) => left.arithmetic() && right.arithmetic(),
            Tree::Subtract(left, right) => left.arithmetic() && right.arithmetic(),
            Tree::Multiply(left, right) => left.arithmetic() && right.arithmetic(),
            Tree::Divide(left, right) => left.arithmetic() && right.arithmetic(),
            Tree::Pow(left, right) => left.arithmetic() && right.arithmetic(),
            Tree::Func(_, _) => false,
            Tree::Consts(_) => false,
        }
    }

    /// The lowest grammar level at which the root of the tree can stand
    /// without parentheses.
    pub open spec fn level(self) -> nat {
        match self {
            Tree::Add(_, _) => expression_level(),
            Tree::Subtract(_, _) => expression_level(),
            Tree::Multiply(_, _) => term_level(),
            Tree::Divide(_, _) => term_level(),
            Tree::Pow(_, _) => factor_level(),
            _ => primary_level(),
        }
    }
}

/// The text of an arithmetic tree that is to stand where the grammar expects
/// the given level. A tree whose root belongs to a higher level is put in
/// parentheses; the operands of an operator are written at the levels at
/// which the grammar reads them.
pub open spec fn render(tree: Tree, level: nat) -> Seq<char>
    decreases tree, (if tree.level() > level {
        1nat
    } else {
        0nat
    }),
{
    if tree.level() > level {
        seq!['('] + render(tree, expression_level()) + seq![')']
    } else {
        match tree {
            Tree::Number(text) => text,
            Tree::Add(left, right) => render(*left, expression_level()) + seq!['+'] + render(
                *right,
                term_level(),
            ),
            Tree::Subtract(left, right) => render(*left, expression_level()) + seq!['-'] + render(
                *right,
                term_level(),
            ),
            Tree::Multiply(left, right) => render(*left, term_level()) + seq!['*'] + render(
                *right,
                factor_level(),
            ),
            Tree::Divide(left, right) => render(*left, term_level()) + seq!['/'] + render(
                *right,
                factor_level(),
            ),
            Tree::Pow(left, right) => render(*left, primary_level()) + seq!['^'] + render(
                *right,
                factor_level(),
            ),
            Tree::Func(_, _) => Seq::empty(),
            Tree::Consts(_) => Seq::empty(),
        }
    }
}

/// Literals joined by `*` and `/`, as they are written without parentheses:
/// a first literal, then operators, each with the literal behind it.
pub struct Product {
    pub first: Seq<char>,
    pub rest: Seq<(char, Seq<char>)>,
}

impl Product {
    /// The operands are literals and the operators are `*` or `/`.
    pub open spec fn wf(self) -> bool {
        &&& is_literal(self.first)
        &&& forall|i: int|
            0 <= i < self.rest.len() ==> {
                &&& (#[trigger] self.rest[i]).0 == '*' || self.rest[i].0 == '/'
                &&& is_literal(self.rest[i].1)
            }
    }

    /// The product without its last operator and operand.
    pub open spec fn front(self) -> Product {
        Product { first: self.first, rest: self.rest.drop_last() }
    }

    /// The product as it is written.
    pub open spec fn text(self) -> Seq<char>
        decreases self.rest.len(),
    {
        if self.rest.len() == 0 {
            self.first
        } else {
            self.front().text() + seq![self.rest.last().0] + self.rest.last().1
        }
    }

    /// The product as arithmetic takes it: operator by operator from the
    /// left, each applied to all that stands before it.
    pub open spec fn tree(self) -> Tree
        decreases self.rest.len(),
    {
        if self.rest.len() == 0 {
            Tree::Number(self.first)
        } else {
            binary(self.rest.last().0, self.front().tree(), Tree::Number(self.rest.last().1))
        }
    }
}

/// Products joined by `+` and `-`, as they are written without parentheses.
pub struct Sum {
    pub first: Product,
    pub rest: Seq<(char, Product)>,
}

impl Sum {
    /// The operands are products and the operators are `+` or `-`.
    pub open spec fn wf(self) -> bool {
        &&& self.first.wf()
        &&& forall|i: int|
            0 <= i < self.rest.len() ==> {
                &&& (#[trigger] self.rest[i]).0 == '+' || self.rest[i].0 == '-'
                &&& self.rest[i].1.wf()
            }
    }

    /// The sum without its last operator and operand.
    pub open spec fn front(self) -> Sum {
        Sum { first: self.first, rest: self.rest.drop_last() }
    }

    /// The sum as it is written.
    pub open spec fn text(self) -> Seq<char>
        decreases self.rest.len(),
    {
        if self.rest.len() == 0 {
            self.first.text()
        } else {
            self.front().text() + seq![self.rest.last().0] + self.rest.last().1.text()
        }
    }

    /// The sum as arithmetic takes it: every product first, then operator by
    /// operator from the left.
    pub open spec fn tree(self) -> Tree
        decreases self.rest.len(),
    {
        if self.rest.len() == 0 {
            self.first.tree()
        } else {
            binary(self.rest.last().0, self.front().tree(), self.rest.last().1.tree())
        }
    }
}

/// Literals joined by `^`, as they are written: the text.
pub open spec fn power_text(operands: Seq<Seq<char>>) -> Seq<char>
    decreases operands.len(),
{
    if operands.len() <= 1 {
        operands.first()
    } else {
        operands.first() + seq!['^'] + power_text(operands.drop_first())
    }
}

/// Literals joined by `^`, as arithmetic takes them: each literal is raised
/// to all that stands behind it.
pub open spec fn power_tree(operands: Seq<Seq<char>>) -> Tree
    decreases operands.len(),
{
    if operands.len() <= 1 {
        Tree::Number(operands.first())
    } else {
        Tree::Pow(
            Box::new(Tree::Number(operands.first())),
            Box::new(power_tree(operands.drop_first())),
        )
    }
}

} // verus!
