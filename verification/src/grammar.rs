//! The grammar, as functions from a text and a position to the tree that
//! stands there.
//!
//! ```text
//! expression := term (('+' | '-') term)*
//! term       := factor (('*' | '/') factor)*
//! factor     := primary ('^' factor)?
//! primary    := number | '(' expression ')' | name ' '? '(' expression? ')'
//! ```
//!
//! Every function reads the text `s` from the position `at` on and gives
//! either the tree it found together with the number of characters it took,
//! or the message of the first failure.

use vstd::prelude::*;
use crate::ast::{is_literal, MathConst, MathFunction, Tree};
use crate::chars::{delete_spaces, fold_case, is_alphabetic_char, is_number_char};

verus! {

/// What a name stands for.
#[derive(Clone, Copy, Debug, PartialEq, Eq, Structural)]
pub enum Callee {
    /// A function of one argument.
    Function(MathFunction),
    /// A constant, written with an empty pair of parentheses.
    Constant(MathConst),
}

/// The outcome of reading one construct: its tree and how many characters
/// it took, or the message of the failure.
pub type Parsed = Result<(Tree, nat), Seq<char>>;

/// The character at `at`, if the text reaches that far.
pub open spec fn peek(s: Seq<char>, at: nat) -> Option<char> {
    if at < s.len() {
        Some(s[at as int])
    } else {
        None
    }
}

/// The `len` characters of `s` from the position `at` on.
pub open spec fn piece(s: Seq<char>, at: nat, len: nat) -> Seq<char> {
    s.subrange(at as int, (at + len) as int)
}

/// How many characters stand at `at` or after it.
pub open spec fn remaining(s: Seq<char>, at: nat) -> nat {
    if at <= s.len() {
        (s.len() - at) as nat
    } else {
        0
    }
}

/// The length of the longest run of digits and points that starts at `at`.
pub open spec fn number_run(s: Seq<char>, at: nat) -> nat
    decreases remaining(s, at),
{
    if at < s.len() && is_number_char(s[at as int]) {
        1 + number_run(s, at + 1)
    } else {
        0
    }
}

/// The length of the longest run of alphabetic characters that starts at `at`.
pub open spec fn name_run(s: Seq<char>, at: nat) -> nat
    decreases remaining(s, at),
{
    if at < s.len() && is_alphabetic_char(s[at as int]) {
        1 + name_run(s, at + 1)
    } else {
        0
    }
}

/// The message where a primary is expected and none begins: at an operator,
/// at any other character that begins none, or at the end of the text.
pub open spec fn unexpected_character() -> Seq<char> {
    "Unexpected character"@
}

/// The message where a group is not closed.
pub open spec fn expected_closing() -> Seq<char> {
    "Expected closing parenthesis"@
}

/// The message where the call of `name` is not closed.
pub open spec fn expected_closing_after(name: Seq<char>) -> Seq<char> {
    "Expected closing parenthesis after "@ + name
}

/// The message where no opening parenthesis follows `name`.
pub open spec fn expected_parenthesis_after(name: Seq<char>) -> Seq<char> {
    "Expected parenthesis after "@ + name
}

/// The message where `name` is neither a function nor a constant.
pub open spec fn unknown_function(name: Seq<char>) -> Seq<char> {
    "Unknown function: "@ + name
}

/// The message for a run of digits and points that is no numeric literal. It
/// is the text with which the standard conversion to a floating-point number
/// turns such a run down.
pub open spec fn invalid_literal() -> Seq<char> {
    "invalid float literal"@
}

/// What the name, already in lowercase, stands for.
pub open spec fn callee(name: Seq<char>) -> Option<Callee> {
    if name == "sqrt"@ {
        Some(Callee::Function(MathFunction::Sqrt))
    } else if name == "sin"@ {
        Some(Callee::Function(MathFunction::Sin))
    } else if name == "cos"@ {
        Some(Callee::Function(MathFunction::Cos))
    } else if name == "tan"@ {
        Some(Callee::Function(MathFunction::Tan))
    } else if name == "asin"@ {
        Some(Callee::Function(MathFunction::Asin))
    } else if name == "acos"@ {
        Some(Callee::Function(MathFunction::Acos))
    } else if name == "atan"@ {
        Some(Callee::Function(MathFunction::Atan))
    } else if name == "log"@ {
        Some(Callee::Function(MathFunction::Log))
    } else if name == "ln"@ {
        Some(Callee::Function(MathFunction::Ln))
    } else if name == "torad"@ {
        Some(Callee::Function(MathFunction::ToRadian))
    } else if name == "todegree"@ {
        Some(Callee::Function(MathFunction::ToDegree))
    } else if name == "pi"@ {
        Some(Callee::Constant(MathConst::Pi))
    } else if name == "e"@ {
        Some(Callee::Constant(MathConst::E))
    } else {
        None
    }
}

/// The node that the operator `op` makes of two operands.
pub open spec fn binary(op: char, left: Tree, right: Tree) -> Tree {
    if op == '+' {
        Tree::Add(Box::new(left), Box::new(right))
    } else if op == '-' {
        Tree::Subtract(Box::new(left), Box::new(right))
    } else if op == '*' {
        Tree::Multiply(Box::new(left), Box::new(right))
    } else {
        Tree::Divide(Box::new(left), Box::new(right))
    }
}

/// `rest`, counted from `used` characters earlier.
pub open spec fn after(used: nat, rest: Parsed) -> Parsed {
    match rest {
        Ok((tree, more)) => Ok((tree, used + more)),
        Err(message) => Err(message),
    }
}

/// A number: the longest run of digits and points, which must be a literal.
pub open spec fn number(s: Seq<char>, at: nat) -> Parsed {
    let used = number_run(s, at);
    let text = piece(s, at, used);
    if is_literal(text) {
        Ok((Tree::Number(text), used))
    } else {
        Err(invalid_literal())
    }
}

/// A call: the longest run of alphabetic characters, folded to lowercase, is
/// the name; after it, and after at most one space, an opening parenthesis
/// must stand. A function then takes one expression, a constant nothing, and
/// the closing parenthesis follows.
pub open spec fn function_call(s: Seq<char>, at: nat) -> Parsed
    decreases remaining(s, at), 1nat,
{
    let run = name_run(s, at);
    let name = fold_case(piece(s, at, run));
    let gap: nat = if peek(s, at + run) == Some(' ') {
        1
    } else {
        0
    };
    let head = run + gap + 1;
    if peek(s, at + run + gap) != Some('(') {
        Err(expected_parenthesis_after(name))
    } else {
        match callee(name) {
            Some(Callee::Function(kind)) => match expression(s, at + head) {
                Ok((argument, used)) => if peek(s, at + head + used) == Some(')') {
                    Ok((Tree::Func(kind, Box::new(argument)), head + used + 1))
                } else {
                    Err(expected_closing_after(name))
                },
                Err(message) => Err(message),
            },
            Some(Callee::Constant(kind)) => if peek(s, at + head) == Some(')') {
                Ok((Tree::Consts(kind), head + 1))
            } else {
                Err(expected_closing_after(name))
            },
            None => Err(unknown_function(name)),
        }
    }
}

/// A primary: an expression in parentheses, a number or a call.
pub open spec fn primary(s: Seq<char>, at: nat) -> Parsed
    decreases remaining(s, at), 2nat,
{
    match peek(s, at) {
        Some(c) => if c == '(' {
            match expression(s, at + 1) {
                Ok((inner, used)) => if peek(s, at + 1 + used) == Some(')') {
                    Ok((inner, used + 2))
                } else {
                    Err(expected_closing())
                },
                Err(message) => Err(message),
            }
        } else if is_number_char(c) {
            number(s, at)
        } else if is_alphabetic_char(c) {
            function_call(s, at)
        } else {
            Err(unexpected_character())
        },
        None => Err(unexpected_character()),
    }
}

/// A factor: a primary, raised to the factor that follows a `^`, if one
/// does. The exponent is itself a factor, so powers group to the right.
pub open spec fn factor(s: Seq<char>, at: nat) -> Parsed
    decreases remaining(s, at), 3nat,
{
    match primary(s, at) {
        Ok((base, used)) => if peek(s, at + used) == Some('^') {
            match factor(s, at + used + 1) {
                Ok((exponent, more)) => Ok(
                    (Tree::Pow(Box::new(base), Box::new(exponent)), used + 1 + more),
                ),
                Err(message) => Err(message),
            }
        } else {
            Ok((base, used))
        },
        Err(message) => Err(message),
    }
}

/// What follows a term's first factors: as long as a `*` or a `/` stands at
/// `at`, the factor behind it joins `left`, which becomes the left operand
/// of the new node.
pub open spec fn term_rest(s: Seq<char>, left: Tree, at: nat) -> Parsed
    decreases remaining(s, at), 4nat,
{
    match peek(s, at) {
        Some(op) => if op == '*' || op == '/' {
            match factor(s, at + 1) {
                Ok((right, used)) => after(
                    1 + used,
                    term_rest(s, binary(op, left, right), at + 1 + used),
                ),
                Err(message) => Err(message),
            }
        } else {
            Ok((left, 0))
        },
        None => Ok((left, 0)),
    }
}

/// A term: factors joined by `*` and `/`, grouped from the left.
pub open spec fn term(s: Seq<char>, at: nat) -> Parsed
    decreases remaining(s, at), 5nat,
{
    match factor(s, at) {
        Ok((left, used)) => after(used, term_rest(s, left, at + used)),
        Err(message) => Err(message),
    }
}

/// What follows an expression's first terms: as long as a `+` or a `-`
/// stands at `at`, the term behind it joins `left`.
pub open spec fn expression_rest(s: Seq<char>, left: Tree, at: nat) -> Parsed
    decreases remaining(s, at), 6nat,
{
    match peek(s, at) {
        Some(op) => if op == '+' || op == '-' {
            match term(s, at + 1) {
                Ok((right, used)) => after(
                    1 + used,
                    expression_rest(s, binary(op, left, right), at + 1 + used),
                ),
                Err(message) => Err(message),
            }
        } else {
            Ok((left, 0))
        },
        None => Ok((left, 0)),
    }
}

/// An expression: terms joined by `+` and `-`, grouped from the left.
pub open spec fn expression(s: Seq<char>, at: nat) -> Parsed
    decreases remaining(s, at), 7nat,
{
    match term(s, at) {
        Ok((left, used)) => after(used, expression_rest(s, left, at + used)),
        Err(message) => Err(message),
    }
}

/// The tree of the expression with which `input` begins. What follows that
/// expression is not looked at.
pub open spec fn parse(input: Seq<char>) -> Result<Tree, Seq<char>> {
    match expression(input, 0) {
        Ok((tree, _)) => Ok(tree),
        Err(message) => Err(message),
    }
}

/// The tree of the expression that `text` begins with once its spaces are
/// deleted.
pub open spec fn read(text: Seq<char>) -> Result<Tree, Seq<char>> {
    parse(delete_spaces(text))
}

} // verus!
