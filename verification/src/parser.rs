//! The recursive-descent parser. Each function is proved to give what the
//! grammar gives at the cursor's position.

use vstd::prelude::*;
use crate::ast::{point_count, Expr, MathConst, MathFunction, Tree};
use crate::chars::{fold_case, is_number_char, lowercase, number_char};
use crate::cursor::Cursor;
use crate::grammar::{
    after, callee, expression, expression_rest, factor, function_call, name_run, number,
    number_run, parse, piece, primary, remaining, term, term_rest, Callee, Parsed,
};
use crate::laws::lemma_parse_well_formed;

verus! {

/// `r` is the outcome `expected`, and on success the cursor, which stood at
/// `start`, now stands at `end`, behind what was read.
pub open spec fn follows(r: Result<Expr, String>, start: nat, end: nat, expected: Parsed) -> bool {
    match expected {
        Ok((tree, used)) => r is Ok && r->Ok_0@ == tree && end == start + used,
        Err(message) => r is Err && r->Err_0@ == message,
    }
}

/// `r` is the outcome `expected`.
pub open spec fn agrees(r: Result<Expr, String>, expected: Result<Tree, Seq<char>>) -> bool {
    match expected {
        Ok(tree) => r is Ok && r->Ok_0@ == tree,
        Err(message) => r is Err && r->Err_0@ == message,
    }
}

fn is_word(name: &String, word: &str) -> (r: bool)
    ensures
        r == (name@ == word@),
{
    *name == String::from_str(word)
}

/// What `name`, already in lowercase, stands for: one of the eleven
/// functions, one of the two constants, or nothing.
pub fn lookup(name: &String) -> (r: Option<Callee>)
    ensures
        r == callee(name@),
{
    if is_word(name, "sqrt") {
        Some(Callee::Function(MathFunction::Sqrt))
    } else if is_word(name, "sin") {
        Some(Callee::Function(MathFunction::Sin))
    } else if is_word(name, "cos") {
        Some(Callee::Function(MathFunction::Cos))
    } else if is_word(name, "tan") {
        Some(Callee::Function(MathFunction::Tan))
    } else if is_word(name, "asin") {
        Some(Callee::Function(MathFunction::Asin))
    } else if is_word(name, "acos") {
        Some(Callee::Function(MathFunction::Acos))
    } else if is_word(name, "atan") {
        Some(Callee::Function(MathFunction::Atan))
    } else if is_word(name, "log") {
        Some(Callee::Function(MathFunction::Log))
    } else if is_word(name, "ln") {
        Some(Callee::Function(MathFunction::Ln))
    } else if is_word(name, "torad") {
        Some(Callee::Function(MathFunction::ToRadian))
    } else if is_word(name, "todegree") {
        Some(Callee::Function(MathFunction::ToDegree))
    } else if is_word(name, "pi") {
        Some(Callee::Constant(MathConst::Pi))
    } else if is_word(name, "e") {
        Some(Callee::Constant(MathConst::E))
    } else {
        None
    }
}

fn message_about(head: &str, name: &String) -> (r: String)
    ensures
        r@ == head@ + name@,
{
    let mut message = String::from_str(head);
    message.append(name.as_str());
    message
}

/// Reads the longest run of digits and points and checks that it is a
/// literal.
fn parse_number(chars: &mut Cursor) -> (r: Result<Expr, String>)
    requires
        old(chars).wf(),
    ensures
        final(chars).wf(),
        final(chars).text() == old(chars).text(),
        follows(r, old(chars).at(), final(chars).at(), number(old(chars).text(), old(chars).at())),
{
    let ghost s = chars.text();
    let ghost start = chars.at();
    let mut number_str = String::new();
    let mut points: usize = 0;
    let mut length: usize = 0;
    proof {
        assert(piece(s, start, 0) =~= Seq::<char>::empty());
    }
    loop
        invariant
            chars.wf(),
            chars.text() == s,
            chars.at() == start + length,
            start + length <= s.len() <= usize::MAX,
            number_str@ == piece(s, start, length as nat),
            points == point_count(number_str@),
            points <= length,
            number_run(s, start) == length + number_run(s, chars.at()),
            forall|i: int| 0 <= i < length ==> is_number_char(#[trigger] number_str@[i]),
        ensures
            number_run(s, start) == length,
        decreases remaining(s, chars.at()),
    {
        match chars.peek() {
            Some(c) => {
                if number_char(c) {
                    proof {
                        let longer = piece(s, start, (length + 1) as nat);
                        assert(longer.drop_last() =~= number_str@);
                        assert(longer =~= number_str@.push(c));
                    }
                    number_str.push(c);
                    if c == '.' {
                        points = points + 1;
                    }
                    length = length + 1;
                    chars.next();
                } else {
                    break ;
                }
            },
            None => {
                break ;
            },
        }
    }
    if points <= 1 && points < length {
        Ok(Expr::Number(number_str))
    } else {
        Err(String::from_str("invalid float literal"))
    }
}

/// Reads an expression: terms joined by `+` and `-`.
fn parse_expression(chars: &mut Cursor) -> (r: Result<Expr, String>)
    requires
        old(chars).wf(),
    ensures
        final(chars).wf(),
        final(chars).text() == old(chars).text(),
        follows(
            r,
            old(chars).at(),
            final(chars).at(),
            expression(old(chars).text(), old(chars).at()),
        ),
    decreases remaining(old(chars).text(), old(chars).at()), 7nat,
{
    let ghost s = chars.text();
    let ghost start = chars.at();
    let mut left = match parse_term(chars) {
        Ok(first) => first,
        Err(e) => {
            return Err(e);
        },
    };
    loop
        invariant
            chars.wf(),
            chars.text() == s,
            old(chars).text() == s,
            old(chars).at() == start,
            start <= chars.at(),
            expression(s, start) == after(
                (chars.at() - start) as nat,
                expression_rest(s, left@, chars.at()),
            ),
        ensures
            chars.wf(),
            chars.text() == s,
            expression(s, start) == Ok::<(Tree, nat), Seq<char>>(
                (left@, (chars.at() - start) as nat),
            ),
        decreases remaining(s, chars.at()),
    {
        match chars.peek() {
            Some(op) => {
                if op == '+' || op == '-' {
                    chars.next();
                    let right = match parse_term(chars) {
                        Ok(right) => right,
                        Err(e) => {
                            return Err(e);
                        },
                    };
                    left = if op == '+' {
                        Expr::Add(Box::new(left), Box::new(right))
                    } else {
                        Expr::Subtract(Box::new(left), Box::new(right))
                    };
                } else {
                    break ;
                }
            },
            None => {
                break ;
            },
        }
    }
    Ok(left)
}

/// Reads a term: factors joined by `*` and `/`.
fn parse_term(chars: &mut Cursor) -> (r: Result<Expr, String>)
    requires
        old(chars).wf(),
    ensures
        final(chars).wf(),
        final(chars).text() == old(chars).text(),
        follows(r, old(chars).at(), final(chars).at(), term(old(chars).text(), old(chars).at())),
    decreases remaining(old(chars).text(), old(chars).at()), 5nat,
{
    let ghost s = chars.text();
    let ghost start = chars.at();
    let mut left = match parse_fanctor(chars) {
        Ok(first) => first,
        Err(e) => {
            return Err(e);
        },
    };
    loop
        invariant
            chars.wf(),
            chars.text() == s,
            old(chars).text() == s,
            old(chars).at() == start,
            start <= chars.at(),
            term(s, start) == after(
                (chars.at() - start) as nat,
                term_rest(s, left@, chars.at()),
            ),
        ensures
            chars.wf(),
            chars.text() == s,
            term(s, start) == Ok::<(Tree, nat), Seq<char>>((left@, (chars.at() - start) as nat)),
        decreases remaining(s, chars.at()),
    {
        match chars.peek() {
            Some(op) => {
                if op == '*' || op == '/' {
                    chars.next();
                    let right = match parse_fanctor(chars) {
                        Ok(right) => right,
                        Err(e) => {
                            return Err(e);
                        },
                    };
                    left = if op == '*' {
                        Expr::Multiply(Box::new(left), Box::new(right))
                    } else {
                        Expr::Divide(Box::new(left), Box::new(right))
                    };
                } else {
                    break ;
                }
            },
            None => {
                break ;
            },
        }
    }
    Ok(left)
}

/// Reads a factor: a primary, and behind a `^` the factor that is its
/// exponent.
fn parse_fanctor(chars: &mut Cursor) -> (r: Result<Expr, String>)
    requires
        old(chars).wf(),
    ensures
        final(chars).wf(),
        final(chars).text() == old(chars).text(),
        follows(r, old(chars).at(), final(chars).at(), factor(old(chars).text(), old(chars).at())),
    decreases remaining(old(chars).text(), old(chars).at()), 3nat,
{
    let ghost s = chars.text();
    let ghost start = chars.at();
    let found = match chars.peek() {
        Some(c) => {
            if c == '(' {
                chars.next();
                match parse_expression(chars) {
                    Ok(inner) => match chars.next() {
                        Some(')') => Ok(inner),
                        _ => Err(String::from_str("Expected closing parenthesis")),
                    },
                    Err(e) => Err(e),
                }
            } else if number_char(c) {
                parse_number(chars)
            } else if c.is_alphabetic() {
                parse_function(chars)
            } else {
                Err(String::from_str("Unexpected character"))
            }
        },
        None => Err(String::from_str("Unexpected character")),
    };
    assert(follows(found, start, chars.at(), primary(s, start)));
    let base = match found {
        Ok(base) => base,
        Err(e) => {
            return Err(e);
        },
    };
    match chars.peek() {
        Some('^') => {
            chars.next();
            match parse_fanctor(chars) {
                Ok(exponent) => Ok(Expr::Pow(Box::new(base), Box::new(exponent))),
                Err(e) => Err(e),
            }
        },
        _ => Ok(base),
    }
}

/// Reads a call: a name, an opening parenthesis, the argument if the name
/// is a function's, and the closing parenthesis.
fn parse_function(chars: &mut Cursor) -> (r: Result<Expr, String>)
    requires
        old(chars).wf(),
    ensures
        final(chars).wf(),
        final(chars).text() == old(chars).text(),
        follows(
            r,
            old(chars).at(),
            final(chars).at(),
            function_call(old(chars).text(), old(chars).at()),
        ),
    decreases remaining(old(chars).text(), old(chars).at()), 1nat,
{
    let ghost s = chars.text();
    let ghost start = chars.at();
    let mut function_name = String::new();
    proof {
        assert(piece(s, start, 0) =~= Seq::<char>::empty());
    }
    loop
        invariant
            chars.wf(),
            chars.text() == s,
            start <= chars.at(),
            function_name@ == fold_case(piece(s, start, (chars.at() - start) as nat)),
            name_run(s, start) == (chars.at() - start) + name_run(s, chars.at()),
        ensures
            chars.wf(),
            chars.text() == s,
            chars.at() == start + name_run(s, start),
            function_name@ == fold_case(piece(s, start, (chars.at() - start) as nat)),
        decreases remaining(s, chars.at()),
    {
        match chars.peek() {
            Some(c) => {
                if c.is_alphabetic() {
                    proof {
                        let taken = (chars.at() - start) as nat;
                        let longer = piece(s, start, taken + 1);
                        assert(longer.drop_last() =~= piece(s, start, taken));
                        assert(longer.last() == c);
                    }
                    let folded = lowercase(c);
                    function_name.append(folded.as_str());
                    chars.next();
                } else {
                    break ;
                }
            },
            None => {
                break ;
            },
        }
    }
    match chars.peek() {
        Some(' ') => {
            chars.next();
        },
        _ => {},
    }
    match chars.next() {
        Some('(') => {},
        _ => {
            return Err(message_about("Expected parenthesis after ", &function_name));
        },
    }
    match lookup(&function_name) {
        Some(Callee::Function(kind)) => {
            let argument = match parse_expression(chars) {
                Ok(argument) => argument,
                Err(e) => {
                    return Err(e);
                },
            };
            match chars.next() {
                Some(')') => Ok(Expr::Func(kind, Box::new(argument))),
                _ => Err(message_about("Expected closing parenthesis after ", &function_name)),
            }
        },
        Some(Callee::Constant(kind)) => match chars.next() {
            Some(')') => Ok(Expr::Consts(kind)),
            _ => Err(message_about("Expected closing parenthesis after ", &function_name)),
        },
        None => Err(message_about("Unknown function: ", &function_name)),
    }
}

/// Parses the expression with which `inputdata` begins. What follows that
/// expression is not looked at.
pub fn stparse(inputdata: &str) -> (r: Result<Expr, String>)
    ensures
        agrees(r, parse(inputdata@)),
        r matches Ok(tree) ==> tree.wf(),
{
    let mut chars = Cursor::new(inputdata);
    proof {
        lemma_parse_well_formed(inputdata@);
    }
    parse_expression(&mut chars)
}

} // verus!
