//! The grammar reads back what `render` writes.

use vstd::prelude::*;
use crate::ast::{is_literal, Tree};
use crate::chars::is_number_char;
use crate::grammar::{
    after, binary, expression, expression_rest, factor, number_run, parse, peek, piece, primary,
    term, term_rest, Parsed,
};
use crate::render::{expression_level, factor_level, primary_level, render, term_level};

verus! {

/// `text` stands in `s` at the position `at`.
pub open spec fn stands(s: Seq<char>, at: nat, text: Seq<char>) -> bool {
    &&& at + text.len() <= s.len()
    &&& piece(s, at, text.len()) == text
}

/// The character `next`, if there is one, ends whatever was read at the
/// given level: it is no digit and no point, from the level of factors on
/// no `^`, and at the level of expressions no `*` and no `/`.
pub open spec fn ends(level: nat, next: Option<char>) -> bool {
    next matches Some(c) ==> {
        &&& !is_number_char(c)
        &&& level >= factor_level() ==> c != '^'
        &&& level >= expression_level() ==> c != '*' && c != '/'
    }
}

/// What the grammar makes, at the given level, of the `used` characters at
/// `at`: a primary or a factor with the tree `tree`; or a term or an
/// expression that begins with `tree` and goes on behind it.
#[verifier::opaque]
pub open spec fn reads(s: Seq<char>, at: nat, used: nat, tree: Tree, level: nat) -> bool {
    if level == primary_level() {
        primary(s, at) == Ok::<(Tree, nat), Seq<char>>((tree, used))
    } else if level == factor_level() {
        factor(s, at) == Ok::<(Tree, nat), Seq<char>>((tree, used))
    } else if level == term_level() {
        term(s, at) == after(used, term_rest(s, tree, at + used))
    } else {
        expression(s, at) == after(used, expression_rest(s, tree, at + used))
    }
}

proof fn lemma_number_run_exact(s: Seq<char>, at: nat, n: nat)
    requires
        at + n <= s.len(),
        forall|i: int| at <= i < at + n ==> is_number_char(#[trigger] s[i]),
        peek(s, at + n) matches Some(c) ==> !is_number_char(c),
    ensures
        number_run(s, at) == n,
    decreases n,
{
    if n > 0 {
        lemma_number_run_exact(s, at + 1, (n - 1) as nat);
    }
}

proof fn lemma_stands_split(s: Seq<char>, at: nat, a: Seq<char>, b: Seq<char>)
    requires
        stands(s, at, a + b),
    ensures
        stands(s, at, a),
        stands(s, at + a.len(), b),
{
    let whole = a + b;
    assert(piece(s, at, a.len()) =~= whole.subrange(0, a.len() as int));
    assert(whole.subrange(0, a.len() as int) =~= a);
    assert(piece(s, at + a.len(), b.len()) =~= whole.subrange(
        a.len() as int,
        whole.len() as int,
    ));
    assert(whole.subrange(a.len() as int, whole.len() as int) =~= b);
}

proof fn lemma_stands_char(s: Seq<char>, at: nat, c: char)
    requires
        stands(s, at, seq![c]),
    ensures
        peek(s, at) == Some(c),
{
    assert(piece(s, at, 1)[0] == c);
}

/// What was read as a primary, and is followed by a character that ends a
/// higher level, reads the same at that level.
proof fn lemma_lift_primary(s: Seq<char>, at: nat, used: nat, tree: Tree, level: nat)
    requires
        level <= expression_level(),
        reads(s, at, used, tree, primary_level()),
        ends(level, peek(s, at + used)),
    ensures
        reads(s, at, used, tree, level),
{
    reveal(reads);
    if level >= factor_level() {
        assert(factor(s, at) == Ok::<(Tree, nat), Seq<char>>((tree, used)));
        lemma_lift_factor(s, at, used, tree, level);
    }
}

/// The same, from a factor.
proof fn lemma_lift_factor(s: Seq<char>, at: nat, used: nat, tree: Tree, level: nat)
    requires
        factor_level() <= level <= expression_level(),
        reads(s, at, used, tree, factor_level()),
        ends(level, peek(s, at + used)),
    ensures
        reads(s, at, used, tree, level),
{
    reveal(reads);
    if level >= term_level() {
        assert(term(s, at) == after(used, term_rest(s, tree, at + used)));
        lemma_lift_term(s, at, used, tree, level);
    }
}

/// The same, from the beginning of a term.
proof fn lemma_lift_term(s: Seq<char>, at: nat, used: nat, tree: Tree, level: nat)
    requires
        term_level() <= level <= expression_level(),
        reads(s, at, used, tree, term_level()),
        ends(level, peek(s, at + used)),
    ensures
        reads(s, at, used, tree, level),
{
    reveal(reads);
    if level == expression_level() {
        assert(term_rest(s, tree, at + used) == Ok::<(Tree, nat), Seq<char>>((tree, 0)));
        assert(term(s, at) == Ok::<(Tree, nat), Seq<char>>((tree, used)));
    }
}

/// A group: an expression between parentheses reads as a primary.
proof fn lemma_group(s: Seq<char>, at: nat, inner: nat, tree: Tree)
    requires
        peek(s, at) == Some('('),
        reads(s, at + 1, inner, tree, expression_level()),
        peek(s, at + 1 + inner) == Some(')'),
    ensures
        reads(s, at, inner + 2, tree, primary_level()),
{
    reveal(reads);
    assert(expression_rest(s, tree, at + 1 + inner) == Ok::<(Tree, nat), Seq<char>>((tree, 0)));
    assert(expression(s, at + 1) == Ok::<(Tree, nat), Seq<char>>((tree, inner)));
    assert(primary(s, at) == Ok::<(Tree, nat), Seq<char>>((tree, inner + 2)));
}

/// A literal reads as a number.
proof fn lemma_literal(s: Seq<char>, at: nat, digits: Seq<char>)
    requires
        is_literal(digits),
        stands(s, at, digits),
        ends(primary_level(), peek(s, at + digits.len())),
    ensures
        reads(s, at, digits.len(), Tree::Number(digits), primary_level()),
{
    reveal(reads);
    assert forall|i: int| at <= i < at + digits.len() implies is_number_char(#[trigger] s[i]) by {
        assert(s[i] == piece(s, at, digits.len())[i - at]);
    }
    lemma_number_run_exact(s, at, digits.len());
    assert(digits.len() > 0);
    assert(s[at as int] == digits[0]);
    assert(primary(s, at) == Ok::<(Tree, nat), Seq<char>>((Tree::Number(digits), digits.len())));
}

/// A power: a primary, a `^` and a factor read as a factor.
proof fn lemma_power(s: Seq<char>, at: nat, a: nat, b: nat, left: Tree, right: Tree)
    requires
        reads(s, at, a, left, primary_level()),
        peek(s, at + a) == Some('^'),
        reads(s, at + a + 1, b, right, factor_level()),
    ensures
        reads(s, at, a + 1 + b, Tree::Pow(Box::new(left), Box::new(right)), factor_level()),
{
    reveal(reads);
    let tree = Tree::Pow(Box::new(left), Box::new(right));
    assert(factor(s, at) == Ok::<(Tree, nat), Seq<char>>((tree, a + 1 + b)));
}

/// One more factor: behind what `left` stands for, a `*` or a `/` and a
/// factor make the rest of the term go on from their node.
proof fn lemma_term_rest_step(s: Seq<char>, at: nat, b: nat, op: char, left: Tree, right: Tree)
    requires
        op == '*' || op == '/',
        peek(s, at) == Some(op),
        factor(s, at + 1) == Ok::<(Tree, nat), Seq<char>>((right, b)),
    ensures
        term_rest(s, left, at) == after(
            1 + b,
            term_rest(s, binary(op, left, right), at + 1 + b),
        ),
{
}

/// One more term, in the same way.
proof fn lemma_expression_rest_step(
    s: Seq<char>,
    at: nat,
    b: nat,
    op: char,
    left: Tree,
    right: Tree,
)
    requires
        op == '+' || op == '-',
        peek(s, at) == Some(op),
        term(s, at + 1) == Ok::<(Tree, nat), Seq<char>>((right, b)),
    ensures
        expression_rest(s, left, at) == after(
            1 + b,
            expression_rest(s, binary(op, left, right), at + 1 + b),
        ),
{
}

/// Counting from further back twice is counting from the sum.
proof fn lemma_after_after(a: nat, b: nat, rest: Parsed)
    ensures
        after(a, after(b, rest)) == after(a + b, rest),
{
}

proof fn lemma_of_factor(s: Seq<char>, at: nat, used: nat, tree: Tree)
    ensures
        reads(s, at, used, tree, factor_level()) == (factor(s, at) == Ok::<
            (Tree, nat),
            Seq<char>,
        >((tree, used))),
{
    reveal(reads);
}

proof fn lemma_of_term(s: Seq<char>, at: nat, used: nat, tree: Tree)
    ensures
        reads(s, at, used, tree, term_level()) == (term(s, at) == after(
            used,
            term_rest(s, tree, at + used),
        )),
{
    reveal(reads);
}

proof fn lemma_of_expression(s: Seq<char>, at: nat, used: nat, tree: Tree)
    ensures
        reads(s, at, used, tree, expression_level()) == (expression(s, at) == after(
            used,
            expression_rest(s, tree, at + used),
        )),
{
    reveal(reads);
}

/// A term that ends where it was read to is read whole.
proof fn lemma_term_alone(s: Seq<char>, at: nat, used: nat, tree: Tree)
    requires
        reads(s, at, used, tree, term_level()),
        ends(expression_level(), peek(s, at + used)),
    ensures
        term(s, at) == Ok::<(Tree, nat), Seq<char>>((tree, used)),
{
    lemma_of_term(s, at, used, tree);
    assert(term_rest(s, tree, at + used) == Ok::<(Tree, nat), Seq<char>>((tree, 0)));
}

/// A product: the beginning of a term, a `*` or a `/` and a factor read as
/// the beginning of a term.
proof fn lemma_product(s: Seq<char>, at: nat, a: nat, b: nat, op: char, left: Tree, right: Tree)
    requires
        op == '*' || op == '/',
        reads(s, at, a, left, term_level()),
        peek(s, at + a) == Some(op),
        reads(s, at + a + 1, b, right, factor_level()),
    ensures
        reads(s, at, a + 1 + b, binary(op, left, right), term_level()),
{
    let tree = binary(op, left, right);
    lemma_of_term(s, at, a, left);
    lemma_of_factor(s, at + a + 1, b, right);
    lemma_term_rest_step(s, at + a, b, op, left, right);
    lemma_after_after(a, 1 + b, term_rest(s, tree, at + a + 1 + b));
    lemma_of_term(s, at, a + 1 + b, tree);
}

/// A sum: the beginning of an expression, a `+` or a `-` and a term that
/// ends there read as the beginning of an expression.
proof fn lemma_sum(s: Seq<char>, at: nat, a: nat, b: nat, op: char, left: Tree, right: Tree)
    requires
        op == '+' || op == '-',
        reads(s, at, a, left, expression_level()),
        peek(s, at + a) == Some(op),
        reads(s, at + a + 1, b, right, term_level()),
        ends(expression_level(), peek(s, at + a + 1 + b)),
    ensures
        reads(s, at, a + 1 + b, binary(op, left, right), expression_level()),
{
    let tree = binary(op, left, right);
    lemma_of_expression(s, at, a, left);
    lemma_term_alone(s, at + a + 1, b, right);
    lemma_expression_rest_step(s, at + a, b, op, left, right);
    lemma_after_after(a, 1 + b, expression_rest(s, tree, at + a + 1 + b));
    lemma_of_expression(s, at, a + 1 + b, tree);
}

/// The text of an operator between its operands, taken apart.
proof fn lemma_stands_operator(s: Seq<char>, at: nat, head: Seq<char>, op: char, last: Seq<char>)
    requires
        stands(s, at, head + seq![op] + last),
    ensures
        stands(s, at, head),
        peek(s, at + head.len()) == Some(op),
        stands(s, at + head.len() + 1, last),
        (head + seq![op] + last).len() == head.len() + 1 + last.len(),
{
    lemma_stands_split(s, at, head + seq![op], last);
    lemma_stands_split(s, at, head, seq![op]);
    lemma_stands_char(s, at + head.len(), op);
}

/// The heart of the matter: where the text of an arithmetic tree stands,
/// followed by a character that ends the level it was written for, the
/// grammar reads that tree at that level.
pub proof fn lemma_reads_render(s: Seq<char>, at: nat, tree: Tree, level: nat)
    requires
        tree.arithmetic(),
        level <= expression_level(),
        stands(s, at, render(tree, level)),
        ends(level, peek(s, at + render(tree, level).len())),
    ensures
        reads(s, at, render(tree, level).len(), tree, level),
    decreases tree, (if tree.level() > level {
        1nat
    } else {
        0nat
    }),
{
    if tree.level() > level {
        let inner = render(tree, expression_level());
        assert(Seq::<char>::empty() + seq!['('] + (inner + seq![')']) =~= render(tree, level));
        lemma_stands_operator(s, at, Seq::<char>::empty(), '(', inner + seq![')']);
        lemma_stands_split(s, at + 1, inner, seq![')']);
        lemma_stands_char(s, at + 1 + inner.len(), ')');
        lemma_reads_render(s, at + 1, tree, expression_level());
        lemma_group(s, at, inner.len(), tree);
        lemma_lift_primary(s, at, inner.len() + 2, tree, level);
    } else {
        match tree {
            Tree::Number(digits) => {
                lemma_literal(s, at, digits);
                lemma_lift_primary(s, at, digits.len(), tree, level);
            },
            Tree::Pow(left, right) => {
                let head = render(*left, primary_level());
                let last = render(*right, factor_level());
                lemma_stands_operator(s, at, head, '^', last);
                lemma_reads_render(s, at, *left, primary_level());
                lemma_reads_render(s, at + head.len() + 1, *right, factor_level());
                lemma_power(s, at, head.len(), last.len(), *left, *right);
                lemma_lift_factor(s, at, head.len() + 1 + last.len(), tree, level);
            },
            Tree::Multiply(left, right) => {
                let head = render(*left, term_level());
                let last = render(*right, factor_level());
                lemma_stands_operator(s, at, head, '*', last);
                lemma_reads_render(s, at, *left, term_level());
                lemma_reads_render(s, at + head.len() + 1, *right, factor_level());
                lemma_product(s, at, head.len(), last.len(), '*', *left, *right);
                lemma_lift_term(s, at, head.len() + 1 + last.len(), tree, level);
            },
            Tree::Divide(left, right) => {
                let head = render(*left, term_level());
                let last = render(*right, factor_level());
                lemma_stands_operator(s, at, head, '/', last);
                lemma_reads_render(s, at, *left, term_level());
                lemma_reads_render(s, at + head.len() + 1, *right, factor_level());
                lemma_product(s, at, head.len(), last.len(), '/', *left, *right);
                lemma_lift_term(s, at, head.len() + 1 + last.len(), tree, level);
            },
            Tree::Add(left, right) => {
                let head = render(*left, expression_level());
                let last = render(*right, term_level());
                lemma_stands_operator(s, at, head, '+', last);
                lemma_reads_render(s, at, *left, expression_level());
                lemma_reads_render(s, at + head.len() + 1, *right, term_level());
                lemma_sum(s, at, head.len(), last.len(), '+', *left, *right);
            },
            Tree::Subtract(left, right) => {
                let head = render(*left, expression_level());
                let last = render(*right, term_level());
                lemma_stands_operator(s, at, head, '-', last);
                lemma_reads_render(s, at, *left, expression_level());
                lemma_reads_render(s, at + head.len() + 1, *right, term_level());
                lemma_sum(s, at, head.len(), last.len(), '-', *left, *right);
            },
            Tree::Func(_, _) => {},
            Tree::Consts(_) => {},
        }
    }
}

/// Parsing the text of an arithmetic tree gives that tree again, and takes
/// the whole text.
pub proof fn lemma_parse_render(tree: Tree)
    requires
        tree.arithmetic(),
    ensures
        expression(render(tree, expression_level()), 0) == Ok::<(Tree, nat), Seq<char>>(
            (tree, render(tree, expression_level()).len()),
        ),
        parse(render(tree, expression_level())) == Ok::<Tree, Seq<char>>(tree),
{
    let text = render(tree, expression_level());
    assert(text.subrange(0, text.len() as int) =~= text);
    lemma_reads_render(text, 0, tree, expression_level());
    reveal(reads);
}

} // verus!
