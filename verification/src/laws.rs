//! Laws of the grammar: what holds of every text, proved from the
//! definitions.

use vstd::prelude::*;
use crate::ast::{is_literal, Tree};
use crate::chars::{delete_spaces, is_number_char};
use crate::render::{
    expression_level, factor_level, power_text, power_tree, primary_level, render, term_level,
    Product, Sum,
};
use crate::round_trip::lemma_parse_render;
use crate::grammar::{
    binary, expression, expression_rest, factor, function_call, name_run, number_run, parse,
    peek, primary, read, remaining, term, term_rest, Parsed,
};

verus! {

/// `outcome`, if it is a success, gives a tree whose literals are all
/// numeric literals, and has taken no more characters than the text holds
/// from `at` on.
pub open spec fn sound(s: Seq<char>, at: nat, outcome: Parsed) -> bool {
    outcome matches Ok((tree, used)) ==> tree.wf() && at + used <= s.len()
}

/// A run of digits and points ends inside the text.
pub proof fn lemma_number_run_in_range(s: Seq<char>, at: nat)
    requires
        at <= s.len(),
    ensures
        at + number_run(s, at) <= s.len(),
    decreases remaining(s, at),
{
    if at < s.len() && is_number_char(s[at as int]) {
        lemma_number_run_in_range(s, at + 1);
    }
}

/// A run of alphabetic characters ends inside the text.
pub proof fn lemma_name_run_in_range(s: Seq<char>, at: nat)
    requires
        at <= s.len(),
    ensures
        at + name_run(s, at) <= s.len(),
    decreases remaining(s, at),
{
    if at < s.len() && crate::chars::is_alphabetic_char(s[at as int]) {
        lemma_name_run_in_range(s, at + 1);
    }
}

proof fn lemma_function_call_sound(s: Seq<char>, at: nat)
    requires
        at <= s.len(),
    ensures
        sound(s, at, function_call(s, at)),
    decreases remaining(s, at), 1nat,
{
    lemma_name_run_in_range(s, at);
    let run = name_run(s, at);
    let gap: nat = if peek(s, at + run) == Some(' ') {
        1
    } else {
        0
    };
    let head = run + gap + 1;
    if peek(s, at + run + gap) == Some('(') {
        lemma_expression_sound(s, at + head);
    }
}

proof fn lemma_primary_sound(s: Seq<char>, at: nat)
    requires
        at <= s.len(),
    ensures
        sound(s, at, primary(s, at)),
    decreases remaining(s, at), 2nat,
{
    if at < s.len() {
        let c = s[at as int];
        if c == '(' {
            lemma_expression_sound(s, at + 1);
        } else if is_number_char(c) {
            lemma_number_run_in_range(s, at);
        } else {
            lemma_function_call_sound(s, at);
        }
    }
}

proof fn lemma_factor_sound(s: Seq<char>, at: nat)
    requires
        at <= s.len(),
    ensures
        sound(s, at, factor(s, at)),
    decreases remaining(s, at), 3nat,
{
    lemma_primary_sound(s, at);
    if let Ok((base, used)) = primary(s, at) {
        if peek(s, at + used) == Some('^') {
            lemma_factor_sound(s, at + used + 1);
        }
    }
}

proof fn lemma_term_rest_sound(s: Seq<char>, left: Tree, at: nat)
    requires
        at <= s.len(),
        left.wf(),
    ensures
        sound(s, at, term_rest(s, left, at)),
    decreases remaining(s, at), 4nat,
{
    if at < s.len() && (s[at as int] == '*' || s[at as int] == '/') {
        lemma_factor_sound(s, at + 1);
        if let Ok((right, used)) = factor(s, at + 1) {
            lemma_term_rest_sound(s, binary(s[at as int], left, right), at + 1 + used);
        }
    }
}

proof fn lemma_term_sound(s: Seq<char>, at: nat)
    requires
        at <= s.len(),
    ensures
        sound(s, at, term(s, at)),
    decreases remaining(s, at), 5nat,
{
    lemma_factor_sound(s, at);
    if let Ok((left, used)) = factor(s, at) {
        lemma_term_rest_sound(s, left, at + used);
    }
}

proof fn lemma_expression_rest_sound(s: Seq<char>, left: Tree, at: nat)
    requires
        at <= s.len(),
        left.wf(),
    ensures
        sound(s, at, expression_rest(s, left, at)),
    decreases remaining(s, at), 6nat,
{
    if at < s.len() && (s[at as int] == '+' || s[at as int] == '-') {
        lemma_term_sound(s, at + 1);
        if let Ok((right, used)) = term(s, at + 1) {
            lemma_expression_rest_sound(s, binary(s[at as int], left, right), at + 1 + used);
        }
    }
}

/// Whatever the grammar reads as an expression lies inside the text, and
/// every literal of its tree is a numeric literal.
pub proof fn lemma_expression_sound(s: Seq<char>, at: nat)
    requires
        at <= s.len(),
    ensures
        sound(s, at, expression(s, at)),
    decreases remaining(s, at), 7nat,
{
    lemma_term_sound(s, at);
    if let Ok((left, used)) = term(s, at) {
        lemma_expression_rest_sound(s, left, at + used);
    }
}

/// Every tree that parsing gives is well formed.
pub proof fn lemma_parse_well_formed(input: Seq<char>)
    ensures
        parse(input) matches Ok(tree) ==> tree.wf(),
{
    lemma_expression_sound(input, 0);
}

/// Texts that differ only in their spaces read alike.
pub proof fn lemma_spaces_do_not_matter(a: Seq<char>, b: Seq<char>)
    requires
        delete_spaces(a) == delete_spaces(b),
    ensures
        read(a) == read(b),
{
}

/// A space put in anywhere in a text changes nothing of what is read.
pub proof fn lemma_inserted_space(text: Seq<char>, i: int)
    requires
        0 <= i <= text.len(),
    ensures
        delete_spaces(text.insert(i, ' ')) == delete_spaces(text),
        read(text.insert(i, ' ')) == read(text),
{
    let keep = |c: char| c != ' ';
    let space = seq![' '];
    assert(text.insert(i, ' ') =~= text.take(i) + space + text.skip(i));
    assert(text =~= text.take(i) + text.skip(i));
    Seq::filter_distributes_over_add(text.take(i) + space, text.skip(i), keep);
    Seq::filter_distributes_over_add(text.take(i), space, keep);
    Seq::filter_distributes_over_add(text.take(i), text.skip(i), keep);
    assert(space.filter(keep) =~= Seq::<char>::empty()) by {
        reveal_with_fuel(Seq::filter, 2);
        assert(space.drop_last() =~= Seq::<char>::empty());
    }
    assert(text.take(i).filter(keep) + space.filter(keep) =~= text.take(i).filter(keep));
}

/// No character of `text` is a space.
pub open spec fn spaceless(text: Seq<char>) -> bool {
    forall|i: int| 0 <= i < text.len() ==> #[trigger] text[i] != ' '
}

/// From a text without spaces nothing is deleted.
pub proof fn lemma_nothing_to_delete(text: Seq<char>)
    requires
        spaceless(text),
    ensures
        delete_spaces(text) == text,
    decreases text.len(),
{
    reveal(Seq::filter);
    if text.len() > 0 {
        lemma_nothing_to_delete(text.drop_last());
        assert(text.drop_last().push(text.last()) =~= text);
    }
}

proof fn lemma_rendered_is_spaceless(tree: Tree, level: nat)
    requires
        tree.arithmetic(),
    ensures
        spaceless(render(tree, level)),
    decreases tree, (if tree.level() > level {
        1nat
    } else {
        0nat
    }),
{
    if tree.level() > level {
        lemma_rendered_is_spaceless(tree, expression_level());
    } else {
        match tree {
            Tree::Add(left, right) => {
                lemma_rendered_is_spaceless(*left, expression_level());
                lemma_rendered_is_spaceless(*right, term_level());
            },
            Tree::Subtract(left, right) => {
                lemma_rendered_is_spaceless(*left, expression_level());
                lemma_rendered_is_spaceless(*right, term_level());
            },
            Tree::Multiply(left, right) => {
                lemma_rendered_is_spaceless(*left, term_level());
                lemma_rendered_is_spaceless(*right, factor_level());
            },
            Tree::Divide(left, right) => {
                lemma_rendered_is_spaceless(*left, term_level());
                lemma_rendered_is_spaceless(*right, factor_level());
            },
            Tree::Pow(left, right) => {
                lemma_rendered_is_spaceless(*left, primary_level());
                lemma_rendered_is_spaceless(*right, factor_level());
            },
            _ => {},
        }
    }
}

/// Reading the text of an arithmetic tree gives that tree again.
pub proof fn lemma_read_render(tree: Tree)
    requires
        tree.arithmetic(),
    ensures
        read(render(tree, expression_level())) == Ok::<Tree, Seq<char>>(tree),
{
    lemma_rendered_is_spaceless(tree, expression_level());
    lemma_nothing_to_delete(render(tree, expression_level()));
    lemma_parse_render(tree);
}

proof fn lemma_product_render(product: Product)
    requires
        product.wf(),
    ensures
        product.tree().arithmetic(),
        product.tree().level() <= term_level(),
        render(product.tree(), term_level()) == product.text(),
        render(product.tree(), expression_level()) == product.text(),
    decreases product.rest.len(),
{
    reveal_with_fuel(Tree::arithmetic, 2);
    if product.rest.len() > 0 {
        assert(product.front().wf());
        lemma_product_render(product.front());
        let (op, last) = product.rest.last();
        assert(render(Tree::Number(last), factor_level()) == last);
    }
}

proof fn lemma_sum_render(sum: Sum)
    requires
        sum.wf(),
    ensures
        sum.tree().arithmetic(),
        render(sum.tree(), expression_level()) == sum.text(),
    decreases sum.rest.len(),
{
    if sum.rest.len() == 0 {
        lemma_product_render(sum.first);
    } else {
        assert(sum.front().wf());
        lemma_sum_render(sum.front());
        lemma_product_render(sum.rest.last().1);
    }
}

/// Precedence and direction of the four operations: a text made of literals
/// and of `+ - * /` is read as arithmetic takes it, every product first and
/// each chain of operators from the left.
pub proof fn lemma_sum_of_products(sum: Sum)
    requires
        sum.wf(),
    ensures
        parse(sum.text()) == Ok::<Tree, Seq<char>>(sum.tree()),
        read(sum.text()) == Ok::<Tree, Seq<char>>(sum.tree()),
{
    lemma_sum_render(sum);
    lemma_parse_render(sum.tree());
    lemma_read_render(sum.tree());
}

proof fn lemma_power_render(operands: Seq<Seq<char>>)
    requires
        operands.len() >= 1,
        forall|i: int| 0 <= i < operands.len() ==> is_literal(#[trigger] operands[i]),
    ensures
        power_tree(operands).arithmetic(),
        power_tree(operands).level() <= factor_level(),
        render(power_tree(operands), factor_level()) == power_text(operands),
        render(power_tree(operands), expression_level()) == power_text(operands),
    decreases operands.len(),
{
    reveal_with_fuel(Tree::arithmetic, 2);
    if operands.len() > 1 {
        let rest = operands.drop_first();
        assert forall|i: int| 0 <= i < rest.len() implies is_literal(#[trigger] rest[i]) by {
            assert(rest[i] == operands[i + 1]);
        }
        lemma_power_render(rest);
        assert(render(Tree::Number(operands.first()), primary_level()) == operands.first());
    }
}

/// Powers group to the right: in a text of literals joined by `^`, each
/// literal is raised to all that stands behind it.
pub proof fn lemma_powers_group_to_the_right(operands: Seq<Seq<char>>)
    requires
        operands.len() >= 1,
        forall|i: int| 0 <= i < operands.len() ==> is_literal(#[trigger] operands[i]),
    ensures
        parse(power_text(operands)) == Ok::<Tree, Seq<char>>(power_tree(operands)),
        read(power_text(operands)) == Ok::<Tree, Seq<char>>(power_tree(operands)),
{
    lemma_power_render(operands);
    lemma_parse_render(power_tree(operands));
    lemma_read_render(power_tree(operands));
}

/// Parentheses override precedence: with a sum in parentheses before a `*`
/// or a `/`, the sum as a whole is the left operand; without them, the
/// product is made first and is the right operand of the sum.
pub proof fn lemma_grouping_overrides_precedence(
    a: Seq<char>,
    b: Seq<char>,
    c: Seq<char>,
    plus: char,
    times: char,
)
    requires
        is_literal(a),
        is_literal(b),
        is_literal(c),
        plus == '+' || plus == '-',
        times == '*' || times == '/',
    ensures
        parse(seq!['('] + a + seq![plus] + b + seq![')'] + seq![times] + c) == Ok::<
            Tree,
            Seq<char>,
        >(binary(times, binary(plus, Tree::Number(a), Tree::Number(b)), Tree::Number(c))),
        parse(a + seq![plus] + b + seq![times] + c) == Ok::<Tree, Seq<char>>(
            binary(plus, Tree::Number(a), binary(times, Tree::Number(b), Tree::Number(c))),
        ),
{
    reveal_with_fuel(Tree::arithmetic, 3);
    let sum = binary(plus, Tree::Number(a), Tree::Number(b));
    let grouped = binary(times, sum, Tree::Number(c));
    let product = binary(times, Tree::Number(b), Tree::Number(c));
    let plain = binary(plus, Tree::Number(a), product);
    assert(render(Tree::Number(a), expression_level()) == a);
    assert(render(Tree::Number(b), term_level()) == b);
    assert(render(Tree::Number(c), factor_level()) == c);
    assert(render(sum, expression_level()) == a + seq![plus] + b);
    assert(render(sum, term_level()) == seq!['('] + (a + seq![plus] + b) + seq![')']);
    assert(render(grouped, expression_level()) =~= seq!['('] + a + seq![plus] + b + seq![')']
        + seq![times] + c);
    assert(render(product, term_level()) == b + seq![times] + c);
    assert(render(plain, expression_level()) =~= a + seq![plus] + b + seq![times] + c);
    lemma_parse_render(grouped);
    lemma_parse_render(plain);
}

} // verus!
