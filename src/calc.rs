use vstd::prelude::*;
use crate::lexer::{is_decimal, law_literals_are_decimal, lex, tokenize};
use crate::parser::{
    Expr, Tree, is_chain, is_sum, law_chain_parses_whole, parse_expr, parse_result, reading,
    sum_tree, tree_of,
};
use crate::token::{ExprError, Lexeme, Token, lexemes};

verus! {

/// What a text stands for: the tree of its lexemes, or the first error met
/// while tokenizing or parsing it.
pub open spec fn input_tree(s: Seq<char>) -> Result<Tree, ExprError> {
    match lex(s) {
        Ok(ls) => parse_result(ls),
        Err(e) => Err(e),
    }
}

/// Tokenizes an expression and parses its tokens.
pub fn expression_tree(expr: &str) -> (r: Result<Expr, ExprError>)
    ensures
        match r {
            Ok(e) => input_tree(expr@) == Ok::<Tree, ExprError>(tree_of(e)),
            Err(err) => input_tree(expr@) == Err::<Tree, ExprError>(err),
        },
{
    let tokens = match tokenize(expr) {
        Ok(t) => t,
        Err(e) => return Err(e),
    };
    parse_expr(&tokens)
}

/// A text of the form `N1 op N2 op N3 ...`, with decimal numbers and the four
/// operators, is read whole into the tree of the usual precedence and left
/// associativity; its literals are decimal numbers.
pub proof fn law_well_formed_text(s: Seq<char>)
    requires
        lex(s) is Ok,
        is_chain(lex(s)->Ok_0),
    ensures
        input_tree(s) == Ok::<Tree, ExprError>(sum_tree(lex(s)->Ok_0)),
        is_sum(sum_tree(lex(s)->Ok_0)),
        reading(sum_tree(lex(s)->Ok_0)) == lex(s)->Ok_0,
        forall|i: int|
            0 <= i < lex(s)->Ok_0.len() && (#[trigger] lex(s)->Ok_0[i]) is Number
                ==> is_decimal(lex(s)->Ok_0[i]->Number_0),
{
    law_chain_parses_whole(lex(s)->Ok_0);
    law_literals_are_decimal(s);
}

/// Tokenizing and parsing keep no state between calls: any two token
/// sequences that a text gives are the same lexemes, and parse the same way.
pub proof fn law_repeatable(s: Seq<char>, first: Seq<Token>, second: Seq<Token>)
    requires
        lex(s) == Ok::<Seq<Lexeme>, ExprError>(lexemes(first)),
        lex(s) == Ok::<Seq<Lexeme>, ExprError>(lexemes(second)),
    ensures
        lexemes(first) == lexemes(second),
        parse_result(lexemes(first)) == parse_result(lexemes(second)),
{
}

} // verus!
