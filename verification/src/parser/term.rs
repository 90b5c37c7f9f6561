//! Terms: chains of multiplication and division.

use vstd::prelude::*;
use crate::lexer::{skip, Token};
use crate::parser::factor;
use crate::parser::factor::{
    binary_factor_operator_for_token, factor_model, BinaryFactor, Factor,
};
use crate::parser::grammar::{parse_chain, parse_level, Level};
use crate::parser::syntax::{chain, lemma_chain_push, Expr, Link};
use crate::parser::{agrees, ParseError, StackFrame};

verus! {

/// A factor, and the operators and factors that follow it.
#[derive(Debug, PartialEq, Eq)]
pub struct Term {
    pub factor: Factor,
    pub binary_factors: Vec<BinaryFactor>,
}

/// The operators of a term, each with the expression that the factor to
/// its right stands for.
pub open spec fn factor_links(rest: Seq<BinaryFactor>) -> Seq<Link>
    decreases rest,
{
    Seq::new(
        rest.len(),
        |i: int|
            if 0 <= i < rest.len() {
                (rest[i].operator@, factor_model(rest[i].right_factor))
            } else {
                arbitrary()
            },
    )
}

/// The expression that a term stands for.
pub open spec fn term_model(term: Term) -> Expr
    decreases term,
{
    chain(factor_model(term.factor), factor_links(term.binary_factors@))
}

impl View for Term {
    type V = Expr;

    open spec fn view(&self) -> Expr {
        term_model(*self)
    }
}

/// Reads a term from the front of `tokens`: a factor, then operators and
/// factors for as long as `*` or `/` follows.
pub fn parse<'a>(tokens: &'a [Token], stack_frame: &StackFrame) -> (r: Result<
    (Term, &'a [Token]),
    ParseError,
>)
    ensures
        agrees(r, parse_level(Level::Term, tokens@, stack_frame@.names())),
        r matches Ok((_, rest)) ==> rest@.len() < tokens@.len(),
    decreases tokens@.len(), 1nat, 2nat,
{
    let ghost names = stack_frame@.names();
    let (factor, first_leftover) = match factor::parse(tokens, stack_frame) {
        Ok(found) => found,
        Err(error) => return Err(error),
    };
    let mut leftover_tokens: &[Token] = first_leftover;
    let mut binary_factors: Vec<BinaryFactor> = Vec::new();
    loop
        invariant
            leftover_tokens@.len() < tokens@.len(),
            names == stack_frame@.names(),
            parse_level(Level::Term, tokens@, names) == parse_chain(
                Level::Term,
                chain(factor@, factor_links(binary_factors@)),
                leftover_tokens@,
                names,
            ),
        decreases leftover_tokens@.len(),
    {
        let operator = if leftover_tokens.len() > 0 {
            binary_factor_operator_for_token(&leftover_tokens[0])
        } else {
            None
        };
        match operator {
            None => {
                let tree = Term { factor, binary_factors };
                return Ok((tree, leftover_tokens));
            },
            Some(operator) => match factor::parse(skip(leftover_tokens, 1), stack_frame) {
                Ok((right_factor, rest)) => {
                    let joined = BinaryFactor { operator, right_factor };
                    proof {
                        let link = (joined.operator@, joined.right_factor@);
                        let links = factor_links(binary_factors@);
                        assert(factor_links(binary_factors@.push(joined)) =~= links.push(link));
                        lemma_chain_push(factor@, links, link);
                    }
                    binary_factors.push(joined);
                    leftover_tokens = rest;
                },
                Err(error) => return Err(error),
            },
        }
    }
}

} // verus!
