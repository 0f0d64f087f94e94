//! Syntax analysis: tokens to a program.
//!
//! A program is a sequence of statements that takes up the whole token
//! sequence. A statement is picked by the keyword it starts with and is kept
//! once picked, as the productions of expressions are.

use vstd::prelude::*;
use crate::ast::name_views;
use crate::ast::Program;
use crate::ast::Statement;
use crate::ast::statement_views;
use crate::ast::StatementView;
use crate::parser::expression::lemma_expression_bounds;
use crate::parser::expression::parse_expression;
use crate::parser::expression::spec_expression;
use crate::parser::expression::within;
use crate::parser::util::ident;
use crate::parser::util::ident_at;
use crate::parser::util::keyword;
use crate::parser::util::keyword_at;
use crate::parser::util::lemma_prepend_push;
use crate::parser::util::outcome;
use crate::parser::util::Parsed;
use crate::parser::util::prepend;
use crate::parser::util::SyntaxError;
use crate::parser::util::token;
use crate::parser::util::token_at;
use crate::tokenizer::Token;
use crate::tokenizer::token_views;
use crate::tokenizer::TokenView;

pub mod expression;
pub mod util;

verus! {

/// `let`, an identifier, `=`, an expression, `;`.
pub open spec fn spec_let_statement(tokens: Seq<TokenView>, pos: int) -> Parsed<StatementView> {
    if !keyword_at(tokens, pos, "let"@) {
        Parsed::Failed(pos)
    } else if ident_at(tokens, pos + 1) is None {
        Parsed::Failed(pos + 1)
    } else if !token_at(tokens, pos + 2, TokenView::Equal) {
        Parsed::Failed(pos + 2)
    } else {
        match spec_expression(tokens, pos + 3) {
            Parsed::Failed(at) => Parsed::Failed(at),
            Parsed::Done(value, end) => if token_at(tokens, end, TokenView::SemiColon) {
                Parsed::Done(
                    StatementView::Let { name: ident_at(tokens, pos + 1)->0, value },
                    end + 1,
                )
            } else {
                Parsed::Failed(end)
            },
        }
    }
}

/// The names of the identifiers that stand one after another from `pos` on.
pub open spec fn spec_idents(tokens: Seq<TokenView>, pos: int) -> Seq<Seq<char>>
    decreases tokens.len() - pos,
{
    match ident_at(tokens, pos) {
        Some(name) => seq![name] + spec_idents(tokens, pos + 1),
        None => Seq::empty(),
    }
}

/// `fn`, an identifier, one or more identifiers (as many as stand there), `=`,
/// an expression, `;`.
pub open spec fn spec_fn_statement(tokens: Seq<TokenView>, pos: int) -> Parsed<StatementView> {
    let args = spec_idents(tokens, pos + 2);
    let equal = pos + 2 + args.len();
    if !keyword_at(tokens, pos, "fn"@) {
        Parsed::Failed(pos)
    } else if ident_at(tokens, pos + 1) is None {
        Parsed::Failed(pos + 1)
    } else if args.len() == 0 {
        Parsed::Failed(pos + 2)
    } else if !token_at(tokens, equal, TokenView::Equal) {
        Parsed::Failed(equal)
    } else {
        match spec_expression(tokens, equal + 1) {
            Parsed::Failed(at) => Parsed::Failed(at),
            Parsed::Done(body, end) => if token_at(tokens, end, TokenView::SemiColon) {
                Parsed::Done(
                    StatementView::Fn { name: ident_at(tokens, pos + 1)->0, args, body },
                    end + 1,
                )
            } else {
                Parsed::Failed(end)
            },
        }
    }
}

/// The statement that starts at `pos`: a `let` statement, or else a `fn`
/// statement.
pub open spec fn spec_statement(tokens: Seq<TokenView>, pos: int) -> Parsed<StatementView> {
    if keyword_at(tokens, pos, "let"@) {
        spec_let_statement(tokens, pos)
    } else {
        spec_fn_statement(tokens, pos)
    }
}

/// The statements from `pos` up to the end of the sequence.
pub open spec fn spec_statements(tokens: Seq<TokenView>, pos: int) -> Parsed<Seq<StatementView>>
    decreases tokens.len() - pos,
{
    if pos >= tokens.len() {
        Parsed::Done(Seq::empty(), pos)
    } else {
        match spec_statement(tokens, pos) {
            Parsed::Failed(at) => Parsed::Failed(at),
            Parsed::Done(statement, next) => if pos < next {
                prepend(seq![statement], spec_statements(tokens, next))
            } else {
                Parsed::Failed(pos)
            },
        }
    }
}

/// The program that the token sequence holds, or the position of the token at
/// which it stops being one.
pub open spec fn spec_parse(tokens: Seq<TokenView>) -> Result<Seq<StatementView>, int> {
    match spec_statements(tokens, 0) {
        Parsed::Done(statements, _) => Ok(statements),
        Parsed::Failed(at) => Err(at),
    }
}

/// The identifiers from `pos` on lie inside the sequence.
pub proof fn lemma_idents_bounds(tokens: Seq<TokenView>, pos: int)
    requires
        0 <= pos <= tokens.len(),
    ensures
        pos + spec_idents(tokens, pos).len() <= tokens.len(),
        ident_at(tokens, pos + spec_idents(tokens, pos).len()) is None,
    decreases tokens.len() - pos,
{
    if ident_at(tokens, pos) is Some {
        lemma_idents_bounds(tokens, pos + 1);
    }
}

/// A statement spans at least one token and ends inside the sequence.
pub proof fn lemma_statement_bounds(tokens: Seq<TokenView>, pos: int)
    requires
        0 <= pos <= tokens.len(),
    ensures
        within(tokens, pos, spec_statement(tokens, pos)),
{
    if keyword_at(tokens, pos, "let"@) {
        if token_at(tokens, pos + 2, TokenView::Equal) {
            lemma_expression_bounds(tokens, pos + 3);
        }
    } else if keyword_at(tokens, pos, "fn"@) && ident_at(tokens, pos + 1) is Some {
        lemma_idents_bounds(tokens, pos + 2);
        let equal = pos + 2 + spec_idents(tokens, pos + 2).len();
        if token_at(tokens, equal, TokenView::Equal) {
            lemma_expression_bounds(tokens, equal + 1);
        }
    }
}

/// Statements that were parsed take up the sequence to its end: no token is
/// left over.
pub proof fn lemma_statements_take_all(tokens: Seq<TokenView>, pos: int)
    requires
        0 <= pos <= tokens.len(),
    ensures
        match spec_statements(tokens, pos) {
            Parsed::Done(_, next) => next == tokens.len(),
            Parsed::Failed(at) => pos <= at <= tokens.len(),
        },
    decreases tokens.len() - pos,
{
    if pos < tokens.len() {
        lemma_statement_bounds(tokens, pos);
        if let Parsed::Done(_, next) = spec_statement(tokens, pos) {
            lemma_statements_take_all(tokens, next);
        }
    }
}

/// Parses a `let` statement that starts at `pos`.
pub fn parse_let_statement<'a, 'b>(tokens: &'a [Token<'b>], pos: usize) -> (result: Result<
    (usize, Statement<'b>),
    SyntaxError,
>)
    ensures
        outcome(result) == spec_let_statement(token_views(tokens@), pos as int),
{
    let (at, _) = keyword("let", tokens, pos)?;
    let (at, name) = ident(tokens, at)?;
    let (start, _) = token(&Token::Equal, tokens, at)?;
    let (end, value) = parse_expression(tokens, start)?;
    let (next, _) = token(&Token::SemiColon, tokens, end)?;
    Ok((next, Statement::Let { name, value }))
}

/// Parses a `fn` statement that starts at `pos`.
pub fn parse_fn_statement<'a, 'b>(tokens: &'a [Token<'b>], pos: usize) -> (result: Result<
    (usize, Statement<'b>),
    SyntaxError,
>)
    ensures
        outcome(result) == spec_fn_statement(token_views(tokens@), pos as int),
{
    let ghost views = token_views(tokens@);
    let (at, _) = keyword("fn", tokens, pos)?;
    let (first, name) = ident(tokens, at)?;
    let mut args: Vec<&'b str> = Vec::new();
    let mut at = first;
    loop
        invariant_except_break
            spec_idents(views, first as int) == name_views(args@) + spec_idents(views, at as int),
        invariant
            views == token_views(tokens@),
            at == first + args.len(),
            at <= tokens.len(),
        ensures
            spec_idents(views, first as int) == name_views(args@),
        decreases tokens.len() - at,
    {
        match ident(tokens, at) {
            Ok((next, arg)) => {
                args.push(arg);
                at = next;
            },
            Err(_) => {
                break;
            },
        }
    }
    if args.len() == 0 {
        return Err(SyntaxError { position: at });
    }
    let (start, _) = token(&Token::Equal, tokens, at)?;
    let (end, body) = parse_expression(tokens, start)?;
    let (next, _) = token(&Token::SemiColon, tokens, end)?;
    Ok((next, Statement::Fn { name, args, body }))
}

/// Parses the statement that starts at `pos`.
pub fn parse_statement<'a, 'b>(tokens: &'a [Token<'b>], pos: usize) -> (result: Result<
    (usize, Statement<'b>),
    SyntaxError,
>)
    ensures
        outcome(result) == spec_statement(token_views(tokens@), pos as int),
{
    if keyword("let", tokens, pos).is_ok() {
        parse_let_statement(tokens, pos)
    } else {
        parse_fn_statement(tokens, pos)
    }
}

/// Turns a token sequence into a program.
///
/// The statements must take up the whole sequence. Where they do not, the error
/// holds the position of the token that fits no production of the statement it
/// stands in, or the length of the sequence where that statement is cut short.
pub fn parse<'a, 'b>(tokens: &'a [Token<'b>]) -> (result: Result<Program<'b>, SyntaxError>)
    ensures
        spec_parse(token_views(tokens@)) == match result {
            Ok(program) => Ok::<Seq<StatementView>, int>(statement_views(program@)),
            Err(error) => Err::<Seq<StatementView>, int>(error.position as int),
        },
        match result {
            Ok(program) => spec_statements(token_views(tokens@), 0) == Parsed::Done(
                statement_views(program@),
                tokens.len() as int,
            ),
            Err(error) => spec_statements(token_views(tokens@), 0) == Parsed::<
                Seq<StatementView>,
            >::Failed(error.position as int) && error.position <= tokens.len(),
        },
{
    let ghost views = token_views(tokens@);
    let mut program: Vec<Statement<'b>> = Vec::new();
    let mut at: usize = 0;
    while at < tokens.len()
        invariant
            views == token_views(tokens@),
            at <= tokens.len(),
            spec_statements(views, 0) == prepend(
                statement_views(program@),
                spec_statements(views, at as int),
            ),
        decreases tokens.len() - at,
    {
        proof {
            lemma_statement_bounds(views, at as int);
        }
        let (next, statement) = parse_statement(tokens, at)?;
        proof {
            lemma_prepend_push(
                statement_views(program@),
                statement@,
                spec_statements(views, next as int),
            );
            assert(statement_views(program@.push(statement)) =~= statement_views(program@).push(
                statement@,
            ));
        }
        program.push(statement);
        at = next;
    }
    Ok(program)
}

} // verus!
