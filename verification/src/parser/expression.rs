//! Expressions: their grammar over tokens, and the parser proved against it.
//!
//! Each production is picked by the token it starts with, and once picked it is
//! kept: where it fails, the expression fails, at the token that did not fit.
//! In the same way a separator, once read, must be followed by what it
//! separates.
//!
//! The `spec_` functions compare a position with the one they started from before
//! they go on. That only shows that their recursion ends: what has been read
//! always spans at least one token ([`lemma_expression_bounds`]).

use vstd::prelude::*;
use crate::ast::Expression;
use crate::ast::expression_views;
use crate::ast::ExpressionView;
use crate::ast::lemma_map_view;
use crate::ast::lemma_tuple_view;
use crate::ast::lemma_union_view;
use crate::ast::pair_views;
use crate::parser::util::hyphened_keyword;
use crate::parser::util::ident;
use crate::parser::util::ident_at;
use crate::parser::util::keyword;
use crate::parser::util::keyword_at;
use crate::parser::util::lemma_prepend_push;
use crate::parser::util::outcome;
use crate::parser::util::Parsed;
use crate::parser::util::predicate_map;
use crate::parser::util::prepend;
use crate::parser::util::string_literal;
use crate::parser::util::string_literal_at;
use crate::parser::util::SyntaxError;
use crate::parser::util::template_literal;
use crate::parser::util::template_literal_at;
use crate::parser::util::token;
use crate::parser::util::token_at;
use crate::scan::same_text;
use crate::tokenizer::TemplateItem;
use crate::tokenizer::Token;
use crate::tokenizer::token_views;
use crate::tokenizer::TokenView;

verus! {

/// The expression that starts at `pos`: a `distribute` form, an `if-match` form,
/// or else a union.
pub open spec fn spec_expression(tokens: Seq<TokenView>, pos: int) -> Parsed<ExpressionView>
    decreases tokens.len() - pos, 6int,
{
    if keyword_at(tokens, pos, "distribute"@) {
        spec_distribute(tokens, pos)
    } else if token_at(tokens, pos, TokenView::HyphenedKeyword("if"@, "match"@)) {
        spec_ifmatch(tokens, pos)
    } else {
        spec_union(tokens, pos)
    }
}

/// `distribute`, an identifier, `in`, an expression.
pub open spec fn spec_distribute(tokens: Seq<TokenView>, pos: int) -> Parsed<ExpressionView>
    decreases tokens.len() - pos, 5int,
{
    if !keyword_at(tokens, pos, "distribute"@) {
        Parsed::Failed(pos)
    } else if ident_at(tokens, pos + 1) is None {
        Parsed::Failed(pos + 1)
    } else if !keyword_at(tokens, pos + 2, "in"@) {
        Parsed::Failed(pos + 2)
    } else {
        match spec_expression(tokens, pos + 3) {
            Parsed::Done(body, next) => Parsed::Done(
                ExpressionView::Distribute {
                    ident: ident_at(tokens, pos + 1)->0,
                    body: Box::new(body),
                },
                next,
            ),
            Parsed::Failed(at) => Parsed::Failed(at),
        }
    }
}

/// `if-match`, an expression, `with`, a template literal, `then`, an expression,
/// `else`, an expression.
pub open spec fn spec_ifmatch(tokens: Seq<TokenView>, pos: int) -> Parsed<ExpressionView>
    decreases tokens.len() - pos, 5int,
{
    if !token_at(tokens, pos, TokenView::HyphenedKeyword("if"@, "match"@)) {
        Parsed::Failed(pos)
    } else {
        match spec_expression(tokens, pos + 1) {
            Parsed::Failed(at) => Parsed::Failed(at),
            Parsed::Done(target, with) => {
                if with <= pos || !keyword_at(tokens, with, "with"@) {
                    Parsed::Failed(with)
                } else if template_literal_at(tokens, with + 1) is None {
                    Parsed::Failed(with + 1)
                } else if !keyword_at(tokens, with + 2, "then"@) {
                    Parsed::Failed(with + 2)
                } else {
                    match spec_expression(tokens, with + 3) {
                        Parsed::Failed(at) => Parsed::Failed(at),
                        Parsed::Done(then_expr, otherwise) => {
                            if otherwise <= pos || !keyword_at(tokens, otherwise, "else"@) {
                                Parsed::Failed(otherwise)
                            } else {
                                match spec_expression(tokens, otherwise + 1) {
                                    Parsed::Failed(at) => Parsed::Failed(at),
                                    Parsed::Done(else_expr, next) => Parsed::Done(
                                        ExpressionView::IfMatch {
                                            target: Box::new(target),
                                            pattern: template_literal_at(tokens, with + 1)->0,
                                            then_expr: Box::new(then_expr),
                                            else_expr: Box::new(else_expr),
                                        },
                                        next,
                                    ),
                                }
                            }
                        },
                    }
                }
            },
        }
    }
}

/// A union: an optional `|`, then atomic expressions with a `|` between each two.
/// A union of one member is that member.
pub open spec fn spec_union(tokens: Seq<TokenView>, pos: int) -> Parsed<ExpressionView>
    decreases tokens.len() - pos, 5int,
{
    let first = if token_at(tokens, pos, TokenView::Bar) {
        pos + 1
    } else {
        pos
    };
    match spec_union_members(tokens, first) {
        Parsed::Done(members, next) => if members.len() == 1 {
            Parsed::Done(members[0], next)
        } else {
            Parsed::Done(ExpressionView::Union { exprs: members }, next)
        },
        Parsed::Failed(at) => Parsed::Failed(at),
    }
}

/// The members of a union from `pos` on: an atomic expression, and as long as a
/// `|` follows, another one after it.
pub open spec fn spec_union_members(tokens: Seq<TokenView>, pos: int) -> Parsed<
    Seq<ExpressionView>,
>
    decreases tokens.len() - pos, 4int,
{
    match spec_atomic_expression(tokens, pos) {
        Parsed::Failed(at) => Parsed::Failed(at),
        Parsed::Done(member, next) => if pos < next && token_at(tokens, next, TokenView::Bar) {
            prepend(seq![member], spec_union_members(tokens, next + 1))
        } else {
            Parsed::Done(seq![member], next)
        },
    }
}

/// The atomic expression that starts at `pos`. The forms in the order in which
/// they are tried: a string literal, a template literal, `true` or `false`, a
/// map, a tuple, an identifier.
pub open spec fn spec_atomic_expression(tokens: Seq<TokenView>, pos: int) -> Parsed<
    ExpressionView,
>
    decreases tokens.len() - pos, 3int,
{
    if string_literal_at(tokens, pos) is Some {
        Parsed::Done(
            ExpressionView::StringLiteral { value: string_literal_at(tokens, pos)->0 },
            pos + 1,
        )
    } else if template_literal_at(tokens, pos) is Some {
        Parsed::Done(
            ExpressionView::TemplateLiteral { items: template_literal_at(tokens, pos)->0 },
            pos + 1,
        )
    } else if keyword_at(tokens, pos, "true"@) {
        Parsed::Done(ExpressionView::BooleanLiteral { value: true }, pos + 1)
    } else if keyword_at(tokens, pos, "false"@) {
        Parsed::Done(ExpressionView::BooleanLiteral { value: false }, pos + 1)
    } else if token_at(tokens, pos, TokenView::OpenBrace) {
        spec_map(tokens, pos)
    } else if token_at(tokens, pos, TokenView::OpenBracket) {
        spec_tuple(tokens, pos)
    } else {
        match ident_at(tokens, pos) {
            Some(name) => Parsed::Done(ExpressionView::Var { name }, pos + 1),
            None => Parsed::Failed(pos),
        }
    }
}

/// A map: `{`, its entries, `}`.
pub open spec fn spec_map(tokens: Seq<TokenView>, pos: int) -> Parsed<ExpressionView>
    decreases tokens.len() - pos, 2int,
{
    if !token_at(tokens, pos, TokenView::OpenBrace) {
        Parsed::Failed(pos)
    } else {
        match spec_map_entries(tokens, pos + 1) {
            Parsed::Done(pairs, close) => Parsed::Done(
                ExpressionView::MapLiteral { pairs },
                close + 1,
            ),
            Parsed::Failed(at) => Parsed::Failed(at),
        }
    }
}

/// The entries of a map from `pos` up to the `}` that closes it, at which the
/// result's position stands. An entry is a string literal, `:`, an expression
/// and `;`.
pub open spec fn spec_map_entries(tokens: Seq<TokenView>, pos: int) -> Parsed<
    Seq<(Seq<char>, ExpressionView)>,
>
    decreases tokens.len() - pos, 1int,
{
    if token_at(tokens, pos, TokenView::CloseBrace) {
        Parsed::Done(Seq::empty(), pos)
    } else if string_literal_at(tokens, pos) is None {
        Parsed::Failed(pos)
    } else if !token_at(tokens, pos + 1, TokenView::Colon) {
        Parsed::Failed(pos + 1)
    } else {
        match spec_expression(tokens, pos + 2) {
            Parsed::Failed(at) => Parsed::Failed(at),
            Parsed::Done(value, end) => if end <= pos || !token_at(
                tokens,
                end,
                TokenView::SemiColon,
            ) {
                Parsed::Failed(end)
            } else {
                prepend(
                    seq![(string_literal_at(tokens, pos)->0, value)],
                    spec_map_entries(tokens, end + 1),
                )
            },
        }
    }
}

/// A tuple: `[`, expressions with a `,` between each two, `]`.
pub open spec fn spec_tuple(tokens: Seq<TokenView>, pos: int) -> Parsed<ExpressionView>
    decreases tokens.len() - pos, 2int,
{
    if !token_at(tokens, pos, TokenView::OpenBracket) {
        Parsed::Failed(pos)
    } else if token_at(tokens, pos + 1, TokenView::CloseBracket) {
        Parsed::Done(ExpressionView::Tuple { values: Seq::empty() }, pos + 2)
    } else {
        match spec_tuple_members(tokens, pos + 1) {
            Parsed::Done(values, close) => Parsed::Done(
                ExpressionView::Tuple { values },
                close + 1,
            ),
            Parsed::Failed(at) => Parsed::Failed(at),
        }
    }
}

/// The members of a tuple that has some, from `pos` up to the `]` that closes
/// it, at which the result's position stands.
pub open spec fn spec_tuple_members(tokens: Seq<TokenView>, pos: int) -> Parsed<
    Seq<ExpressionView>,
>
    decreases tokens.len() - pos, 7int,
{
    match spec_expression(tokens, pos) {
        Parsed::Failed(at) => Parsed::Failed(at),
        Parsed::Done(value, end) => if pos < end && token_at(tokens, end, TokenView::Comma) {
            prepend(seq![value], spec_tuple_members(tokens, end + 1))
        } else if token_at(tokens, end, TokenView::CloseBracket) {
            Parsed::Done(seq![value], end)
        } else {
            Parsed::Failed(end)
        },
    }
}

/// What is read from `pos` ends after `pos` and inside the sequence; a failure
/// lies at or after `pos`, at most at the end of the sequence.
pub open spec fn within<T>(tokens: Seq<TokenView>, pos: int, parsed: Parsed<T>) -> bool {
    match parsed {
        Parsed::Done(_, next) => pos < next <= tokens.len(),
        Parsed::Failed(at) => pos <= at <= tokens.len(),
    }
}

/// An expression spans at least one token and ends inside the sequence.
pub proof fn lemma_expression_bounds(tokens: Seq<TokenView>, pos: int)
    requires
        0 <= pos <= tokens.len(),
    ensures
        within(tokens, pos, spec_expression(tokens, pos)),
    decreases tokens.len() - pos, 6int,
{
    if keyword_at(tokens, pos, "distribute"@) {
        if keyword_at(tokens, pos + 2, "in"@) {
            lemma_expression_bounds(tokens, pos + 3);
        }
    } else if token_at(tokens, pos, TokenView::HyphenedKeyword("if"@, "match"@)) {
        lemma_expression_bounds(tokens, pos + 1);
        if let Parsed::Done(_, with) = spec_expression(tokens, pos + 1) {
            if keyword_at(tokens, with + 2, "then"@) {
                lemma_expression_bounds(tokens, with + 3);
                if let Parsed::Done(_, otherwise) = spec_expression(tokens, with + 3) {
                    if keyword_at(tokens, otherwise, "else"@) {
                        lemma_expression_bounds(tokens, otherwise + 1);
                    }
                }
            }
        }
    } else {
        lemma_union_bounds(tokens, pos);
    }
}

/// A union spans at least one token and ends inside the sequence.
pub proof fn lemma_union_bounds(tokens: Seq<TokenView>, pos: int)
    requires
        0 <= pos <= tokens.len(),
    ensures
        within(tokens, pos, spec_union(tokens, pos)),
    decreases tokens.len() - pos, 5int,
{
    if token_at(tokens, pos, TokenView::Bar) {
        lemma_union_members_bounds(tokens, pos + 1);
    } else {
        lemma_union_members_bounds(tokens, pos);
    }
}

/// The members of a union span at least one token, end inside the sequence,
/// and are at least one.
pub proof fn lemma_union_members_bounds(tokens: Seq<TokenView>, pos: int)
    requires
        0 <= pos <= tokens.len(),
    ensures
        within(tokens, pos, spec_union_members(tokens, pos)),
        match spec_union_members(tokens, pos) {
            Parsed::Done(members, _) => members.len() >= 1,
            Parsed::Failed(_) => true,
        },
    decreases tokens.len() - pos, 4int,
{
    lemma_atomic_expression_bounds(tokens, pos);
    if let Parsed::Done(_, next) = spec_atomic_expression(tokens, pos) {
        if token_at(tokens, next, TokenView::Bar) {
            lemma_union_members_bounds(tokens, next + 1);
        }
    }
}

/// An atomic expression spans at least one token and ends inside the sequence.
pub proof fn lemma_atomic_expression_bounds(tokens: Seq<TokenView>, pos: int)
    requires
        0 <= pos <= tokens.len(),
    ensures
        within(tokens, pos, spec_atomic_expression(tokens, pos)),
    decreases tokens.len() - pos, 3int,
{
    if token_at(tokens, pos, TokenView::OpenBrace) {
        lemma_map_entries_bounds(tokens, pos + 1);
    } else if token_at(tokens, pos, TokenView::OpenBracket) {
        if !token_at(tokens, pos + 1, TokenView::CloseBracket) {
            lemma_tuple_members_bounds(tokens, pos + 1);
        }
    }
}

/// The entries of a map end at its closing brace.
pub proof fn lemma_map_entries_bounds(tokens: Seq<TokenView>, pos: int)
    requires
        0 <= pos <= tokens.len(),
    ensures
        match spec_map_entries(tokens, pos) {
            Parsed::Done(_, close) => pos <= close && token_at(
                tokens,
                close,
                TokenView::CloseBrace,
            ),
            Parsed::Failed(at) => pos <= at <= tokens.len(),
        },
    decreases tokens.len() - pos, 1int,
{
    if !token_at(tokens, pos, TokenView::CloseBrace) && string_literal_at(tokens, pos) is Some
        && token_at(tokens, pos + 1, TokenView::Colon) {
        lemma_expression_bounds(tokens, pos + 2);
        if let Parsed::Done(_, end) = spec_expression(tokens, pos + 2) {
            if token_at(tokens, end, TokenView::SemiColon) {
                lemma_map_entries_bounds(tokens, end + 1);
            }
        }
    }
}

/// The members of a tuple end at its closing bracket, and are at least one.
pub proof fn lemma_tuple_members_bounds(tokens: Seq<TokenView>, pos: int)
    requires
        0 <= pos <= tokens.len(),
    ensures
        match spec_tuple_members(tokens, pos) {
            Parsed::Done(values, close) => pos < close && token_at(
                tokens,
                close,
                TokenView::CloseBracket,
            ) && values.len() >= 1,
            Parsed::Failed(at) => pos <= at <= tokens.len(),
        },
    decreases tokens.len() - pos, 7int,
{
    lemma_expression_bounds(tokens, pos);
    if let Parsed::Done(_, end) = spec_expression(tokens, pos) {
        if token_at(tokens, end, TokenView::Comma) {
            lemma_tuple_members_bounds(tokens, end + 1);
        }
    }
}

/// An `if-match` form needs each of its parts in order: where one is missing,
/// the expression fails at the token that stands in its place.
pub proof fn lemma_ifmatch_fails_at_missing_part(tokens: Seq<TokenView>, pos: int)
    requires
        token_at(tokens, pos, TokenView::HyphenedKeyword("if"@, "match"@)),
    ensures
        match spec_expression(tokens, pos + 1) {
            Parsed::Failed(at) => spec_expression(tokens, pos) == Parsed::<
                ExpressionView,
            >::Failed(at),
            Parsed::Done(_, with) => if !keyword_at(tokens, with, "with"@) {
                spec_expression(tokens, pos) == Parsed::<ExpressionView>::Failed(with)
            } else if template_literal_at(tokens, with + 1) is None {
                spec_expression(tokens, pos) == Parsed::<ExpressionView>::Failed(with + 1)
            } else if !keyword_at(tokens, with + 2, "then"@) {
                spec_expression(tokens, pos) == Parsed::<ExpressionView>::Failed(with + 2)
            } else {
                match spec_expression(tokens, with + 3) {
                    Parsed::Failed(at) => spec_expression(tokens, pos) == Parsed::<
                        ExpressionView,
                    >::Failed(at),
                    Parsed::Done(_, otherwise) => if !keyword_at(tokens, otherwise, "else"@) {
                        spec_expression(tokens, pos) == Parsed::<ExpressionView>::Failed(otherwise)
                    } else {
                        match spec_expression(tokens, otherwise + 1) {
                            Parsed::Failed(at) => spec_expression(tokens, pos) == Parsed::<
                                ExpressionView,
                            >::Failed(at),
                            Parsed::Done(_, _) => spec_expression(tokens, pos) is Done,
                        }
                    },
                }
            },
        },
{
    reveal_strlit("distribute");
    lemma_expression_bounds(tokens, pos + 1);
    if let Parsed::Done(_, with) = spec_expression(tokens, pos + 1) {
        if keyword_at(tokens, with + 2, "then"@) {
            lemma_expression_bounds(tokens, with + 3);
        }
    }
}

/// Parses one expression that starts at `pos`: the position after it, and the
/// expression; or the position of the token that does not fit.
pub fn parse_expression<'a, 'b>(tokens: &'a [Token<'b>], pos: usize) -> (result: Result<
    (usize, Expression<'b>),
    SyntaxError,
>)
    ensures
        outcome(result) == spec_expression(token_views(tokens@), pos as int),
    decreases tokens.len() - pos, 6int,
{
    if keyword("distribute", tokens, pos).is_ok() {
        parse_distribute(tokens, pos)
    } else if hyphened_keyword("if", "match", tokens, pos).is_ok() {
        parse_ifmatch(tokens, pos)
    } else {
        parse_union(tokens, pos)
    }
}

/// Parses a `distribute` form that starts at `pos`.
pub fn parse_distribute<'a, 'b>(tokens: &'a [Token<'b>], pos: usize) -> (result: Result<
    (usize, Expression<'b>),
    SyntaxError,
>)
    ensures
        outcome(result) == spec_distribute(token_views(tokens@), pos as int),
    decreases tokens.len() - pos, 5int,
{
    let (at, _) = keyword("distribute", tokens, pos)?;
    let (at, id) = ident(tokens, at)?;
    let (at, _) = keyword("in", tokens, at)?;
    let (next, body) = parse_expression(tokens, at)?;
    Ok((next, Expression::Distribute { ident: id, body: Box::new(body) }))
}

/// Parses an `if-match` form that starts at `pos`.
pub fn parse_ifmatch<'a, 'b>(tokens: &'a [Token<'b>], pos: usize) -> (result: Result<
    (usize, Expression<'b>),
    SyntaxError,
>)
    ensures
        outcome(result) == spec_ifmatch(token_views(tokens@), pos as int),
    decreases tokens.len() - pos, 5int,
{
    let ghost views = token_views(tokens@);
    let (start, _) = hyphened_keyword("if", "match", tokens, pos)?;
    let (with, target) = parse_expression(tokens, start)?;
    proof {
        lemma_expression_bounds(views, start as int);
    }
    let (at, _) = keyword("with", tokens, with)?;
    let (at, pattern) = template_literal(tokens, at)?;
    let (start, _) = keyword("then", tokens, at)?;
    let (otherwise, then_expr) = parse_expression(tokens, start)?;
    proof {
        lemma_expression_bounds(views, start as int);
    }
    let (start, _) = keyword("else", tokens, otherwise)?;
    let (next, else_expr) = parse_expression(tokens, start)?;
    Ok(
        (
            next,
            Expression::IfMatch {
                pattern: copy_items(pattern),
                target: Box::new(target),
                then_expr: Box::new(then_expr),
                else_expr: Box::new(else_expr),
            },
        ),
    )
}

/// Parses a union that starts at `pos`.
pub fn parse_union<'a, 'b>(tokens: &'a [Token<'b>], pos: usize) -> (result: Result<
    (usize, Expression<'b>),
    SyntaxError,
>)
    ensures
        outcome(result) == spec_union(token_views(tokens@), pos as int),
    decreases tokens.len() - pos, 5int,
{
    let first = match token(&Token::Bar, tokens, pos) {
        Ok((next, _)) => next,
        Err(_) => pos,
    };
    let mut exprs: Vec<Expression<'b>> = Vec::new();
    let mut at = first;
    let ghost views = token_views(tokens@);
    loop
        invariant_except_break
            spec_union_members(views, first as int) == prepend(
                expression_views(exprs@),
                spec_union_members(views, at as int),
            ),
        invariant
            views == token_views(tokens@),
            first == if token_at(views, pos as int, TokenView::Bar) {
                pos + 1
            } else {
                pos as int
            },
            at == pos || pos < at <= tokens.len(),
        ensures
            spec_union_members(views, first as int) == Parsed::Done(
                expression_views(exprs@),
                at as int,
            ),
            exprs.len() >= 1,
        decreases tokens.len() - at,
    {
        let (next, member) = parse_atomic_expression(tokens, at)?;
        let ghost before = expression_views(exprs@);
        proof {
            if at <= tokens.len() {
                lemma_atomic_expression_bounds(views, at as int);
            }
            assert(expression_views(exprs@.push(member)) =~= before.push(member@));
        }
        exprs.push(member);
        match token(&Token::Bar, tokens, next) {
            Ok((after, _)) => {
                proof {
                    lemma_prepend_push(before, member@, spec_union_members(views, after as int));
                }
                at = after;
            },
            Err(_) => {
                proof {
                    assert(before + seq![member@] =~= before.push(member@));
                }
                at = next;
                break;
            },
        }
    }
    if exprs.len() > 1 {
        proof {
            lemma_union_view(exprs);
        }
        Ok((at, Expression::Union { exprs }))
    } else {
        let member = exprs.pop().unwrap();
        Ok((at, member))
    }
}

/// Parses an atomic expression that starts at `pos`.
pub fn parse_atomic_expression<'a, 'b>(tokens: &'a [Token<'b>], pos: usize) -> (result: Result<
    (usize, Expression<'b>),
    SyntaxError,
>)
    ensures
        outcome(result) == spec_atomic_expression(token_views(tokens@), pos as int),
    decreases tokens.len() - pos, 3int,
{
    if let Ok(found) = parse_string_literal(tokens, pos) {
        Ok(found)
    } else if let Ok(found) = parse_template_literal(tokens, pos) {
        Ok(found)
    } else if let Ok(found) = parse_boolean_literal(tokens, pos) {
        Ok(found)
    } else if token(&Token::OpenBrace, tokens, pos).is_ok() {
        parse_map(tokens, pos)
    } else if token(&Token::OpenBracket, tokens, pos).is_ok() {
        parse_tuple(tokens, pos)
    } else {
        parse_ident(tokens, pos)
    }
}

/// Parses a string literal at `pos`.
pub fn parse_string_literal<'a, 'b>(tokens: &'a [Token<'b>], pos: usize) -> (result: Result<
    (usize, Expression<'b>),
    SyntaxError,
>)
    ensures
        outcome(result) == match string_literal_at(token_views(tokens@), pos as int) {
            Some(value) => Parsed::Done(ExpressionView::StringLiteral { value }, pos + 1),
            None => Parsed::Failed(pos as int),
        },
{
    let (next, value) = string_literal(tokens, pos)?;
    Ok((next, Expression::StringLiteral { value }))
}

/// Parses a template literal at `pos`.
pub fn parse_template_literal<'a, 'b>(tokens: &'a [Token<'b>], pos: usize) -> (result: Result<
    (usize, Expression<'b>),
    SyntaxError,
>)
    ensures
        outcome(result) == match template_literal_at(token_views(tokens@), pos as int) {
            Some(items) => Parsed::Done(ExpressionView::TemplateLiteral { items }, pos + 1),
            None => Parsed::Failed(pos as int),
        },
{
    let (next, items) = template_literal(tokens, pos)?;
    Ok((next, Expression::TemplateLiteral { items: copy_items(items) }))
}

/// Parses `true` or `false` at `pos`.
pub fn parse_boolean_literal<'a, 'b>(tokens: &'a [Token<'b>], pos: usize) -> (result: Result<
    (usize, Expression<'b>),
    SyntaxError,
>)
    ensures
        outcome(result) == if keyword_at(token_views(tokens@), pos as int, "true"@) {
            Parsed::Done(ExpressionView::BooleanLiteral { value: true }, pos + 1)
        } else if keyword_at(token_views(tokens@), pos as int, "false"@) {
            Parsed::Done(ExpressionView::BooleanLiteral { value: false }, pos + 1)
        } else {
            Parsed::Failed(pos as int)
        },
{
    let truth = |token: &'a Token<'b>| -> (value: Option<Expression<'b>>)
        ensures
            match value {
                Some(value) => if token@ == TokenView::Keyword("true"@) {
                    value@ == (ExpressionView::BooleanLiteral { value: true })
                } else {
                    token@ == TokenView::Keyword("false"@) && value@ == (
                    ExpressionView::BooleanLiteral { value: false })
                },
                None => token@ != TokenView::Keyword("true"@) && token@ != TokenView::Keyword(
                    "false"@,
                ),
            },
        {
            match token {
                Token::Keyword(word) => {
                    if same_text(word, "true") {
                        Some(Expression::BooleanLiteral { value: true })
                    } else if same_text(word, "false") {
                        Some(Expression::BooleanLiteral { value: false })
                    } else {
                        None
                    }
                },
                _ => None,
            }
        };
    predicate_map(truth, tokens, pos)
}

/// Parses a map that starts at `pos`.
pub fn parse_map<'a, 'b>(tokens: &'a [Token<'b>], pos: usize) -> (result: Result<
    (usize, Expression<'b>),
    SyntaxError,
>)
    ensures
        outcome(result) == spec_map(token_views(tokens@), pos as int),
    decreases tokens.len() - pos, 2int,
{
    let (first, _) = token(&Token::OpenBrace, tokens, pos)?;
    let mut pairs: Vec<(&'b str, Expression<'b>)> = Vec::new();
    let mut at = first;
    let ghost views = token_views(tokens@);
    loop
        invariant_except_break
            spec_map_entries(views, first as int) == prepend(
                pair_views(pairs@),
                spec_map_entries(views, at as int),
            ),
        invariant
            views == token_views(tokens@),
            token_at(views, pos as int, TokenView::OpenBrace),
            first == pos + 1,
            first <= at <= tokens.len(),
        ensures
            spec_map_entries(views, first as int) == Parsed::Done(pair_views(pairs@), at as int),
            at < tokens.len(),
        decreases tokens.len() - at,
    {
        if token(&Token::CloseBrace, tokens, at).is_ok() {
            break;
        }
        let (colon, key) = string_literal(tokens, at)?;
        let (start, _) = token(&Token::Colon, tokens, colon)?;
        let (end, value) = parse_expression(tokens, start)?;
        proof {
            lemma_expression_bounds(views, start as int);
        }
        let (after, _) = token(&Token::SemiColon, tokens, end)?;
        proof {
            lemma_prepend_push(
                pair_views(pairs@),
                (key@, value@),
                spec_map_entries(views, after as int),
            );
            assert(pair_views(pairs@.push((key, value))) =~= pair_views(pairs@).push(
                (key@, value@),
            ));
        }
        pairs.push((key, value));
        at = after;
    }
    proof {
        lemma_map_view(pairs);
    }
    Ok((at + 1, Expression::MapLiteral { pairs }))
}

/// Parses a tuple that starts at `pos`.
pub fn parse_tuple<'a, 'b>(tokens: &'a [Token<'b>], pos: usize) -> (result: Result<
    (usize, Expression<'b>),
    SyntaxError,
>)
    ensures
        outcome(result) == spec_tuple(token_views(tokens@), pos as int),
    decreases tokens.len() - pos, 2int,
{
    let (first, _) = token(&Token::OpenBracket, tokens, pos)?;
    let mut values: Vec<Expression<'b>> = Vec::new();
    if let Ok((next, _)) = token(&Token::CloseBracket, tokens, first) {
        proof {
            lemma_tuple_view(values);
            assert(expression_views(values@) =~= Seq::<ExpressionView>::empty());
        }
        return Ok((next, Expression::Tuple { values }));
    }
    let mut at = first;
    let ghost views = token_views(tokens@);
    loop
        invariant_except_break
            spec_tuple_members(views, first as int) == prepend(
                expression_views(values@),
                spec_tuple_members(views, at as int),
            ),
        invariant
            views == token_views(tokens@),
            token_at(views, pos as int, TokenView::OpenBracket),
            !token_at(views, pos + 1, TokenView::CloseBracket),
            first == pos + 1,
            first <= at <= tokens.len(),
        ensures
            spec_tuple_members(views, first as int) == Parsed::Done(
                expression_views(values@),
                at as int,
            ),
            at < tokens.len(),
        decreases tokens.len() - at,
    {
        let (end, value) = parse_expression(tokens, at)?;
        let ghost before = expression_views(values@);
        proof {
            lemma_expression_bounds(views, at as int);
            assert(expression_views(values@.push(value)) =~= before.push(value@));
        }
        values.push(value);
        match token(&Token::Comma, tokens, end) {
            Ok((after, _)) => {
                proof {
                    lemma_prepend_push(before, value@, spec_tuple_members(views, after as int));
                }
                at = after;
            },
            Err(_) => {
                let (_, _) = token(&Token::CloseBracket, tokens, end)?;
                proof {
                    assert(before + seq![value@] =~= before.push(value@));
                }
                at = end;
                break;
            },
        }
    }
    proof {
        lemma_tuple_view(values);
    }
    Ok((at + 1, Expression::Tuple { values }))
}

/// Parses an identifier at `pos` as a variable.
pub fn parse_ident<'a, 'b>(tokens: &'a [Token<'b>], pos: usize) -> (result: Result<
    (usize, Expression<'b>),
    SyntaxError,
>)
    ensures
        outcome(result) == match ident_at(token_views(tokens@), pos as int) {
            Some(name) => Parsed::Done(ExpressionView::Var { name }, pos + 1),
            None => Parsed::Failed(pos as int),
        },
{
    let (next, name) = ident(tokens, pos)?;
    Ok((next, Expression::Var { name }))
}

/// A copy of the items of a template.
pub fn copy_items<'b>(items: &Vec<TemplateItem<'b>>) -> (copy: Vec<TemplateItem<'b>>)
    ensures
        copy@ == items@,
{
    let mut copy: Vec<TemplateItem<'b>> = Vec::new();
    let mut i: usize = 0;
    while i < items.len()
        invariant
            i <= items.len(),
            copy@ == items@.take(i as int),
        decreases items.len() - i,
    {
        copy.push(items[i]);
        i += 1;
    }
    copy
}

} // verus!
