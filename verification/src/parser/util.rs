//! Reading single tokens at a position of a token sequence.
//!
//! Each reader takes the tokens and a position. It returns the position after
//! what it read together with what it read, or a [`SyntaxError`] at the
//! position where it stood. A position at or beyond the end of the tokens is
//! allowed: nothing can be read there.

use vstd::prelude::*;
use crate::scan::same_text;
use crate::scan::skip_whitespace;
use crate::scan::trim_start;
use crate::tokenizer::template_views;
use crate::tokenizer::TemplateItem;
use crate::tokenizer::TemplateItemView;
use crate::tokenizer::Token;
use crate::tokenizer::token_views;
use crate::tokenizer::TokenView;

verus! {

/// Why a token sequence is no program: `position` is the index of the token
/// that no production could take, or the length of the sequence where it ends
/// too early.
#[derive(Debug, PartialEq, Eq, Copy, Clone)]
pub struct SyntaxError {
    pub position: usize,
}

/// The outcome of reading one construct at a position of a token sequence.
pub enum Parsed<T> {
    /// The construct, and the position after its last token.
    Done(T, int),
    /// The position of the token at which reading failed.
    Failed(int),
}

/// Whether the keyword `name` stands at `pos`.
pub open spec fn keyword_at(tokens: Seq<TokenView>, pos: int, name: Seq<char>) -> bool {
    0 <= pos < tokens.len() && tokens[pos] == TokenView::Keyword(name)
}

/// Whether the token `token` stands at `pos`.
pub open spec fn token_at(tokens: Seq<TokenView>, pos: int, token: TokenView) -> bool {
    0 <= pos < tokens.len() && tokens[pos] == token
}

/// The name of the identifier that stands at `pos`.
pub open spec fn ident_at(tokens: Seq<TokenView>, pos: int) -> Option<Seq<char>> {
    if 0 <= pos < tokens.len() {
        match tokens[pos] {
            TokenView::Ident(name) => Some(name),
            _ => None,
        }
    } else {
        None
    }
}

/// The text of the string literal that stands at `pos`.
pub open spec fn string_literal_at(tokens: Seq<TokenView>, pos: int) -> Option<Seq<char>> {
    if 0 <= pos < tokens.len() {
        match tokens[pos] {
            TokenView::StringLiteral(text) => Some(text),
            _ => None,
        }
    } else {
        None
    }
}

/// The items of the template literal that stands at `pos`.
pub open spec fn template_literal_at(tokens: Seq<TokenView>, pos: int) -> Option<
    Seq<TemplateItemView>,
> {
    if 0 <= pos < tokens.len() {
        match tokens[pos] {
            TokenView::TemplateLiteral(items) => Some(items),
            _ => None,
        }
    } else {
        None
    }
}

/// What the result of an executable parser says.
pub open spec fn outcome<T: View>(result: Result<(usize, T), SyntaxError>) -> Parsed<T::V> {
    match result {
        Ok((next, value)) => Parsed::Done(value@, next as int),
        Err(error) => Parsed::Failed(error.position as int),
    }
}

/// `tail` with the items of `head` put in front of what it read.
pub open spec fn prepend<T>(head: Seq<T>, tail: Parsed<Seq<T>>) -> Parsed<Seq<T>> {
    match tail {
        Parsed::Done(rest, next) => Parsed::Done(head + rest, next),
        Parsed::Failed(at) => Parsed::Failed(at),
    }
}

/// Putting `head` and then `item` in front is putting `head` with `item` at its
/// end in front.
pub proof fn lemma_prepend_push<T>(head: Seq<T>, item: T, tail: Parsed<Seq<T>>)
    ensures
        prepend(head, prepend(seq![item], tail)) == prepend(head.push(item), tail),
{
    match tail {
        Parsed::Done(rest, next) => {
            assert(head + (seq![item] + rest) =~= head.push(item) + rest);
        },
        Parsed::Failed(at) => {},
    }
}

/// Runs the scanner `f` with whitespace skipped before it and after what it
/// read: `f` is called on the input without its leading whitespace, and where
/// it reads something, the whitespace that follows is skipped too.
pub fn ws<'a, O, F>(f: F, input: &'a str) -> (found: Option<(&'a str, O)>) where
    F: Fn(&'a str) -> Option<(&'a str, O)>,
    requires
        forall|body: &'a str| body@ == trim_start(input@) ==> f.requires((body,)),
    ensures
        exists|body: &'a str, inner: Option<(&'a str, O)>|
            body@ == trim_start(input@) && #[trigger] f.ensures((body,), inner) && match inner {
                Some((after, value)) => found is Some && (found->0).1 == value && (found->0).0@
                    == trim_start(after@),
                None => found is None,
            },
{
    let body = skip_whitespace(input);
    match f(body) {
        Some((after, value)) => Some((skip_whitespace(after), value)),
        None => None,
    }
}

/// Parses one token that satisfies the given predicate: the token at `pos`,
/// where there is one and `pred` says `true` of it.
pub fn predicate<'a, 'b, F>(pred: F, tokens: &'a [Token<'b>], pos: usize) -> (result: Result<
    (usize, &'a Token<'b>),
    SyntaxError,
>) where F: Fn(&'a Token<'b>) -> bool
    requires
        pos < tokens.len() ==> pred.requires((&tokens[pos as int],)),
    ensures
        match result {
            Ok((next, found)) => pos < tokens.len() && next == pos + 1 && *found
                == tokens[pos as int] && pred.ensures((&tokens[pos as int],), true),
            Err(error) => error.position == pos && (pos < tokens.len() ==> pred.ensures(
                (&tokens[pos as int],),
                false,
            )),
        },
{
    if pos < tokens.len() {
        let first = &tokens[pos];
        if pred(first) {
            return Ok((pos + 1, first));
        }
    }
    Err(SyntaxError { position: pos })
}

/// Parses one token that the given function maps to a value: the value that
/// `mapper` gives for the token at `pos`, where there is a token and a value.
pub fn predicate_map<'a, 'b, F, R>(mapper: F, tokens: &'a [Token<'b>], pos: usize) -> (result:
    Result<(usize, R), SyntaxError>) where F: Fn(&'a Token<'b>) -> Option<R>
    requires
        pos < tokens.len() ==> mapper.requires((&tokens[pos as int],)),
    ensures
        match result {
            Ok((next, value)) => pos < tokens.len() && next == pos + 1 && mapper.ensures(
                (&tokens[pos as int],),
                Some(value),
            ),
            Err(error) => error.position == pos && (pos < tokens.len() ==> mapper.ensures(
                (&tokens[pos as int],),
                None,
            )),
        },
{
    if pos < tokens.len() {
        match mapper(&tokens[pos]) {
            Some(value) => Ok((pos + 1, value)),
            None => Err(SyntaxError { position: pos }),
        }
    } else {
        Err(SyntaxError { position: pos })
    }
}

/// Parses the keyword `name`.
pub fn keyword<'a, 'b>(name: &str, tokens: &'a [Token<'b>], pos: usize) -> (result: Result<
    (usize, &'a Token<'b>),
    SyntaxError,
>)
    ensures
        match result {
            Ok((next, found)) => keyword_at(token_views(tokens@), pos as int, name@) && next == pos
                + 1 && *found == tokens[pos as int],
            Err(error) => !keyword_at(token_views(tokens@), pos as int, name@) && error.position
                == pos,
        },
{
    let is_it = |token: &'a Token<'b>| -> (yes: bool)
        ensures
            yes == (token@ == TokenView::Keyword(name@)),
        {
            match token {
                Token::Keyword(word) => same_text(word, name),
                _ => false,
            }
        };
    predicate(is_it, tokens, pos)
}

/// Parses the two-word keyword `first`-`second`.
pub fn hyphened_keyword<'a, 'b>(
    first: &str,
    second: &str,
    tokens: &'a [Token<'b>],
    pos: usize,
) -> (result: Result<(usize, &'a Token<'b>), SyntaxError>)
    ensures
        match result {
            Ok((next, found)) => token_at(
                token_views(tokens@),
                pos as int,
                TokenView::HyphenedKeyword(first@, second@),
            ) && next == pos + 1 && *found == tokens[pos as int],
            Err(error) => !token_at(
                token_views(tokens@),
                pos as int,
                TokenView::HyphenedKeyword(first@, second@),
            ) && error.position == pos,
        },
{
    let is_it = |token: &'a Token<'b>| -> (yes: bool)
        ensures
            yes == (token@ == TokenView::HyphenedKeyword(first@, second@)),
        {
            match token {
                Token::HyphenedKeyword(one, two) => same_text(one, first) && same_text(two, second),
                _ => false,
            }
        };
    predicate(is_it, tokens, pos)
}

/// Parses an identifier: its name.
pub fn ident<'a, 'b>(tokens: &'a [Token<'b>], pos: usize) -> (result: Result<
    (usize, &'b str),
    SyntaxError,
>)
    ensures
        match result {
            Ok((next, name)) => ident_at(token_views(tokens@), pos as int) == Some(name@) && next
                == pos + 1,
            Err(error) => ident_at(token_views(tokens@), pos as int) is None && error.position
                == pos,
        },
{
    let name_of = |token: &'a Token<'b>| -> (name: Option<&'b str>)
        ensures
            match name {
                Some(name) => token@ == TokenView::Ident(name@),
                None => !(token@ is Ident),
            },
        {
            match token {
                Token::Ident(name) => Some(*name),
                _ => None,
            }
        };
    predicate_map(name_of, tokens, pos)
}

/// Parses a string literal: its text.
pub fn string_literal<'a, 'b>(tokens: &'a [Token<'b>], pos: usize) -> (result: Result<
    (usize, &'b str),
    SyntaxError,
>)
    ensures
        match result {
            Ok((next, text)) => string_literal_at(token_views(tokens@), pos as int) == Some(text@)
                && next == pos + 1,
            Err(error) => string_literal_at(token_views(tokens@), pos as int) is None
                && error.position == pos,
        },
{
    let text_of = |token: &'a Token<'b>| -> (text: Option<&'b str>)
        ensures
            match text {
                Some(text) => token@ == TokenView::StringLiteral(text@),
                None => !(token@ is StringLiteral),
            },
        {
            match token {
                Token::StringLiteral(text) => Some(*text),
                _ => None,
            }
        };
    predicate_map(text_of, tokens, pos)
}

/// Parses a template literal: its items.
pub fn template_literal<'a, 'b>(tokens: &'a [Token<'b>], pos: usize) -> (result: Result<
    (usize, &'a Vec<TemplateItem<'b>>),
    SyntaxError,
>)
    ensures
        match result {
            Ok((next, items)) => template_literal_at(token_views(tokens@), pos as int) == Some(
                template_views(items@),
            ) && next == pos + 1,
            Err(error) => template_literal_at(token_views(tokens@), pos as int) is None
                && error.position == pos,
        },
{
    let items_of = |token: &'a Token<'b>| -> (items: Option<&'a Vec<TemplateItem<'b>>>)
        ensures
            match items {
                Some(items) => token@ == TokenView::TemplateLiteral(template_views(items@)),
                None => !(token@ is TemplateLiteral),
            },
        {
            match token {
                Token::TemplateLiteral(items) => Some(items),
                _ => None,
            }
        };
    predicate_map(items_of, tokens, pos)
}

/// Whether two template items are of one kind and hold the same text.
pub fn same_item(a: &TemplateItem, b: &TemplateItem) -> (same: bool)
    ensures
        same == (a@ == b@),
{
    match (a, b) {
        (TemplateItem::Str(x), TemplateItem::Str(y)) => same_text(x, y),
        (TemplateItem::Interpolate(x), TemplateItem::Interpolate(y)) => same_text(x, y),
        (TemplateItem::Infer(x), TemplateItem::Infer(y)) => same_text(x, y),
        _ => false,
    }
}

/// Whether two templates hold the same items in the same order.
pub fn same_items(a: &Vec<TemplateItem>, b: &Vec<TemplateItem>) -> (same: bool)
    ensures
        same == (template_views(a@) == template_views(b@)),
{
    if a.len() != b.len() {
        assert(template_views(a@).len() != template_views(b@).len());
        return false;
    }
    let mut i: usize = 0;
    while i < a.len()
        invariant
            a.len() == b.len(),
            i <= a.len(),
            forall|j: int| 0 <= j < i ==> a[j]@ == b[j]@,
        decreases a.len() - i,
    {
        if !same_item(&a[i], &b[i]) {
            assert(template_views(a@)[i as int] != template_views(b@)[i as int]);
            return false;
        }
        i += 1;
    }
    assert(template_views(a@) =~= template_views(b@));
    true
}

/// Whether two tokens are of one kind and hold the same text.
pub fn same_token(a: &Token, b: &Token) -> (same: bool)
    ensures
        same == (a@ == b@),
{
    match (a, b) {
        (Token::Keyword(x), Token::Keyword(y)) => same_text(x, y),
        (Token::HyphenedKeyword(x1, x2), Token::HyphenedKeyword(y1, y2)) => same_text(x1, y1)
            && same_text(x2, y2),
        (Token::Ident(x), Token::Ident(y)) => same_text(x, y),
        (Token::StringLiteral(x), Token::StringLiteral(y)) => same_text(x, y),
        (Token::TemplateLiteral(x), Token::TemplateLiteral(y)) => same_items(x, y),
        (Token::OpenBrace, Token::OpenBrace) => true,
        (Token::CloseBrace, Token::CloseBrace) => true,
        (Token::OpenBracket, Token::OpenBracket) => true,
        (Token::CloseBracket, Token::CloseBracket) => true,
        (Token::Equal, Token::Equal) => true,
        (Token::Colon, Token::Colon) => true,
        (Token::SemiColon, Token::SemiColon) => true,
        (Token::Comma, Token::Comma) => true,
        (Token::Bar, Token::Bar) => true,
        _ => false,
    }
}

/// Parses the token that equals `expected`.
pub fn token<'a, 'b>(expected: &Token, tokens: &'a [Token<'b>], pos: usize) -> (result: Result<
    (usize, &'a Token<'b>),
    SyntaxError,
>)
    ensures
        match result {
            Ok((next, found)) => token_at(token_views(tokens@), pos as int, expected@) && next
                == pos + 1 && *found == tokens[pos as int],
            Err(error) => !token_at(token_views(tokens@), pos as int, expected@) && error.position
                == pos,
        },
{
    let is_it = |token: &'a Token<'b>| -> (yes: bool)
        ensures
            yes == (token@ == expected@),
        {
            same_token(token, expected)
        };
    predicate(is_it, tokens, pos)
}

} // verus!
