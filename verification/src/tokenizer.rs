//! Lexical analysis: source text to tokens.
//!
//! The grammar of tokens is stated by the `spec_` functions over sequences of
//! characters; the executable functions are proved to compute exactly that.

use vstd::prelude::*;
use crate::parser::util::ws;
use crate::scan::alphanumeric;
use crate::scan::alphanumeric_run;
use crate::scan::character;
use crate::scan::escaped_end;
use crate::scan::escaped_text;
use crate::scan::lemma_alphanumeric_run_bounds;
use crate::scan::lemma_escaped_end_bounds;
use crate::scan::lemma_space_run_bounds;
use crate::scan::one_of_list;
use crate::scan::same_text;
use crate::scan::trim_start;

verus! {

/// One segment of a template literal.
#[derive(Debug, PartialEq, Eq, Copy, Clone)]
pub enum TemplateItem<'a> {
    /// A literal run of characters, escape markers included.
    Str(&'a str),
    /// A `{name}` slot: the value bound to `name` is put in.
    Interpolate(&'a str),
    /// A `[name]` slot: what matches here is bound to `name`.
    Infer(&'a str),
}

/// What a [`TemplateItem`] stands for in contracts.
pub enum TemplateItemView {
    Str(Seq<char>),
    Interpolate(Seq<char>),
    Infer(Seq<char>),
}

impl<'a> View for TemplateItem<'a> {
    type V = TemplateItemView;

    open spec fn view(&self) -> TemplateItemView {
        match *self {
            TemplateItem::Str(text) => TemplateItemView::Str(text@),
            TemplateItem::Interpolate(name) => TemplateItemView::Interpolate(name@),
            TemplateItem::Infer(name) => TemplateItemView::Infer(name@),
        }
    }
}

/// The views of the items of a template, in order.
pub open spec fn template_views(items: Seq<TemplateItem>) -> Seq<TemplateItemView> {
    Seq::new(items.len(), |i: int| items[i]@)
}

/// A lexical token. Its text is borrowed from the source.
#[derive(Debug, PartialEq, Eq, Clone)]
pub enum Token<'a> {
    Keyword(&'a str),
    HyphenedKeyword(&'a str, &'a str),
    Ident(&'a str),
    StringLiteral(&'a str),
    TemplateLiteral(Vec<TemplateItem<'a>>),
    OpenBrace,
    CloseBrace,
    OpenBracket,
    CloseBracket,
    Equal,
    Colon,
    SemiColon,
    Comma,
    Bar,
}

/// What a [`Token`] stands for in contracts.
pub enum TokenView {
    Keyword(Seq<char>),
    HyphenedKeyword(Seq<char>, Seq<char>),
    Ident(Seq<char>),
    StringLiteral(Seq<char>),
    TemplateLiteral(Seq<TemplateItemView>),
    OpenBrace,
    CloseBrace,
    OpenBracket,
    CloseBracket,
    Equal,
    Colon,
    SemiColon,
    Comma,
    Bar,
}

impl<'a> View for Token<'a> {
    type V = TokenView;

    open spec fn view(&self) -> TokenView {
        match self {
            Token::Keyword(name) => TokenView::Keyword(name@),
            Token::HyphenedKeyword(first, second) => TokenView::HyphenedKeyword(first@, second@),
            Token::Ident(name) => TokenView::Ident(name@),
            Token::StringLiteral(text) => TokenView::StringLiteral(text@),
            Token::TemplateLiteral(items) => TokenView::TemplateLiteral(template_views(items@)),
            Token::OpenBrace => TokenView::OpenBrace,
            Token::CloseBrace => TokenView::CloseBrace,
            Token::OpenBracket => TokenView::OpenBracket,
            Token::CloseBracket => TokenView::CloseBracket,
            Token::Equal => TokenView::Equal,
            Token::Colon => TokenView::Colon,
            Token::SemiColon => TokenView::SemiColon,
            Token::Comma => TokenView::Comma,
            Token::Bar => TokenView::Bar,
        }
    }
}

/// The views of a sequence of tokens, in order.
pub open spec fn token_views(tokens: Seq<Token>) -> Seq<TokenView> {
    Seq::new(tokens.len(), |i: int| tokens[i]@)
}

/// Why a source text is no sequence of tokens: `remainder` is the part of the
/// source, up to its end, that starts where no further token could be read.
#[derive(Debug, PartialEq, Eq, Copy, Clone)]
pub struct LexicalError<'a> {
    pub remainder: &'a str,
}

/// The reserved single words.
pub open spec fn spec_is_keyword(s: Seq<char>) -> bool {
    s == "let"@ || s == "true"@ || s == "false"@ || s == "fn"@
}

/// The reserved hyphenated pairs.
pub open spec fn spec_is_hyphen_keyword(s: Seq<char>, t: Seq<char>) -> bool {
    s == "if"@ && t == "match"@
}

/// The word at the start of `s`, with the number of characters it spans.
///
/// A word is an alphanumeric run. Where a hyphen and a second alphanumeric run
/// follow it at once, the two make one token, which must be a reserved pair: any
/// other pair is no token at all.
pub open spec fn spec_word(s: Seq<char>) -> Option<(TokenView, nat)> {
    let n = alphanumeric_run(s);
    let first = s.take(n as int);
    let after = s.skip(n as int);
    let tail = after.skip(1);
    let m = alphanumeric_run(tail);
    let second = tail.take(m as int);
    if n == 0 {
        None
    } else if after.len() > 0 && after[0] == '-' && m > 0 {
        if spec_is_hyphen_keyword(first, second) {
            Some((TokenView::HyphenedKeyword(first, second), n + 1 + m))
        } else {
            None
        }
    } else if spec_is_keyword(first) {
        Some((TokenView::Keyword(first), n))
    } else {
        Some((TokenView::Ident(first), n))
    }
}

/// The punctuation token that is written `c`.
pub open spec fn spec_punctuation(c: char) -> Option<TokenView> {
    if c == '{' {
        Some(TokenView::OpenBrace)
    } else if c == '}' {
        Some(TokenView::CloseBrace)
    } else if c == '[' {
        Some(TokenView::OpenBracket)
    } else if c == ']' {
        Some(TokenView::CloseBracket)
    } else if c == '=' {
        Some(TokenView::Equal)
    } else if c == ':' {
        Some(TokenView::Colon)
    } else if c == ';' {
        Some(TokenView::SemiColon)
    } else if c == ',' {
        Some(TokenView::Comma)
    } else if c == '|' {
        Some(TokenView::Bar)
    } else {
        None
    }
}

/// The characters that cannot stand unescaped inside a string literal.
pub open spec fn string_stops() -> Seq<char> {
    "\"\\\r\n"@
}

/// The characters that cannot stand unescaped inside a template literal.
pub open spec fn template_stops() -> Seq<char> {
    "`\\"@
}

/// The characters that a backslash cannot escape.
pub open spec fn line_breaks() -> Seq<char> {
    "\r\n"@
}

/// The string literal at the start of `s`: the text between its quotes, escape
/// markers included, and the number of characters it spans, quotes included.
///
/// The text is a run of plain and escaped characters that is followed by the
/// closing quote. A literal with nothing between its quotes is none.
pub open spec fn spec_string(s: Seq<char>) -> Option<(Seq<char>, nat)> {
    let body = s.skip(1);
    if s.len() > 0 && s[0] == '"' {
        match escaped_end(body, 0, string_stops(), '\\', line_breaks()) {
            Some(n) => if n < body.len() && body[n as int] == '"' {
                Some((body.take(n as int), n + 2))
            } else {
                None
            },
            None => None,
        }
    } else {
        None
    }
}

/// Whether `s` starts with `open` and a name, which is an alphanumeric run.
pub open spec fn opens_slot(s: Seq<char>, open: char) -> bool {
    s.len() > 0 && s[0] == open && alphanumeric_run(s.skip(1)) > 0
}

/// The name of the slot that `s` opens.
pub open spec fn slot_name(s: Seq<char>) -> Seq<char> {
    s.skip(1).take(alphanumeric_run(s.skip(1)) as int)
}

/// Whether `close` follows the name of the slot that `s` opens.
pub open spec fn closes_slot(s: Seq<char>, close: char) -> bool {
    let after = s.skip(1).skip(alphanumeric_run(s.skip(1)) as int);
    after.len() > 0 && after[0] == close
}

/// The number of characters of a closed slot at the start of `s`.
pub open spec fn slot_len(s: Seq<char>) -> nat {
    alphanumeric_run(s.skip(1)) + 2
}

/// The template item at the start of `s`, with the number of characters it
/// spans.
///
/// `[` and a name open an inference slot, `{` and a name an interpolation slot;
/// a slot that is opened must be closed, by `]` or `}`, right after the name.
/// Anything else is literal text: a run of plain and escaped characters, in
/// which brackets and braces are plain.
pub open spec fn spec_template_item(s: Seq<char>) -> Option<(TemplateItemView, nat)> {
    if opens_slot(s, '[') {
        if closes_slot(s, ']') {
            Some((TemplateItemView::Infer(slot_name(s)), slot_len(s)))
        } else {
            None
        }
    } else if opens_slot(s, '{') {
        if closes_slot(s, '}') {
            Some((TemplateItemView::Interpolate(slot_name(s)), slot_len(s)))
        } else {
            None
        }
    } else {
        match escaped_end(s, 0, template_stops(), '\\', line_breaks()) {
            Some(n) => Some((TemplateItemView::Str(s.take(n as int)), n)),
            None => None,
        }
    }
}

/// The template items that follow one another from the start of `s`, with the
/// number of characters they span together. The items end in front of the first
/// place where no item of at least one character can be read.
pub open spec fn spec_template_items(s: Seq<char>) -> (Seq<TemplateItemView>, nat)
    decreases s.len(),
{
    match spec_template_item(s) {
        Some((item, n)) => if 0 < n <= s.len() {
            let (items, m) = spec_template_items(s.skip(n as int));
            (seq![item] + items, n + m)
        } else {
            (Seq::empty(), 0)
        },
        None => (Seq::empty(), 0),
    }
}

/// The template literal at the start of `s`: its items, and the number of
/// characters it spans, backticks included.
pub open spec fn spec_template_literal(s: Seq<char>) -> Option<(Seq<TemplateItemView>, nat)> {
    let (items, n) = spec_template_items(s.skip(1));
    let after = s.skip(1).skip(n as int);
    if s.len() > 0 && s[0] == '`' && after.len() > 0 && after[0] == '`' {
        Some((items, n + 2))
    } else {
        None
    }
}

/// The token at the start of `s`, with the number of characters it spans.
///
/// The forms are tried in this order: a word, a punctuation character, a string
/// literal, a template literal. A text that starts with an alphanumeric
/// character holds a word or nothing.
pub open spec fn spec_token(s: Seq<char>) -> Option<(TokenView, nat)> {
    if alphanumeric_run(s) > 0 {
        spec_word(s)
    } else if s.len() > 0 && spec_punctuation(s[0]) is Some {
        Some((spec_punctuation(s[0])->0, 1))
    } else if spec_string(s) is Some {
        Some((TokenView::StringLiteral((spec_string(s)->0).0), (spec_string(s)->0).1))
    } else {
        match spec_template_literal(s) {
            Some((items, n)) => Some((TokenView::TemplateLiteral(items), n)),
            None => None,
        }
    }
}

/// The tokens that follow one another from the start of `s`, with whitespace
/// before and after each, and the rest of `s` from where they end: the text in
/// front of which the last token's trailing whitespace ends, or all of `s`
/// where it starts with no token.
pub open spec fn spec_scan(s: Seq<char>) -> (Seq<TokenView>, Seq<char>)
    decreases s.len(),
{
    let body = trim_start(s);
    match spec_token(body) {
        Some((token, n)) => {
            let tail = trim_start(body.skip(n as int));
            if tail.len() < s.len() {
                let (tokens, rest) = spec_scan(tail);
                (seq![token] + tokens, rest)
            } else {
                (Seq::empty(), s)
            }
        },
        None => (Seq::empty(), s),
    }
}

/// The tokens of the source text `s`, or the remainder in front of which
/// scanning stopped. The text is a sequence of tokens only where scanning
/// reaches its end.
pub open spec fn spec_tokenize(s: Seq<char>) -> Result<Seq<TokenView>, Seq<char>> {
    let (tokens, rest) = spec_scan(s);
    if rest.len() == 0 {
        Ok(tokens)
    } else {
        Err(rest)
    }
}

/// A template item lies inside `s`, and has at least one character unless `s`
/// has none.
pub proof fn lemma_template_item_bounds(s: Seq<char>)
    ensures
        match spec_template_item(s) {
            Some((_, n)) => n <= s.len() && (s.len() > 0 ==> n > 0),
            None => true,
        },
{
    lemma_alphanumeric_run_bounds(s.skip(1));
    if s.len() > 0 {
        lemma_escaped_end_bounds(s, 1, template_stops(), '\\', line_breaks());
        if s.len() > 1 {
            lemma_escaped_end_bounds(s, 2, template_stops(), '\\', line_breaks());
        }
    }
}

/// Template items lie inside `s`.
pub proof fn lemma_template_items_bounds(s: Seq<char>)
    ensures
        spec_template_items(s).1 <= s.len(),
    decreases s.len(),
{
    match spec_template_item(s) {
        Some((_, n)) => {
            if 0 < n <= s.len() {
                lemma_template_items_bounds(s.skip(n as int));
            }
        },
        None => {},
    }
}

/// A token has at least one character and lies inside `s`.
pub proof fn lemma_token_bounds(s: Seq<char>)
    ensures
        match spec_token(s) {
            Some((_, n)) => 0 < n <= s.len(),
            None => true,
        },
{
    lemma_alphanumeric_run_bounds(s);
    lemma_alphanumeric_run_bounds(s.skip(alphanumeric_run(s) as int).skip(1));
    lemma_template_items_bounds(s.skip(1));
}

/// What scanning leaves is the end of the text, and no token can be read at its
/// start, even with its leading whitespace skipped.
pub proof fn lemma_scan_rest(s: Seq<char>)
    ensures
        spec_scan(s).1.len() <= s.len(),
        spec_scan(s).1 == s.skip(s.len() - spec_scan(s).1.len()),
        spec_token(trim_start(spec_scan(s).1)) is None,
    decreases s.len(),
{
    let body = trim_start(s);
    lemma_space_run_bounds(s);
    lemma_token_bounds(body);
    if let Some((_, n)) = spec_token(body) {
        let after = body.skip(n as int);
        lemma_space_run_bounds(after);
        lemma_scan_rest(trim_start(after));
    }
}

/// Whether `s` is a reserved word.
pub fn is_keyword(s: &str) -> (reserved: bool)
    ensures
        reserved == spec_is_keyword(s@),
{
    same_text(s, "let") || same_text(s, "true") || same_text(s, "false") || same_text(s, "fn")
}

/// Whether `s`, a hyphen and `t` make a reserved pair.
pub fn is_hyphen_keyword(s: &str, t: &str) -> (reserved: bool)
    ensures
        reserved == spec_is_hyphen_keyword(s@, t@),
{
    same_text(s, "if") && same_text(t, "match")
}

/// The punctuation token for one of the characters `{ } [ ] = : ; , |`.
pub fn punctuation<'a>(c: char) -> (token: Token<'a>)
    requires
        spec_punctuation(c) is Some,
    ensures
        spec_punctuation(c) == Some(token@),
{
    if c == '{' {
        Token::OpenBrace
    } else if c == '}' {
        Token::CloseBrace
    } else if c == '[' {
        Token::OpenBracket
    } else if c == ']' {
        Token::CloseBracket
    } else if c == '=' {
        Token::Equal
    } else if c == ':' {
        Token::Colon
    } else if c == ';' {
        Token::SemiColon
    } else if c == ',' {
        Token::Comma
    } else {
        Token::Bar
    }
}

/// Reads a string literal at the start of `code`: what follows it, and the text
/// between its quotes.
pub fn parse_string<'a>(code: &'a str) -> (found: Option<(&'a str, &'a str)>)
    ensures
        match found {
            Some((rest, text)) => match spec_string(code@) {
                Some((t, n)) => t == text@ && n <= code@.len() && rest@ == code@.skip(n as int),
                None => false,
            },
            None => spec_string(code@) is None,
        },
{
    match character('"', code) {
        Some(body) => match escaped_text(body, "\"\\\r\n", '\\', "\r\n") {
            Some((after, text)) => match character('"', after) {
                Some(rest) => {
                    proof {
                        let n = escaped_end(body@, 0, string_stops(), '\\', line_breaks())->0;
                    }
                    Some((rest, text))
                },
                None => None,
            },
            None => None,
        },
        None => None,
    }
}

/// Reads a slot at the start of `code`. `None`: no slot opens here.
/// `Some(None)`: a slot opens and is not closed. Otherwise what follows the
/// slot, and its name.
fn parse_slot<'a>(code: &'a str, open: char, close: char) -> (found: Option<
    Option<(&'a str, &'a str)>,
>)
    ensures
        match found {
            None => !opens_slot(code@, open),
            Some(None) => opens_slot(code@, open) && !closes_slot(code@, close),
            Some(Some((rest, name))) => opens_slot(code@, open) && closes_slot(code@, close)
                && name@ == slot_name(code@) && slot_len(code@) <= code@.len() && rest@
                == code@.skip(slot_len(code@) as int),
        },
{
    match character(open, code) {
        Some(inner) => match alphanumeric(inner) {
            Some((after, name)) => match character(close, after) {
                Some(rest) => {
                    Some(Some((rest, name)))
                },
                None => Some(None),
            },
            None => None,
        },
        None => None,
    }
}

/// Reads one template item at the start of `code`: what follows it, and the
/// item.
pub fn parse_template_item<'a>(code: &'a str) -> (found: Option<(&'a str, TemplateItem<'a>)>)
    ensures
        match found {
            Some((rest, item)) => match spec_template_item(code@) {
                Some((t, n)) => t == item@ && n <= code@.len() && rest@ == code@.skip(n as int),
                None => false,
            },
            None => spec_template_item(code@) is None,
        },
{
    match parse_slot(code, '[', ']') {
        Some(Some((rest, name))) => Some((rest, TemplateItem::Infer(name))),
        Some(None) => None,
        None => match parse_slot(code, '{', '}') {
            Some(Some((rest, name))) => Some((rest, TemplateItem::Interpolate(name))),
            Some(None) => None,
            None => match escaped_text(code, "`\\", '\\', "\r\n") {
                Some((rest, text)) => Some((rest, TemplateItem::Str(text))),
                None => None,
            },
        },
    }
}

/// Reads a template literal at the start of `code`: what follows it, and its
/// items.
pub fn parse_template_literal<'a>(code: &'a str) -> (found: Option<
    (&'a str, Vec<TemplateItem<'a>>),
>)
    ensures
        match found {
            Some((rest, items)) => match spec_template_literal(code@) {
                Some((t, n)) => t == template_views(items@) && n <= code@.len() && rest@
                    == code@.skip(n as int),
                None => false,
            },
            None => spec_template_literal(code@) is None,
        },
{
    let body = match character('`', code) {
        Some(body) => body,
        None => { return None; },
    };
    let mut items: Vec<TemplateItem<'a>> = Vec::new();
    let mut input = body;
    let ghost mut read: nat = 0;
    loop
        invariant
            read <= body@.len(),
            input@ == body@.skip(read as int),
            spec_template_items(body@) == (
                template_views(items@) + spec_template_items(input@).0,
                read + spec_template_items(input@).1,
            ),
        ensures
            spec_template_items(input@) == (Seq::<TemplateItemView>::empty(), 0nat),
        decreases input@.len(),
    {
        if input.is_empty() {
            break;
        }
        match parse_template_item(input) {
            Some((rest, item)) => {
                proof {
                    lemma_template_item_bounds(input@);
                    let n = (spec_template_item(input@)->0).1;
                    read = read + n;
                }
                items.push(item);
                input = rest;
            },
            None => { break; },
        }
    }
    match character('`', input) {
        Some(rest) => {
            Some((rest, items))
        },
        None => None,
    }
}

/// Reads one token at the start of `input`: what follows it, and the token.
pub fn next_token<'a>(input: &'a str) -> (found: Option<(&'a str, Token<'a>)>)
    ensures
        match found {
            Some((rest, token)) => match spec_token(input@) {
                Some((t, n)) => t == token@ && 0 < n <= input@.len() && rest@ == input@.skip(
                    n as int,
                ),
                None => false,
            },
            None => spec_token(input@) is None,
        },
{
    match alphanumeric(input) {
        Some((rest, word)) => {
            let second = match character('-', rest) {
                Some(tail) => alphanumeric(tail),
                None => None,
            };
            match second {
                Some((rest, suffix)) => {
                    if is_hyphen_keyword(word, suffix) {
                        Some((rest, Token::HyphenedKeyword(word, suffix)))
                    } else {
                        None
                    }
                },
                None => {
                    if is_keyword(word) {
                        Some((rest, Token::Keyword(word)))
                    } else {
                        Some((rest, Token::Ident(word)))
                    }
                },
            }
        },
        None => match one_of_list("{}[]=:;,|", input) {
            Some((rest, c)) => {
                proof {
                    reveal_strlit("{}[]=:;,|");
                }
                Some((rest, punctuation(c)))
            },
            None => {
                proof {
                    reveal_strlit("{}[]=:;,|");
                    let list = "{}[]=:;,|"@;
                    assert(list[0] == '{' && list[1] == '}' && list[2] == '[' && list[3] == ']'
                        && list[4] == '=' && list[5] == ':' && list[6] == ';' && list[7] == ','
                        && list[8] == '|');
                }
                match parse_string(input) {
                    Some((rest, text)) => Some((rest, Token::StringLiteral(text))),
                    None => match parse_template_literal(input) {
                        Some((rest, items)) => Some((rest, Token::TemplateLiteral(items))),
                        None => None,
                    },
                }
            },
        },
    }
}

/// Turns a source text into its tokens.
///
/// The whole text must be tokens and whitespace: where no token can be read and
/// text is left, the error holds what is left, which is the end of the text.
/// Whitespace counts as read only before and after a token, so a text of
/// whitespace alone is an error too.
pub fn tokenize<'a>(code: &'a str) -> (result: Result<Vec<Token<'a>>, LexicalError<'a>>)
    ensures
        match result {
            Ok(tokens) => spec_tokenize(code@) == Ok::<Seq<TokenView>, Seq<char>>(
                token_views(tokens@),
            ),
            Err(error) => spec_tokenize(code@) == Err::<Seq<TokenView>, Seq<char>>(
                error.remainder@,
            ) && error.remainder@ == code@.skip(code@.len() - error.remainder@.len()),
        },
{
    proof {
        lemma_scan_rest(code@);
    }
    let mut tokens: Vec<Token<'a>> = Vec::new();
    let mut input = code;
    loop
        invariant
            spec_scan(code@) == (
                token_views(tokens@) + spec_scan(input@).0,
                spec_scan(input@).1,
            ),
        ensures
            spec_scan(input@) == (Seq::<TokenView>::empty(), input@),
        decreases input@.len(),
    {
        proof {
            lemma_space_run_bounds(input@);
        }
        match ws(next_token, input) {
            Some((rest, token)) => {
                proof {
                    let n = (spec_token(trim_start(input@))->0).1;
                    lemma_space_run_bounds(trim_start(input@).skip(n as int));
                }
                tokens.push(token);
                input = rest;
            },
            None => { break; },
        }
    }
    if input.is_empty() {
        Ok(tokens)
    } else {
        Err(LexicalError { remainder: input })
    }
}

} // verus!
