//! Writing tokens back as source text.
//!
//! Nothing here runs: the functions say which text stands for a sequence of
//! tokens, and the lemmas show that the tokenizer reads that text back to the
//! same tokens.

use vstd::prelude::*;
use crate::ast::ExpressionView;
use crate::ast::StatementView;
use crate::parser::spec_parse;
use crate::printer::all_statements_well_formed;
use crate::printer::entries_tokens;
use crate::printer::expression_tokens;
use crate::printer::lemma_program_parses;
use crate::printer::members_tokens;
use crate::printer::program_tokens;
use crate::printer::statement_tokens;
use crate::printer::statements_tokens;
use crate::scan::alphanumeric_run;
use crate::scan::escaped_end;
use crate::scan::is_alphanumeric;
use crate::scan::is_space;
use crate::scan::space_run;
use crate::scan::trim_start;
use crate::tokenizer::closes_slot;
use crate::tokenizer::line_breaks;
use crate::tokenizer::opens_slot;
use crate::tokenizer::slot_len;
use crate::tokenizer::slot_name;
use crate::tokenizer::spec_is_hyphen_keyword;
use crate::tokenizer::spec_is_keyword;
use crate::tokenizer::spec_scan;
use crate::tokenizer::spec_string;
use crate::tokenizer::spec_template_items;
use crate::tokenizer::spec_template_literal;
use crate::tokenizer::spec_token;
use crate::tokenizer::spec_tokenize;
use crate::tokenizer::spec_word;
use crate::tokenizer::string_stops;
use crate::tokenizer::template_stops;
use crate::tokenizer::TemplateItemView;
use crate::tokenizer::TokenView;

verus! {

/// Whether `s` is a name: a non-empty run of alphanumeric characters.
pub open spec fn is_name(s: Seq<char>) -> bool {
    s.len() > 0 && forall|i: int| 0 <= i < s.len() ==> is_alphanumeric(#[trigger] s[i])
}

/// Whether `name` can be written as an identifier: a name that is not reserved.
pub open spec fn is_identifier(name: Seq<char>) -> bool {
    is_name(name) && !spec_is_keyword(name)
}

/// Whether `s` can stand between delimiters as it is: a non-empty run of plain
/// and escaped characters, where the characters of `stops` are not plain.
pub open spec fn is_escaped_text(s: Seq<char>, stops: Seq<char>) -> bool {
    s.len() > 0 && escaped_end(s, 0, stops, '\\', line_breaks()) == Some(s.len())
}

/// Whether the item of index `i` can be written where it stands in `items`: a
/// slot has a name; literal text is the last item, is escaped text, and does not
/// start as a slot does.
pub open spec fn writable_item(items: Seq<TemplateItemView>, i: int) -> bool {
    match items[i] {
        TemplateItemView::Infer(name) => is_name(name),
        TemplateItemView::Interpolate(name) => is_name(name),
        TemplateItemView::Str(text) => i + 1 == items.len() && is_escaped_text(
            text,
            template_stops(),
        ) && !opens_slot(text, '[') && !opens_slot(text, '{'),
    }
}

/// Whether `token` is one that the tokenizer can produce.
pub open spec fn writable(token: TokenView) -> bool {
    match token {
        TokenView::Keyword(name) => spec_is_keyword(name),
        TokenView::HyphenedKeyword(first, second) => spec_is_hyphen_keyword(first, second),
        TokenView::Ident(name) => is_name(name) && !spec_is_keyword(name),
        TokenView::StringLiteral(text) => is_escaped_text(text, string_stops()),
        TokenView::TemplateLiteral(items) => forall|i: int|
            0 <= i < items.len() ==> #[trigger] writable_item(items, i),
        _ => true,
    }
}

/// Whether every token of `tokens` is writable.
pub open spec fn all_writable(tokens: Seq<TokenView>) -> bool {
    forall|i: int| 0 <= i < tokens.len() ==> writable(#[trigger] tokens[i])
}

/// Whether `e` can be written as source text: its names are identifiers, its
/// strings and templates are writable, and it holds no `distribute` and no
/// `if-match` form, for whose words the tokenizer has no keyword.
pub open spec fn writable_expression(e: ExpressionView) -> bool
    decreases e,
{
    match e {
        ExpressionView::StringLiteral { value } => writable(TokenView::StringLiteral(value)),
        ExpressionView::TemplateLiteral { items } => writable(TokenView::TemplateLiteral(items)),
        ExpressionView::BooleanLiteral { .. } => true,
        ExpressionView::Var { name } => is_identifier(name),
        ExpressionView::MapLiteral { pairs } => forall|i: int|
            0 <= i < pairs.len() ==> writable(TokenView::StringLiteral((#[trigger] pairs[i]).0))
                && writable_expression(pairs[i].1),
        ExpressionView::Tuple { values } => forall|i: int|
            0 <= i < values.len() ==> writable_expression(#[trigger] values[i]),
        ExpressionView::Union { exprs } => forall|i: int|
            0 <= i < exprs.len() ==> writable_expression(#[trigger] exprs[i]),
        ExpressionView::Distribute { .. } => false,
        ExpressionView::IfMatch { .. } => false,
    }
}

/// Whether `statement` can be written as source text.
pub open spec fn writable_statement(statement: StatementView) -> bool {
    match statement {
        StatementView::Let { name, value } => is_identifier(name) && writable_expression(value),
        StatementView::Fn { name, args, body } => is_identifier(name) && (forall|i: int|
            0 <= i < args.len() ==> is_identifier(#[trigger] args[i])) && writable_expression(body),
    }
}

/// Whether every statement of `program` can be written as source text.
pub open spec fn all_statements_writable(program: Seq<StatementView>) -> bool {
    forall|i: int| 0 <= i < program.len() ==> writable_statement(#[trigger] program[i])
}

/// The text that stands for a template item.
pub open spec fn item_text(item: TemplateItemView) -> Seq<char> {
    match item {
        TemplateItemView::Str(text) => text,
        TemplateItemView::Interpolate(name) => seq!['{'] + name + seq!['}'],
        TemplateItemView::Infer(name) => seq!['['] + name + seq![']'],
    }
}

/// The text that stands for the items of `items` from index `from` on.
pub open spec fn items_text(items: Seq<TemplateItemView>, from: nat) -> Seq<char>
    decreases items.len() - from,
{
    if from >= items.len() {
        Seq::empty()
    } else {
        item_text(items[from as int]) + items_text(items, from + 1)
    }
}

/// The text that stands for a token.
pub open spec fn token_text(token: TokenView) -> Seq<char> {
    match token {
        TokenView::Keyword(name) => name,
        TokenView::HyphenedKeyword(first, second) => first + seq!['-'] + second,
        TokenView::Ident(name) => name,
        TokenView::StringLiteral(text) => seq!['"'] + text + seq!['"'],
        TokenView::TemplateLiteral(items) => seq!['`'] + items_text(items, 0) + seq!['`'],
        TokenView::OpenBrace => seq!['{'],
        TokenView::CloseBrace => seq!['}'],
        TokenView::OpenBracket => seq!['['],
        TokenView::CloseBracket => seq![']'],
        TokenView::Equal => seq!['='],
        TokenView::Colon => seq![':'],
        TokenView::SemiColon => seq![';'],
        TokenView::Comma => seq![','],
        TokenView::Bar => seq!['|'],
    }
}

/// The text that stands for the tokens of `tokens` from index `from` on: the
/// text of each token, and one space after it.
pub open spec fn tokens_text(tokens: Seq<TokenView>, from: nat) -> Seq<char>
    decreases tokens.len() - from,
{
    if from >= tokens.len() {
        Seq::empty()
    } else {
        token_text(tokens[from as int]) + seq![' '] + tokens_text(tokens, from + 1)
    }
}

/// The source text that stands for `program`.
pub open spec fn program_text(program: Seq<StatementView>) -> Seq<char> {
    tokens_text(program_tokens(program), 0)
}

/// A name in front of a character that is not alphanumeric is an alphanumeric
/// run of its own.
pub proof fn lemma_name_is_a_run(name: Seq<char>, rest: Seq<char>)
    requires
        forall|i: int| 0 <= i < name.len() ==> is_alphanumeric(#[trigger] name[i]),
        rest.len() == 0 || !is_alphanumeric(rest[0]),
    ensures
        alphanumeric_run(name + rest) == name.len(),
    decreases name.len(),
{
    if name.len() > 0 {
        assert((name + rest).skip(1) =~= name.skip(1) + rest);
        assert(forall|i: int|
            0 <= i < name.skip(1).len() ==> is_alphanumeric(#[trigger] name.skip(1)[i]));
        lemma_name_is_a_run(name.skip(1), rest);
    }
}

/// Escaped text in front of a character that stops it, and that is not the
/// control character, is a run of its own.
pub proof fn lemma_text_is_a_run(
    text: Seq<char>,
    rest: Seq<char>,
    i: int,
    stops: Seq<char>,
    control: char,
    unescapable: Seq<char>,
)
    requires
        0 <= i <= text.len(),
        text.len() > 0,
        escaped_end(text, i, stops, control, unescapable) == Some(text.len()),
        rest.len() > 0,
        stops.contains(rest[0]),
        rest[0] != control,
    ensures
        escaped_end(text + rest, i, stops, control, unescapable) == Some(text.len()),
    decreases text.len() - i,
{
    if i < text.len() {
        if !stops.contains(text[i]) {
            lemma_text_is_a_run(text, rest, i + 1, stops, control, unescapable);
        } else if text[i] == control {
            lemma_text_is_a_run(text, rest, i + 2, stops, control, unescapable);
        }
    }
}

/// The reserved words are names.
pub proof fn lemma_reserved_words_are_names()
    ensures
        is_name("let"@),
        is_name("true"@),
        is_name("false"@),
        is_name("fn"@),
        is_name("if"@),
        is_name("match"@),
{
    reveal_strlit("let");
    reveal_strlit("true");
    reveal_strlit("false");
    reveal_strlit("fn");
    reveal_strlit("if");
    reveal_strlit("match");
}

/// A name that is followed by a space is read back as a word: a keyword where
/// it is reserved, else an identifier.
pub proof fn lemma_word_reads_back(name: Seq<char>, rest: Seq<char>)
    requires
        is_name(name),
        rest.len() > 0,
        rest[0] == ' ',
    ensures
        spec_word(name + rest) == Some(
            (
                if spec_is_keyword(name) {
                    TokenView::Keyword(name)
                } else {
                    TokenView::Ident(name)
                },
                name.len(),
            ),
        ),
{
    let s = name + rest;
    lemma_name_is_a_run(name, rest);
    assert(s.take(name.len() as int) =~= name);
}

/// A reserved pair that is followed by a space is read back as a hyphened
/// keyword.
pub proof fn lemma_pair_reads_back(first: Seq<char>, second: Seq<char>, rest: Seq<char>)
    requires
        spec_is_hyphen_keyword(first, second),
        rest.len() > 0,
        rest[0] == ' ',
    ensures
        spec_word(first + seq!['-'] + second + rest) == Some(
            (TokenView::HyphenedKeyword(first, second), first.len() + 1 + second.len()),
        ),
{
    lemma_reserved_words_are_names();
    let s = first + seq!['-'] + second + rest;
    let after = seq!['-'] + second + rest;
    assert(s =~= first + after);
    lemma_name_is_a_run(first, after);
    assert(s.take(first.len() as int) =~= first);
    assert(s.skip(first.len() as int) =~= after);
    let tail = after.skip(1);
    assert(tail =~= second + rest);
    lemma_name_is_a_run(second, rest);
    assert(tail.take(second.len() as int) =~= second);
}

/// Escaped text between quotes, followed by anything, is read back as a string
/// literal.
pub proof fn lemma_string_reads_back(text: Seq<char>, rest: Seq<char>)
    requires
        is_escaped_text(text, string_stops()),
    ensures
        spec_string(seq!['"'] + text + seq!['"'] + rest) == Some((text, text.len() + 2)),
{
    reveal_strlit("\"\\\r\n");
    let s = seq!['"'] + text + seq!['"'] + rest;
    let after = seq!['"'] + rest;
    let body = s.skip(1);
    assert(body =~= text + after);
    assert(string_stops()[0] == '"');
    lemma_text_is_a_run(text, after, 0, string_stops(), '\\', line_breaks());
}

/// A closed slot, followed by anything, is read back as a slot.
pub proof fn lemma_slot_reads_back(open: char, name: Seq<char>, close: char, rest: Seq<char>)
    requires
        is_name(name),
        !is_alphanumeric(close),
    ensures
        opens_slot(seq![open] + name + seq![close] + rest, open),
        closes_slot(seq![open] + name + seq![close] + rest, close),
        slot_name(seq![open] + name + seq![close] + rest) == name,
        slot_len(seq![open] + name + seq![close] + rest) == name.len() + 2,
{
    let s = seq![open] + name + seq![close] + rest;
    let after = seq![close] + rest;
    assert(s.skip(1) =~= name + after);
    lemma_name_is_a_run(name, after);
}

/// Writable items, followed by a backtick, are read back as they are.
pub proof fn lemma_items_read_back(items: Seq<TemplateItemView>, from: nat, rest: Seq<char>)
    requires
        from <= items.len(),
        forall|i: int| 0 <= i < items.len() ==> #[trigger] writable_item(items, i),
        rest.len() > 0,
        rest[0] == '`',
    ensures
        spec_template_items(items_text(items, from) + rest) == (
            items.skip(from as int),
            items_text(items, from).len(),
        ),
    decreases items.len() - from,
{
    reveal_strlit("`\\");
    assert(template_stops()[0] == '`');
    let s = items_text(items, from) + rest;
    if from < items.len() {
        assert(writable_item(items, from as int));
        let tail = items_text(items, from + 1) + rest;
        lemma_items_read_back(items, from + 1, rest);
        match items[from as int] {
            TemplateItemView::Infer(name) => {
                assert(s =~= seq!['['] + name + seq![']'] + tail);
                lemma_slot_reads_back('[', name, ']', tail);
                assert(s.skip(name.len() as int + 2) =~= tail);
            },
            TemplateItemView::Interpolate(name) => {
                assert(s =~= seq!['{'] + name + seq!['}'] + tail);
                lemma_slot_reads_back('{', name, '}', tail);
                assert(s.skip(name.len() as int + 2) =~= tail);
            },
            TemplateItemView::Str(text) => {
                lemma_text_is_a_run(text, rest, 0, template_stops(), '\\', line_breaks());
                assert(s.take(text.len() as int) =~= text);
                assert(s.skip(text.len() as int) =~= rest);
            },
        }
    }
}

/// A writable template between backticks, followed by anything, is read back
/// as a template literal.
pub proof fn lemma_template_reads_back(items: Seq<TemplateItemView>, rest: Seq<char>)
    requires
        forall|i: int| 0 <= i < items.len() ==> #[trigger] writable_item(items, i),
    ensures
        spec_template_literal(seq!['`'] + items_text(items, 0) + seq!['`'] + rest) == Some(
            (items, items_text(items, 0).len() + 2),
        ),
{
    let inner = items_text(items, 0);
    let s = seq!['`'] + inner + seq!['`'] + rest;
    let after = seq!['`'] + rest;
    assert(s.skip(1) =~= inner + after);
    lemma_items_read_back(items, 0, after);
}

/// The text of a writable token has a first character, which is no whitespace.
pub proof fn lemma_token_text_starts(token: TokenView)
    requires
        writable(token),
    ensures
        token_text(token).len() > 0,
        !is_space(token_text(token)[0]),
{
    lemma_reserved_words_are_names();
}

/// The text of a writable token, followed by a space, is read back as that
/// token.
pub proof fn lemma_token_reads_back(token: TokenView, rest: Seq<char>)
    requires
        writable(token),
        rest.len() > 0,
        rest[0] == ' ',
    ensures
        spec_token(token_text(token) + rest) == Some((token, token_text(token).len())),
{
    lemma_reserved_words_are_names();
    match token {
        TokenView::Keyword(name) => {
            lemma_word_reads_back(name, rest);
        },
        TokenView::Ident(name) => {
            lemma_word_reads_back(name, rest);
        },
        TokenView::HyphenedKeyword(first, second) => {
            lemma_pair_reads_back(first, second, rest);
        },
        TokenView::StringLiteral(text) => {
            lemma_string_reads_back(text, rest);
        },
        TokenView::TemplateLiteral(items) => {
            lemma_template_reads_back(items, rest);
        },
        _ => {},
    }
}

/// Round trip: writable tokens written as text are read back as they are, and
/// nothing of the text is left.
pub proof fn lemma_tokens_scan_back(tokens: Seq<TokenView>, from: nat)
    requires
        from <= tokens.len(),
        all_writable(tokens),
    ensures
        spec_scan(tokens_text(tokens, from)) == (tokens.skip(from as int), Seq::<char>::empty()),
    decreases tokens.len() - from,
{
    let s = tokens_text(tokens, from);
    if from < tokens.len() {
        let token = tokens[from as int];
        let text = token_text(token);
        let next = tokens_text(tokens, from + 1);
        let rest = seq![' '] + next;
        assert(s =~= text + rest);
        lemma_token_text_starts(token);
        assert(trim_start(s) =~= s);
        lemma_token_reads_back(token, rest);
        assert(s.skip(text.len() as int) =~= rest);
        assert(rest.skip(1) =~= next);
        if from + 1 < tokens.len() {
            lemma_token_text_starts(tokens[from as int + 1]);
        }
        assert(space_run(next) == 0);
        lemma_tokens_scan_back(tokens, from + 1);
    }
}

/// Round trip: the text of writable tokens is tokenized to those tokens.
pub proof fn lemma_tokens_read_back(tokens: Seq<TokenView>)
    requires
        all_writable(tokens),
    ensures
        spec_tokenize(tokens_text(tokens, 0)) == Ok::<Seq<TokenView>, Seq<char>>(tokens),
{
    lemma_tokens_scan_back(tokens, 0);
    assert(tokens.skip(0) =~= tokens);
}

/// The tokens of a writable expression are writable.
pub proof fn lemma_expression_tokens_are_writable(e: ExpressionView)
    requires
        writable_expression(e),
    ensures
        all_writable(expression_tokens(e)),
    decreases e, 0nat,
{
    match e {
        ExpressionView::MapLiteral { pairs } => {
            lemma_entries_tokens_are_writable(pairs, 0);
        },
        ExpressionView::Tuple { values } => {
            lemma_members_tokens_are_writable(values, 0, TokenView::Comma);
        },
        ExpressionView::Union { exprs } => {
            lemma_members_tokens_are_writable(exprs, 0, TokenView::Bar);
        },
        _ => {},
    }
}

/// The tokens of writable expressions, with a punctuation token between each
/// two, are writable.
pub proof fn lemma_members_tokens_are_writable(
    exprs: Seq<ExpressionView>,
    from: nat,
    separator: TokenView,
)
    requires
        forall|i: int| 0 <= i < exprs.len() ==> writable_expression(#[trigger] exprs[i]),
        writable(separator),
    ensures
        all_writable(members_tokens(exprs, from, separator)),
    decreases exprs, exprs.len() - from,
{
    if from < exprs.len() {
        lemma_expression_tokens_are_writable(exprs[from as int]);
        if from + 1 < exprs.len() {
            lemma_members_tokens_are_writable(exprs, from + 1, separator);
        }
    }
}

/// The tokens of writable map entries are writable.
pub proof fn lemma_entries_tokens_are_writable(pairs: Seq<(Seq<char>, ExpressionView)>, from: nat)
    requires
        forall|i: int|
            0 <= i < pairs.len() ==> writable(TokenView::StringLiteral((#[trigger] pairs[i]).0))
                && writable_expression(pairs[i].1),
    ensures
        all_writable(entries_tokens(pairs, from)),
    decreases pairs, pairs.len() - from,
{
    if from < pairs.len() {
        lemma_expression_tokens_are_writable(pairs[from as int].1);
        lemma_entries_tokens_are_writable(pairs, from + 1);
    }
}

/// The tokens of a writable statement are writable.
pub proof fn lemma_statement_tokens_are_writable(statement: StatementView)
    requires
        writable_statement(statement),
    ensures
        all_writable(statement_tokens(statement)),
{
    match statement {
        StatementView::Let { value, .. } => {
            lemma_expression_tokens_are_writable(value);
        },
        StatementView::Fn { body, .. } => {
            lemma_expression_tokens_are_writable(body);
        },
    }
}

/// The tokens of writable statements are writable.
pub proof fn lemma_statements_tokens_are_writable(program: Seq<StatementView>, from: nat)
    requires
        all_statements_writable(program),
    ensures
        all_writable(statements_tokens(program, from)),
    decreases program.len() - from,
{
    if from < program.len() {
        lemma_statement_tokens_are_writable(program[from as int]);
        lemma_statements_tokens_are_writable(program, from + 1);
    }
}

/// Round trip: a program written as source text is tokenized to its tokens,
/// and these are parsed to the program again. This holds of every program whose
/// statements are well formed and writable.
pub proof fn lemma_program_text_roundtrip(program: Seq<StatementView>)
    requires
        all_statements_well_formed(program),
        all_statements_writable(program),
    ensures
        spec_tokenize(program_text(program)) == Ok::<Seq<TokenView>, Seq<char>>(
            program_tokens(program),
        ),
        spec_parse(program_tokens(program)) == Ok::<Seq<StatementView>, int>(program),
{
    lemma_statements_tokens_are_writable(program, 0);
    lemma_tokens_read_back(program_tokens(program));
    lemma_program_parses(program);
}

} // verus!
