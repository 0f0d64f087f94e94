use pattern_lang::parser::util::hyphened_keyword;
use pattern_lang::parser::util::ident;
use pattern_lang::parser::util::keyword;
use pattern_lang::parser::util::predicate;
use pattern_lang::parser::util::predicate_map;
use pattern_lang::parser::util::same_item;
use pattern_lang::parser::util::same_items;
use pattern_lang::parser::util::same_token;
use pattern_lang::parser::util::string_literal;
use pattern_lang::parser::util::template_literal;
use pattern_lang::parser::util::token;
use pattern_lang::parser::util::SyntaxError;
use pattern_lang::tokenizer::TemplateItem;
use pattern_lang::tokenizer::Token;

fn sample<'a>() -> Vec<Token<'a>> {
    vec![
        Token::Keyword("let"),
        Token::Ident("x"),
        Token::Equal,
        Token::StringLiteral("a"),
        Token::TemplateLiteral(vec![TemplateItem::Infer("r")]),
        Token::HyphenedKeyword("if", "match"),
    ]
}

#[test]
fn predicate_takes_a_token_that_satisfies_it() {
    let tokens = sample();
    let found = predicate(|t| matches!(t, Token::Equal), &tokens, 2);
    assert_eq!(found, Ok((3, &Token::Equal)));
}

#[test]
fn predicate_fails_where_it_stands() {
    let tokens = sample();
    assert_eq!(
        predicate(|t| matches!(t, Token::Equal), &tokens, 1),
        Err(SyntaxError { position: 1 })
    );
    assert_eq!(predicate(|_| true, &tokens, 6), Err(SyntaxError { position: 6 }));
    assert_eq!(predicate(|_| true, &tokens, 9), Err(SyntaxError { position: 9 }));
}

#[test]
fn predicate_map_hands_out_the_mapped_value() {
    let tokens = sample();
    let length = |t: &Token| match t {
        Token::Ident(name) => Some(name.len()),
        _ => None,
    };
    assert_eq!(predicate_map(length, &tokens, 1), Ok((2, 1)));
    assert_eq!(predicate_map(length, &tokens, 0), Err(SyntaxError { position: 0 }));
    assert_eq!(predicate_map(length, &tokens, 6), Err(SyntaxError { position: 6 }));
}

#[test]
fn keyword_matches_the_named_keyword_only() {
    let tokens = sample();
    assert_eq!(keyword("let", &tokens, 0), Ok((1, &Token::Keyword("let"))));
    assert_eq!(keyword("fn", &tokens, 0), Err(SyntaxError { position: 0 }));
    assert_eq!(keyword("x", &tokens, 1), Err(SyntaxError { position: 1 }));
    assert_eq!(keyword("let", &tokens, 6), Err(SyntaxError { position: 6 }));
}

#[test]
fn hyphened_keyword_matches_both_words() {
    let tokens = sample();
    assert_eq!(
        hyphened_keyword("if", "match", &tokens, 5),
        Ok((6, &Token::HyphenedKeyword("if", "match")))
    );
    assert_eq!(hyphened_keyword("if", "then", &tokens, 5), Err(SyntaxError { position: 5 }));
    assert_eq!(hyphened_keyword("if", "match", &tokens, 0), Err(SyntaxError { position: 0 }));
}

#[test]
fn ident_hands_out_the_name() {
    let tokens = sample();
    assert_eq!(ident(&tokens, 1), Ok((2, "x")));
    assert_eq!(ident(&tokens, 0), Err(SyntaxError { position: 0 }));
    assert_eq!(ident(&tokens, 3), Err(SyntaxError { position: 3 }));
}

#[test]
fn string_literal_hands_out_the_text() {
    let tokens = sample();
    assert_eq!(string_literal(&tokens, 3), Ok((4, "a")));
    assert_eq!(string_literal(&tokens, 1), Err(SyntaxError { position: 1 }));
}

#[test]
fn template_literal_hands_out_the_items() {
    let tokens = sample();
    assert_eq!(template_literal(&tokens, 4), Ok((5, &vec![TemplateItem::Infer("r")])));
    assert_eq!(template_literal(&tokens, 3), Err(SyntaxError { position: 3 }));
}

#[test]
fn token_matches_an_equal_token() {
    let tokens = sample();
    assert_eq!(token(&Token::Equal, &tokens, 2), Ok((3, &Token::Equal)));
    assert_eq!(token(&Token::Ident("x"), &tokens, 1), Ok((2, &Token::Ident("x"))));
    assert_eq!(token(&Token::Ident("y"), &tokens, 1), Err(SyntaxError { position: 1 }));
    assert_eq!(token(&Token::SemiColon, &tokens, 2), Err(SyntaxError { position: 2 }));
    assert_eq!(token(&Token::Equal, &tokens, 6), Err(SyntaxError { position: 6 }));
}

#[test]
fn same_token_compares_kind_and_text() {
    let all = vec![
        Token::Keyword("a"),
        Token::HyphenedKeyword("a", "b"),
        Token::Ident("a"),
        Token::StringLiteral("a"),
        Token::TemplateLiteral(vec![TemplateItem::Str("a")]),
        Token::OpenBrace,
        Token::CloseBrace,
        Token::OpenBracket,
        Token::CloseBracket,
        Token::Equal,
        Token::Colon,
        Token::SemiColon,
        Token::Comma,
        Token::Bar,
    ];
    for (i, a) in all.iter().enumerate() {
        for (j, b) in all.iter().enumerate() {
            assert_eq!(same_token(a, b), i == j);
            assert_eq!(same_token(a, b), a == b);
        }
    }
    assert!(!same_token(&Token::Keyword("a"), &Token::Keyword("b")));
    assert!(!same_token(
        &Token::HyphenedKeyword("a", "b"),
        &Token::HyphenedKeyword("a", "c")
    ));
    assert!(!same_token(
        &Token::TemplateLiteral(vec![TemplateItem::Str("a")]),
        &Token::TemplateLiteral(vec![TemplateItem::Infer("a")])
    ));
}

#[test]
fn same_items_compares_in_order() {
    let a = vec![TemplateItem::Infer("x"), TemplateItem::Str("y")];
    let b = vec![TemplateItem::Infer("x"), TemplateItem::Str("y")];
    let c = vec![TemplateItem::Str("y"), TemplateItem::Infer("x")];
    let d = vec![TemplateItem::Infer("x")];
    assert!(same_items(&a, &b));
    assert!(!same_items(&a, &c));
    assert!(!same_items(&a, &d));
    assert!(same_items(&vec![], &vec![]));
    assert!(same_item(&TemplateItem::Interpolate("x"), &TemplateItem::Interpolate("x")));
    assert!(!same_item(&TemplateItem::Interpolate("x"), &TemplateItem::Infer("x")));
    assert!(!same_item(&TemplateItem::Str("x"), &TemplateItem::Str("y")));
}
