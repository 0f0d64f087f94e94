use pattern_lang::ast::Expression;
use pattern_lang::parser::expression::copy_items;
use pattern_lang::parser::expression::parse_atomic_expression;
use pattern_lang::parser::expression::parse_boolean_literal;
use pattern_lang::parser::expression::parse_distribute;
use pattern_lang::parser::expression::parse_expression;
use pattern_lang::parser::expression::parse_ident;
use pattern_lang::parser::expression::parse_ifmatch;
use pattern_lang::parser::expression::parse_map;
use pattern_lang::parser::expression::parse_string_literal;
use pattern_lang::parser::expression::parse_template_literal;
use pattern_lang::parser::expression::parse_tuple;
use pattern_lang::parser::expression::parse_union;
use pattern_lang::parser::util::SyntaxError;
use pattern_lang::tokenizer::tokenize;
use pattern_lang::tokenizer::TemplateItem;
use pattern_lang::tokenizer::Token;

fn text(value: &str) -> Expression<'_> {
    Expression::StringLiteral { value }
}

fn var(name: &str) -> Expression<'_> {
    Expression::Var { name }
}

fn failed<T>(position: usize) -> Result<T, SyntaxError> {
    Err(SyntaxError { position })
}

fn if_match_tokens<'a>() -> Vec<Token<'a>> {
    vec![
        Token::HyphenedKeyword("if", "match"),
        Token::Ident("Str"),
        Token::Keyword("with"),
        Token::TemplateLiteral(vec![
            TemplateItem::Infer("Rest"),
            TemplateItem::Interpolate("Digit"),
        ]),
        Token::Keyword("then"),
        Token::OpenBracket,
        Token::Ident("Rest"),
        Token::Comma,
        Token::Ident("Digit"),
        Token::CloseBracket,
        Token::Keyword("else"),
        Token::Ident("never"),
    ]
}

#[test]
fn single_alternative_is_not_wrapped() {
    let tokens = tokenize("\"a\"").unwrap();
    assert_eq!(parse_expression(&tokens, 0), Ok((1, text("a"))));
}

#[test]
fn alternatives_make_a_union_in_order() {
    let tokens = tokenize("\"a\" | \"b\"").unwrap();
    assert_eq!(
        parse_expression(&tokens, 0),
        Ok((3, Expression::Union { exprs: vec![text("a"), text("b")] }))
    );
}

#[test]
fn union_may_start_with_a_bar() {
    let tokens = tokenize("| \"a\" | b | true").unwrap();
    assert_eq!(
        parse_expression(&tokens, 0),
        Ok((
            6,
            Expression::Union {
                exprs: vec![text("a"), var("b"), Expression::BooleanLiteral { value: true }]
            }
        ))
    );
    let tokens = tokenize("| \"a\"").unwrap();
    assert_eq!(parse_expression(&tokens, 0), Ok((2, text("a"))));
}

#[test]
fn bar_must_be_followed_by_an_alternative() {
    let tokens = tokenize("\"a\" | ;").unwrap();
    assert_eq!(parse_expression(&tokens, 0), failed(2));
    let tokens = tokenize("\"a\" |").unwrap();
    assert_eq!(parse_expression(&tokens, 0), failed(2));
    let tokens = tokenize("| |").unwrap();
    assert_eq!(parse_union(&tokens, 0), failed(1));
}

#[test]
fn union_members_are_atomic() {
    let tokens = vec![
        Token::Ident("a"),
        Token::Bar,
        Token::Keyword("distribute"),
        Token::Ident("x"),
        Token::Keyword("in"),
        Token::Ident("y"),
    ];
    assert_eq!(parse_expression(&tokens, 0), failed(2));
}

#[test]
fn expression_stops_where_it_ends() {
    let tokens = tokenize("a b").unwrap();
    assert_eq!(parse_expression(&tokens, 0), Ok((1, var("a"))));
    assert_eq!(parse_expression(&tokens, 1), Ok((2, var("b"))));
    assert_eq!(parse_expression(&tokens, 2), failed(2));
    assert_eq!(parse_expression(&tokens, 7), failed(7));
}

#[test]
fn map_entry_with_semicolon_is_one_pair() {
    let tokens = tokenize("{\"x\": \"1\";}").unwrap();
    assert_eq!(
        parse_expression(&tokens, 0),
        Ok((6, Expression::MapLiteral { pairs: vec![("x", text("1"))] }))
    );
}

#[test]
fn map_entry_without_semicolon_fails() {
    let tokens = tokenize("{\"x\": \"1\"}").unwrap();
    assert_eq!(parse_expression(&tokens, 0), failed(4));
    assert_eq!(parse_map(&tokens, 0), failed(4));
}

#[test]
fn map_keeps_entries_in_order_and_repeated_keys() {
    let tokens = tokenize("{\"b\": x; \"a\": [y]; \"b\": \"z\" | w;}").unwrap();
    assert_eq!(
        parse_map(&tokens, 0),
        Ok((
            18,
            Expression::MapLiteral {
                pairs: vec![
                    ("b", var("x")),
                    ("a", Expression::Tuple { values: vec![var("y")] }),
                    ("b", Expression::Union { exprs: vec![text("z"), var("w")] }),
                ]
            }
        ))
    );
}

#[test]
fn empty_map_has_no_pairs() {
    let tokens = tokenize("{}").unwrap();
    assert_eq!(parse_map(&tokens, 0), Ok((2, Expression::MapLiteral { pairs: vec![] })));
}

#[test]
fn map_fails_at_the_token_that_does_not_fit() {
    let tokens = tokenize("{x: \"1\";}").unwrap();
    assert_eq!(parse_map(&tokens, 0), failed(1));
    let tokens = tokenize("{\"x\" \"1\";}").unwrap();
    assert_eq!(parse_map(&tokens, 0), failed(2));
    let tokens = tokenize("{\"x\": ;}").unwrap();
    assert_eq!(parse_map(&tokens, 0), failed(3));
    let tokens = tokenize("{\"x\": \"1\";").unwrap();
    assert_eq!(parse_map(&tokens, 0), failed(5));
    let tokens = tokenize("\"x\"").unwrap();
    assert_eq!(parse_map(&tokens, 0), failed(0));
}

#[test]
fn tuple_holds_its_members_in_order() {
    let tokens = tokenize("[false, \"0\", [], {}]").unwrap();
    assert_eq!(
        parse_tuple(&tokens, 0),
        Ok((
            11,
            Expression::Tuple {
                values: vec![
                    Expression::BooleanLiteral { value: false },
                    text("0"),
                    Expression::Tuple { values: vec![] },
                    Expression::MapLiteral { pairs: vec![] },
                ]
            }
        ))
    );
}

#[test]
fn empty_tuple_has_no_members() {
    let tokens = tokenize("[]").unwrap();
    assert_eq!(parse_tuple(&tokens, 0), Ok((2, Expression::Tuple { values: vec![] })));
}

#[test]
fn tuple_fails_at_the_token_that_does_not_fit() {
    let tokens = tokenize("[a, ]").unwrap();
    assert_eq!(parse_tuple(&tokens, 0), failed(3));
    let tokens = tokenize("[a b]").unwrap();
    assert_eq!(parse_tuple(&tokens, 0), failed(2));
    let tokens = tokenize("[,]").unwrap();
    assert_eq!(parse_tuple(&tokens, 0), failed(1));
    let tokens = tokenize("[a").unwrap();
    assert_eq!(parse_tuple(&tokens, 0), failed(2));
    let tokens = tokenize("[").unwrap();
    assert_eq!(parse_tuple(&tokens, 0), failed(1));
    let tokens = tokenize("a").unwrap();
    assert_eq!(parse_tuple(&tokens, 0), failed(0));
}

#[test]
fn nesting_goes_deep() {
    let depth = 200;
    let source = format!("{}x{}", "[".repeat(depth), "]".repeat(depth));
    let tokens = tokenize(&source).unwrap();
    let (next, mut expr) = parse_expression(&tokens, 0).unwrap();
    assert_eq!(next, 2 * depth + 1);
    for _ in 0..depth {
        expr = match expr {
            Expression::Tuple { mut values } => {
                assert_eq!(values.len(), 1);
                values.pop().unwrap()
            }
            other => panic!("not a tuple: {:?}", other),
        };
    }
    assert_eq!(expr, var("x"));
}

#[test]
fn atomic_forms_are_told_apart_by_their_first_token() {
    let tokens = tokenize("\"s\" `t` true false {} [] v").unwrap();
    assert_eq!(parse_atomic_expression(&tokens, 0), Ok((1, text("s"))));
    assert_eq!(
        parse_atomic_expression(&tokens, 1),
        Ok((2, Expression::TemplateLiteral { items: vec![TemplateItem::Str("t")] }))
    );
    assert_eq!(
        parse_atomic_expression(&tokens, 2),
        Ok((3, Expression::BooleanLiteral { value: true }))
    );
    assert_eq!(
        parse_atomic_expression(&tokens, 3),
        Ok((4, Expression::BooleanLiteral { value: false }))
    );
    assert_eq!(
        parse_atomic_expression(&tokens, 4),
        Ok((6, Expression::MapLiteral { pairs: vec![] }))
    );
    assert_eq!(parse_atomic_expression(&tokens, 6), Ok((8, Expression::Tuple { values: vec![] })));
    assert_eq!(parse_atomic_expression(&tokens, 8), Ok((9, var("v"))));
    assert_eq!(parse_atomic_expression(&tokens, 9), failed(9));
}

#[test]
fn atomic_expression_rejects_other_tokens() {
    let tokens = tokenize("let fn ; = : , } ] if-match").unwrap();
    for at in 0..tokens.len() {
        assert_eq!(parse_atomic_expression(&tokens, at), failed(at));
    }
}

#[test]
fn single_token_parsers_take_their_own_token_only() {
    let tokens = tokenize("\"s\" `t` true v").unwrap();
    assert_eq!(parse_string_literal(&tokens, 0), Ok((1, text("s"))));
    assert_eq!(parse_string_literal(&tokens, 1), failed(1));
    assert_eq!(
        parse_template_literal(&tokens, 1),
        Ok((2, Expression::TemplateLiteral { items: vec![TemplateItem::Str("t")] }))
    );
    assert_eq!(parse_template_literal(&tokens, 0), failed(0));
    assert_eq!(
        parse_boolean_literal(&tokens, 2),
        Ok((3, Expression::BooleanLiteral { value: true }))
    );
    assert_eq!(parse_boolean_literal(&tokens, 3), failed(3));
    assert_eq!(parse_ident(&tokens, 3), Ok((4, var("v"))));
    assert_eq!(parse_ident(&tokens, 2), failed(2));
    assert_eq!(parse_ident(&tokens, 4), failed(4));
}

#[test]
fn boolean_literal_is_a_keyword_not_an_identifier() {
    let tokens = vec![Token::Ident("true"), Token::Keyword("let")];
    assert_eq!(parse_boolean_literal(&tokens, 0), failed(0));
    assert_eq!(parse_boolean_literal(&tokens, 1), failed(1));
    assert_eq!(parse_expression(&tokens, 0), Ok((1, var("true"))));
}

#[test]
fn distribute_holds_identifier_and_body() {
    let tokens = vec![
        Token::Keyword("distribute"),
        Token::Ident("Digit"),
        Token::Keyword("in"),
        Token::StringLiteral("a"),
        Token::Bar,
        Token::Ident("Digit"),
    ];
    let expected = Expression::Distribute {
        ident: "Digit",
        body: Box::new(Expression::Union { exprs: vec![text("a"), var("Digit")] }),
    };
    assert_eq!(parse_distribute(&tokens, 0), Ok((6, expected)));
    let expected = Expression::Distribute {
        ident: "Digit",
        body: Box::new(Expression::Union { exprs: vec![text("a"), var("Digit")] }),
    };
    assert_eq!(parse_expression(&tokens, 0), Ok((6, expected)));
}

#[test]
fn distribute_fails_at_the_token_that_does_not_fit() {
    let good = vec![
        Token::Keyword("distribute"),
        Token::Ident("Digit"),
        Token::Keyword("in"),
        Token::Ident("x"),
    ];
    for at in 1..4 {
        let mut tokens = good.clone();
        tokens[at] = Token::SemiColon;
        assert_eq!(parse_expression(&tokens, 0), failed(at));
        assert_eq!(parse_distribute(&tokens, 0), failed(at));
        assert_eq!(parse_distribute(&good[..at], 0), failed(at));
    }
    assert_eq!(parse_distribute(&good[1..], 0), failed(0));
}

#[test]
fn distribute_from_source_text_is_an_identifier() {
    let tokens = tokenize("distribute Digit in x").unwrap();
    assert_eq!(parse_expression(&tokens, 0), Ok((1, var("distribute"))));
    assert_eq!(parse_distribute(&tokens, 0), failed(0));
}

#[test]
fn if_match_holds_its_four_parts() {
    let tokens = if_match_tokens();
    let expected = Expression::IfMatch {
        target: Box::new(var("Str")),
        pattern: vec![TemplateItem::Infer("Rest"), TemplateItem::Interpolate("Digit")],
        then_expr: Box::new(Expression::Tuple { values: vec![var("Rest"), var("Digit")] }),
        else_expr: Box::new(var("never")),
    };
    assert_eq!(parse_ifmatch(&tokens, 0), Ok((12, expected)));
    let (next, parsed) = parse_expression(&tokens, 0).unwrap();
    assert_eq!(next, 12);
    assert!(matches!(parsed, Expression::IfMatch { .. }));
}

#[test]
fn if_match_without_with_fails_there() {
    let mut tokens = if_match_tokens();
    tokens.remove(2);
    assert_eq!(parse_expression(&tokens, 0), failed(2));
    assert_eq!(parse_ifmatch(&tokens, 0), failed(2));
}

#[test]
fn if_match_without_then_fails_there() {
    let mut tokens = if_match_tokens();
    tokens.remove(4);
    assert_eq!(parse_expression(&tokens, 0), failed(4));
}

#[test]
fn if_match_without_else_fails_there() {
    let mut tokens = if_match_tokens();
    tokens.remove(10);
    assert_eq!(parse_expression(&tokens, 0), failed(10));
    tokens.truncate(10);
    assert_eq!(parse_expression(&tokens, 0), failed(10));
}

#[test]
fn if_match_with_another_pattern_fails_there() {
    let mut tokens = if_match_tokens();
    tokens[3] = Token::StringLiteral("[Rest]{Digit}");
    assert_eq!(parse_expression(&tokens, 0), failed(3));
    tokens.remove(3);
    assert_eq!(parse_expression(&tokens, 0), failed(3));
}

#[test]
fn if_match_with_words_as_identifiers_fails() {
    let mut tokens = if_match_tokens();
    tokens[2] = Token::Ident("with");
    assert_eq!(parse_expression(&tokens, 0), failed(2));
    let mut tokens = if_match_tokens();
    tokens[4] = Token::Ident("then");
    assert_eq!(parse_expression(&tokens, 0), failed(4));
    let mut tokens = if_match_tokens();
    tokens[10] = Token::Keyword("then");
    assert_eq!(parse_expression(&tokens, 0), failed(10));
}

#[test]
fn if_match_fails_inside_its_parts() {
    let mut tokens = if_match_tokens();
    tokens[1] = Token::SemiColon;
    assert_eq!(parse_expression(&tokens, 0), failed(1));
    let mut tokens = if_match_tokens();
    tokens[9] = Token::CloseBrace;
    assert_eq!(parse_expression(&tokens, 0), failed(9));
    let mut tokens = if_match_tokens();
    tokens[11] = Token::Equal;
    assert_eq!(parse_expression(&tokens, 0), failed(11));
    let tokens = if_match_tokens();
    assert_eq!(parse_ifmatch(&tokens, 1), failed(1));
}

#[test]
fn if_match_nests_in_its_branches() {
    let mut tokens = if_match_tokens();
    tokens.pop();
    tokens.extend(if_match_tokens());
    let (next, parsed) = parse_expression(&tokens, 0).unwrap();
    assert_eq!(next, 23);
    match parsed {
        Expression::IfMatch { else_expr, .. } => {
            assert!(matches!(*else_expr, Expression::IfMatch { .. }))
        }
        other => panic!("not an if-match: {:?}", other),
    }
}

#[test]
fn copy_items_keeps_the_items() {
    let items =
        vec![TemplateItem::Infer("a"), TemplateItem::Str("b"), TemplateItem::Interpolate("c")];
    assert_eq!(copy_items(&items), items);
    assert_eq!(copy_items(&vec![]), vec![]);
}
